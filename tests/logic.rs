use lilium::reg;
use lilium::{compile, run, Fault, Module, Thread};

/// Compiles `src`, runs it with `registers` registers, and reads the result register.
fn run_program(src: &str, registers: usize) -> Result<i64, Fault> {
    let Module { functions: f, constants: c, entry_point: e, code: i } = compile(src).expect("program compiles");
    let mut thread = Thread { functions: &f, constants: &c, code: &i, registers: vec![0; registers], base: 0 };
    run(&mut thread, e as usize)?;
    Ok(thread.registers[reg::VAL as usize])
}

#[test]
fn const_and() {
    let result = run_program("(& 1 0)", 256).unwrap();
    assert_eq!(result, 0);
}

#[test]
fn const_or() {
    let result = run_program("(| 1 0)", 256).unwrap();
    assert_eq!(result, 1);
}

#[test]
fn conditional() {
    let result = run_program(
        "(def fun (a b)  (if      (> a 0)     ((fun (- a 1) (+ b 1)))     ((+ b 1))))(fun 20 2)",
        6144,
    )
    .unwrap();
    assert_eq!(result, 23);
}
