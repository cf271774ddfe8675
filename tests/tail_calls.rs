use lilium::reg;
use lilium::{compile, run, Fault, Module, Thread};

/// Compiles `src`, runs it with `registers` registers, and reads the result register.
fn run_program(src: &str, registers: usize) -> Result<i64, Fault> {
    let Module { functions: f, constants: c, entry_point: e, code: i } = compile(src).expect("program compiles");
    let mut thread = Thread { functions: &f, constants: &c, code: &i, registers: vec![0; registers], base: 0 };
    run(&mut thread, e as usize)?;
    Ok(thread.registers[reg::VAL as usize])
}

#[test]
#[should_panic(expected = "stackoverflow")]
fn call_notail() {
    let result = run_program(
        "(def sum (a)  (if    (> a 0)    ((+ 1 (sum (- a 1))))    ((+ 0 1))))(sum 10)",
        1536,
    );
    if result == Err(Fault::StackOverflow) {
        panic!("stackoverflow");
    }
}

#[test]
fn call_tail() {
    let result = run_program(
        "(def sum (a b)  (if      (> a 0)     ((sum (- a 1) (+ b 1)))     ((+ b 1))))(sum 200 0)",
        1536,
    )
    .unwrap();
    assert_eq!(result, 201);
}
