use lilium::reg;
use lilium::{compile, run, Fault, Module, Thread};

/// Compiles `src`, runs it with `registers` registers, and reads the result register.
fn run_program(src: &str, registers: usize) -> Result<i64, Fault> {
    let Module { functions: f, constants: c, entry_point: e, code: i } = compile(src).expect("program compiles");
    let mut thread = Thread { functions: &f, constants: &c, code: &i, registers: vec![0; registers], base: 0 };
    run(&mut thread, e as usize)?;
    Ok(thread.registers[reg::VAL as usize])
}

#[test]
fn conditional_small_const() {
    let result = run_program(
        "(def asub (a b) (if (> a b) ((- a b)) ((- b a))))(asub 100 200)",
        1536,
    )
    .unwrap();
    assert_eq!(result, 100);
}

#[test]
fn conditional_big_const() {
    let result = run_program(
        "(def asub (a b) (if (> a b) ((- a b)) ((- b a))))(asub 200 100)",
        1536,
    )
    .unwrap();
    assert_eq!(result, 100);
}
