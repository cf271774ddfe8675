use lilium::reg;
use lilium::{compile, run, Fault, Module, Thread};

/// Compiles `src`, runs it with `registers` registers, and reads the result register.
fn run_program(src: &str, registers: usize) -> Result<i64, Fault> {
    let Module { functions: f, constants: c, entry_point: e, code: i } = compile(src).expect("program compiles");
    let mut thread = Thread { functions: &f, constants: &c, code: &i, registers: vec![0; registers], base: 0 };
    run(&mut thread, e as usize)?;
    Ok(thread.registers[reg::VAL as usize])
}

#[test]
fn calls_calls_noargs() {
    let result = run_program(
        "(def div () (/ 100 4))(def mul () (* 2 3))(def add () (+ 4 5))(def sub () (- 1000001 1000000))(+ (div) (+ (mul) (+ (add) (sub))))",
        1536,
    )
    .unwrap();
    assert_eq!(result, 41);
}

#[test]
fn calls_calls_args() {
    let result = run_program(
        "(def div (a b) (/ a b))(def mul (a b) (* a b))(def add (a b c) (+ a (+ b c)))(def neg (a) (- 0 a))(neg (add 10 20 (div 16 (mul 2 2))))",
        1536,
    )
    .unwrap();
    assert_eq!(result, -34);
}

#[test]
fn calls_calls_vars() {
    let result = run_program(
        "(def fun (a b) (let ((c (* a b)) (d (+ a b))) (+ (- c d) (* d c))))(def neg (a) (- 0 a))(neg (fun 10 20))",
        1536,
    )
    .unwrap();
    assert_eq!(result, -6170);
}
