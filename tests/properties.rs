use lilium::ops;
use lilium::reg;
use lilium::vm::{resume_input, step, Flow};
use lilium::{compile, generate, parse_expressions, run, run_bounded, CompileError, Expression, Fault, Instruction, Module, Stop, Thread};

fn run_program(src: &str, registers: usize) -> Result<i64, Fault> {
    let Module { functions: f, constants: c, entry_point: e, code: i } = compile(src).expect("program compiles");
    let mut thread = Thread { functions: &f, constants: &c, code: &i, registers: vec![0; registers], base: 0 };
    run(&mut thread, e as usize)?;
    Ok(thread.registers[reg::VAL as usize])
}

fn run_module(m: &Module, registers: usize) -> Result<i64, Fault> {
    let mut thread = Thread { functions: &m.functions, constants: &m.constants, code: &m.code, registers: vec![0; registers], base: 0 };
    run(&mut thread, m.entry_point as usize)?;
    Ok(thread.registers[reg::VAL as usize])
}

fn ins(opcode: u8, target: u8, left: u8, right: u8) -> Instruction {
    Instruction { opcode, target, left, right }
}

#[test]
fn arithmetic_operators() {
    assert_eq!(run_program("(+ 40000 2)", 256), Ok(40002));
    assert_eq!(run_program("(- 3 40000)", 256), Ok(-39997));
    assert_eq!(run_program("(* 70000 70000)", 256), Ok(4900000000));
    assert_eq!(run_program("(/ 7 2)", 256), Ok(3));
    assert_eq!(run_program("(/ (- 0 7) 2)", 256), Ok(-3));
}

#[test]
fn logical_and_relational_operators() {
    assert_eq!(run_program("(& 2 3)", 256), Ok(1));
    assert_eq!(run_program("(| 0 0)", 256), Ok(0));
    assert_eq!(run_program("(== 3 3)", 256), Ok(1));
    assert_eq!(run_program("(== 3 4)", 256), Ok(0));
    assert_eq!(run_program("(< 1 2)", 256), Ok(1));
    assert_eq!(run_program("(<= 2 2)", 256), Ok(1));
    assert_eq!(run_program("(> 1 2)", 256), Ok(0));
    assert_eq!(run_program("(>= 2 3)", 256), Ok(0));
    assert_eq!(run_program("(!= 1 2)", 256), Ok(1));
}

#[test]
fn wrapping_overflow() {
    assert_eq!(run_program("(+ 9223372036854775807 1)", 256), Ok(i64::MIN));
}

#[test]
fn small_literal_is_immediate() {
    let m = compile("32767").unwrap();
    assert_eq!(m.code[m.entry_point as usize], ins(ops::LD, 1, 0xff, 0x7f));
    assert!(m.constants.is_empty());
    assert_eq!(run_module(&m, 256), Ok(32767));
}

#[test]
fn large_literal_goes_to_pool() {
    let m = compile("32768").unwrap();
    assert_eq!(m.code[m.entry_point as usize], ins(ops::LDB, 1, 0, 0));
    assert_eq!(m.constants, vec![32768]);
    assert_eq!(run_module(&m, 256), Ok(32768));
}

#[test]
fn negative_literal_bounds() {
    let m = generate(&vec![Expression::Integer(-32768)]).unwrap();
    assert_eq!(m.code[0], ins(ops::LD, 1, 0x00, 0x80));
    assert_eq!(run_module(&m, 256), Ok(-32768));
    let m = generate(&vec![Expression::Integer(-32769)]).unwrap();
    assert_eq!(m.code[0].opcode, ops::LDB);
    assert_eq!(m.constants, vec![-32769]);
    assert_eq!(run_module(&m, 256), Ok(-32769));
}

#[test]
fn zero_argument_call_returns_body() {
    assert_eq!(run_program("(def f () 7) (f)", 512), Ok(7));
}

#[test]
fn arguments_arrive_in_order() {
    assert_eq!(run_program("(def sub (a b c) (- a (- b c))) (sub 10 3 1)", 512), Ok(8));
}

#[test]
fn deep_tail_recursion_keeps_frame() {
    let src = "(def sum (a b) (if (> a 0) ((sum (- a 1) (+ b 1))) ((+ b 1))))(sum 1000000 0)";
    let Module { functions: f, constants: c, entry_point: e, code: i } = compile(src).unwrap();
    let mut thread = Thread { functions: &f, constants: &c, code: &i, registers: vec![0; 512], base: 0 };
    assert_eq!(run(&mut thread, e as usize), Ok(Stop::Halted));
    assert_eq!(thread.base, 0);
    assert_eq!(thread.registers[reg::VAL as usize], 1000001);
}

#[test]
fn tail_recursion_scenario() {
    let src = "(def sum (a b) (if (> a 0) ((sum (- a 1) (+ b 1))) ((+ b 1)))) (sum 900 0)";
    assert_eq!(run_program(src, 1536), Ok(901));
}

#[test]
fn non_tail_recursion_with_room() {
    let src = "(def sum (a) (if (> a 0) ((+ 1 (sum (- a 1)))) ((+ 0 1)))) (sum 10)";
    assert_eq!(run_program(src, 256 * 13), Ok(11));
    assert_eq!(run_program(src, 256 * 6), Err(Fault::StackOverflow));
}

#[test]
fn let_bindings_see_earlier_ones() {
    assert_eq!(run_program("(let ((a 2) (b (* a 10))) (+ a b))", 256), Ok(22));
}

#[test]
fn parse_tree_shape() {
    let es = parse_expressions("(def f (a) (+ a 1)) (f 2)").unwrap();
    assert_eq!(es.len(), 2);
    match &es[0] {
        Expression::FunctionDefinition(name, params, body) => {
            assert_eq!(name, "f");
            assert_eq!(params, &vec!["a".to_string()]);
            assert!(matches!(&body[0], Expression::BinaryOp(op, _, _) if op == "+"));
        }
        other => panic!("unexpected {:?}", other),
    }
    assert!(matches!(&es[1], Expression::Function(name, args) if name == "f" && args.len() == 1));
}

#[test]
fn parse_errors() {
    assert_eq!(parse_expressions("(+ 1").unwrap_err(), CompileError::Parse(4));
    assert_eq!(parse_expressions("(+ 1 2))").unwrap_err(), CompileError::Parse(7));
    assert_eq!(parse_expressions("(+ 1 \u{e9})").unwrap_err(), CompileError::Parse(5));
    assert_eq!(parse_expressions("99999999999999999999").unwrap_err(), CompileError::Parse(0));
    assert_eq!(parse_expressions("(+ 1 #)").unwrap_err(), CompileError::Parse(5));
    assert_eq!(parse_expressions("(def f (a 2) a)").unwrap_err(), CompileError::Parse(10));
    assert_eq!(parse_expressions("(if 1 2 (3))").unwrap_err(), CompileError::Parse(6));
    assert_eq!(compile("(let ((x 1) y) x)").err(), Some(CompileError::Parse(12)));
    assert!(parse_expressions("9223372036854775807").is_ok());
}

#[test]
fn compile_errors() {
    assert_eq!(compile("(+ x 1)").err(), Some(CompileError::UndefinedVariable("x".to_string())));
    assert_eq!(compile("(f 1)").err(), Some(CompileError::UndefinedFunction("f".to_string())));
    assert_eq!(compile("(+= 1 2)").err(), Some(CompileError::InvalidOperation("+=".to_string())));
    assert_eq!(compile("(+ (def f () 1) 2)").err(), Some(CompileError::MisplacedDefinition("f".to_string())));
}

#[test]
fn too_many_registers() {
    let mut src = String::new();
    for _ in 0..130 {
        src.push_str("(+ 1 ");
    }
    src.push('1');
    for _ in 0..130 {
        src.push(')');
    }
    assert_eq!(compile(&src).err(), Some(CompileError::TooManyRegisters));
}

#[test]
fn too_many_constants() {
    let mut src = String::new();
    for _ in 0..65537 {
        src.push_str("100000 ");
    }
    assert_eq!(compile(&src).err(), Some(CompileError::TooManyConstants));
}

#[test]
fn jump_too_long() {
    let mut src = String::from("(if 1 (0) (");
    for _ in 0..65534 {
        src.push_str("1 ");
    }
    src.push_str("))");
    assert_eq!(compile(&src).err(), Some(CompileError::JumpTooLong));
}

#[test]
fn division_by_zero_faults() {
    assert_eq!(run_program("(/ 1 0)", 256), Err(Fault::DivisionByZero));
}

#[test]
fn fuel_runs_out() {
    let m = compile("(+ 1 2)").unwrap();
    let mut thread = Thread { functions: &m.functions, constants: &m.constants, code: &m.code, registers: vec![0; 256], base: 0 };
    assert_eq!(run_bounded(&mut thread, m.entry_point as usize, 2), Err(Fault::OutOfFuel));
}

#[test]
fn bad_programs_fault() {
    let code = vec![ins(99, 0, 0, 0)];
    let mut thread = Thread { functions: &[], constants: &[], code: &code, registers: vec![0; 256], base: 0 };
    assert_eq!(run(&mut thread, 0), Err(Fault::BadOpcode));
    let code = vec![ins(ops::RET, 0, 0, 0)];
    let mut thread = Thread { functions: &[], constants: &[], code: &code, registers: vec![0; 256], base: 0 };
    assert_eq!(run(&mut thread, 0), Err(Fault::StackUnderflow));
    let code = vec![ins(ops::CAL, 3, 0, 0)];
    let mut thread = Thread { functions: &[], constants: &[], code: &code, registers: vec![0; 512], base: 0 };
    assert_eq!(run(&mut thread, 0), Err(Fault::BadFunction));
    let code = vec![ins(ops::LDB, 1, 0, 0)];
    let mut thread = Thread { functions: &[], constants: &[], code: &code, registers: vec![0; 256], base: 0 };
    assert_eq!(run(&mut thread, 0), Err(Fault::BadConstant));
    let code = vec![ins(ops::JMF, 5, 0, 0)];
    let mut thread = Thread { functions: &[], constants: &[], code: &code, registers: vec![0; 256], base: 0 };
    assert_eq!(run(&mut thread, 0), Err(Fault::BadAddress));
    let code = vec![ins(ops::MOV, 1, 2, 0)];
    let mut thread = Thread { functions: &[], constants: &[], code: &code, registers: vec![0; 2], base: 0 };
    assert_eq!(run(&mut thread, 0), Err(Fault::StackOverflow));
}

#[test]
fn write_and_read_pause_execution() {
    let code = vec![ins(ops::LD, 2, 42, 0), ins(ops::WRI, 3, 2, 0), ins(ops::RDI, 1, 0, 0), ins(ops::HLT, 0, 0, 0)];
    let mut thread = Thread { functions: &[], constants: &[], code: &code, registers: vec![0; 256], base: 0 };
    assert_eq!(run(&mut thread, 0), Ok(Stop::Output(42, 2)));
    assert_eq!(thread.registers[3], 42);
    assert_eq!(run(&mut thread, 2), Ok(Stop::Input(2)));
    assert_eq!(resume_input(&mut thread, 2, -5), Flow::Continue(3));
    assert_eq!(thread.registers[1], -5);
    assert_eq!(run(&mut thread, 3), Ok(Stop::Halted));
}

#[test]
fn jumps_and_not() {
    let code = vec![
        ins(ops::LD, 2, 0, 0),
        ins(ops::NOT, 3, 2, 0),
        ins(ops::JTF, 3, 3, 0),
        ins(ops::HLT, 0, 0, 0),
        ins(ops::HLT, 0, 0, 0),
        ins(ops::MOV, 1, 3, 0),
        ins(ops::JMB, 3, 0, 0),
    ];
    let mut thread = Thread { functions: &[], constants: &[], code: &code, registers: vec![0; 256], base: 0 };
    assert_eq!(step(&mut thread, 0), Flow::Continue(1));
    assert_eq!(step(&mut thread, 1), Flow::Continue(2));
    assert_eq!(thread.registers[3], 1);
    assert_eq!(step(&mut thread, 2), Flow::Continue(5));
    assert_eq!(step(&mut thread, 5), Flow::Continue(6));
    assert_eq!(step(&mut thread, 6), Flow::Continue(3));
    assert_eq!(thread.registers[1], 1);
}

#[test]
fn listing_of_arithmetic() {
    let m = compile("(+ 1 40000)").unwrap();
    let text = lilium::disassemble(&m.constants, &m.functions, &m.code);
    assert_eq!(text, "0x00000: ld 2 1\n0x00001: ld 3 40000\n0x00002: add 1 2 3\n0x00003: hlt\n");
}

#[test]
fn listing_of_call_and_branch() {
    let m = compile("(def f () 7) (f)").unwrap();
    let text = lilium::disassemble(&m.constants, &m.functions, &m.code);
    assert_eq!(text, "0x00000: ld 1 7\n0x00001: mov 1 1\n0x00002: ret\n0x00003: call 0x0\n0x00004: ldr 1\n0x00005: hlt\n");
    let m = compile("(if 1 (2) (3))").unwrap();
    let text = lilium::disassemble(&m.constants, &m.functions, &m.code);
    assert_eq!(text, "0x00000: ld 1 1\n0x00001: jmt 1 0x3\n0x00002: ld 1 3\n0x00003: jmp 0x2\n0x00004: ld 1 2\n0x00005: hlt\n");
    assert_eq!(run_module(&m, 256), Ok(2));
}

#[test]
fn listing_of_tail_call_and_negative_immediate() {
    let m = compile("(def f (a) (f a)) 0").unwrap();
    let text = lilium::disassemble(&m.constants, &m.functions, &m.code);
    assert_eq!(text, "0x00000: mov 3 1\n0x00001: mov 1 3\n0x00002: tcall 0x0\n0x00003: mov 1 2\n0x00004: ret\n0x00005: ld 1 0\n0x00006: hlt\n");
    let code = vec![ins(ops::LD, 4, 0xfb, 0xff), ins(ops::LDB, 1, 9, 0), ins(200, 0, 0, 0)];
    let text = lilium::disassemble(&[], &[], &code);
    assert_eq!(text, "0x00000: ld 4 -5\n0x00001: invalid\n0x00002: invalid\n");
}

#[test]
fn integer_input() {
    assert_eq!(lilium::parse_integer(" 42\n"), Some(42));
    assert_eq!(lilium::parse_integer("-17"), Some(-17));
    assert_eq!(lilium::parse_integer("-9223372036854775808"), Some(i64::MIN));
    assert_eq!(lilium::parse_integer("9223372036854775807"), Some(i64::MAX));
    assert_eq!(lilium::parse_integer("9223372036854775808"), None);
    assert_eq!(lilium::parse_integer("12a"), None);
    assert_eq!(lilium::parse_integer("-"), None);
    assert_eq!(lilium::parse_integer("  "), None);
    assert_eq!(lilium::parse_integer("+5"), Some(5));
    assert_eq!(lilium::parse_integer("+"), None);
    assert_eq!(lilium::parse_integer("-0"), Some(0));
    assert_eq!(lilium::parse_integer("+-5"), None);
    assert_eq!(lilium::parse_integer("\u{a0}7\u{3000}\r\n"), Some(7));
    assert_eq!(lilium::parse_integer("\u{2003}-12\u{85}"), Some(-12));
    assert_eq!(lilium::parse_integer("\u{663}"), None);
    assert_eq!(lilium::parse_integer("1 2"), None);
}
