use vstd::prelude::*;
use crate::ast::Expression;
use crate::codegen::{ins, literal_code, op_code, gen_expr, generate_spec, def_names, gen_defs, gen_top, join, gen_block, gen_function,
    gen_args, gen_binds, bound_vars, param_vars, arg_moves, call_ins, fn_lookup, consts_of, Gen};
use crate::common::{Instruction, word16, sign_extend16};
use crate::ops;
use crate::reg;
use crate::vm::{Program, Flow, Fault, Stop, WINDOW, alu, step_spec, run_spec, callee};

verus! {

/// An integer literal in [-32768, 32767] becomes one immediate load whose sign-extended
/// operand is the literal; any other literal becomes one constant load whose 16-bit operand
/// is the index at which the pool receives the literal.
pub proof fn law_literal_encoding(n: i64, base: int, nc: int)
    requires
        0 <= base <= 255,
        0 <= nc,
    ensures
        -32768 <= n <= 32767 ==> (literal_code(n, base, nc) matches Ok((c, k)) && k.len() == 0 && c.len() == 1
            && c[0].opcode == ops::LD && c[0].target == base
            && sign_extend16(word16(c[0].left, c[0].right)) == n),
        !(-32768 <= n <= 32767) && nc < 65536 ==> (literal_code(n, base, nc) matches Ok((c, k)) && k == seq![n]
            && c.len() == 1 && c[0].opcode == ops::LDB && c[0].target == base
            && word16(c[0].left, c[0].right) == nc),
{
    if -32768 <= n <= 32767 {
        let w = if n >= 0 { n as int } else { n + 65536 };
        assert(0 <= w < 65536);
        assert(w % 256 + 256 * (w / 256) == w);
    } else if nc < 65536 {
        assert(nc % 256 + 256 * (nc / 256) == nc);
    }
}

/// The module for the single top-level expression `(op a b)`.
pub open spec fn binary_program(op: String, a: i64, b: i64) -> Seq<Expression> {
    seq![Expression::BinaryOp(op, Box::new(Expression::Integer(a)), Box::new(Expression::Integer(b)))]
}

/// Executing the literal code from `literal_code` loads the literal.
proof fn lemma_literal_step(p: Program, regs: Seq<i64>, fb: usize, n: i64, base: int, nc: int, pc: usize)
    requires
        1 <= base <= 255,
        regs.len() >= fb + 256,
        0 <= nc < 65536,
        pc + 1 < p.code.len(),
        literal_code(n, base, nc) matches Ok((c, k)) && p.code[pc as int] == c[0]
            && (k.len() == 1 ==> (nc < p.constants.len() && p.constants[nc] == n)),
    ensures
        step_spec(p, regs, fb, pc) == (regs.update(fb + base, n), fb, Flow::Continue((pc + 1) as usize)),
{
    law_literal_encoding(n, base, nc);
}

/// The code and constants generated for `(op a b)` at top level.
proof fn lemma_binary_codegen(op: String, a: i64, b: i64)
    requires
        op_code(op@) is Some,
    ensures
        ({
            let o = op_code(op@)->Some_0;
            let (cl, kl) = literal_code(a, 2, 0)->Ok_0;
            let (cr, kr) = literal_code(b, 3, kl.len() as int)->Ok_0;
            &&& literal_code(a, 2, 0) is Ok
            &&& literal_code(b, 3, kl.len() as int) is Ok
            &&& generate_spec(binary_program(op, a, b)) == Ok::<(Seq<u64>, Seq<i64>, u64, Seq<Instruction>), crate::codegen::CompileError>(
                (seq![], kl + kr, 0u64, seq![cl[0], cr[0], ins(o, 1, 2, 3), ins(ops::HLT, 0, 0, 0)]),
            )
        }),
{
    let prog = binary_program(op, a, b);
    let e = prog[0];
    let o = op_code(op@)->Some_0;
    assert(prog.drop_last() =~= Seq::<Expression>::empty());
    assert(prog.last() == e);
    assert(e is BinaryOp);
    let fns = Seq::<String>::empty();
    assert(def_names(prog.drop_last()) == fns);
    assert(def_names(prog) == fns);
    assert(gen_defs(prog.drop_last(), fns, 0) == Ok::<(Seq<Instruction>, Seq<i64>, Seq<u64>), crate::codegen::CompileError>((seq![], seq![], seq![])));
    assert(gen_defs(prog, fns, 0) == Ok::<(Seq<Instruction>, Seq<i64>, Seq<u64>), crate::codegen::CompileError>((seq![], seq![], seq![])));
    law_literal_encoding(a, 2, 0);
    let gl = literal_code(a, 2, 0);
    let (cl, kl) = gl->Ok_0;
    law_literal_encoding(b, 3, kl.len() as int);
    let gr = literal_code(b, 3, kl.len() as int);
    let (cr, kr) = gr->Ok_0;
    let opi = ins(o, 1, 2, 3);
    assert(e == Expression::BinaryOp(op, Box::new(Expression::Integer(a)), Box::new(Expression::Integer(b))));
    assert(gen_expr(Expression::Integer(a), 2, seq![], fns, false, 0) == gl);
    assert(gen_expr(Expression::Integer(b), 3, seq![], fns, false, kl.len() as int) == gr);
    let ge = gen_expr(e, 1, seq![], fns, false, 0);
    assert(ge == join(join(gl, gr), Ok((seq![opi], seq![]))));
    assert(gen_top(prog.drop_last(), fns, 0) == Ok::<(Seq<Instruction>, Seq<i64>), crate::codegen::CompileError>((seq![], seq![])));
    let ct = seq![] + (cl + cr + seq![opi]);
    let kt = seq![] + (kl + kr);
    assert(gen_top(prog, fns, 0) == Ok::<(Seq<Instruction>, Seq<i64>), crate::codegen::CompileError>((ct, kt)));
    assert(seq![] + ct + seq![ins(ops::HLT, 0, 0, 0)] =~= seq![cl[0], cr[0], opi, ins(ops::HLT, 0, 0, 0)]);
    assert(seq![] + kt =~= kl + kr);
}

/// Compiling `(op a b)` and running it from the entry point halts in the outermost frame
/// with `op` applied to `a` and `b` in the result register, given one frame of registers and
/// a divisor other than zero.
pub proof fn law_binary_round_trip(op: String, a: i64, b: i64, regs: Seq<i64>, fuel: nat)
    requires
        op_code(op@) is Some,
        op_code(op@) == Some(ops::DIV) ==> b != 0,
        regs.len() >= WINDOW,
        fuel >= 4,
    ensures
        generate_spec(binary_program(op, a, b)) matches Ok((f, k, e, c)) && ({
            let out = run_spec(Program { code: c, functions: f, constants: k }, regs, 0, e as usize, fuel);
            out.1 == 0 && out.2 == Ok::<Stop, Fault>(Stop::Halted)
                && out.0[reg::VAL as int] == alu(op_code(op@)->Some_0, a, b)
        }),
{
    lemma_binary_codegen(op, a, b);
    let o = op_code(op@)->Some_0;
    law_literal_encoding(a, 2, 0);
    let (cl, kl) = literal_code(a, 2, 0)->Ok_0;
    law_literal_encoding(b, 3, kl.len() as int);
    let (cr, kr) = literal_code(b, 3, kl.len() as int)->Ok_0;
    let opi = ins(o, 1, 2, 3);
    let code = seq![cl[0], cr[0], opi, ins(ops::HLT, 0, 0, 0)];
    let consts = kl + kr;
    let p = Program { code, functions: seq![], constants: consts };
    lemma_literal_step(p, regs, 0, a, 2, 0, 0);
    let r1 = regs.update(2, a);
    assert(kr.len() == 1 ==> consts[kl.len() as int] == b);
    lemma_literal_step(p, r1, 0, b, 3, kl.len() as int, 1);
    let r2 = r1.update(3, b);
    assert(r2[2] == a && r2[3] == b);
    assert(step_spec(p, r2, 0, 2) == (r2.update(1, alu(o, a, b)), 0usize, Flow::Continue(3)));
    let r3 = r2.update(1, alu(o, a, b));
    assert(step_spec(p, r3, 0, 3) == (r3, 0usize, Flow::Stop(Stop::Halted)));
    assert(run_spec(p, regs, 0, 0, fuel) == run_spec(p, r3, 0, 3, (fuel - 3) as nat)) by {
        reveal_with_fuel(run_spec, 4);
    };
}

/// A tail call transfers control without touching the registers or the frame base, so a
/// chain of tail calls runs in one frame however long it is.
pub proof fn law_tail_call_keeps_frame(p: Program, regs: Seq<i64>, base: usize, pc: usize)
    requires
        pc < p.code.len(),
        p.code[pc as int].opcode == ops::TLC,
    ensures
        step_spec(p, regs, base, pc).0 == regs,
        step_spec(p, regs, base, pc).1 == base,
        callee(p, p.code[pc as int]) matches Ok(addr) ==> step_spec(p, regs, base, pc).2 == Flow::Continue(addr),
{
}

/// A call whose new frame would place its return-address register outside the register
/// array is reported as a stack overflow, with registers and base left as they were.
pub proof fn law_call_overflow_is_reported(p: Program, regs: Seq<i64>, base: usize, pc: usize)
    requires
        pc < p.code.len(),
        pc + 1 <= i64::MAX,
        p.code[pc as int].opcode == ops::CAL,
        callee(p, p.code[pc as int]) is Ok,
        base + WINDOW >= regs.len(),
    ensures
        step_spec(p, regs, base, pc) == (regs, base, Flow::Fault(Fault::StackOverflow)),
{
}

/// No instruction resizes the register array, a faulting instruction changes nothing, and
/// a frame base that is a multiple of the window size stays one.
pub proof fn law_step_is_contained(p: Program, regs: Seq<i64>, base: usize, pc: usize)
    requires
        regs.len() <= usize::MAX,
    ensures
        step_spec(p, regs, base, pc).0.len() == regs.len(),
        step_spec(p, regs, base, pc).2 is Fault ==> step_spec(p, regs, base, pc).0 == regs && step_spec(p, regs, base, pc).1 == base,
        base % WINDOW == 0 ==> step_spec(p, regs, base, pc).1 % WINDOW == 0,
{
    let nb = step_spec(p, regs, base, pc).1 as int;
    assert(nb == base || nb == base + WINDOW || nb == base - WINDOW);
}

/// Addition, subtraction and multiplication give the exact result whenever it fits in 64
/// bits; comparisons give 1 for true and 0 for false.
pub proof fn law_arithmetic_is_exact(a: i64, b: i64)
    ensures
        i64::MIN <= a + b <= i64::MAX ==> alu(ops::ADD, a, b) == a + b,
        i64::MIN <= a - b <= i64::MAX ==> alu(ops::SUB, a, b) == a - b,
        i64::MIN <= a * b <= i64::MAX ==> alu(ops::MUL, a, b) == a * b,
        alu(ops::LT, a, b) == (if a < b { 1i64 } else { 0i64 }),
        alu(ops::EQ, a, b) == (if a == b { 1i64 } else { 0i64 }),
{
}

/// A call in tail position ends in a tail call; elsewhere it ends in a call followed by a
/// load of the returned value.
pub proof fn law_call_lowering(name: String, args: Vec<Expression>, base: int, vars: Seq<(String, u8)>, fns: Seq<String>, tail: bool, nc: int)
    requires
        gen_expr(Expression::Function(name, args), base, vars, fns, tail, nc) is Ok,
    ensures
        ({
            let c = gen_expr(Expression::Function(name, args), base, vars, fns, tail, nc)->Ok_0.0;
            let id = fn_lookup(fns, name@)->Some_0;
            if tail {
                c.last() == call_ins(id, true) && c.last().opcode == ops::TLC
            } else {
                c.len() >= 2 && c[c.len() - 2] == call_ins(id, false) && c[c.len() - 2].opcode == ops::CAL
                    && c.last() == ins(ops::LDR, base, 0, 0)
            }
        }),
{
    let g = gen_expr(Expression::Function(name, args), base, vars, fns, tail, nc);
    let id = fn_lookup(fns, name@)->Some_0;
    let n = args.len() as int;
    let ga = gen_args(args@, base + 1, vars, fns, nc);
    let (ca, ka) = ga->Ok_0;
    let tc = if tail {
        arg_moves(n, base, true).push(call_ins(id, true))
    } else {
        arg_moves(n, base, false).push(call_ins(id, false)).push(ins(ops::LDR, base, 0, 0))
    };
    assert(g->Ok_0.0 == ca + tc);
    let c = ca + tc;
    if tail {
        assert(c.last() == tc.last());
    } else {
        assert(c[c.len() - 2] == tc[tc.len() - 2]);
        assert(c.last() == tc.last());
    }
}

/// Argument `k` of a plain call is moved into parameter register `VAL + k` of the frame
/// that the call will push.
pub proof fn law_argument_slot(n: int, base: int, k: int, regs: Seq<i64>, fb: usize, p: Program, pc: usize)
    requires
        0 <= k < n,
        0 <= base,
        base + n + 1 <= 255,
        fb + 2 * WINDOW <= regs.len(),
        pc < p.code.len(),
        p.code[pc as int] == arg_moves(n, base, false)[k],
    ensures
        step_spec(p, regs, fb, pc) == (
            regs.update(fb + WINDOW + reg::VAL + k, regs[fb + base + 1 + k]),
            fb,
            Flow::Continue((pc + 1) as usize),
        ),
{
}

/// The code generated for `(def name () n) (name)`: function at address 0, call at the entry.
proof fn lemma_call_codegen(name: String, params: Vec<String>, body: Vec<Expression>, args: Vec<Expression>, n: i64)
    requires
        params@ == Seq::<String>::empty(),
        body@ == seq![Expression::Integer(n)],
        args@ == Seq::<Expression>::empty(),
    ensures
        ({
            let (cl, kl) = literal_code(n, 1, 0)->Ok_0;
            &&& literal_code(n, 1, 0) is Ok
            &&& generate_spec(seq![Expression::FunctionDefinition(name, params, body), Expression::Function(name, args)])
                == Ok::<(Seq<u64>, Seq<i64>, u64, Seq<Instruction>), crate::codegen::CompileError>((
                seq![0u64],
                kl,
                3u64,
                seq![
                    cl[0],
                    ins(ops::MOV, 1, 1, 0),
                    ins(ops::RET, 0, 0, 0),
                    ins(ops::CAL, 0, 0, 0),
                    ins(ops::LDR, 1, 0, 0),
                    ins(ops::HLT, 0, 0, 0),
                ],
            ))
        }),
{
    let d = Expression::FunctionDefinition(name, params, body);
    let call = Expression::Function(name, args);
    let prog = seq![d, call];
    let defs = prog.drop_last();
    assert(defs =~= seq![d]);
    assert(defs.drop_last() =~= Seq::<Expression>::empty());
    let fns = seq![name];
    assert(def_names(defs.drop_last()) == Seq::<String>::empty());
    assert(def_names(defs) =~= fns);
    assert(def_names(prog) =~= fns);
    law_literal_encoding(n, 1, 0);
    let gl = literal_code(n, 1, 0);
    let (cl, kl) = gl->Ok_0;
    let pv = param_vars(params@);
    assert(pv =~= Seq::<(String, u8)>::empty());
    assert(body@.drop_last() =~= Seq::<Expression>::empty());
    assert(gen_expr(Expression::Integer(n), 1, pv, fns, true, 0) == gl);
    assert(gen_block(body@.drop_last(), 1, pv, fns, false, 0) == Ok::<(Seq<Instruction>, Seq<i64>), crate::codegen::CompileError>((seq![], seq![])));
    assert(gen_block(body@, 1, pv, fns, true, 0) == join(Ok((seq![], seq![])), gl));
    let fc = seq![] + cl + seq![ins(ops::MOV, 1, 1, 0), ins(ops::RET, 0, 0, 0)];
    let fk = seq![] + kl + seq![];
    assert(gen_function(params@, body@, fns, 0) == Ok::<(Seq<Instruction>, Seq<i64>), crate::codegen::CompileError>((fc, fk)));
    assert(gen_defs(defs.drop_last(), fns, 0) == Ok::<(Seq<Instruction>, Seq<i64>, Seq<u64>), crate::codegen::CompileError>((seq![], seq![], seq![])));
    assert(gen_defs(defs, fns, 0) == Ok::<(Seq<Instruction>, Seq<i64>, Seq<u64>), crate::codegen::CompileError>((seq![] + fc, seq![] + fk, seq![0u64])));
    assert(gen_defs(prog, fns, 0) == gen_defs(defs, fns, 0));
    let nc = (seq![] + fk).len() as int;
    assert(gen_top(defs.drop_last(), fns, nc) == Ok::<(Seq<Instruction>, Seq<i64>), crate::codegen::CompileError>((seq![], seq![])));
    assert(gen_top(defs, fns, nc) == Ok::<(Seq<Instruction>, Seq<i64>), crate::codegen::CompileError>((seq![], seq![])));
    assert(fns.drop_last() =~= Seq::<String>::empty());
    assert(fn_lookup(fns, name@) == Some(0int));
    assert(gen_args(args@, 2, seq![], fns, nc) == Ok::<(Seq<Instruction>, Seq<i64>), crate::codegen::CompileError>((seq![], seq![])));
    assert(arg_moves(0, 1, false) =~= Seq::<Instruction>::empty());
    let tc = seq![ins(ops::CAL, 0, 0, 0), ins(ops::LDR, 1, 0, 0)];
    assert(arg_moves(0, 1, false).push(call_ins(0, false)).push(ins(ops::LDR, 1, 0, 0)) =~= tc);
    assert(gen_expr(call, 1, seq![], fns, false, nc) == join(Ok((seq![], seq![])), Ok((tc, seq![]))));
    assert(gen_top(prog, fns, nc) == join(Ok((seq![], seq![])), join(Ok((seq![], seq![])), Ok((tc, seq![])))));
    assert(seq![] + fc + (seq![] + (seq![] + tc)) + seq![ins(ops::HLT, 0, 0, 0)] =~= seq![
        cl[0],
        ins(ops::MOV, 1, 1, 0),
        ins(ops::RET, 0, 0, 0),
        ins(ops::CAL, 0, 0, 0),
        ins(ops::LDR, 1, 0, 0),
        ins(ops::HLT, 0, 0, 0),
    ]);
    assert(seq![] + fk + (seq![] + (seq![] + seq![])) =~= kl);
}

/// Defining a function of no parameters whose body is a literal and calling it at top level
/// leaves the literal in the result register of the outermost frame, given two frames of
/// registers.
pub proof fn law_zero_argument_call(name: String, params: Vec<String>, body: Vec<Expression>, args: Vec<Expression>, n: i64, regs: Seq<i64>, fuel: nat)
    requires
        params@ == Seq::<String>::empty(),
        body@ == seq![Expression::Integer(n)],
        args@ == Seq::<Expression>::empty(),
        regs.len() >= 2 * WINDOW,
        fuel >= 6,
    ensures
        generate_spec(seq![Expression::FunctionDefinition(name, params, body), Expression::Function(name, args)]) matches Ok((f, k, e, c))
            && ({
            let out = run_spec(Program { code: c, functions: f, constants: k }, regs, 0, e as usize, fuel);
            out.1 == 0 && out.2 == Ok::<Stop, Fault>(Stop::Halted) && out.0[reg::VAL as int] == n
        }),
{
    lemma_call_codegen(name, params, body, args, n);
    law_literal_encoding(n, 1, 0);
    let (cl, kl) = literal_code(n, 1, 0)->Ok_0;
    let code = seq![
        cl[0],
        ins(ops::MOV, 1, 1, 0),
        ins(ops::RET, 0, 0, 0),
        ins(ops::CAL, 0, 0, 0),
        ins(ops::LDR, 1, 0, 0),
        ins(ops::HLT, 0, 0, 0),
    ];
    let p = Program { code, functions: seq![0u64], constants: kl };
    assert(callee(p, code[3]) == Ok::<usize, Fault>(0));
    let r1 = regs.update(256, 4);
    assert(step_spec(p, regs, 0, 3) == (r1, 256usize, Flow::Continue(0)));
    lemma_literal_step(p, r1, 256, n, 1, 0, 0);
    let r2 = r1.update(257, n);
    assert(step_spec(p, r2, 256, 1) == (r2.update(257, r2[257]), 256usize, Flow::Continue(2)));
    assert(r2.update(257, r2[257]) =~= r2);
    assert(step_spec(p, r2, 256, 2) == (r2, 0usize, Flow::Continue(4)));
    let r3 = r2.update(1, n);
    assert(step_spec(p, r2, 0, 4) == (r3, 0usize, Flow::Continue(5)));
    assert(step_spec(p, r3, 0, 5) == (r3, 0usize, Flow::Stop(Stop::Halted)));
    assert(run_spec(p, regs, 0, 3, fuel) == run_spec(p, r3, 0, 5, (fuel - 5) as nat)) by {
        reveal_with_fuel(run_spec, 6);
    };
}

/// Every value in `k` lies outside the range of an immediate load.
pub open spec fn only_wide(k: Seq<i64>) -> bool {
    forall|i: int| 0 <= i < k.len() ==> !(-32768 <= #[trigger] k[i] <= 32767)
}

pub open spec fn pool_wide(g: Gen) -> bool {
    g matches Ok((_, k)) ==> only_wide(k)
}

proof fn lemma_join_wide(a: Gen, b: Gen)
    requires
        pool_wide(a),
        pool_wide(b),
    ensures
        pool_wide(join(a, b)),
{
    if let (Ok((_, ka)), Ok((_, kb))) = (a, b) {
        let k = ka + kb;
        assert forall|i: int| 0 <= i < k.len() implies !(-32768 <= #[trigger] k[i] <= 32767) by {
            if i < ka.len() {
                assert(k[i] == ka[i]);
            } else {
                assert(k[i] == kb[i - ka.len()]);
            }
        };
    }
}

proof fn lemma_expr_wide(e: Expression, base: int, vars: Seq<(String, u8)>, fns: Seq<String>, tail: bool, nc: int)
    ensures
        pool_wide(gen_expr(e, base, vars, fns, tail, nc)),
    decreases e, 1nat,
{
    match e {
        Expression::Integer(n) => {},
        Expression::Variable(_) => {},
        Expression::BinaryOp(op, l, r) => {
            if op_code(op@) is Some && base + 2 <= 255 {
                let gl = gen_expr(*l, base + 1, vars, fns, false, nc);
                let gr = gen_expr(*r, base + 2, vars, fns, false, nc + consts_of(gl));
                lemma_expr_wide(*l, base + 1, vars, fns, false, nc);
                lemma_expr_wide(*r, base + 2, vars, fns, false, nc + consts_of(gl));
                lemma_join_wide(gl, gr);
                lemma_join_wide(join(gl, gr), Ok((seq![ins(op_code(op@)->Some_0, base, base + 1, base + 2)], seq![])));
            }
        },
        Expression::Function(name, args) => {
            if fn_lookup(fns, name@) is Some && base + args.len() + 1 <= 255 {
                let id = fn_lookup(fns, name@)->Some_0;
                let n = args.len() as int;
                lemma_args_wide(args@, base + 1, vars, fns, nc);
                let tc = if tail {
                    arg_moves(n, base, true).push(call_ins(id, true))
                } else {
                    arg_moves(n, base, false).push(call_ins(id, false)).push(ins(ops::LDR, base, 0, 0))
                };
                lemma_join_wide(gen_args(args@, base + 1, vars, fns, nc), Ok((tc, seq![])));
            }
        },
        Expression::FunctionDefinition(..) => {},
        Expression::VariableAssignment(binds, body) => {
            if base + binds.len() + 1 <= 255 {
                let inner = base + 1 + binds.len();
                let gb = gen_binds(binds@, base + 1, vars, fns, nc);
                let vars2 = vars + bound_vars(binds@, base + 1);
                let gbody = gen_block(body@, inner, vars2, fns, false, nc + consts_of(gb));
                lemma_binds_wide(binds@, base + 1, vars, fns, nc);
                lemma_block_wide(body@, inner, vars2, fns, false, nc + consts_of(gb));
                lemma_join_wide(gb, gbody);
                lemma_join_wide(join(gb, gbody), Ok((seq![ins(ops::MOV, base, inner, 0)], seq![])));
            }
        },
        Expression::Conditional(c, th, el) => {
            let gc = gen_expr(*c, base, vars, fns, false, nc);
            lemma_expr_wide(*c, base, vars, fns, false, nc);
            if let Ok((cc, kc)) = gc {
                let ge = gen_block(el@, base, vars, fns, tail, nc + kc.len());
                lemma_block_wide(el@, base, vars, fns, tail, nc + kc.len());
                if let Ok((ce, ke)) = ge {
                    let gt = gen_block(th@, base, vars, fns, tail, nc + kc.len() + ke.len());
                    lemma_block_wide(th@, base, vars, fns, tail, nc + kc.len() + ke.len());
                    if let Ok((ct, kt)) = gt {
                        lemma_join_wide(Ok((cc, kc)), Ok((ce, ke)));
                        lemma_join_wide(Ok((cc + ce, kc + ke)), Ok((ct, kt)));
                    }
                }
            }
        },
    }
}

proof fn lemma_args_wide(es: Seq<Expression>, first: int, vars: Seq<(String, u8)>, fns: Seq<String>, nc: int)
    ensures
        pool_wide(gen_args(es, first, vars, fns, nc)),
    decreases es, 0nat,
{
    if es.len() > 0 {
        let g0 = gen_args(es.drop_last(), first, vars, fns, nc);
        lemma_args_wide(es.drop_last(), first, vars, fns, nc);
        lemma_expr_wide(es.last(), first + es.len() - 1, vars, fns, false, nc + consts_of(g0));
        lemma_join_wide(g0, gen_expr(es.last(), first + es.len() - 1, vars, fns, false, nc + consts_of(g0)));
    }
}

proof fn lemma_block_wide(es: Seq<Expression>, base: int, vars: Seq<(String, u8)>, fns: Seq<String>, tail: bool, nc: int)
    ensures
        pool_wide(gen_block(es, base, vars, fns, tail, nc)),
    decreases es, 0nat,
{
    if es.len() > 0 {
        let g0 = gen_block(es.drop_last(), base, vars, fns, false, nc);
        lemma_block_wide(es.drop_last(), base, vars, fns, false, nc);
        lemma_expr_wide(es.last(), base, vars, fns, tail, nc + consts_of(g0));
        lemma_join_wide(g0, gen_expr(es.last(), base, vars, fns, tail, nc + consts_of(g0)));
    }
}

proof fn lemma_binds_wide(ps: Seq<(String, Expression)>, first: int, vars: Seq<(String, u8)>, fns: Seq<String>, nc: int)
    ensures
        pool_wide(gen_binds(ps, first, vars, fns, nc)),
    decreases ps, 0nat,
{
    if ps.len() > 0 {
        let g0 = gen_binds(ps.drop_last(), first, vars, fns, nc);
        let v2 = vars + bound_vars(ps.drop_last(), first);
        lemma_binds_wide(ps.drop_last(), first, vars, fns, nc);
        lemma_expr_wide(ps.last().1, first + ps.len() - 1, v2, fns, false, nc + consts_of(g0));
        lemma_join_wide(g0, gen_expr(ps.last().1, first + ps.len() - 1, v2, fns, false, nc + consts_of(g0)));
    }
}

proof fn lemma_defs_wide(prog: Seq<Expression>, fns: Seq<String>, nc: int)
    ensures
        gen_defs(prog, fns, nc) matches Ok((_, k, _)) ==> only_wide(k),
    decreases prog.len(),
{
    if prog.len() > 0 {
        lemma_defs_wide(prog.drop_last(), fns, nc);
        if let Ok((c, k, addrs)) = gen_defs(prog.drop_last(), fns, nc) {
            if let Expression::FunctionDefinition(_, params, body) = prog.last() {
                let base = params.len() + 1int;
                if base <= 255 {
                    let gb = gen_block(body@, base, param_vars(params@), fns, true, nc + k.len());
                    lemma_block_wide(body@, base, param_vars(params@), fns, true, nc + k.len());
                    lemma_join_wide(gb, Ok((seq![ins(ops::MOV, reg::VAL as int, base, 0), ins(ops::RET, 0, 0, 0)], seq![])));
                    lemma_join_wide(Ok((c, k)), gen_function(params@, body@, fns, nc + k.len()));
                }
            }
        }
    }
}

proof fn lemma_top_wide(prog: Seq<Expression>, fns: Seq<String>, nc: int)
    ensures
        pool_wide(gen_top(prog, fns, nc)),
    decreases prog.len(),
{
    if prog.len() > 0 {
        let g0 = gen_top(prog.drop_last(), fns, nc);
        lemma_top_wide(prog.drop_last(), fns, nc);
        if !(prog.last() is FunctionDefinition) {
            lemma_expr_wide(prog.last(), reg::VAL as int, seq![], fns, false, nc + consts_of(g0));
            lemma_join_wide(g0, gen_expr(prog.last(), reg::VAL as int, seq![], fns, false, nc + consts_of(g0)));
        }
    }
}

/// The constant pool of a compiled module holds only values outside [-32768, 32767]: a
/// literal inside that range is always loaded as an immediate and never enters the pool.
pub proof fn law_pool_holds_only_wide_literals(prog: Seq<Expression>)
    ensures
        generate_spec(prog) matches Ok((_, k, _, _)) ==> only_wide(k),
{
    let fns = def_names(prog);
    lemma_defs_wide(prog, fns, 0);
    if let Ok((cd, kd, addrs)) = gen_defs(prog, fns, 0) {
        lemma_top_wide(prog, fns, kd.len() as int);
        if let Ok((ct, kt)) = gen_top(prog, fns, kd.len() as int) {
            lemma_join_wide(Ok((cd, kd)), Ok((ct, kt)));
        }
    }
}

/// Every integer literal in `e` fits an immediate load.
pub open spec fn small_literals(e: Expression) -> bool
    decreases e,
{
    match e {
        Expression::Integer(n) => -32768 <= n <= 32767,
        Expression::Variable(_) => true,
        Expression::BinaryOp(_, l, r) => small_literals(*l) && small_literals(*r),
        Expression::Function(_, args) => small_list(args@),
        Expression::FunctionDefinition(_, _, body) => small_list(body@),
        Expression::VariableAssignment(binds, body) => small_binds(binds@) && small_list(body@),
        Expression::Conditional(c, th, el) => small_literals(*c) && small_list(th@) && small_list(el@),
    }
}

pub open spec fn small_list(es: Seq<Expression>) -> bool
    decreases es,
{
    es.len() > 0 ==> small_list(es.drop_last()) && small_literals(es.last())
}

pub open spec fn small_binds(ps: Seq<(String, Expression)>) -> bool
    decreases ps,
{
    ps.len() > 0 ==> small_binds(ps.drop_last()) && small_literals(ps.last().1)
}

pub open spec fn no_pool(g: Gen) -> bool {
    g matches Ok((_, k)) ==> k.len() == 0
}

proof fn lemma_join_none(a: Gen, b: Gen)
    requires
        no_pool(a),
        no_pool(b),
    ensures
        no_pool(join(a, b)),
{
}

proof fn lemma_expr_none(e: Expression, base: int, vars: Seq<(String, u8)>, fns: Seq<String>, tail: bool, nc: int)
    requires
        small_literals(e),
    ensures
        no_pool(gen_expr(e, base, vars, fns, tail, nc)),
    decreases e, 1nat,
{
    match e {
        Expression::Integer(n) => {},
        Expression::Variable(_) => {},
        Expression::BinaryOp(op, l, r) => {
            if op_code(op@) is Some && base + 2 <= 255 {
                let gl = gen_expr(*l, base + 1, vars, fns, false, nc);
                let gr = gen_expr(*r, base + 2, vars, fns, false, nc + consts_of(gl));
                lemma_expr_none(*l, base + 1, vars, fns, false, nc);
                lemma_expr_none(*r, base + 2, vars, fns, false, nc + consts_of(gl));
                lemma_join_none(gl, gr);
                lemma_join_none(join(gl, gr), Ok((seq![ins(op_code(op@)->Some_0, base, base + 1, base + 2)], seq![])));
            }
        },
        Expression::Function(name, args) => {
            if fn_lookup(fns, name@) is Some && base + args.len() + 1 <= 255 {
                let id = fn_lookup(fns, name@)->Some_0;
                let n = args.len() as int;
                lemma_args_none(args@, base + 1, vars, fns, nc);
                let tc = if tail {
                    arg_moves(n, base, true).push(call_ins(id, true))
                } else {
                    arg_moves(n, base, false).push(call_ins(id, false)).push(ins(ops::LDR, base, 0, 0))
                };
                lemma_join_none(gen_args(args@, base + 1, vars, fns, nc), Ok((tc, seq![])));
            }
        },
        Expression::FunctionDefinition(..) => {},
        Expression::VariableAssignment(binds, body) => {
            if base + binds.len() + 1 <= 255 {
                let inner = base + 1 + binds.len();
                let gb = gen_binds(binds@, base + 1, vars, fns, nc);
                let vars2 = vars + bound_vars(binds@, base + 1);
                let gbody = gen_block(body@, inner, vars2, fns, false, nc + consts_of(gb));
                lemma_binds_none(binds@, base + 1, vars, fns, nc);
                lemma_block_none(body@, inner, vars2, fns, false, nc + consts_of(gb));
                lemma_join_none(gb, gbody);
                lemma_join_none(join(gb, gbody), Ok((seq![ins(ops::MOV, base, inner, 0)], seq![])));
            }
        },
        Expression::Conditional(c, th, el) => {
            let gc = gen_expr(*c, base, vars, fns, false, nc);
            lemma_expr_none(*c, base, vars, fns, false, nc);
            if let Ok((cc, kc)) = gc {
                lemma_block_none(el@, base, vars, fns, tail, nc + kc.len());
                if let Ok((ce, ke)) = gen_block(el@, base, vars, fns, tail, nc + kc.len()) {
                    lemma_block_none(th@, base, vars, fns, tail, nc + kc.len() + ke.len());
                }
            }
        },
    }
}

proof fn lemma_args_none(es: Seq<Expression>, first: int, vars: Seq<(String, u8)>, fns: Seq<String>, nc: int)
    requires
        small_list(es),
    ensures
        no_pool(gen_args(es, first, vars, fns, nc)),
    decreases es, 0nat,
{
    if es.len() > 0 {
        let g0 = gen_args(es.drop_last(), first, vars, fns, nc);
        lemma_args_none(es.drop_last(), first, vars, fns, nc);
        lemma_expr_none(es.last(), first + es.len() - 1, vars, fns, false, nc + consts_of(g0));
        lemma_join_none(g0, gen_expr(es.last(), first + es.len() - 1, vars, fns, false, nc + consts_of(g0)));
    }
}

proof fn lemma_block_none(es: Seq<Expression>, base: int, vars: Seq<(String, u8)>, fns: Seq<String>, tail: bool, nc: int)
    requires
        small_list(es),
    ensures
        no_pool(gen_block(es, base, vars, fns, tail, nc)),
    decreases es, 0nat,
{
    if es.len() > 0 {
        let g0 = gen_block(es.drop_last(), base, vars, fns, false, nc);
        lemma_block_none(es.drop_last(), base, vars, fns, false, nc);
        lemma_expr_none(es.last(), base, vars, fns, tail, nc + consts_of(g0));
        lemma_join_none(g0, gen_expr(es.last(), base, vars, fns, tail, nc + consts_of(g0)));
    }
}

proof fn lemma_binds_none(ps: Seq<(String, Expression)>, first: int, vars: Seq<(String, u8)>, fns: Seq<String>, nc: int)
    requires
        small_binds(ps),
    ensures
        no_pool(gen_binds(ps, first, vars, fns, nc)),
    decreases ps, 0nat,
{
    if ps.len() > 0 {
        let g0 = gen_binds(ps.drop_last(), first, vars, fns, nc);
        let v2 = vars + bound_vars(ps.drop_last(), first);
        lemma_binds_none(ps.drop_last(), first, vars, fns, nc);
        lemma_expr_none(ps.last().1, first + ps.len() - 1, v2, fns, false, nc + consts_of(g0));
        lemma_join_none(g0, gen_expr(ps.last().1, first + ps.len() - 1, v2, fns, false, nc + consts_of(g0)));
    }
}

proof fn lemma_defs_none(prog: Seq<Expression>, fns: Seq<String>, nc: int)
    requires
        small_list(prog),
    ensures
        gen_defs(prog, fns, nc) matches Ok((_, k, _)) ==> k.len() == 0,
    decreases prog.len(),
{
    if prog.len() > 0 {
        lemma_defs_none(prog.drop_last(), fns, nc);
        if let Ok((c, k, addrs)) = gen_defs(prog.drop_last(), fns, nc) {
            if let Expression::FunctionDefinition(_, params, body) = prog.last() {
                let base = params.len() + 1int;
                assert(small_literals(prog.last()));
                assert(small_list(body@));
                if base <= 255 {
                    lemma_block_none(body@, base, param_vars(params@), fns, true, nc + k.len());
                }
            }
        }
    }
}

proof fn lemma_top_none(prog: Seq<Expression>, fns: Seq<String>, nc: int)
    requires
        small_list(prog),
    ensures
        no_pool(gen_top(prog, fns, nc)),
    decreases prog.len(),
{
    if prog.len() > 0 {
        let g0 = gen_top(prog.drop_last(), fns, nc);
        lemma_top_none(prog.drop_last(), fns, nc);
        if !(prog.last() is FunctionDefinition) {
            lemma_expr_none(prog.last(), reg::VAL as int, seq![], fns, false, nc + consts_of(g0));
            lemma_join_none(g0, gen_expr(prog.last(), reg::VAL as int, seq![], fns, false, nc + consts_of(g0)));
        }
    }
}

/// A program whose integer literals all lie in [-32768, 32767] compiles to a module with an
/// empty constant pool.
pub proof fn law_small_literals_need_no_pool(prog: Seq<Expression>)
    requires
        small_list(prog),
    ensures
        generate_spec(prog) matches Ok((_, k, _, _)) ==> k.len() == 0,
{
    let fns = def_names(prog);
    lemma_defs_none(prog, fns, 0);
    if let Ok((cd, kd, addrs)) = gen_defs(prog, fns, 0) {
        lemma_top_none(prog, fns, kd.len() as int);
    }
}

} // verus!
