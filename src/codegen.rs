use vstd::prelude::*;
use crate::ast::Expression;
use crate::common::{Instruction, Module};
use crate::ops;
use crate::reg;

verus! {

broadcast use vstd::std_specs::vec::group_vec_axioms, vstd::seq::group_seq_axioms;

/// Why a program could not be compiled.
#[derive(Debug, PartialEq, Eq)]
pub enum CompileError {
    /// The source text does not follow the grammar from this character position on (its
    /// length when it ends too early).
    Parse(usize),
    UndefinedVariable(String),
    UndefinedFunction(String),
    InvalidOperation(String),
    /// A function definition stands inside another expression.
    MisplacedDefinition(String),
    /// More than 65536 constants would be needed.
    TooManyConstants,
    /// More functions than a 24-bit id can name.
    TooManyFunctions,
    /// A frame would need more than 256 registers.
    TooManyRegisters,
    /// A branch is longer than its jump's offset field can span.
    JumpTooLong,
}

/// Code and new constants produced for one piece of the program.
pub type Gen = Result<(Seq<Instruction>, Seq<i64>), CompileError>;

pub open spec fn ins(opcode: u8, target: int, left: int, right: int) -> Instruction {
    Instruction { opcode, target: target as u8, left: left as u8, right: right as u8 }
}

/// The opcode of a surface operator.
pub open spec fn op_code(s: Seq<char>) -> Option<u8> {
    if s.len() == 1 {
        if s[0] == '+' {
            Some(ops::ADD)
        } else if s[0] == '-' {
            Some(ops::SUB)
        } else if s[0] == '*' {
            Some(ops::MUL)
        } else if s[0] == '/' {
            Some(ops::DIV)
        } else if s[0] == '&' {
            Some(ops::AND)
        } else if s[0] == '|' {
            Some(ops::OR)
        } else if s[0] == '<' {
            Some(ops::LT)
        } else if s[0] == '>' {
            Some(ops::GT)
        } else {
            None
        }
    } else if s.len() == 2 && s[1] == '=' {
        if s[0] == '=' {
            Some(ops::EQ)
        } else if s[0] == '<' {
            Some(ops::LE)
        } else if s[0] == '>' {
            Some(ops::GE)
        } else if s[0] == '!' {
            Some(ops::NEQ)
        } else {
            None
        }
    } else {
        None
    }
}

/// The register bound to `name` by the innermost binding, if any.
pub open spec fn var_lookup(vars: Seq<(String, u8)>, name: Seq<char>) -> Option<u8>
    decreases vars.len(),
{
    if vars.len() == 0 {
        None
    } else if vars.last().0@ == name {
        Some(vars.last().1)
    } else {
        var_lookup(vars.drop_last(), name)
    }
}

/// The id of the last function defined under `name`, if any.
pub open spec fn fn_lookup(fns: Seq<String>, name: Seq<char>) -> Option<int>
    decreases fns.len(),
{
    if fns.len() == 0 {
        None
    } else if fns.last()@ == name {
        Some(fns.len() - 1)
    } else {
        fn_lookup(fns.drop_last(), name)
    }
}

/// Code that loads `n` into register `base`; `nc` constants exist already.
pub open spec fn literal_code(n: i64, base: int, nc: int) -> Gen {
    if -32768 <= n <= 32767 {
        let w = if n >= 0 { n as int } else { n + 65536 };
        Ok((seq![ins(ops::LD, base, w % 256, w / 256)], seq![]))
    } else if nc >= 65536 {
        Err(CompileError::TooManyConstants)
    } else {
        Ok((seq![ins(ops::LDB, base, nc % 256, nc / 256)], seq![n]))
    }
}

/// Joins the code of two pieces compiled one after the other.
pub open spec fn join(a: Gen, b: Gen) -> Gen {
    match a {
        Err(e) => Err(e),
        Ok((c1, k1)) => match b {
            Err(e) => Err(e),
            Ok((c2, k2)) => Ok((c1 + c2, k1 + k2)),
        },
    }
}

/// Number of constants that a successful piece adds.
pub open spec fn consts_of(g: Gen) -> int {
    match g {
        Ok((_, k)) => k.len() as int,
        Err(_) => 0,
    }
}

/// Length of the code of a successful piece.
pub open spec fn code_len(g: Gen) -> int {
    match g {
        Ok((c, _)) => c.len() as int,
        Err(_) => 0,
    }
}

/// Moves call arguments from registers `base + 1 + k` into parameter slots: those of the
/// next frame for a plain call, those of the current frame for a tail call.
pub open spec fn arg_moves(n: int, base: int, tail: bool) -> Seq<Instruction> {
    Seq::new(n as nat, |k: int| if tail {
        ins(ops::MOV, reg::VAL + k, base + 1 + k, 0)
    } else {
        ins(ops::MVO, reg::VAL + 1 + k, base + 1 + k, 255)
    })
}

/// The instruction that transfers control to function `id`.
pub open spec fn call_ins(id: int, tail: bool) -> Instruction {
    ins(if tail { ops::TLC } else { ops::CAL }, id % 256, (id / 256) % 256, id / 65536)
}

/// Code for an expression whose value goes to register `base`. `tail` says whether it is the
/// last thing a function body does; `nc` is the number of constants so far.
pub open spec fn gen_expr(e: Expression, base: int, vars: Seq<(String, u8)>, fns: Seq<String>, tail: bool, nc: int) -> Gen
    decreases e,
{
    match e {
        Expression::Integer(n) => literal_code(n, base, nc),
        Expression::Variable(x) => match var_lookup(vars, x@) {
            Some(r) => Ok((seq![ins(ops::MOV, base, r as int, 0)], seq![])),
            None => Err(CompileError::UndefinedVariable(x)),
        },
        Expression::BinaryOp(op, l, r) => match op_code(op@) {
            None => Err(CompileError::InvalidOperation(op)),
            Some(o) => if base + 2 > 255 {
                Err(CompileError::TooManyRegisters)
            } else {
                let gl = gen_expr(*l, base + 1, vars, fns, false, nc);
                let gr = gen_expr(*r, base + 2, vars, fns, false, nc + consts_of(gl));
                join(join(gl, gr), Ok((seq![ins(o, base, base + 1, base + 2)], seq![])))
            },
        },
        Expression::Function(name, args) => match fn_lookup(fns, name@) {
            None => Err(CompileError::UndefinedFunction(name)),
            Some(id) => if base + args.len() + 1 > 255 {
                Err(CompileError::TooManyRegisters)
            } else {
                let n = args.len() as int;
                let ga = gen_args(args@, base + 1, vars, fns, nc);
                let tail_code = if tail {
                    arg_moves(n, base, true).push(call_ins(id, true))
                } else {
                    arg_moves(n, base, false).push(call_ins(id, false)).push(ins(ops::LDR, base, 0, 0))
                };
                join(ga, Ok((tail_code, seq![])))
            },
        },
        Expression::FunctionDefinition(name, _, _) => Err(CompileError::MisplacedDefinition(name)),
        Expression::VariableAssignment(binds, body) => if base + binds.len() + 1 > 255 {
            Err(CompileError::TooManyRegisters)
        } else {
            let inner = base + 1 + binds.len();
            let gb = gen_binds(binds@, base + 1, vars, fns, nc);
            let vars2 = vars + bound_vars(binds@, base + 1);
            let gbody = gen_block(body@, inner, vars2, fns, false, nc + consts_of(gb));
            join(join(gb, gbody), Ok((seq![ins(ops::MOV, base, inner, 0)], seq![])))
        },
        Expression::Conditional(c, th, el) => match gen_expr(*c, base, vars, fns, false, nc) {
            Err(e) => Err(e),
            Ok((cc, kc)) => match gen_block(el@, base, vars, fns, tail, nc + kc.len()) {
                Err(e) => Err(e),
                Ok((ce, ke)) => if ce.len() + 2 >= 65536 {
                    Err(CompileError::JumpTooLong)
                } else {
                    match gen_block(th@, base, vars, fns, tail, nc + kc.len() + ke.len()) {
                        Err(e) => Err(e),
                        Ok((ct, kt)) => if ct.len() + 1 >= 0x100_0000 {
                            Err(CompileError::JumpTooLong)
                        } else {
                            Ok((cc + seq![jtf_ins(base, ce.len() + 2int)] + ce + seq![jmf_ins(ct.len() + 1int)] + ct, kc + ke + kt))
                        },
                    }
                },
            },
        },
    }
}

/// Jump forward by `off` when register `r` is nonzero.
pub open spec fn jtf_ins(r: int, off: int) -> Instruction {
    ins(ops::JTF, r, off % 256, off / 256)
}

/// Jump forward by `off`.
pub open spec fn jmf_ins(off: int) -> Instruction {
    ins(ops::JMF, off % 256, (off / 256) % 256, off / 65536)
}

/// Code for call arguments, argument `k` going to register `first + k`.
pub open spec fn gen_args(es: Seq<Expression>, first: int, vars: Seq<(String, u8)>, fns: Seq<String>, nc: int) -> Gen
    decreases es,
{
    if es.len() == 0 {
        Ok((seq![], seq![]))
    } else {
        let g0 = gen_args(es.drop_last(), first, vars, fns, nc);
        join(g0, gen_expr(es.last(), first + es.len() - 1, vars, fns, false, nc + consts_of(g0)))
    }
}

/// Code for a sequence of expressions that all leave their value in `base`; only the last
/// one inherits `tail`.
pub open spec fn gen_block(es: Seq<Expression>, base: int, vars: Seq<(String, u8)>, fns: Seq<String>, tail: bool, nc: int) -> Gen
    decreases es,
{
    if es.len() == 0 {
        Ok((seq![], seq![]))
    } else {
        let g0 = gen_block(es.drop_last(), base, vars, fns, false, nc);
        join(g0, gen_expr(es.last(), base, vars, fns, tail, nc + consts_of(g0)))
    }
}

/// Binding `k` of a `let` block lives in register `first + k`.
pub open spec fn bound_vars(ps: Seq<(String, Expression)>, first: int) -> Seq<(String, u8)> {
    Seq::new(ps.len(), |k: int| (ps[k].0, (first + k) as u8))
}

/// Code for the initialisers of a `let` block; each sees the bindings before it.
pub open spec fn gen_binds(ps: Seq<(String, Expression)>, first: int, vars: Seq<(String, u8)>, fns: Seq<String>, nc: int) -> Gen
    decreases ps,
{
    if ps.len() == 0 {
        Ok((seq![], seq![]))
    } else {
        let g0 = gen_binds(ps.drop_last(), first, vars, fns, nc);
        join(
            g0,
            gen_expr(ps.last().1, first + ps.len() - 1, vars + bound_vars(ps.drop_last(), first), fns, false, nc + consts_of(g0)),
        )
    }
}

/// Parameter `k` of a function arrives in register `VAL + k`.
pub open spec fn param_vars(ps: Seq<String>) -> Seq<(String, u8)> {
    Seq::new(ps.len(), |k: int| (ps[k], (reg::VAL + k) as u8))
}

/// Code for a function body: its value goes to the return register, then control returns.
pub open spec fn gen_function(params: Seq<String>, body: Seq<Expression>, fns: Seq<String>, nc: int) -> Gen {
    let base = params.len() + 1int;
    if base > 255 {
        Err(CompileError::TooManyRegisters)
    } else {
        join(
            gen_block(body, base, param_vars(params), fns, true, nc),
            Ok((seq![ins(ops::MOV, reg::VAL as int, base, 0), ins(ops::RET, 0, 0, 0)], seq![])),
        )
    }
}

/// Names of the top-level function definitions, in order; a function's id is its index here.
pub open spec fn def_names(prog: Seq<Expression>) -> Seq<String>
    decreases prog.len(),
{
    if prog.len() == 0 {
        seq![]
    } else {
        match prog.last() {
            Expression::FunctionDefinition(name, _, _) => def_names(prog.drop_last()).push(name),
            _ => def_names(prog.drop_last()),
        }
    }
}

/// Code, constants and entry addresses of all top-level functions, in order.
pub open spec fn gen_defs(prog: Seq<Expression>, fns: Seq<String>, nc: int) -> Result<(Seq<Instruction>, Seq<i64>, Seq<u64>), CompileError>
    decreases prog.len(),
{
    if prog.len() == 0 {
        Ok((seq![], seq![], seq![]))
    } else {
        match gen_defs(prog.drop_last(), fns, nc) {
            Err(e) => Err(e),
            Ok((c, k, addrs)) => match prog.last() {
                Expression::FunctionDefinition(_, params, body) => match gen_function(params@, body@, fns, nc + k.len()) {
                    Err(e) => Err(e),
                    Ok((c2, k2)) => Ok((c + c2, k + k2, addrs.push(c.len() as u64))),
                },
                _ => Ok((c, k, addrs)),
            },
        }
    }
}

/// Code for the top-level expressions that are not definitions, each leaving its value in
/// the return register of the outermost frame.
pub open spec fn gen_top(prog: Seq<Expression>, fns: Seq<String>, nc: int) -> Gen
    decreases prog.len(),
{
    if prog.len() == 0 {
        Ok((seq![], seq![]))
    } else {
        let g0 = gen_top(prog.drop_last(), fns, nc);
        match prog.last() {
            Expression::FunctionDefinition(_, _, _) => g0,
            e => join(g0, gen_expr(e, reg::VAL as int, seq![], fns, false, nc + consts_of(g0))),
        }
    }
}

/// The whole module: function table, constant pool, entry point and code.
pub open spec fn generate_spec(prog: Seq<Expression>) -> Result<(Seq<u64>, Seq<i64>, u64, Seq<Instruction>), CompileError> {
    let fns = def_names(prog);
    if fns.len() > 0x100_0000 {
        Err(CompileError::TooManyFunctions)
    } else {
        match gen_defs(prog, fns, 0) {
            Err(e) => Err(e),
            Ok((cd, kd, addrs)) => match gen_top(prog, fns, kd.len() as int) {
                Err(e) => Err(e),
                Ok((ct, kt)) => Ok((addrs, kd + kt, cd.len() as u64, cd + ct + seq![ins(ops::HLT, 0, 0, 0)])),
            },
        }
    }
}

/// The code and constant pool being built.
pub struct Emitter {
    pub code: Vec<Instruction>,
    pub constants: Vec<i64>,
}

/// After a piece that compiles to `g`, the emitter went from `(c0, k0)` to `(c1, k1)` and
/// the call returned `r`.
pub open spec fn emits(g: Gen, c0: Seq<Instruction>, k0: Seq<i64>, c1: Seq<Instruction>, k1: Seq<i64>, r: Result<(), CompileError>) -> bool {
    match g {
        Ok((c, k)) => r is Ok && c1 == c0 + c && k1 == k0 + k,
        Err(e) => r == Err::<(), CompileError>(e),
    }
}

proof fn lemma_join(g1: Gen, g2: Gen, c0: Seq<Instruction>, k0: Seq<i64>, c1: Seq<Instruction>, k1: Seq<i64>, c2: Seq<Instruction>, k2: Seq<i64>)
    requires
        emits(g1, c0, k0, c1, k1, Ok(())),
        emits(g2, c1, k1, c2, k2, Ok(())),
    ensures
        emits(join(g1, g2), c0, k0, c2, k2, Ok(())),
        consts_of(g1) == k1.len() - k0.len(),
{
    let (ca, ka) = g1->Ok_0;
    let (cb, kb) = g2->Ok_0;
    assert(c0 + (ca + cb) =~= c0 + ca + cb);
    assert(k0 + (ka + kb) =~= k0 + ka + kb);
}

proof fn lemma_consts(g: Gen, c0: Seq<Instruction>, k0: Seq<i64>, c1: Seq<Instruction>, k1: Seq<i64>)
    requires
        emits(g, c0, k0, c1, k1, Ok(())),
    ensures
        consts_of(g) == k1.len() - k0.len(),
{
}

proof fn lemma_one(i: Instruction, c0: Seq<Instruction>, k0: Seq<i64>)
    ensures
        emits(Ok((seq![i], seq![])), c0, k0, c0.push(i), k0, Ok(())),
{
    assert(c0 + seq![i] =~= c0.push(i));
    assert(k0 + seq![] =~= k0);
}

fn operator_code(op: &String) -> (r: Option<u8>)
    ensures
        r == op_code(op@),
{
    let s = op.as_str();
    let n = s.unicode_len();
    if n == 1 {
        let c = s.get_char(0);
        if c == '+' {
            Some(ops::ADD)
        } else if c == '-' {
            Some(ops::SUB)
        } else if c == '*' {
            Some(ops::MUL)
        } else if c == '/' {
            Some(ops::DIV)
        } else if c == '&' {
            Some(ops::AND)
        } else if c == '|' {
            Some(ops::OR)
        } else if c == '<' {
            Some(ops::LT)
        } else if c == '>' {
            Some(ops::GT)
        } else {
            None
        }
    } else if n == 2 && s.get_char(1) == '=' {
        let c = s.get_char(0);
        if c == '=' {
            Some(ops::EQ)
        } else if c == '<' {
            Some(ops::LE)
        } else if c == '>' {
            Some(ops::GE)
        } else if c == '!' {
            Some(ops::NEQ)
        } else {
            None
        }
    } else {
        None
    }
}

fn lookup_var(vars: &Vec<(String, u8)>, name: &String) -> (r: Option<u8>)
    ensures
        r == var_lookup(vars@, name@),
{
    assert(vars@.subrange(0, vars@.len() as int) =~= vars@);
    let mut i = vars.len();
    while i > 0
        invariant
            i <= vars@.len(),
            var_lookup(vars@.subrange(0, i as int), name@) == var_lookup(vars@, name@),
        decreases i,
    {
        assert(vars@.subrange(0, i as int).drop_last() =~= vars@.subrange(0, i - 1));
        if vars[i - 1].0 == *name {
            return Some(vars[i - 1].1);
        }
        i = i - 1;
    }
    None
}

fn lookup_fn(fns: &Vec<String>, name: &String) -> (r: Option<usize>)
    ensures
        match fn_lookup(fns@, name@) {
            Some(i) => r == Some(i as usize) && 0 <= i < fns@.len(),
            None => r is None,
        },
{
    proof {
        lemma_fn_lookup_range(fns@, name@);
    }
    assert(fns@.subrange(0, fns@.len() as int) =~= fns@);
    let mut i = fns.len();
    while i > 0
        invariant
            i <= fns@.len(),
            fn_lookup(fns@.subrange(0, i as int), name@) == fn_lookup(fns@, name@),
        decreases i,
    {
        assert(fns@.subrange(0, i as int).drop_last() =~= fns@.subrange(0, i - 1));
        if fns[i - 1] == *name {
            return Some(i - 1);
        }
        i = i - 1;
    }
    None
}

proof fn lemma_fn_lookup_range(fns: Seq<String>, name: Seq<char>)
    ensures
        fn_lookup(fns, name) matches Some(j) ==> 0 <= j < fns.len(),
    decreases fns.len(),
{
    if fns.len() > 0 {
        lemma_fn_lookup_range(fns.drop_last(), name);
    }
}

fn emit(em: &mut Emitter, i: Instruction)
    ensures
        final(em).code@ == old(em).code@.push(i),
        final(em).constants@ == old(em).constants@,
{
    em.code.push(i);
}

/// Loads an integer literal: as an immediate when it fits in 16 bits, else from the pool.
fn emit_literal(em: &mut Emitter, n: i64, base: u8) -> (r: Result<(), CompileError>)
    ensures
        emits(literal_code(n, base as int, old(em).constants@.len() as int), old(em).code@, old(em).constants@, final(em).code@, final(em).constants@, r),
{
    if -32768 <= n && n <= 32767 {
        let w: i64 = if n >= 0 { n } else { n + 65536 };
        let i = Instruction { opcode: ops::LD, target: base, left: (w % 256) as u8, right: (w / 256) as u8 };
        proof {
            lemma_one(i, em.code@, em.constants@);
        }
        emit(em, i);
        Ok(())
    } else if em.constants.len() >= 65536 {
        Err(CompileError::TooManyConstants)
    } else {
        let k = em.constants.len();
        let i = Instruction { opcode: ops::LDB, target: base, left: (k % 256) as u8, right: (k / 256) as u8 };
        assert(seq![i] + seq![] =~= seq![i]);
        assert(em.code@ + seq![i] =~= em.code@.push(i));
        assert(em.constants@ + seq![n] =~= em.constants@.push(n));
        em.constants.push(n);
        emit(em, i);
        Ok(())
    }
}

/// Moves `n` call arguments into parameter slots (see `arg_moves`).
fn emit_moves(em: &mut Emitter, n: u8, base: u8, tail: bool)
    requires
        base as int + n + 1 <= 255,
    ensures
        final(em).code@ == old(em).code@ + arg_moves(n as int, base as int, tail),
        final(em).constants@ == old(em).constants@,
{
    let ghost c0 = em.code@;
    let mut k: u8 = 0;
    while k < n
        invariant
            k <= n,
            base as int + n + 1 <= 255,
            em.code@ == c0 + arg_moves(k as int, base as int, tail),
            em.constants@ == old(em).constants@,
        decreases n - k,
    {
        let i = if tail {
            Instruction { opcode: ops::MOV, target: reg::VAL + k, left: base + 1 + k, right: 0 }
        } else {
            Instruction { opcode: ops::MVO, target: reg::VAL + 1 + k, left: base + 1 + k, right: 255 }
        };
        assert(arg_moves(k + 1, base as int, tail) =~= arg_moves(k as int, base as int, tail).push(i));
        assert(c0 + arg_moves(k + 1, base as int, tail) =~= (c0 + arg_moves(k as int, base as int, tail)).push(i));
        emit(em, i);
        k = k + 1;
    }
}

/// Emits the code of `gen_expr`.
fn gen_expr_exec(em: &mut Emitter, e: &Expression, base: u8, vars: &Vec<(String, u8)>, fns: &Vec<String>, tail: bool) -> (r: Result<(), CompileError>)
    requires
        fns@.len() <= 0x100_0000,
    ensures
        emits(gen_expr(*e, base as int, vars@, fns@, tail, old(em).constants@.len() as int), old(em).code@, old(em).constants@, final(em).code@, final(em).constants@, r),
    decreases e, 1nat,
{
    let ghost c0 = em.code@;
    let ghost k0 = em.constants@;
    match e {
        Expression::Integer(n) => emit_literal(em, *n, base),
        Expression::Variable(x) => match lookup_var(vars, x) {
            Some(r) => {
                let i = Instruction { opcode: ops::MOV, target: base, left: r, right: 0 };
                proof {
                    lemma_one(i, c0, k0);
                }
                emit(em, i);
                Ok(())
            },
            None => Err(CompileError::UndefinedVariable(x.clone())),
        },
        Expression::FunctionDefinition(name, _, _) => Err(CompileError::MisplacedDefinition(name.clone())),
        Expression::BinaryOp(..) => gen_binary(em, e, base, vars, fns, tail),
        Expression::Function(..) => gen_call(em, e, base, vars, fns, tail),
        Expression::VariableAssignment(..) => gen_let(em, e, base, vars, fns, tail),
        Expression::Conditional(..) => gen_cond(em, e, base, vars, fns, tail),
    }
}

fn gen_binary(em: &mut Emitter, e: &Expression, base: u8, vars: &Vec<(String, u8)>, fns: &Vec<String>, tail: bool) -> (r: Result<(), CompileError>)
    requires
        fns@.len() <= 0x100_0000,
        e is BinaryOp,
    ensures
        emits(gen_expr(*e, base as int, vars@, fns@, tail, old(em).constants@.len() as int), old(em).code@, old(em).constants@, final(em).code@, final(em).constants@, r),
    decreases e, 0nat,
{
    let ghost c0 = em.code@;
    let ghost k0 = em.constants@;
    match e {
        Expression::BinaryOp(op, l, r) => match operator_code(op) {
            None => Err(CompileError::InvalidOperation(op.clone())),
            Some(o) => {
                if base > 253 {
                    return Err(CompileError::TooManyRegisters);
                }
                match gen_expr_exec(em, l, base + 1, vars, fns, false) {
                    Err(err) => {
                        return Err(err);
                    },
                    Ok(()) => {},
                }
                let ghost c1 = em.code@;
                let ghost k1 = em.constants@;
                match gen_expr_exec(em, r, base + 2, vars, fns, false) {
                    Err(err) => {
                        return Err(err);
                    },
                    Ok(()) => {},
                }
                let ghost c2 = em.code@;
                let ghost k2 = em.constants@;
                let i = Instruction { opcode: o, target: base, left: base + 1, right: base + 2 };
                emit(em, i);
                proof {
                    let gl = gen_expr(**l, base + 1, vars@, fns@, false, k0.len() as int);
                    let gr = gen_expr(**r, base + 2, vars@, fns@, false, k1.len() as int);
                    lemma_join(gl, gr, c0, k0, c1, k1, c2, k2);
                    lemma_one(i, c2, k2);
                    lemma_join(join(gl, gr), Ok((seq![i], seq![])), c0, k0, c2, k2, em.code@, em.constants@);
                }
                Ok(())
            },
        },
        _ => Err(CompileError::TooManyRegisters),
    }
}

fn gen_call(em: &mut Emitter, e: &Expression, base: u8, vars: &Vec<(String, u8)>, fns: &Vec<String>, tail: bool) -> (r: Result<(), CompileError>)
    requires
        fns@.len() <= 0x100_0000,
        e is Function,
    ensures
        emits(gen_expr(*e, base as int, vars@, fns@, tail, old(em).constants@.len() as int), old(em).code@, old(em).constants@, final(em).code@, final(em).constants@, r),
    decreases e, 0nat,
{
    let ghost c0 = em.code@;
    let ghost k0 = em.constants@;
    match e {
        Expression::Function(name, args) => match lookup_fn(fns, name) {
            None => Err(CompileError::UndefinedFunction(name.clone())),
            Some(id) => {
                if args.len() >= 255 || base as usize + args.len() + 1 > 255 {
                    return Err(CompileError::TooManyRegisters);
                }
                match gen_args_exec(em, args, base + 1, vars, fns) {
                    Err(err) => {
                        return Err(err);
                    },
                    Ok(()) => {},
                }
                let ghost c1 = em.code@;
                let n = args.len() as u8;
                emit_moves(em, n, base, tail);
                let b0 = (id % 256) as u8;
                let b1 = ((id / 256) % 256) as u8;
                let b2 = (id / 65536) as u8;
                if tail {
                    emit(em, Instruction { opcode: ops::TLC, target: b0, left: b1, right: b2 });
                } else {
                    emit(em, Instruction { opcode: ops::CAL, target: b0, left: b1, right: b2 });
                    emit(em, Instruction { opcode: ops::LDR, target: base, left: 0, right: 0 });
                }
                proof {
                    let ga = gen_args(args@, base + 1, vars@, fns@, k0.len() as int);
                    let tail_code = if tail {
                        arg_moves(n as int, base as int, true).push(call_ins(id as int, true))
                    } else {
                        arg_moves(n as int, base as int, false).push(call_ins(id as int, false)).push(
                            ins(ops::LDR, base as int, 0, 0),
                        )
                    };
                    assert(em.code@ =~= c1 + tail_code);
                    assert(em.constants@ =~= em.constants@ + seq![]);
                    lemma_join(ga, Ok((tail_code, seq![])), c0, k0, c1, em.constants@, em.code@, em.constants@);
                }
                Ok(())
            },
        },
        _ => Err(CompileError::TooManyRegisters),
    }
}

fn gen_let(em: &mut Emitter, e: &Expression, base: u8, vars: &Vec<(String, u8)>, fns: &Vec<String>, tail: bool) -> (r: Result<(), CompileError>)
    requires
        fns@.len() <= 0x100_0000,
        e is VariableAssignment,
    ensures
        emits(gen_expr(*e, base as int, vars@, fns@, tail, old(em).constants@.len() as int), old(em).code@, old(em).constants@, final(em).code@, final(em).constants@, r),
    decreases e, 0nat,
{
    let ghost c0 = em.code@;
    let ghost k0 = em.constants@;
    match e {
        Expression::VariableAssignment(binds, body) => {
            if binds.len() >= 255 || base as usize + binds.len() + 1 > 255 {
                return Err(CompileError::TooManyRegisters);
            }
            let inner = base + 1 + binds.len() as u8;
            let mut scope = copy_vars(vars);
            match gen_binds_exec(em, binds, base + 1, &mut scope, fns) {
                Err(err) => {
                    return Err(err);
                },
                Ok(()) => {},
            }
            let ghost c1 = em.code@;
            let ghost k1 = em.constants@;
            match gen_block_exec(em, body, inner, &scope, fns, false) {
                Err(err) => {
                    return Err(err);
                },
                Ok(()) => {},
            }
            let ghost c2 = em.code@;
            let ghost k2 = em.constants@;
            let i = Instruction { opcode: ops::MOV, target: base, left: inner, right: 0 };
            emit(em, i);
            proof {
                let gb = gen_binds(binds@, base + 1, vars@, fns@, k0.len() as int);
                let gbody = gen_block(body@, inner as int, scope@, fns@, false, k1.len() as int);
                lemma_join(gb, gbody, c0, k0, c1, k1, c2, k2);
                lemma_one(i, c2, k2);
                lemma_join(join(gb, gbody), Ok((seq![i], seq![])), c0, k0, c2, k2, em.code@, em.constants@);
            }
            Ok(())
        },
        _ => Err(CompileError::TooManyRegisters),
    }
}

fn gen_cond(em: &mut Emitter, e: &Expression, base: u8, vars: &Vec<(String, u8)>, fns: &Vec<String>, tail: bool) -> (r: Result<(), CompileError>)
    requires
        fns@.len() <= 0x100_0000,
        e is Conditional,
    ensures
        emits(gen_expr(*e, base as int, vars@, fns@, tail, old(em).constants@.len() as int), old(em).code@, old(em).constants@, final(em).code@, final(em).constants@, r),
    decreases e, 0nat,
{
    let ghost c0 = em.code@;
    let ghost k0 = em.constants@;
    match e {
        Expression::Conditional(c, th, el) => {
            match gen_expr_exec(em, c, base, vars, fns, false) {
                Err(err) => {
                    return Err(err);
                },
                Ok(()) => {},
            }
            let ghost c1 = em.code@;
            let ghost k1 = em.constants@;
            let jtf_at = em.code.len();
            emit(em, Instruction { opcode: ops::JTF, target: base, left: 0, right: 0 });
            let ghost c1j = em.code@;
            match gen_block_exec(em, el, base, vars, fns, tail) {
                Err(err) => {
                    return Err(err);
                },
                Ok(()) => {},
            }
            let ghost c2 = em.code@;
            let ghost k2 = em.constants@;
            let else_len = em.code.len() - jtf_at - 1;
            if else_len >= 65534 {
                return Err(CompileError::JumpTooLong);
            }
            let skip_else = else_len + 2;
            let jtf = Instruction { opcode: ops::JTF, target: base, left: (skip_else % 256) as u8, right: (skip_else / 256) as u8 };
            em.code.set(jtf_at, jtf);
            let jmf_at = em.code.len();
            emit(em, Instruction { opcode: ops::JMF, target: 0, left: 0, right: 0 });
            let ghost c3j = em.code@;
            match gen_block_exec(em, th, base, vars, fns, tail) {
                Err(err) => {
                    return Err(err);
                },
                Ok(()) => {},
            }
            let then_len = em.code.len() - jmf_at - 1;
            if then_len >= 0xff_ffff {
                return Err(CompileError::JumpTooLong);
            }
            let skip_then = then_len + 1;
            let jmf = Instruction {
                opcode: ops::JMF,
                target: (skip_then % 256) as u8,
                left: ((skip_then / 256) % 256) as u8,
                right: (skip_then / 65536) as u8,
            };
            em.code.set(jmf_at, jmf);
            proof {
                let gc = gen_expr(**c, base as int, vars@, fns@, false, k0.len() as int);
                let ge = gen_block(el@, base as int, vars@, fns@, tail, k1.len() as int);
                let gt = gen_block(th@, base as int, vars@, fns@, tail, k2.len() as int);
                let (cc, kc) = gc->Ok_0;
                let (ce, ke) = ge->Ok_0;
                let (ct, kt) = gt->Ok_0;
                assert(jtf == jtf_ins(base as int, ce.len() + 2int));
                assert(jmf == jmf_ins(ct.len() + 1int));
                assert(em.code@ =~= c0 + (cc + seq![jtf] + ce + seq![jmf] + ct));
                assert(em.constants@ =~= k0 + (kc + ke + kt));
            }
            Ok(())
        },
        _ => Err(CompileError::TooManyRegisters),
    }
}

fn copy_vars(vars: &Vec<(String, u8)>) -> (r: Vec<(String, u8)>)
    ensures
        r@ == vars@,
{
    let mut out: Vec<(String, u8)> = Vec::new();
    let mut i: usize = 0;
    while i < vars.len()
        invariant
            i <= vars@.len(),
            out@ == vars@.subrange(0, i as int),
        decreases vars@.len() - i,
    {
        let name = vars[i].0.clone();
        out.push((name, vars[i].1));
        assert(vars@.subrange(0, i + 1) =~= vars@.subrange(0, i as int).push(vars@[i as int]));
        i = i + 1;
    }
    assert(vars@.subrange(0, vars@.len() as int) =~= vars@);
    out
}

fn gen_args_exec(em: &mut Emitter, args: &Vec<Expression>, first: u8, vars: &Vec<(String, u8)>, fns: &Vec<String>) -> (r: Result<(), CompileError>)
    requires
        fns@.len() <= 0x100_0000,
        first as int + args@.len() <= 256,
    ensures
        emits(gen_args(args@, first as int, vars@, fns@, old(em).constants@.len() as int), old(em).code@, old(em).constants@, final(em).code@, final(em).constants@, r),
    decreases args, 0nat,
{
    let ghost c0 = em.code@;
    let ghost k0 = em.constants@;
    let ghost nc = k0.len() as int;
    assert(args@.subrange(0, 0) =~= Seq::<Expression>::empty());
    assert(c0 + seq![] =~= c0 && k0 + seq![] =~= k0);
    let mut i: usize = 0;
    while i < args.len()
        invariant
            i <= args@.len(),
            fns@.len() <= 0x100_0000,
            first as int + args@.len() <= 256,
            nc == k0.len(),
            c0 == old(em).code@,
            k0 == old(em).constants@,
            emits(gen_args(args@.subrange(0, i as int), first as int, vars@, fns@, nc), c0, k0, em.code@, em.constants@, Ok(())),
        decreases args@.len() - i,
    {
        let ghost c1 = em.code@;
        let ghost k1 = em.constants@;
        match gen_expr_exec(em, &args[i], first + i as u8, vars, fns, false) {
            Err(err) => {
                proof {
                    let pre = args@.subrange(0, i as int);
                    assert(args@.subrange(0, i + 1).drop_last() =~= pre);
                    let g0 = gen_args(pre, first as int, vars@, fns@, nc);
                    lemma_consts(g0, c0, k0, c1, k1);
                    let ge = gen_expr(args@[i as int], first + i, vars@, fns@, false, k1.len() as int);
                    assert(ge == Err::<(Seq<Instruction>, Seq<i64>), CompileError>(err));
                    assert(gen_args(args@.subrange(0, i + 1), first as int, vars@, fns@, nc) == join(g0, ge));
                    assert(gen_args(args@.subrange(0, i + 1), first as int, vars@, fns@, nc) is Err);
                    lemma_args_err(args@, first as int, vars@, fns@, nc, i + 1);
                }
                return Err(err);
            },
            Ok(()) => {},
        }
        proof {
            let pre = args@.subrange(0, i as int);
            assert(args@.subrange(0, i + 1).drop_last() =~= pre);
            let g0 = gen_args(pre, first as int, vars@, fns@, nc);
            lemma_join(g0, gen_expr(args@[i as int], first + i, vars@, fns@, false, k1.len() as int), c0, k0, c1, k1, em.code@, em.constants@);
        }
        i = i + 1;
    }
    assert(args@.subrange(0, args@.len() as int) =~= args@);
    Ok(())
}

proof fn lemma_args_err(es: Seq<Expression>, first: int, vars: Seq<(String, u8)>, fns: Seq<String>, nc: int, i: int)
    requires
        0 <= i <= es.len(),
        gen_args(es.subrange(0, i), first, vars, fns, nc) is Err,
    ensures
        gen_args(es, first, vars, fns, nc) == gen_args(es.subrange(0, i), first, vars, fns, nc),
    decreases es.len(),
{
    if es.len() > i {
        assert(es.drop_last().subrange(0, i) =~= es.subrange(0, i));
        lemma_args_err(es.drop_last(), first, vars, fns, nc, i);
    } else {
        assert(es.subrange(0, i) =~= es);
    }
}

proof fn lemma_block_err(es: Seq<Expression>, base: int, vars: Seq<(String, u8)>, fns: Seq<String>, tail: bool, nc: int, i: int)
    requires
        0 <= i <= es.len(),
        i < es.len() || !tail,
        gen_block(es.subrange(0, i), base, vars, fns, false, nc) is Err,
    ensures
        gen_block(es, base, vars, fns, tail, nc) == gen_block(es.subrange(0, i), base, vars, fns, false, nc),
    decreases es.len(),
{
    if es.len() > i {
        assert(es.drop_last().subrange(0, i) =~= es.subrange(0, i));
        lemma_block_err(es.drop_last(), base, vars, fns, false, nc, i);
    } else {
        assert(es.subrange(0, i) =~= es);
    }
}

proof fn lemma_binds_err(ps: Seq<(String, Expression)>, first: int, vars: Seq<(String, u8)>, fns: Seq<String>, nc: int, i: int)
    requires
        0 <= i <= ps.len(),
        gen_binds(ps.subrange(0, i), first, vars, fns, nc) is Err,
    ensures
        gen_binds(ps, first, vars, fns, nc) == gen_binds(ps.subrange(0, i), first, vars, fns, nc),
    decreases ps.len(),
{
    if ps.len() > i {
        assert(ps.drop_last().subrange(0, i) =~= ps.subrange(0, i));
        lemma_binds_err(ps.drop_last(), first, vars, fns, nc, i);
    } else {
        assert(ps.subrange(0, i) =~= ps);
    }
}

fn gen_block_exec(em: &mut Emitter, es: &Vec<Expression>, base: u8, vars: &Vec<(String, u8)>, fns: &Vec<String>, tail: bool) -> (r: Result<(), CompileError>)
    requires
        fns@.len() <= 0x100_0000,
    ensures
        emits(gen_block(es@, base as int, vars@, fns@, tail, old(em).constants@.len() as int), old(em).code@, old(em).constants@, final(em).code@, final(em).constants@, r),
    decreases es, 0nat,
{
    let ghost c0 = em.code@;
    let ghost k0 = em.constants@;
    let ghost nc = k0.len() as int;
    assert(es@.subrange(0, 0) =~= Seq::<Expression>::empty());
    assert(c0 + seq![] =~= c0 && k0 + seq![] =~= k0);
    let n = es.len();
    let mut i: usize = 0;
    while i < n
        invariant
            n == es@.len(),
            i <= n,
            fns@.len() <= 0x100_0000,
            nc == k0.len(),
            c0 == old(em).code@,
            k0 == old(em).constants@,
            emits(gen_block(es@.subrange(0, i as int), base as int, vars@, fns@, false, nc), c0, k0, em.code@, em.constants@, Ok(())),
            i == n ==> n == 0,
        decreases n - i,
    {
        let ghost c1 = em.code@;
        let ghost k1 = em.constants@;
        let last = i + 1 == n;
        match gen_expr_exec(em, &es[i], base, vars, fns, tail && last) {
            Err(err) => {
                proof {
                    let pre = es@.subrange(0, i as int);
                    assert(es@.subrange(0, i + 1).drop_last() =~= pre);
                    lemma_consts(gen_block(pre, base as int, vars@, fns@, false, nc), c0, k0, c1, k1);
                    if last {
                        assert(es@.subrange(0, i + 1) =~= es@);
                    } else {
                        lemma_block_err(es@, base as int, vars@, fns@, tail, nc, i + 1);
                    }
                }
                return Err(err);
            },
            Ok(()) => {},
        }
        proof {
            let pre = es@.subrange(0, i as int);
            assert(es@.subrange(0, i + 1).drop_last() =~= pre);
            let g0 = gen_block(pre, base as int, vars@, fns@, false, nc);
            lemma_join(g0, gen_expr(es@[i as int], base as int, vars@, fns@, tail && last, k1.len() as int), c0, k0, c1, k1, em.code@, em.constants@);
            if last {
                assert(es@.subrange(0, i + 1) =~= es@);
            }
        }
        if last {
            return Ok(());
        }
        i = i + 1;
    }
    Ok(())
}

fn gen_binds_exec(em: &mut Emitter, binds: &Vec<(String, Expression)>, first: u8, scope: &mut Vec<(String, u8)>, fns: &Vec<String>) -> (r: Result<(), CompileError>)
    requires
        fns@.len() <= 0x100_0000,
        first as int + binds@.len() <= 255,
    ensures
        emits(gen_binds(binds@, first as int, old(scope)@, fns@, old(em).constants@.len() as int), old(em).code@, old(em).constants@, final(em).code@, final(em).constants@, r),
        r is Ok ==> final(scope)@ == old(scope)@ + bound_vars(binds@, first as int),
    decreases binds, 0nat,
{
    let ghost c0 = em.code@;
    let ghost k0 = em.constants@;
    let ghost nc = k0.len() as int;
    let ghost s0 = scope@;
    assert(binds@.subrange(0, 0) =~= Seq::<(String, Expression)>::empty());
    assert(c0 + seq![] =~= c0 && k0 + seq![] =~= k0);
    assert(s0 + bound_vars(binds@.subrange(0, 0), first as int) =~= s0);
    let mut i: usize = 0;
    while i < binds.len()
        invariant
            i <= binds@.len(),
            fns@.len() <= 0x100_0000,
            first as int + binds@.len() <= 255,
            nc == k0.len(),
            c0 == old(em).code@,
            k0 == old(em).constants@,
            s0 == old(scope)@,
            scope@ == s0 + bound_vars(binds@.subrange(0, i as int), first as int),
            emits(gen_binds(binds@.subrange(0, i as int), first as int, s0, fns@, nc), c0, k0, em.code@, em.constants@, Ok(())),
        decreases binds@.len() - i,
    {
        let ghost c1 = em.code@;
        let ghost k1 = em.constants@;
        let ghost pre = binds@.subrange(0, i as int);
        proof {
            assert(binds@.subrange(0, i + 1).drop_last() =~= pre);
            assert(binds@.subrange(0, i + 1).last() == binds@[i as int]);
        }
        let target = first + i as u8;
        match gen_expr_exec(em, &binds[i].1, target, scope, fns, false) {
            Err(err) => {
                proof {
                    lemma_consts(gen_binds(pre, first as int, s0, fns@, nc), c0, k0, c1, k1);
                    lemma_binds_err(binds@, first as int, s0, fns@, nc, i + 1);
                }
                return Err(err);
            },
            Ok(()) => {},
        }
        proof {
            let g0 = gen_binds(pre, first as int, s0, fns@, nc);
            lemma_join(
                g0,
                gen_expr(binds@[i as int].1, first + i, s0 + bound_vars(pre, first as int), fns@, false, k1.len() as int),
                c0, k0, c1, k1, em.code@, em.constants@,
            );
        }
        let name = binds[i].0.clone();
        scope.push((name, target));
        proof {
            assert(bound_vars(binds@.subrange(0, i + 1), first as int) =~= bound_vars(pre, first as int).push((binds@[i as int].0, target)));
            assert(s0 + bound_vars(binds@.subrange(0, i + 1), first as int) =~= (s0 + bound_vars(pre, first as int)).push((binds@[i as int].0, target)));
        }
        i = i + 1;
    }
    assert(binds@.subrange(0, binds@.len() as int) =~= binds@);
    Ok(())
}

fn collect_names(program: &Vec<Expression>) -> (r: Vec<String>)
    ensures
        r@ == def_names(program@),
{
    let mut names: Vec<String> = Vec::new();
    let mut i: usize = 0;
    assert(program@.subrange(0, 0) =~= Seq::<Expression>::empty());
    while i < program.len()
        invariant
            i <= program@.len(),
            names@ == def_names(program@.subrange(0, i as int)),
        decreases program@.len() - i,
    {
        assert(program@.subrange(0, i + 1).drop_last() =~= program@.subrange(0, i as int));
        match &program[i] {
            Expression::FunctionDefinition(name, _, _) => {
                names.push(name.clone());
            },
            _ => {},
        }
        i = i + 1;
    }
    assert(program@.subrange(0, program@.len() as int) =~= program@);
    names
}

fn param_scope(params: &Vec<String>) -> (r: Vec<(String, u8)>)
    requires
        params@.len() < 255,
    ensures
        r@ == param_vars(params@),
{
    let mut out: Vec<(String, u8)> = Vec::new();
    let mut k: usize = 0;
    while k < params.len()
        invariant
            k <= params@.len() < 255,
            out@ == param_vars(params@.subrange(0, k as int)),
        decreases params@.len() - k,
    {
        let name = params[k].clone();
        out.push((name, reg::VAL + k as u8));
        assert(param_vars(params@.subrange(0, k + 1)) =~= param_vars(params@.subrange(0, k as int)).push((params@[k as int], (reg::VAL + k) as u8)));
        k = k + 1;
    }
    assert(params@.subrange(0, params@.len() as int) =~= params@);
    out
}

fn gen_function_exec(em: &mut Emitter, params: &Vec<String>, body: &Vec<Expression>, fns: &Vec<String>) -> (r: Result<(), CompileError>)
    requires
        fns@.len() <= 0x100_0000,
    ensures
        emits(gen_function(params@, body@, fns@, old(em).constants@.len() as int), old(em).code@, old(em).constants@, final(em).code@, final(em).constants@, r),
{
    let ghost c0 = em.code@;
    let ghost k0 = em.constants@;
    if params.len() >= 255 {
        return Err(CompileError::TooManyRegisters);
    }
    let base = (params.len() + 1) as u8;
    let scope = param_scope(params);
    match gen_block_exec(em, body, base, &scope, fns, true) {
        Err(err) => {
            return Err(err);
        },
        Ok(()) => {},
    }
    let ghost c1 = em.code@;
    let ghost k1 = em.constants@;
    let mv = Instruction { opcode: ops::MOV, target: reg::VAL, left: base, right: 0 };
    let rt = Instruction { opcode: ops::RET, target: 0, left: 0, right: 0 };
    emit(em, mv);
    emit(em, rt);
    proof {
        let gb = gen_block(body@, base as int, param_vars(params@), fns@, true, k0.len() as int);
        assert(em.code@ =~= c1 + seq![mv, rt]);
        assert(k1 =~= k1 + seq![]);
        lemma_join(gb, Ok((seq![mv, rt], seq![])), c0, k0, c1, k1, em.code@, em.constants@);
    }
    Ok(())
}

proof fn lemma_defs_err(prog: Seq<Expression>, fns: Seq<String>, nc: int, i: int)
    requires
        0 <= i <= prog.len(),
        gen_defs(prog.subrange(0, i), fns, nc) is Err,
    ensures
        gen_defs(prog, fns, nc) == gen_defs(prog.subrange(0, i), fns, nc),
    decreases prog.len(),
{
    if prog.len() > i {
        assert(prog.drop_last().subrange(0, i) =~= prog.subrange(0, i));
        lemma_defs_err(prog.drop_last(), fns, nc, i);
    } else {
        assert(prog.subrange(0, i) =~= prog);
    }
}

proof fn lemma_top_err(prog: Seq<Expression>, fns: Seq<String>, nc: int, i: int)
    requires
        0 <= i <= prog.len(),
        gen_top(prog.subrange(0, i), fns, nc) is Err,
    ensures
        gen_top(prog, fns, nc) == gen_top(prog.subrange(0, i), fns, nc),
    decreases prog.len(),
{
    if prog.len() > i {
        assert(prog.drop_last().subrange(0, i) =~= prog.subrange(0, i));
        lemma_top_err(prog.drop_last(), fns, nc, i);
    } else {
        assert(prog.subrange(0, i) =~= prog);
    }
}

/// Emits every function body, recording the address at which each starts.
fn gen_defs_exec(em: &mut Emitter, program: &Vec<Expression>, fns: &Vec<String>, addrs: &mut Vec<u64>) -> (r: Result<(), CompileError>)
    requires
        fns@.len() <= 0x100_0000,
        old(em).code@.len() == 0,
        old(em).constants@.len() == 0,
        old(addrs)@.len() == 0,
    ensures
        match gen_defs(program@, fns@, 0) {
            Ok((c, k, a)) => r is Ok && final(em).code@ == c && final(em).constants@ == k && final(addrs)@ == a,
            Err(e) => r == Err::<(), CompileError>(e),
        },
{
    let mut i: usize = 0;
    assert(program@.subrange(0, 0) =~= Seq::<Expression>::empty());
    assert(em.code@ =~= Seq::<Instruction>::empty());
    assert(em.constants@ =~= Seq::<i64>::empty());
    assert(addrs@ =~= Seq::<u64>::empty());
    while i < program.len()
        invariant
            i <= program@.len(),
            fns@.len() <= 0x100_0000,
            gen_defs(program@.subrange(0, i as int), fns@, 0) == Ok::<(Seq<Instruction>, Seq<i64>, Seq<u64>), CompileError>((em.code@, em.constants@, addrs@)),
        decreases program@.len() - i,
    {
        let ghost c1 = em.code@;
        let ghost k1 = em.constants@;
        let ghost a1 = addrs@;
        assert(program@.subrange(0, i + 1).drop_last() =~= program@.subrange(0, i as int));
        match &program[i] {
            Expression::FunctionDefinition(_, params, body) => {
                let addr = em.code.len() as u64;
                match gen_function_exec(em, params, body, fns) {
                    Err(err) => {
                        proof {
                            lemma_defs_err(program@, fns@, 0, i + 1);
                        }
                        return Err(err);
                    },
                    Ok(()) => {},
                }
                addrs.push(addr);
            },
            _ => {},
        }
        i = i + 1;
    }
    assert(program@.subrange(0, program@.len() as int) =~= program@);
    Ok(())
}

/// Emits the top-level expressions that are not definitions.
fn gen_top_exec(em: &mut Emitter, program: &Vec<Expression>, fns: &Vec<String>) -> (r: Result<(), CompileError>)
    requires
        fns@.len() <= 0x100_0000,
    ensures
        emits(gen_top(program@, fns@, old(em).constants@.len() as int), old(em).code@, old(em).constants@, final(em).code@, final(em).constants@, r),
{
    let ghost c0 = em.code@;
    let ghost k0 = em.constants@;
    let ghost nc = k0.len() as int;
    let empty: Vec<(String, u8)> = Vec::new();
    assert(empty@ =~= Seq::<(String, u8)>::empty());
    assert(program@.subrange(0, 0) =~= Seq::<Expression>::empty());
    assert(c0 + seq![] =~= c0 && k0 + seq![] =~= k0);
    let mut i: usize = 0;
    while i < program.len()
        invariant
            i <= program@.len(),
            fns@.len() <= 0x100_0000,
            nc == k0.len(),
            c0 == old(em).code@,
            k0 == old(em).constants@,
            empty@ == Seq::<(String, u8)>::empty(),
            emits(gen_top(program@.subrange(0, i as int), fns@, nc), c0, k0, em.code@, em.constants@, Ok(())),
        decreases program@.len() - i,
    {
        let ghost c1 = em.code@;
        let ghost k1 = em.constants@;
        let ghost pre = program@.subrange(0, i as int);
        assert(program@.subrange(0, i + 1).drop_last() =~= pre);
        match &program[i] {
            Expression::FunctionDefinition(_, _, _) => {},
            e => {
                proof {
                    lemma_consts(gen_top(pre, fns@, nc), c0, k0, c1, k1);
                }
                match gen_expr_exec(em, e, reg::VAL, &empty, fns, false) {
                    Err(err) => {
                        proof {
                            lemma_top_err(program@, fns@, nc, i + 1);
                        }
                        return Err(err);
                    },
                    Ok(()) => {},
                }
                proof {
                    lemma_join(
                        gen_top(pre, fns@, nc),
                        gen_expr(*e, reg::VAL as int, seq![], fns@, false, k1.len() as int),
                        c0, k0, c1, k1, em.code@, em.constants@,
                    );
                }
            },
        }
        i = i + 1;
    }
    assert(program@.subrange(0, program@.len() as int) =~= program@);
    Ok(())
}

/// `r` is the module that `g` describes, or the same error.
pub open spec fn module_is(g: Result<(Seq<u64>, Seq<i64>, u64, Seq<Instruction>), CompileError>, r: Result<Module, CompileError>) -> bool {
    match g {
        Ok((f, k, e, c)) => r matches Ok(m) && m.functions@ == f && m.constants@ == k && m.entry_point == e && m.code@ == c,
        Err(err) => r == Err::<Module, CompileError>(err),
    }
}

/// Compiles an expression tree into a module (see `generate_spec`).
pub fn generate(program: &Vec<Expression>) -> (r: Result<Module, CompileError>)
    ensures
        module_is(generate_spec(program@), r),
{
    let fns = collect_names(program);
    if fns.len() > 0x100_0000 {
        return Err(CompileError::TooManyFunctions);
    }
    let mut em = Emitter { code: Vec::new(), constants: Vec::new() };
    let mut addrs: Vec<u64> = Vec::new();
    match gen_defs_exec(&mut em, program, &fns, &mut addrs) {
        Err(err) => {
            return Err(err);
        },
        Ok(()) => {},
    }
    let ghost cd = em.code@;
    let ghost kd = em.constants@;
    let entry_point = em.code.len() as u64;
    match gen_top_exec(&mut em, program, &fns) {
        Err(err) => {
            return Err(err);
        },
        Ok(()) => {},
    }
    let hlt = Instruction { opcode: ops::HLT, target: 0, left: 0, right: 0 };
    emit(&mut em, hlt);
    proof {
        let (ct, kt) = gen_top(program@, fns@, kd.len() as int)->Ok_0;
        assert(em.code@ =~= cd + ct + seq![hlt]);
    }
    Ok(Module { functions: addrs, constants: em.constants, entry_point, code: em.code })
}

} // verus!
