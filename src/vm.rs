use vstd::prelude::*;
use crate::common::{Instruction, word16, word24, sign_extend16};
use crate::ops;
use crate::reg;

verus! {

/// Registers in one call frame; a call moves `base` up by this much.
pub const WINDOW: usize = 256;

/// Why execution stopped before reaching a halt.
#[derive(Clone, Copy, Debug, PartialEq, Eq, Structural)]
pub enum Fault {
    /// A register beyond the end of the register array was addressed.
    StackOverflow,
    /// A return was executed in the outermost frame.
    StackUnderflow,
    DivisionByZero,
    /// The program counter left the code.
    BadAddress,
    /// A call named a function id outside the function table.
    BadFunction,
    /// A constant load named an index outside the constant pool.
    BadConstant,
    BadOpcode,
    /// The step budget ran out.
    OutOfFuel,
}

/// Why execution paused without a fault.
#[derive(Clone, Copy, Debug, PartialEq, Eq, Structural)]
pub enum Stop {
    Halted,
    /// A write instruction produced this value; execution resumes at the address.
    Output(i64, usize),
    /// A read instruction at this address waits for an integer.
    Input(usize),
}

/// What one instruction does to the flow of control.
#[derive(Clone, Copy, Debug, PartialEq, Eq, Structural)]
pub enum Flow {
    Continue(usize),
    Stop(Stop),
    Fault(Fault),
}

/// An execution context over the pieces of a module.
pub struct Thread<'a> {
    pub functions: &'a [u64],
    pub constants: &'a [i64],
    pub code: &'a [Instruction],
    pub registers: Vec<i64>,
    pub base: usize,
}

/// The read-only part of a thread: code, function table, constant pool.
pub struct Program {
    pub code: Seq<Instruction>,
    pub functions: Seq<u64>,
    pub constants: Seq<i64>,
}

impl<'a> Thread<'a> {
    pub open spec fn program(&self) -> Program {
        Program { code: self.code@, functions: self.functions@, constants: self.constants@ }
    }
}

/// Absolute index of local register `r` in a frame at `base`, if it lies inside the array.
pub open spec fn slot(base: int, r: int, len: int) -> Option<int> {
    if base + r < len { Some(base + r) } else { None }
}

/// The result of a two-operand instruction; division rounds toward zero and wraps on overflow.
pub open spec fn alu(op: u8, a: i64, b: i64) -> i64 {
    if op == ops::ADD {
        a.wrapping_add(b)
    } else if op == ops::SUB {
        a.wrapping_sub(b)
    } else if op == ops::MUL {
        a.wrapping_mul(b)
    } else if op == ops::DIV {
        match a.checked_div(b) {
            Some(q) => q,
            None => i64::MIN,
        }
    } else if op == ops::AND {
        if a != 0 && b != 0 { 1 } else { 0 }
    } else if op == ops::OR {
        if a != 0 || b != 0 { 1 } else { 0 }
    } else if op == ops::EQ {
        if a == b { 1 } else { 0 }
    } else if op == ops::LT {
        if a < b { 1 } else { 0 }
    } else if op == ops::LE {
        if a <= b { 1 } else { 0 }
    } else if op == ops::GT {
        if a > b { 1 } else { 0 }
    } else if op == ops::GE {
        if a >= b { 1 } else { 0 }
    } else {
        if a != b { 1 } else { 0 }
    }
}

/// The jump target `pc + off`, or a fault when it lies outside the code.
pub open spec fn jump_to(pc: int, off: int, len: int) -> Flow {
    if pc + off < len {
        Flow::Continue((pc + off) as usize)
    } else {
        Flow::Fault(Fault::BadAddress)
    }
}

/// The state after a faulting instruction: unchanged.
pub open spec fn faulted(regs: Seq<i64>, base: usize, f: Fault) -> (Seq<i64>, usize, Flow) {
    (regs, base, Flow::Fault(f))
}

/// Writes `v` to local register `t` and continues at `next`.
pub open spec fn store(regs: Seq<i64>, base: usize, t: int, v: i64, next: Flow) -> (Seq<i64>, usize, Flow) {
    match slot(base as int, t, regs.len() as int) {
        None => faulted(regs, base, Fault::StackOverflow),
        Some(i) => (regs.update(i, v), base, next),
    }
}

/// Reads local register `r` and writes the value to local register `t`.
pub open spec fn copy(regs: Seq<i64>, base: usize, t: int, r: int, next: Flow) -> (Seq<i64>, usize, Flow) {
    match slot(base as int, r, regs.len() as int) {
        None => faulted(regs, base, Fault::StackOverflow),
        Some(j) => store(regs, base, t, regs[j], next),
    }
}

/// The code address of the function named by a call instruction's 24-bit operand.
pub open spec fn callee(p: Program, i: Instruction) -> Result<usize, Fault> {
    let id = word24(i.target, i.left, i.right);
    if id >= p.functions.len() {
        Err(Fault::BadFunction)
    } else if p.functions[id] >= p.code.len() {
        Err(Fault::BadAddress)
    } else {
        Ok(p.functions[id] as usize)
    }
}

/// The effect of executing the instruction at `pc`: new registers, new base, and what follows.
pub open spec fn step_spec(p: Program, regs: Seq<i64>, base: usize, pc: usize) -> (Seq<i64>, usize, Flow) {
    let len = regs.len() as int;
    if pc >= p.code.len() {
        faulted(regs, base, Fault::BadAddress)
    } else {
        let i = p.code[pc as int];
        let t = i.target as int;
        let next = Flow::Continue((pc + 1) as usize);
        if i.opcode == ops::HLT {
            (regs, base, Flow::Stop(Stop::Halted))
        } else if i.opcode == ops::LD {
            store(regs, base, t, sign_extend16(word16(i.left, i.right)) as i64, next)
        } else if i.opcode == ops::LDB {
            let k = word16(i.left, i.right);
            if k >= p.constants.len() {
                faulted(regs, base, Fault::BadConstant)
            } else {
                store(regs, base, t, p.constants[k], next)
            }
        } else if i.opcode == ops::LDR {
            copy(regs, base, t, WINDOW + reg::VAL, next)
        } else if ops::is_binary(i.opcode) {
            match (slot(base as int, i.left as int, len), slot(base as int, i.right as int, len)) {
                (Some(a), Some(b)) => if i.opcode == ops::DIV && regs[b] == 0 {
                    faulted(regs, base, Fault::DivisionByZero)
                } else {
                    store(regs, base, t, alu(i.opcode, regs[a], regs[b]), next)
                },
                _ => faulted(regs, base, Fault::StackOverflow),
            }
        } else if i.opcode == ops::NOT {
            match slot(base as int, i.left as int, len) {
                Some(a) => store(regs, base, t, if regs[a] == 0 { 1 } else { 0 }, next),
                None => faulted(regs, base, Fault::StackOverflow),
            }
        } else if i.opcode == ops::CAL {
            match callee(p, i) {
                Err(f) => faulted(regs, base, f),
                Ok(addr) => if pc + 1 > i64::MAX {
                    faulted(regs, base, Fault::BadAddress)
                } else {
                    match slot(base + WINDOW, reg::RET as int, len) {
                        None => faulted(regs, base, Fault::StackOverflow),
                        Some(r) => (regs.update(r, (pc + 1) as i64), (base + WINDOW) as usize, Flow::Continue(addr)),
                    }
                },
            }
        } else if i.opcode == ops::TLC {
            match callee(p, i) {
                Err(f) => faulted(regs, base, f),
                Ok(addr) => (regs, base, Flow::Continue(addr)),
            }
        } else if i.opcode == ops::RET {
            match slot(base as int, reg::RET as int, len) {
                None => faulted(regs, base, Fault::StackOverflow),
                Some(r) => if base < WINDOW {
                    faulted(regs, base, Fault::StackUnderflow)
                } else if regs[r] < 0 || regs[r] >= p.code.len() {
                    faulted(regs, base, Fault::BadAddress)
                } else {
                    (regs, (base - WINDOW) as usize, Flow::Continue(regs[r] as usize))
                },
            }
        } else if i.opcode == ops::MOV {
            copy(regs, base, t, i.left as int, next)
        } else if i.opcode == ops::MVO {
            copy(regs, base, t + i.right as int, i.left as int, next)
        } else if i.opcode == ops::JMF {
            match jump_to(pc as int, word24(i.target, i.left, i.right), p.code.len() as int) {
                Flow::Fault(f) => faulted(regs, base, f),
                flow => (regs, base, flow),
            }
        } else if i.opcode == ops::JMB {
            let off = word24(i.target, i.left, i.right);
            if off > pc {
                faulted(regs, base, Fault::BadAddress)
            } else {
                (regs, base, Flow::Continue((pc - off) as usize))
            }
        } else if i.opcode == ops::JTF {
            match slot(base as int, t, len) {
                None => faulted(regs, base, Fault::StackOverflow),
                Some(c) => if regs[c] == 0 {
                    (regs, base, next)
                } else {
                    match jump_to(pc as int, word16(i.left, i.right), p.code.len() as int) {
                        Flow::Fault(f) => faulted(regs, base, f),
                        flow => (regs, base, flow),
                    }
                },
            }
        } else if i.opcode == ops::WRI {
            match slot(base as int, i.left as int, len) {
                None => faulted(regs, base, Fault::StackOverflow),
                Some(a) => store(regs, base, t, regs[a], Flow::Stop(Stop::Output(regs[a], (pc + 1) as usize))),
            }
        } else if i.opcode == ops::RDI {
            match slot(base as int, t, len) {
                None => faulted(regs, base, Fault::StackOverflow),
                Some(_) => (regs, base, Flow::Stop(Stop::Input(pc))),
            }
        } else {
            faulted(regs, base, Fault::BadOpcode)
        }
    }
}

/// Execution from `pc` for at most `fuel` instructions: final registers, final base, and how it ended.
pub open spec fn run_spec(p: Program, regs: Seq<i64>, base: usize, pc: usize, fuel: nat) -> (Seq<i64>, usize, Result<Stop, Fault>)
    decreases fuel,
{
    if fuel == 0 {
        (regs, base, Err(Fault::OutOfFuel))
    } else {
        let (regs2, base2, flow) = step_spec(p, regs, base, pc);
        match flow {
            Flow::Continue(next) => run_spec(p, regs2, base2, next, (fuel - 1) as nat),
            Flow::Stop(s) => (regs2, base2, Ok(s)),
            Flow::Fault(f) => (regs2, base2, Err(f)),
        }
    }
}

/// `t1` is `t0` after executing the instruction at `pc`, which yielded `flow`.
pub open spec fn stepped(t0: Thread, t1: Thread, pc: usize, flow: Flow) -> bool {
    &&& t1.program() == t0.program()
    &&& (t1.registers@, t1.base, flow) == step_spec(t0.program(), t0.registers@, t0.base, pc)
}

/// The instruction at `pc` exists and has opcode `op`.
pub open spec fn at(t: Thread, pc: usize, op: u8) -> bool {
    pc < t.code@.len() && t.code@[pc as int].opcode == op
}

fn slot_index(base: usize, r: usize, len: usize) -> (o: Option<usize>)
    ensures
        o == (match slot(base as int, r as int, len as int) {
            Some(i) => Some(i as usize),
            None => None::<usize>,
        }),
{
    if base < len && r < len - base {
        Some(base + r)
    } else {
        None
    }
}

/// Writes `v` to local register `t` of the current frame, then yields `next`.
fn store_reg(thread: &mut Thread, t: usize, v: i64, next: Flow) -> (flow: Flow)
    requires
        t < 1024,
    ensures
        final(thread).program() == old(thread).program(),
        (final(thread).registers@, final(thread).base, flow) == store(old(thread).registers@, old(thread).base, t as int, v, next),
{
    match slot_index(thread.base, t, thread.registers.len()) {
        None => Flow::Fault(Fault::StackOverflow),
        Some(i) => {
            thread.registers[i] = v;
            next
        },
    }
}

/// Copies local register `r` to local register `t`, then yields `next`.
fn copy_reg(thread: &mut Thread, t: usize, r: usize, next: Flow) -> (flow: Flow)
    requires
        t < 1024,
        r < 1024,
    ensures
        final(thread).program() == old(thread).program(),
        (final(thread).registers@, final(thread).base, flow) == copy(old(thread).registers@, old(thread).base, t as int, r as int, next),
{
    match slot_index(thread.base, r, thread.registers.len()) {
        None => Flow::Fault(Fault::StackOverflow),
        Some(j) => {
            let v = thread.registers[j];
            store_reg(thread, t, v, next)
        },
    }
}

fn op_ld(thread: &mut Thread, pc: usize) -> (flow: Flow)
    requires
        at(*old(thread), pc, ops::LD),
    ensures
        stepped(*old(thread), *final(thread), pc, flow),
{
    let i = thread.code[pc];
    let w: u32 = i.left as u32 + 256 * (i.right as u32);
    let v: i64 = if w < 32768 { w as i64 } else { w as i64 - 65536 };
    store_reg(thread, i.target as usize, v, Flow::Continue(pc + 1))
}

fn op_ldb(thread: &mut Thread, pc: usize) -> (flow: Flow)
    requires
        at(*old(thread), pc, ops::LDB),
    ensures
        stepped(*old(thread), *final(thread), pc, flow),
{
    let i = thread.code[pc];
    let k: usize = i.left as usize + 256 * (i.right as usize);
    if k >= thread.constants.len() {
        Flow::Fault(Fault::BadConstant)
    } else {
        let v = thread.constants[k];
        store_reg(thread, i.target as usize, v, Flow::Continue(pc + 1))
    }
}

fn op_ldr(thread: &mut Thread, pc: usize) -> (flow: Flow)
    requires
        at(*old(thread), pc, ops::LDR),
    ensures
        stepped(*old(thread), *final(thread), pc, flow),
{
    let i = thread.code[pc];
    copy_reg(thread, i.target as usize, WINDOW + reg::VAL as usize, Flow::Continue(pc + 1))
}

/// The value computed by a two-operand instruction.
fn alu_exec(op: u8, a: i64, b: i64) -> (r: i64)
    requires
        ops::is_binary(op),
        op == ops::DIV ==> b != 0,
    ensures
        r == alu(op, a, b),
{
    if op == ops::ADD {
        a.wrapping_add(b)
    } else if op == ops::SUB {
        a.wrapping_sub(b)
    } else if op == ops::MUL {
        a.wrapping_mul(b)
    } else if op == ops::DIV {
        match a.checked_div(b) {
            Some(q) => q,
            None => i64::MIN,
        }
    } else if op == ops::AND {
        if a != 0 && b != 0 { 1 } else { 0 }
    } else if op == ops::OR {
        if a != 0 || b != 0 { 1 } else { 0 }
    } else if op == ops::EQ {
        if a == b { 1 } else { 0 }
    } else if op == ops::LT {
        if a < b { 1 } else { 0 }
    } else if op == ops::LE {
        if a <= b { 1 } else { 0 }
    } else if op == ops::GT {
        if a > b { 1 } else { 0 }
    } else if op == ops::GE {
        if a >= b { 1 } else { 0 }
    } else {
        if a != b { 1 } else { 0 }
    }
}

/// Arithmetic, logical and relational instructions.
fn op_binary(thread: &mut Thread, pc: usize) -> (flow: Flow)
    requires
        pc < old(thread).code@.len(),
        ops::is_binary(old(thread).code@[pc as int].opcode),
    ensures
        stepped(*old(thread), *final(thread), pc, flow),
{
    let i = thread.code[pc];
    let len = thread.registers.len();
    match (slot_index(thread.base, i.left as usize, len), slot_index(thread.base, i.right as usize, len)) {
        (Some(a), Some(b)) => {
            let x = thread.registers[a];
            let y = thread.registers[b];
            if i.opcode == ops::DIV && y == 0 {
                Flow::Fault(Fault::DivisionByZero)
            } else {
                let v = alu_exec(i.opcode, x, y);
                store_reg(thread, i.target as usize, v, Flow::Continue(pc + 1))
            }
        },
        _ => Flow::Fault(Fault::StackOverflow),
    }
}

fn op_not(thread: &mut Thread, pc: usize) -> (flow: Flow)
    requires
        at(*old(thread), pc, ops::NOT),
    ensures
        stepped(*old(thread), *final(thread), pc, flow),
{
    let i = thread.code[pc];
    match slot_index(thread.base, i.left as usize, thread.registers.len()) {
        Some(a) => {
            let v: i64 = if thread.registers[a] == 0 { 1 } else { 0 };
            store_reg(thread, i.target as usize, v, Flow::Continue(pc + 1))
        },
        None => Flow::Fault(Fault::StackOverflow),
    }
}

/// The code address that a call instruction at `pc` transfers to.
fn callee_exec(thread: &Thread, pc: usize) -> (r: Result<usize, Fault>)
    requires
        pc < thread.code@.len(),
    ensures
        r == callee(thread.program(), thread.code@[pc as int]),
{
    let i = thread.code[pc];
    let id: usize = i.target as usize + 256 * (i.left as usize) + 65536 * (i.right as usize);
    if id >= thread.functions.len() {
        Err(Fault::BadFunction)
    } else {
        let addr = thread.functions[id];
        if addr >= thread.code.len() as u64 {
            Err(Fault::BadAddress)
        } else {
            Ok(addr as usize)
        }
    }
}

fn op_cal(thread: &mut Thread, pc: usize) -> (flow: Flow)
    requires
        at(*old(thread), pc, ops::CAL),
    ensures
        stepped(*old(thread), *final(thread), pc, flow),
{
    match callee_exec(thread, pc) {
        Err(f) => Flow::Fault(f),
        Ok(addr) => {
            if pc as u64 >= 0x7fff_ffff_ffff_ffff {
                Flow::Fault(Fault::BadAddress)
            } else {
                match slot_index(thread.base, WINDOW + reg::RET as usize, thread.registers.len()) {
                    None => Flow::Fault(Fault::StackOverflow),
                    Some(r) => {
                        let back: u64 = pc as u64 + 1;
                        thread.registers[r] = back as i64;
                        thread.base = thread.base + WINDOW;
                        Flow::Continue(addr)
                    },
                }
            }
        },
    }
}

fn op_tlc(thread: &mut Thread, pc: usize) -> (flow: Flow)
    requires
        at(*old(thread), pc, ops::TLC),
    ensures
        stepped(*old(thread), *final(thread), pc, flow),
{
    match callee_exec(thread, pc) {
        Err(f) => Flow::Fault(f),
        Ok(addr) => Flow::Continue(addr),
    }
}

fn op_ret(thread: &mut Thread, pc: usize) -> (flow: Flow)
    requires
        at(*old(thread), pc, ops::RET),
    ensures
        stepped(*old(thread), *final(thread), pc, flow),
{
    match slot_index(thread.base, reg::RET as usize, thread.registers.len()) {
        None => Flow::Fault(Fault::StackOverflow),
        Some(r) => {
            let v = thread.registers[r];
            if thread.base < WINDOW {
                Flow::Fault(Fault::StackUnderflow)
            } else if v < 0 || v as u64 >= thread.code.len() as u64 {
                Flow::Fault(Fault::BadAddress)
            } else {
                thread.base = thread.base - WINDOW;
                Flow::Continue(v as usize)
            }
        },
    }
}

fn op_mov(thread: &mut Thread, pc: usize) -> (flow: Flow)
    requires
        at(*old(thread), pc, ops::MOV),
    ensures
        stepped(*old(thread), *final(thread), pc, flow),
{
    let i = thread.code[pc];
    copy_reg(thread, i.target as usize, i.left as usize, Flow::Continue(pc + 1))
}

fn op_mvo(thread: &mut Thread, pc: usize) -> (flow: Flow)
    requires
        at(*old(thread), pc, ops::MVO),
    ensures
        stepped(*old(thread), *final(thread), pc, flow),
{
    let i = thread.code[pc];
    copy_reg(thread, i.target as usize + i.right as usize, i.left as usize, Flow::Continue(pc + 1))
}

/// Continues at `pc + off` when that lies inside the code.
fn jump_exec(thread: &Thread, pc: usize, off: usize) -> (flow: Flow)
    requires
        pc < thread.code@.len(),
    ensures
        flow == jump_to(pc as int, off as int, thread.code@.len() as int),
{
    if off < thread.code.len() - pc {
        Flow::Continue(pc + off)
    } else {
        Flow::Fault(Fault::BadAddress)
    }
}

fn op_jmf(thread: &mut Thread, pc: usize) -> (flow: Flow)
    requires
        at(*old(thread), pc, ops::JMF),
    ensures
        stepped(*old(thread), *final(thread), pc, flow),
{
    let i = thread.code[pc];
    let off: usize = i.target as usize + 256 * (i.left as usize) + 65536 * (i.right as usize);
    jump_exec(thread, pc, off)
}

fn op_jmb(thread: &mut Thread, pc: usize) -> (flow: Flow)
    requires
        at(*old(thread), pc, ops::JMB),
    ensures
        stepped(*old(thread), *final(thread), pc, flow),
{
    let i = thread.code[pc];
    let off: usize = i.target as usize + 256 * (i.left as usize) + 65536 * (i.right as usize);
    if off > pc {
        Flow::Fault(Fault::BadAddress)
    } else {
        Flow::Continue(pc - off)
    }
}

fn op_jtf(thread: &mut Thread, pc: usize) -> (flow: Flow)
    requires
        at(*old(thread), pc, ops::JTF),
    ensures
        stepped(*old(thread), *final(thread), pc, flow),
{
    let i = thread.code[pc];
    match slot_index(thread.base, i.target as usize, thread.registers.len()) {
        None => Flow::Fault(Fault::StackOverflow),
        Some(c) => {
            if thread.registers[c] == 0 {
                Flow::Continue(pc + 1)
            } else {
                jump_exec(thread, pc, i.left as usize + 256 * (i.right as usize))
            }
        },
    }
}

fn op_wri(thread: &mut Thread, pc: usize) -> (flow: Flow)
    requires
        at(*old(thread), pc, ops::WRI),
    ensures
        stepped(*old(thread), *final(thread), pc, flow),
{
    let i = thread.code[pc];
    match slot_index(thread.base, i.left as usize, thread.registers.len()) {
        None => Flow::Fault(Fault::StackOverflow),
        Some(a) => {
            let v = thread.registers[a];
            store_reg(thread, i.target as usize, v, Flow::Stop(Stop::Output(v, pc + 1)))
        },
    }
}

fn op_rdi(thread: &mut Thread, pc: usize) -> (flow: Flow)
    requires
        at(*old(thread), pc, ops::RDI),
    ensures
        stepped(*old(thread), *final(thread), pc, flow),
{
    let i = thread.code[pc];
    match slot_index(thread.base, i.target as usize, thread.registers.len()) {
        None => Flow::Fault(Fault::StackOverflow),
        Some(_) => Flow::Stop(Stop::Input(pc)),
    }
}

/// Executes the instruction at `pc`.
pub fn step(thread: &mut Thread, pc: usize) -> (flow: Flow)
    ensures
        stepped(*old(thread), *final(thread), pc, flow),
{
    if pc >= thread.code.len() {
        return Flow::Fault(Fault::BadAddress);
    }
    let op = thread.code[pc].opcode;
    if op == ops::HLT {
        Flow::Stop(Stop::Halted)
    } else if op == ops::LD {
        op_ld(thread, pc)
    } else if op == ops::LDB {
        op_ldb(thread, pc)
    } else if op == ops::LDR {
        op_ldr(thread, pc)
    } else if ops::ADD <= op && op <= ops::NEQ && op != ops::NOT {
        op_binary(thread, pc)
    } else if op == ops::NOT {
        op_not(thread, pc)
    } else if op == ops::CAL {
        op_cal(thread, pc)
    } else if op == ops::TLC {
        op_tlc(thread, pc)
    } else if op == ops::RET {
        op_ret(thread, pc)
    } else if op == ops::MOV {
        op_mov(thread, pc)
    } else if op == ops::MVO {
        op_mvo(thread, pc)
    } else if op == ops::JMF {
        op_jmf(thread, pc)
    } else if op == ops::JMB {
        op_jmb(thread, pc)
    } else if op == ops::JTF {
        op_jtf(thread, pc)
    } else if op == ops::WRI {
        op_wri(thread, pc)
    } else if op == ops::RDI {
        op_rdi(thread, pc)
    } else {
        Flow::Fault(Fault::BadOpcode)
    }
}

/// Executes from `entry_point` until a halt, a write or read instruction, a fault, or
/// until `fuel` instructions have run.
pub fn run_bounded(thread: &mut Thread, entry_point: usize, fuel: u64) -> (r: Result<Stop, Fault>)
    ensures
        final(thread).program() == old(thread).program(),
        (final(thread).registers@, final(thread).base, r) == run_spec(
            old(thread).program(),
            old(thread).registers@,
            old(thread).base,
            entry_point,
            fuel as nat,
        ),
{
    let ghost p = thread.program();
    let ghost goal = run_spec(p, thread.registers@, thread.base, entry_point, fuel as nat);
    let mut pc = entry_point;
    let mut left = fuel;
    while left > 0
        invariant
            thread.program() == p,
            p == old(thread).program(),
            goal == run_spec(p, old(thread).registers@, old(thread).base, entry_point, fuel as nat),
            run_spec(p, thread.registers@, thread.base, pc, left as nat) == goal,
        decreases left,
    {
        let flow = step(thread, pc);
        left = left - 1;
        match flow {
            Flow::Continue(next) => {
                pc = next;
            },
            Flow::Stop(s) => {
                return Ok(s);
            },
            Flow::Fault(f) => {
                return Err(f);
            },
        }
    }
    Err(Fault::OutOfFuel)
}

/// Executes from `entry_point` with the largest step budget.
pub fn run(thread: &mut Thread, entry_point: usize) -> (r: Result<Stop, Fault>)
    ensures
        final(thread).program() == old(thread).program(),
        (final(thread).registers@, final(thread).base, r) == run_spec(
            old(thread).program(),
            old(thread).registers@,
            old(thread).base,
            entry_point,
            u64::MAX as nat,
        ),
{
    run_bounded(thread, entry_point, u64::MAX)
}

/// The state after the read instruction at `pc` receives `value`.
pub open spec fn input_spec(p: Program, regs: Seq<i64>, base: usize, pc: usize, value: i64) -> (Seq<i64>, usize, Flow) {
    if pc < p.code.len() && p.code[pc as int].opcode == ops::RDI {
        store(regs, base, p.code[pc as int].target as int, value, Flow::Continue((pc + 1) as usize))
    } else {
        faulted(regs, base, Fault::BadOpcode)
    }
}

/// Completes the read instruction at `pc` with `value`; the flow names where to resume.
pub fn resume_input(thread: &mut Thread, pc: usize, value: i64) -> (flow: Flow)
    ensures
        final(thread).program() == old(thread).program(),
        (final(thread).registers@, final(thread).base, flow) == input_spec(
            old(thread).program(),
            old(thread).registers@,
            old(thread).base,
            pc,
            value,
        ),
{
    if pc < thread.code.len() && thread.code[pc].opcode == ops::RDI {
        let t = thread.code[pc].target;
        store_reg(thread, t as usize, value, Flow::Continue(pc + 1))
    } else {
        Flow::Fault(Fault::BadOpcode)
    }
}

} // verus!
