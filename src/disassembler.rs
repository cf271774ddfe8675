use vstd::prelude::*;
use crate::common::{Instruction, word16, word24, sign_extend16};
use crate::ops;

verus! {

/// The digit `d` (below 16) as text, lower-case for digits above 9.
pub open spec fn digit_text(d: int) -> Seq<char> {
    if d == 0 { "0"@ } else if d == 1 { "1"@ } else if d == 2 { "2"@ } else if d == 3 { "3"@ }
    else if d == 4 { "4"@ } else if d == 5 { "5"@ } else if d == 6 { "6"@ } else if d == 7 { "7"@ }
    else if d == 8 { "8"@ } else if d == 9 { "9"@ } else if d == 10 { "a"@ } else if d == 11 { "b"@ }
    else if d == 12 { "c"@ } else if d == 13 { "d"@ } else if d == 14 { "e"@ } else { "f"@ }
}

/// The digits of `n` in `base` (10 or 16), without leading zeros.
pub open spec fn digits(n: nat, base: nat) -> Seq<char>
    decreases n,
{
    if base != 16 && base != 10 || n < base {
        digit_text(n as int)
    } else if base == 16 {
        digits(n / 16, 16) + digit_text((n % 16) as int)
    } else {
        digits(n / 10, 10) + digit_text((n % 10) as int)
    }
}

/// A signed decimal number.
pub open spec fn dec(n: int) -> Seq<char> {
    if n < 0 { "-"@ + digits((-n) as nat, 10) } else { digits(n as nat, 10) }
}

pub open spec fn hex(n: nat) -> Seq<char> {
    digits(n, 16)
}

/// Hexadecimal, padded with zeros to at least five digits.
pub open spec fn hex5(n: nat) -> Seq<char> {
    let h = hex(n);
    if h.len() < 5 { Seq::new((5 - h.len()) as nat, |i: int| '0') + h } else { h }
}

pub open spec fn mnemonic(op: u8) -> Seq<char> {
    if op == ops::ADD { "add"@ } else if op == ops::SUB { "sub"@ } else if op == ops::MUL { "mul"@ }
    else if op == ops::DIV { "div"@ } else if op == ops::AND { "and"@ } else if op == ops::OR { "or"@ }
    else if op == ops::EQ { "eq"@ } else if op == ops::LT { "lt"@ } else if op == ops::LE { "le"@ }
    else if op == ops::GT { "gt"@ } else if op == ops::GE { "ge"@ } else { "neq"@ }
}

/// The text of one instruction, without address and line end.
pub open spec fn instruction_text(i: Instruction, constants: Seq<i64>, functions: Seq<u64>) -> Seq<char> {
    let t = i.target as int;
    let l = i.left as int;
    let r = i.right as int;
    let op = i.opcode;
    if op == ops::HLT {
        "hlt"@
    } else if op == ops::LD {
        "ld "@ + dec(t) + " "@ + dec(sign_extend16(word16(i.left, i.right)))
    } else if op == ops::LDB {
        if word16(i.left, i.right) < constants.len() {
            "ld "@ + dec(t) + " "@ + dec(constants[word16(i.left, i.right)] as int)
        } else {
            "invalid"@
        }
    } else if op == ops::LDR {
        "ldr "@ + dec(t)
    } else if ops::is_binary(op) {
        mnemonic(op) + " "@ + dec(t) + " "@ + dec(l) + " "@ + dec(r)
    } else if op == ops::NOT {
        "not "@ + dec(t) + " "@ + dec(l)
    } else if op == ops::CAL || op == ops::TLC {
        if word24(i.target, i.left, i.right) < functions.len() {
            (if op == ops::CAL { "call 0x"@ } else { "tcall 0x"@ }) + hex(functions[word24(i.target, i.left, i.right)] as nat)
        } else {
            "invalid"@
        }
    } else if op == ops::RET {
        "ret"@
    } else if op == ops::MOV {
        "mov "@ + dec(t) + " "@ + dec(l)
    } else if op == ops::MVO {
        "mvo "@ + dec(t) + " "@ + dec(l) + " "@ + dec(r)
    } else if op == ops::JMF {
        "jmp 0x"@ + hex(word24(i.target, i.left, i.right) as nat)
    } else if op == ops::JMB {
        "jmb 0x"@ + hex(word24(i.target, i.left, i.right) as nat)
    } else if op == ops::JTF {
        "jmt "@ + dec(t) + " 0x"@ + hex(word16(i.left, i.right) as nat)
    } else if op == ops::WRI {
        "write "@ + dec(t) + " "@ + dec(l)
    } else if op == ops::RDI {
        "read "@ + dec(t)
    } else {
        "invalid"@
    }
}

/// One line of the listing: address, instruction, line end.
pub open spec fn line_text(pc: nat, i: Instruction, constants: Seq<i64>, functions: Seq<u64>) -> Seq<char> {
    "0x"@ + hex5(pc) + ": "@ + instruction_text(i, constants, functions) + "\n"@
}

/// The listing of `code`, one line per instruction.
pub open spec fn listing(code: Seq<Instruction>, constants: Seq<i64>, functions: Seq<u64>) -> Seq<char>
    decreases code.len(),
{
    if code.len() == 0 {
        seq![]
    } else {
        listing(code.drop_last(), constants, functions) + line_text((code.len() - 1) as nat, code.last(), constants, functions)
    }
}

pub(crate) fn digit_str(d: u64) -> (r: &'static str)
    requires
        d < 16,
    ensures
        r@ == digit_text(d as int),
{
    if d == 0 { "0" } else if d == 1 { "1" } else if d == 2 { "2" } else if d == 3 { "3" }
    else if d == 4 { "4" } else if d == 5 { "5" } else if d == 6 { "6" } else if d == 7 { "7" }
    else if d == 8 { "8" } else if d == 9 { "9" } else if d == 10 { "a" } else if d == 11 { "b" }
    else if d == 12 { "c" } else if d == 13 { "d" } else if d == 14 { "e" } else { "f" }
}

fn push_digits(s: &mut String, n: u64, base: u64)
    requires
        base == 10 || base == 16,
    ensures
        final(s)@ == old(s)@ + digits(n as nat, base as nat),
    decreases n,
{
    if n < base {
        s.append(digit_str(n));
    } else {
        push_digits(s, n / base, base);
        s.append(digit_str(n % base));
        assert(final(s)@ =~= old(s)@ + (digits((n / base) as nat, base as nat) + digit_text((n % base) as int)));
    }
}

fn push_dec(s: &mut String, n: i64)
    ensures
        final(s)@ == old(s)@ + dec(n as int),
{
    if n < 0 {
        s.append("-");
        let m: u64 = ((-(n + 1)) as u64) + 1;
        push_digits(s, m, 10);
        assert(final(s)@ =~= old(s)@ + ("-"@ + digits(m as nat, 10)));
    } else {
        push_digits(s, n as u64, 10);
    }
}

fn push_hex(s: &mut String, n: u64)
    ensures
        final(s)@ == old(s)@ + hex(n as nat),
{
    push_digits(s, n, 16);
}

fn push_hex5(s: &mut String, n: u64)
    ensures
        final(s)@ == old(s)@ + hex5(n as nat),
{
    let mut h = String::new();
    push_hex(&mut h, n);
    assert(h@ =~= hex(n as nat));
    let len = h.as_str().unicode_len();
    let mut k = len;
    let ghost s0 = s@;
    while k < 5
        invariant
            len == hex(n as nat).len(),
            len <= k <= 5 || (len > 5 && k == len),
            s@ == s0 + Seq::new((k - len) as nat, |i: int| '0'),
        decreases 5 - k,
    {
        s.append("0");
        proof {
            reveal_strlit("0");
        }
        assert(Seq::new((k + 1 - len) as nat, |i: int| '0') =~= Seq::new((k - len) as nat, |i: int| '0') + "0"@);
        assert(s@ =~= s0 + Seq::new((k + 1 - len) as nat, |i: int| '0'));
        k = k + 1;
    }
    let ghost z = s@;
    s.append(h.as_str());
    proof {
        if len < 5 {
            assert(s@ =~= s0 + (Seq::new((5 - len) as nat, |i: int| '0') + hex(n as nat)));
        } else {
            assert(Seq::new((k - len) as nat, |i: int| '0') =~= Seq::<char>::empty());
            assert(s@ =~= s0 + hex(n as nat));
        }
    }
}

fn mnemonic_str(op: u8) -> (r: &'static str)
    ensures
        r@ == mnemonic(op),
{
    if op == ops::ADD { "add" } else if op == ops::SUB { "sub" } else if op == ops::MUL { "mul" }
    else if op == ops::DIV { "div" } else if op == ops::AND { "and" } else if op == ops::OR { "or" }
    else if op == ops::EQ { "eq" } else if op == ops::LT { "lt" } else if op == ops::LE { "le" }
    else if op == ops::GT { "gt" } else if op == ops::GE { "ge" } else { "neq" }
}

/// Appends `dec(a)`, a space and `dec(b)`.
fn push_pair(s: &mut String, a: u8, b: u8)
    ensures
        final(s)@ == old(s)@ + (dec(a as int) + " "@ + dec(b as int)),
{
    let ghost s0 = s@;
    push_dec(s, a as i64);
    s.append(" ");
    push_dec(s, b as i64);
    assert(s@ =~= s0 + (dec(a as int) + " "@ + dec(b as int)));
}

#[verifier::rlimit(40)]
fn push_instruction_text(s: &mut String, i: Instruction, constants: &[i64], functions: &[u64])
    ensures
        final(s)@ == old(s)@ + instruction_text(i, constants@, functions@),
{
    let ghost s0 = s@;
    let op = i.opcode;
    let k16: usize = i.left as usize + 256 * (i.right as usize);
    let k24: usize = i.target as usize + 256 * (i.left as usize) + 65536 * (i.right as usize);
    if op == ops::HLT {
        s.append("hlt");
    } else if op == ops::LD {
        s.append("ld ");
        push_dec(s, i.target as i64);
        s.append(" ");
        let v: i64 = if k16 < 32768 { k16 as i64 } else { k16 as i64 - 65536 };
        push_dec(s, v);
        assert(s@ =~= s0 + ("ld "@ + dec(i.target as int) + " "@ + dec(v as int)));
    } else if op == ops::LDB {
        if k16 < constants.len() {
            s.append("ld ");
            push_dec(s, i.target as i64);
            s.append(" ");
            push_dec(s, constants[k16]);
            assert(s@ =~= s0 + ("ld "@ + dec(i.target as int) + " "@ + dec(constants@[k16 as int] as int)));
        } else {
            s.append("invalid");
        }
    } else if op == ops::LDR {
        s.append("ldr ");
        push_dec(s, i.target as i64);
        assert(s@ =~= s0 + ("ldr "@ + dec(i.target as int)));
    } else if ops::ADD <= op && op <= ops::NEQ && op != ops::NOT {
        s.append(mnemonic_str(op));
        s.append(" ");
        push_pair(s, i.target, i.left);
        s.append(" ");
        push_dec(s, i.right as i64);
        assert(s@ =~= s0 + (mnemonic(op) + " "@ + dec(i.target as int) + " "@ + dec(i.left as int) + " "@ + dec(i.right as int)));
    } else if op == ops::NOT {
        s.append("not ");
        push_pair(s, i.target, i.left);
        assert(s@ =~= s0 + ("not "@ + dec(i.target as int) + " "@ + dec(i.left as int)));
    } else if op == ops::CAL || op == ops::TLC {
        if k24 < functions.len() {
            let head = if op == ops::CAL { "call 0x" } else { "tcall 0x" };
            s.append(head);
            push_hex(s, functions[k24]);
            assert(s@ =~= s0 + (head@ + hex(functions@[k24 as int] as nat)));
        } else {
            s.append("invalid");
        }
    } else if op == ops::RET {
        s.append("ret");
    } else if op == ops::MOV {
        s.append("mov ");
        push_pair(s, i.target, i.left);
        assert(s@ =~= s0 + ("mov "@ + dec(i.target as int) + " "@ + dec(i.left as int)));
    } else if op == ops::MVO {
        s.append("mvo ");
        push_pair(s, i.target, i.left);
        s.append(" ");
        push_dec(s, i.right as i64);
        assert(s@ =~= s0 + ("mvo "@ + dec(i.target as int) + " "@ + dec(i.left as int) + " "@ + dec(i.right as int)));
    } else if op == ops::JMF || op == ops::JMB {
        let head = if op == ops::JMF { "jmp 0x" } else { "jmb 0x" };
        s.append(head);
        push_hex(s, k24 as u64);
        assert(s@ =~= s0 + (head@ + hex(k24 as nat)));
    } else if op == ops::JTF {
        s.append("jmt ");
        push_dec(s, i.target as i64);
        s.append(" 0x");
        push_hex(s, k16 as u64);
        assert(s@ =~= s0 + ("jmt "@ + dec(i.target as int) + " 0x"@ + hex(k16 as nat)));
    } else if op == ops::WRI {
        s.append("write ");
        push_pair(s, i.target, i.left);
        assert(s@ =~= s0 + ("write "@ + dec(i.target as int) + " "@ + dec(i.left as int)));
    } else if op == ops::RDI {
        s.append("read ");
        push_dec(s, i.target as i64);
        assert(s@ =~= s0 + ("read "@ + dec(i.target as int)));
    } else {
        s.append("invalid");
    }
}

/// Renders `instructions` as a listing, one line per instruction (see `listing`).
pub fn disassemble(constants: &[i64], functions: &[u64], instructions: &[Instruction]) -> (r: String)
    ensures
        r@ == listing(instructions@, constants@, functions@),
{
    let mut out = String::new();
    let mut pc: usize = 0;
    assert(instructions@.subrange(0, 0) =~= Seq::<Instruction>::empty());
    while pc < instructions.len()
        invariant
            pc <= instructions@.len(),
            out@ == listing(instructions@.subrange(0, pc as int), constants@, functions@),
        decreases instructions@.len() - pc,
    {
        let ghost s0 = out@;
        out.append("0x");
        push_hex5(&mut out, pc as u64);
        out.append(": ");
        push_instruction_text(&mut out, instructions[pc], constants, functions);
        out.append("\n");
        let ghost sub = instructions@.subrange(0, pc + 1);
        assert(sub.drop_last() =~= instructions@.subrange(0, pc as int));
        assert(sub.last() == instructions@[pc as int]);
        assert(out@ =~= s0 + line_text(pc as nat, instructions@[pc as int], constants@, functions@));
        pc = pc + 1;
    }
    assert(instructions@.subrange(0, instructions@.len() as int) =~= instructions@);
    out
}

} // verus!
