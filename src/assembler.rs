use vstd::prelude::*;
use crate::common::Instruction;
use crate::disassembler::{digit_str, digit_text};
use crate::lexer::{code, digits_value, all_digits, all_digits_exec, magnitude};
use crate::parser::names_view;

verus! {

broadcast use vstd::seq::group_seq_axioms;

/// Why a line of assembly could not be assembled.
#[derive(Debug, PartialEq, Eq)]
pub enum AsmError {
    /// The line holds a character outside ASCII.
    NotAscii,
    MissingArguments,
    InvalidRegister,
    ExpectedNumber,
    InvalidInstruction,
}

/// White space as `str::split_whitespace` sees it, within ASCII: space, tab, line feed,
/// vertical tab, form feed, carriage return.
pub open spec fn is_blank(c: u8) -> bool {
    c == 32 || (9 <= c <= 13)
}

/// End of the word that starts at `pos`.
pub open spec fn word_end(s: Seq<char>, pos: int) -> int
    decreases s.len() - pos,
{
    if 0 <= pos < s.len() && !is_blank(code(s, pos)) { word_end(s, pos + 1) } else { pos }
}

/// The white-space separated words of `s[pos..]`.
pub open spec fn words(s: Seq<char>, pos: int) -> Seq<Seq<char>>
    decreases s.len() - pos,
{
    if pos < 0 || pos >= s.len() {
        seq![]
    } else if is_blank(code(s, pos)) {
        words(s, pos + 1)
    } else {
        let e = word_end(s, pos);
        if e <= pos || e > s.len() { seq![] } else { seq![s.subrange(pos, e)] + words(s, e) }
    }
}

/// A decimal number with an optional plus sign, if it is at most `max`.
pub open spec fn unsigned_of(w: Seq<char>, max: int) -> Option<int> {
    let start: int = if w.len() > 0 && w[0] == '+' { 1 } else { 0 };
    if all_digits(w, start, w.len() as int) && digits_value(w, start, w.len() as int) <= max {
        Some(digits_value(w, start, w.len() as int))
    } else {
        None
    }
}

/// A register operand: any first character, then the register number.
pub open spec fn register_of(ws: Seq<Seq<char>>, k: int) -> Result<u8, AsmError> {
    if k >= ws.len() {
        Err(AsmError::MissingArguments)
    } else if ws[k].len() == 0 {
        Err(AsmError::InvalidRegister)
    } else {
        match unsigned_of(ws[k].subrange(1, ws[k].len() as int), 255) {
            Some(v) => Ok(v as u8),
            None => Err(AsmError::InvalidRegister),
        }
    }
}

/// The instruction named by `op` with operands `args`.
pub open spec fn instruction_of(op: Seq<char>, args: Seq<Seq<char>>) -> Result<Option<Instruction>, AsmError> {
    if op.len() > 0 && op.last() == 'i' {
        if op == seq!['l', 'd', 'i'] {
            match register_of(args, 0) {
                Err(e) => Err(e),
                Ok(r) => if args.len() < 2 {
                    Err(AsmError::MissingArguments)
                } else {
                    match unsigned_of(args[1], 65535) {
                        None => Err(AsmError::ExpectedNumber),
                        Some(v) => Ok(Some(Instruction { opcode: 2, target: r, left: (v % 256) as u8, right: (v / 256) as u8 })),
                    }
                },
            }
        } else {
            Err(AsmError::InvalidInstruction)
        }
    } else if op == seq!['h', 'l', 't'] {
        Ok(Some(Instruction { opcode: 0, target: 0, left: 0, right: 0 }))
    } else if op == seq!['n', 'o', 'p'] {
        Ok(Some(Instruction { opcode: 1, target: 0, left: 0, right: 0 }))
    } else if op == seq!['a', 'd', 'd'] {
        match (register_of(args, 0), register_of(args, 1), register_of(args, 2)) {
            (Err(e), _, _) => Err(e),
            (Ok(_), Err(e), _) => Err(e),
            (Ok(_), Ok(_), Err(e)) => Err(e),
            (Ok(d), Ok(a), Ok(b)) => Ok(Some(Instruction { opcode: 2, target: d, left: a, right: b })),
        }
    } else {
        Err(AsmError::InvalidInstruction)
    }
}

/// What one line of assembly encodes: nothing for a blank line or a lone label, else one
/// instruction. A leading word that ends in `:` is a label and is skipped.
pub open spec fn assemble_spec(line: Seq<char>) -> Result<Option<Instruction>, AsmError> {
    let ws = words(line, 0);
    if !vstd::utf8::is_ascii_chars(line) {
        Err(AsmError::NotAscii)
    } else if ws.len() == 0 {
        Ok(None)
    } else if ws[0].len() > 0 && ws[0].last() == ':' {
        if ws.len() == 1 { Ok(None) } else { instruction_of(ws[1], ws.subrange(2, ws.len() as int)) }
    } else {
        instruction_of(ws[0], ws.subrange(1, ws.len() as int))
    }
}

/// Two lower-case hexadecimal digits.
pub open spec fn hex2(b: u8) -> Seq<char> {
    digit_text(b as int / 16) + digit_text(b as int % 16)
}

/// The text that the assembler prints for an instruction: its four bytes in hexadecimal.
pub open spec fn hex_text(i: Instruction) -> Seq<char> {
    hex2(i.opcode) + hex2(i.target) + hex2(i.left) + hex2(i.right)
}

proof fn lemma_word_end(s: Seq<char>, pos: int)
    requires
        0 <= pos <= s.len(),
    ensures
        pos <= word_end(s, pos) <= s.len(),
    decreases s.len() - pos,
{
    if pos < s.len() && !is_blank(code(s, pos)) {
        lemma_word_end(s, pos + 1);
    }
}

fn blank(c: u8) -> (r: bool)
    ensures
        r == is_blank(c),
{
    c == 32 || (9 <= c && c <= 13)
}

/// Splits an ASCII line into its white-space separated words.
fn split_words(line: &str) -> (r: Vec<String>)
    requires
        line.is_ascii(),
    ensures
        names_view(r@) == words(line@, 0),
        forall|k: int| 0 <= k < r@.len() ==> vstd::utf8::is_ascii_chars(#[trigger] r@[k]@),
{
    let n = line.unicode_len();
    let mut out: Vec<String> = Vec::new();
    let mut pos: usize = 0;
    assert(names_view(out@) + words(line@, 0) =~= words(line@, 0));
    while pos < n
        invariant
            n == line@.len(),
            line.is_ascii(),
            pos <= n,
            words(line@, 0) == names_view(out@) + words(line@, pos as int),
            forall|k: int| 0 <= k < out@.len() ==> vstd::utf8::is_ascii_chars(#[trigger] out@[k]@),
        decreases n - pos,
    {
        let c = line.get_ascii(pos);
        assert(c == code(line@, pos as int));
        if blank(c) {
            pos = pos + 1;
        } else {
            let mut e = pos;
            while e < n && !blank(line.get_ascii(e))
                invariant
                    n == line@.len(),
                    line.is_ascii(),
                    pos <= e <= n,
                    word_end(line@, e as int) == word_end(line@, pos as int),
                decreases n - e,
            {
                e = e + 1;
            }
            proof {
                lemma_word_end(line@, pos as int);
            }
            let w = line.substring_ascii(pos, e).to_owned();
            let ghost before = names_view(out@);
            out.push(w);
            proof {
                assert(names_view(out@) =~= before.push(line@.subrange(pos as int, e as int)));
                assert(before + (seq![line@.subrange(pos as int, e as int)] + words(line@, e as int)) =~= names_view(out@) + words(line@, e as int));
            }
            pos = e;
        }
    }
    out
}

/// A decimal number with an optional plus sign, if it is at most `max` (see `unsigned_of`).
fn parse_unsigned(w: &str, max: u64) -> (r: Option<u64>)
    requires
        w.is_ascii(),
    ensures
        match unsigned_of(w@, max as int) {
            Some(v) => r is Some && r->Some_0 as int == v,
            None => r is None,
        },
{
    let n = w.unicode_len();
    let start: usize = if n > 0 && w.get_ascii(0) == 43 { 1 } else { 0 };
    proof {
        if n > 0 {
            assert(w@[0] as u8 == 43 <==> w@[0] == '+') by {
                assert('\0' <= w@[0] <= '\u{7f}');
            };
        }
    }
    if !all_digits_exec(w, start, n) {
        return None;
    }
    magnitude(w, start, n, max)
}

/// The register operand `k` among the words after `words[at]`.
fn register(words: &Vec<String>, at: usize, k: usize) -> (r: Result<u8, AsmError>)
    requires
        at < words@.len(),
        forall|j: int| 0 <= j < words@.len() ==> vstd::utf8::is_ascii_chars(#[trigger] words@[j]@),
    ensures
        r == register_of(names_view(words@).subrange(at + 1, words@.len() as int), k as int),
{
    let ghost args = names_view(words@).subrange(at + 1, words@.len() as int);
    if k >= words.len() - at - 1 {
        return Err(AsmError::MissingArguments);
    }
    let w = words[at + 1 + k].as_str();
    assert(args[k as int] == w@);
    let n = w.unicode_len();
    if n == 0 {
        return Err(AsmError::InvalidRegister);
    }
    let digits = w.substring_ascii(1, n);
    match parse_unsigned(digits, 255) {
        Some(v) => Ok(v as u8),
        None => Err(AsmError::InvalidRegister),
    }
}

/// Whether `w` is the three characters `a`, `b`, `c`.
fn is_three(w: &str, a: char, b: char, c: char) -> (r: bool)
    ensures
        r == (w@ == seq![a, b, c]),
{
    let n = w.unicode_len();
    if n == 3 && w.get_char(0) == a && w.get_char(1) == b && w.get_char(2) == c {
        assert(w@ =~= seq![a, b, c]);
        true
    } else {
        false
    }
}

/// The instruction named by `words[at]` with the words after it as operands.
fn instruction_exec(words: &Vec<String>, at: usize) -> (r: Result<Option<Instruction>, AsmError>)
    requires
        at < words@.len(),
        forall|j: int| 0 <= j < words@.len() ==> vstd::utf8::is_ascii_chars(#[trigger] words@[j]@),
    ensures
        r == instruction_of(names_view(words@)[at as int], names_view(words@).subrange(at + 1, words@.len() as int)),
{
    let ghost ws = names_view(words@);
    let ghost args = ws.subrange(at + 1, ws.len() as int);
    let op = words[at].as_str();
    assert(op@ == ws[at as int]);
    let n = op.unicode_len();
    if n > 0 && op.get_char(n - 1) == 'i' {
        if is_three(op, 'l', 'd', 'i') {
            let r = match register(words, at, 0) {
                Ok(r) => r,
                Err(e) => {
                    return Err(e);
                },
            };
            if words.len() - at - 1 < 2 {
                return Err(AsmError::MissingArguments);
            }
            assert(args[1] == words@[at + 2]@);
            match parse_unsigned(words[at + 2].as_str(), 65535) {
                None => Err(AsmError::ExpectedNumber),
                Some(v) => Ok(Some(Instruction { opcode: 2, target: r, left: (v % 256) as u8, right: (v / 256) as u8 })),
            }
        } else {
            Err(AsmError::InvalidInstruction)
        }
    } else if is_three(op, 'h', 'l', 't') {
        Ok(Some(Instruction { opcode: 0, target: 0, left: 0, right: 0 }))
    } else if is_three(op, 'n', 'o', 'p') {
        Ok(Some(Instruction { opcode: 1, target: 0, left: 0, right: 0 }))
    } else if is_three(op, 'a', 'd', 'd') {
        let d = match register(words, at, 0) {
            Ok(x) => x,
            Err(e) => {
                return Err(e);
            },
        };
        let a = match register(words, at, 1) {
            Ok(x) => x,
            Err(e) => {
                return Err(e);
            },
        };
        let b = match register(words, at, 2) {
            Ok(x) => x,
            Err(e) => {
                return Err(e);
            },
        };
        Ok(Some(Instruction { opcode: 2, target: d, left: a, right: b }))
    } else {
        Err(AsmError::InvalidInstruction)
    }
}

/// Assembles one line (see `assemble_spec`).
pub fn assemble_line(line: &str) -> (r: Result<Option<Instruction>, AsmError>)
    ensures
        r == assemble_spec(line@),
{
    if !line.is_ascii() {
        return Err(AsmError::NotAscii);
    }
    let words = split_words(line);
    if words.len() == 0 {
        return Ok(None);
    }
    let first = words[0].as_str();
    let n = first.unicode_len();
    if n > 0 && first.get_char(n - 1) == ':' {
        if words.len() == 1 {
            Ok(None)
        } else {
            instruction_exec(&words, 1)
        }
    } else {
        instruction_exec(&words, 0)
    }
}

fn push_hex2(s: &mut String, b: u8)
    ensures
        final(s)@ == old(s)@ + hex2(b),
{
    s.append(digit_str((b / 16) as u64));
    s.append(digit_str((b % 16) as u64));
    assert(final(s)@ =~= old(s)@ + hex2(b));
}

/// The four bytes of an instruction as eight hexadecimal digits (see `hex_text`).
pub fn instruction_hex(i: Instruction) -> (r: String)
    ensures
        r@ == hex_text(i),
{
    let mut s = String::new();
    push_hex2(&mut s, i.opcode);
    push_hex2(&mut s, i.target);
    push_hex2(&mut s, i.left);
    push_hex2(&mut s, i.right);
    assert(s@ =~= hex_text(i));
    s
}

} // verus!
