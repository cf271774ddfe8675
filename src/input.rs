use vstd::prelude::*;

verus! {

/// White space as `char::is_whitespace` defines it (the Unicode `White_Space` property).
pub open spec fn is_white(c: char) -> bool {
    ('\u{9}' <= c && c <= '\u{d}') || c == ' ' || c == '\u{85}' || c == '\u{a0}' || c == '\u{1680}'
        || ('\u{2000}' <= c && c <= '\u{200a}') || c == '\u{2028}' || c == '\u{2029}' || c == '\u{202f}'
        || c == '\u{205f}' || c == '\u{3000}'
}

/// First position at or after `a` (and before `b`) that is not white space.
pub open spec fn skip_white(s: Seq<char>, a: int, b: int) -> int
    decreases b - a,
{
    if a < b && is_white(s[a]) { skip_white(s, a + 1, b) } else { a }
}

/// Position just after the last character before `b` (and at or after `a`) that is not white space.
pub open spec fn trim_white(s: Seq<char>, a: int, b: int) -> int
    decreases b - a,
{
    if a < b && is_white(s[b - 1]) { trim_white(s, a, b - 1) } else { b }
}

pub open spec fn is_decimal_digit(c: char) -> bool {
    '0' <= c && c <= '9'
}

/// Value of the decimal digits `s[a..b]`.
pub open spec fn decimal(s: Seq<char>, a: int, b: int) -> int
    decreases b - a,
{
    if b <= a { 0 } else { decimal(s, a, b - 1) * 10 + (s[b - 1] as u32 - 48) }
}

/// The integer that a line of input denotes, as `line.trim().parse::<i64>()` reads it: white
/// space around an optional sign (`+` or `-`) and one or more ASCII digits, within the range
/// of `i64`.
pub open spec fn integer_of(s: Seq<char>) -> Option<i64> {
    let a = skip_white(s, 0, s.len() as int);
    let b = trim_white(s, a, s.len() as int);
    if a >= b {
        None
    } else {
        let neg = s[a] == '-';
        let start = if s[a] == '-' || s[a] == '+' { a + 1 } else { a };
        let limit: int = if neg { 0x8000_0000_0000_0000 } else { i64::MAX as int };
        if start < b && (forall|k: int| start <= k < b ==> is_decimal_digit(#[trigger] s[k])) && decimal(s, start, b) <= limit {
            Some((if neg { -decimal(s, start, b) } else { decimal(s, start, b) }) as i64)
        } else {
            None
        }
    }
}

proof fn lemma_decimal_monotone(s: Seq<char>, a: int, i: int, j: int)
    requires
        a <= i <= j,
        forall|k: int| a <= k < j ==> is_decimal_digit(#[trigger] s[k]),
    ensures
        0 <= decimal(s, a, i) <= decimal(s, a, j),
    decreases j - a,
{
    if j > a {
        if i < j {
            lemma_decimal_monotone(s, a, i, j - 1);
        } else {
            lemma_decimal_monotone(s, a, j - 1, j - 1);
        }
        let p = decimal(s, a, j - 1);
        let d = s[j - 1] as u32 - 48;
        assert(p * 10 + d >= p) by (nonlinear_arith)
            requires
                p >= 0,
                d >= 0,
        ;
    }
}

fn white(c: char) -> (r: bool)
    ensures
        r == is_white(c),
{
    ('\u{9}' <= c && c <= '\u{d}') || c == ' ' || c == '\u{85}' || c == '\u{a0}' || c == '\u{1680}'
        || ('\u{2000}' <= c && c <= '\u{200a}') || c == '\u{2028}' || c == '\u{2029}' || c == '\u{202f}'
        || c == '\u{205f}' || c == '\u{3000}'
}

/// The characters of `text`.
fn chars_of(text: &str) -> (r: Vec<char>)
    ensures
        r@ == text@,
{
    let n = text.unicode_len();
    let mut out: Vec<char> = Vec::new();
    let mut i: usize = 0;
    while i < n
        invariant
            n == text@.len(),
            i <= n,
            out@ == text@.subrange(0, i as int),
        decreases n - i,
    {
        out.push(text.get_char(i));
        assert(text@.subrange(0, i + 1) =~= text@.subrange(0, i as int).push(text@[i as int]));
        i = i + 1;
    }
    assert(text@.subrange(0, n as int) =~= text@);
    out
}

/// The value of the digits `cs[start..b]`, if all are digits and it is at most `limit`.
fn decimal_value(cs: &Vec<char>, start: usize, b: usize, limit: u64) -> (r: Option<u64>)
    requires
        start <= b <= cs@.len(),
    ensures
        match r {
            Some(v) => (forall|k: int| start <= k < b ==> is_decimal_digit(#[trigger] cs@[k])) && v == decimal(cs@, start as int, b as int)
                && v <= limit,
            None => !(forall|k: int| start <= k < b ==> is_decimal_digit(#[trigger] cs@[k])) || decimal(cs@, start as int, b as int) > limit,
        },
{
    let mut k = start;
    while k < b
        invariant
            start <= k <= b <= cs@.len(),
            forall|j: int| start <= j < k ==> is_decimal_digit(#[trigger] cs@[j]),
        decreases b - k,
    {
        if !('0' <= cs[k] && cs[k] <= '9') {
            return None;
        }
        k = k + 1;
    }
    let mut v: u64 = 0;
    let mut i = start;
    while i < b
        invariant
            start <= i <= b <= cs@.len(),
            forall|j: int| start <= j < b ==> is_decimal_digit(#[trigger] cs@[j]),
            v == decimal(cs@, start as int, i as int),
            v <= limit,
        decreases b - i,
    {
        let d = (cs[i] as u32 - 48) as u64;
        assert(is_decimal_digit(cs@[i as int]));
        proof {
            lemma_decimal_monotone(cs@, start as int, i as int, i as int);
        }
        if d > limit || v > (limit - d) / 10 {
            proof {
                assert(v * 10 + d > limit) by (nonlinear_arith)
                    requires
                        d > limit || v > (limit - d) / 10,
                        0 <= d <= 9,
                        v >= 0,
                ;
                lemma_decimal_monotone(cs@, start as int, i + 1, b as int);
            }
            return None;
        }
        assert(v * 10 + d <= limit) by (nonlinear_arith)
            requires
                v <= (limit - d) / 10,
                0 <= d <= 9,
                d <= limit,
                v >= 0,
        ;
        v = v * 10 + d;
        i = i + 1;
    }
    Some(v)
}

/// Reads a line of input as an integer (see `integer_of`).
pub fn parse_integer(text: &str) -> (r: Option<i64>)
    ensures
        r == integer_of(text@),
{
    let cs = chars_of(text);
    let n = cs.len();
    let mut a: usize = 0;
    while a < n && white(cs[a])
        invariant
            n == cs@.len(),
            cs@ == text@,
            a <= n,
            skip_white(cs@, a as int, n as int) == skip_white(cs@, 0, n as int),
        decreases n - a,
    {
        a = a + 1;
    }
    let mut b: usize = n;
    while b > a && white(cs[b - 1])
        invariant
            n == cs@.len(),
            a <= b <= n,
            trim_white(cs@, a as int, b as int) == trim_white(cs@, a as int, n as int),
        decreases b,
    {
        b = b - 1;
    }
    if a >= b {
        return None;
    }
    let neg = cs[a] == '-';
    let start = if cs[a] == '-' || cs[a] == '+' { a + 1 } else { a };
    if start >= b {
        return None;
    }
    let limit: u64 = if neg { 0x8000_0000_0000_0000 } else { 0x7fff_ffff_ffff_ffff };
    match decimal_value(&cs, start, b, limit) {
        None => None,
        Some(m) => {
            if !neg {
                Some(m as i64)
            } else if m == 0x8000_0000_0000_0000 {
                Some(i64::MIN)
            } else {
                Some(-(m as i64))
            }
        },
    }
}

} // verus!
