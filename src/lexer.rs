use vstd::prelude::*;

verus! {

/// A token of the surface syntax.
#[derive(Debug)]
pub enum Token {
    Open,
    Close,
    Number(i64),
    /// A name (letters) or an operator (a run of operator characters).
    Symbol(String),
}

/// A token as the specifications see it.
pub enum Tok {
    Open,
    Close,
    Number(i64),
    Symbol(Seq<char>),
}

impl Token {
    pub open spec fn view(&self) -> Tok {
        match self {
            Token::Open => Tok::Open,
            Token::Close => Tok::Close,
            Token::Number(n) => Tok::Number(*n),
            Token::Symbol(s) => Tok::Symbol(s@),
        }
    }
}

pub open spec fn toks_view(ts: Seq<Token>) -> Seq<Tok> {
    Seq::new(ts.len(), |i: int| ts[i].view())
}

/// Character classes of the lexer, on character codes.
pub open spec fn is_space(c: u8) -> bool {
    c == 32 || c == 9 || c == 10 || c == 13
}

pub open spec fn is_digit(c: u8) -> bool {
    48 <= c <= 57
}

pub open spec fn is_letter(c: u8) -> bool {
    (65 <= c <= 90) || (97 <= c <= 122)
}

/// `+ - * / & | = < > !`
pub open spec fn is_op_char(c: u8) -> bool {
    c == 43 || c == 45 || c == 42 || c == 47 || c == 38 || c == 124 || c == 61 || c == 60 || c == 62 || c == 33
}

/// Class of a run: digits, letters or operator characters.
pub open spec fn in_class(kind: u8, c: u8) -> bool {
    if kind == 0 {
        is_digit(c)
    } else if kind == 1 {
        is_letter(c)
    } else {
        is_op_char(c)
    }
}

pub open spec fn code(s: Seq<char>, i: int) -> u8 {
    s[i] as u8
}

/// End of the run of class `kind` that starts at `pos`.
pub open spec fn run_end(s: Seq<char>, pos: int, kind: u8) -> int
    decreases s.len() - pos,
{
    if 0 <= pos < s.len() && in_class(kind, code(s, pos)) {
        run_end(s, pos + 1, kind)
    } else {
        pos
    }
}

/// Value of the decimal digits `s[a..b]`.
pub open spec fn digits_value(s: Seq<char>, a: int, b: int) -> int
    decreases b - a,
{
    if b <= a {
        0
    } else {
        digits_value(s, a, b - 1) * 10 + (code(s, b - 1) - 48)
    }
}

/// Tokens of `s[pos..]` with the position at which each starts, or the position of the
/// first character that starts no token or of a number too large for 64 bits.
pub open spec fn lex(s: Seq<char>, pos: int) -> Result<(Seq<Tok>, Seq<int>), int>
    decreases s.len() - pos,
{
    if pos < 0 || pos >= s.len() {
        Ok((seq![], seq![]))
    } else {
        let c = code(s, pos);
        let (tok, next) = if is_space(c) {
            (None, pos + 1)
        } else if c == 40 {
            (Some(Tok::Open), pos + 1)
        } else if c == 41 {
            (Some(Tok::Close), pos + 1)
        } else if is_digit(c) {
            let e = run_end(s, pos + 1, 0);
            let v = digits_value(s, pos, e);
            (if v <= i64::MAX { Some(Tok::Number(v as i64)) } else { None }, e)
        } else if is_letter(c) {
            let e = run_end(s, pos + 1, 1);
            (Some(Tok::Symbol(s.subrange(pos, e))), e)
        } else if is_op_char(c) {
            let e = run_end(s, pos + 1, 2);
            (Some(Tok::Symbol(s.subrange(pos, e))), e)
        } else {
            (None, pos + 1)
        };
        if !is_space(c) && tok is None {
            Err(pos)
        } else if next <= pos || next > s.len() {
            Err(pos)
        } else {
            match lex(s, next) {
                Err(e) => Err(e),
                Ok((rest, starts)) => match tok {
                    Some(t) => Ok((seq![t] + rest, seq![pos] + starts)),
                    None => Ok((rest, starts)),
                },
            }
        }
    }
}

/// Position of the first character of `s[pos..]` outside ASCII, or the length of `s`.
pub open spec fn first_wide(s: Seq<char>, pos: int) -> int
    decreases s.len() - pos,
{
    if pos < 0 || pos >= s.len() {
        s.len() as int
    } else if s[pos] > '\u{7f}' {
        pos
    } else {
        first_wide(s, pos + 1)
    }
}

/// The tokens of a whole source text with their start positions; only ASCII text is
/// accepted, and an error names the position of the offending character.
pub open spec fn tokens_of(s: Seq<char>) -> Result<(Seq<Tok>, Seq<int>), int> {
    if vstd::utf8::is_ascii_chars(s) {
        lex(s, 0)
    } else {
        Err(first_wide(s, 0))
    }
}

/// Positions as integers.
pub open spec fn positions(w: Seq<usize>) -> Seq<int> {
    Seq::new(w.len(), |i: int| w[i] as int)
}

proof fn lemma_run_end(s: Seq<char>, pos: int, kind: u8)
    requires
        0 <= pos <= s.len(),
    ensures
        pos <= run_end(s, pos, kind) <= s.len(),
        forall|i: int| pos <= i < run_end(s, pos, kind) ==> in_class(kind, #[trigger] code(s, i)),
        run_end(s, pos, kind) < s.len() ==> !in_class(kind, code(s, run_end(s, pos, kind))),
    decreases s.len() - pos,
{
    if pos < s.len() && in_class(kind, code(s, pos)) {
        lemma_run_end(s, pos + 1, kind);
    }
}

/// Scans the run of class `kind` from `pos`.
fn scan_run(src: &str, pos: usize, kind: u8) -> (e: usize)
    requires
        src.is_ascii(),
        pos <= src@.len(),
    ensures
        e == run_end(src@, pos as int, kind),
{
    let n = src.unicode_len();
    let mut i = pos;
    while i < n && in_class_exec(kind, src.get_ascii(i))
        invariant
            n == src@.len(),
            src.is_ascii(),
            pos <= i <= n,
            run_end(src@, i as int, kind) == run_end(src@, pos as int, kind),
        decreases n - i,
    {
        i = i + 1;
    }
    i
}

fn in_class_exec(kind: u8, c: u8) -> (r: bool)
    ensures
        r == in_class(kind, c),
{
    if kind == 0 {
        48 <= c && c <= 57
    } else if kind == 1 {
        (65 <= c && c <= 90) || (97 <= c && c <= 122)
    } else {
        c == 43 || c == 45 || c == 42 || c == 47 || c == 38 || c == 124 || c == 61 || c == 60 || c == 62 || c == 33
    }
}

proof fn lemma_digits_monotone(s: Seq<char>, a: int, i: int, j: int)
    requires
        a <= i <= j,
        forall|k: int| a <= k < j ==> is_digit(#[trigger] code(s, k)),
    ensures
        0 <= digits_value(s, a, i) <= digits_value(s, a, j),
    decreases j - a,
{
    if j > a {
        if i < j {
            lemma_digits_monotone(s, a, i, j - 1);
        } else {
            lemma_digits_monotone(s, a, j - 1, j - 1);
        }
        let p = digits_value(s, a, j - 1);
        assert(p * 10 + (code(s, j - 1) - 48) >= p) by (nonlinear_arith)
            requires
                p >= 0,
                code(s, j - 1) >= 48,
        ;
    }
}

/// Position of the first character outside ASCII.
fn first_wide_exec(src: &str) -> (r: usize)
    ensures
        r == first_wide(src@, 0),
{
    let n = src.unicode_len();
    let mut i: usize = 0;
    while i < n
        invariant
            n == src@.len(),
            i <= n,
            first_wide(src@, i as int) == first_wide(src@, 0),
        decreases n - i,
    {
        if src.get_char(i) > '\u{7f}' {
            return i;
        }
        i = i + 1;
    }
    i
}

/// Splits a source text into tokens and their start positions (see `tokens_of`).
pub fn tokenize(src: &str) -> (r: Result<(Vec<Token>, Vec<usize>), usize>)
    ensures
        match tokens_of(src@) {
            Ok((ts, ss)) => r matches Ok((v, w)) && toks_view(v@) == ts && positions(w@) == ss,
            Err(e) => r matches Err(j) && j == e,
        },
{
    if !src.is_ascii() {
        return Err(first_wide_exec(src));
    }
    let n = src.unicode_len();
    let mut toks: Vec<Token> = Vec::new();
    let mut starts: Vec<usize> = Vec::new();
    let mut pos: usize = 0;
    proof {
        match lex(src@, 0) {
            Ok((ts, ss)) => {
                assert(toks_view(toks@) + ts =~= ts);
                assert(positions(starts@) + ss =~= ss);
            },
            Err(_) => {},
        }
    }
    while pos < n
        invariant
            n == src@.len(),
            src.is_ascii(),
            pos <= n,
            lex(src@, 0) == match lex(src@, pos as int) {
                Ok((rest, ss)) => Ok((toks_view(toks@) + rest, positions(starts@) + ss)),
                Err(e) => Err::<(Seq<Tok>, Seq<int>), int>(e),
            },
        decreases n - pos,
    {
        let ghost t0 = toks_view(toks@);
        let ghost s0 = positions(starts@);
        let c = src.get_ascii(pos);
        assert(c == code(src@, pos as int));
        if c == 32 || c == 9 || c == 10 || c == 13 {
            pos = pos + 1;
        } else {
            let tok: Token;
            let next: usize;
            if c == 40 {
                tok = Token::Open;
                next = pos + 1;
            } else if c == 41 {
                tok = Token::Close;
                next = pos + 1;
            } else if 48 <= c && c <= 57 {
                let e = scan_run(src, pos + 1, 0);
                proof {
                    lemma_run_end(src@, pos + 1, 0);
                }
                match magnitude(src, pos, e, 0x7fff_ffff_ffff_ffff) {
                    Some(v) => {
                        tok = Token::Number(v as i64);
                    },
                    None => {
                        return Err(pos);
                    },
                }
                next = e;
            } else if (65 <= c && c <= 90) || (97 <= c && c <= 122) || c == 43 || c == 45 || c == 42 || c == 47 || c
                == 38 || c == 124 || c == 61 || c == 60 || c == 62 || c == 33 {
                let kind: u8 = if (65 <= c && c <= 90) || (97 <= c && c <= 122) { 1 } else { 2 };
                let e = scan_run(src, pos + 1, kind);
                proof {
                    lemma_run_end(src@, pos + 1, kind);
                }
                let text = src.substring_ascii(pos, e).to_owned();
                tok = Token::Symbol(text);
                next = e;
            } else {
                return Err(pos);
            }
            let ghost tv = tok.view();
            toks.push(tok);
            starts.push(pos);
            proof {
                assert(toks_view(toks@) =~= t0.push(tv));
                assert(positions(starts@) =~= s0.push(pos as int));
                match lex(src@, next as int) {
                    Ok((rest, ss)) => {
                        assert(t0 + (seq![tv] + rest) =~= t0.push(tv) + rest);
                        assert(s0 + (seq![pos as int] + ss) =~= s0.push(pos as int) + ss);
                    },
                    Err(_) => {},
                }
            }
            pos = next;
        }
    }
    Ok((toks, starts))
}

/// `s[a..b]` is a nonempty run of decimal digits.
pub open spec fn all_digits(s: Seq<char>, a: int, b: int) -> bool {
    a < b && forall|k: int| a <= k < b ==> is_digit(#[trigger] code(s, k))
}

/// The magnitude of the digits `src[a..b]`, if it is at most `limit`.
pub(crate) fn magnitude(src: &str, a: usize, b: usize, limit: u64) -> (r: Option<u64>)
    requires
        src.is_ascii(),
        a <= b <= src@.len(),
        forall|k: int| a <= k < b ==> is_digit(#[trigger] code(src@, k)),
    ensures
        match r {
            Some(v) => digits_value(src@, a as int, b as int) <= limit && v == digits_value(src@, a as int, b as int),
            None => digits_value(src@, a as int, b as int) > limit,
        },
{
    let mut v: u64 = 0;
    let mut i = a;
    while i < b
        invariant
            src.is_ascii(),
            a <= i <= b <= src@.len(),
            forall|k: int| a <= k < b ==> is_digit(#[trigger] code(src@, k)),
            v == digits_value(src@, a as int, i as int),
            v <= limit,
        decreases b - i,
    {
        let c = src.get_ascii(i);
        assert(c == code(src@, i as int));
        let d = (c - 48) as u64;
        proof {
            lemma_digits_monotone(src@, a as int, i as int, i as int);
        }
        if d > limit || v > (limit - d) / 10 {
            proof {
                assert(v * 10 + d > limit) by (nonlinear_arith)
                    requires
                        v > (limit - d) / 10 || d > limit,
                        0 <= d <= 9,
                        v >= 0,
                ;
                lemma_digits_monotone(src@, a as int, i + 1, b as int);
            }
            return None;
        }
        assert(v * 10 + d <= limit) by (nonlinear_arith)
            requires
                v <= (limit - d) / 10,
                0 <= d <= 9,
                d <= limit,
                v >= 0,
        ;
        v = v * 10 + d;
        i = i + 1;
    }
    Some(v)
}

pub(crate) fn all_digits_exec(src: &str, a: usize, b: usize) -> (r: bool)
    requires
        src.is_ascii(),
        a <= b <= src@.len(),
    ensures
        r == all_digits(src@, a as int, b as int),
{
    if a >= b {
        return false;
    }
    let mut k = a;
    while k < b
        invariant
            src.is_ascii(),
            a <= k <= b <= src@.len(),
            forall|j: int| a <= j < k ==> is_digit(#[trigger] code(src@, j)),
        decreases b - k,
    {
        let c = src.get_ascii(k);
        assert(c == code(src@, k as int));
        if !(48 <= c && c <= 57) {
            assert(!is_digit(code(src@, k as int)));
            return false;
        }
        k = k + 1;
    }
    true
}

} // verus!
