use vstd::prelude::*;
use crate::ast::Expression;
use crate::codegen::CompileError;
use crate::lexer::{Tok, Token, toks_view, tokens_of, tokenize, positions};

verus! {

broadcast use vstd::std_specs::vec::group_vec_axioms, vstd::seq::group_seq_axioms;

/// An expression tree as the specifications see it: names are character sequences.
pub enum ExprView {
    Integer(i64),
    Variable(Seq<char>),
    BinaryOp(Seq<char>, Box<ExprView>, Box<ExprView>),
    Function(Seq<char>, Seq<ExprView>),
    FunctionDefinition(Seq<char>, Seq<Seq<char>>, Seq<ExprView>),
    VariableAssignment(Seq<(Seq<char>, ExprView)>, Seq<ExprView>),
    Conditional(Box<ExprView>, Seq<ExprView>, Seq<ExprView>),
}

pub open spec fn view_expr(e: Expression) -> ExprView
    decreases e,
{
    match e {
        Expression::Integer(n) => ExprView::Integer(n),
        Expression::Variable(x) => ExprView::Variable(x@),
        Expression::BinaryOp(op, l, r) => ExprView::BinaryOp(op@, Box::new(view_expr(*l)), Box::new(view_expr(*r))),
        Expression::Function(name, args) => ExprView::Function(name@, view_list(args@)),
        Expression::FunctionDefinition(name, ps, body) => ExprView::FunctionDefinition(name@, names_view(ps@), view_list(body@)),
        Expression::VariableAssignment(bs, body) => ExprView::VariableAssignment(binds_view(bs@), view_list(body@)),
        Expression::Conditional(c, th, el) => ExprView::Conditional(Box::new(view_expr(*c)), view_list(th@), view_list(el@)),
    }
}

pub open spec fn view_list(es: Seq<Expression>) -> Seq<ExprView>
    decreases es,
{
    if es.len() == 0 {
        seq![]
    } else {
        view_list(es.drop_last()).push(view_expr(es.last()))
    }
}

pub open spec fn binds_view(bs: Seq<(String, Expression)>) -> Seq<(Seq<char>, ExprView)>
    decreases bs,
{
    if bs.len() == 0 {
        seq![]
    } else {
        binds_view(bs.drop_last()).push((bs.last().0@, view_expr(bs.last().1)))
    }
}

pub open spec fn names_view(ps: Seq<String>) -> Seq<Seq<char>> {
    Seq::new(ps.len(), |i: int| ps[i]@)
}

/// A name starts with a letter; a symbol that does not is an operator.
pub open spec fn is_name(s: Seq<char>) -> bool {
    s.len() > 0 && (('a' <= s[0] && s[0] <= 'z') || ('A' <= s[0] && s[0] <= 'Z'))
}

/// 1 for `def`, 2 for `let`, 3 for `if`, 0 for any other symbol.
pub open spec fn keyword(s: Seq<char>) -> u8 {
    if s == seq!['d', 'e', 'f'] {
        1
    } else if s == seq!['l', 'e', 't'] {
        2
    } else if s == seq!['i', 'f'] {
        3
    } else {
        0
    }
}

/// `p` is a position after `pos` and inside the tokens or just past them.
pub open spec fn advances(pos: int, p: int, len: int) -> bool {
    pos < p <= len
}

/// A parse from token `pos`: the value and the position after it, or the index of the token
/// at which the text stops following the grammar (the number of tokens at end of input).
pub type Parsed<T> = Result<(T, int), int>;

/// An expression starting at token `pos`.
pub open spec fn parse_expr(t: Seq<Tok>, pos: int) -> Parsed<ExprView>
    decreases t.len() - pos, 0nat,
{
    if pos < 0 || pos >= t.len() {
        Err(pos)
    } else {
        match t[pos] {
            Tok::Number(n) => Ok((ExprView::Integer(n), pos + 1)),
            Tok::Symbol(s) => if is_name(s) { Ok((ExprView::Variable(s), pos + 1)) } else { Err(pos) },
            Tok::Close => Err(pos),
            Tok::Open => parse_form(t, pos + 1),
        }
    }
}

/// What follows an opening parenthesis: a definition, a `let`, an `if`, an operation or a call.
pub open spec fn parse_form(t: Seq<Tok>, pos: int) -> Parsed<ExprView>
    decreases t.len() - pos, 2nat,
{
    if pos < 0 || pos >= t.len() {
        Err(pos)
    } else {
        match t[pos] {
            Tok::Symbol(s) => if keyword(s) == 1 {
                parse_def(t, pos + 1)
            } else if keyword(s) == 2 {
                parse_let(t, pos + 1)
            } else if keyword(s) == 3 {
                parse_if(t, pos + 1)
            } else if is_name(s) {
                match parse_list(t, pos + 1) {
                    Ok((args, q)) => Ok((ExprView::Function(s, args), q)),
                    Err(e) => Err(e),
                }
            } else {
                parse_binary(t, s, pos + 1)
            },
            _ => Err(pos),
        }
    }
}

/// Expressions up to and including a closing parenthesis.
pub open spec fn parse_list(t: Seq<Tok>, pos: int) -> Parsed<Seq<ExprView>>
    decreases t.len() - pos, 1nat,
{
    if pos < 0 || pos >= t.len() {
        Err(pos)
    } else if t[pos] is Close {
        Ok((seq![], pos + 1))
    } else {
        match parse_expr(t, pos) {
            Err(e) => Err(e),
            Ok((e, p)) => if !advances(pos, p, t.len() as int) {
                Err(pos)
            } else {
                match parse_list(t, p) {
                    Err(x) => Err(x),
                    Ok((es, q)) => Ok((seq![e] + es, q)),
                }
            },
        }
    }
}

/// Names up to and including a closing parenthesis.
pub open spec fn parse_names(t: Seq<Tok>, pos: int) -> Parsed<Seq<Seq<char>>>
    decreases t.len() - pos,
{
    if pos < 0 || pos >= t.len() {
        Err(pos)
    } else {
        match t[pos] {
            Tok::Close => Ok((seq![], pos + 1)),
            Tok::Symbol(s) => if is_name(s) {
                match parse_names(t, pos + 1) {
                    Ok((ns, q)) => Ok((seq![s] + ns, q)),
                    Err(e) => Err(e),
                }
            } else {
                Err(pos)
            },
            _ => Err(pos),
        }
    }
}

/// `(name expr)` pairs up to and including a closing parenthesis.
pub open spec fn parse_binds(t: Seq<Tok>, pos: int) -> Parsed<Seq<(Seq<char>, ExprView)>>
    decreases t.len() - pos, 1nat,
{
    if pos < 0 || pos >= t.len() {
        Err(pos)
    } else {
        match t[pos] {
            Tok::Close => Ok((seq![], pos + 1)),
            Tok::Open => if pos + 1 >= t.len() {
                Err(pos + 1)
            } else {
                match t[pos + 1] {
                    Tok::Symbol(name) => if !is_name(name) {
                        Err(pos + 1)
                    } else {
                        match parse_expr(t, pos + 2) {
                            Err(e) => Err(e),
                            Ok((e, p)) => if !advances(pos, p, t.len() as int) || p >= t.len() || !(t[p] is Close) {
                                Err(p)
                            } else {
                                match parse_binds(t, p + 1) {
                                    Err(x) => Err(x),
                                    Ok((bs, q)) => Ok((seq![(name, e)] + bs, q)),
                                }
                            },
                        }
                    },
                    _ => Err(pos + 1),
                }
            },
            _ => Err(pos),
        }
    }
}

/// After `def`: name, parameter list, body.
pub open spec fn parse_def(t: Seq<Tok>, pos: int) -> Parsed<ExprView>
    decreases t.len() - pos, 2nat,
{
    if pos < 0 || pos >= t.len() {
        Err(pos)
    } else {
        match t[pos] {
            Tok::Symbol(name) => if !is_name(name) {
                Err(pos)
            } else if pos + 1 >= t.len() || !(t[pos + 1] is Open) {
                Err(pos + 1)
            } else {
                match parse_names(t, pos + 2) {
                    Err(e) => Err(e),
                    Ok((ps, p)) => if !advances(pos, p, t.len() as int) {
                        Err(pos)
                    } else {
                        match parse_list(t, p) {
                            Err(e) => Err(e),
                            Ok((body, q)) => Ok((ExprView::FunctionDefinition(name, ps, body), q)),
                        }
                    },
                }
            },
            _ => Err(pos),
        }
    }
}

/// After `let`: binding list, body.
pub open spec fn parse_let(t: Seq<Tok>, pos: int) -> Parsed<ExprView>
    decreases t.len() - pos, 2nat,
{
    if pos < 0 || pos >= t.len() || !(t[pos] is Open) {
        Err(pos)
    } else {
        match parse_binds(t, pos + 1) {
            Err(e) => Err(e),
            Ok((bs, p)) => if !advances(pos, p, t.len() as int) {
                Err(pos)
            } else {
                match parse_list(t, p) {
                    Err(e) => Err(e),
                    Ok((body, q)) => Ok((ExprView::VariableAssignment(bs, body), q)),
                }
            },
        }
    }
}

/// After `if`: condition, then-list, else-list, closing parenthesis.
pub open spec fn parse_if(t: Seq<Tok>, pos: int) -> Parsed<ExprView>
    decreases t.len() - pos, 2nat,
{
    match parse_expr(t, pos) {
        Err(e) => Err(e),
        Ok((c, p)) => if !advances(pos, p, t.len() as int) || p >= t.len() || !(t[p] is Open) {
            Err(p)
        } else {
            match parse_list(t, p + 1) {
                Err(e) => Err(e),
                Ok((th, q_then)) => if !advances(pos, q_then, t.len() as int) || q_then >= t.len() || !(t[q_then] is Open) {
                    Err(q_then)
                } else {
                    match parse_list(t, q_then + 1) {
                        Err(e) => Err(e),
                        Ok((el, q_else)) => if !advances(pos, q_else, t.len() as int) || q_else >= t.len() || !(t[q_else] is Close) {
                            Err(q_else)
                        } else {
                            Ok((ExprView::Conditional(Box::new(c), th, el), q_else + 1))
                        },
                    }
                },
            }
        },
    }
}

/// After an operator: two operands and a closing parenthesis.
pub open spec fn parse_binary(t: Seq<Tok>, op: Seq<char>, pos: int) -> Parsed<ExprView>
    decreases t.len() - pos, 2nat,
{
    match parse_expr(t, pos) {
        Err(e) => Err(e),
        Ok((l, p)) => if !advances(pos, p, t.len() as int) {
            Err(pos)
        } else {
            match parse_expr(t, p) {
                Err(e) => Err(e),
                Ok((r, q)) => if !advances(pos, q, t.len() as int) || q >= t.len() || !(t[q] is Close) {
                    Err(q)
                } else {
                    Ok((ExprView::BinaryOp(op, Box::new(l), Box::new(r)), q + 1))
                },
            }
        },
    }
}

/// Expressions from `pos` to the end of the tokens, or the index of the failing token.
pub open spec fn parse_top(t: Seq<Tok>, pos: int) -> Result<Seq<ExprView>, int>
    decreases t.len() - pos,
{
    if pos < 0 || pos >= t.len() {
        Ok(seq![])
    } else {
        match parse_expr(t, pos) {
            Err(e) => Err(e),
            Ok((e, p)) => if !advances(pos, p, t.len() as int) {
                Err(pos)
            } else {
                match parse_top(t, p) {
                    Err(x) => Err(x),
                    Ok(es) => Ok(seq![e] + es),
                }
            },
        }
    }
}

/// The character position of token `i`, or the end of the text past the last token.
pub open spec fn token_position(starts: Seq<int>, i: int, len: int) -> int {
    if 0 <= i < starts.len() { starts[i] } else { len }
}

/// The expression trees of a whole source text, or the character position at which it stops
/// following the grammar (its length when the text ends too early).
pub open spec fn program_spec(src: Seq<char>) -> Result<Seq<ExprView>, int> {
    match tokens_of(src) {
        Err(e) => Err(e),
        Ok((t, starts)) => match parse_top(t, 0) {
            Ok(es) => Ok(es),
            Err(i) => Err(token_position(starts, i, src.len() as int)),
        },
    }
}

/// The exec result `r` is the spec result `v` of parsing from `pos`, and moved forward.
pub open spec fn parsed(v: Parsed<ExprView>, r: Result<(Expression, usize), usize>, pos: int, len: int) -> bool {
    match v {
        Ok((x, p)) => r matches Ok((e, q)) && view_expr(e) == x && q == p && advances(pos, p, len),
        Err(i) => r matches Err(j) && j == i,
    }
}

pub open spec fn parsed_list(v: Parsed<Seq<ExprView>>, r: Result<(Vec<Expression>, usize), usize>, pos: int, len: int) -> bool {
    match v {
        Ok((x, p)) => r matches Ok((es, q)) && view_list(es@) == x && q == p && advances(pos, p, len),
        Err(i) => r matches Err(j) && j == i,
    }
}

fn is_name_exec(s: &String) -> (r: bool)
    ensures
        r == is_name(s@),
{
    let st = s.as_str();
    if st.unicode_len() == 0 {
        return false;
    }
    let c = st.get_char(0);
    ('a' <= c && c <= 'z') || ('A' <= c && c <= 'Z')
}

fn keyword_exec(s: &String) -> (r: u8)
    ensures
        r == keyword(s@),
{
    let st = s.as_str();
    let n = st.unicode_len();
    if n == 3 && st.get_char(0) == 'd' && st.get_char(1) == 'e' && st.get_char(2) == 'f' {
        assert(s@ =~= seq!['d', 'e', 'f']);
        1
    } else if n == 3 && st.get_char(0) == 'l' && st.get_char(1) == 'e' && st.get_char(2) == 't' {
        assert(s@ =~= seq!['l', 'e', 't']);
        assert(s@ != seq!['d', 'e', 'f']);
        2
    } else if n == 2 && st.get_char(0) == 'i' && st.get_char(1) == 'f' {
        assert(s@ =~= seq!['i', 'f']);
        assert(s@ != seq!['d', 'e', 'f']);
        assert(s@ != seq!['l', 'e', 't']);
        3
    } else {
        assert(s@ != seq!['d', 'e', 'f']);
        assert(s@ != seq!['l', 'e', 't']);
        assert(s@ != seq!['i', 'f']);
        0
    }
}

fn is_close(t: &Vec<Token>, p: usize) -> (r: bool)
    requires
        p < t@.len(),
    ensures
        r == (toks_view(t@)[p as int] is Close),
{
    match &t[p] {
        Token::Close => true,
        _ => false,
    }
}

fn is_open(t: &Vec<Token>, p: usize) -> (r: bool)
    requires
        p < t@.len(),
    ensures
        r == (toks_view(t@)[p as int] is Open),
{
    match &t[p] {
        Token::Open => true,
        _ => false,
    }
}

fn parse_expr_exec(t: &Vec<Token>, pos: usize) -> (r: Result<(Expression, usize), usize>)
    ensures
        parsed(parse_expr(toks_view(t@), pos as int), r, pos as int, t@.len() as int),
    decreases t@.len() - pos, 0nat,
{
    if pos >= t.len() {
        return Err(pos);
    }
    match &t[pos] {
        Token::Number(n) => Ok((Expression::Integer(*n), pos + 1)),
        Token::Symbol(s) => {
            if is_name_exec(s) {
                Ok((Expression::Variable(s.clone()), pos + 1))
            } else {
                Err(pos)
            }
        },
        Token::Close => Err(pos),
        Token::Open => parse_form_exec(t, pos + 1),
    }
}

fn parse_form_exec(t: &Vec<Token>, pos: usize) -> (r: Result<(Expression, usize), usize>)
    requires
        pos <= t@.len(),
    ensures
        parsed(parse_form(toks_view(t@), pos as int), r, pos as int, t@.len() as int),
    decreases t@.len() - pos, 2nat,
{
    if pos >= t.len() {
        return Err(pos);
    }
    match &t[pos] {
        Token::Symbol(s) => {
            let k = keyword_exec(s);
            if k == 1 {
                parse_def_exec(t, pos + 1)
            } else if k == 2 {
                parse_let_exec(t, pos + 1)
            } else if k == 3 {
                parse_if_exec(t, pos + 1)
            } else if is_name_exec(s) {
                match parse_list_exec(t, pos + 1) {
                    Ok((args, q)) => Ok((Expression::Function(s.clone(), args), q)),
                    Err(e) => Err(e),
                }
            } else {
                parse_binary_exec(t, s, pos + 1)
            }
        },
        _ => Err(pos),
    }
}

fn parse_list_exec(t: &Vec<Token>, pos: usize) -> (r: Result<(Vec<Expression>, usize), usize>)
    requires
        pos <= t@.len(),
    ensures
        parsed_list(parse_list(toks_view(t@), pos as int), r, pos as int, t@.len() as int),
    decreases t@.len() - pos, 1nat,
{
    let ghost tv = toks_view(t@);
    let mut out: Vec<Expression> = Vec::new();
    let mut p = pos;
    assert(view_list(out@) =~= Seq::<ExprView>::empty());
    proof {
        match parse_list(tv, pos as int) {
            Ok((es, q)) => {
                assert(view_list(out@) + es =~= es);
            },
            Err(_) => {},
        }
    }
    loop
        invariant
            pos <= p <= t@.len(),
            tv == toks_view(t@),
            parse_list(tv, pos as int) == match parse_list(tv, p as int) {
                Ok((es, q)) => Ok((view_list(out@) + es, q)),
                Err(e) => Err::<(Seq<ExprView>, int), int>(e),
            },
        decreases t@.len() - p,
    {
        if p >= t.len() {
            return Err(p);
        }
        if is_close(t, p) {
            assert(view_list(out@) + seq![] =~= view_list(out@));
            return Ok((out, p + 1));
        }
        match parse_expr_exec(t, p) {
            Err(e) => {
                return Err(e);
            },
            Ok((e, q)) => {
                let ghost ev = view_expr(e);
                let ghost before = view_list(out@);
                let ghost prev = out@;
                out.push(e);
                proof {
                    assert(out@.drop_last() =~= prev);
                    assert(view_list(out@) == before.push(ev));
                    match parse_list(tv, q as int) {
                        Ok((es, q2)) => {
                            assert(before + (seq![ev] + es) =~= before.push(ev) + es);
                        },
                        Err(_) => {},
                    }
                }
                p = q;
            },
        }
    }
}

fn parse_names_exec(t: &Vec<Token>, pos: usize) -> (r: Result<(Vec<String>, usize), usize>)
    requires
        pos <= t@.len(),
    ensures
        match parse_names(toks_view(t@), pos as int) {
            Ok((ns, p)) => r matches Ok((v, q)) && names_view(v@) == ns && q == p && advances(pos as int, p, t@.len() as int),
            Err(i) => r matches Err(j) && j == i,
        },
{
    let ghost tv = toks_view(t@);
    let mut out: Vec<String> = Vec::new();
    let mut p = pos;
    assert(names_view(out@) =~= Seq::<Seq<char>>::empty());
    proof {
        match parse_names(tv, pos as int) {
            Ok((ns, q)) => {
                assert(names_view(out@) + ns =~= ns);
            },
            Err(_) => {},
        }
    }
    loop
        invariant
            pos <= p <= t@.len(),
            tv == toks_view(t@),
            parse_names(tv, pos as int) == match parse_names(tv, p as int) {
                Ok((ns, q)) => Ok((names_view(out@) + ns, q)),
                Err(e) => Err::<(Seq<Seq<char>>, int), int>(e),
            },
        decreases t@.len() - p,
    {
        if p >= t.len() {
            return Err(p);
        }
        match &t[p] {
            Token::Close => {
                assert(names_view(out@) + seq![] =~= names_view(out@));
                return Ok((out, p + 1));
            },
            Token::Symbol(name) => {
                if !is_name_exec(name) {
                    return Err(p);
                }
                let ghost before = names_view(out@);
                out.push(name.clone());
                proof {
                    assert(names_view(out@) =~= before.push(name@));
                    match parse_names(tv, p + 1) {
                        Ok((ns, q2)) => {
                            assert(before + (seq![name@] + ns) =~= before.push(name@) + ns);
                        },
                        Err(_) => {},
                    }
                }
                p = p + 1;
            },
            _ => {
                return Err(p);
            },
        }
    }
}

fn parse_binds_exec(t: &Vec<Token>, pos: usize) -> (r: Result<(Vec<(String, Expression)>, usize), usize>)
    requires
        pos <= t@.len(),
    ensures
        match parse_binds(toks_view(t@), pos as int) {
            Ok((bs, p)) => r matches Ok((v, q)) && binds_view(v@) == bs && q == p && advances(pos as int, p, t@.len() as int),
            Err(i) => r matches Err(j) && j == i,
        },
    decreases t@.len() - pos, 1nat,
{
    let ghost tv = toks_view(t@);
    let mut out: Vec<(String, Expression)> = Vec::new();
    let mut p = pos;
    assert(binds_view(out@) =~= Seq::<(Seq<char>, ExprView)>::empty());
    proof {
        match parse_binds(tv, pos as int) {
            Ok((bs, q)) => {
                assert(binds_view(out@) + bs =~= bs);
            },
            Err(_) => {},
        }
    }
    loop
        invariant
            pos <= p <= t@.len(),
            tv == toks_view(t@),
            parse_binds(tv, pos as int) == match parse_binds(tv, p as int) {
                Ok((bs, q)) => Ok((binds_view(out@) + bs, q)),
                Err(e) => Err::<(Seq<(Seq<char>, ExprView)>, int), int>(e),
            },
        decreases t@.len() - p,
    {
        if p >= t.len() {
            return Err(p);
        }
        if is_close(t, p) {
            assert(binds_view(out@) + seq![] =~= binds_view(out@));
            return Ok((out, p + 1));
        }
        if !is_open(t, p) {
            return Err(p);
        }
        if p + 1 >= t.len() {
            return Err(p + 1);
        }
        match &t[p + 1] {
            Token::Symbol(name) => {
                if !is_name_exec(name) {
                    return Err(p + 1);
                }
                match parse_expr_exec(t, p + 2) {
                    Err(e) => {
                        return Err(e);
                    },
                    Ok((e, q)) => {
                        if q >= t.len() || !is_close(t, q) {
                            return Err(q);
                        }
                        let ghost before = binds_view(out@);
                        let ghost item = (name@, view_expr(e));
                        let ghost prev = out@;
                        out.push((name.clone(), e));
                        proof {
                            assert(out@.drop_last() =~= prev);
                            assert(binds_view(out@) == before.push(item));
                            match parse_binds(tv, q + 1) {
                                Ok((bs, q2)) => {
                                    assert(before + (seq![item] + bs) =~= before.push(item) + bs);
                                },
                                Err(_) => {},
                            }
                        }
                        p = q + 1;
                    },
                }
            },
            _ => {
                return Err(p + 1);
            },
        }
    }
}

fn parse_def_exec(t: &Vec<Token>, pos: usize) -> (r: Result<(Expression, usize), usize>)
    requires
        pos <= t@.len(),
    ensures
        parsed(parse_def(toks_view(t@), pos as int), r, pos as int, t@.len() as int),
    decreases t@.len() - pos, 2nat,
{
    if pos >= t.len() {
        return Err(pos);
    }
    match &t[pos] {
        Token::Symbol(name) => {
            if !is_name_exec(name) {
                return Err(pos);
            }
            if t.len() - pos < 2 || !is_open(t, pos + 1) {
                return Err(pos + 1);
            }
            match parse_names_exec(t, pos + 2) {
                Err(e) => Err(e),
                Ok((ps, p)) => match parse_list_exec(t, p) {
                    Err(e) => Err(e),
                    Ok((body, q)) => Ok((Expression::FunctionDefinition(name.clone(), ps, body), q)),
                },
            }
        },
        _ => Err(pos),
    }
}

fn parse_let_exec(t: &Vec<Token>, pos: usize) -> (r: Result<(Expression, usize), usize>)
    requires
        pos <= t@.len(),
    ensures
        parsed(parse_let(toks_view(t@), pos as int), r, pos as int, t@.len() as int),
    decreases t@.len() - pos, 2nat,
{
    if pos >= t.len() || !is_open(t, pos) {
        return Err(pos);
    }
    match parse_binds_exec(t, pos + 1) {
        Err(e) => Err(e),
        Ok((bs, p)) => match parse_list_exec(t, p) {
            Err(e) => Err(e),
            Ok((body, q)) => Ok((Expression::VariableAssignment(bs, body), q)),
        },
    }
}

fn parse_if_exec(t: &Vec<Token>, pos: usize) -> (r: Result<(Expression, usize), usize>)
    requires
        pos <= t@.len(),
    ensures
        parsed(parse_if(toks_view(t@), pos as int), r, pos as int, t@.len() as int),
    decreases t@.len() - pos, 2nat,
{
    match parse_expr_exec(t, pos) {
        Err(e) => Err(e),
        Ok((c, p)) => {
            if p >= t.len() || !is_open(t, p) {
                return Err(p);
            }
            match parse_list_exec(t, p + 1) {
                Err(e) => Err(e),
                Ok((th, q_then)) => {
                    if q_then >= t.len() || !is_open(t, q_then) {
                        return Err(q_then);
                    }
                    match parse_list_exec(t, q_then + 1) {
                        Err(e) => Err(e),
                        Ok((el, q_else)) => {
                            if q_else >= t.len() || !is_close(t, q_else) {
                                return Err(q_else);
                            }
                            Ok((Expression::Conditional(Box::new(c), th, el), q_else + 1))
                        },
                    }
                },
            }
        },
    }
}

fn parse_binary_exec(t: &Vec<Token>, op: &String, pos: usize) -> (r: Result<(Expression, usize), usize>)
    requires
        pos <= t@.len(),
    ensures
        parsed(parse_binary(toks_view(t@), op@, pos as int), r, pos as int, t@.len() as int),
    decreases t@.len() - pos, 2nat,
{
    match parse_expr_exec(t, pos) {
        Err(e) => Err(e),
        Ok((l, p)) => match parse_expr_exec(t, p) {
            Err(e) => Err(e),
            Ok((r, q)) => {
                if q >= t.len() || !is_close(t, q) {
                    return Err(q);
                }
                Ok((Expression::BinaryOp(op.clone(), Box::new(l), Box::new(r)), q + 1))
            },
        },
    }
}

/// Parses a whole source text into expression trees (see `program_spec`); an error carries
/// the character position at which the text stops following the grammar.
pub fn parse_expressions(program: &str) -> (r: Result<Vec<Expression>, CompileError>)
    ensures
        match program_spec(program@) {
            Ok(vs) => r matches Ok(es) && view_list(es@) == vs,
            Err(p) => r matches Err(CompileError::Parse(q)) && q == p,
        },
{
    let (t, starts) = match tokenize(program) {
        Ok(ts) => ts,
        Err(p) => {
            return Err(CompileError::Parse(p));
        },
    };
    let ghost tv = toks_view(t@);
    let ghost sv = positions(starts@);
    let n = program.unicode_len();
    let mut out: Vec<Expression> = Vec::new();
    let mut p: usize = 0;
    assert(view_list(out@) =~= Seq::<ExprView>::empty());
    proof {
        match parse_top(tv, 0) {
            Ok(es) => {
                assert(seq![] + es =~= es);
            },
            Err(_) => {},
        }
    }
    while p < t.len()
        invariant
            p <= t@.len(),
            tv == toks_view(t@),
            sv == positions(starts@),
            n == program@.len(),
            tokens_of(program@) == Ok::<(Seq<Tok>, Seq<int>), int>((tv, sv)),
            parse_top(tv, 0) == match parse_top(tv, p as int) {
                Ok(es) => Ok(view_list(out@) + es),
                Err(e) => Err::<Seq<ExprView>, int>(e),
            },
        decreases t@.len() - p,
    {
        match parse_expr_exec(&t, p) {
            Err(i) => {
                let at = if i < starts.len() { starts[i] } else { n };
                return Err(CompileError::Parse(at));
            },
            Ok((e, q)) => {
                let ghost before = view_list(out@);
                let ghost ev = view_expr(e);
                let ghost prev = out@;
                out.push(e);
                proof {
                    assert(out@.drop_last() =~= prev);
                    assert(view_list(out@) == before.push(ev));
                    match parse_top(tv, q as int) {
                        Ok(es) => {
                            assert(before + (seq![ev] + es) =~= before.push(ev) + es);
                        },
                        Err(_) => {},
                    }
                }
                p = q;
            },
        }
    }
    assert(view_list(out@) + seq![] =~= view_list(out@));
    Ok(out)
}

} // verus!
