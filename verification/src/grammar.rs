//! The template grammar, stated as functions from the source characters and
//! a position to what is read there and where reading stops.
//!
//! Between tokens inside tags, whitespace (space, tab, carriage return, line
//! feed) is skipped. Repetitions stop at the first element that does not
//! read, giving back what that element had read (ordered choice, as in a
//! parsing expression grammar). Every element reads at least one character;
//! the functions check this before they go on, which also bounds their
//! recursion.
//!
//! What is read carries, besides its value and end, the first error found
//! in it: a number that does not fit, or a block shortcode whose closing name
//! differs from its opening name. Such an error does not stop reading; it is
//! reported when the whole file has been read.

use crate::ast::{AddSubOp, CompV, ComparisonOp, ControlV, ExprV, MulDivOp, PartV, PrimV, ProdV, SumV, TopV, UnaryOp, UnaryV};
use vstd::prelude::*;

verus! {

pub open spec fn is_ws(c: char) -> bool {
    c == ' ' || c == '\t' || c == '\n' || c == '\r'
}

pub open spec fn is_digit(c: char) -> bool {
    '0' <= c && c <= '9'
}

pub open spec fn is_ident_start(c: char) -> bool {
    ('a' <= c && c <= 'z') || ('A' <= c && c <= 'Z') || c == '_'
}

pub open spec fn is_ident_char(c: char) -> bool {
    is_ident_start(c) || is_digit(c)
}

/// The first position at or after `p` that does not hold whitespace.
pub open spec fn skip_ws(s: Seq<char>, p: int) -> int
    decreases s.len() - p,
{
    if 0 <= p < s.len() && is_ws(s[p]) {
        skip_ws(s, p + 1)
    } else {
        p
    }
}

/// Whether `e` is a position after `p` within `s`.
pub open spec fn progress(s: Seq<char>, p: int, e: int) -> bool {
    p < e <= s.len()
}

/// Whether `t` stands at `p`.
pub open spec fn at(s: Seq<char>, p: int, t: Seq<char>) -> bool {
    0 <= p && p + t.len() <= s.len() && s.subrange(p, p + t.len()) == t
}

/// The token `t` after optional whitespace: the position just after it.
pub open spec fn tok(s: Seq<char>, p: int, t: Seq<char>) -> Option<int> {
    let q = skip_ws(s, p);
    if at(s, q, t) {
        Some(q + t.len())
    } else {
        None
    }
}

/// The end of the run of identifier characters from `p`.
pub open spec fn ident_end(s: Seq<char>, p: int) -> int
    decreases s.len() - p,
{
    if 0 <= p < s.len() && is_ident_char(s[p]) {
        ident_end(s, p + 1)
    } else {
        p
    }
}

/// The end of the run of digits from `p`.
pub open spec fn digits_end(s: Seq<char>, p: int) -> int
    decreases s.len() - p,
{
    if 0 <= p < s.len() && is_digit(s[p]) {
        digits_end(s, p + 1)
    } else {
        p
    }
}

/// The first position at or after `p` that holds `"`, or the end.
pub open spec fn quote_end(s: Seq<char>, p: int) -> int
    decreases s.len() - p,
{
    if 0 <= p < s.len() && s[p] != '"' {
        quote_end(s, p + 1)
    } else {
        p
    }
}

/// An identifier: a letter or `_`, then letters, digits and `_`.
pub open spec fn ident(s: Seq<char>, p: int) -> Option<(Seq<char>, int)> {
    let q = skip_ws(s, p);
    if 0 <= q < s.len() && is_ident_start(s[q]) {
        let e = ident_end(s, q + 1);
        Some((s.subrange(q, e), e))
    } else {
        None
    }
}

/// A variable: `$` followed at once by an identifier, which is its name.
pub open spec fn variable(s: Seq<char>, p: int) -> Option<(Seq<char>, int)> {
    let q = skip_ws(s, p);
    if 0 <= q && q + 1 < s.len() && s[q] == '$' && is_ident_start(s[q + 1]) {
        let e = ident_end(s, q + 2);
        Some((s.subrange(q + 1, e), e))
    } else {
        None
    }
}

/// A run of decimal digits, as text.
pub open spec fn number_text(s: Seq<char>, p: int) -> Option<(Seq<char>, int)> {
    let q = skip_ws(s, p);
    if 0 <= q < s.len() && is_digit(s[q]) {
        let e = digits_end(s, q + 1);
        Some((s.subrange(q, e), e))
    } else {
        None
    }
}

/// A string literal: the characters between two `"`, with no escapes.
pub open spec fn string_lit(s: Seq<char>, p: int) -> Option<(Seq<char>, int)> {
    let q = skip_ws(s, p);
    if 0 <= q < s.len() && s[q] == '"' {
        let e = quote_end(s, q + 1);
        if e < s.len() {
            Some((s.subrange(q + 1, e), e + 1))
        } else {
            None
        }
    } else {
        None
    }
}

/// The value of a digit.
pub open spec fn digit_value(c: char) -> int {
    (c as int) - ('0' as int)
}

/// The value of a run of decimal digits.
pub open spec fn digits_value(d: Seq<char>) -> int
    decreases d.len(),
{
    if d.len() == 0 {
        0
    } else {
        digits_value(d.drop_last()) * 10 + digit_value(d.last())
    }
}

/// An error found while reading.
pub enum PErr {
    /// A block shortcode closed with another name than its own.
    Inconsistent(Seq<char>),
    /// A number too large for its type.
    BadNumber(Seq<char>),
}

/// What an element reads: its value, the position after it and the first
/// error in it.
pub struct Step<T> {
    pub value: T,
    pub end: int,
    pub err: Option<PErr>,
}

/// The earlier of two errors.
pub open spec fn first_err(a: Option<PErr>, b: Option<PErr>) -> Option<PErr> {
    if a is Some {
        a
    } else {
        b
    }
}

/// A number operand: an `i32`, or an error when it does not fit.
pub open spec fn num_value(d: Seq<char>) -> (i32, Option<PErr>) {
    if digits_value(d) <= i32::MAX {
        (digits_value(d) as i32, None)
    } else {
        (0, Some(PErr::BadNumber(d)))
    }
}

/// A list index: a `usize`, or an error when it does not fit.
pub open spec fn index_value(d: Seq<char>) -> (usize, Option<PErr>) {
    if digits_value(d) <= usize::MAX {
        (digits_value(d) as usize, None)
    } else {
        (0, Some(PErr::BadNumber(d)))
    }
}

/// `this`, `param` or a variable.
pub open spec fn top_level(s: Seq<char>, p: int) -> Option<(TopV, int)> {
    match tok(s, p, seq!['t', 'h', 'i', 's']) {
        Some(q) => Some((TopV::This, q)),
        None => match tok(s, p, seq!['p', 'a', 'r', 'a', 'm']) {
            Some(q) => Some((TopV::Param, q)),
            None => match variable(s, p) {
                Some((n, q)) => Some((TopV::Var(n), q)),
                None => None,
            },
        },
    }
}

/// One field step: `.` then a number or an identifier.
pub open spec fn part(s: Seq<char>, p: int) -> Option<Step<PartV>> {
    match tok(s, p, seq!['.']) {
        Some(q) => match number_text(s, q) {
            Some((d, e)) => Some(
                Step { value: PartV::Index(index_value(d).0), end: e, err: index_value(d).1 },
            ),
            None => match ident(s, q) {
                Some((n, e)) => Some(Step { value: PartV::Name(n), end: e, err: None }),
                None => None,
            },
        },
        None => None,
    }
}

/// Field steps from `p`, after those in `acc`.
pub open spec fn parts(s: Seq<char>, p: int, acc: Seq<PartV>, err: Option<PErr>) -> (Seq<PartV>, int, Option<PErr>)
    decreases s.len() - p,
{
    match part(s, p) {
        Some(x) => if progress(s, p, x.end) {
            parts(s, x.end, acc.push(x.value), first_err(err, x.err))
        } else {
            (acc, p, err)
        },
        None => (acc, p, err),
    }
}

/// A field access: an optional root and at least one step.
pub open spec fn field(s: Seq<char>, p: int) -> Option<Step<PrimV>> {
    let (top, q) = match top_level(s, p) {
        Some((t, q)) => (Some(t), q),
        None => (None, p),
    };
    let (ps, e, er) = parts(s, q, Seq::empty(), None);
    if ps.len() > 0 {
        Some(Step { value: PrimV::Field(top, ps), end: e, err: er })
    } else {
        None
    }
}

/// `#t` or `#f`.
pub open spec fn boolean(s: Seq<char>, p: int) -> Option<(bool, int)> {
    match tok(s, p, seq!['#', 't']) {
        Some(q) => Some((true, q)),
        None => match tok(s, p, seq!['#', 'f']) {
            Some(q) => Some((false, q)),
            None => None,
        },
    }
}

pub open spec fn unary_op(s: Seq<char>, p: int) -> Option<(UnaryOp, int)> {
    match tok(s, p, seq!['!']) {
        Some(q) => Some((UnaryOp::Not, q)),
        None => match tok(s, p, seq!['+']) {
            Some(q) => Some((UnaryOp::Positive, q)),
            None => match tok(s, p, seq!['-']) {
                Some(q) => Some((UnaryOp::Negative, q)),
                None => None,
            },
        },
    }
}

pub open spec fn mul_op(s: Seq<char>, p: int) -> Option<(MulDivOp, int)> {
    match tok(s, p, seq!['*']) {
        Some(q) => Some((MulDivOp::Multiply, q)),
        None => match tok(s, p, seq!['/']) {
            Some(q) => Some((MulDivOp::Divide, q)),
            None => match tok(s, p, seq!['%']) {
                Some(q) => Some((MulDivOp::Modulo, q)),
                None => None,
            },
        },
    }
}

pub open spec fn add_op(s: Seq<char>, p: int) -> Option<(AddSubOp, int)> {
    match tok(s, p, seq!['+']) {
        Some(q) => Some((AddSubOp::Add, q)),
        None => match tok(s, p, seq!['-']) {
            Some(q) => Some((AddSubOp::Subtract, q)),
            None => None,
        },
    }
}

pub open spec fn comp_op(s: Seq<char>, p: int) -> Option<(ComparisonOp, int)> {
    match tok(s, p, seq!['=', '=']) {
        Some(q) => Some((ComparisonOp::Equal, q)),
        None => match tok(s, p, seq!['!', '=']) {
            Some(q) => Some((ComparisonOp::NotEqual, q)),
            None => match tok(s, p, seq!['>', '=']) {
                Some(q) => Some((ComparisonOp::GreaterEqual, q)),
                None => match tok(s, p, seq!['<', '=']) {
                    Some(q) => Some((ComparisonOp::LessEqual, q)),
                    None => match tok(s, p, seq!['>']) {
                        Some(q) => Some((ComparisonOp::Greater, q)),
                        None => match tok(s, p, seq!['<']) {
                            Some(q) => Some((ComparisonOp::Less, q)),
                            None => None,
                        },
                    },
                },
            },
        },
    }
}

/// The expression made of a single operand.
pub open spec fn single_expr(u: UnaryV) -> ExprV {
    ExprV {
        ors: seq![
            seq![
                CompV {
                    left: SumV { left: ProdV { left: u, rights: Seq::empty() }, rights: Seq::empty() },
                    right: None,
                },
            ],
        ],
    }
}

/// An operand under a prefix operator: a plain operand stays as it is, an
/// operand with its own operator is parenthesized.
pub open spec fn nest(u: UnaryV) -> PrimV {
    match u {
        UnaryV::Prim(p) => p,
        UnaryV::Op(_, _) => PrimV::Paren(single_expr(u)),
    }
}

/// A root, a number, a string or a boolean, tried in this order.
pub open spec fn atom(s: Seq<char>, p: int) -> Option<Step<PrimV>> {
    match top_level(s, p) {
        Some((t, q)) => Some(Step { value: PrimV::Top(t), end: q, err: None }),
        None => match number_text(s, p) {
            Some((d, q)) => Some(Step { value: PrimV::Num(num_value(d).0), end: q, err: num_value(d).1 }),
            None => match string_lit(s, p) {
                Some((t, q)) => Some(Step { value: PrimV::Str(t), end: q, err: None }),
                None => match boolean(s, p) {
                    Some((b, q)) => Some(Step { value: PrimV::Bool(b), end: q, err: None }),
                    None => None,
                },
            },
        },
    }
}

/// A parenthesized expression.
pub open spec fn paren(s: Seq<char>, p: int) -> Option<Step<PrimV>>
    decreases s.len() - p, 1int,
{
    match tok(s, p, seq!['(']) {
        Some(q) => if progress(s, p, q) {
            match or_expr(s, q) {
                Some(x) => match tok(s, x.end, seq![')']) {
                    Some(e) => Some(Step { value: PrimV::Paren(x.value), end: e, err: x.err }),
                    None => None,
                },
                None => None,
            }
        } else {
            None
        },
        None => None,
    }
}

/// A primary: a field access, an atom or a parenthesized expression, tried
/// in this order.
pub open spec fn primary(s: Seq<char>, p: int) -> Option<Step<PrimV>>
    decreases s.len() - p, 2int,
{
    match field(s, p) {
        Some(f) => Some(f),
        None => match atom(s, p) {
            Some(a) => Some(a),
            None => paren(s, p),
        },
    }
}

/// An operand with optional prefix operators.
pub open spec fn unary(s: Seq<char>, p: int) -> Option<Step<UnaryV>>
    decreases s.len() - p, 3int,
{
    match unary_op(s, p) {
        Some((op, q)) => if progress(s, p, q) {
            match unary(s, q) {
                Some(x) => Some(Step { value: UnaryV::Op(op, nest(x.value)), end: x.end, err: x.err }),
                None => None,
            }
        } else {
            None
        },
        None => match primary(s, p) {
            Some(x) => Some(Step { value: UnaryV::Prim(x.value), end: x.end, err: x.err }),
            None => None,
        },
    }
}

/// Further factors of a product, after those in `acc`.
pub open spec fn prod_rest(s: Seq<char>, q: int, acc: Seq<(MulDivOp, UnaryV)>, err: Option<PErr>) -> (
    Seq<(MulDivOp, UnaryV)>,
    int,
    Option<PErr>,
)
    decreases s.len() - q, 0int,
{
    match mul_op(s, q) {
        Some((op, q1)) => if progress(s, q, q1) {
            match unary(s, q1) {
                Some(x) => if progress(s, q, x.end) {
                    prod_rest(s, x.end, acc.push((op, x.value)), first_err(err, x.err))
                } else {
                    (acc, q, err)
                },
                None => (acc, q, err),
            }
        } else {
            (acc, q, err)
        },
        None => (acc, q, err),
    }
}

/// Factors joined by `*`, `/` and `%`.
pub open spec fn prod(s: Seq<char>, p: int) -> Option<Step<ProdV>>
    decreases s.len() - p, 4int,
{
    match unary(s, p) {
        Some(u) => if progress(s, p, u.end) {
            let (rs, e, er) = prod_rest(s, u.end, Seq::empty(), u.err);
            Some(Step { value: ProdV { left: u.value, rights: rs }, end: e, err: er })
        } else {
            None
        },
        None => None,
    }
}

/// Further terms of a sum, after those in `acc`.
pub open spec fn sum_rest(s: Seq<char>, q: int, acc: Seq<(AddSubOp, ProdV)>, err: Option<PErr>) -> (
    Seq<(AddSubOp, ProdV)>,
    int,
    Option<PErr>,
)
    decreases s.len() - q, 0int,
{
    match add_op(s, q) {
        Some((op, q1)) => if progress(s, q, q1) {
            match prod(s, q1) {
                Some(x) => if progress(s, q, x.end) {
                    sum_rest(s, x.end, acc.push((op, x.value)), first_err(err, x.err))
                } else {
                    (acc, q, err)
                },
                None => (acc, q, err),
            }
        } else {
            (acc, q, err)
        },
        None => (acc, q, err),
    }
}

/// Terms joined by `+` and `-`.
pub open spec fn sum(s: Seq<char>, p: int) -> Option<Step<SumV>>
    decreases s.len() - p, 5int,
{
    match prod(s, p) {
        Some(u) => if progress(s, p, u.end) {
            let (rs, e, er) = sum_rest(s, u.end, Seq::empty(), u.err);
            Some(Step { value: SumV { left: u.value, rights: rs }, end: e, err: er })
        } else {
            None
        },
        None => None,
    }
}

/// A sum, optionally compared with another.
pub open spec fn comparison(s: Seq<char>, p: int) -> Option<Step<CompV>>
    decreases s.len() - p, 6int,
{
    match sum(s, p) {
        Some(l) => if progress(s, p, l.end) {
            match comp_op(s, l.end) {
                Some((op, q)) => if progress(s, p, q) {
                    match sum(s, q) {
                        Some(r) => Some(
                            Step {
                                value: CompV { left: l.value, right: Some((op, r.value)) },
                                end: r.end,
                                err: first_err(l.err, r.err),
                            },
                        ),
                        None => Some(Step { value: CompV { left: l.value, right: None }, end: l.end, err: l.err }),
                    }
                } else {
                    None
                },
                None => Some(Step { value: CompV { left: l.value, right: None }, end: l.end, err: l.err }),
            }
        } else {
            None
        },
        None => None,
    }
}

/// Further comparisons of a conjunction, after those in `acc`.
pub open spec fn and_rest(s: Seq<char>, q: int, acc: Seq<CompV>, err: Option<PErr>) -> (Seq<CompV>, int, Option<PErr>)
    decreases s.len() - q, 0int,
{
    match tok(s, q, seq!['&', '&']) {
        Some(q1) => if progress(s, q, q1) {
            match comparison(s, q1) {
                Some(x) => if progress(s, q, x.end) {
                    and_rest(s, x.end, acc.push(x.value), first_err(err, x.err))
                } else {
                    (acc, q, err)
                },
                None => (acc, q, err),
            }
        } else {
            (acc, q, err)
        },
        None => (acc, q, err),
    }
}

/// Comparisons joined by `&&`.
pub open spec fn and_expr(s: Seq<char>, p: int) -> Option<Step<Seq<CompV>>>
    decreases s.len() - p, 7int,
{
    match comparison(s, p) {
        Some(c) => if progress(s, p, c.end) {
            let (cs, e, er) = and_rest(s, c.end, seq![c.value], c.err);
            Some(Step { value: cs, end: e, err: er })
        } else {
            None
        },
        None => None,
    }
}

/// Further alternatives of a disjunction, after those in `acc`.
pub open spec fn or_rest(s: Seq<char>, q: int, acc: Seq<Seq<CompV>>, err: Option<PErr>) -> (
    Seq<Seq<CompV>>,
    int,
    Option<PErr>,
)
    decreases s.len() - q, 0int,
{
    match tok(s, q, seq!['|', '|']) {
        Some(q1) => if progress(s, q, q1) {
            match and_expr(s, q1) {
                Some(x) => if progress(s, q, x.end) {
                    or_rest(s, x.end, acc.push(x.value), first_err(err, x.err))
                } else {
                    (acc, q, err)
                },
                None => (acc, q, err),
            }
        } else {
            (acc, q, err)
        },
        None => (acc, q, err),
    }
}

/// An expression: conjunctions joined by `||`.
pub open spec fn or_expr(s: Seq<char>, p: int) -> Option<Step<ExprV>>
    decreases s.len() - p, 8int,
{
    match and_expr(s, p) {
        Some(a) => if progress(s, p, a.end) {
            let (os, e, er) = or_rest(s, a.end, seq![a.value], a.err);
            Some(Step { value: ExprV { ors: os }, end: e, err: er })
        } else {
            None
        },
        None => None,
    }
}

/// Expressions one after the other, after those in `acc`.
pub open spec fn exprs(s: Seq<char>, p: int, acc: Seq<ExprV>, err: Option<PErr>) -> (Seq<ExprV>, int, Option<PErr>)
    decreases s.len() - p,
{
    match or_expr(s, p) {
        Some(x) => if progress(s, p, x.end) {
            exprs(s, x.end, acc.push(x.value), first_err(err, x.err))
        } else {
            (acc, p, err)
        },
        None => (acc, p, err),
    }
}

// ---------------------------------------------------------------------
// Templates
// ---------------------------------------------------------------------

/// Whether a tag opens at `p`: `{<`, `{-` or `{:`.
pub open spec fn opener_at(s: Seq<char>, p: int) -> bool {
    0 <= p && p + 1 < s.len() && s[p] == '{' && (s[p + 1] == '<' || s[p + 1] == '-' || s[p + 1] == ':')
}

/// Whether `p` holds a character of text: not whitespace, and no tag opens there.
pub open spec fn word_char(s: Seq<char>, p: int) -> bool {
    0 <= p < s.len() && !is_ws(s[p]) && !opener_at(s, p)
}

/// The end of the word of text from `p`.
pub open spec fn word_end(s: Seq<char>, p: int) -> int
    decreases s.len() - p,
{
    if word_char(s, p) {
        word_end(s, p + 1)
    } else {
        p
    }
}

/// The end of a text from `p`: words separated by whitespace, without the
/// whitespace after the last word.
pub open spec fn text_end(s: Seq<char>, p: int) -> int
    decreases s.len() - p,
{
    let e = word_end(s, p);
    let w = skip_ws(s, e);
    if progress(s, p, e) && progress(s, e, w) && word_char(s, w) {
        text_end(s, w)
    } else {
        e
    }
}

/// The closing tag `{- end -}`.
pub open spec fn end_tag(s: Seq<char>, p: int) -> Option<int> {
    match tok(s, p, seq!['{', '-']) {
        Some(q1) => match tok(s, q1, seq!['e', 'n', 'd']) {
            Some(q2) => tok(s, q2, seq!['-', '}']),
            None => None,
        },
        None => None,
    }
}

/// The tag `{- else -}`.
pub open spec fn else_tag(s: Seq<char>, p: int) -> Option<int> {
    match tok(s, p, seq!['{', '-']) {
        Some(q1) => match tok(s, q1, seq!['e', 'l', 's', 'e']) {
            Some(q2) => tok(s, q2, seq!['-', '}']),
            None => None,
        },
        None => None,
    }
}

/// The opening of a command: `{-` and its keyword.
pub open spec fn command_open(s: Seq<char>, p: int, kw: Seq<char>) -> Option<int> {
    match tok(s, p, seq!['{', '-']) {
        Some(q1) => tok(s, q1, kw),
        None => None,
    }
}

/// Controls from `p`, after those in `acc`, as far as they read.
pub open spec fn template(s: Seq<char>, p: int, acc: Seq<ControlV>, err: Option<PErr>) -> (
    Seq<ControlV>,
    int,
    Option<PErr>,
)
    decreases s.len() - p, 2int,
{
    match control(s, p) {
        Some(c) => if progress(s, p, c.end) {
            template(s, c.end, acc.push(c.value), first_err(err, c.err))
        } else {
            (acc, p, err)
        },
        None => (acc, p, err),
    }
}

/// A control: text, a shortcode, a command or a substitution.
pub open spec fn control(s: Seq<char>, p: int) -> Option<Step<ControlV>>
    decreases s.len() - p, 1int,
{
    let q = skip_ws(s, p);
    if word_char(s, q) {
        Some(Step { value: ControlV::Text(s.subrange(q, text_end(s, q))), end: text_end(s, q), err: None })
    } else {
        match shortcode(s, p) {
            Some(x) => Some(x),
            None => match set_cmd(s, p) {
                Some(x) => Some(x),
                None => match for_cmd(s, p) {
                    Some(x) => Some(x),
                    None => match with_cmd(s, p) {
                        Some(x) => Some(x),
                        None => match if_cmd(s, p) {
                            Some(x) => Some(x),
                            None => match include_cmd(s, p) {
                                Some(x) => Some(x),
                                None => substitution(s, p),
                            },
                        },
                    },
                },
            },
        }
    }
}

/// `{< name args />}`, or `{< name args >}` template `{</ name >}`.
pub open spec fn shortcode(s: Seq<char>, p: int) -> Option<Step<ControlV>>
    decreases s.len() - p, 0int,
{
    match tok(s, p, seq!['{', '<']) {
        Some(q1) => match ident(s, q1) {
            Some((name, q2)) => {
                let (ps, q3, e1) = exprs(s, q2, Seq::empty(), None);
                match tok(s, q3, seq!['/', '>', '}']) {
                    Some(q4) => Some(Step { value: ControlV::Single(name, ps), end: q4, err: e1 }),
                    None => match tok(s, q3, seq!['>', '}']) {
                        Some(q4) => if progress(s, p, q4) {
                            let (inner, q5, e2) = template(s, q4, Seq::empty(), None);
                            match tok(s, q5, seq!['{', '<', '/']) {
                                Some(q6) => match ident(s, q6) {
                                    Some((end_name, q7)) => match tok(s, q7, seq!['>', '}']) {
                                        Some(q8) => Some(
                                            Step {
                                                value: ControlV::Block(name, ps, inner),
                                                end: q8,
                                                err: first_err(
                                                    first_err(e1, e2),
                                                    if name != end_name {
                                                        Some(PErr::Inconsistent(name))
                                                    } else {
                                                        None
                                                    },
                                                ),
                                            },
                                        ),
                                        None => None,
                                    },
                                    None => None,
                                },
                                None => None,
                            }
                        } else {
                            None
                        },
                        None => None,
                    },
                }
            },
            None => None,
        },
        None => None,
    }
}

/// `{- set $name = expression -}`
pub open spec fn set_cmd(s: Seq<char>, p: int) -> Option<Step<ControlV>>
    decreases s.len() - p, 0int,
{
    match command_open(s, p, seq!['s', 'e', 't']) {
        Some(q1) => match variable(s, q1) {
            Some((name, q2)) => match tok(s, q2, seq!['=']) {
                Some(q3) => match or_expr(s, q3) {
                    Some(x) => match tok(s, x.end, seq!['-', '}']) {
                        Some(q4) => Some(Step { value: ControlV::Assign(name, x.value), end: q4, err: x.err }),
                        None => None,
                    },
                    None => None,
                },
                None => None,
            },
            None => None,
        },
        None => None,
    }
}

/// The index variable of a loop: `, $name`.
pub open spec fn index_var(s: Seq<char>, p: int) -> Option<(Seq<char>, int)> {
    match tok(s, p, seq![',']) {
        Some(q) => variable(s, q),
        None => None,
    }
}

/// `{- for $item, $index : expression -}` template `{- end -}`; the index
/// variable is optional.
pub open spec fn for_cmd(s: Seq<char>, p: int) -> Option<Step<ControlV>>
    decreases s.len() - p, 0int,
{
    match command_open(s, p, seq!['f', 'o', 'r']) {
        Some(q1) => match variable(s, q1) {
            Some((item, q2)) => {
                let (index, q3) = match index_var(s, q2) {
                    Some((n, q)) => (Some(n), q),
                    None => (None, q2),
                };
                match tok(s, q3, seq![':']) {
                    Some(q4) => match or_expr(s, q4) {
                        Some(x) => match tok(s, x.end, seq!['-', '}']) {
                            Some(q5) => if progress(s, p, q5) {
                                let (inner, q6, e2) = template(s, q5, Seq::empty(), None);
                                match end_tag(s, q6) {
                                    Some(q7) => Some(
                                        Step {
                                            value: ControlV::For(item, index, x.value, inner),
                                            end: q7,
                                            err: first_err(x.err, e2),
                                        },
                                    ),
                                    None => None,
                                }
                            } else {
                                None
                            },
                            None => None,
                        },
                        None => None,
                    },
                    None => None,
                }
            },
            None => None,
        },
        None => None,
    }
}

/// `{- with expression -}` template `{- end -}`
pub open spec fn with_cmd(s: Seq<char>, p: int) -> Option<Step<ControlV>>
    decreases s.len() - p, 0int,
{
    match command_open(s, p, seq!['w', 'i', 't', 'h']) {
        Some(q1) => match or_expr(s, q1) {
            Some(x) => match tok(s, x.end, seq!['-', '}']) {
                Some(q2) => if progress(s, p, q2) {
                    let (inner, q3, e2) = template(s, q2, Seq::empty(), None);
                    match end_tag(s, q3) {
                        Some(q4) => Some(
                            Step { value: ControlV::With(x.value, inner), end: q4, err: first_err(x.err, e2) },
                        ),
                        None => None,
                    }
                } else {
                    None
                },
                None => None,
            },
            None => None,
        },
        None => None,
    }
}

/// `{- if expression -}` template, optionally `{- else -}` template, then
/// `{- end -}`.
pub open spec fn if_cmd(s: Seq<char>, p: int) -> Option<Step<ControlV>>
    decreases s.len() - p, 0int,
{
    match command_open(s, p, seq!['i', 'f']) {
        Some(q1) => match or_expr(s, q1) {
            Some(x) => match tok(s, x.end, seq!['-', '}']) {
                Some(q2) => if progress(s, p, q2) {
                    let (inner, q3, e2) = template(s, q2, Seq::empty(), None);
                    match else_tag(s, q3) {
                        Some(q4) => if progress(s, p, q4) {
                            let (other, q5, e3) = template(s, q4, Seq::empty(), None);
                            match end_tag(s, q5) {
                                Some(q6) => Some(
                                    Step {
                                        value: ControlV::If(x.value, inner, Some(other)),
                                        end: q6,
                                        err: first_err(first_err(x.err, e2), e3),
                                    },
                                ),
                                None => None,
                            }
                        } else {
                            None
                        },
                        None => match end_tag(s, q3) {
                            Some(q4) => Some(
                                Step {
                                    value: ControlV::If(x.value, inner, None),
                                    end: q4,
                                    err: first_err(x.err, e2),
                                },
                            ),
                            None => None,
                        },
                    }
                } else {
                    None
                },
                None => None,
            },
            None => None,
        },
        None => None,
    }
}

/// `{- include "path" arguments -}`
pub open spec fn include_cmd(s: Seq<char>, p: int) -> Option<Step<ControlV>>
    decreases s.len() - p, 0int,
{
    match command_open(s, p, seq!['i', 'n', 'c', 'l', 'u', 'd', 'e']) {
        Some(q1) => match string_lit(s, q1) {
            Some((path, q2)) => {
                let (ps, q3, e1) = exprs(s, q2, Seq::empty(), None);
                match tok(s, q3, seq!['-', '}']) {
                    Some(q4) => Some(Step { value: ControlV::Include(path, ps), end: q4, err: e1 }),
                    None => None,
                }
            },
            None => None,
        },
        None => None,
    }
}

/// `{: expression :}`
pub open spec fn substitution(s: Seq<char>, p: int) -> Option<Step<ControlV>>
    decreases s.len() - p, 0int,
{
    match tok(s, p, seq!['{', ':']) {
        Some(q1) => match or_expr(s, q1) {
            Some(x) => match tok(s, x.end, seq![':', '}']) {
                Some(q2) => Some(Step { value: ControlV::Subst(x.value), end: q2, err: x.err }),
                None => None,
            },
            None => None,
        },
        None => None,
    }
}

/// The outcome of reading a whole file.
pub enum Outcome {
    /// The file reads as these controls.
    Parsed(Seq<ControlV>),
    /// Reading stopped at this position before the end.
    SyntaxAt(int),
    /// The file reads, with this error in it.
    Failed(PErr),
}

/// A whole file: controls up to the end, whitespace aside.
pub open spec fn parse_spec(s: Seq<char>) -> Outcome {
    let (cs, q, err) = template(s, 0, Seq::empty(), None);
    let z = skip_ws(s, q);
    if z < s.len() {
        Outcome::SyntaxAt(z)
    } else {
        match err {
            Some(e) => Outcome::Failed(e),
            None => Outcome::Parsed(cs),
        }
    }
}

// ---------------------------------------------------------------------
// Plain text
// ---------------------------------------------------------------------

/// Skipping whitespace from `p` stops at the first position at or after `p`
/// that is the end or holds no whitespace.
proof fn lemma_skip_ws(s: Seq<char>, p: int)
    requires
        0 <= p <= s.len(),
    ensures
        p <= skip_ws(s, p) <= s.len(),
        forall|k: int| p <= k < skip_ws(s, p) ==> is_ws(#[trigger] s[k]),
        skip_ws(s, p) < s.len() ==> !is_ws(s[skip_ws(s, p)]),
    decreases s.len() - p,
{
    if p < s.len() && is_ws(s[p]) {
        lemma_skip_ws(s, p + 1);
    }
}

/// In a text where no tag opens, a word runs up to the first whitespace or
/// the end.
proof fn lemma_word_end(s: Seq<char>, p: int)
    requires
        0 <= p <= s.len(),
        forall|k: int| !opener_at(s, k),
    ensures
        p <= word_end(s, p) <= s.len(),
        forall|k: int| p <= k < word_end(s, p) ==> !is_ws(#[trigger] s[k]),
        word_end(s, p) < s.len() ==> is_ws(s[word_end(s, p)]),
    decreases s.len() - p,
{
    if word_char(s, p) {
        lemma_word_end(s, p + 1);
    } else if p < s.len() {
        assert(!opener_at(s, p));
    }
}

/// In a text where no tag opens and whose last character that is not
/// whitespace stands before `j`, a text read from a character before `j`
/// that is not whitespace ends at `j`.
proof fn lemma_text_end(s: Seq<char>, p: int, j: int)
    requires
        0 <= p < j <= s.len(),
        !is_ws(s[p]),
        !is_ws(s[j - 1]),
        forall|k: int| j <= k < s.len() ==> is_ws(#[trigger] s[k]),
        forall|k: int| !opener_at(s, k),
    ensures
        text_end(s, p) == j,
    decreases s.len() - p,
{
    lemma_word_end(s, p);
    let e = word_end(s, p);
    assert(word_char(s, p)) by {
        assert(!opener_at(s, p));
    }
    if e < j {
        assert(is_ws(s[e]));
        lemma_skip_ws(s, e);
        let w = skip_ws(s, e);
        if w >= j {
            assert(is_ws(s[j - 1]));
        }
        assert(word_char(s, w)) by {
            assert(!opener_at(s, w));
        }
        lemma_text_end(s, w, j);
    } else {
        if e > j {
            assert(!is_ws(s[j]));
        }
        lemma_skip_ws(s, e);
        assert(skip_ws(s, e) == s.len()) by {
            if skip_ws(s, e) < s.len() {
                assert(is_ws(s[skip_ws(s, e)]));
            }
        }
    }
}

/// A template of plain text, in which no tag opens, reads as a single text
/// holding it without the whitespace before and after it.
pub proof fn law_plain_text(s: Seq<char>, i: int, j: int)
    requires
        0 <= i < j <= s.len(),
        forall|k: int| 0 <= k < i ==> is_ws(#[trigger] s[k]),
        forall|k: int| j <= k < s.len() ==> is_ws(#[trigger] s[k]),
        !is_ws(s[i]),
        !is_ws(s[j - 1]),
        forall|k: int| !opener_at(s, k),
    ensures
        parse_spec(s) == Outcome::Parsed(seq![ControlV::Text(s.subrange(i, j))]),
{
    lemma_skip_ws(s, 0);
    assert(skip_ws(s, 0) == i) by {
        if skip_ws(s, 0) > i {
            assert(is_ws(s[i]));
        }
    }
    assert(word_char(s, i)) by {
        assert(!opener_at(s, i));
    }
    lemma_text_end(s, i, j);
    lemma_skip_ws(s, j);
    assert(skip_ws(s, j) == s.len()) by {
        if skip_ws(s, j) < s.len() {
            assert(is_ws(s[skip_ws(s, j)]));
        }
    }
    let first = control(s, 0);
    assert(first == Some(Step { value: ControlV::Text(s.subrange(i, j)), end: j, err: None }));
    assert(control(s, j) is None);
    let acc = Seq::<ControlV>::empty().push(ControlV::Text(s.subrange(i, j)));
    assert(template(s, j, acc, first_err(None, None)) == (acc, j, None::<PErr>));
    assert(template(s, 0, Seq::empty(), None) == (acc, j, None::<PErr>));
    assert(acc =~= seq![ControlV::Text(s.subrange(i, j))]);
}

} // verus!
