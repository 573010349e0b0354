//! The template parser: it reads source text into a syntax tree exactly as
//! the grammar says.

use crate::ast::{
    AddSub, AddSubOp, And, BlockShortCode, CompV, Command, Comparison, ComparisonOp, Control,
    ControlV, Expression, ExprV, Field, File, ForCommand, GetField, IfCommand, IncludeCommand,
    MulDiv, MulDivOp, Or, PartV, PrimV, Primary, ProdV, SetCommand, ShortCode, SingleShortCode,
    Substitution, SumV, Template, TopLevel, TopV, Unary, UnaryOp, UnaryV, WithCommand,
    ands_view, comps_view, controls_view, exprs_view, parts_view, prod_rights_view,
    sum_rights_view, top_opt_view,
};
use crate::grammar::{
    add_op, and_expr, and_rest, at, atom, boolean, comparison, comp_op, command_open, control, digit_value,
    digits_end, digits_value, else_tag, end_tag, exprs, field, first_err, for_cmd, ident,
    ident_end, if_cmd, include_cmd, index_value, index_var, is_digit, is_ident_char,
    is_ident_start, is_ws, mul_op, nest, num_value, number_text, opener_at, or_expr, or_rest,
    paren, parse_spec, part, parts, primary, prod, prod_rest, progress, quote_end, set_cmd, shortcode,
    single_expr, skip_ws, string_lit, substitution, sum, sum_rest, template, text_end, tok,
    top_level, unary, unary_op, variable, with_cmd, word_char, word_end, Outcome, PErr, Step,
};
use crate::error::CompileError;
use crate::text::{chars_of, str_eq, substring};
use vstd::prelude::*;

verus! {

/// An error found while reading, reported once the whole file has read.
pub enum Bad {
    Inconsistent(String),
    Number(String),
}

pub open spec fn bad_view(e: Option<Bad>) -> Option<PErr> {
    match e {
        Some(Bad::Inconsistent(n)) => Some(PErr::Inconsistent(n@)),
        Some(Bad::Number(d)) => Some(PErr::BadNumber(d@)),
        None => None,
    }
}

/// The earlier of two errors.
fn first_bad(a: Option<Bad>, b: Option<Bad>) -> (r: Option<Bad>)
    ensures
        bad_view(r) == first_err(bad_view(a), bad_view(b)),
{
    match a {
        Some(e) => Some(e),
        None => b,
    }
}

/// What an element read: its value, the position after it and the first
/// error in it.
pub struct Read<T> {
    pub value: T,
    pub end: usize,
    pub err: Option<Bad>,
}

/// A position, as an integer.
pub open spec fn pos_view(o: Option<usize>) -> Option<int> {
    match o {
        Some(q) => Some(q as int),
        None => None,
    }
}

/// A string and a position, as characters and an integer.
pub open spec fn word_view(o: Option<(String, usize)>) -> Option<(Seq<char>, int)> {
    match o {
        Some((w, q)) => Some((w@, q as int)),
        None => None,
    }
}

pub proof fn lemma_skip_ws(s: Seq<char>, p: int)
    ensures
        p <= skip_ws(s, p),
        0 <= p <= s.len() ==> skip_ws(s, p) <= s.len(),
        0 <= p <= s.len() ==> skip_ws(s, p) == s.len() || !is_ws(s[skip_ws(s, p)]),
    decreases s.len() - p,
{
    if 0 <= p < s.len() && is_ws(s[p]) {
        lemma_skip_ws(s, p + 1);
    }
}

fn is_ws_x(c: char) -> (r: bool)
    ensures
        r == is_ws(c),
{
    c == ' ' || c == '\t' || c == '\n' || c == '\r'
}

fn is_digit_x(c: char) -> (r: bool)
    ensures
        r == is_digit(c),
{
    '0' <= c && c <= '9'
}

fn is_ident_start_x(c: char) -> (r: bool)
    ensures
        r == is_ident_start(c),
{
    ('a' <= c && c <= 'z') || ('A' <= c && c <= 'Z') || c == '_'
}

fn is_ident_char_x(c: char) -> (r: bool)
    ensures
        r == is_ident_char(c),
{
    is_ident_start_x(c) || is_digit_x(c)
}

fn skip_ws_x(s: &Vec<char>, p: usize) -> (r: usize)
    requires
        p <= s@.len(),
    ensures
        r == skip_ws(s@, p as int),
        p <= r <= s@.len(),
{
    let mut q = p;
    while q < s.len() && is_ws_x(s[q])
        invariant
            p <= q <= s@.len(),
            skip_ws(s@, p as int) == skip_ws(s@, q as int),
        decreases s@.len() - q,
    {
        q += 1;
    }
    q
}

/// Whether the characters `t` stand at `q`.
fn at_x(s: &Vec<char>, q: usize, t: &[char]) -> (r: bool)
    ensures
        r == at(s@, q as int, t@),
{
    if q > s.len() || t.len() > s.len() - q {
        return false;
    }
    let mut k: usize = 0;
    while k < t.len()
        invariant
            q + t@.len() <= s@.len() <= usize::MAX,
            k <= t@.len(),
            forall|j: int| 0 <= j < k ==> s@[q + j] == t@[j],
        decreases t.len() - k,
    {
        if s[q + k] != t[k] {
            assert(s@.subrange(q as int, q + t@.len())[k as int] != t@[k as int]);
            return false;
        }
        k += 1;
    }
    assert(s@.subrange(q as int, q + t@.len()) =~= t@);
    true
}

/// The token `t` after optional whitespace.
fn tok_x(s: &Vec<char>, p: usize, t: &[char]) -> (r: Option<usize>)
    requires
        p <= s@.len(),
    ensures
        pos_view(r) == tok(s@, p as int, t@),
        r matches Some(q) ==> p + t@.len() <= q <= s@.len(),
{
    let q = skip_ws_x(s, p);
    let n = s.len();
    if at_x(s, q, t) {
        assert(q + t@.len() <= n);
        Some(q + t.len())
    } else {
        None
    }
}

fn tok1(s: &Vec<char>, p: usize, a: char) -> (r: Option<usize>)
    requires
        p <= s@.len(),
    ensures
        pos_view(r) == tok(s@, p as int, seq![a]),
        r matches Some(q) ==> p < q <= s@.len(),
{
    let t = [a];
    assert(t@ =~= seq![a]);
    tok_x(s, p, &t)
}

fn tok2(s: &Vec<char>, p: usize, a: char, b: char) -> (r: Option<usize>)
    requires
        p <= s@.len(),
    ensures
        pos_view(r) == tok(s@, p as int, seq![a, b]),
        r matches Some(q) ==> p < q <= s@.len(),
{
    let t = [a, b];
    assert(t@ =~= seq![a, b]);
    tok_x(s, p, &t)
}

fn tok3(s: &Vec<char>, p: usize, a: char, b: char, c: char) -> (r: Option<usize>)
    requires
        p <= s@.len(),
    ensures
        pos_view(r) == tok(s@, p as int, seq![a, b, c]),
        r matches Some(q) ==> p < q <= s@.len(),
{
    let t = [a, b, c];
    assert(t@ =~= seq![a, b, c]);
    tok_x(s, p, &t)
}

fn tok4(s: &Vec<char>, p: usize, a: char, b: char, c: char, d: char) -> (r: Option<usize>)
    requires
        p <= s@.len(),
    ensures
        pos_view(r) == tok(s@, p as int, seq![a, b, c, d]),
        r matches Some(q) ==> p < q <= s@.len(),
{
    let t = [a, b, c, d];
    assert(t@ =~= seq![a, b, c, d]);
    tok_x(s, p, &t)
}

fn tok5(s: &Vec<char>, p: usize, a: char, b: char, c: char, d: char, e: char) -> (r: Option<usize>)
    requires
        p <= s@.len(),
    ensures
        pos_view(r) == tok(s@, p as int, seq![a, b, c, d, e]),
        r matches Some(q) ==> p < q <= s@.len(),
{
    let t = [a, b, c, d, e];
    assert(t@ =~= seq![a, b, c, d, e]);
    tok_x(s, p, &t)
}

/// The keyword `include`.
fn tok_include(s: &Vec<char>, p: usize) -> (r: Option<usize>)
    requires
        p <= s@.len(),
    ensures
        pos_view(r) == tok(s@, p as int, seq!['i', 'n', 'c', 'l', 'u', 'd', 'e']),
        r matches Some(q) ==> p < q <= s@.len(),
{
    let t = ['i', 'n', 'c', 'l', 'u', 'd', 'e'];
    assert(t@ =~= seq!['i', 'n', 'c', 'l', 'u', 'd', 'e']);
    tok_x(s, p, &t)
}

fn ident_end_x(s: &Vec<char>, p: usize) -> (r: usize)
    requires
        p <= s@.len(),
    ensures
        r == ident_end(s@, p as int),
        p <= r <= s@.len(),
{
    let mut q = p;
    while q < s.len() && is_ident_char_x(s[q])
        invariant
            p <= q <= s@.len(),
            ident_end(s@, p as int) == ident_end(s@, q as int),
        decreases s@.len() - q,
    {
        q += 1;
    }
    q
}

fn digits_end_x(s: &Vec<char>, p: usize) -> (r: usize)
    requires
        p <= s@.len(),
    ensures
        r == digits_end(s@, p as int),
        p <= r <= s@.len(),
{
    let mut q = p;
    while q < s.len() && is_digit_x(s[q])
        invariant
            p <= q <= s@.len(),
            digits_end(s@, p as int) == digits_end(s@, q as int),
        decreases s@.len() - q,
    {
        q += 1;
    }
    q
}

fn quote_end_x(s: &Vec<char>, p: usize) -> (r: usize)
    requires
        p <= s@.len(),
    ensures
        r == quote_end(s@, p as int),
        p <= r <= s@.len(),
{
    let mut q = p;
    while q < s.len() && s[q] != '"'
        invariant
            p <= q <= s@.len(),
            quote_end(s@, p as int) == quote_end(s@, q as int),
        decreases s@.len() - q,
    {
        q += 1;
    }
    q
}

fn ident_x(s: &Vec<char>, p: usize) -> (r: Option<(String, usize)>)
    requires
        p <= s@.len(),
    ensures
        word_view(r) == ident(s@, p as int),
        r matches Some((_, q)) ==> p < q <= s@.len(),
{
    let q = skip_ws_x(s, p);
    if q < s.len() && is_ident_start_x(s[q]) {
        let e = ident_end_x(s, q + 1);
        Some((substring(s, q, e), e))
    } else {
        None
    }
}

fn variable_x(s: &Vec<char>, p: usize) -> (r: Option<(String, usize)>)
    requires
        p <= s@.len(),
    ensures
        word_view(r) == variable(s@, p as int),
        r matches Some((_, q)) ==> p < q <= s@.len(),
{
    let q = skip_ws_x(s, p);
    if q < s.len() && s[q] == '$' && q + 1 < s.len() && is_ident_start_x(s[q + 1]) {
        let e = ident_end_x(s, q + 2);
        Some((substring(s, q + 1, e), e))
    } else {
        None
    }
}

fn string_lit_x(s: &Vec<char>, p: usize) -> (r: Option<(String, usize)>)
    requires
        p <= s@.len(),
    ensures
        word_view(r) == string_lit(s@, p as int),
        r matches Some((_, q)) ==> p < q <= s@.len(),
{
    let q = skip_ws_x(s, p);
    if q < s.len() && s[q] == '"' {
        let e = quote_end_x(s, q + 1);
        if e < s.len() {
            Some((substring(s, q + 1, e), e + 1))
        } else {
            None
        }
    } else {
        None
    }
}

/// A run of digits: its characters, its value when that is at most `cap`,
/// and the position after it.
fn number_x(s: &Vec<char>, p: usize, cap: u64) -> (r: Option<(String, Option<u64>, usize)>)
    requires
        p <= s@.len(),
        cap >= 9,
    ensures
        match r {
            Some((d, v, q)) => number_text(s@, p as int) == Some((d@, q as int)) && p < q <= s@.len()
                && match v {
                Some(n) => n == digits_value(d@) && n <= cap,
                None => digits_value(d@) > cap,
            },
            None => number_text(s@, p as int) is None,
        },
{
    let q = skip_ws_x(s, p);
    if q < s.len() && is_digit_x(s[q]) {
        let e = digits_end_x(s, q + 1);
        proof {
            lemma_digits_end(s@, q + 1);
            assert forall|j: int| q <= j < e implies is_digit(#[trigger] s@[j]) by {
                if j > q {
                    assert(q + 1 <= j);
                }
            }
        }
        let mut k = q;
        let mut val: u64 = 0;
        let mut over = false;
        while k < e
            invariant
                q <= k <= e <= s@.len(),
                cap >= 9,
                forall|j: int| q <= j < e ==> is_digit(#[trigger] s@[j]),
                !over ==> val == digits_value(s@.subrange(q as int, k as int)) && val <= cap,
                over ==> digits_value(s@.subrange(q as int, k as int)) > cap,
            decreases e - k,
        {
            let ghost prev = s@.subrange(q as int, k as int);
            assert(s@.subrange(q as int, k + 1).drop_last() =~= prev);
            assert(s@.subrange(q as int, k + 1).last() == s@[k as int]);
            let d: u64 = (s[k] as u64) - ('0' as u64);
            assert(d == digit_value(s@[k as int]));
            assert(d <= 9);
            if !over {
                if val <= (cap - d) / 10 {
                    assert(val * 10 + d <= cap) by (nonlinear_arith)
                        requires
                            val <= (cap - d) / 10,
                            d <= cap,
                    ;
                    val = val * 10 + d;
                } else {
                    assert(val * 10 + d > cap) by (nonlinear_arith)
                        requires
                            val > (cap - d) / 10,
                            d <= cap,
                    ;
                    over = true;
                }
            }
            k += 1;
        }
        let v = if over {
            None
        } else {
            Some(val)
        };
        Some((substring(s, q, e), v, e))
    } else {
        None
    }
}

pub proof fn lemma_digits_end(s: Seq<char>, p: int)
    requires
        0 <= p <= s.len(),
    ensures
        p <= digits_end(s, p) <= s.len(),
        forall|j: int| p <= j < digits_end(s, p) ==> is_digit(#[trigger] s[j]),
    decreases s.len() - p,
{
    if p < s.len() && is_digit(s[p]) {
        lemma_digits_end(s, p + 1);
    }
}


/// What an exec reading and a grammar reading agree on: both fail, or both
/// read the same value to the same end with the same error.
pub open spec fn same_read<T>(end: usize, err: Option<Bad>, v: T, spec: Option<Step<T>>) -> bool {
    spec == Some(Step { value: v, end: end as int, err: bad_view(err) })
}

pub open spec fn read_part(r: Option<Read<GetField>>, spec: Option<Step<PartV>>) -> bool {
    match r {
        Some(x) => same_read(x.end, x.err, x.value.view(), spec),
        None => spec is None,
    }
}

pub open spec fn read_prim(r: Option<Read<Primary>>, spec: Option<Step<PrimV>>) -> bool {
    match r {
        Some(x) => same_read(x.end, x.err, x.value.view(), spec),
        None => spec is None,
    }
}

pub open spec fn read_unary(r: Option<Read<Unary>>, spec: Option<Step<UnaryV>>) -> bool {
    match r {
        Some(x) => same_read(x.end, x.err, x.value.view(), spec),
        None => spec is None,
    }
}

pub open spec fn read_prod(r: Option<Read<MulDiv>>, spec: Option<Step<ProdV>>) -> bool {
    match r {
        Some(x) => same_read(x.end, x.err, x.value.view(), spec),
        None => spec is None,
    }
}

pub open spec fn read_sum(r: Option<Read<AddSub>>, spec: Option<Step<SumV>>) -> bool {
    match r {
        Some(x) => same_read(x.end, x.err, x.value.view(), spec),
        None => spec is None,
    }
}

pub open spec fn read_comparison(r: Option<Read<Comparison>>, spec: Option<Step<CompV>>) -> bool {
    match r {
        Some(x) => same_read(x.end, x.err, x.value.view(), spec),
        None => spec is None,
    }
}

pub open spec fn read_and(r: Option<Read<And>>, spec: Option<Step<Seq<CompV>>>) -> bool {
    match r {
        Some(x) => same_read(x.end, x.err, comps_view(x.value.0@), spec),
        None => spec is None,
    }
}

pub open spec fn read_expr(r: Option<Read<Expression>>, spec: Option<Step<ExprV>>) -> bool {
    match r {
        Some(x) => same_read(x.end, x.err, x.value.view(), spec),
        None => spec is None,
    }
}

fn top_level_x(s: &Vec<char>, p: usize) -> (r: Option<(TopLevel, usize)>)
    requires
        p <= s@.len(),
    ensures
        match r {
            Some((t, q)) => top_level(s@, p as int) == Some((t.view(), q as int)),
            None => top_level(s@, p as int) is None,
        },
        r matches Some((_, q)) ==> p < q <= s@.len(),
{
    match tok4(s, p, 't', 'h', 'i', 's') {
        Some(q) => Some((TopLevel::This, q)),
        None => match tok5(s, p, 'p', 'a', 'r', 'a', 'm') {
            Some(q) => Some((TopLevel::Param, q)),
            None => match variable_x(s, p) {
                Some((n, q)) => Some((TopLevel::Variable(n), q)),
                None => None,
            },
        },
    }
}

fn part_x(s: &Vec<char>, p: usize) -> (r: Option<Read<GetField>>)
    requires
        p <= s@.len(),
    ensures
        read_part(r, part(s@, p as int)),
        r matches Some(x) ==> p < x.end <= s@.len(),
{
    match tok1(s, p, '.') {
        Some(q) => match number_x(s, q, usize::MAX as u64) {
            Some((d, v, e)) => match v {
                Some(n) => {
                    assert(index_value(d@) == (n as usize, None::<PErr>));
                    Some(Read { value: GetField::Index(n as usize), end: e, err: None })
                },
                None => {
                    assert(index_value(d@) == (0usize, Some(PErr::BadNumber(d@))));
                    Some(Read { value: GetField::Index(0), end: e, err: Some(Bad::Number(d)) })
                },
            },
            None => match ident_x(s, q) {
                Some((n, e)) => Some(Read { value: GetField::Name(n), end: e, err: None }),
                None => None,
            },
        },
        None => None,
    }
}

fn parts_x(s: &Vec<char>, p: usize) -> (r: (Vec<GetField>, usize, Option<Bad>))
    requires
        p <= s@.len(),
    ensures
        parts(s@, p as int, Seq::empty(), None) == (parts_view(r.0@), r.1 as int, bad_view(r.2)),
        p <= r.1 <= s@.len(),
        r.0@.len() > 0 ==> p < r.1,
{
    let mut acc: Vec<GetField> = Vec::new();
    let mut q = p;
    let mut err: Option<Bad> = None;
    loop
        invariant
            p <= q <= s@.len(),
            acc@.len() > 0 ==> p < q,
            parts(s@, p as int, Seq::empty(), None) == parts(s@, q as int, parts_view(acc@), bad_view(err)),
        ensures
            parts(s@, p as int, Seq::empty(), None) == (parts_view(acc@), q as int, bad_view(err)),
            p <= q <= s@.len(),
            acc@.len() > 0 ==> p < q,
        decreases s@.len() - q,
    {
        match part_x(s, q) {
            Some(x) => {
                if q < x.end && x.end <= s.len() {
                    let ghost old_acc = acc@;
                    acc.push(x.value);
                    assert(acc@.drop_last() =~= old_acc);
                    err = first_bad(err, x.err);
                    q = x.end;
                } else {
                    break;
                }
            },
            None => break,
        }
    }
    (acc, q, err)
}

fn field_x(s: &Vec<char>, p: usize) -> (r: Option<Read<Primary>>)
    requires
        p <= s@.len(),
    ensures
        read_prim(r, field(s@, p as int)),
        r matches Some(x) ==> p < x.end <= s@.len(),
{
    let (top, q) = match top_level_x(s, p) {
        Some((t, q)) => (Some(t), q),
        None => (None, p),
    };
    let (ps, e, er) = parts_x(s, q);
    if ps.len() > 0 {
        Some(Read { value: Primary::Field(Field { top_level: top, parts: ps }), end: e, err: er })
    } else {
        None
    }
}


fn boolean_x(s: &Vec<char>, p: usize) -> (r: Option<(bool, usize)>)
    requires
        p <= s@.len(),
    ensures
        match r {
            Some((b, q)) => boolean(s@, p as int) == Some((b, q as int)),
            None => boolean(s@, p as int) is None,
        },
        r matches Some((_, q)) ==> p < q <= s@.len(),
{
    match tok2(s, p, '#', 't') {
        Some(q) => Some((true, q)),
        None => match tok2(s, p, '#', 'f') {
            Some(q) => Some((false, q)),
            None => None,
        },
    }
}

fn unary_op_x(s: &Vec<char>, p: usize) -> (r: Option<(UnaryOp, usize)>)
    requires
        p <= s@.len(),
    ensures
        match r {
            Some((o, q)) => unary_op(s@, p as int) == Some((o, q as int)),
            None => unary_op(s@, p as int) is None,
        },
{
    match tok1(s, p, '!') {
        Some(q) => Some((UnaryOp::Not, q)),
        None => match tok1(s, p, '+') {
            Some(q) => Some((UnaryOp::Positive, q)),
            None => match tok1(s, p, '-') {
                Some(q) => Some((UnaryOp::Negative, q)),
                None => None,
            },
        },
    }
}

fn mul_op_x(s: &Vec<char>, p: usize) -> (r: Option<(MulDivOp, usize)>)
    requires
        p <= s@.len(),
    ensures
        match r {
            Some((o, q)) => mul_op(s@, p as int) == Some((o, q as int)),
            None => mul_op(s@, p as int) is None,
        },
{
    match tok1(s, p, '*') {
        Some(q) => Some((MulDivOp::Multiply, q)),
        None => match tok1(s, p, '/') {
            Some(q) => Some((MulDivOp::Divide, q)),
            None => match tok1(s, p, '%') {
                Some(q) => Some((MulDivOp::Modulo, q)),
                None => None,
            },
        },
    }
}

fn add_op_x(s: &Vec<char>, p: usize) -> (r: Option<(AddSubOp, usize)>)
    requires
        p <= s@.len(),
    ensures
        match r {
            Some((o, q)) => add_op(s@, p as int) == Some((o, q as int)),
            None => add_op(s@, p as int) is None,
        },
{
    match tok1(s, p, '+') {
        Some(q) => Some((AddSubOp::Add, q)),
        None => match tok1(s, p, '-') {
            Some(q) => Some((AddSubOp::Subtract, q)),
            None => None,
        },
    }
}

fn comp_op_x(s: &Vec<char>, p: usize) -> (r: Option<(ComparisonOp, usize)>)
    requires
        p <= s@.len(),
    ensures
        match r {
            Some((o, q)) => comp_op(s@, p as int) == Some((o, q as int)),
            None => comp_op(s@, p as int) is None,
        },
{
    match tok2(s, p, '=', '=') {
        Some(q) => Some((ComparisonOp::Equal, q)),
        None => match tok2(s, p, '!', '=') {
            Some(q) => Some((ComparisonOp::NotEqual, q)),
            None => match tok2(s, p, '>', '=') {
                Some(q) => Some((ComparisonOp::GreaterEqual, q)),
                None => match tok2(s, p, '<', '=') {
                    Some(q) => Some((ComparisonOp::LessEqual, q)),
                    None => match tok1(s, p, '>') {
                        Some(q) => Some((ComparisonOp::Greater, q)),
                        None => match tok1(s, p, '<') {
                            Some(q) => Some((ComparisonOp::Less, q)),
                            None => None,
                        },
                    },
                },
            },
        },
    }
}

/// The expression made of a single operand.
fn single_expr_x(u: Unary) -> (r: Expression)
    ensures
        r.view() == single_expr(u.view()),
{
    let c = Comparison {
        left: AddSub { left: MulDiv { left: u, rights: Vec::new() }, rights: Vec::new() },
        right: None,
    };
    let cs = vec![c];
    let a = And(cs);
    let os = vec![a];
    let r = Expression(Or(os));
    proof {
        assert(r.0.0@.drop_last() =~= Seq::<And>::empty());
        assert(r.0.0@[0].0@.drop_last() =~= Seq::<Comparison>::empty());
        assert(prod_rights_view(Seq::<(MulDivOp, Unary)>::empty()) =~= Seq::<(MulDivOp, UnaryV)>::empty());
        assert(sum_rights_view(Seq::<(AddSubOp, MulDiv)>::empty()) =~= Seq::<(AddSubOp, ProdV)>::empty());
        assert(r.view().ors =~= single_expr(u.view()).ors);
    }
    r
}

/// An operand placed under a prefix operator.
fn nest_x(u: Unary) -> (r: Primary)
    ensures
        r.view() == nest(u.view()),
{
    match u {
        Unary::Primary(p) => p,
        Unary::Unary(x) => Primary::Expression(single_expr_x(Unary::Unary(x))),
    }
}

fn atom_x(s: &Vec<char>, p: usize) -> (r: Option<Read<Primary>>)
    requires
        p <= s@.len(),
    ensures
        read_prim(r, atom(s@, p as int)),
        r matches Some(x) ==> p < x.end <= s@.len(),
{
    match top_level_x(s, p) {
        Some((t, q)) => return Some(Read { value: Primary::TopLevel(t), end: q, err: None }),
        None => {},
    }
    match number_x(s, p, 2147483647u64) {
        Some((d, v, q)) => {
            return match v {
                Some(n) => Some(Read { value: Primary::Number(n as i32), end: q, err: None }),
                None => Some(Read { value: Primary::Number(0), end: q, err: Some(Bad::Number(d)) }),
            };
        },
        None => {},
    }
    match string_lit_x(s, p) {
        Some((w, q)) => return Some(Read { value: Primary::String(w), end: q, err: None }),
        None => {},
    }
    match boolean_x(s, p) {
        Some((b, q)) => Some(Read { value: Primary::Boolean(b), end: q, err: None }),
        None => None,
    }
}

fn paren_x(s: &Vec<char>, p: usize) -> (r: Option<Read<Primary>>)
    requires
        p <= s@.len(),
    ensures
        read_prim(r, paren(s@, p as int)),
        r matches Some(x) ==> p < x.end <= s@.len(),
    decreases s@.len() - p, 1int,
{
    let q = match tok1(s, p, '(') {
        Some(q) => q,
        None => return None,
    };
    let x = match or_x(s, q) {
        Some(x) => x,
        None => return None,
    };
    match tok1(s, x.end, ')') {
        Some(e) => Some(Read { value: Primary::Expression(x.value), end: e, err: x.err }),
        None => None,
    }
}

fn primary_x(s: &Vec<char>, p: usize) -> (r: Option<Read<Primary>>)
    requires
        p <= s@.len(),
    ensures
        read_prim(r, primary(s@, p as int)),
        r matches Some(x) ==> p < x.end <= s@.len(),
    decreases s@.len() - p, 2int,
{
    match field_x(s, p) {
        Some(f) => return Some(f),
        None => {},
    }
    match atom_x(s, p) {
        Some(a) => return Some(a),
        None => {},
    }
    paren_x(s, p)
}

fn unary_x(s: &Vec<char>, p: usize) -> (r: Option<Read<Unary>>)
    requires
        p <= s@.len(),
    ensures
        read_unary(r, unary(s@, p as int)),
        r matches Some(x) ==> p < x.end <= s@.len(),
    decreases s@.len() - p, 3int,
{
    match unary_op_x(s, p) {
        Some((op, q)) => {
            if p < q && q <= s.len() {
                match unary_x(s, q) {
                    Some(x) => Some(Read { value: Unary::Unary((op, nest_x(x.value))), end: x.end, err: x.err }),
                    None => None,
                }
            } else {
                None
            }
        },
        None => match primary_x(s, p) {
            Some(x) => Some(Read { value: Unary::Primary(x.value), end: x.end, err: x.err }),
            None => None,
        },
    }
}

fn prod_x(s: &Vec<char>, p: usize) -> (r: Option<Read<MulDiv>>)
    requires
        p <= s@.len(),
    ensures
        read_prod(r, prod(s@, p as int)),
        r matches Some(x) ==> p < x.end <= s@.len(),
    decreases s@.len() - p, 4int,
{
    let u = match unary_x(s, p) {
        Some(u) => u,
        None => return None,
    };
    if !(p < u.end && u.end <= s.len()) {
        return None;
    }
    let Read { value: left, end: start, err: err0 } = u;
    let ghost g_err0 = bad_view(err0);
    let mut rights: Vec<(MulDivOp, Unary)> = Vec::new();
    let mut q = start;
    let mut err = err0;
    loop
        invariant
            p < start <= q <= s@.len(),
            prod_rest(s@, start as int, Seq::empty(), g_err0) == prod_rest(
                s@,
                q as int,
                prod_rights_view(rights@),
                bad_view(err),
            ),
        ensures
            prod_rest(s@, start as int, Seq::empty(), g_err0) == (prod_rights_view(rights@), q as int, bad_view(err)),
        decreases s@.len() - q,
    {
        let (op, q1) = match mul_op_x(s, q) {
            Some(x) => x,
            None => break,
        };
        if !(q < q1 && q1 <= s.len()) {
            break;
        }
        let x = match unary_x(s, q1) {
            Some(x) => x,
            None => break,
        };
        if !(q < x.end && x.end <= s.len()) {
            break;
        }
        let ghost old_rights = rights@;
        let Read { value: xv, end: xe, err: xerr } = x;
        rights.push((op, xv));
        assert(rights@.drop_last() =~= old_rights);
        err = first_bad(err, xerr);
        q = xe;
    }
    Some(Read { value: MulDiv { left, rights }, end: q, err })
}

fn sum_x(s: &Vec<char>, p: usize) -> (r: Option<Read<AddSub>>)
    requires
        p <= s@.len(),
    ensures
        read_sum(r, sum(s@, p as int)),
        r matches Some(x) ==> p < x.end <= s@.len(),
    decreases s@.len() - p, 5int,
{
    let u = match prod_x(s, p) {
        Some(u) => u,
        None => return None,
    };
    if !(p < u.end && u.end <= s.len()) {
        return None;
    }
    let Read { value: left, end: start, err: err0 } = u;
    let ghost g_err0 = bad_view(err0);
    let mut rights: Vec<(AddSubOp, MulDiv)> = Vec::new();
    let mut q = start;
    let mut err = err0;
    loop
        invariant
            p < start <= q <= s@.len(),
            sum_rest(s@, start as int, Seq::empty(), g_err0) == sum_rest(
                s@,
                q as int,
                sum_rights_view(rights@),
                bad_view(err),
            ),
        ensures
            sum_rest(s@, start as int, Seq::empty(), g_err0) == (sum_rights_view(rights@), q as int, bad_view(err)),
        decreases s@.len() - q,
    {
        let (op, q1) = match add_op_x(s, q) {
            Some(x) => x,
            None => break,
        };
        if !(q < q1 && q1 <= s.len()) {
            break;
        }
        let x = match prod_x(s, q1) {
            Some(x) => x,
            None => break,
        };
        if !(q < x.end && x.end <= s.len()) {
            break;
        }
        let ghost old_rights = rights@;
        let Read { value: xv, end: xe, err: xerr } = x;
        rights.push((op, xv));
        assert(rights@.drop_last() =~= old_rights);
        err = first_bad(err, xerr);
        q = xe;
    }
    Some(Read { value: AddSub { left, rights }, end: q, err })
}

fn comparison_x(s: &Vec<char>, p: usize) -> (r: Option<Read<Comparison>>)
    requires
        p <= s@.len(),
    ensures
        read_comparison(r, comparison(s@, p as int)),
        r matches Some(x) ==> p < x.end <= s@.len(),
    decreases s@.len() - p, 6int,
{
    let l = match sum_x(s, p) {
        Some(l) => l,
        None => return None,
    };
    if !(p < l.end && l.end <= s.len()) {
        return None;
    }
    match comp_op_x(s, l.end) {
        Some((op, q)) => {
            if p < q && q <= s.len() {
                match sum_x(s, q) {
                    Some(r) => Some(
                        Read {
                            value: Comparison { left: l.value, right: Some((op, r.value)) },
                            end: r.end,
                            err: first_bad(l.err, r.err),
                        },
                    ),
                    None => Some(Read { value: Comparison { left: l.value, right: None }, end: l.end, err: l.err }),
                }
            } else {
                None
            }
        },
        None => Some(Read { value: Comparison { left: l.value, right: None }, end: l.end, err: l.err }),
    }
}

fn and_x(s: &Vec<char>, p: usize) -> (r: Option<Read<And>>)
    requires
        p <= s@.len(),
    ensures
        read_and(r, and_expr(s@, p as int)),
        r matches Some(x) ==> p < x.end <= s@.len(),
    decreases s@.len() - p, 7int,
{
    let c = match comparison_x(s, p) {
        Some(c) => c,
        None => return None,
    };
    if !(p < c.end && c.end <= s.len()) {
        return None;
    }
    let Read { value: first, end: start, err: err0 } = c;
    let ghost g_first = first.view();
    let ghost g_err0 = bad_view(err0);
    let mut items: Vec<Comparison> = Vec::new();
    items.push(first);
    proof {
        assert(items@.drop_last() =~= Seq::<Comparison>::empty());
        assert(comps_view(Seq::<Comparison>::empty()) =~= Seq::<CompV>::empty());
        assert(comps_view(items@) == comps_view(items@.drop_last()).push(items@.last().view()));
        assert(comps_view(items@) =~= seq![g_first]);
    }
    let mut q = start;
    let mut err = err0;
    loop
        invariant
            p < start <= q <= s@.len(),
            and_rest(s@, start as int, seq![g_first], g_err0) == and_rest(
                s@,
                q as int,
                comps_view(items@),
                bad_view(err),
            ),
        ensures
            and_rest(s@, start as int, seq![g_first], g_err0) == (comps_view(items@), q as int, bad_view(err)),
        decreases s@.len() - q,
    {
        let q1 = match tok2(s, q, '&', '&') {
            Some(x) => x,
            None => break,
        };
        let x = match comparison_x(s, q1) {
            Some(x) => x,
            None => break,
        };
        if !(q < x.end && x.end <= s.len()) {
            break;
        }
        let ghost old_items = items@;
        let Read { value: xv, end: xe, err: xerr } = x;
        items.push(xv);
        assert(items@.drop_last() =~= old_items);
        err = first_bad(err, xerr);
        q = xe;
    }
    Some(Read { value: And(items), end: q, err })
}

fn or_x(s: &Vec<char>, p: usize) -> (r: Option<Read<Expression>>)
    requires
        p <= s@.len(),
    ensures
        read_expr(r, or_expr(s@, p as int)),
        r matches Some(x) ==> p < x.end <= s@.len(),
    decreases s@.len() - p, 8int,
{
    let a = match and_x(s, p) {
        Some(a) => a,
        None => return None,
    };
    if !(p < a.end && a.end <= s.len()) {
        return None;
    }
    let Read { value: first, end: start, err: err0 } = a;
    let ghost g_first = comps_view(first.0@);
    let ghost g_err0 = bad_view(err0);
    let mut items: Vec<And> = Vec::new();
    items.push(first);
    proof {
        assert(items@.drop_last() =~= Seq::<And>::empty());
        assert(ands_view(Seq::<And>::empty()) =~= Seq::<Seq<CompV>>::empty());
        assert(ands_view(items@) == ands_view(items@.drop_last()).push(comps_view(items@.last().0@)));
        assert(ands_view(items@) =~= seq![g_first]);
    }
    let mut q = start;
    let mut err = err0;
    loop
        invariant
            p < start <= q <= s@.len(),
            or_rest(s@, start as int, seq![g_first], g_err0) == or_rest(
                s@,
                q as int,
                ands_view(items@),
                bad_view(err),
            ),
        ensures
            or_rest(s@, start as int, seq![g_first], g_err0) == (ands_view(items@), q as int, bad_view(err)),
        decreases s@.len() - q,
    {
        let q1 = match tok2(s, q, '|', '|') {
            Some(x) => x,
            None => break,
        };
        let x = match and_x(s, q1) {
            Some(x) => x,
            None => break,
        };
        if !(q < x.end && x.end <= s.len()) {
            break;
        }
        let ghost old_items = items@;
        let Read { value: xv, end: xe, err: xerr } = x;
        items.push(xv);
        assert(items@.drop_last() =~= old_items);
        err = first_bad(err, xerr);
        q = xe;
    }
    Some(Read { value: Expression(Or(items)), end: q, err })
}

/// Expressions one after the other.
fn exprs_x(s: &Vec<char>, p: usize) -> (r: (Vec<Expression>, usize, Option<Bad>))
    requires
        p <= s@.len(),
    ensures
        exprs(s@, p as int, Seq::empty(), None) == (exprs_view(r.0@), r.1 as int, bad_view(r.2)),
        p <= r.1 <= s@.len(),
{
    let mut acc: Vec<Expression> = Vec::new();
    let mut q = p;
    let mut err: Option<Bad> = None;
    loop
        invariant
            p <= q <= s@.len(),
            exprs(s@, p as int, Seq::empty(), None) == exprs(s@, q as int, exprs_view(acc@), bad_view(err)),
        ensures
            exprs(s@, p as int, Seq::empty(), None) == (exprs_view(acc@), q as int, bad_view(err)),
            p <= q <= s@.len(),
        decreases s@.len() - q,
    {
        let x = match or_x(s, q) {
            Some(x) => x,
            None => break,
        };
        if !(q < x.end && x.end <= s.len()) {
            break;
        }
        let ghost old_acc = acc@;
        let Read { value: xv, end: xe, err: xerr } = x;
        acc.push(xv);
        assert(acc@.drop_last() =~= old_acc);
        err = first_bad(err, xerr);
        q = xe;
    }
    (acc, q, err)
}


pub open spec fn read_control(r: Option<Read<Control>>, spec: Option<Step<ControlV>>) -> bool {
    match r {
        Some(x) => same_read(x.end, x.err, x.value.view(), spec),
        None => spec is None,
    }
}

fn opener_at_x(s: &Vec<char>, p: usize) -> (r: bool)
    requires
        p <= s@.len(),
    ensures
        r == opener_at(s@, p as int),
{
    p < s.len() && p + 1 < s.len() && s[p] == '{' && (s[p + 1] == '<' || s[p + 1] == '-' || s[p + 1] == ':')
}

fn word_char_x(s: &Vec<char>, p: usize) -> (r: bool)
    requires
        p <= s@.len(),
    ensures
        r == word_char(s@, p as int),
{
    p < s.len() && !is_ws_x(s[p]) && !opener_at_x(s, p)
}

fn word_end_x(s: &Vec<char>, p: usize) -> (r: usize)
    requires
        p <= s@.len(),
    ensures
        r == word_end(s@, p as int),
        p <= r <= s@.len(),
{
    let mut q = p;
    while q < s.len() && word_char_x(s, q)
        invariant
            p <= q <= s@.len(),
            word_end(s@, p as int) == word_end(s@, q as int),
        decreases s@.len() - q,
    {
        q += 1;
    }
    q
}

fn text_end_x(s: &Vec<char>, p: usize) -> (r: usize)
    requires
        p <= s@.len(),
    ensures
        r == text_end(s@, p as int),
        p <= r <= s@.len(),
{
    let mut q = p;
    loop
        invariant
            p <= q <= s@.len(),
            text_end(s@, p as int) == text_end(s@, q as int),
        decreases s@.len() - q,
    {
        let e = word_end_x(s, q);
        let w = skip_ws_x(s, e);
        if q < e && e < w && word_char_x(s, w) {
            q = w;
        } else {
            return e;
        }
    }
}

fn end_tag_x(s: &Vec<char>, p: usize) -> (r: Option<usize>)
    requires
        p <= s@.len(),
    ensures
        pos_view(r) == end_tag(s@, p as int),
        r matches Some(q) ==> p < q <= s@.len(),
{
    match tok2(s, p, '{', '-') {
        Some(q1) => match tok3(s, q1, 'e', 'n', 'd') {
            Some(q2) => tok2(s, q2, '-', '}'),
            None => None,
        },
        None => None,
    }
}

fn else_tag_x(s: &Vec<char>, p: usize) -> (r: Option<usize>)
    requires
        p <= s@.len(),
    ensures
        pos_view(r) == else_tag(s@, p as int),
        r matches Some(q) ==> p < q <= s@.len(),
{
    match tok2(s, p, '{', '-') {
        Some(q1) => match tok4(s, q1, 'e', 'l', 's', 'e') {
            Some(q2) => tok2(s, q2, '-', '}'),
            None => None,
        },
        None => None,
    }
}

/// Controls from `p`, as far as they read.
fn template_x(s: &Vec<char>, p: usize) -> (r: (Vec<Control>, usize, Option<Bad>))
    requires
        p <= s@.len(),
    ensures
        template(s@, p as int, Seq::empty(), None) == (controls_view(r.0@), r.1 as int, bad_view(r.2)),
        p <= r.1 <= s@.len(),
    decreases s@.len() - p, 2int,
{
    let mut acc: Vec<Control> = Vec::new();
    let mut q = p;
    let mut err: Option<Bad> = None;
    loop
        invariant
            p <= q <= s@.len(),
            template(s@, p as int, Seq::empty(), None) == template(
                s@,
                q as int,
                controls_view(acc@),
                bad_view(err),
            ),
        ensures
            template(s@, p as int, Seq::empty(), None) == (controls_view(acc@), q as int, bad_view(err)),
            p <= q <= s@.len(),
        decreases s@.len() - q,
    {
        let c = match control_x(s, q) {
            Some(c) => c,
            None => break,
        };
        if !(q < c.end && c.end <= s.len()) {
            break;
        }
        let ghost old_acc = acc@;
        let Read { value: cv, end: ce, err: cerr } = c;
        acc.push(cv);
        assert(acc@.drop_last() =~= old_acc);
        err = first_bad(err, cerr);
        q = ce;
    }
    (acc, q, err)
}

fn control_x(s: &Vec<char>, p: usize) -> (r: Option<Read<Control>>)
    requires
        p <= s@.len(),
    ensures
        read_control(r, control(s@, p as int)),
        r matches Some(x) ==> x.end <= s@.len(),
    decreases s@.len() - p, 1int,
{
    let q = skip_ws_x(s, p);
    if word_char_x(s, q) {
        let e = text_end_x(s, q);
        return Some(Read { value: Control::Text(substring(s, q, e)), end: e, err: None });
    }
    match shortcode_x(s, p) {
        Some(x) => return Some(x),
        None => {},
    }
    match set_x(s, p) {
        Some(x) => return Some(x),
        None => {},
    }
    match for_x(s, p) {
        Some(x) => return Some(x),
        None => {},
    }
    match with_x(s, p) {
        Some(x) => return Some(x),
        None => {},
    }
    match if_x(s, p) {
        Some(x) => return Some(x),
        None => {},
    }
    match include_x(s, p) {
        Some(x) => return Some(x),
        None => {},
    }
    substitution_x(s, p)
}

fn shortcode_x(s: &Vec<char>, p: usize) -> (r: Option<Read<Control>>)
    requires
        p <= s@.len(),
    ensures
        read_control(r, shortcode(s@, p as int)),
        r matches Some(x) ==> x.end <= s@.len(),
    decreases s@.len() - p, 0int,
{
    let q1 = match tok2(s, p, '{', '<') {
        Some(q) => q,
        None => return None,
    };
    let (name, q2) = match ident_x(s, q1) {
        Some(x) => x,
        None => return None,
    };
    let (ps, q3, e1) = exprs_x(s, q2);
    match tok3(s, q3, '/', '>', '}') {
        Some(q4) => {
            return Some(
                Read {
                    value: Control::ShortCode(ShortCode::Single(SingleShortCode { name, parameters: ps })),
                    end: q4,
                    err: e1,
                },
            );
        },
        None => {},
    }
    let q4 = match tok2(s, q3, '>', '}') {
        Some(q) => q,
        None => return None,
    };
    let (inner, q5, e2) = template_x(s, q4);
    let q6 = match tok3(s, q5, '{', '<', '/') {
        Some(q) => q,
        None => return None,
    };
    let (end_name, q7) = match ident_x(s, q6) {
        Some(x) => x,
        None => return None,
    };
    let q8 = match tok2(s, q7, '>', '}') {
        Some(q) => q,
        None => return None,
    };
    let mismatch = if str_eq(name.as_str(), end_name.as_str()) {
        None
    } else {
        Some(Bad::Inconsistent(name.clone()))
    };
    let err = first_bad(first_bad(e1, e2), mismatch);
    Some(
        Read {
            value: Control::ShortCode(
                ShortCode::Block(BlockShortCode { name, parameters: ps, inner: Template { controls: inner } }),
            ),
            end: q8,
            err,
        },
    )
}

fn set_x(s: &Vec<char>, p: usize) -> (r: Option<Read<Control>>)
    requires
        p <= s@.len(),
    ensures
        read_control(r, set_cmd(s@, p as int)),
        r matches Some(x) ==> x.end <= s@.len(),
    decreases s@.len() - p, 0int,
{
    let q0 = match tok2(s, p, '{', '-') {
        Some(q) => q,
        None => return None,
    };
    let q1 = match tok3(s, q0, 's', 'e', 't') {
        Some(q) => q,
        None => return None,
    };
    let (name, q2) = match variable_x(s, q1) {
        Some(x) => x,
        None => return None,
    };
    let q3 = match tok1(s, q2, '=') {
        Some(q) => q,
        None => return None,
    };
    let x = match or_x(s, q3) {
        Some(x) => x,
        None => return None,
    };
    let q4 = match tok2(s, x.end, '-', '}') {
        Some(q) => q,
        None => return None,
    };
    Some(Read { value: Control::Command(Command::SetVar(SetCommand { name, value: x.value })), end: q4, err: x.err })
}

fn index_var_x(s: &Vec<char>, p: usize) -> (r: Option<(String, usize)>)
    requires
        p <= s@.len(),
    ensures
        word_view(r) == index_var(s@, p as int),
        r matches Some((_, q)) ==> p < q <= s@.len(),
{
    match tok1(s, p, ',') {
        Some(q) => variable_x(s, q),
        None => None,
    }
}

fn for_x(s: &Vec<char>, p: usize) -> (r: Option<Read<Control>>)
    requires
        p <= s@.len(),
    ensures
        read_control(r, for_cmd(s@, p as int)),
        r matches Some(x) ==> x.end <= s@.len(),
    decreases s@.len() - p, 0int,
{
    let q0 = match tok2(s, p, '{', '-') {
        Some(q) => q,
        None => return None,
    };
    let q1 = match tok3(s, q0, 'f', 'o', 'r') {
        Some(q) => q,
        None => return None,
    };
    let (item, q2) = match variable_x(s, q1) {
        Some(x) => x,
        None => return None,
    };
    let (index, q3) = match index_var_x(s, q2) {
        Some((n, q)) => (Some(n), q),
        None => (None, q2),
    };
    let q4 = match tok1(s, q3, ':') {
        Some(q) => q,
        None => return None,
    };
    let x = match or_x(s, q4) {
        Some(x) => x,
        None => return None,
    };
    let q5 = match tok2(s, x.end, '-', '}') {
        Some(q) => q,
        None => return None,
    };
    let (inner, q6, e2) = template_x(s, q5);
    let q7 = match end_tag_x(s, q6) {
        Some(q) => q,
        None => return None,
    };
    let err = first_bad(x.err, e2);
    Some(
        Read {
            value: Control::Command(
                Command::For(
                    ForCommand { item_name: item, index_name: index, list: x.value, inner: Template { controls: inner } },
                ),
            ),
            end: q7,
            err,
        },
    )
}

fn with_x(s: &Vec<char>, p: usize) -> (r: Option<Read<Control>>)
    requires
        p <= s@.len(),
    ensures
        read_control(r, with_cmd(s@, p as int)),
        r matches Some(x) ==> x.end <= s@.len(),
    decreases s@.len() - p, 0int,
{
    let q0 = match tok2(s, p, '{', '-') {
        Some(q) => q,
        None => return None,
    };
    let q1 = match tok4(s, q0, 'w', 'i', 't', 'h') {
        Some(q) => q,
        None => return None,
    };
    let x = match or_x(s, q1) {
        Some(x) => x,
        None => return None,
    };
    let q2 = match tok2(s, x.end, '-', '}') {
        Some(q) => q,
        None => return None,
    };
    let (inner, q3, e2) = template_x(s, q2);
    let q4 = match end_tag_x(s, q3) {
        Some(q) => q,
        None => return None,
    };
    let err = first_bad(x.err, e2);
    Some(
        Read {
            value: Control::Command(Command::With(WithCommand { scope: x.value, inner: Template { controls: inner } })),
            end: q4,
            err,
        },
    )
}

fn if_x(s: &Vec<char>, p: usize) -> (r: Option<Read<Control>>)
    requires
        p <= s@.len(),
    ensures
        read_control(r, if_cmd(s@, p as int)),
        r matches Some(x) ==> x.end <= s@.len(),
    decreases s@.len() - p, 0int,
{
    let q0 = match tok2(s, p, '{', '-') {
        Some(q) => q,
        None => return None,
    };
    let q1 = match tok2(s, q0, 'i', 'f') {
        Some(q) => q,
        None => return None,
    };
    let x = match or_x(s, q1) {
        Some(x) => x,
        None => return None,
    };
    let q2 = match tok2(s, x.end, '-', '}') {
        Some(q) => q,
        None => return None,
    };
    let (inner, q3, e2) = template_x(s, q2);
    match else_tag_x(s, q3) {
        Some(q4) => {
            let (other, q5, e3) = template_x(s, q4);
            let q6 = match end_tag_x(s, q5) {
                Some(q) => q,
                None => return None,
            };
            let err = first_bad(first_bad(x.err, e2), e3);
            Some(
                Read {
                    value: Control::Command(
                        Command::If(
                            IfCommand {
                                condition: x.value,
                                inner: Template { controls: inner },
                                else_inner: Some(Template { controls: other }),
                            },
                        ),
                    ),
                    end: q6,
                    err,
                },
            )
        },
        None => {
            let q4 = match end_tag_x(s, q3) {
                Some(q) => q,
                None => return None,
            };
            let err = first_bad(x.err, e2);
            Some(
                Read {
                    value: Control::Command(
                        Command::If(
                            IfCommand { condition: x.value, inner: Template { controls: inner }, else_inner: None },
                        ),
                    ),
                    end: q4,
                    err,
                },
            )
        },
    }
}

fn include_x(s: &Vec<char>, p: usize) -> (r: Option<Read<Control>>)
    requires
        p <= s@.len(),
    ensures
        read_control(r, include_cmd(s@, p as int)),
        r matches Some(x) ==> x.end <= s@.len(),
{
    let q0 = match tok2(s, p, '{', '-') {
        Some(q) => q,
        None => return None,
    };
    let q1 = match tok_include(s, q0) {
        Some(q) => q,
        None => return None,
    };
    let (path, q2) = match string_lit_x(s, q1) {
        Some(x) => x,
        None => return None,
    };
    let (ps, q3, e1) = exprs_x(s, q2);
    let q4 = match tok2(s, q3, '-', '}') {
        Some(q) => q,
        None => return None,
    };
    Some(
        Read {
            value: Control::Command(Command::Include(IncludeCommand { path, parameters: ps })),
            end: q4,
            err: e1,
        },
    )
}

fn substitution_x(s: &Vec<char>, p: usize) -> (r: Option<Read<Control>>)
    requires
        p <= s@.len(),
    ensures
        read_control(r, substitution(s@, p as int)),
        r matches Some(x) ==> x.end <= s@.len(),
{
    let q1 = match tok2(s, p, '{', ':') {
        Some(q) => q,
        None => return None,
    };
    let x = match or_x(s, q1) {
        Some(x) => x,
        None => return None,
    };
    let q2 = match tok2(s, x.end, ':', '}') {
        Some(q) => q,
        None => return None,
    };
    Some(Read { value: Control::Substitution(Substitution { expr: x.value }), end: q2, err: x.err })
}


/// Whether a parse result is the outcome the grammar gives.
pub open spec fn parse_agrees(r: Result<File, CompileError>, o: Outcome) -> bool {
    match o {
        Outcome::Parsed(cs) => r matches Ok(f) && f.view() == cs,
        Outcome::SyntaxAt(z) => r matches Err(CompileError::ParsingError(q)) && q == z,
        Outcome::Failed(PErr::Inconsistent(n)) => r matches Err(CompileError::ShortCodeInconsistent(m)) && m@ == n,
        Outcome::Failed(PErr::BadNumber(d)) => r matches Err(CompileError::InvalidNumber(m)) && m@ == d,
    }
}

/// Parses a template. The result is the grammar's reading of the whole
/// source: its controls; or the error of a syntax that does not read up to
/// the end, with the position where reading stopped; or, when it reads, the
/// first number that does not fit or the first block shortcode closed with
/// another name.
pub fn parse_template(source: &str) -> (r: Result<File, CompileError>)
    ensures
        parse_agrees(r, parse_spec(source@)),
{
    let s = chars_of(source);
    let (controls, q, err) = template_x(&s, 0);
    let z = skip_ws_x(&s, q);
    if z < s.len() {
        return Err(CompileError::ParsingError(z));
    }
    match err {
        Some(Bad::Inconsistent(n)) => Err(CompileError::ShortCodeInconsistent(n)),
        Some(Bad::Number(d)) => Err(CompileError::InvalidNumber(d)),
        None => Ok(File(Template { controls })),
    }
}

} // verus!
