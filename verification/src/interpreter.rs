//! The template interpreter: it evaluates expressions and runs templates in
//! a page scope, exactly as the semantics says, and writes out text and
//! requests for subpages.

use crate::ast::{
    comps_view, controls_view, exprs_view, lemma_controls_view, parts_view, top_opt_view, Command, Control, ControlV, GetField, ShortCode, lemma_ands_view, lemma_comps_view, lemma_exprs_view,
    lemma_prod_rights_view, lemma_sum_rights_view, AddSub, AddSubOp, And, Comparison, ComparisonOp,
    Expression, Field, MulDiv, MulDivOp, Primary, Template, TopLevel, Unary, UnaryOp,
};
use crate::data::{lemma_list_view, list_view, render_text, AllayData, DataView};
use crate::error::{type_error, IErr, InterpretError};
use crate::scope::{get_fields_from, lemma_parts_view, result_view, LocalVar, PageScope, ScopeV};
use crate::semantics::{
    lemma_it_seq_end, lemma_it_seq_step,
    apply_add, apply_mul, apply_unary, as_bool, as_int, compare, ev_and, ev_and_rest, ev_comp,
    ev_expr, ev_field, ev_or_rest, ev_prim, ev_prod, ev_prod_rest, ev_sum, ev_sum_rest, ev_top,
    ev_unary, ev_list, int_order, it_assign, it_control, it_for_cmd, it_if, it_subst, it_with, it_for, it_include, it_seq, it_shortcode, push_sub, order_of, str_order, Ev, Order, Run, SubKind, TokenV,
};
use crate::text::{chars_of, str_eq};
use vstd::prelude::*;

verus! {

/// A request for a subpage: where to look for it, its name, the scope it is
/// compiled in, and for a block shortcode its inner template with the scope
/// that template is compiled in.
pub struct Subpage<'a> {
    pub kind: SubKind,
    pub name: String,
    pub scope: PageScope,
    pub inner: Option<(&'a Template, PageScope)>,
}

/// What interpretation writes out.
pub enum Token<'a> {
    Text(String),
    Stash(String),
    Subpage(Subpage<'a>),
}

impl<'a> Token<'a> {
    pub open spec fn view(&self) -> TokenV {
        match self {
            Token::Text(t) => TokenV::Text(t@),
            Token::Stash(k) => TokenV::Stash(k@),
            Token::Subpage(s) => TokenV::Sub(
                s.kind,
                s.name@,
                s.scope.view(),
                match s.inner {
                    Some((t, sc)) => Some((t.view(), sc.view())),
                    None => None,
                },
            ),
        }
    }
}

/// The views of tokens.
pub open spec fn tokens_view<'a>(s: Seq<Token<'a>>) -> Seq<TokenV> {
    Seq::new(s.len(), |i: int| s[i].view())
}

/// The views of strings.
pub open spec fn strs_view(s: Seq<String>) -> Seq<Seq<char>> {
    Seq::new(s.len(), |i: int| s[i]@)
}

/// Whether `new` is `old` followed by `o`.
pub open spec fn wrote<'a>(old: Seq<Token<'a>>, new: Seq<Token<'a>>, o: Seq<TokenV>) -> bool {
    tokens_view(new) == tokens_view(old) + o
}

/// Whether an evaluation agrees with the semantics.
pub open spec fn evaluates<'a>(
    r: Result<AllayData, InterpretError>,
    old: Seq<Token<'a>>,
    new: Seq<Token<'a>>,
    ev: Ev,
) -> bool {
    result_view(r) == ev.value && wrote(old, new, ev.out)
}

proof fn lemma_wrote_trans<'a>(a: Seq<Token<'a>>, b: Seq<Token<'a>>, c: Seq<Token<'a>>, x: Seq<TokenV>, y: Seq<TokenV>)
    requires
        wrote(a, b, x),
        wrote(b, c, y),
    ensures
        wrote(a, c, x + y),
{
    assert(tokens_view(a) + x + y =~= tokens_view(a) + (x + y));
}

proof fn lemma_wrote_nothing<'a>(a: Seq<Token<'a>>)
    ensures
        wrote(a, a, Seq::empty()),
{
    assert(tokens_view(a) + Seq::empty() =~= tokens_view(a));
}

/// The order of two strings, character by character.
fn str_order_x(a: &str, b: &str) -> (r: Order)
    ensures
        r == str_order(a@, b@),
{
    let av = chars_of(a);
    let bv = chars_of(b);
    let mut k: usize = 0;
    assert(av@.skip(0) =~= av@);
    assert(bv@.skip(0) =~= bv@);
    loop
        invariant
            av@ == a@,
            bv@ == b@,
            k <= av@.len(),
            k <= bv@.len(),
            str_order(a@, b@) == str_order(av@.skip(k as int), bv@.skip(k as int)),
        decreases av@.len() - k,
    {
        let ghost sa = av@.skip(k as int);
        let ghost sb = bv@.skip(k as int);
        if k == av.len() && k == bv.len() {
            assert(sa.len() == 0 && sb.len() == 0);
            return Order::Equal;
        }
        if k == av.len() {
            return Order::Less;
        }
        if k == bv.len() {
            return Order::Greater;
        }
        assert(sa[0] == av@[k as int]);
        assert(sb[0] == bv@[k as int]);
        if av[k] < bv[k] {
            return Order::Less;
        }
        if av[k] > bv[k] {
            return Order::Greater;
        }
        assert(sa.drop_first() =~= av@.skip(k + 1));
        assert(sb.drop_first() =~= bv@.skip(k + 1));
        k += 1;
    }
}

/// The order of two values, where they have one.
pub fn order_x(a: &AllayData, b: &AllayData) -> (r: Option<Order>)
    ensures
        r == order_of(a@, b@),
{
    match (a, b) {
        (AllayData::Bool(x), AllayData::Bool(y)) => Some(
            if *x == *y {
                Order::Equal
            } else if !*x {
                Order::Less
            } else {
                Order::Greater
            },
        ),
        (AllayData::Null, AllayData::Null) => Some(Order::Equal),
        (AllayData::Int(x), AllayData::Int(y)) => Some(
            if *x < *y {
                Order::Less
            } else if *x == *y {
                Order::Equal
            } else {
                Order::Greater
            },
        ),
        (AllayData::String(x), AllayData::String(y)) => Some(str_order_x(x.as_str(), y.as_str())),
        _ => None,
    }
}

/// The result of a comparison.
pub fn compare_x(op: ComparisonOp, a: &AllayData, b: &AllayData) -> (r: bool)
    ensures
        r == compare(op, a@, b@),
{
    match op {
        ComparisonOp::Equal => a.same_value(b),
        ComparisonOp::NotEqual => !a.same_value(b),
        _ => {
            let o = order_x(a, b);
            match op {
                ComparisonOp::Greater => o == Some(Order::Greater),
                ComparisonOp::GreaterEqual => o == Some(Order::Greater) || o == Some(Order::Equal),
                ComparisonOp::Less => o == Some(Order::Less),
                _ => o == Some(Order::Less) || o == Some(Order::Equal),
            }
        },
    }
}


/// Whether a key is among the stashed keys.
fn is_stashed(stash: &Vec<String>, key: &String) -> (r: bool)
    ensures
        r == strs_view(stash@).contains(key@),
{
    let mut i: usize = 0;
    while i < stash.len()
        invariant
            i <= stash@.len(),
            forall|j: int| 0 <= j < i ==> stash@[j]@ != key@,
        decreases stash.len() - i,
    {
        if str_eq(stash[i].as_str(), key.as_str()) {
            assert(strs_view(stash@)[i as int] == key@);
            return true;
        }
        i += 1;
    }
    proof {
        if strs_view(stash@).contains(key@) {
            let j = choose|j: int| 0 <= j < strs_view(stash@).len() && strs_view(stash@)[j] == key@;
            assert(stash@[j]@ == key@);
        }
    }
    false
}

/// The value of a field access.
fn ev_field_x<'a>(f: &Field, sc: &PageScope, stash: &Vec<String>, out: &mut Vec<Token<'a>>) -> (r: Result<AllayData, InterpretError>)
    ensures
        evaluates(r, old(out)@, final(out)@, ev_field(top_opt_view(f.top_level), parts_view(f.parts@), sc.view(), strs_view(stash@))),
{
    proof {
        lemma_parts_view(f.parts@);
        lemma_wrote_nothing(out@);
    }
    if f.top_level.is_none() && f.parts.len() == 1 {
        match &f.parts[0] {
            GetField::Name(n) => {
                if is_stashed(stash, n) {
                    let ghost before = out@;
                    out.push(Token::Stash(n.clone()));
                    assert(tokens_view(out@) =~= tokens_view(before) + seq![TokenV::Stash(n@)]);
                    return Ok(AllayData::Null);
                }
            },
            _ => {},
        }
    }
    match &f.top_level {
        None => sc.this_field(&f.parts),
        Some(TopLevel::This) => sc.this_field(&f.parts),
        Some(TopLevel::Param) => get_fields_from(sc.get_param().get_data(), &f.parts, 0),
        Some(TopLevel::Variable(id)) => match sc.get_local(id.as_str()) {
            Some(d) => get_fields_from(d.duplicate(), &f.parts, 0),
            None => Err(InterpretError::VariableNotFound(id.clone())),
        },
    }
}

/// The value of a root.
fn ev_top_x(t: &TopLevel, sc: &PageScope) -> (r: Result<AllayData, InterpretError>)
    ensures
        result_view(r) == ev_top(t.view(), sc.view()),
{
    match t {
        TopLevel::This => Ok(sc.this_data()),
        TopLevel::Param => Ok(sc.get_param().get_data()),
        TopLevel::Variable(id) => match sc.get_local(id.as_str()) {
            Some(d) => Ok(d.duplicate()),
            None => Err(InterpretError::VariableNotFound(id.clone())),
        },
    }
}

/// A prefix operator on a value.
fn apply_unary_x(op: UnaryOp, v: AllayData) -> (r: Result<AllayData, InterpretError>)
    ensures
        result_view(r) == apply_unary(op, v@),
{
    match v {
        AllayData::Int(x) => match op {
            UnaryOp::Positive => Ok(AllayData::Int(x)),
            UnaryOp::Negative => match 0i64.checked_sub(x) {
                Some(y) => Ok(AllayData::Int(y)),
                None => Err(InterpretError::ArithmeticError("integer overflow".to_string())),
            },
            UnaryOp::Not => Err(type_error("not a boolean")),
        },
        AllayData::Bool(b) => match op {
            UnaryOp::Not => Ok(AllayData::Bool(!b)),
            _ => Err(type_error("not an integer")),
        },
        _ => Err(type_error("not an integer or a boolean")),
    }
}

/// A multiplicative operation on integers.
fn apply_mul_x(op: MulDivOp, a: i64, b: i64) -> (r: Result<AllayData, InterpretError>)
    ensures
        result_view(r) == apply_mul(op, a, b),
{
    let v = match op {
        MulDivOp::Multiply => a.checked_mul(b),
        MulDivOp::Divide => a.checked_div(b),
        MulDivOp::Modulo => a.checked_rem(b),
    };
    match v {
        Some(n) => Ok(AllayData::Int(n)),
        None => Err(InterpretError::ArithmeticError("integer overflow or division by zero".to_string())),
    }
}

/// An additive operation on integers.
fn apply_add_x(op: AddSubOp, a: i64, b: i64) -> (r: Result<AllayData, InterpretError>)
    ensures
        result_view(r) == apply_add(op, a, b),
{
    let v = match op {
        AddSubOp::Add => a.checked_add(b),
        AddSubOp::Subtract => a.checked_sub(b),
    };
    match v {
        Some(n) => Ok(AllayData::Int(n)),
        None => Err(InterpretError::ArithmeticError("integer overflow".to_string())),
    }
}

/// The value of a primary.
fn ev_prim_x<'a>(p: &Primary, sc: &PageScope, stash: &Vec<String>, out: &mut Vec<Token<'a>>) -> (r: Result<AllayData, InterpretError>)
    ensures
        evaluates(r, old(out)@, final(out)@, ev_prim(p.view(), sc.view(), strs_view(stash@))),
    decreases p, 0int,
{
    proof {
        lemma_wrote_nothing(out@);
    }
    match p {
        Primary::Number(n) => Ok(AllayData::Int(*n as i64)),
        Primary::Boolean(b) => Ok(AllayData::Bool(*b)),
        Primary::String(s) => Ok(AllayData::String(s.clone())),
        Primary::TopLevel(t) => ev_top_x(t, sc),
        Primary::Field(f) => ev_field_x(f, sc, stash, out),
        Primary::Expression(e) => ev_expr_x(e, sc, stash, out),
    }
}

/// The value of an operand.
fn ev_unary_x<'a>(u: &Unary, sc: &PageScope, stash: &Vec<String>, out: &mut Vec<Token<'a>>) -> (r: Result<AllayData, InterpretError>)
    ensures
        evaluates(r, old(out)@, final(out)@, ev_unary(u.view(), sc.view(), strs_view(stash@))),
    decreases u, 0int,
{
    match u {
        Unary::Primary(p) => ev_prim_x(p, sc, stash, out),
        Unary::Unary((op, p)) => {
            proof {
                assert(decreases_to!(*u => u->Unary_0));
                assert(decreases_to!(u->Unary_0 => u->Unary_0.1));
            }
            match ev_prim_x(p, sc, stash, out) {
                Ok(v) => apply_unary_x(*op, v),
                Err(x) => Err(x),
            }
        },
    }
}

/// The factors of a product from the `i`-th on, applied to `acc`.
fn ev_prod_rest_x<'a>(p: &MulDiv, i: usize, acc: i64, sc: &PageScope, stash: &Vec<String>, out: &mut Vec<Token<'a>>) -> (r: Result<AllayData, InterpretError>)
    ensures
        evaluates(r, old(out)@, final(out)@, ev_prod_rest(p.view(), i as int, acc, sc.view(), strs_view(stash@))),
    decreases p, p.rights@.len() - i,
{
    proof {
        lemma_prod_rights_view(p.rights@);
        lemma_wrote_nothing(out@);
    }
    if i >= p.rights.len() {
        return Ok(AllayData::Int(acc));
    }
    let ghost o0 = out@;
    proof {
        assert(decreases_to!(*p => p.rights));
        assert(decreases_to!(p.rights => p.rights@));
        assert(decreases_to!(p.rights@ => p.rights@[i as int]));
        assert(decreases_to!(p.rights@[i as int] => p.rights@[i as int].1));
    }
    let e = ev_unary_x(&p.rights[i].1, sc, stash, out);
    let ghost o1 = out@;
    match e {
        Ok(AllayData::Int(v)) => match apply_mul_x(p.rights[i].0, acc, v) {
            Ok(AllayData::Int(n)) => {
                let r = ev_prod_rest_x(p, i + 1, n, sc, stash, out);
                proof {
                    lemma_wrote_trans(o0, o1, out@, ev_unary(p.rights@[i as int].1.view(), sc.view(), strs_view(stash@)).out, ev_prod_rest(p.view(), i + 1, n, sc.view(), strs_view(stash@)).out);
                }
                r
            },
            Ok(_) => Err(type_error("not an integer")),
            Err(x) => Err(x),
        },
        Ok(_) => Err(type_error("not an integer")),
        Err(x) => Err(x),
    }
}

/// The value of a product.
fn ev_prod_x<'a>(p: &MulDiv, sc: &PageScope, stash: &Vec<String>, out: &mut Vec<Token<'a>>) -> (r: Result<AllayData, InterpretError>)
    ensures
        evaluates(r, old(out)@, final(out)@, ev_prod(p.view(), sc.view(), strs_view(stash@))),
    decreases p, p.rights@.len() + 1,
{
    proof {
        lemma_prod_rights_view(p.rights@);
    }
    let ghost o0 = out@;
    let e = ev_unary_x(&p.left, sc, stash, out);
    if p.rights.len() == 0 {
        return e;
    }
    let ghost o1 = out@;
    match e {
        Ok(AllayData::Int(v)) => {
            let r = ev_prod_rest_x(p, 0, v, sc, stash, out);
            proof {
                lemma_wrote_trans(o0, o1, out@, ev_unary(p.left.view(), sc.view(), strs_view(stash@)).out, ev_prod_rest(p.view(), 0, v, sc.view(), strs_view(stash@)).out);
            }
            r
        },
        Ok(_) => Err(type_error("not an integer")),
        Err(x) => Err(x),
    }
}

/// The terms of a sum from the `i`-th on, applied to `acc`.
fn ev_sum_rest_x<'a>(s: &AddSub, i: usize, acc: i64, sc: &PageScope, stash: &Vec<String>, out: &mut Vec<Token<'a>>) -> (r: Result<AllayData, InterpretError>)
    ensures
        evaluates(r, old(out)@, final(out)@, ev_sum_rest(s.view(), i as int, acc, sc.view(), strs_view(stash@))),
    decreases s, s.rights@.len() - i,
{
    proof {
        lemma_sum_rights_view(s.rights@);
        lemma_wrote_nothing(out@);
    }
    if i >= s.rights.len() {
        return Ok(AllayData::Int(acc));
    }
    let ghost o0 = out@;
    proof {
        assert(decreases_to!(*s => s.rights));
        assert(decreases_to!(s.rights => s.rights@));
        assert(decreases_to!(s.rights@ => s.rights@[i as int]));
        assert(decreases_to!(s.rights@[i as int] => s.rights@[i as int].1));
    }
    let e = ev_prod_x(&s.rights[i].1, sc, stash, out);
    let ghost o1 = out@;
    match e {
        Ok(AllayData::Int(v)) => match apply_add_x(s.rights[i].0, acc, v) {
            Ok(AllayData::Int(n)) => {
                let r = ev_sum_rest_x(s, i + 1, n, sc, stash, out);
                proof {
                    lemma_wrote_trans(o0, o1, out@, ev_prod(s.rights@[i as int].1.view(), sc.view(), strs_view(stash@)).out, ev_sum_rest(s.view(), i + 1, n, sc.view(), strs_view(stash@)).out);
                }
                r
            },
            Ok(_) => Err(type_error("not an integer")),
            Err(x) => Err(x),
        },
        Ok(_) => Err(type_error("not an integer")),
        Err(x) => Err(x),
    }
}

/// The value of a sum.
fn ev_sum_x<'a>(s: &AddSub, sc: &PageScope, stash: &Vec<String>, out: &mut Vec<Token<'a>>) -> (r: Result<AllayData, InterpretError>)
    ensures
        evaluates(r, old(out)@, final(out)@, ev_sum(s.view(), sc.view(), strs_view(stash@))),
    decreases s, s.rights@.len() + 1,
{
    proof {
        lemma_sum_rights_view(s.rights@);
    }
    let ghost o0 = out@;
    let e = ev_prod_x(&s.left, sc, stash, out);
    if s.rights.len() == 0 {
        return e;
    }
    let ghost o1 = out@;
    match e {
        Ok(AllayData::Int(v)) => {
            let r = ev_sum_rest_x(s, 0, v, sc, stash, out);
            proof {
                lemma_wrote_trans(o0, o1, out@, ev_prod(s.left.view(), sc.view(), strs_view(stash@)).out, ev_sum_rest(s.view(), 0, v, sc.view(), strs_view(stash@)).out);
            }
            r
        },
        Ok(_) => Err(type_error("not an integer")),
        Err(x) => Err(x),
    }
}

/// The value of a comparison.
fn ev_comp_x<'a>(c: &Comparison, sc: &PageScope, stash: &Vec<String>, out: &mut Vec<Token<'a>>) -> (r: Result<AllayData, InterpretError>)
    ensures
        evaluates(r, old(out)@, final(out)@, ev_comp(c.view(), sc.view(), strs_view(stash@))),
    decreases c, 0int,
{
    let ghost o0 = out@;
    let l = ev_sum_x(&c.left, sc, stash, out);
    match &c.right {
        None => l,
        Some((op, rs)) => match l {
            Ok(a) => {
                let ghost o1 = out@;
                proof {
                    assert(decreases_to!(*c => c.right));
                    assert(decreases_to!(c.right => c.right->Some_0));
                    assert(decreases_to!(c.right->Some_0 => c.right->Some_0.1));
                }
                let re = ev_sum_x(rs, sc, stash, out);
                proof {
                    lemma_wrote_trans(o0, o1, out@, ev_sum(c.left.view(), sc.view(), strs_view(stash@)).out, ev_sum(rs.view(), sc.view(), strs_view(stash@)).out);
                }
                match re {
                    Ok(b) => Ok(AllayData::Bool(compare_x(*op, &a, &b))),
                    Err(x) => Err(x),
                }
            },
            Err(x) => Err(x),
        },
    }
}

/// The comparisons of a conjunction from the `i`-th on.
fn ev_and_rest_x<'a>(a: &And, i: usize, sc: &PageScope, stash: &Vec<String>, out: &mut Vec<Token<'a>>) -> (r: Result<AllayData, InterpretError>)
    ensures
        evaluates(r, old(out)@, final(out)@, ev_and_rest(comps_view(a.0@), i as int, sc.view(), strs_view(stash@))),
    decreases a, a.0@.len() - i,
{
    proof {
        lemma_comps_view(a.0@);
        lemma_wrote_nothing(out@);
    }
    if i >= a.0.len() {
        return Ok(AllayData::Bool(true));
    }
    let ghost o0 = out@;
    proof {
        assert(decreases_to!(*a => a.0));
        assert(decreases_to!(a.0 => a.0@));
        assert(decreases_to!(a.0@ => a.0@[i as int]));
    }
    let e = ev_comp_x(&a.0[i], sc, stash, out);
    let ghost o1 = out@;
    match e {
        Ok(AllayData::Bool(false)) => Ok(AllayData::Bool(false)),
        Ok(AllayData::Bool(true)) => {
            let r = ev_and_rest_x(a, i + 1, sc, stash, out);
            proof {
                lemma_wrote_trans(o0, o1, out@, ev_comp(a.0@[i as int].view(), sc.view(), strs_view(stash@)).out, ev_and_rest(comps_view(a.0@), i + 1, sc.view(), strs_view(stash@)).out);
            }
            r
        },
        Ok(_) => Err(type_error("not a boolean")),
        Err(x) => Err(x),
    }
}

/// The value of a conjunction.
fn ev_and_x<'a>(a: &And, sc: &PageScope, stash: &Vec<String>, out: &mut Vec<Token<'a>>) -> (r: Result<AllayData, InterpretError>)
    ensures
        evaluates(r, old(out)@, final(out)@, ev_and(comps_view(a.0@), sc.view(), strs_view(stash@))),
    decreases a, a.0@.len() + 1,
{
    proof {
        lemma_comps_view(a.0@);
        lemma_wrote_nothing(out@);
    }
    if a.0.len() == 0 {
        return Ok(AllayData::Null);
    }
    if a.0.len() == 1 {
        proof {
            assert(decreases_to!(*a => a.0));
            assert(decreases_to!(a.0 => a.0@));
            assert(decreases_to!(a.0@ => a.0@[0]));
        }
        return ev_comp_x(&a.0[0], sc, stash, out);
    }
    ev_and_rest_x(a, 0, sc, stash, out)
}

/// The alternatives of a disjunction from the `i`-th on.
fn ev_or_rest_x<'a>(e: &Expression, i: usize, sc: &PageScope, stash: &Vec<String>, out: &mut Vec<Token<'a>>) -> (r: Result<AllayData, InterpretError>)
    ensures
        evaluates(r, old(out)@, final(out)@, ev_or_rest(e.view(), i as int, sc.view(), strs_view(stash@))),
    decreases e, e.0.0@.len() - i,
{
    proof {
        lemma_ands_view(e.0.0@);
        lemma_wrote_nothing(out@);
    }
    if i >= e.0.0.len() {
        return Ok(AllayData::Bool(false));
    }
    let ghost o0 = out@;
    proof {
        assert(decreases_to!(*e => e.0));
        assert(decreases_to!(e.0 => e.0.0));
        assert(decreases_to!(e.0.0 => e.0.0@));
        assert(decreases_to!(e.0.0@ => e.0.0@[i as int]));
    }
    let a = ev_and_x(&e.0.0[i], sc, stash, out);
    let ghost o1 = out@;
    match a {
        Ok(AllayData::Bool(true)) => Ok(AllayData::Bool(true)),
        Ok(AllayData::Bool(false)) => {
            let r = ev_or_rest_x(e, i + 1, sc, stash, out);
            proof {
                lemma_wrote_trans(o0, o1, out@, ev_and(comps_view(e.0.0@[i as int].0@), sc.view(), strs_view(stash@)).out, ev_or_rest(e.view(), i + 1, sc.view(), strs_view(stash@)).out);
            }
            r
        },
        Ok(_) => Err(type_error("not a boolean")),
        Err(x) => Err(x),
    }
}

/// The value of an expression.
pub fn ev_expr_x<'a>(e: &Expression, sc: &PageScope, stash: &Vec<String>, out: &mut Vec<Token<'a>>) -> (r: Result<AllayData, InterpretError>)
    ensures
        evaluates(r, old(out)@, final(out)@, ev_expr(e.view(), sc.view(), strs_view(stash@))),
    decreases e, e.0.0@.len() + 1,
{
    proof {
        lemma_ands_view(e.0.0@);
        lemma_wrote_nothing(out@);
    }
    if e.0.0.len() == 0 {
        return Ok(AllayData::Null);
    }
    if e.0.0.len() == 1 {
        proof {
            assert(decreases_to!(*e => e.0));
            assert(decreases_to!(e.0 => e.0.0));
            assert(decreases_to!(e.0.0 => e.0.0@));
            assert(decreases_to!(e.0.0@ => e.0.0@[0]));
        }
        return ev_and_x(&e.0.0[0], sc, stash, out);
    }
    ev_or_rest_x(e, 0, sc, stash, out)
}


/// Whether a run of the interpreter agrees with the semantics: the scope it
/// leaves, what it writes out, and the error that stopped it.
pub open spec fn runs<'a>(
    r: Result<(), InterpretError>,
    sc: ScopeV,
    old: Seq<Token<'a>>,
    new: Seq<Token<'a>>,
    run: Run,
) -> bool {
    sc == run.scope && wrote(old, new, run.out) && match r {
        Ok(()) => run.err is None,
        Err(e) => run.err == Some(e.view()),
    }
}

/// The values of expressions from the `i`-th on.
fn ev_list_x<'a>(es: &Vec<Expression>, i: usize, sc: &PageScope, stash: &Vec<String>, out: &mut Vec<Token<'a>>) -> (r: Result<Vec<AllayData>, InterpretError>)
    ensures
        match r {
            Ok(vs) => ev_list(exprs_view(es@), i as int, sc.view(), strs_view(stash@)).0 == Ok::<Seq<DataView>, IErr>(list_view(vs@)),
            Err(x) => ev_list(exprs_view(es@), i as int, sc.view(), strs_view(stash@)).0 == Err::<Seq<DataView>, IErr>(x.view()),
        },
        wrote(old(out)@, final(out)@, ev_list(exprs_view(es@), i as int, sc.view(), strs_view(stash@)).1),
    decreases es@.len() - i,
{
    proof {
        lemma_exprs_view(es@);
        lemma_wrote_nothing(out@);
    }
    if i >= es.len() {
        let v: Vec<AllayData> = Vec::new();
        assert(list_view(v@) =~= Seq::<DataView>::empty());
        return Ok(v);
    }
    let ghost o0 = out@;
    match ev_expr_x(&es[i], sc, stash, out) {
        Ok(v) => {
            let ghost o1 = out@;
            let ghost vv = v@;
            let rest = ev_list_x(es, i + 1, sc, stash, out);
            proof {
                lemma_wrote_trans(o0, o1, out@, ev_expr(es@[i as int].view(), sc.view(), strs_view(stash@)).out, ev_list(exprs_view(es@), i + 1, sc.view(), strs_view(stash@)).1);
            }
            match rest {
                Ok(mut vs) => {
                    let ghost before = vs@;
                    vs.insert(0, v);
                    proof {
                        lemma_list_view(before);
                        lemma_list_view(vs@);
                        assert(list_view(vs@) =~= seq![vv] + list_view(before));
                    }
                    Ok(vs)
                },
                Err(x) => Err(x),
            }
        },
        Err(x) => Err(x),
    }
}

/// A shortcode call.
fn it_shortcode_x<'a>(
    name: &String,
    ps: &Vec<Expression>,
    inner: Option<&'a Template>,
    sc: &PageScope,
    stash: &Vec<String>,
    out: &mut Vec<Token<'a>>,
) -> (r: Result<(), InterpretError>)
    ensures
        runs(
            r,
            sc.view(),
            old(out)@,
            final(out)@,
            it_shortcode(
                name@,
                exprs_view(ps@),
                match inner {
                    Some(t) => Some(t.view()),
                    None => None,
                },
                sc.view(),
                strs_view(stash@),
            ),
        ),
{
    let vals = match ev_list_x(ps, 0, sc, stash, out) {
        Ok(v) => v,
        Err(x) => return Err(x),
    };
    match sc.this_data() {
        AllayData::Object(o) => {
            let snapshot = match inner {
                Some(t) => Some((t, sc.duplicate())),
                None => None,
            };
            let ghost before = out@;
            out.push(
                Token::Subpage(
                    Subpage { kind: SubKind::ShortCode, name: name.clone(), scope: PageScope::new_from(o, vals), inner: snapshot },
                ),
            );
            assert(tokens_view(out@) =~= tokens_view(before).push(out@.last().view()));
            Ok(())
        },
        _ => Err(type_error("not an object")),
    }
}

/// An include.
fn it_include_x<'a>(path: &String, ps: &Vec<Expression>, sc: &PageScope, stash: &Vec<String>, out: &mut Vec<Token<'a>>) -> (r: Result<(), InterpretError>)
    ensures
        runs(r, sc.view(), old(out)@, final(out)@, it_include(path@, exprs_view(ps@), sc.view(), strs_view(stash@))),
{
    proof {
        lemma_exprs_view(ps@);
        lemma_wrote_nothing(out@);
    }
    let ghost o0 = out@;
    let first = if ps.len() > 0 {
        ev_expr_x(&ps[0], sc, stash, out)
    } else {
        Ok(sc.this_data())
    };
    let inh = match first {
        Ok(v) => v,
        Err(x) => return Err(x),
    };
    let ghost o1 = out@;
    let vals = ev_list_x(ps, 1, sc, stash, out);
    proof {
        let f = if ps@.len() > 0 {
            ev_expr(ps@[0].view(), sc.view(), strs_view(stash@))
        } else {
            Ev { value: Ok(crate::scope::this_data(sc.view())), out: Seq::empty() }
        };
        lemma_wrote_trans(o0, o1, out@, f.out, ev_list(exprs_view(ps@), 1, sc.view(), strs_view(stash@)).1);
    }
    let vals = match vals {
        Ok(v) => v,
        Err(x) => return Err(x),
    };
    match inh {
        AllayData::Object(o) => {
            let ghost before = out@;
            out.push(
                Token::Subpage(
                    Subpage { kind: SubKind::Include, name: path.clone(), scope: PageScope::new_from(o, vals), inner: None },
                ),
            );
            assert(tokens_view(out@) =~= tokens_view(before).push(out@.last().view()));
            Ok(())
        },
        _ => Err(type_error("not an object")),
    }
}


/// Interprets one control.
#[verifier::rlimit(40)]
fn it_control_x<'a>(c: &'a Control, sc: &mut PageScope, stash: &Vec<String>, out: &mut Vec<Token<'a>>) -> (r: Result<(), InterpretError>)
    ensures
        runs(r, final(sc).view(), old(out)@, final(out)@, it_control(c.view(), old(sc).view(), strs_view(stash@))),
    decreases c, 2int, 0int,
{
    match c {
        Control::Text(_) => it_text_x(c, sc, stash, out),
        Control::ShortCode(_) => it_shortcode_control_x(c, sc, stash, out),
        Control::Command(Command::SetVar(_)) => it_set_x(c, sc, stash, out),
        Control::Command(Command::For(_)) => it_for_cmd_x(c, sc, stash, out),
        Control::Command(Command::With(_)) => it_with_x(c, sc, stash, out),
        Control::Command(Command::If(_)) => it_if_x(c, sc, stash, out),
        Control::Command(Command::Include(_)) => it_include_control_x(c, sc, stash, out),
        Control::Substitution(_) => it_subst_x(c, sc, stash, out),
    }
}

/// Text: written out as it is.
fn it_text_x<'a>(c: &'a Control, sc: &mut PageScope, stash: &Vec<String>, out: &mut Vec<Token<'a>>) -> (r: Result<(), InterpretError>)
    requires
        c matches Control::Text(_),
    ensures
        runs(r, final(sc).view(), old(out)@, final(out)@, it_control(c.view(), old(sc).view(), strs_view(stash@))),
{
    let ghost o0 = out@;
    match c {
        Control::Text(t) => {
            out.push(Token::Text(t.clone()));
            assert(tokens_view(out@) =~= tokens_view(o0) + seq![TokenV::Text(t@)]);
            Ok(())
        },
        _ => Ok(()),
    }
}

/// A shortcode control.
fn it_shortcode_control_x<'a>(c: &'a Control, sc: &mut PageScope, stash: &Vec<String>, out: &mut Vec<Token<'a>>) -> (r: Result<(), InterpretError>)
    requires
        c matches Control::ShortCode(_),
    ensures
        runs(r, final(sc).view(), old(out)@, final(out)@, it_control(c.view(), old(sc).view(), strs_view(stash@))),
{
    match c {
        Control::ShortCode(ShortCode::Single(s)) => it_shortcode_x(&s.name, &s.parameters, None, sc, stash, out),
        Control::ShortCode(ShortCode::Block(b)) => it_shortcode_x(&b.name, &b.parameters, Some(&b.inner), sc, stash, out),
        _ => Ok(()),
    }
}

/// An include control.
fn it_include_control_x<'a>(c: &'a Control, sc: &mut PageScope, stash: &Vec<String>, out: &mut Vec<Token<'a>>) -> (r: Result<(), InterpretError>)
    requires
        c matches Control::Command(Command::Include(_)),
    ensures
        runs(r, final(sc).view(), old(out)@, final(out)@, it_control(c.view(), old(sc).view(), strs_view(stash@))),
{
    match c {
        Control::Command(Command::Include(inc)) => it_include_x(&inc.path, &inc.parameters, sc, stash, out),
        _ => Ok(()),
    }
}

/// `set`: defines a local variable in the current scope.
fn it_set_x<'a>(c: &'a Control, sc: &mut PageScope, stash: &Vec<String>, out: &mut Vec<Token<'a>>) -> (r: Result<(), InterpretError>)
    requires
        c matches Control::Command(Command::SetVar(_)),
    ensures
        runs(r, final(sc).view(), old(out)@, final(out)@, it_control(c.view(), old(sc).view(), strs_view(stash@))),
{
    match c {
        Control::Command(Command::SetVar(s)) => match ev_expr_x(&s.value, sc, stash, out) {
            Ok(v) => {
                sc.create_local(s.name.clone(), v);
                Ok(())
            },
            Err(x) => Err(x),
        },
        _ => Ok(()),
    }
}

/// A substitution: writes out the text of a value that is not null.
fn it_subst_x<'a>(c: &'a Control, sc: &mut PageScope, stash: &Vec<String>, out: &mut Vec<Token<'a>>) -> (r: Result<(), InterpretError>)
    requires
        c matches Control::Substitution(_),
    ensures
        runs(r, final(sc).view(), old(out)@, final(out)@, it_control(c.view(), old(sc).view(), strs_view(stash@))),
{
    match c {
        Control::Substitution(s) => match ev_expr_x(&s.expr, sc, stash, out) {
            Ok(v) => {
                if v.is_null() {
                    Ok(())
                } else {
                    let ghost o1 = out@;
                    out.push(Token::Text(v.render()));
                    assert(tokens_view(out@) =~= tokens_view(o1).push(TokenV::Text(render_text(v@))));
                    Ok(())
                }
            },
            Err(x) => Err(x),
        },
        _ => Ok(()),
    }
}

/// `for`: runs the loop over the items of a list.
fn it_for_cmd_x<'a>(c: &'a Control, sc: &mut PageScope, stash: &Vec<String>, out: &mut Vec<Token<'a>>) -> (r: Result<(), InterpretError>)
    requires
        c matches Control::Command(Command::For(_)),
    ensures
        runs(r, final(sc).view(), old(out)@, final(out)@, it_for_cmd(c.view(), old(sc).view(), strs_view(stash@))),
    decreases c, 1int, 0int,
{
    let ghost o0 = out@;
    let ghost s0 = sc.view();
    match c {
        Control::Command(Command::For(f)) => match ev_expr_x(&f.list, sc, stash, out) {
            Ok(AllayData::List(items)) => {
                let ghost o1 = out@;
                let r = it_for_x(c, &items, 0, sc, stash, out);
                proof {
                    lemma_wrote_trans(o0, o1, out@, ev_expr(f.list.view(), s0, strs_view(stash@)).out, it_for(c.view(), list_view(items@), 0, s0, strs_view(stash@)).out);
                }
                r
            },
            Ok(_) => Err(type_error("not a list")),
            Err(x) => Err(x),
        },
        _ => Ok(()),
    }
}

/// `with`: interprets the inner template in a local scope opened on a value.
fn it_with_x<'a>(c: &'a Control, sc: &mut PageScope, stash: &Vec<String>, out: &mut Vec<Token<'a>>) -> (r: Result<(), InterpretError>)
    requires
        c matches Control::Command(Command::With(_)),
    ensures
        runs(r, final(sc).view(), old(out)@, final(out)@, it_with(c.view(), old(sc).view(), strs_view(stash@))),
    decreases c, 1int, 0int,
{
    let ghost o0 = out@;
    let ghost s0 = sc.view();
    match c {
        Control::Command(Command::With(w)) => match ev_expr_x(&w.scope, sc, stash, out) {
            Ok(v) => {
                let ghost o1 = out@;
                let ghost vv = v@;
                sc.create_sub_scope(LocalVar::create(v));
                proof {
                    assert(decreases_to!(*c => c->Command_0));
                    assert(decreases_to!(c->Command_0 => c->Command_0->With_0));
                    assert(decreases_to!(c->Command_0->With_0 => c->Command_0->With_0.inner));
                    assert(decreases_to!(c->Command_0->With_0.inner => c->Command_0->With_0.inner.controls));
                }
                let r = it_seq_x(&w.inner.controls, 0, sc, stash, out);
                proof {
                    lemma_wrote_trans(o0, o1, out@, ev_expr(w.scope.view(), s0, strs_view(stash@)).out, it_seq(w.inner.view(), 0, push_sub(s0, vv), strs_view(stash@)).out);
                }
                match r {
                    Ok(()) => {
                        sc.exit_sub_scope();
                        Ok(())
                    },
                    Err(x) => Err(x),
                }
            },
            Err(x) => Err(x),
        },
        _ => Ok(()),
    }
}

/// `if`: interprets one branch by a boolean.
fn it_if_x<'a>(c: &'a Control, sc: &mut PageScope, stash: &Vec<String>, out: &mut Vec<Token<'a>>) -> (r: Result<(), InterpretError>)
    requires
        c matches Control::Command(Command::If(_)),
    ensures
        runs(r, final(sc).view(), old(out)@, final(out)@, it_if(c.view(), old(sc).view(), strs_view(stash@))),
    decreases c, 1int, 0int,
{
    let ghost o0 = out@;
    let ghost s0 = sc.view();
    match c {
        Control::Command(Command::If(f)) => match ev_expr_x(&f.condition, sc, stash, out) {
            Ok(AllayData::Bool(b)) => {
                let ghost o1 = out@;
                proof {
                    assert(decreases_to!(*c => c->Command_0));
                    assert(decreases_to!(c->Command_0 => c->Command_0->If_0));
                    assert(decreases_to!(c->Command_0->If_0 => c->Command_0->If_0.inner));
                    assert(decreases_to!(c->Command_0->If_0.inner => c->Command_0->If_0.inner.controls));
                }
                if b {
                    let r = it_seq_x(&f.inner.controls, 0, sc, stash, out);
                    proof {
                        lemma_wrote_trans(o0, o1, out@, ev_expr(f.condition.view(), s0, strs_view(stash@)).out, it_seq(f.inner.view(), 0, s0, strs_view(stash@)).out);
                    }
                    r
                } else {
                    match &f.else_inner {
                        Some(o) => {
                            proof {
                                assert(decreases_to!(c->Command_0->If_0 => c->Command_0->If_0.else_inner));
                                assert(decreases_to!(c->Command_0->If_0.else_inner => c->Command_0->If_0.else_inner->Some_0));
                                assert(decreases_to!(c->Command_0->If_0.else_inner->Some_0 => c->Command_0->If_0.else_inner->Some_0.controls));
                            }
                            let r = it_seq_x(&o.controls, 0, sc, stash, out);
                            proof {
                                lemma_wrote_trans(o0, o1, out@, ev_expr(f.condition.view(), s0, strs_view(stash@)).out, it_seq(o.view(), 0, s0, strs_view(stash@)).out);
                            }
                            r
                        },
                        None => {
                            proof {
                                assert(tokens_view(out@) =~= tokens_view(o0) + ev_expr(f.condition.view(), s0, strs_view(stash@)).out);
                            }
                            Ok(())
                        },
                    }
                }
            },
            Ok(_) => Err(type_error("not a boolean")),
            Err(x) => Err(x),
        },
        _ => Ok(()),
    }
}

/// The iterations of a loop from the `j`-th item on.
fn it_for_x<'a>(c: &'a Control, items: &Vec<AllayData>, j: usize, sc: &mut PageScope, stash: &Vec<String>, out: &mut Vec<Token<'a>>) -> (r: Result<(), InterpretError>)
    ensures
        runs(r, final(sc).view(), old(out)@, final(out)@, it_for(c.view(), list_view(items@), j as int, old(sc).view(), strs_view(stash@))),
    decreases c, 0int, items@.len() - j,
{
    proof {
        lemma_wrote_nothing(out@);
        lemma_list_view(items@);
    }
    let ghost o0 = out@;
    match c {
        Control::Command(Command::For(f)) => {
            if j >= items.len() {
                return Ok(());
            }
            sc.create_local(f.item_name.clone(), items[j].duplicate());
            match &f.index_name {
                Some(n) => {
                    #[verifier::truncate]
                    let idx = (j as i32) as i64;
                    sc.create_local(n.clone(), AllayData::Int(idx));
                },
                None => {},
            }
            let ghost s2 = sc.view();
            proof {
                assert(decreases_to!(*c => c->Command_0));
                assert(decreases_to!(c->Command_0 => c->Command_0->For_0));
                assert(decreases_to!(c->Command_0->For_0 => c->Command_0->For_0.inner));
                assert(decreases_to!(c->Command_0->For_0.inner => c->Command_0->For_0.inner.controls));
            }
            match it_seq_x(&f.inner.controls, 0, sc, stash, out) {
                Ok(()) => {
                    let ghost o1 = out@;
                    let r = it_for_x(c, items, j + 1, sc, stash, out);
                    proof {
                        lemma_wrote_trans(o0, o1, out@, it_seq(f.inner.view(), 0, s2, strs_view(stash@)).out, it_for(c.view(), list_view(items@), j + 1, sc_after(s2, f.inner.view(), strs_view(stash@)), strs_view(stash@)).out);
                    }
                    r
                },
                Err(x) => Err(x),
            }
        },
        _ => Ok(()),
    }
}

/// The scope after interpreting a template.
pub open spec fn sc_after(sc: ScopeV, cs: Seq<ControlV>, stash: Seq<Seq<char>>) -> ScopeV {
    it_seq(cs, 0, sc, stash).scope
}

/// Interprets the controls from the `i`-th on.
fn it_seq_x<'a>(cs: &'a Vec<Control>, i: usize, sc: &mut PageScope, stash: &Vec<String>, out: &mut Vec<Token<'a>>) -> (r: Result<(), InterpretError>)
    ensures
        runs(r, final(sc).view(), old(out)@, final(out)@, it_seq(controls_view(cs@), i as int, old(sc).view(), strs_view(stash@))),
    decreases cs, 0int, cs@.len() - i,
{
    proof {
        lemma_wrote_nothing(out@);
        lemma_controls_view(cs@);
    }
    if i >= cs.len() {
        proof {
            lemma_it_seq_end(controls_view(cs@), i as int, sc.view(), strs_view(stash@));
        }
        return Ok(());
    }
    let ghost o0 = out@;
    let ghost s0 = sc.view();
    proof {
        assert(decreases_to!(cs => cs@));
        assert(decreases_to!(cs@ => cs@[i as int]));
    }
    let ghost st = strs_view(stash@);
    let ghost cv = controls_view(cs@);
    assert(cv[i as int] == cs@[i as int].view());
    proof {
        lemma_it_seq_step(cv, i as int, s0, st);
    }
    match it_control_x(&cs[i], sc, stash, out) {
        Ok(()) => {
            let ghost o1 = out@;
            let ghost s1 = sc.view();
            let ghost run1 = it_control(cv[i as int], s0, st);
            assert(run1.err is None && s1 == run1.scope);
            let r = it_seq_x(cs, i + 1, sc, stash, out);
            proof {
                let run2 = it_seq(cv, i + 1, s1, st);
                lemma_wrote_trans(o0, o1, out@, run1.out, run2.out);
            }
            r
        },
        Err(x) => Err(x),
    }
}

/// Interprets a template in a scope, given the keys of the stashed pages.
/// It gives back what it writes out (text, stashed pages and subpage
/// requests, in order) and the error that stopped it, if any; the scope is
/// left as the template leaves it.
pub fn interpret<'a>(t: &'a Template, sc: &mut PageScope, stash: &Vec<String>) -> (r: (Vec<Token<'a>>, Result<(), InterpretError>))
    ensures
        runs(r.1, final(sc).view(), Seq::empty(), r.0@, it_seq(t.view(), 0, old(sc).view(), strs_view(stash@))),
{
    let mut out: Vec<Token<'a>> = Vec::new();
    let res = it_seq_x(&t.controls, 0, sc, stash, &mut out);
    (out, res)
}

} // verus!
