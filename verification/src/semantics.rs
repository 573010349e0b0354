//! What templates mean: the value of an expression in a scope, and what
//! interpreting a template writes out and does to the scope.

use crate::ast::{AddSubOp, ComparisonOp, CompV, ControlV, ExprV, MulDivOp, PartV, PrimV, ProdV, SumV, TopV, UnaryOp, UnaryV};
use crate::data::{meaning, put, render_text, DataView};
use crate::error::IErr;
use crate::scope::{fields_from, local_of, this_data, this_field, LocalV, ScopeV};
use vstd::prelude::*;

verus! {

/// The order of two values, where they have one.
#[derive(Debug, Clone, Copy, PartialEq, Eq, Structural)]
pub enum Order {
    Less,
    Equal,
    Greater,
}

/// The order of two integers.
pub open spec fn int_order(a: int, b: int) -> Order {
    if a < b {
        Order::Less
    } else if a == b {
        Order::Equal
    } else {
        Order::Greater
    }
}

/// The lexicographic order of two strings, character by character.
pub open spec fn str_order(a: Seq<char>, b: Seq<char>) -> Order
    decreases a.len(),
{
    if a.len() == 0 && b.len() == 0 {
        Order::Equal
    } else if a.len() == 0 {
        Order::Less
    } else if b.len() == 0 {
        Order::Greater
    } else if a[0] < b[0] {
        Order::Less
    } else if a[0] > b[0] {
        Order::Greater
    } else {
        str_order(a.drop_first(), b.drop_first())
    }
}

/// The order of two values: booleans (`false` first), integers and strings
/// among themselves, and null equal to null; no order otherwise.
pub open spec fn order_of(a: DataView, b: DataView) -> Option<Order> {
    match (a, b) {
        (DataView::Bool(x), DataView::Bool(y)) => Some(
            if x == y {
                Order::Equal
            } else if !x {
                Order::Less
            } else {
                Order::Greater
            },
        ),
        (DataView::Null, DataView::Null) => Some(Order::Equal),
        (DataView::Int(x), DataView::Int(y)) => Some(int_order(x as int, y as int)),
        (DataView::Str(x), DataView::Str(y)) => Some(str_order(x, y)),
        _ => None,
    }
}

/// The order seen from the other side.
pub open spec fn flip(o: Option<Order>) -> Option<Order> {
    match o {
        Some(Order::Less) => Some(Order::Greater),
        Some(Order::Greater) => Some(Order::Less),
        other => other,
    }
}

proof fn lemma_str_order(a: Seq<char>, b: Seq<char>)
    ensures
        str_order(b, a) == match str_order(a, b) {
            Order::Less => Order::Greater,
            Order::Greater => Order::Less,
            Order::Equal => Order::Equal,
        },
        str_order(a, b) == Order::Equal <==> a == b,
    decreases a.len(),
{
    if a.len() > 0 && b.len() > 0 && a[0] == b[0] {
        lemma_str_order(a.drop_first(), b.drop_first());
        if a.drop_first() == b.drop_first() {
            assert(a =~= seq![a[0]] + a.drop_first());
            assert(b =~= seq![b[0]] + b.drop_first());
            assert(a =~= b);
        }
    }
    if a.len() == 0 && b.len() == 0 {
        assert(a =~= b);
    }
}

proof fn lemma_str_order_trans(a: Seq<char>, b: Seq<char>, c: Seq<char>)
    requires
        str_order(a, b) == Order::Less,
        str_order(b, c) == Order::Less,
    ensures
        str_order(a, c) == Order::Less,
    decreases a.len(),
{
    if a.len() > 0 && b.len() > 0 && c.len() > 0 && a[0] == b[0] && b[0] == c[0] {
        lemma_str_order_trans(a.drop_first(), b.drop_first(), c.drop_first());
    }
}

/// The order of values reads the same from either side: `a` is before `b`
/// exactly when `b` is after `a`, and two values are in order with each
/// other or not at all, both ways.
pub proof fn law_order_dual(a: DataView, b: DataView)
    ensures
        order_of(b, a) == flip(order_of(a, b)),
{
    match (a, b) {
        (DataView::Str(x), DataView::Str(y)) => lemma_str_order(x, y),
        _ => {},
    }
}

/// Two values that are not lists or objects are equal exactly when their
/// order says so. (Lists and objects have no order, though two of them
/// can be equal.)
pub proof fn law_order_agrees_with_eq(a: DataView, b: DataView)
    requires
        !(a is List) && !(a is Obj),
        !(b is List) && !(b is Obj),
    ensures
        order_of(a, b) == Some(Order::Equal) <==> meaning(a) == meaning(b),
{
    match (a, b) {
        (DataView::Str(x), DataView::Str(y)) => lemma_str_order(x, y),
        _ => {},
    }
}

/// The order of values is transitive.
pub proof fn law_order_transitive(a: DataView, b: DataView, c: DataView)
    requires
        order_of(a, b) == Some(Order::Less),
        order_of(b, c) == Some(Order::Less),
    ensures
        order_of(a, c) == Some(Order::Less),
{
    match (a, b, c) {
        (DataView::Str(x), DataView::Str(y), DataView::Str(z)) => lemma_str_order_trans(x, y, z),
        _ => {},
    }
}

/// The result of a comparison: equality by meaning, the other comparisons
/// by order (false where there is none).
pub open spec fn compare(op: ComparisonOp, a: DataView, b: DataView) -> bool {
    match op {
        ComparisonOp::Equal => meaning(a) == meaning(b),
        ComparisonOp::NotEqual => meaning(a) != meaning(b),
        ComparisonOp::Greater => order_of(a, b) == Some(Order::Greater),
        ComparisonOp::GreaterEqual => order_of(a, b) == Some(Order::Greater) || order_of(a, b) == Some(
            Order::Equal,
        ),
        ComparisonOp::Less => order_of(a, b) == Some(Order::Less),
        ComparisonOp::LessEqual => order_of(a, b) == Some(Order::Less) || order_of(a, b) == Some(
            Order::Equal,
        ),
    }
}

/// What interpretation writes out.
pub enum TokenV {
    /// Text of the page.
    Text(Seq<char>),
    /// The page stashed under a key.
    Stash(Seq<char>),
    /// A subpage: an include or a shortcode, by name, with its scope; a block
    /// shortcode also carries its inner template and the scope it is
    /// compiled in.
    Sub(SubKind, Seq<char>, ScopeV, Option<(Seq<ControlV>, ScopeV)>),
}

/// Where a subpage is looked for.
#[derive(Debug, Clone, Copy, PartialEq, Eq, Structural)]
pub enum SubKind {
    Include,
    ShortCode,
}

/// The value of an expression and what its evaluation writes out.
pub struct Ev {
    pub value: Result<DataView, IErr>,
    pub out: Seq<TokenV>,
}

/// The value of a field access. A single key with no root that names a
/// stashed page writes that page out and is null.
pub open spec fn ev_field(top: Option<TopV>, parts: Seq<PartV>, sc: ScopeV, stash: Seq<Seq<char>>) -> Ev {
    if top is None && parts.len() == 1 && parts[0] is Name && stash.contains(parts[0]->Name_0) {
        Ev { value: Ok(DataView::Null), out: seq![TokenV::Stash(parts[0]->Name_0)] }
    } else {
        Ev {
            value: match top {
                None => this_field(sc, parts),
                Some(TopV::This) => this_field(sc, parts),
                Some(TopV::Param) => fields_from(sc.param, parts, 0),
                Some(TopV::Var(id)) => match local_of(sc, id) {
                    Some(d) => fields_from(d, parts, 0),
                    None => Err(IErr::VarNotFound(id)),
                },
            },
            out: Seq::empty(),
        }
    }
}

/// The value of a root.
pub open spec fn ev_top(t: TopV, sc: ScopeV) -> Result<DataView, IErr> {
    match t {
        TopV::This => Ok(this_data(sc)),
        TopV::Param => Ok(sc.param),
        TopV::Var(id) => match local_of(sc, id) {
            Some(d) => Ok(d),
            None => Err(IErr::VarNotFound(id)),
        },
    }
}

/// The value of a primary.
pub open spec fn ev_prim(p: PrimV, sc: ScopeV, stash: Seq<Seq<char>>) -> Ev
    decreases p, 0int,
{
    match p {
        PrimV::Num(n) => Ev { value: Ok(DataView::Int(n as i64)), out: Seq::empty() },
        PrimV::Bool(b) => Ev { value: Ok(DataView::Bool(b)), out: Seq::empty() },
        PrimV::Str(s) => Ev { value: Ok(DataView::Str(s)), out: Seq::empty() },
        PrimV::Top(t) => Ev { value: ev_top(t, sc), out: Seq::empty() },
        PrimV::Field(top, parts) => ev_field(top, parts, sc, stash),
        PrimV::Paren(e) => ev_expr(e, sc, stash),
    }
}

/// A prefix operator on a value: `+` and `-` on integers, `!` on booleans.
pub open spec fn apply_unary(op: UnaryOp, v: DataView) -> Result<DataView, IErr> {
    match v {
        DataView::Int(x) => match op {
            UnaryOp::Positive => Ok(DataView::Int(x)),
            UnaryOp::Negative => match 0i64.checked_sub(x) {
                Some(y) => Ok(DataView::Int(y)),
                None => Err(IErr::Arith("integer overflow"@)),
            },
            UnaryOp::Not => Err(IErr::Type("not a boolean"@)),
        },
        DataView::Bool(b) => match op {
            UnaryOp::Not => Ok(DataView::Bool(!b)),
            _ => Err(IErr::Type("not an integer"@)),
        },
        _ => Err(IErr::Type("not an integer or a boolean"@)),
    }
}

/// The value of an operand.
pub open spec fn ev_unary(u: UnaryV, sc: ScopeV, stash: Seq<Seq<char>>) -> Ev
    decreases u, 0int,
{
    match u {
        UnaryV::Prim(p) => ev_prim(p, sc, stash),
        UnaryV::Op(op, p) => {
            let e = ev_prim(p, sc, stash);
            Ev {
                value: match e.value {
                    Ok(v) => apply_unary(op, v),
                    Err(x) => Err(x),
                },
                out: e.out,
            }
        },
    }
}

/// A multiplicative operation on integers: overflow and division by zero
/// are errors; division and remainder truncate toward zero.
pub open spec fn apply_mul(op: MulDivOp, a: i64, b: i64) -> Result<DataView, IErr> {
    let r = match op {
        MulDivOp::Multiply => a.checked_mul(b),
        MulDivOp::Divide => a.checked_div(b),
        MulDivOp::Modulo => a.checked_rem(b),
    };
    match r {
        Some(v) => Ok(DataView::Int(v)),
        None => Err(IErr::Arith("integer overflow or division by zero"@)),
    }
}

/// An additive operation on integers: overflow is an error.
pub open spec fn apply_add(op: AddSubOp, a: i64, b: i64) -> Result<DataView, IErr> {
    let r = match op {
        AddSubOp::Add => a.checked_add(b),
        AddSubOp::Subtract => a.checked_sub(b),
    };
    match r {
        Some(v) => Ok(DataView::Int(v)),
        None => Err(IErr::Arith("integer overflow"@)),
    }
}

/// An integer value, or a type error.
pub open spec fn as_int(v: Result<DataView, IErr>) -> Result<i64, IErr> {
    match v {
        Ok(DataView::Int(i)) => Ok(i),
        Ok(_) => Err(IErr::Type("not an integer"@)),
        Err(e) => Err(e),
    }
}

/// A boolean value, or a type error.
pub open spec fn as_bool(v: Result<DataView, IErr>) -> Result<bool, IErr> {
    match v {
        Ok(DataView::Bool(b)) => Ok(b),
        Ok(_) => Err(IErr::Type("not a boolean"@)),
        Err(e) => Err(e),
    }
}

/// The factors of a product from the `i`-th on, applied to `acc`.
pub open spec fn ev_prod_rest(p: ProdV, i: int, acc: i64, sc: ScopeV, stash: Seq<Seq<char>>) -> Ev
    decreases p, p.rights.len() - i,
{
    if i < 0 || i >= p.rights.len() {
        Ev { value: Ok(DataView::Int(acc)), out: Seq::empty() }
    } else {
        let e = ev_unary(p.rights[i].1, sc, stash);
        match as_int(e.value) {
            Ok(v) => match apply_mul(p.rights[i].0, acc, v) {
                Ok(DataView::Int(n)) => {
                    let rest = ev_prod_rest(p, i + 1, n, sc, stash);
                    Ev { value: rest.value, out: e.out + rest.out }
                },
                Ok(_) => Ev { value: Err(IErr::Type("not an integer"@)), out: e.out },
                Err(x) => Ev { value: Err(x), out: e.out },
            },
            Err(x) => Ev { value: Err(x), out: e.out },
        }
    }
}

/// The value of a product: its operand alone, or integer operations from
/// left to right.
pub open spec fn ev_prod(p: ProdV, sc: ScopeV, stash: Seq<Seq<char>>) -> Ev
    decreases p, p.rights.len() + 1,
{
    let e = ev_unary(p.left, sc, stash);
    if p.rights.len() == 0 {
        e
    } else {
        match as_int(e.value) {
            Ok(v) => {
                let rest = ev_prod_rest(p, 0, v, sc, stash);
                Ev { value: rest.value, out: e.out + rest.out }
            },
            Err(x) => Ev { value: Err(x), out: e.out },
        }
    }
}

/// The terms of a sum from the `i`-th on, applied to `acc`.
pub open spec fn ev_sum_rest(s: SumV, i: int, acc: i64, sc: ScopeV, stash: Seq<Seq<char>>) -> Ev
    decreases s, s.rights.len() - i,
{
    if i < 0 || i >= s.rights.len() {
        Ev { value: Ok(DataView::Int(acc)), out: Seq::empty() }
    } else {
        let e = ev_prod(s.rights[i].1, sc, stash);
        match as_int(e.value) {
            Ok(v) => match apply_add(s.rights[i].0, acc, v) {
                Ok(DataView::Int(n)) => {
                    let rest = ev_sum_rest(s, i + 1, n, sc, stash);
                    Ev { value: rest.value, out: e.out + rest.out }
                },
                Ok(_) => Ev { value: Err(IErr::Type("not an integer"@)), out: e.out },
                Err(x) => Ev { value: Err(x), out: e.out },
            },
            Err(x) => Ev { value: Err(x), out: e.out },
        }
    }
}

/// The value of a sum: its term alone, or integer operations from left to
/// right.
pub open spec fn ev_sum(s: SumV, sc: ScopeV, stash: Seq<Seq<char>>) -> Ev
    decreases s, s.rights.len() + 1,
{
    let e = ev_prod(s.left, sc, stash);
    if s.rights.len() == 0 {
        e
    } else {
        match as_int(e.value) {
            Ok(v) => {
                let rest = ev_sum_rest(s, 0, v, sc, stash);
                Ev { value: rest.value, out: e.out + rest.out }
            },
            Err(x) => Ev { value: Err(x), out: e.out },
        }
    }
}

/// The value of a comparison: its sum alone, or a boolean.
pub open spec fn ev_comp(c: CompV, sc: ScopeV, stash: Seq<Seq<char>>) -> Ev
    decreases c, 0int,
{
    let l = ev_sum(c.left, sc, stash);
    match c.right {
        None => l,
        Some((op, r)) => match l.value {
            Ok(a) => {
                let re = ev_sum(r, sc, stash);
                Ev {
                    value: match re.value {
                        Ok(b) => Ok(DataView::Bool(compare(op, a, b))),
                        Err(x) => Err(x),
                    },
                    out: l.out + re.out,
                }
            },
            Err(x) => Ev { value: Err(x), out: l.out },
        },
    }
}

/// The comparisons of a conjunction from the `i`-th on: false at the first
/// false one, true when none is.
pub open spec fn ev_and_rest(cs: Seq<CompV>, i: int, sc: ScopeV, stash: Seq<Seq<char>>) -> Ev
    decreases cs, cs.len() - i,
{
    if i < 0 || i >= cs.len() {
        Ev { value: Ok(DataView::Bool(true)), out: Seq::empty() }
    } else {
        let e = ev_comp(cs[i], sc, stash);
        match as_bool(e.value) {
            Ok(false) => Ev { value: Ok(DataView::Bool(false)), out: e.out },
            Ok(true) => {
                let rest = ev_and_rest(cs, i + 1, sc, stash);
                Ev { value: rest.value, out: e.out + rest.out }
            },
            Err(x) => Ev { value: Err(x), out: e.out },
        }
    }
}

/// The value of a conjunction: its comparison alone, or a boolean from left
/// to right, stopping at the first false.
pub open spec fn ev_and(cs: Seq<CompV>, sc: ScopeV, stash: Seq<Seq<char>>) -> Ev
    decreases cs, cs.len() + 1,
{
    if cs.len() == 0 {
        Ev { value: Ok(DataView::Null), out: Seq::empty() }
    } else if cs.len() == 1 {
        ev_comp(cs[0], sc, stash)
    } else {
        ev_and_rest(cs, 0, sc, stash)
    }
}

/// The alternatives of a disjunction from the `i`-th on: true at the first
/// true one, false when none is.
pub open spec fn ev_or_rest(e: ExprV, i: int, sc: ScopeV, stash: Seq<Seq<char>>) -> Ev
    decreases e, e.ors.len() - i,
{
    if i < 0 || i >= e.ors.len() {
        Ev { value: Ok(DataView::Bool(false)), out: Seq::empty() }
    } else {
        let a = ev_and(e.ors[i], sc, stash);
        match as_bool(a.value) {
            Ok(true) => Ev { value: Ok(DataView::Bool(true)), out: a.out },
            Ok(false) => {
                let rest = ev_or_rest(e, i + 1, sc, stash);
                Ev { value: rest.value, out: a.out + rest.out }
            },
            Err(x) => Ev { value: Err(x), out: a.out },
        }
    }
}

/// The value of an expression: its conjunction alone, or a boolean from
/// left to right, stopping at the first true.
pub open spec fn ev_expr(e: ExprV, sc: ScopeV, stash: Seq<Seq<char>>) -> Ev
    decreases e, e.ors.len() + 1,
{
    if e.ors.len() == 0 {
        Ev { value: Ok(DataView::Null), out: Seq::empty() }
    } else if e.ors.len() == 1 {
        ev_and(e.ors[0], sc, stash)
    } else {
        ev_or_rest(e, 0, sc, stash)
    }
}


/// The scope after defining a local variable in the current scope.
pub open spec fn with_local(sc: ScopeV, id: Seq<char>, v: DataView) -> ScopeV {
    if sc.subs.len() == 0 {
        ScopeV { locals: put(sc.locals, id, v), ..sc }
    } else {
        ScopeV {
            subs: sc.subs.update(
                sc.subs.len() - 1,
                LocalV { this: sc.subs.last().this, locals: put(sc.subs.last().locals, id, v) },
            ),
            ..sc
        }
    }
}

/// The scope with a local scope opened on `v`.
pub open spec fn push_sub(sc: ScopeV, v: DataView) -> ScopeV {
    ScopeV { subs: sc.subs.push(LocalV { this: v, locals: Seq::empty() }), ..sc }
}

/// The scope with its innermost local scope closed, if any.
pub open spec fn pop_sub(sc: ScopeV) -> ScopeV {
    if sc.subs.len() > 0 {
        ScopeV { subs: sc.subs.drop_last(), ..sc }
    } else {
        sc
    }
}

/// The scope of a subpage: it inherits `inh` and is given `params`.
pub open spec fn sub_scope(inh: Seq<(Seq<char>, DataView)>, params: Seq<DataView>) -> ScopeV {
    ScopeV { owned: Seq::empty(), inherited: Some(inh), subs: Seq::empty(), locals: Seq::empty(), param: DataView::List(params) }
}

/// The values of the expressions from the `i`-th on, and what their
/// evaluation writes out; the first error stops it.
pub open spec fn ev_list(es: Seq<ExprV>, i: int, sc: ScopeV, stash: Seq<Seq<char>>) -> (Result<Seq<DataView>, IErr>, Seq<TokenV>)
    decreases es.len() - i,
{
    if i < 0 || i >= es.len() {
        (Ok(Seq::empty()), Seq::empty())
    } else {
        let e = ev_expr(es[i], sc, stash);
        match e.value {
            Ok(v) => {
                let (rest, out) = ev_list(es, i + 1, sc, stash);
                (
                    match rest {
                        Ok(vs) => Ok(seq![v] + vs),
                        Err(x) => Err(x),
                    },
                    e.out + out,
                )
            },
            Err(x) => (Err(x), e.out),
        }
    }
}

/// What interpreting writes out, the scope it leaves, and the error that
/// stopped it, if any.
pub struct Run {
    pub scope: ScopeV,
    pub out: Seq<TokenV>,
    pub err: Option<IErr>,
}

/// A shortcode call: its arguments are evaluated, then it inherits the
/// current `this`, which must be an object.
pub open spec fn it_shortcode(name: Seq<char>, ps: Seq<ExprV>, inner: Option<Seq<ControlV>>, sc: ScopeV, stash: Seq<Seq<char>>) -> Run {
    let (pr, pt) = ev_list(ps, 0, sc, stash);
    match pr {
        Err(x) => Run { scope: sc, out: pt, err: Some(x) },
        Ok(vals) => match this_data(sc) {
            DataView::Obj(inh) => Run {
                scope: sc,
                out: pt.push(
                    TokenV::Sub(
                        SubKind::ShortCode,
                        name,
                        sub_scope(inh, vals),
                        match inner {
                            Some(t) => Some((t, sc)),
                            None => None,
                        },
                    ),
                ),
                err: None,
            },
            _ => Run { scope: sc, out: pt, err: Some(IErr::Type("not an object"@)) },
        },
    }
}

/// An include: its first argument, or the current `this`, is what the
/// included page inherits and must be an object; the other arguments are
/// its parameters.
pub open spec fn it_include(path: Seq<char>, ps: Seq<ExprV>, sc: ScopeV, stash: Seq<Seq<char>>) -> Run {
    let first = if ps.len() > 0 {
        ev_expr(ps[0], sc, stash)
    } else {
        Ev { value: Ok(this_data(sc)), out: Seq::empty() }
    };
    match first.value {
        Err(x) => Run { scope: sc, out: first.out, err: Some(x) },
        Ok(inh) => {
            let (pr, pt) = ev_list(ps, 1, sc, stash);
            match pr {
                Err(x) => Run { scope: sc, out: first.out + pt, err: Some(x) },
                Ok(vals) => match inh {
                    DataView::Obj(o) => Run {
                        scope: sc,
                        out: (first.out + pt).push(TokenV::Sub(SubKind::Include, path, sub_scope(o, vals), None)),
                        err: None,
                    },
                    _ => Run { scope: sc, out: first.out + pt, err: Some(IErr::Type("not an object"@)) },
                },
            }
        },
    }
}

/// `set`: the value of the expression becomes a local variable of the
/// current scope.
pub open spec fn it_assign(name: Seq<char>, e: ExprV, sc: ScopeV, stash: Seq<Seq<char>>) -> Run {
    let ev = ev_expr(e, sc, stash);
    match ev.value {
        Ok(v) => Run { scope: with_local(sc, name, v), out: ev.out, err: None },
        Err(x) => Run { scope: sc, out: ev.out, err: Some(x) },
    }
}

/// A substitution: the text of the value, unless it is null.
pub open spec fn it_subst(e: ExprV, sc: ScopeV, stash: Seq<Seq<char>>) -> Run {
    let ev = ev_expr(e, sc, stash);
    match ev.value {
        Ok(DataView::Null) => Run { scope: sc, out: ev.out, err: None },
        Ok(v) => Run { scope: sc, out: ev.out.push(TokenV::Text(render_text(v))), err: None },
        Err(x) => Run { scope: sc, out: ev.out, err: Some(x) },
    }
}

/// `for`: the loop over the items of a list.
pub open spec fn it_for_cmd(c: ControlV, sc: ScopeV, stash: Seq<Seq<char>>) -> Run
    decreases c, 1int, 0int,
{
    match c {
        ControlV::For(_, _, e, _) => {
            let ev = ev_expr(e, sc, stash);
            match ev.value {
                Ok(DataView::List(items)) => {
                    let r = it_for(c, items, 0, sc, stash);
                    Run { scope: r.scope, out: ev.out + r.out, err: r.err }
                },
                Ok(_) => Run { scope: sc, out: ev.out, err: Some(IErr::Type("not a list"@)) },
                Err(x) => Run { scope: sc, out: ev.out, err: Some(x) },
            }
        },
        _ => Run { scope: sc, out: Seq::empty(), err: None },
    }
}

/// `with`: the inner template in a local scope opened on the value, closed
/// again when the template runs through.
pub open spec fn it_with(c: ControlV, sc: ScopeV, stash: Seq<Seq<char>>) -> Run
    decreases c, 1int, 0int,
{
    match c {
        ControlV::With(e, inner) => {
            let ev = ev_expr(e, sc, stash);
            match ev.value {
                Ok(v) => {
                    let r = it_seq(inner, 0, push_sub(sc, v), stash);
                    Run {
                        scope: if r.err is None {
                            pop_sub(r.scope)
                        } else {
                            r.scope
                        },
                        out: ev.out + r.out,
                        err: r.err,
                    }
                },
                Err(x) => Run { scope: sc, out: ev.out, err: Some(x) },
            }
        },
        _ => Run { scope: sc, out: Seq::empty(), err: None },
    }
}

/// `if`: the first template when the condition is true, the other (if any)
/// when it is false; the condition must be a boolean.
pub open spec fn it_if(c: ControlV, sc: ScopeV, stash: Seq<Seq<char>>) -> Run
    decreases c, 1int, 0int,
{
    match c {
        ControlV::If(e, inner, other) => {
            let ev = ev_expr(e, sc, stash);
            match as_bool(ev.value) {
                Ok(true) => {
                    let r = it_seq(inner, 0, sc, stash);
                    Run { scope: r.scope, out: ev.out + r.out, err: r.err }
                },
                Ok(false) => match other {
                    Some(o) => {
                        let r = it_seq(o, 0, sc, stash);
                        Run { scope: r.scope, out: ev.out + r.out, err: r.err }
                    },
                    None => Run { scope: sc, out: ev.out, err: None },
                },
                Err(x) => Run { scope: sc, out: ev.out, err: Some(x) },
            }
        },
        _ => Run { scope: sc, out: Seq::empty(), err: None },
    }
}

/// Interpreting one control.
pub open spec fn it_control(c: ControlV, sc: ScopeV, stash: Seq<Seq<char>>) -> Run
    decreases c, 2int, 0int,
{
    match c {
        ControlV::Text(t) => Run { scope: sc, out: seq![TokenV::Text(t)], err: None },
        ControlV::Single(name, ps) => it_shortcode(name, ps, None, sc, stash),
        ControlV::Block(name, ps, inner) => it_shortcode(name, ps, Some(inner), sc, stash),
        ControlV::Assign(name, e) => it_assign(name, e, sc, stash),
        ControlV::For(_, _, _, _) => it_for_cmd(c, sc, stash),
        ControlV::With(_, _) => it_with(c, sc, stash),
        ControlV::If(_, _, _) => it_if(c, sc, stash),
        ControlV::Include(path, ps) => it_include(path, ps, sc, stash),
        ControlV::Subst(e) => it_subst(e, sc, stash),
    }
}

/// The iterations of a loop from the `j`-th item on: each defines the item
/// variable (and the index variable, with the index as an `i32`), then
/// interprets the loop's template.
pub open spec fn it_for(c: ControlV, items: Seq<DataView>, j: int, sc: ScopeV, stash: Seq<Seq<char>>) -> Run
    decreases c, 0int, items.len() - j,
{
    match c {
        ControlV::For(item, index, _, inner) => if 0 <= j < items.len() {
            let sc1 = with_local(sc, item, items[j]);
            let sc2 = match index {
                Some(n) => with_local(sc1, n, DataView::Int((j as i32) as i64)),
                None => sc1,
            };
            let r = it_seq(inner, 0, sc2, stash);
            if r.err is Some {
                r
            } else {
                let r2 = it_for(c, items, j + 1, r.scope, stash);
                Run { scope: r2.scope, out: r.out + r2.out, err: r2.err }
            }
        } else {
            Run { scope: sc, out: Seq::empty(), err: None }
        },
        _ => Run { scope: sc, out: Seq::empty(), err: None },
    }
}

/// Interpreting the controls from the `i`-th on, in order; the first error
/// stops it.
pub open spec fn it_seq(cs: Seq<ControlV>, i: int, sc: ScopeV, stash: Seq<Seq<char>>) -> Run
    decreases cs, 0int, cs.len() - i,
{
    if i < 0 || i >= cs.len() {
        Run { scope: sc, out: Seq::empty(), err: None }
    } else {
        let r = it_control(cs[i], sc, stash);
        if r.err is Some {
            r
        } else {
            let r2 = it_seq(cs, i + 1, r.scope, stash);
            Run { scope: r2.scope, out: r.out + r2.out, err: r2.err }
        }
    }
}


/// One step of interpreting a sequence of controls.
pub proof fn lemma_it_seq_step(cs: Seq<ControlV>, i: int, sc: ScopeV, stash: Seq<Seq<char>>)
    requires
        0 <= i < cs.len(),
    ensures
        it_seq(cs, i, sc, stash) == (if it_control(cs[i], sc, stash).err is Some {
            it_control(cs[i], sc, stash)
        } else {
            Run {
                scope: it_seq(cs, i + 1, it_control(cs[i], sc, stash).scope, stash).scope,
                out: it_control(cs[i], sc, stash).out + it_seq(cs, i + 1, it_control(cs[i], sc, stash).scope, stash).out,
                err: it_seq(cs, i + 1, it_control(cs[i], sc, stash).scope, stash).err,
            }
        }),
{
}

/// Interpreting past the end of a sequence of controls does nothing.
pub proof fn lemma_it_seq_end(cs: Seq<ControlV>, i: int, sc: ScopeV, stash: Seq<Seq<char>>)
    requires
        i >= cs.len(),
    ensures
        it_seq(cs, i, sc, stash) == (Run { scope: sc, out: Seq::empty(), err: None }),
{
}


/// A local variable defined in the current scope is what that name then
/// reads.
pub proof fn law_local_defined(sc: ScopeV, id: Seq<char>, v: DataView)
    ensures
        crate::scope::local_of(with_local(sc, id, v), id) == Some(v),
{
    crate::data::law_insert_then_get(sc.locals, id, v, id);
    if sc.subs.len() > 0 {
        crate::data::law_insert_then_get(sc.subs.last().locals, id, v, id);
        let s2 = with_local(sc, id, v);
        assert(s2.subs.last().locals == put(sc.subs.last().locals, id, v));
    }
}

/// `set` defines a variable: after `{- set $x = e -}` runs, `$x` reads the
/// value of `e`.
pub proof fn law_set_then_read(name: Seq<char>, e: ExprV, sc: ScopeV, stash: Seq<Seq<char>>, v: DataView)
    requires
        ev_expr(e, sc, stash).value == Ok::<DataView, IErr>(v),
    ensures
        it_assign(name, e, sc, stash).err is None,
        crate::scope::local_of(it_assign(name, e, sc, stash).scope, name) == Some(v),
{
    law_local_defined(sc, name, v);
}


/// Strings are ordered lexicographically. Where `a` and `b` agree on their
/// first `k` characters, the order is decided at position `k`: a string
/// that ends there comes first (equal when both end), and otherwise the
/// smaller character comes first, whatever the lengths.
pub proof fn law_str_order_lexicographic(a: Seq<char>, b: Seq<char>, k: int)
    requires
        0 <= k <= a.len(),
        k <= b.len(),
        a.subrange(0, k) == b.subrange(0, k),
    ensures
        k == a.len() && k == b.len() ==> order_of(DataView::Str(a), DataView::Str(b)) == Some(Order::Equal),
        k == a.len() && k < b.len() ==> order_of(DataView::Str(a), DataView::Str(b)) == Some(Order::Less),
        k < a.len() && k == b.len() ==> order_of(DataView::Str(a), DataView::Str(b)) == Some(Order::Greater),
        k < a.len() && k < b.len() && a[k] < b[k] ==> order_of(DataView::Str(a), DataView::Str(b)) == Some(
            Order::Less,
        ),
        k < a.len() && k < b.len() && a[k] > b[k] ==> order_of(DataView::Str(a), DataView::Str(b)) == Some(
            Order::Greater,
        ),
    decreases k,
{
    if k > 0 {
        assert(a[0] == a.subrange(0, k)[0]);
        assert(b[0] == b.subrange(0, k)[0]);
        let a1 = a.drop_first();
        let b1 = b.drop_first();
        assert(a1.subrange(0, k - 1) =~= b1.subrange(0, k - 1)) by {
            assert forall|i: int| 0 <= i < k - 1 implies #[trigger] a1.subrange(0, k - 1)[i] == b1.subrange(0, k - 1)[i] by {
                assert(a.subrange(0, k)[i + 1] == b.subrange(0, k)[i + 1]);
                assert(a1.subrange(0, k - 1)[i] == a1[i]);
                assert(b1.subrange(0, k - 1)[i] == b1[i]);
                assert(a1[i] == a[i + 1] && a.subrange(0, k)[i + 1] == a[i + 1]);
                assert(b1[i] == b[i + 1] && b.subrange(0, k)[i + 1] == b[i + 1]);
            }
        }
        law_str_order_lexicographic(a1, b1, k - 1);
        if k < a.len() && k < b.len() {
            assert(a1[k - 1] == a[k] && b1[k - 1] == b[k]);
        }
    }
}

/// Addition and subtraction of integers are those of arithmetic, left
/// operand first, and overflow is an error.
pub proof fn law_add_sub_arith(a: i64, b: i64)
    ensures
        i64::MIN <= a + b <= i64::MAX ==> (apply_add(AddSubOp::Add, a, b) matches Ok(DataView::Int(v)) && v == a + b),
        !(i64::MIN <= a + b <= i64::MAX) ==> apply_add(AddSubOp::Add, a, b) == Err::<DataView, IErr>(
            IErr::Arith("integer overflow"@),
        ),
        i64::MIN <= a - b <= i64::MAX ==> (apply_add(AddSubOp::Subtract, a, b) matches Ok(DataView::Int(v)) && v
            == a - b),
        !(i64::MIN <= a - b <= i64::MAX) ==> apply_add(AddSubOp::Subtract, a, b) == Err::<DataView, IErr>(
            IErr::Arith("integer overflow"@),
        ),
{
}

/// Multiplication of integers is that of arithmetic, and overflow is an
/// error.
pub proof fn law_mul_arith(a: i64, b: i64)
    ensures
        i64::MIN <= a * b <= i64::MAX ==> (apply_mul(MulDivOp::Multiply, a, b) matches Ok(DataView::Int(v)) && v
            == a * b),
        !(i64::MIN <= a * b <= i64::MAX) ==> apply_mul(MulDivOp::Multiply, a, b) == Err::<DataView, IErr>(
            IErr::Arith("integer overflow or division by zero"@),
        ),
        apply_mul(MulDivOp::Divide, a, 0) == Err::<DataView, IErr>(
            IErr::Arith("integer overflow or division by zero"@),
        ),
        apply_mul(MulDivOp::Modulo, a, 0) == Err::<DataView, IErr>(
            IErr::Arith("integer overflow or division by zero"@),
        ),
{
}

/// A sum of two terms is their arithmetic sum or difference, the left term
/// first.
pub proof fn law_sum_of_two(s: SumV, sc: ScopeV, stash: Seq<Seq<char>>, x: i64, y: i64)
    requires
        s.rights.len() == 1,
        ev_prod(s.left, sc, stash).value == Ok::<DataView, IErr>(DataView::Int(x)),
        ev_prod(s.rights[0].1, sc, stash).value == Ok::<DataView, IErr>(DataView::Int(y)),
    ensures
        s.rights[0].0 == AddSubOp::Add && i64::MIN <= x + y <= i64::MAX ==> (ev_sum(s, sc, stash).value matches Ok(
            DataView::Int(v),
        ) && v == x + y),
        s.rights[0].0 == AddSubOp::Subtract && i64::MIN <= x - y <= i64::MAX ==> (ev_sum(s, sc, stash).value matches Ok(
            DataView::Int(v),
        ) && v == x - y),
{
    law_add_sub_arith(x, y);
    let e = ev_prod(s.rights[0].1, sc, stash);
    match apply_add(s.rights[0].0, x, y) {
        Ok(DataView::Int(n)) => {
            assert(ev_sum_rest(s, 1, n, sc, stash).value == Ok::<DataView, IErr>(DataView::Int(n)));
        },
        _ => {},
    }
}

/// A product of two factors is their arithmetic product.
pub proof fn law_product_of_two(p: ProdV, sc: ScopeV, stash: Seq<Seq<char>>, x: i64, y: i64)
    requires
        p.rights.len() == 1,
        p.rights[0].0 == MulDivOp::Multiply,
        ev_unary(p.left, sc, stash).value == Ok::<DataView, IErr>(DataView::Int(x)),
        ev_unary(p.rights[0].1, sc, stash).value == Ok::<DataView, IErr>(DataView::Int(y)),
        i64::MIN <= x * y <= i64::MAX,
    ensures
        ev_prod(p, sc, stash).value matches Ok(DataView::Int(v)) && v == x * y,
{
    law_mul_arith(x, y);
    match apply_mul(p.rights[0].0, x, y) {
        Ok(DataView::Int(n)) => {
            assert(ev_prod_rest(p, 1, n, sc, stash).value == Ok::<DataView, IErr>(DataView::Int(n)));
        },
        _ => {},
    }
}

/// Prefix operators: `-` negates an integer (overflow is an error), `+`
/// keeps it, and `!` negates a boolean.
pub proof fn law_unary(x: i64, b: bool)
    ensures
        x != i64::MIN ==> (apply_unary(UnaryOp::Negative, DataView::Int(x)) matches Ok(DataView::Int(v)) && v == -x),
        apply_unary(UnaryOp::Negative, DataView::Int(i64::MIN)) == Err::<DataView, IErr>(
            IErr::Arith("integer overflow"@),
        ),
        apply_unary(UnaryOp::Positive, DataView::Int(x)) == Ok::<DataView, IErr>(DataView::Int(x)),
        apply_unary(UnaryOp::Not, DataView::Bool(b)) == Ok::<DataView, IErr>(DataView::Bool(!b)),
{
}

/// Comparisons of integers are those of arithmetic, and `false` comes
/// before `true`.
pub proof fn law_compare_ints(x: i64, y: i64, p: bool, q: bool)
    ensures
        compare(ComparisonOp::Less, DataView::Int(x), DataView::Int(y)) == (x < y),
        compare(ComparisonOp::LessEqual, DataView::Int(x), DataView::Int(y)) == (x <= y),
        compare(ComparisonOp::Greater, DataView::Int(x), DataView::Int(y)) == (x > y),
        compare(ComparisonOp::GreaterEqual, DataView::Int(x), DataView::Int(y)) == (x >= y),
        compare(ComparisonOp::Equal, DataView::Int(x), DataView::Int(y)) == (x == y),
        compare(ComparisonOp::NotEqual, DataView::Int(x), DataView::Int(y)) == (x != y),
        compare(ComparisonOp::Less, DataView::Bool(p), DataView::Bool(q)) == (!p && q),
        compare(ComparisonOp::Greater, DataView::Bool(p), DataView::Bool(q)) == (p && !q),
{
}

/// `if` runs its first template when the condition is true: what it
/// writes is what the condition wrote, then what that template writes, and
/// the scope and error are those of the template. When the condition is
/// false it runs the `else` template, or does nothing more; a condition
/// that is not a boolean is an error.
pub proof fn law_if_branches(e: ExprV, inner: Seq<ControlV>, other: Option<Seq<ControlV>>, sc: ScopeV, stash: Seq<Seq<char>>)
    ensures
        ev_expr(e, sc, stash).value == Ok::<DataView, IErr>(DataView::Bool(true)) ==> it_control(
            ControlV::If(e, inner, other),
            sc,
            stash,
        ) == (Run {
            scope: it_seq(inner, 0, sc, stash).scope,
            out: ev_expr(e, sc, stash).out + it_seq(inner, 0, sc, stash).out,
            err: it_seq(inner, 0, sc, stash).err,
        }),
        ev_expr(e, sc, stash).value == Ok::<DataView, IErr>(DataView::Bool(false)) && other is Some ==> it_control(
            ControlV::If(e, inner, other),
            sc,
            stash,
        ) == (Run {
            scope: it_seq(other.unwrap(), 0, sc, stash).scope,
            out: ev_expr(e, sc, stash).out + it_seq(other.unwrap(), 0, sc, stash).out,
            err: it_seq(other.unwrap(), 0, sc, stash).err,
        }),
        ev_expr(e, sc, stash).value == Ok::<DataView, IErr>(DataView::Bool(false)) && other is None ==> it_control(
            ControlV::If(e, inner, other),
            sc,
            stash,
        ) == (Run { scope: sc, out: ev_expr(e, sc, stash).out, err: None }),
        (ev_expr(e, sc, stash).value matches Ok(v) && !(v is Bool)) ==> it_control(
            ControlV::If(e, inner, other),
            sc,
            stash,
        ).err == Some(IErr::Type("not a boolean"@)),
{
}


/// A conjunction of two comparisons is true exactly when both are.
pub proof fn law_and(c1: CompV, c2: CompV, sc: ScopeV, stash: Seq<Seq<char>>, b1: bool, b2: bool)
    requires
        ev_comp(c1, sc, stash).value == Ok::<DataView, IErr>(DataView::Bool(b1)),
        ev_comp(c2, sc, stash).value == Ok::<DataView, IErr>(DataView::Bool(b2)),
    ensures
        ev_and(seq![c1, c2], sc, stash).value == Ok::<DataView, IErr>(DataView::Bool(b1 && b2)),
{
    let cs = seq![c1, c2];
    assert(cs[0] == c1 && cs[1] == c2);
    let r2 = ev_and_rest(cs, 2, sc, stash);
    assert(r2.value == Ok::<DataView, IErr>(DataView::Bool(true)));
    let r1 = ev_and_rest(cs, 1, sc, stash);
    assert(r1.value == Ok::<DataView, IErr>(DataView::Bool(b2)));
    let r0 = ev_and_rest(cs, 0, sc, stash);
    assert(r0.value == Ok::<DataView, IErr>(DataView::Bool(b1 && b2)));
}

/// A disjunction of two conjunctions is true exactly when one is.
pub proof fn law_or(e: ExprV, sc: ScopeV, stash: Seq<Seq<char>>, b1: bool, b2: bool)
    requires
        e.ors.len() == 2,
        ev_and(e.ors[0], sc, stash).value == Ok::<DataView, IErr>(DataView::Bool(b1)),
        ev_and(e.ors[1], sc, stash).value == Ok::<DataView, IErr>(DataView::Bool(b2)),
    ensures
        ev_expr(e, sc, stash).value == Ok::<DataView, IErr>(DataView::Bool(b1 || b2)),
{
    let r2 = ev_or_rest(e, 2, sc, stash);
    assert(r2.value == Ok::<DataView, IErr>(DataView::Bool(false)));
    let r1 = ev_or_rest(e, 1, sc, stash);
    assert(r1.value == Ok::<DataView, IErr>(DataView::Bool(b2)));
    let r0 = ev_or_rest(e, 0, sc, stash);
    assert(r0.value == Ok::<DataView, IErr>(DataView::Bool(b1 || b2)));
}

/// A substitution writes, after what its expression wrote, the text of the
/// value; null writes nothing.
pub proof fn law_subst(e: ExprV, sc: ScopeV, stash: Seq<Seq<char>>)
    ensures
        (ev_expr(e, sc, stash).value matches Ok(v) && !(v is Null)) ==> it_control(ControlV::Subst(e), sc, stash) == (Run {
            scope: sc,
            out: ev_expr(e, sc, stash).out + seq![TokenV::Text(render_text(ev_expr(e, sc, stash).value->Ok_0))],
            err: None,
        }),
        ev_expr(e, sc, stash).value == Ok::<DataView, IErr>(DataView::Null) ==> it_control(ControlV::Subst(e), sc, stash)
            == (Run { scope: sc, out: ev_expr(e, sc, stash).out, err: None }),
{
    let ev = ev_expr(e, sc, stash);
    if ev.value is Ok {
        assert(ev.out.push(TokenV::Text(render_text(ev.value->Ok_0))) =~= ev.out + seq![
            TokenV::Text(render_text(ev.value->Ok_0)),
        ]);
    }
}

/// `with` runs its template in a local scope whose `this` is the value of
/// its expression, writes what the expression and then the template wrote,
/// and closes that scope again when the template runs through.
pub proof fn law_with(e: ExprV, inner: Seq<ControlV>, sc: ScopeV, stash: Seq<Seq<char>>, v: DataView)
    requires
        ev_expr(e, sc, stash).value == Ok::<DataView, IErr>(v),
    ensures
        crate::scope::this_data(push_sub(sc, v)) == v,
        pop_sub(push_sub(sc, v)) == sc,
        it_control(ControlV::With(e, inner), sc, stash).out == ev_expr(e, sc, stash).out + it_seq(
            inner,
            0,
            push_sub(sc, v),
            stash,
        ).out,
        it_control(ControlV::With(e, inner), sc, stash).err == it_seq(inner, 0, push_sub(sc, v), stash).err,
        it_seq(inner, 0, push_sub(sc, v), stash).err is None ==> it_control(ControlV::With(e, inner), sc, stash).scope
            == pop_sub(it_seq(inner, 0, push_sub(sc, v), stash).scope),
{
    assert(push_sub(sc, v).subs.drop_last() =~= sc.subs);
}

/// The scope of one iteration of a loop: the item variable reads the item
/// and the index variable, if any, reads its position.
pub open spec fn iteration_scope(item: Seq<char>, index: Option<Seq<char>>, v: DataView, j: int, sc: ScopeV) -> ScopeV {
    match index {
        Some(n) => with_local(with_local(sc, item, v), n, DataView::Int(j as i64)),
        None => with_local(sc, item, v),
    }
}

/// A loop runs its template once per item, in order: the `j`-th run sees
/// the item variable set to the `j`-th item and the index variable to `j`;
/// what it writes is followed by what the later runs write, and an error
/// stops the loop. Past the last item the loop writes nothing.
pub proof fn law_for_iterations(
    item: Seq<char>,
    index: Option<Seq<char>>,
    e: ExprV,
    inner: Seq<ControlV>,
    items: Seq<DataView>,
    j: int,
    sc: ScopeV,
    stash: Seq<Seq<char>>,
)
    requires
        0 <= j <= i32::MAX,
    ensures
        j >= items.len() ==> it_for(ControlV::For(item, index, e, inner), items, j, sc, stash) == (Run {
            scope: sc,
            out: Seq::empty(),
            err: None,
        }),
        j < items.len() ==> {
            let sc2 = iteration_scope(item, index, items[j], j, sc);
            let r = it_seq(inner, 0, sc2, stash);
            let whole = it_for(ControlV::For(item, index, e, inner), items, j, sc, stash);
            &&& index is Some && index.unwrap() != item ==> crate::scope::local_of(sc2, item) == Some(items[j])
            &&& index is None ==> crate::scope::local_of(sc2, item) == Some(items[j])
            &&& index is Some ==> crate::scope::local_of(sc2, index.unwrap()) == Some(DataView::Int(j as i64))
            &&& r.err is Some ==> whole == r
            &&& r.err is None ==> whole.out == r.out + it_for(
                ControlV::For(item, index, e, inner),
                items,
                j + 1,
                r.scope,
                stash,
            ).out
        },
{
    if j < items.len() {
        let sc1 = with_local(sc, item, items[j]);
        law_local_defined(sc, item, items[j]);
        assert((j as i32) as i64 == j as i64);
        match index {
            Some(n) => {
                law_local_defined(sc1, n, DataView::Int(j as i64));
                if n != item {
                    lemma_other_local_kept(sc1, n, DataView::Int(j as i64), item);
                }
            },
            None => {},
        }
    }
}

/// Defining one local variable leaves what every other name reads.
proof fn lemma_other_local_kept(sc: ScopeV, id: Seq<char>, v: DataView, other: Seq<char>)
    requires
        other != id,
    ensures
        crate::scope::local_of(with_local(sc, id, v), other) == crate::scope::local_of(sc, other),
{
    crate::data::law_insert_then_get(sc.locals, id, v, other);
    if sc.subs.len() > 0 {
        crate::data::law_insert_then_get(sc.subs.last().locals, id, v, other);
        let s2 = with_local(sc, id, v);
        assert(s2.subs.last().locals == put(sc.subs.last().locals, id, v));
        assert(s2.subs.drop_last() =~= sc.subs.drop_last());
    }
}

/// A loop over a list runs its iterations from the first item, after what
/// its expression wrote; a loop over anything else is an error.
pub proof fn law_for_list(
    item: Seq<char>,
    index: Option<Seq<char>>,
    e: ExprV,
    inner: Seq<ControlV>,
    sc: ScopeV,
    stash: Seq<Seq<char>>,
)
    ensures
        (ev_expr(e, sc, stash).value matches Ok(DataView::List(items))) ==> it_control(
            ControlV::For(item, index, e, inner),
            sc,
            stash,
        ).out == ev_expr(e, sc, stash).out + it_for(
            ControlV::For(item, index, e, inner),
            ev_expr(e, sc, stash).value->Ok_0->List_0,
            0,
            sc,
            stash,
        ).out,
        (ev_expr(e, sc, stash).value matches Ok(v) && !(v is List)) ==> it_control(
            ControlV::For(item, index, e, inner),
            sc,
            stash,
        ).err == Some(IErr::Type("not a list"@)),
{
}


/// Division of natural numbers with remainder.
proof fn lemma_nat_div(x: int, d: int)
    requires
        x >= 0,
        d > 0,
    ensures
        d * (x / d) + x % d == x,
        0 <= x % d < d,
        0 <= x / d <= x,
        d >= 2 ==> x / d <= x / 2,
{
    vstd::arithmetic::div_mod::lemma_fundamental_div_mod(x, d);
    vstd::arithmetic::div_mod::lemma_mod_pos_bound(x, d);
    vstd::arithmetic::div_mod::lemma_div_pos_is_pos(x, d);
    vstd::arithmetic::div_mod::lemma_div_is_ordered_by_denominator(x, 1, d);
    vstd::arithmetic::div_mod::lemma_div_basics(x);
    if d >= 2 {
        vstd::arithmetic::div_mod::lemma_div_is_ordered_by_denominator(x, 2, d);
    }
}

/// Division and remainder truncate toward zero: the quotient `q` and the
/// remainder `r` satisfy `q * b + r == a`, the remainder is smaller than
/// the divisor in size and has the sign of `a` (or is zero). Division by
/// zero, and the one quotient that overflows, are errors.
pub proof fn law_div_rem(a: i64, b: i64)
    requires
        b != 0,
        !(a == i64::MIN && b == -1),
    ensures
        apply_mul(MulDivOp::Divide, a, b) matches Ok(DataView::Int(q)) && apply_mul(MulDivOp::Modulo, a, b) matches Ok(
            DataView::Int(r),
        ) && q * b + r == a && (a >= 0 ==> 0 <= r < (if b < 0 { -b } else { b as int })) && (a < 0 ==> -(if b < 0 {
            -b
        } else {
            b as int
        }) < r <= 0),
{
    let x = a as int;
    let d = b as int;
    let xa = if x < 0 { -x } else { x };
    let da = if d < 0 { -d } else { d };
    lemma_nat_div(xa, da);
    let q0 = xa / da;
    let r0 = xa % da;
    if x == 0 {
    } else if x > 0 && d > 0 {
    } else if x < 0 && d < 0 {
        assert(q0 * d + (-r0) == x) by (nonlinear_arith)
            requires
                da * q0 + r0 == xa,
                da == -d,
                xa == -x,
        ;
    } else if x < 0 {
        assert((-q0) * d + (-r0) == x) by (nonlinear_arith)
            requires
                da * q0 + r0 == xa,
                da == d,
                xa == -x,
        ;
    } else {
        assert((-q0) * d + r0 == x) by (nonlinear_arith)
            requires
                da * q0 + r0 == xa,
                da == -d,
                xa == x,
        ;
    }
}


/// The arguments of a call are evaluated in order: when they all have
/// values, the `k`-th value is that of the `k`-th argument.
pub proof fn law_arguments_in_order(es: Seq<ExprV>, i: int, sc: ScopeV, stash: Seq<Seq<char>>)
    requires
        0 <= i <= es.len(),
    ensures
        ev_list(es, i, sc, stash).0 matches Ok(vs) ==> vs.len() == es.len() - i && forall|k: int|
            0 <= k < vs.len() ==> ev_expr(#[trigger] es[i + k], sc, stash).value == Ok::<DataView, IErr>(vs[k]),
    decreases es.len() - i,
{
    if i < es.len() {
        law_arguments_in_order(es, i + 1, sc, stash);
        let e = ev_expr(es[i], sc, stash);
        if let Ok(v) = e.value {
            if let Ok(rest) = ev_list(es, i + 1, sc, stash).0 {
                let vs = seq![v] + rest;
                assert forall|k: int| 0 <= k < vs.len() implies ev_expr(#[trigger] es[i + k], sc, stash).value
                    == Ok::<DataView, IErr>(vs[k]) by {
                    if k > 0 {
                        assert(vs[k] == rest[k - 1]);
                        assert(es[i + k] == es[(i + 1) + (k - 1)]);
                    }
                }
            }
        }
    }
}

/// The page a subpage call opens reads its parameters as the list of the
/// call's arguments, and any key from the object it inherits (null when
/// the object has none).
pub proof fn law_subpage_scope(o: Seq<(Seq<char>, DataView)>, vals: Seq<DataView>, n: Seq<char>, i: usize)
    ensures
        ev_top(TopV::Param, sub_scope(o, vals)) == Ok::<DataView, IErr>(DataView::List(vals)),
        i < vals.len() ==> fields_from(sub_scope(o, vals).param, seq![PartV::Index(i)], 0) == Ok::<DataView, IErr>(
            vals[i as int],
        ),
        this_field(sub_scope(o, vals), seq![PartV::Name(n)]) == Ok::<DataView, IErr>(
            match crate::data::lookup(o, n) {
                Some(d) => d,
                None => DataView::Null,
            },
        ),
{
    let e: Seq<(Seq<char>, DataView)> = Seq::empty();
    crate::scope::law_field_steps(vals, i, o, n, DataView::Null, Seq::empty(), PartV::Index(i));
    let parts = seq![PartV::Name(n)];
    assert(parts[0] == PartV::Name(n));
    assert(crate::data::lookup(e, n) is None);
    let got = match crate::data::lookup(o, n) {
        Some(d) => d,
        None => DataView::Null,
    };
    assert(fields_from(got, parts, 1) == Ok::<DataView, IErr>(got));
}

/// A single shortcode whose arguments all have values writes, after what
/// they wrote, one subpage request: the shortcode by its name, in a page
/// that inherits the current `this` and is given the values as parameters.
pub proof fn law_shortcode(name: Seq<char>, ps: Seq<ExprV>, sc: ScopeV, stash: Seq<Seq<char>>, vals: Seq<DataView>)
    requires
        ev_list(ps, 0, sc, stash).0 == Ok::<Seq<DataView>, IErr>(vals),
        this_data(sc) is Obj,
    ensures
        it_control(ControlV::Single(name, ps), sc, stash) == (Run {
            scope: sc,
            out: ev_list(ps, 0, sc, stash).1 + seq![
                TokenV::Sub(SubKind::ShortCode, name, sub_scope(this_data(sc)->Obj_0, vals), None),
            ],
            err: None,
        }),
{
    let pt = ev_list(ps, 0, sc, stash).1;
    assert(pt.push(TokenV::Sub(SubKind::ShortCode, name, sub_scope(this_data(sc)->Obj_0, vals), None)) =~= pt + seq![
        TokenV::Sub(SubKind::ShortCode, name, sub_scope(this_data(sc)->Obj_0, vals), None),
    ]);
}

} // verus!
