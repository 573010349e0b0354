//! A path relative to a base, component by component, as
//! `Path::strip_prefix` gives it.
//!
//! A path is cut at each `/` into pieces. Its components are the root (a
//! leading `/`), or a leading `.` of a relative path, followed by every
//! piece that is neither empty nor `.`. A path lies under a base when the
//! base's components begin its own; what is left is the text after the
//! base's last component, without the empty and `.` pieces at either end.

use crate::text::{chars_of, slice_chars, string_from_chars};
use vstd::prelude::*;

verus! {

/// The pieces of a path between its `/`.
pub open spec fn pieces(s: Seq<char>) -> Seq<Seq<char>>
    decreases s.len(),
{
    if s.len() == 0 {
        seq![Seq::<char>::empty()]
    } else {
        let p = pieces(s.drop_last());
        if s.last() == '/' {
            p.push(Seq::<char>::empty())
        } else {
            p.update(p.len() - 1, p.last().push(s.last()))
        }
    }
}

/// A piece that names no component: empty, or `.`.
pub open spec fn is_skip(q: Seq<char>) -> bool {
    q.len() == 0 || q == seq!['.']
}

/// Whether the path is absolute: its first piece is empty and more follow.
pub open spec fn has_root(p: Seq<Seq<char>>) -> bool {
    p.len() > 1 && p[0].len() == 0
}

/// Whether a relative path starts with the component `.`.
pub open spec fn has_cur(p: Seq<Seq<char>>) -> bool {
    p.len() >= 1 && p[0] == seq!['.']
}

/// The number of pieces the root or the leading `.` take.
pub open spec fn head_len(p: Seq<Seq<char>>) -> int {
    if has_root(p) || has_cur(p) {
        1
    } else {
        0
    }
}

/// The leading component, with the piece it stands at: `/` for the root,
/// `.` for a leading `.`.
pub open spec fn head_comps(p: Seq<Seq<char>>) -> Seq<(Seq<char>, int)> {
    if has_root(p) {
        seq![(seq!['/'], 0int)]
    } else if has_cur(p) {
        seq![(seq!['.'], 0int)]
    } else {
        Seq::empty()
    }
}

/// The components among the pieces from `h` up to `k`, with their pieces.
pub open spec fn body_comps(p: Seq<Seq<char>>, h: int, k: int) -> Seq<(Seq<char>, int)>
    decreases k - h,
{
    if k <= h {
        Seq::empty()
    } else if is_skip(p[k - 1]) {
        body_comps(p, h, k - 1)
    } else {
        body_comps(p, h, k - 1).push((p[k - 1], k - 1))
    }
}

/// The components of a path, each with the piece it stands at.
pub open spec fn components(p: Seq<Seq<char>>) -> Seq<(Seq<char>, int)> {
    head_comps(p) + body_comps(p, head_len(p), p.len() as int)
}

/// The texts of components.
pub open spec fn tokens(c: Seq<(Seq<char>, int)>) -> Seq<Seq<char>> {
    Seq::new(c.len(), |i: int| c[i].0)
}

/// The first piece from `i` on that names a component, or the end.
pub open spec fn skip_from(p: Seq<Seq<char>>, i: int) -> int
    decreases p.len() - i,
{
    if 0 <= i < p.len() && is_skip(p[i]) {
        skip_from(p, i + 1)
    } else {
        i
    }
}

/// The end of the pieces before `k` once the trailing pieces that name no
/// component, down to `lo`, are dropped.
pub open spec fn trim_back(p: Seq<Seq<char>>, lo: int, k: int) -> int
    decreases k,
{
    if k > lo && k > 0 && is_skip(p[k - 1]) {
        trim_back(p, lo, k - 1)
    } else {
        k
    }
}

/// Pieces joined by `/`.
pub open spec fn join_pieces(q: Seq<Seq<char>>) -> Seq<char>
    decreases q.len(),
{
    if q.len() == 0 {
        Seq::empty()
    } else if q.len() == 1 {
        q[0]
    } else {
        join_pieces(q.drop_last()) + seq!['/'] + q.last()
    }
}

/// The path relative to `base`, if the components of `base` begin those
/// of `path`.
pub open spec fn strip_prefix(path: Seq<char>, base: Seq<char>) -> Option<Seq<char>> {
    let p = pieces(path);
    let cp = components(p);
    let cb = components(pieces(base));
    if cb.len() > cp.len() || tokens(cb) != tokens(cp).subrange(0, cb.len() as int) {
        None
    } else if cb.len() == 0 {
        let k = trim_back(p, head_len(p), p.len() as int);
        Some(
            if k == 1 && has_root(p) {
                seq!['/']
            } else {
                join_pieces(p.subrange(0, k))
            },
        )
    } else {
        let a = skip_from(p, cp[cb.len() - 1].1 + 1);
        Some(join_pieces(p.subrange(a, trim_back(p, a, p.len() as int))))
    }
}

/// Pieces as characters.
pub open spec fn pieces_view(v: Seq<Vec<char>>) -> Seq<Seq<char>> {
    Seq::new(v.len(), |i: int| v[i]@)
}

/// Components as characters.
pub open spec fn comps_view(v: Seq<(Vec<char>, usize)>) -> Seq<(Seq<char>, int)> {
    Seq::new(v.len(), |i: int| (v[i].0@, v[i].1 as int))
}

proof fn lemma_pieces_len(s: Seq<char>)
    ensures
        pieces(s).len() >= 1,
        pieces(s).len() <= s.len() + 1,
    decreases s.len(),
{
    if s.len() > 0 {
        lemma_pieces_len(s.drop_last());
    }
}

fn pieces_x(s: &Vec<char>) -> (r: Vec<Vec<char>>)
    ensures
        pieces_view(r@) == pieces(s@),
        r@.len() >= 1,
{
    let mut out: Vec<Vec<char>> = Vec::new();
    out.push(Vec::new());
    assert(pieces_view(out@) =~= pieces(s@.subrange(0, 0)));
    let mut i: usize = 0;
    while i < s.len()
        invariant
            i <= s@.len(),
            out@.len() >= 1,
            pieces_view(out@) == pieces(s@.subrange(0, i as int)),
        decreases s.len() - i,
    {
        let ghost before = pieces_view(out@);
        assert(s@.subrange(0, i + 1).drop_last() =~= s@.subrange(0, i as int));
        if s[i] == '/' {
            out.push(Vec::new());
            assert(pieces_view(out@) =~= before.push(Seq::<char>::empty()));
        } else {
            let mut last = out.pop().unwrap();
            last.push(s[i]);
            out.push(last);
            assert(pieces_view(out@) =~= before.update(before.len() - 1, before.last().push(s@[i as int])));
        }
        i += 1;
    }
    assert(s@.subrange(0, s@.len() as int) =~= s@);
    out
}

fn chars_eq(a: &Vec<char>, b: &Vec<char>) -> (r: bool)
    ensures
        r == (a@ == b@),
{
    if a.len() != b.len() {
        return false;
    }
    let mut i: usize = 0;
    while i < a.len()
        invariant
            a@.len() == b@.len(),
            i <= a@.len(),
            forall|j: int| 0 <= j < i ==> a@[j] == b@[j],
        decreases a.len() - i,
    {
        if a[i] != b[i] {
            return false;
        }
        i += 1;
    }
    assert(a@ =~= b@);
    true
}

fn is_skip_x(q: &Vec<char>) -> (r: bool)
    ensures
        r == is_skip(q@),
{
    if q.len() == 0 {
        return true;
    }
    let r = q.len() == 1 && q[0] == '.';
    proof {
        if q@.len() == 1 && q@[0] == '.' {
            assert(q@ =~= seq!['.']);
        }
    }
    r
}

fn head_len_x(p: &Vec<Vec<char>>) -> (r: usize)
    requires
        p@.len() >= 1,
    ensures
        r == head_len(pieces_view(p@)),
        r <= 1,
{
    let ghost pv = pieces_view(p@);
    let root = p.len() > 1 && p[0].len() == 0;
    let cur = p[0].len() == 1 && p[0][0] == '.';
    proof {
        assert(pv[0] == p@[0]@);
        if p@[0]@.len() == 1 && p@[0]@[0] == '.' {
            assert(p@[0]@ =~= seq!['.']);
        }
    }
    if root || cur {
        1
    } else {
        0
    }
}

fn components_x(p: &Vec<Vec<char>>) -> (r: Vec<(Vec<char>, usize)>)
    requires
        p@.len() >= 1,
    ensures
        comps_view(r@) == components(pieces_view(p@)),
{
    let ghost pv = pieces_view(p@);
    let mut out: Vec<(Vec<char>, usize)> = Vec::new();
    let h = head_len_x(p);
    if p.len() > 1 && p[0].len() == 0 {
        let mut t = Vec::new();
        t.push('/');
        out.push((t, 0));
    } else if h == 1 {
        let mut t = Vec::new();
        t.push('.');
        out.push((t, 0));
    }
    proof {
        assert(pv[0] == p@[0]@);
        assert(comps_view(out@) =~= head_comps(pv));
    }
    let ghost hc = head_comps(pv);
    let mut k: usize = h;
    assert(body_comps(pv, h as int, k as int) =~= Seq::<(Seq<char>, int)>::empty());
    while k < p.len()
        invariant
            pv == pieces_view(p@),
            h as int == head_len(pv),
            hc == head_comps(pv),
            h <= k <= p@.len(),
            comps_view(out@) == hc + body_comps(pv, h as int, k as int),
        decreases p.len() - k,
    {
        let ghost before = comps_view(out@);
        assert(pv[k as int] == p@[k as int]@);
        if !is_skip_x(&p[k]) {
            let t = slice_chars(&p[k], 0, p[k].len());
            assert(t@ =~= p@[k as int]@);
            out.push((t, k));
            assert(comps_view(out@) =~= before.push((pv[k as int], k as int)));
        }
        k += 1;
    }
    out
}

fn skip_from_x(p: &Vec<Vec<char>>, i: usize) -> (r: usize)
    requires
        i <= p@.len(),
    ensures
        r == skip_from(pieces_view(p@), i as int),
        i <= r <= p@.len(),
{
    let ghost pv = pieces_view(p@);
    let mut j = i;
    while j < p.len() && is_skip_x(&p[j])
        invariant
            pv == pieces_view(p@),
            i <= j <= p@.len(),
            skip_from(pv, i as int) == skip_from(pv, j as int),
        decreases p.len() - j,
    {
        assert(pv[j as int] == p@[j as int]@);
        j += 1;
    }
    proof {
        if j < p@.len() {
            assert(pv[j as int] == p@[j as int]@);
        }
    }
    j
}

fn trim_back_x(p: &Vec<Vec<char>>, lo: usize, k: usize) -> (r: usize)
    requires
        k <= p@.len(),
    ensures
        r == trim_back(pieces_view(p@), lo as int, k as int),
        r <= k,
        k >= lo ==> r >= lo,
{
    let ghost pv = pieces_view(p@);
    let mut j = k;
    while j > lo && j > 0 && is_skip_x(&p[j - 1])
        invariant
            pv == pieces_view(p@),
            j <= k <= p@.len(),
            k >= lo ==> j >= lo,
            trim_back(pv, lo as int, k as int) == trim_back(pv, lo as int, j as int),
        decreases j,
    {
        assert(pv[j - 1] == p@[j - 1]@);
        j -= 1;
    }
    proof {
        if j > lo && j > 0 {
            assert(pv[j - 1] == p@[j - 1]@);
        }
    }
    j
}

fn join_x(p: &Vec<Vec<char>>, a: usize, e: usize) -> (r: Vec<char>)
    requires
        a <= e <= p@.len(),
    ensures
        r@ == join_pieces(pieces_view(p@).subrange(a as int, e as int)),
{
    let ghost pv = pieces_view(p@);
    let mut out: Vec<char> = Vec::new();
    let mut i = a;
    assert(pv.subrange(a as int, a as int) =~= Seq::<Seq<char>>::empty());
    while i < e
        invariant
            pv == pieces_view(p@),
            a <= i <= e <= p@.len(),
            out@ == join_pieces(pv.subrange(a as int, i as int)),
        decreases e - i,
    {
        let ghost before = out@;
        let ghost sub = pv.subrange(a as int, i + 1);
        assert(sub.drop_last() =~= pv.subrange(a as int, i as int));
        assert(sub.last() == p@[i as int]@);
        if i > a {
            out.push('/');
        }
        let q = &p[i];
        let mut k: usize = 0;
        let ghost mid = out@;
        while k < q.len()
            invariant
                k <= q@.len(),
                out@ == mid + q@.subrange(0, k as int),
            decreases q.len() - k,
        {
            out.push(q[k]);
            k += 1;
            assert(out@ =~= mid + q@.subrange(0, k as int));
        }
        assert(q@.subrange(0, q@.len() as int) =~= q@);
        proof {
            if i == a {
                assert(sub.len() == 1);
                assert(before == Seq::<char>::empty());
                assert(out@ =~= sub[0]);
            } else {
                assert(out@ =~= before + seq!['/'] + sub.last());
            }
        }
        i += 1;
    }
    out
}

/// The path `path` relative to `base`, if the components of `base` begin
/// those of `path`, as `Path::strip_prefix` gives it.
pub fn strip_prefix_x(path: &str, base: &str) -> (r: Option<String>)
    ensures
        match r {
            Some(x) => strip_prefix(path@, base@) == Some(x@),
            None => strip_prefix(path@, base@) is None,
        },
{
    let pc = chars_of(path);
    let bc = chars_of(base);
    let p = pieces_x(&pc);
    let b = pieces_x(&bc);
    let ghost pv = pieces_view(p@);
    let cp = components_x(&p);
    let cb = components_x(&b);
    let ghost cpv = comps_view(cp@);
    let ghost cbv = comps_view(cb@);
    assert(cbv.len() == cb@.len() && cpv.len() == cp@.len());
    assert(cbv == components(pieces(base@)));
    assert(cpv == components(pieces(path@)));
    if cb.len() > cp.len() {
        assert(cbv.len() > cpv.len());
        assert(components(pieces(base@)).len() > components(pieces(path@)).len());
        assert(strip_prefix(path@, base@) is None);
        return None;
    }
    let mut i: usize = 0;
    while i < cb.len()
        invariant
            cb@.len() <= cp@.len(),
            i <= cb@.len(),
            cpv == comps_view(cp@),
            cbv == comps_view(cb@),
            cbv == components(pieces(base@)),
            cpv == components(pieces(path@)),
            forall|j: int| 0 <= j < i ==> cbv[j].0 == cpv[j].0,
        decreases cb.len() - i,
    {
        if !chars_eq(&cb[i].0, &cp[i].0) {
            assert(tokens(cbv)[i as int] != tokens(cpv).subrange(0, cbv.len() as int)[i as int]);
            assert(tokens(cbv) != tokens(cpv).subrange(0, cbv.len() as int));
            return None;
        }
        i += 1;
    }
    assert(tokens(cbv) =~= tokens(cpv).subrange(0, cbv.len() as int));
    if cb.len() == 0 {
        let h = head_len_x(&p);
        let k = trim_back_x(&p, h, p.len());
        if k == 1 && p.len() > 1 && p[0].len() == 0 {
            proof {
                assert(pv[0] == p@[0]@);
                reveal_strlit("/");
                assert("/"@ =~= seq!['/']);
            }
            return Some("/".to_string());
        }
        proof {
            assert(pv[0] == p@[0]@);
        }
        let j = join_x(&p, 0, k);
        return Some(string_from_chars(j.as_slice()));
    }
    let m = cp[cb.len() - 1].1;
    proof {
        assert(cpv[cb.len() - 1].1 == m as int);
        // a component stands at one of the pieces
        lemma_comp_index(pv, cb.len() - 1);
        assert(cpv == components(pv));
        assert(pv.len() == p@.len());
        assert(m < p@.len());
    }
    let plen = p.len();
    assert(m < plen);
    let a = skip_from_x(&p, m + 1);
    let e = trim_back_x(&p, a, p.len());
    let j = join_x(&p, a, e);
    Some(string_from_chars(j.as_slice()))
}

proof fn lemma_body_index(p: Seq<Seq<char>>, h: int, k: int)
    requires
        0 <= h,
        k <= p.len(),
    ensures
        forall|i: int| 0 <= i < body_comps(p, h, k).len() ==> 0 <= #[trigger] body_comps(p, h, k)[i].1 < p.len(),
    decreases k - h,
{
    if k > h {
        lemma_body_index(p, h, k - 1);
        let prev = body_comps(p, h, k - 1);
        if !is_skip(p[k - 1]) {
            assert forall|i: int| 0 <= i < body_comps(p, h, k).len() implies 0 <= #[trigger] body_comps(p, h, k)[i].1 < p.len() by {
                if i < prev.len() {
                    assert(body_comps(p, h, k)[i] == prev[i]);
                }
            }
        }
    }
}

proof fn lemma_comp_index(p: Seq<Seq<char>>, i: int)
    requires
        0 <= i < components(p).len(),
    ensures
        0 <= components(p)[i].1 < p.len(),
{
    lemma_body_index(p, head_len(p), p.len() as int);
    let hc = head_comps(p);
    if i >= hc.len() {
        assert(components(p)[i] == body_comps(p, head_len(p), p.len() as int)[i - hc.len()]);
    }
}

} // verus!
