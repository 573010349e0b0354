//! Paths as text: components separated by `/`.
//!
//! The file name is the last component once trailing `/` are dropped; it is
//! absent when that component is empty or `..`. The extension is the text
//! after the last `.` of the file name, absent when the name has no `.` or
//! its only `.` is its first character.

use crate::text::{chars_of, string_from_chars};
use vstd::prelude::*;

verus! {

/// The index of the last `c` in `s`, or -1.
pub open spec fn last_of(s: Seq<char>, c: char) -> int
    decreases s.len(),
{
    if s.len() == 0 {
        -1
    } else if s.last() == c {
        s.len() - 1
    } else {
        last_of(s.drop_last(), c)
    }
}

/// `s` without its trailing `/`.
pub open spec fn trim_slashes(s: Seq<char>) -> Seq<char>
    decreases s.len(),
{
    if s.len() > 0 && s.last() == '/' {
        trim_slashes(s.drop_last())
    } else {
        s
    }
}

/// The last component of `s`.
pub open spec fn last_component(s: Seq<char>) -> Seq<char> {
    let t = trim_slashes(s);
    t.subrange(last_of(t, '/') + 1, t.len() as int)
}

/// The file name of a path.
pub open spec fn file_name(s: Seq<char>) -> Option<Seq<char>> {
    let n = last_component(s);
    if n.len() == 0 || n == seq!['.', '.'] {
        None
    } else {
        Some(n)
    }
}

/// The position of the `.` that starts the extension of a file name, if any.
pub open spec fn ext_dot(name: Seq<char>) -> Option<int> {
    if name == seq!['.', '.'] || last_of(name, '.') <= 0 {
        None
    } else {
        Some(last_of(name, '.'))
    }
}

/// The extension of a path.
pub open spec fn extension(s: Seq<char>) -> Option<Seq<char>> {
    match file_name(s) {
        Some(n) => match ext_dot(n) {
            Some(d) => Some(n.subrange(d + 1, n.len() as int)),
            None => None,
        },
        None => None,
    }
}

/// The path with its extension set to `x`: an extension of a path that
/// does not end in `/` is replaced, or `x` is added; an empty `x` removes
/// the extension.
pub open spec fn with_extension(s: Seq<char>, x: Seq<char>) -> Seq<char> {
    let start = last_of(s, '/') + 1;
    let name = s.subrange(start, s.len() as int);
    let stem = match ext_dot(name) {
        Some(d) => s.subrange(0, start + d),
        None => s,
    };
    if x.len() == 0 {
        stem
    } else {
        stem + seq!['.'] + x
    }
}

/// The path without its last component: empty for a single relative
/// component, `/` for a component right under the root.
pub open spec fn parent(s: Seq<char>) -> Seq<char> {
    let i = last_of(s, '/');
    if i < 0 {
        Seq::empty()
    } else if i == 0 {
        seq!['/']
    } else {
        s.subrange(0, i)
    }
}

/// `p` followed by `/` and `q`; `q` alone when `p` is empty or `q` is absolute.
pub open spec fn join(p: Seq<char>, q: Seq<char>) -> Seq<char> {
    if p.len() == 0 || (q.len() > 0 && q[0] == '/') {
        q
    } else if p.last() == '/' {
        p + q
    } else {
        p + seq!['/'] + q
    }
}

pub proof fn lemma_last_of(s: Seq<char>, c: char)
    ensures
        -1 <= last_of(s, c) < s.len(),
        last_of(s, c) >= 0 ==> s[last_of(s, c)] == c,
        forall|j: int| last_of(s, c) < j < s.len() ==> s[j] != c,
    decreases s.len(),
{
    if s.len() > 0 && s.last() != c {
        lemma_last_of(s.drop_last(), c);
        assert forall|j: int| last_of(s, c) < j < s.len() implies s[j] != c by {
            if j < s.len() - 1 {
                assert(s[j] == s.drop_last()[j]);
            }
        }
    }
}

pub proof fn lemma_last_of_after(s: Seq<char>, c: char, i: int)
    requires
        -1 <= i < s.len(),
        i >= 0 ==> s[i] == c,
        forall|j: int| i < j < s.len() ==> s[j] != c,
    ensures
        last_of(s, c) == i,
    decreases s.len(),
{
    if s.len() > 0 && i < s.len() - 1 {
        assert(s.last() != c);
        lemma_last_of_after(s.drop_last(), c, i);
    }
}

/// The index of the last `c` in `v`.
pub fn last_of_x(v: &Vec<char>, c: char) -> (r: Option<usize>)
    ensures
        match r {
            Some(i) => last_of(v@, c) == i && i < v@.len(),
            None => last_of(v@, c) == -1,
        },
{
    let mut i = v.len();
    while i > 0
        invariant
            i <= v@.len(),
            forall|j: int| i <= j < v@.len() ==> v@[j] != c,
        decreases i,
    {
        if v[i - 1] == c {
            proof {
                lemma_last_of_after(v@, c, i - 1);
            }
            return Some(i - 1);
        }
        i -= 1;
    }
    proof {
        lemma_last_of_after(v@, c, -1);
    }
    None
}

fn trim_slashes_x(v: &Vec<char>) -> (r: usize)
    ensures
        r <= v@.len(),
        trim_slashes(v@) == v@.subrange(0, r as int),
{
    let mut n = v.len();
    assert(v@.subrange(0, n as int) =~= v@);
    while n > 0 && v[n - 1] == '/'
        invariant
            n <= v@.len(),
            trim_slashes(v@) == trim_slashes(v@.subrange(0, n as int)),
        decreases n,
    {
        assert(v@.subrange(0, n as int).drop_last() =~= v@.subrange(0, n - 1));
        n -= 1;
    }
    n
}

fn slice_of(v: &Vec<char>, from: usize, to: usize) -> (r: Vec<char>)
    requires
        from <= to <= v@.len(),
    ensures
        r@ == v@.subrange(from as int, to as int),
{
    let mut r: Vec<char> = Vec::new();
    let mut i = from;
    while i < to
        invariant
            from <= i <= to <= v@.len(),
            r@ == v@.subrange(from as int, i as int),
        decreases to - i,
    {
        r.push(v[i]);
        i += 1;
        assert(r@ =~= v@.subrange(from as int, i as int));
    }
    r
}

fn is_dotdot(v: &Vec<char>) -> (r: bool)
    ensures
        r == (v@ == seq!['.', '.']),
{
    if v.len() == 2 && v[0] == '.' && v[1] == '.' {
        assert(v@ =~= seq!['.', '.']);
        true
    } else {
        false
    }
}

/// The file name of a path.
pub fn file_name_x(path: &str) -> (r: Option<Vec<char>>)
    ensures
        match r {
            Some(n) => file_name(path@) == Some(n@),
            None => file_name(path@) is None,
        },
{
    let v = chars_of(path);
    let n = trim_slashes_x(&v);
    let t = slice_of(&v, 0, n);
    let tl = t.len();
    let start = match last_of_x(&t, '/') {
        Some(i) => {
            assert(i < tl);
            i + 1
        },
        None => 0,
    };
    proof {
        lemma_last_of(t@, '/');
    }
    let name = slice_of(&t, start, t.len());
    if name.len() == 0 || is_dotdot(&name) {
        None
    } else {
        Some(name)
    }
}

/// The position of the `.` that starts the extension of a file name.
fn ext_dot_x(name: &Vec<char>) -> (r: Option<usize>)
    ensures
        pos_of(r) == ext_dot(name@),
        r matches Some(d) ==> 0 < d < name@.len(),
{
    if is_dotdot(name) {
        return None;
    }
    match last_of_x(name, '.') {
        Some(d) => if d == 0 {
            None
        } else {
            Some(d)
        },
        None => None,
    }
}

/// A position as an integer.
pub open spec fn pos_of(o: Option<usize>) -> Option<int> {
    match o {
        Some(i) => Some(i as int),
        None => None,
    }
}

/// The extension of a path.
pub fn extension_x(path: &str) -> (r: Option<Vec<char>>)
    ensures
        match r {
            Some(e) => extension(path@) == Some(e@),
            None => extension(path@) is None,
        },
{
    match file_name_x(path) {
        Some(n) => match ext_dot_x(&n) {
            Some(d) => {
                proof {
                    lemma_last_of(n@, '.');
                }
                let nl = n.len();
                assert(d < nl);
                let from = d + 1;
                Some(slice_of(&n, from, nl))
            },
            None => None,
        },
        None => None,
    }
}

/// The path with its extension set to `x`.
pub fn with_extension_x(path: &str, x: &str) -> (r: String)
    ensures
        r@ == with_extension(path@, x@),
{
    let v = chars_of(path);
    let xs = chars_of(x);
    let vl = v.len();
    let start = match last_of_x(&v, '/') {
        Some(i) => {
            assert(i < vl);
            i + 1
        },
        None => 0,
    };
    proof {
        lemma_last_of(v@, '/');
    }
    let name = slice_of(&v, start, v.len());
    let mut out = match ext_dot_x(&name) {
        Some(d) => {
            proof {
                lemma_last_of(name@, '.');
            }
            slice_of(&v, 0, start + d)
        },
        None => slice_of(&v, 0, v.len()),
    };
    assert(v@.subrange(0, v@.len() as int) =~= v@);
    if xs.len() > 0 {
        let ghost stem = out@;
        out.push('.');
        let mut k: usize = 0;
        while k < xs.len()
            invariant
                k <= xs@.len(),
                out@ == stem + seq!['.'] + xs@.subrange(0, k as int),
            decreases xs.len() - k,
        {
            out.push(xs[k]);
            k += 1;
            assert(out@ =~= stem + seq!['.'] + xs@.subrange(0, k as int));
        }
        assert(xs@.subrange(0, xs@.len() as int) =~= xs@);
    }
    string_from_chars(out.as_slice())
}

/// The path without its last component.
pub fn parent_x(path: &str) -> (r: String)
    ensures
        r@ == parent(path@),
{
    let v = chars_of(path);
    match last_of_x(&v, '/') {
        None => String::new(),
        Some(i) => {
            if i == 0 {
                let out = vec!['/'];
                assert(out@ =~= seq!['/']);
                string_from_chars(out.as_slice())
            } else {
                proof {
                    lemma_last_of(v@, '/');
                }
                let out = slice_of(&v, 0, i);
                string_from_chars(out.as_slice())
            }
        },
    }
}

/// `p` joined with `q`.
pub fn join_x(p: &str, q: &str) -> (r: String)
    ensures
        r@ == join(p@, q@),
{
    let pv = chars_of(p);
    let qv = chars_of(q);
    if pv.len() == 0 || (qv.len() > 0 && qv[0] == '/') {
        return string_from_chars(qv.as_slice());
    }
    let mut out = pv;
    if out[out.len() - 1] != '/' {
        out.push('/');
    }
    let ghost head = out@;
    let mut k: usize = 0;
    while k < qv.len()
        invariant
            k <= qv@.len(),
            out@ == head + qv@.subrange(0, k as int),
        decreases qv.len() - k,
    {
        out.push(qv[k]);
        k += 1;
        assert(out@ =~= head + qv@.subrange(0, k as int));
    }
    assert(qv@.subrange(0, qv@.len() as int) =~= qv@);
    string_from_chars(out.as_slice())
}

} // verus!
