//! A directed acyclic graph of dependencies between points.
//!
//! An edge `(downstream, upstream)` says that `downstream` depends on
//! `upstream`. The graph is modelled as the set of its edges, taken by the
//! views of the points.

use vstd::prelude::*;

verus! {

/// A point of a dependency graph: compared and copied by its view.
pub trait GraphPoint: View + Sized {
    /// Whether two points are the same point.
    fn same(&self, other: &Self) -> (r: bool)
        ensures
            r == (self@ == other@),
    ;

    /// A copy of the point.
    fn duplicate(&self) -> (r: Self)
        ensures
            r@ == self@,
    ;
}

impl<'a> GraphPoint for &'a str {
    fn same(&self, other: &Self) -> (r: bool) {
        let a: String = (*self).to_owned();
        let b: String = (*other).to_owned();
        a == b
    }

    fn duplicate(&self) -> (r: Self) {
        *self
    }
}

impl GraphPoint for String {
    fn same(&self, other: &Self) -> (r: bool) {
        *self == *other
    }

    fn duplicate(&self) -> (r: Self) {
        self.clone()
    }
}

/// One step through the graph `e`. Toward dependents (`down` is true), a
/// step goes from a point to a point that depends on it directly; the other
/// way, from a point to a point that it depends on directly.
pub open spec fn step<V>(e: Set<(V, V)>, down: bool, a: V, b: V) -> bool {
    if down {
        e.contains((b, a))
    } else {
        e.contains((a, b))
    }
}

/// A walk of exactly `n` steps from `a` to `b`.
pub open spec fn walk<V>(e: Set<(V, V)>, down: bool, a: V, b: V, n: nat) -> bool
    decreases n,
{
    if n == 0 {
        false
    } else if n == 1 {
        step(e, down, a, b)
    } else {
        exists|m: V| #[trigger] step(e, down, a, m) && walk(e, down, m, b, (n - 1) as nat)
    }
}

/// `b` can be reached from `a` in one step or more.
pub open spec fn reaches<V>(e: Set<(V, V)>, down: bool, a: V, b: V) -> bool {
    exists|n: nat| n >= 1 && #[trigger] walk(e, down, a, b, n)
}

/// No point depends on itself, directly or indirectly.
pub open spec fn acyclic<V>(e: Set<(V, V)>) -> bool {
    forall|x: V| !#[trigger] reaches(e, true, x, x)
}

/// The points that `e` mentions.
pub open spec fn points_of<V>(e: Set<(V, V)>) -> Set<V> {
    Set::new(|p: V| exists|q: V| e.contains((p, q)) || e.contains((q, p)))
}

/// The name of a point after `from` is renamed to `to`.
pub open spec fn renamed<V>(p: V, from: V, to: V) -> V {
    if p == from {
        to
    } else {
        p
    }
}

/// The edges after `from` is renamed to `to`.
pub open spec fn rename_edges<V>(e: Set<(V, V)>, from: V, to: V) -> Set<(V, V)> {
    e.map(|x: (V, V)| (renamed(x.0, from, to), renamed(x.1, from, to)))
}

pub proof fn lemma_walk_concat<V>(e: Set<(V, V)>, down: bool, a: V, b: V, c: V, n1: nat, n2: nat)
    requires
        walk(e, down, a, b, n1),
        walk(e, down, b, c, n2),
    ensures
        walk(e, down, a, c, n1 + n2),
    decreases n1,
{
    if n1 == 1 {
        assert(step(e, down, a, b) && walk(e, down, b, c, n2));
    } else {
        let m = choose|m: V| #[trigger] step(e, down, a, m) && walk(e, down, m, b, (n1 - 1) as nat);
        lemma_walk_concat(e, down, m, b, c, (n1 - 1) as nat, n2);
        assert(walk(e, down, m, c, (n1 + n2 - 1) as nat));
    }
}

/// Reaching is transitive.
pub proof fn lemma_reaches_trans<V>(e: Set<(V, V)>, down: bool, a: V, b: V, c: V)
    requires
        reaches(e, down, a, b),
        reaches(e, down, b, c),
    ensures
        reaches(e, down, a, c),
{
    let n1 = choose|n: nat| n >= 1 && #[trigger] walk(e, down, a, b, n);
    let n2 = choose|n: nat| n >= 1 && #[trigger] walk(e, down, b, c, n);
    lemma_walk_concat(e, down, a, b, c, n1, n2);
}

/// A walk through a smaller graph is a walk through a larger one.
pub proof fn lemma_walk_subset<V>(e1: Set<(V, V)>, e2: Set<(V, V)>, down: bool, a: V, b: V, n: nat)
    requires
        e1.subset_of(e2),
        walk(e1, down, a, b, n),
    ensures
        walk(e2, down, a, b, n),
    decreases n,
{
    if n > 1 {
        let m = choose|m: V| #[trigger] step(e1, down, a, m) && walk(e1, down, m, b, (n - 1) as nat);
        lemma_walk_subset(e1, e2, down, m, b, (n - 1) as nat);
        assert(step(e2, down, a, m));
    }
}

/// Removing edges keeps a graph acyclic.
pub proof fn lemma_acyclic_subset<V>(e1: Set<(V, V)>, e2: Set<(V, V)>)
    requires
        e1.subset_of(e2),
        acyclic(e2),
    ensures
        acyclic(e1),
{
    assert forall|x: V| !#[trigger] reaches(e1, true, x, x) by {
        if reaches(e1, true, x, x) {
            let n = choose|n: nat| n >= 1 && #[trigger] walk(e1, true, x, x, n);
            lemma_walk_subset(e1, e2, true, x, x, n);
            assert(reaches(e2, true, x, x));
        }
    }
}

/// A walk in a graph with one more edge `(d, u)` either avoids the edge, or
/// goes from `a` to `u`, takes the edge, and goes on from `d` to `b`.
pub proof fn lemma_walk_insert<V>(e: Set<(V, V)>, d: V, u: V, a: V, b: V, n: nat)
    requires
        walk(e.insert((d, u)), true, a, b, n),
    ensures
        walk(e, true, a, b, n) || ((a == u || reaches(e, true, a, u)) && (b == d || reaches(
            e,
            true,
            d,
            b,
        ))),
    decreases n,
{
    let e2 = e.insert((d, u));
    if n == 1 {
    } else {
        let m = choose|m: V| #[trigger] step(e2, true, a, m) && walk(e2, true, m, b, (n - 1) as nat);
        lemma_walk_insert(e, d, u, m, b, (n - 1) as nat);
        if step(e, true, a, m) {
            if walk(e, true, m, b, (n - 1) as nat) {
                assert(walk(e, true, a, b, n));
            } else {
                assert(walk(e, true, a, m, 1));
                if m != u {
                    lemma_reaches_trans(e, true, a, m, u);
                }
            }
        } else {
            assert(a == u && m == d);
            if walk(e, true, m, b, (n - 1) as nat) {
                assert(reaches(e, true, d, b));
            }
        }
    }
}

/// Adding the edge `(d, u)` keeps a graph acyclic when `u` does not already
/// depend on `d` and `d` is not `u`.
pub proof fn lemma_acyclic_insert<V>(e: Set<(V, V)>, d: V, u: V)
    requires
        acyclic(e),
        d != u,
        !reaches(e, true, d, u),
    ensures
        acyclic(e.insert((d, u))),
{
    let e2 = e.insert((d, u));
    assert forall|x: V| !#[trigger] reaches(e2, true, x, x) by {
        if reaches(e2, true, x, x) {
            let n = choose|n: nat| n >= 1 && #[trigger] walk(e2, true, x, x, n);
            lemma_walk_insert(e, d, u, x, x, n);
            if walk(e, true, x, x, n) {
                assert(reaches(e, true, x, x));
            } else if x == u {
                assert(reaches(e, true, d, u));
            } else if x == d {
                assert(reaches(e, true, d, u));
            } else {
                lemma_reaches_trans(e, true, d, x, u);
            }
        }
    }
}

/// A walk through a renamed graph is a renamed walk through the graph, when
/// the new name is not a point of the graph.
pub proof fn lemma_walk_rename<V>(e: Set<(V, V)>, from: V, to: V, a: V, b: V, n: nat)
    requires
        !points_of(e).contains(to),
        walk(rename_edges(e, from, to), true, a, b, n),
    ensures
        walk(e, true, renamed(a, to, from), renamed(b, to, from), n),
    decreases n,
{
    let e2 = rename_edges(e, from, to);
    let f = |x: (V, V)| (renamed(x.0, from, to), renamed(x.1, from, to));
    if n == 1 {
        let x = choose|x: (V, V)| e.contains(x) && f(x) == (b, a);
        assert(e.contains(x));
        assert(x.0 != to && x.1 != to) by {
            assert(points_of(e).contains(x.0));
            assert(points_of(e).contains(x.1));
        }
    } else {
        let m = choose|m: V| #[trigger] step(e2, true, a, m) && walk(e2, true, m, b, (n - 1) as nat);
        lemma_walk_rename(e, from, to, m, b, (n - 1) as nat);
        let x = choose|x: (V, V)| e.contains(x) && f(x) == (m, a);
        assert(x.0 != to && x.1 != to) by {
            assert(points_of(e).contains(x.0));
            assert(points_of(e).contains(x.1));
        }
        assert(step(e, true, renamed(a, to, from), renamed(m, to, from)));
    }
}

/// Renaming a point to a new name keeps a graph acyclic.
pub proof fn lemma_acyclic_rename<V>(e: Set<(V, V)>, from: V, to: V)
    requires
        acyclic(e),
        !points_of(e).contains(to),
    ensures
        acyclic(rename_edges(e, from, to)),
{
    let e2 = rename_edges(e, from, to);
    assert forall|x: V| !#[trigger] reaches(e2, true, x, x) by {
        if reaches(e2, true, x, x) {
            let n = choose|n: nat| n >= 1 && #[trigger] walk(e2, true, x, x, n);
            lemma_walk_rename(e, from, to, x, x, n);
            assert(reaches(e, true, renamed(x, to, from), renamed(x, to, from)));
        }
    }
}

/// A set that holds every step out of `start` and out of each of its members
/// holds every point reachable from `start`.
pub proof fn lemma_closed_holds_reachable<V>(e: Set<(V, V)>, down: bool, start: V, s: Set<V>)
    requires
        forall|y: V| #[trigger] step(e, down, start, y) ==> s.contains(y),
        forall|x: V, y: V| s.contains(x) && #[trigger] step(e, down, x, y) ==> s.contains(y),
    ensures
        forall|y: V| #[trigger] reaches(e, down, start, y) ==> s.contains(y),
{
    assert forall|y: V| #[trigger] reaches(e, down, start, y) implies s.contains(y) by {
        let n = choose|n: nat| n >= 1 && #[trigger] walk(e, down, start, y, n);
        lemma_closed_walk(e, down, start, s, start, y, n);
    }
}

proof fn lemma_closed_walk<V>(e: Set<(V, V)>, down: bool, start: V, s: Set<V>, a: V, b: V, n: nat)
    requires
        forall|y: V| #[trigger] step(e, down, start, y) ==> s.contains(y),
        forall|x: V, y: V| s.contains(x) && #[trigger] step(e, down, x, y) ==> s.contains(y),
        a == start || s.contains(a),
        walk(e, down, a, b, n),
    ensures
        s.contains(b),
    decreases n,
{
    if n > 1 {
        let m = choose|m: V| #[trigger] step(e, down, a, m) && walk(e, down, m, b, (n - 1) as nat);
        lemma_closed_walk(e, down, start, s, m, b, (n - 1) as nat);
    }
}


/// The edge that links `y` one step away from `p`.
pub open spec fn oriented<V>(down: bool, y: V, p: V) -> (V, V) {
    if down {
        (y, p)
    } else {
        (p, y)
    }
}

/// The end of an edge that lies one step away from its other end.
pub open spec fn other_end<V>(down: bool, e: (V, V)) -> V {
    if down {
        e.0
    } else {
        e.1
    }
}

/// The views of the edges of a sequence, in order.
pub open spec fn edge_views<T: View>(s: Seq<(T, T)>) -> Seq<(T::V, T::V)> {
    s.map_values(|x: (T, T)| (x.0@, x.1@))
}

/// The views of the points of a sequence, in order.
pub open spec fn point_views<T: View>(s: Seq<T>) -> Seq<T::V> {
    s.map_values(|x: T| x@)
}

/// The endpoints of a sequence of edges: downstream and upstream of each.
pub open spec fn endpoints<V>(s: Seq<(V, V)>) -> Seq<V> {
    Seq::new(
        2 * s.len(),
        |i: int|
            if i % 2 == 0 {
                s[i / 2].0
            } else {
                s[i / 2].1
            },
    )
}

/// A sequence of distinct points of the edges `s` is no longer than twice
/// the number of edges.
pub proof fn lemma_points_bound<V>(pts: Seq<V>, s: Seq<(V, V)>)
    requires
        pts.no_duplicates(),
        forall|i: int| 0 <= i < pts.len() ==> #[trigger] points_of(s.to_set()).contains(pts[i]),
    ensures
        pts.len() <= 2 * s.len(),
{
    let ends = endpoints(s);
    assert forall|x: V| pts.to_set().contains(x) implies ends.to_set().contains(x) by {
        let i = choose|i: int| 0 <= i < pts.len() && pts[i] == x;
        assert(points_of(s.to_set()).contains(pts[i]));
        let q = choose|q: V| s.to_set().contains((x, q)) || s.to_set().contains((q, x));
        if s.to_set().contains((x, q)) {
            let k = choose|k: int| 0 <= k < s.len() && s[k] == (x, q);
            assert(ends[2 * k] == x);
        } else {
            let k = choose|k: int| 0 <= k < s.len() && s[k] == (q, x);
            assert(ends[2 * k + 1] == x);
        }
    }
    pts.unique_seq_to_set();
    ends.lemma_cardinality_of_set();
    vstd::set_lib::lemma_len_subset(pts.to_set(), ends.to_set());
}

/// The last step of a walk.
pub proof fn lemma_walk_last<V>(e: Set<(V, V)>, down: bool, a: V, b: V, n: nat)
    requires
        walk(e, down, a, b, n),
    ensures
        exists|m: V| #[trigger] step(e, down, m, b),
    decreases n,
{
    if n == 1 {
        assert(step(e, down, a, b));
    } else {
        let m = choose|m: V| #[trigger] step(e, down, a, m) && walk(e, down, m, b, (n - 1) as nat);
        lemma_walk_last(e, down, m, b, (n - 1) as nat);
    }
}

/// Adds to `res` the points of `add` that it lacks, at its end.
pub fn merge_into<T: GraphPoint>(res: &mut Vec<T>, add: &Vec<T>)
    requires
        point_views(old(res)@).no_duplicates(),
    ensures
        point_views(final(res)@).no_duplicates(),
        final(res)@.len() >= old(res)@.len(),
        forall|j: int| 0 <= j < old(res)@.len() ==> #[trigger] point_views(final(res)@)[j] == point_views(old(res)@)[j],
        forall|z: T::V| #[trigger] point_views(final(res)@).contains(z) <==> (point_views(old(res)@).contains(z)
            || point_views(add@).contains(z)),
{
    let ghost orig = point_views(res@);
    let ghost av = point_views(add@);
    let mut k: usize = 0;
    while k < add.len()
        invariant
            k <= add.len(),
            av == point_views(add@),
            point_views(res@).no_duplicates(),
            res@.len() >= orig.len(),
            forall|j: int| 0 <= j < orig.len() ==> #[trigger] point_views(res@)[j] == orig[j],
            forall|z: T::V| #[trigger] point_views(res@).contains(z) <==> (orig.contains(z)
                || exists|t: int| 0 <= t < k && #[trigger] av[t] == z),
        decreases add.len() - k,
    {
        let ghost before = point_views(res@);
        if !contains_point(res, &add[k]) {
            let q = add[k].duplicate();
            res.push(q);
            assert(point_views(res@) =~= before.push(q@));
        } else {
            assert(point_views(res@) =~= before);
        }
        proof {
            let now = point_views(res@);
            assert forall|z: T::V| #[trigger] now.contains(z) <==> (orig.contains(z)
                || exists|t: int| 0 <= t < k + 1 && #[trigger] av[t] == z) by {
                if exists|t: int| 0 <= t < k + 1 && #[trigger] av[t] == z {
                    let t = choose|t: int| 0 <= t < k + 1 && #[trigger] av[t] == z;
                    if t < k {
                        assert(before.contains(z));
                    } else {
                        assert(av[k as int] == z);
                        if !before.contains(z) {
                            assert(now[before.len() as int] == z);
                        }
                    }
                }
                if before.contains(z) {
                    let t = choose|t: int| 0 <= t < before.len() && before[t] == z;
                    assert(now[t] == z);
                }
                if now.contains(z) && !before.contains(z) {
                    assert(av[k as int] == z);
                }
            }
        }
        k += 1;
    }
    proof {
        assert forall|z: T::V| #[trigger] point_views(res@).contains(z) <==> (orig.contains(z)
            || av.contains(z)) by {
            if av.contains(z) {
                let t = choose|t: int| 0 <= t < av.len() && av[t] == z;
                assert(av[t] == z);
            }
        }
    }
}

/// Whether an edge survives a removal: of every edge on `p` when `other` is
/// `None`, or of the single edge `(p, u)` when it is `Some(u)`.
pub open spec fn survives<V>(x: (V, V), p: V, other: Option<V>) -> bool {
    match other {
        None => x.0 != p && x.1 != p,
        Some(u) => x != (p, u),
    }
}

/// The view of an optional point.
pub open spec fn opt_view<T: View>(o: Option<&T>) -> Option<T::V> {
    match o {
        None => None,
        Some(t) => Some(t@),
    }
}

/// The reasons a change to a dependency graph is refused.
#[derive(Debug, PartialEq, Eq, Structural)]
pub enum DependencyError {
    /// A point cannot depend on itself.
    SelfDependency,
    /// Adding this dependency would create a circular dependency.
    CircularDependency,
    /// A point cannot be renamed to a point that is already in the graph.
    ReplaceToExistingPoint,
}

/// A directed acyclic graph of dependencies between points of type `T`.
pub struct DependencyGraph<T: GraphPoint> {
    /// The edges `(downstream, upstream)`, each once.
    edges: Vec<(T, T)>,
}

impl<T: GraphPoint> View for DependencyGraph<T> {
    type V = Set<(T::V, T::V)>;

    /// The set of edges `(downstream, upstream)`.
    closed spec fn view(&self) -> Set<(T::V, T::V)> {
        edge_views(self.edges@).to_set()
    }
}

impl<T: GraphPoint> Default for DependencyGraph<T> {
    fn default() -> (g: Self)
        ensures
            g.wf(),
            g@ == Set::<(T::V, T::V)>::empty(),
    {
        let g = DependencyGraph { edges: Vec::new() };
        assert(g@ =~= Set::<(T::V, T::V)>::empty());
        g
    }
}

/// Whether the points `v` hold a point with the view of `p`.
pub fn contains_point<T: GraphPoint>(v: &Vec<T>, p: &T) -> (r: bool)
    ensures
        r == point_views(v@).contains(p@),
{
    let mut i: usize = 0;
    while i < v.len()
        invariant
            i <= v.len(),
            forall|j: int| 0 <= j < i ==> point_views(v@)[j] != p@,
        decreases v.len() - i,
    {
        if v[i].same(p) {
            assert(point_views(v@)[i as int] == p@);
            return true;
        }
        i += 1;
    }
    false
}

impl<T: GraphPoint> DependencyGraph<T> {
    /// The edges are distinct and form no cycle.
    pub closed spec fn wf(&self) -> bool {
        edge_views(self.edges@).no_duplicates() && acyclic(self@)
    }

    proof fn lemma_view_contains(&self, x: (T::V, T::V))
        ensures
            self@.contains(x) <==> exists|k: int|
                0 <= k < self.edges@.len() && #[trigger] edge_views(self.edges@)[k] == x,
    {
    }

    /// Whether the edge `(downstream, upstream)` is in the graph.
    fn has_edge(&self, downstream: &T, upstream: &T) -> (r: bool)
        ensures
            r == self@.contains((downstream@, upstream@)),
    {
        let ghost x = (downstream@, upstream@);
        let mut i: usize = 0;
        while i < self.edges.len()
            invariant
                i <= self.edges.len(),
                x == (downstream@, upstream@),
                forall|k: int| 0 <= k < i ==> edge_views(self.edges@)[k] != x,
            decreases self.edges.len() - i,
        {
            let e = &self.edges[i];
            let a = e.0.same(downstream);
            let b = e.1.same(upstream);
            assert(edge_views(self.edges@)[i as int] == (e.0@, e.1@));
            if a && b {
                return true;
            }
            i += 1;
        }
        proof {
            self.lemma_view_contains(x);
        }
        false
    }

    /// The points one step away from `point`: toward its dependents when
    /// `down` is true, toward its dependencies otherwise. Each comes once.
    fn neighbors(&self, point: &T, down: bool) -> (res: Vec<T>)
        requires
            self.wf(),
        ensures
            point_views(res@).no_duplicates(),
            forall|y: T::V| point_views(res@).contains(y) <==> #[trigger] step(self@, down, point@, y),
    {
        let ghost ev = edge_views(self.edges@);
        let ghost p = point@;
        let mut res: Vec<T> = Vec::new();
        let mut i: usize = 0;
        while i < self.edges.len()
            invariant
                ev == edge_views(self.edges@),
                p == point@,
                ev.no_duplicates(),
                i <= self.edges.len(),
                point_views(res@).no_duplicates(),
                forall|j: int|
                    0 <= j < res@.len() ==> exists|k: int|
                        0 <= k < i && #[trigger] ev[k] == oriented(down, #[trigger] point_views(res@)[j], p),
                forall|k: int|
                    0 <= k < i ==> (#[trigger] ev[k] == oriented(down, other_end(down, ev[k]), p)
                        ==> point_views(res@).contains(other_end(down, ev[k]))),
            decreases self.edges.len() - i,
        {
            let ghost old_res = point_views(res@);
            let e = &self.edges[i];
            assert(ev[i as int] == (e.0@, e.1@));
            let hit = if down {
                e.1.same(point)
            } else {
                e.0.same(point)
            };
            if hit {
                let q = if down {
                    e.0.duplicate()
                } else {
                    e.1.duplicate()
                };
                proof {
                    assert(ev[i as int] == oriented(down, q@, p));
                    if old_res.contains(q@) {
                        let j = choose|j: int| 0 <= j < old_res.len() && old_res[j] == q@;
                        let k = choose|k: int|
                            0 <= k < i && #[trigger] ev[k] == oriented(down, old_res[j], p);
                        assert(ev[k] == ev[i as int]);
                    }
                }
                res.push(q);
                proof {
                    assert(point_views(res@) =~= old_res.push(q@));
                    assert(point_views(res@)[old_res.len() as int] == q@);
                    assert forall|k: int|
                        0 <= k < i + 1 && #[trigger] ev[k] == oriented(down, other_end(down, ev[k]), p)
                        implies point_views(res@).contains(other_end(down, ev[k])) by {
                        if k < i {
                            let j = choose|j: int| 0 <= j < old_res.len() && old_res[j] == other_end(down, ev[k]);
                            assert(point_views(res@)[j] == old_res[j]);
                        } else {
                            assert(other_end(down, ev[k]) == q@);
                        }
                    }
                    assert forall|j: int| 0 <= j < res@.len() implies exists|k: int|
                        0 <= k < i + 1 && #[trigger] ev[k] == oriented(
                            down,
                            #[trigger] point_views(res@)[j],
                            p,
                        ) by {
                        if j < old_res.len() {
                            assert(old_res[j] == point_views(res@)[j]);
                            let k = choose|k: int|
                                0 <= k < i && #[trigger] ev[k] == oriented(down, old_res[j], p);
                        } else {
                            assert(ev[i as int] == oriented(down, point_views(res@)[j], p));
                        }
                    }
                }
            } else {
                proof {
                    assert(ev[i as int] != oriented(down, other_end(down, ev[i as int]), p));
                }
            }
            i += 1;
        }
        proof {
            assert forall|y: T::V| point_views(res@).contains(y) <==> #[trigger] step(self@, down, p, y) by {
                if point_views(res@).contains(y) {
                    let j = choose|j: int| 0 <= j < res@.len() && point_views(res@)[j] == y;
                    let k = choose|k: int|
                        0 <= k < i && #[trigger] ev[k] == oriented(down, point_views(res@)[j], p);
                    assert(self@.contains(ev[k]));
                }
                if step(self@, down, p, y) {
                    let x = oriented(down, y, p);
                    self.lemma_view_contains(x);
                    let k = choose|k: int| 0 <= k < self.edges@.len() && #[trigger] ev[k] == x;
                    assert(other_end(down, ev[k]) == y);
                }
            }
        }
        res
    }

    /// The points reachable from `start` in one step or more: toward its
    /// dependents when `down` is true, toward its dependencies otherwise.
    /// Each comes once.
    fn closure(&self, start: &T, down: bool) -> (res: Vec<T>)
        requires
            self.wf(),
        ensures
            point_views(res@).no_duplicates(),
            forall|y: T::V| point_views(res@).contains(y) <==> #[trigger] reaches(self@, down, start@, y),
    {
        let ghost e = self@;
        let ghost s0 = start@;
        let first = self.neighbors(start, down);
        let mut res: Vec<T> = Vec::new();
        merge_into(&mut res, &first);
        proof {
            assert forall|j: int| 0 <= j < res@.len() implies #[trigger] reaches(e, down, s0, point_views(res@)[j]) by {
                assert(point_views(res@).contains(point_views(res@)[j]));
                assert(point_views(first@).contains(point_views(res@)[j]));
                assert(walk(e, down, s0, point_views(res@)[j], 1));
            }
            self.lemma_bound(point_views(res@), down, s0);
        }
        let mut i: usize = 0;
        while i < res.len()
            invariant
                self.wf(),
                e == self@,
                s0 == start@,
                i <= res@.len() <= 2 * self.edges@.len(),
                point_views(res@).no_duplicates(),
                forall|j: int| 0 <= j < res@.len() ==> #[trigger] reaches(e, down, s0, point_views(res@)[j]),
                forall|y: T::V| #[trigger] step(e, down, s0, y) ==> point_views(res@).contains(y),
                forall|j: int, y: T::V|
                    0 <= j < i && #[trigger] step(e, down, point_views(res@)[j], y) ==> point_views(res@).contains(y),
            decreases 2 * self.edges@.len() - i,
        {
            let cur = res[i].duplicate();
            let next = self.neighbors(&cur, down);
            let ghost old_res = point_views(res@);
            merge_into(&mut res, &next);
            proof {
                let nr = point_views(res@);
                assert(nr[i as int] == old_res[i as int]);
                assert forall|j: int| 0 <= j < res@.len() implies #[trigger] reaches(e, down, s0, nr[j]) by {
                    if j < old_res.len() {
                        assert(old_res[j] == nr[j]);
                    } else {
                        assert(nr.contains(nr[j]));
                        if old_res.contains(nr[j]) {
                            let t = choose|t: int| 0 <= t < old_res.len() && old_res[t] == nr[j];
                            assert(nr[t] == old_res[t]);
                        }
                        assert(point_views(next@).contains(nr[j]));
                        assert(reaches(e, down, s0, old_res[i as int]));
                        assert(walk(e, down, old_res[i as int], nr[j], 1));
                        lemma_reaches_trans(e, down, s0, old_res[i as int], nr[j]);
                    }
                }
                assert forall|y: T::V| #[trigger] step(e, down, s0, y) implies nr.contains(y) by {
                    assert(old_res.contains(y));
                }
                assert forall|j: int, y: T::V|
                    0 <= j < i + 1 && #[trigger] step(e, down, nr[j], y) implies nr.contains(y) by {
                    assert(nr[j] == old_res[j]);
                    if j < i {
                        assert(old_res.contains(y));
                    } else {
                        assert(point_views(next@).contains(y));
                    }
                }
                self.lemma_bound(nr, down, s0);
            }
            i += 1;
        }
        proof {
            let nr = point_views(res@);
            assert forall|x: T::V, y: T::V| nr.to_set().contains(x) && #[trigger] step(e, down, x, y)
                implies nr.to_set().contains(y) by {
                let j = choose|j: int| 0 <= j < nr.len() && nr[j] == x;
            }
            lemma_closed_holds_reachable(e, down, s0, nr.to_set());
            assert forall|y: T::V| nr.contains(y) <==> #[trigger] reaches(self@, down, start@, y) by {
                if reaches(self@, down, start@, y) {
                    assert(nr.to_set().contains(y));
                }
                if nr.contains(y) {
                    let j = choose|j: int| 0 <= j < nr.len() && nr[j] == y;
                    assert(reaches(e, down, s0, nr[j]));
                }
            }
        }
        res
    }

    /// Points reached from somewhere are points of the graph, so a list of
    /// distinct reached points is bounded by the number of edges.
    proof fn lemma_bound(&self, pts: Seq<T::V>, down: bool, a: T::V)
        requires
            pts.no_duplicates(),
            forall|j: int| 0 <= j < pts.len() ==> #[trigger] reaches(self@, down, a, pts[j]),
        ensures
            pts.len() <= 2 * self.edges@.len(),
    {
        let ev = edge_views(self.edges@);
        assert forall|j: int| 0 <= j < pts.len() implies #[trigger] points_of(ev.to_set()).contains(pts[j]) by {
            assert(reaches(self@, down, a, pts[j]));
            let n = choose|n: nat| n >= 1 && #[trigger] walk(self@, down, a, pts[j], n);
            lemma_walk_last(self@, down, a, pts[j], n);
            let m = choose|m: T::V| #[trigger] step(self@, down, m, pts[j]);
            if down {
                assert(self@.contains((pts[j], m)));
            } else {
                assert(self@.contains((m, pts[j])));
            }
        }
        lemma_points_bound(pts, ev);
    }

    /// The points that depend on `point` directly, each once; `None` when
    /// there are none.
    pub fn depends_on(&self, point: &T) -> (r: Option<Vec<T>>)
        requires
            self.wf(),
        ensures
            r is None <==> forall|d: T::V| !self@.contains((d, point@)),
            r matches Some(v) ==> point_views(v@).no_duplicates() && forall|d: T::V|
                #[trigger] point_views(v@).contains(d) <==> self@.contains((d, point@)),
    {
        let v = self.neighbors(point, true);
        if v.len() == 0 {
            proof {
                assert forall|d: T::V| !self@.contains((d, point@)) by {
                    if self@.contains((d, point@)) {
                        assert(step(self@, true, point@, d));
                        assert(point_views(v@).contains(d));
                    }
                }
            }
            None
        } else {
            proof {
                assert(point_views(v@).contains(point_views(v@)[0]));
                assert(step(self@, true, point@, point_views(v@)[0]));
                assert forall|d: T::V| #[trigger] point_views(v@).contains(d) <==> self@.contains((d, point@)) by {
                    assert(step(self@, true, point@, d) == self@.contains((d, point@)));
                }
            }
            Some(v)
        }
    }

    /// The points that `point` depends on directly, each once; `None` when
    /// there are none.
    pub fn depended_by(&self, point: &T) -> (r: Option<Vec<T>>)
        requires
            self.wf(),
        ensures
            r is None <==> forall|u: T::V| !self@.contains((point@, u)),
            r matches Some(v) ==> point_views(v@).no_duplicates() && forall|u: T::V|
                #[trigger] point_views(v@).contains(u) <==> self@.contains((point@, u)),
    {
        let v = self.neighbors(point, false);
        if v.len() == 0 {
            proof {
                assert forall|u: T::V| !self@.contains((point@, u)) by {
                    if self@.contains((point@, u)) {
                        assert(step(self@, false, point@, u));
                        assert(point_views(v@).contains(u));
                    }
                }
            }
            None
        } else {
            proof {
                assert(point_views(v@).contains(point_views(v@)[0]));
                assert(step(self@, false, point@, point_views(v@)[0]));
                assert forall|u: T::V| #[trigger] point_views(v@).contains(u) <==> self@.contains((point@, u)) by {
                    assert(step(self@, false, point@, u) == self@.contains((point@, u)));
                }
            }
            Some(v)
        }
    }

    /// Whether `downstream` depends on `upstream` directly.
    pub fn is_dependent(&self, downstream: &T, upstream: &T) -> (r: bool)
        ensures
            r == self@.contains((downstream@, upstream@)),
    {
        self.has_edge(downstream, upstream)
    }

    /// Whether the point is in the graph, that is, on some edge.
    pub fn has_point(&self, point: &T) -> (r: bool)
        ensures
            r == points_of(self@).contains(point@),
    {
        let ghost p = point@;
        let mut i: usize = 0;
        while i < self.edges.len()
            invariant
                i <= self.edges.len(),
                p == point@,
                forall|k: int| 0 <= k < i ==> (#[trigger] edge_views(self.edges@)[k]).0 != p
                    && edge_views(self.edges@)[k].1 != p,
            decreases self.edges.len() - i,
        {
            let e = &self.edges[i];
            assert(edge_views(self.edges@)[i as int] == (e.0@, e.1@));
            if e.0.same(point) {
                assert(self@.contains((p, e.1@)));
                return true;
            }
            if e.1.same(point) {
                assert(self@.contains((e.0@, p)));
                return true;
            }
            i += 1;
        }
        proof {
            if points_of(self@).contains(p) {
                let q = choose|q: T::V| self@.contains((p, q)) || self@.contains((q, p));
                if self@.contains((p, q)) {
                    self.lemma_view_contains((p, q));
                    let k = choose|k: int| 0 <= k < self.edges@.len() && #[trigger] edge_views(self.edges@)[k] == (p, q);
                } else {
                    self.lemma_view_contains((q, p));
                    let k = choose|k: int| 0 <= k < self.edges@.len() && #[trigger] edge_views(self.edges@)[k] == (q, p);
                }
            }
        }
        false
    }

    /// Whether the point depends on nothing; true for a point not in the graph.
    pub fn is_root(&self, point: &T) -> (r: bool)
        requires
            self.wf(),
        ensures
            r == forall|u: T::V| !self@.contains((point@, u)),
    {
        self.depended_by(point).is_none()
    }

    /// Whether nothing depends on the point; true for a point not in the graph.
    pub fn is_leaf(&self, point: &T) -> (r: bool)
        requires
            self.wf(),
        ensures
            r == forall|d: T::V| !self@.contains((d, point@)),
    {
        self.depends_on(point).is_none()
    }

    /// Whether `downstream` depends on `upstream` directly or indirectly.
    pub fn is_dependent_recursively(&self, downstream: &T, upstream: &T) -> (r: bool)
        requires
            self.wf(),
        ensures
            r == (downstream@ != upstream@ && reaches(self@, true, upstream@, downstream@)),
    {
        if downstream.same(upstream) {
            return false;
        }
        let all = self.closure(upstream, true);
        contains_point(&all, downstream)
    }

    /// The points that depend on `point` directly or indirectly, each once.
    pub fn depends_on_recursively(&self, point: &T) -> (r: Vec<T>)
        requires
            self.wf(),
        ensures
            point_views(r@).no_duplicates(),
            forall|d: T::V| #[trigger] point_views(r@).contains(d) <==> reaches(self@, true, point@, d),
    {
        self.closure(point, true)
    }

    /// The points that `point` depends on directly or indirectly, each once.
    pub fn depended_by_recursively(&self, point: &T) -> (r: Vec<T>)
        requires
            self.wf(),
        ensures
            point_views(r@).no_duplicates(),
            forall|u: T::V| #[trigger] point_views(r@).contains(u) <==> reaches(self@, false, point@, u),
    {
        self.closure(point, false)
    }

    /// The edges that survive removing `point` (when `other` is `None`) or
    /// the single edge `(point, other)`.
    fn edges_without(&self, point: &T, other: Option<&T>) -> (res: Vec<(T, T)>)
        requires
            self.wf(),
        ensures
            edge_views(res@).no_duplicates(),
            edge_views(res@).to_set() == self@.filter(
                |x: (T::V, T::V)| survives(x, point@, opt_view(other)),
            ),
    {
        let ghost ev = edge_views(self.edges@);
        let ghost p = point@;
        let ghost o = opt_view(other);
        let mut res: Vec<(T, T)> = Vec::new();
        let mut i: usize = 0;
        while i < self.edges.len()
            invariant
                ev == edge_views(self.edges@),
                ev.no_duplicates(),
                p == point@,
                o == opt_view(other),
                i <= self.edges.len(),
                edge_views(res@).no_duplicates(),
                forall|x: (T::V, T::V)| #[trigger] edge_views(res@).contains(x) <==> (survives(x, p, o)
                    && exists|k: int| 0 <= k < i && #[trigger] ev[k] == x),
            decreases self.edges.len() - i,
        {
            let e = &self.edges[i];
            assert(ev[i as int] == (e.0@, e.1@));
            let keep = match other {
                None => !e.0.same(point) && !e.1.same(point),
                Some(u) => !(e.0.same(point) && e.1.same(u)),
            };
            let ghost before = edge_views(res@);
            if keep {
                let q = (e.0.duplicate(), e.1.duplicate());
                proof {
                    if before.contains(ev[i as int]) {
                        let k = choose|k: int| 0 <= k < i && #[trigger] ev[k] == ev[i as int];
                    }
                }
                res.push(q);
                assert(edge_views(res@) =~= before.push(ev[i as int]));
            }
            proof {
                let now = edge_views(res@);
                assert forall|x: (T::V, T::V)| #[trigger] now.contains(x) <==> (survives(x, p, o)
                    && exists|k: int| 0 <= k < i + 1 && #[trigger] ev[k] == x) by {
                    if before.contains(x) {
                        let t = choose|t: int| 0 <= t < before.len() && before[t] == x;
                        assert(now[t] == x);
                    }
                    if exists|k: int| 0 <= k < i + 1 && #[trigger] ev[k] == x {
                        let k = choose|k: int| 0 <= k < i + 1 && #[trigger] ev[k] == x;
                        if k == i && survives(x, p, o) {
                            assert(now[before.len() as int] == x);
                        }
                    }
                }
            }
            i += 1;
        }
        proof {
            assert forall|x: (T::V, T::V)| edge_views(res@).to_set().contains(x) <==> self@.filter(
                |x: (T::V, T::V)| survives(x, p, o),
            ).contains(x) by {
                if self@.contains(x) {
                    self.lemma_view_contains(x);
                    let k = choose|k: int| 0 <= k < self.edges@.len() && #[trigger] ev[k] == x;
                }
                if edge_views(res@).contains(x) {
                    let k = choose|k: int| 0 <= k < i && #[trigger] ev[k] == x;
                    assert(self@.contains(ev[k]));
                }
            }
            assert(edge_views(res@).to_set() =~= self@.filter(
                |x: (T::V, T::V)| survives(x, p, o),
            ));
        }
        res
    }

    /// Creates the dependency `downstream` -> `upstream`. It is refused when
    /// the two are the same point, and when `upstream` already depends on
    /// `downstream`, which would close a cycle.
    pub fn add_dependency(&mut self, downstream: T, upstream: T) -> (r: Result<(), DependencyError>)
        requires
            old(self).wf(),
        ensures
            final(self).wf(),
            downstream@ == upstream@ ==> r == Err::<(), DependencyError>(DependencyError::SelfDependency)
                && final(self)@ == old(self)@,
            downstream@ != upstream@ && reaches(old(self)@, true, downstream@, upstream@) ==> r == Err::<
                (),
                DependencyError,
            >(DependencyError::CircularDependency) && final(self)@ == old(self)@,
            downstream@ != upstream@ && !reaches(old(self)@, true, downstream@, upstream@) ==> r is Ok
                && final(self)@ == old(self)@.insert((downstream@, upstream@)),
    {
        if downstream.same(&upstream) {
            return Err(DependencyError::SelfDependency);
        }
        if self.is_dependent_recursively(&upstream, &downstream) {
            return Err(DependencyError::CircularDependency);
        }
        let ghost before = self@;
        if !self.has_edge(&downstream, &upstream) {
            let ghost old_ev = edge_views(self.edges@);
            self.edges.push((downstream, upstream));
            proof {
                let x = (downstream@, upstream@);
                assert(edge_views(self.edges@) =~= old_ev.push(x));
                assert(!old_ev.contains(x));
                assert(self@ =~= before.insert(x)) by {
                    assert forall|y: (T::V, T::V)| self@.contains(y) <==> before.insert(x).contains(y) by {
                        if before.contains(y) {
                            let k = choose|k: int| 0 <= k < old_ev.len() && old_ev[k] == y;
                            assert(edge_views(self.edges@)[k] == y);
                        }
                        if y == x {
                            assert(edge_views(self.edges@)[old_ev.len() as int] == y);
                        }
                    }
                }
            }
        } else {
            assert(before.insert((downstream@, upstream@)) =~= before);
        }
        proof {
            lemma_acyclic_insert(before, downstream@, upstream@);
        }
        Ok(())
    }

    /// Removes the dependency `downstream` -> `upstream`, if present.
    pub fn remove_dependency(&mut self, downstream: &T, upstream: &T)
        requires
            old(self).wf(),
        ensures
            final(self).wf(),
            final(self)@ == (if downstream@ == upstream@ {
                old(self)@
            } else {
                old(self)@.remove((downstream@, upstream@))
            }),
    {
        if downstream.same(upstream) {
            return;
        }
        let ghost before = self@;
        let kept = self.edges_without(downstream, Some(upstream));
        self.edges = kept;
        proof {
            assert(self@ =~= before.remove((downstream@, upstream@)));
            lemma_acyclic_subset(self@, before);
        }
    }

    /// Removes every dependency that involves the point.
    pub fn remove_point(&mut self, point: &T)
        requires
            old(self).wf(),
        ensures
            final(self).wf(),
            final(self)@ == old(self)@.filter(|x: (T::V, T::V)| x.0 != point@ && x.1 != point@),
    {
        let ghost before = self@;
        let kept = self.edges_without(point, None);
        self.edges = kept;
        proof {
            assert(self@ =~= before.filter(|x: (T::V, T::V)| x.0 != point@ && x.1 != point@));
            lemma_acyclic_subset(self@, before);
        }
    }

    /// Renames the point `from` to `to` in every dependency. It is refused
    /// when `to` is already a point of the graph.
    pub fn replace_point(&mut self, from: &T, to: &T) -> (r: Result<(), DependencyError>)
        requires
            old(self).wf(),
        ensures
            final(self).wf(),
            from@ == to@ ==> r is Ok && final(self)@ == old(self)@,
            from@ != to@ && points_of(old(self)@).contains(to@) ==> r == Err::<(), DependencyError>(
                DependencyError::ReplaceToExistingPoint,
            ) && final(self)@ == old(self)@,
            from@ != to@ && !points_of(old(self)@).contains(to@) ==> r is Ok && final(self)@
                == rename_edges(old(self)@, from@, to@),
    {
        if from.same(to) {
            return Ok(());
        }
        if self.has_point(to) {
            return Err(DependencyError::ReplaceToExistingPoint);
        }
        let ghost before = self@;
        let ghost ev = edge_views(self.edges@);
        let ghost f = from@;
        let ghost t = to@;
        let mut res: Vec<(T, T)> = Vec::new();
        let mut i: usize = 0;
        while i < self.edges.len()
            invariant
                ev == edge_views(self.edges@),
                before == self@,
                f == from@,
                t == to@,
                i <= self.edges.len(),
                res@.len() == i,
                forall|k: int| 0 <= k < i ==> #[trigger] edge_views(res@)[k] == (renamed(ev[k].0, f, t),
                    renamed(ev[k].1, f, t)),
            decreases self.edges.len() - i,
        {
            let e = &self.edges[i];
            assert(ev[i as int] == (e.0@, e.1@));
            let a = if e.0.same(from) {
                to.duplicate()
            } else {
                e.0.duplicate()
            };
            let b = if e.1.same(from) {
                to.duplicate()
            } else {
                e.1.duplicate()
            };
            let ghost before_res = edge_views(res@);
            res.push((a, b));
            proof {
                assert(edge_views(res@) =~= before_res.push((a@, b@)));
            }
            i += 1;
        }
        proof {
            let g = |x: (T::V, T::V)| (renamed(x.0, f, t), renamed(x.1, f, t));
            let nv = edge_views(res@);
            assert(nv =~= ev.map_values(g));
            ev.lemma_to_set_map_commutes(g);
            assert forall|k1: int, k2: int| 0 <= k1 < nv.len() && 0 <= k2 < nv.len() && k1 != k2 implies nv[k1]
                != nv[k2] by {
                assert(before.contains(ev[k1]));
                assert(before.contains(ev[k2]));
                assert(points_of(before).contains(ev[k1].0));
                assert(points_of(before).contains(ev[k1].1));
                assert(points_of(before).contains(ev[k2].0));
                assert(points_of(before).contains(ev[k2].1));
            }
            lemma_acyclic_rename(before, f, t);
        }
        self.edges = res;
        Ok(())
    }
}


/// A walk read backwards is a walk the other way.
pub proof fn lemma_walk_reverse<V>(e: Set<(V, V)>, down: bool, a: V, b: V, n: nat)
    requires
        walk(e, down, a, b, n),
    ensures
        walk(e, !down, b, a, n),
    decreases n,
{
    if n > 1 {
        let m = choose|m: V| #[trigger] step(e, down, a, m) && walk(e, down, m, b, (n - 1) as nat);
        lemma_walk_reverse(e, down, m, b, (n - 1) as nat);
        assert(walk(e, !down, m, a, 1));
        lemma_walk_concat(e, !down, b, m, a, (n - 1) as nat, 1);
    }
}

/// A graph that is kept well formed has no cycle: no point depends on
/// itself, directly or indirectly.
pub proof fn law_no_cycle<T: GraphPoint>(g: DependencyGraph<T>, x: T::V)
    requires
        g.wf(),
    ensures
        !reaches(g@, true, x, x),
{
}

/// `d` depends on `u`, directly or indirectly, exactly when `u` is among
/// the points `d` depends on: the two recursive queries are mirror images.
pub proof fn law_recursive_mirror<V>(e: Set<(V, V)>, u: V, d: V)
    ensures
        reaches(e, true, u, d) <==> reaches(e, false, d, u),
{
    if reaches(e, true, u, d) {
        let n = choose|n: nat| n >= 1 && #[trigger] walk(e, true, u, d, n);
        lemma_walk_reverse(e, true, u, d, n);
    }
    if reaches(e, false, d, u) {
        let n = choose|n: nat| n >= 1 && #[trigger] walk(e, false, d, u, n);
        lemma_walk_reverse(e, false, d, u, n);
    }
}

/// A direct dependency is also a dependency "recursively".
pub proof fn law_direct_is_recursive<V>(e: Set<(V, V)>, d: V, u: V)
    requires
        e.contains((d, u)),
    ensures
        reaches(e, true, u, d),
        reaches(e, false, d, u),
{
    assert(walk(e, true, u, d, 1));
    assert(walk(e, false, d, u, 1));
}

/// Dependency is transitive: when `c` depends on `b` and `b` on `a`, `c`
/// depends on `a`.
pub proof fn law_dependency_transitive<V>(e: Set<(V, V)>, a: V, b: V, c: V)
    requires
        reaches(e, true, a, b),
        reaches(e, true, b, c),
    ensures
        reaches(e, true, a, c),
{
    lemma_reaches_trans(e, true, a, b, c);
}

/// Removing a dependency that was just added gives the graph back, when it
/// was not there before.
pub proof fn law_remove_undoes_add<V>(e: Set<(V, V)>, d: V, u: V)
    requires
        !e.contains((d, u)),
    ensures
        e.insert((d, u)).remove((d, u)) == e,
{
    assert(e.insert((d, u)).remove((d, u)) =~= e);
}

/// After a point is removed, it is no longer a point of the graph.
pub proof fn law_removed_point_gone<V>(e: Set<(V, V)>, p: V)
    ensures
        !points_of(e.filter(|x: (V, V)| x.0 != p && x.1 != p)).contains(p),
{
    let f = e.filter(|x: (V, V)| x.0 != p && x.1 != p);
    if points_of(f).contains(p) {
        let q = choose|q: V| f.contains((p, q)) || f.contains((q, p));
        assert(!f.contains((p, q)) && !f.contains((q, p)));
    }
}

/// Renaming a point to a new name and back gives the graph back.
pub proof fn law_replace_back<V>(e: Set<(V, V)>, from: V, to: V)
    requires
        !points_of(e).contains(to),
    ensures
        rename_edges(rename_edges(e, from, to), to, from) == e,
{
    let e1 = rename_edges(e, from, to);
    let e2 = rename_edges(e1, to, from);
    let f = |x: (V, V)| (renamed(x.0, from, to), renamed(x.1, from, to));
    let g = |x: (V, V)| (renamed(x.0, to, from), renamed(x.1, to, from));
    assert forall|x: (V, V)| e2.contains(x) <==> e.contains(x) by {
        if e.contains(x) {
            assert(x.0 != to && x.1 != to) by {
                assert(e.contains((x.0, x.1)));
                assert(points_of(e).contains(x.0));
                assert(points_of(e).contains(x.1));
            }
            assert(e1.contains(f(x)));
            assert(g(f(x)) == x);
        }
        if e2.contains(x) {
            let y = choose|y: (V, V)| e1.contains(y) && g(y) == x;
            let z = choose|z: (V, V)| e.contains(z) && f(z) == y;
            assert(z.0 != to && z.1 != to) by {
                assert(e.contains((z.0, z.1)));
                assert(points_of(e).contains(z.0));
                assert(points_of(e).contains(z.1));
            }
            assert(g(f(z)) == z);
        }
    }
    assert(e2 =~= e);
}

} // verus!
