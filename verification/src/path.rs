//! Cheapest routes over the terrain grid.
//!
//! An army walks from tile to tile, one of the four neighbours at a time.
//! Entering a tile costs what its terrain asks; mountains cannot be entered.
//! The search settles tiles in order of their distance from the start, and
//! among tiles at the same distance takes the one that comes first in
//! row-major order, so the same map always yields the same route.

use crate::map::{GameMap, Point, COST_PER_TURN};
use vstd::prelude::*;
use vstd::set_lib::*;

verus! {

/// Neighbours on the grid: one step apart along a row or a column.
pub open spec fn adjacent(a: Point, b: Point) -> bool {
    ||| a.1 == b.1 && (a.0 + 1 == b.0 || b.0 + 1 == a.0)
    ||| a.0 == b.0 && (a.1 + 1 == b.1 || b.1 + 1 == a.1)
}

/// True when `p` is on the map and its terrain can be entered.
pub open spec fn enterable(map: &GameMap, p: Point) -> bool {
    map.contains(p) && map.terrain(p).spec_step_cost() is Some
}

/// Movement points spent on entering `p`.
pub open spec fn enter_cost(map: &GameMap, p: Point) -> nat {
    match map.terrain(p).spec_step_cost() {
        Some(c) => c,
        None => 0,
    }
}

/// A walk: a non-empty sequence of tiles that starts on the map and moves
/// each time to an enterable neighbour.
pub open spec fn is_walk(map: &GameMap, w: Seq<Point>) -> bool {
    &&& w.len() > 0
    &&& map.contains(w[0])
    &&& forall|i: int| 1 <= i < w.len() ==> adjacent(#[trigger] w[i], w[i - 1]) && enterable(map, w[i])
}

/// Movement points that a walk spends: the cost of every tile it enters.
/// The tile it starts on is free.
pub open spec fn walk_cost(map: &GameMap, w: Seq<Point>) -> nat
    decreases w.len(),
{
    if w.len() <= 1 {
        0
    } else {
        walk_cost(map, w.drop_last()) + enter_cost(map, w.last())
    }
}

/// A walk from `from` to `to`.
pub open spec fn connects(map: &GameMap, w: Seq<Point>, from: Point, to: Point) -> bool {
    is_walk(map, w) && w[0] == from && w.last() == to
}

/// A walk from `from` to `to` that no other such walk undercuts.
pub open spec fn is_cheapest(map: &GameMap, w: Seq<Point>, from: Point, to: Point) -> bool {
    &&& connects(map, w, from, to)
    &&& forall|other: Seq<Point>| #[trigger]
        connects(map, other, from, to) ==> walk_cost(map, w) <= walk_cost(map, other)
}

/// The place of a tile in row-major order: row by row, each from the left.
pub open spec fn row_major(map: &GameMap, p: Point) -> int {
    p.1 * map.width + p.0
}

/// True when `v` is a walk from `from` that one more step, to `p`, makes a
/// cheapest walk to `p`: cheapest walks to `p` can come through the last
/// tile of `v`.
pub open spec fn comes_through(map: &GameMap, v: Seq<Point>, from: Point, p: Point) -> bool {
    &&& is_walk(map, v)
    &&& v[0] == from
    &&& adjacent(p, v.last())
    &&& enterable(map, p)
    &&& is_cheapest(map, v.push(p), from, p)
}

/// The one cheapest walk from `from` to `to` that reaches each of its
/// tiles from the first, in row-major order, of the neighbours through
/// which cheapest walks can come.
pub open spec fn is_first_cheapest(map: &GameMap, w: Seq<Point>, from: Point, to: Point) -> bool {
    &&& is_cheapest(map, w, from, to)
    &&& forall|i: int, v: Seq<Point>|
        1 <= i < w.len() && #[trigger] comes_through(map, v, from, w[i]) ==> row_major(map, w[i - 1])
            <= row_major(map, v.last())
}

/// True when some walk leads from `from` to `to`.
pub open spec fn reachable(map: &GameMap, from: Point, to: Point) -> bool {
    exists|w: Seq<Point>| #[trigger] connects(map, w, from, to)
}

/// Turns that a march of `cost` movement points takes: the points divided by
/// the speed and rounded up, at least one turn, and no more than fits in the
/// turn counter of a march.
pub open spec fn turns_for(cost: nat) -> nat {
    let turns = (cost + COST_PER_TURN - 1) / (COST_PER_TURN as int);
    if turns < 1 {
        1
    } else if turns > u32::MAX {
        u32::MAX as nat
    } else {
        turns as nat
    }
}

/// A route found by the search, with what it costs to march along it.
#[derive(Debug)]
pub struct Route {
    pub path: Vec<Point>,
    pub cost: u128,
}

/// The position of a tile in row-major order.
spec fn slot(map: &GameMap, p: Point) -> int {
    p.1 * map.width + p.0
}

proof fn lemma_slot_range(map: &GameMap, p: Point)
    requires
        map.contains(p),
    ensures
        0 <= slot(map, p) < map.width * map.height,
{
    assert(p.1 * map.width + p.0 < map.width * map.height) by (nonlinear_arith)
        requires
            p.0 < map.width,
            p.1 < map.height,
    ;
    assert(0 <= p.1 * map.width) by (nonlinear_arith);
}

proof fn lemma_slot_injective(map: &GameMap, p: Point, q: Point)
    requires
        map.contains(p),
        map.contains(q),
        slot(map, p) == slot(map, q),
    ensures
        p == q,
{
    let w = map.width as int;
    let (px, py, qx, qy) = (p.0 as int, p.1 as int, q.0 as int, q.1 as int);
    assert(py == qy) by (nonlinear_arith)
        requires
            py * w + px == qy * w + qx,
            0 <= px < w,
            0 <= qx < w,
    ;
    assert(px == qx);
}

fn slot_of(map: &GameMap, p: Point) -> (s: usize)
    requires
        map.wf(),
        map.contains(p),
    ensures
        s == slot(map, p),
        s < map.width * map.height,
{
    proof {
        lemma_slot_range(map, p);
        assert(p.1 * map.width <= p.1 * map.width + p.0);
    }
    p.1 * map.width + p.0
}

/// Working state of one search.
struct Search {
    /// Cheapest cost found so far, by slot; meaningful where `seen`.
    dist: Vec<u128>,
    /// Tiles that some walk from the start has reached.
    seen: Vec<bool>,
    /// Tiles whose distance is final.
    done: Vec<bool>,
    /// The tile before this one on the cheapest walk found so far.
    prev: Vec<Point>,
    /// The tiles that are seen and not yet done.
    frontier: Vec<Point>,
}

impl Search {
    spec fn sized(&self, map: &GameMap) -> bool {
        let n = map.width * map.height;
        &&& self.dist@.len() == n
        &&& self.seen@.len() == n
        &&& self.done@.len() == n
        &&& self.prev@.len() == n
    }

    spec fn is_seen(&self, map: &GameMap, p: Point) -> bool {
        self.seen@[slot(map, p)]
    }

    spec fn is_done(&self, map: &GameMap, p: Point) -> bool {
        self.done@[slot(map, p)]
    }

    spec fn d(&self, map: &GameMap, p: Point) -> int {
        self.dist@[slot(map, p)] as int
    }

    spec fn before(&self, map: &GameMap, p: Point) -> Point {
        self.prev@[slot(map, p)]
    }

    /// The tables cover the map, and the start is on it.
    spec fn shape(&self, map: &GameMap, src: Point) -> bool {
        &&& self.sized(map)
        &&& map.wf()
        &&& map.contains(src)
    }

    /// The start is seen at distance zero, done tiles are seen, and no
    /// distance exceeds `bound`.
    #[verifier::opaque]
    spec fn basics(&self, map: &GameMap, src: Point, bound: int) -> bool {
        &&& self.is_seen(map, src)
        &&& self.d(map, src) == 0
        &&& forall|p: Point| #[trigger] map.contains(p) && self.is_done(map, p) ==> self.is_seen(map, p)
        &&& forall|p: Point| #[trigger] map.contains(p) && self.is_seen(map, p) ==> self.d(map, p) <= bound
    }

    /// Every seen tile but the start was reached by one step from a done
    /// tile, and its distance is that tile's plus the step.
    #[verifier::opaque]
    spec fn linked(&self, map: &GameMap, src: Point) -> bool {
        forall|p: Point| #[trigger]
            map.contains(p) && self.is_seen(map, p) && p != src ==> {
                let q = self.before(map, p);
                &&& map.contains(q)
                &&& self.is_done(map, q)
                &&& adjacent(p, q)
                &&& enterable(map, p)
                &&& self.d(map, p) == self.d(map, q) + enter_cost(map, p)
            }
    }

    /// No walk from the start reaches a done tile for less than its distance.
    #[verifier::opaque]
    spec fn settled(&self, map: &GameMap, src: Point) -> bool {
        forall|w: Seq<Point>| #[trigger]
            is_walk(map, w) && w[0] == src && self.is_done(map, w.last()) ==> walk_cost(map, w)
                >= self.d(map, w.last())
    }

    /// Every enterable neighbour of a done tile has been offered the step
    /// from it. For the tile `cur` that is being expanded this holds of the
    /// neighbours in `handled` only.
    #[verifier::opaque]
    spec fn relaxed(&self, map: &GameMap, cur: Option<Point>, handled: Set<Point>) -> bool {
        forall|u: Point, v: Point|
            map.contains(u) && self.is_done(map, u) && #[trigger] adjacent(v, u) && enterable(map, v)
                && (cur != Some(u) || handled.contains(v)) ==> self.is_seen(map, v) && self.d(
                map,
                v,
            ) <= self.d(map, u) + enter_cost(map, v)
    }

    /// Done tiles are no farther than the tiles still waiting, nor than the
    /// tile being expanded.
    #[verifier::opaque]
    spec fn ordered(&self, map: &GameMap, cur: Option<Point>) -> bool {
        forall|a: Point, b: Point|
            map.contains(a) && map.contains(b) && #[trigger] self.is_done(map, a)
                && #[trigger] self.is_seen(map, b) && (!self.is_done(map, b) || cur == Some(b))
                ==> self.d(map, a) <= self.d(map, b)
    }

    /// The frontier lists, once each, exactly the tiles seen and not done.
    #[verifier::opaque]
    spec fn listed(&self, map: &GameMap) -> bool {
        &&& forall|i: int|
            0 <= i < self.frontier@.len() ==> {
                let p = #[trigger] self.frontier@[i];
                map.contains(p) && self.is_seen(map, p) && !self.is_done(map, p)
            }
        &&& forall|i: int, j: int|
            0 <= i < j < self.frontier@.len() ==> #[trigger] self.frontier@[i]
                != #[trigger] self.frontier@[j]
        &&& forall|p: Point| #[trigger]
            map.contains(p) && self.is_seen(map, p) && !self.is_done(map, p)
                ==> self.frontier@.contains(p)
    }

    /// `a` is settled sooner than `b`: it is nearer, or as near and before
    /// it in row-major order.
    spec fn sooner(&self, map: &GameMap, a: Point, b: Point) -> bool {
        ||| self.d(map, a) < self.d(map, b)
        ||| self.d(map, a) == self.d(map, b) && slot(map, a) < slot(map, b)
    }

    /// The tile `last` was settled after every other done tile, and the
    /// start before all: nothing is done before the first round.
    #[verifier::opaque]
    spec fn ranked(&self, map: &GameMap, src: Point, last: Option<Point>) -> bool {
        match last {
            None => forall|a: Point| map.contains(a) ==> !(#[trigger] self.is_done(map, a)),
            Some(l) => {
                &&& map.contains(l)
                &&& self.is_done(map, l)
                &&& self.is_done(map, src)
                &&& forall|a: Point|
                    map.contains(a) && #[trigger] self.is_done(map, a) && a != l ==> self.sooner(
                        map,
                        a,
                        l,
                    )
            },
        }
    }

    /// Every tile that waits was reached from `last`, or is settled later
    /// than `last` by the order of settling.
    #[verifier::opaque]
    spec fn queued(&self, map: &GameMap, last: Option<Point>) -> bool {
        last matches Some(l) ==> forall|v: Point|
            map.contains(v) && #[trigger] self.is_seen(map, v) && !self.is_done(map, v)
                ==> self.before(map, v) == l || self.sooner(map, l, v)
    }

    /// The tile before a seen tile is the first, in row-major order, of the
    /// done neighbours that offer it its distance. Of the tile `cur` that
    /// is being expanded this holds for the neighbours in `handled` only.
    #[verifier::opaque]
    spec fn first(&self, map: &GameMap, src: Point, cur: Option<Point>, handled: Set<Point>) -> bool {
        forall|p: Point, u: Point|
            map.contains(p) && self.is_seen(map, p) && p != src && map.contains(u) && self.is_done(
                map,
                u,
            ) && #[trigger] adjacent(p, u) && (cur != Some(u) || handled.contains(p)) && self.d(map, u)
                + enter_cost(map, p) == self.d(map, p) ==> slot(map, self.before(map, p)) <= slot(
                map,
                u,
            )
    }

    /// What makes the route the first of the cheapest.
    spec fn tie(
        &self,
        map: &GameMap,
        src: Point,
        last: Option<Point>,
        cur: Option<Point>,
        handled: Set<Point>,
    ) -> bool {
        &&& self.ranked(map, src, last)
        &&& self.queued(map, last)
        &&& self.first(map, src, cur, handled)
    }

    /// No walk from the start reaches a tile that is not done for less than
    /// the distance of `u`.
    #[verifier::opaque]
    spec fn walled(&self, map: &GameMap, src: Point, u: Point) -> bool {
        forall|w: Seq<Point>| #[trigger]
            is_walk(map, w) && w[0] == src && !self.is_done(map, w.last()) ==> walk_cost(map, w)
                >= self.d(map, u)
    }

    spec fn inv(
        &self,
        map: &GameMap,
        src: Point,
        bound: int,
        cur: Option<Point>,
        handled: Set<Point>,
    ) -> bool {
        &&& self.shape(map, src)
        &&& self.basics(map, src, bound)
        &&& self.linked(map, src)
        &&& self.settled(map, src)
        &&& self.relaxed(map, cur, handled)
        &&& self.ordered(map, cur)
        &&& self.listed(map)
    }

    /// A walk that ends on a tile not yet done costs at least `least`, the
    /// smallest distance still waiting.
    proof fn lemma_lower_bound(&self, map: &GameMap, src: Point, bound: int, least: int, w: Seq<Point>)
        requires
            self.inv(map, src, bound, None, Set::empty()),
            forall|p: Point| #[trigger]
                map.contains(p) && self.is_seen(map, p) && !self.is_done(map, p) ==> least
                    <= self.d(map, p),
            is_walk(map, w),
            w[0] == src,
            !self.is_done(map, w.last()),
        ensures
            walk_cost(map, w) >= least,
        decreases w.len(),
    {
        reveal(Search::basics);
        if w.len() == 1 {
            assert(map.contains(src));
        } else {
            let head = w.drop_last();
            let p = w.last();
            let q = head.last();
            lemma_walk_head(map, w);
            if self.is_done(map, q) {
                assert(walk_cost(map, head) >= self.d(map, q)) by {
                    reveal(Search::settled);
                }
                assert(self.is_seen(map, p) && self.d(map, p) <= self.d(map, q) + enter_cost(map, p))
                    by {
                    reveal(Search::relaxed);
                }
                assert(map.contains(p));
            } else {
                self.lemma_lower_bound(map, src, bound, least, head);
            }
        }
    }

    /// Once nothing is waiting, every tile that a walk from the start
    /// reaches is done.
    proof fn lemma_exhausted(&self, map: &GameMap, src: Point, bound: int, w: Seq<Point>)
        requires
            self.inv(map, src, bound, None, Set::empty()),
            self.frontier@.len() == 0,
            is_walk(map, w),
            w[0] == src,
        ensures
            self.is_done(map, w.last()),
        decreases w.len(),
    {
        reveal(Search::basics);
        reveal(Search::listed);
        if w.len() == 1 {
            assert(map.contains(src));
            if !self.is_done(map, src) {
                assert(self.frontier@.contains(src));
            }
        } else {
            let head = w.drop_last();
            let p = w.last();
            let q = head.last();
            lemma_walk_head(map, w);
            self.lemma_exhausted(map, src, bound, head);
            assert(self.is_seen(map, p)) by {
                reveal(Search::relaxed);
            }
            assert(map.contains(p));
            if !self.is_done(map, p) {
                assert(self.frontier@.contains(p));
            }
        }
    }

    /// The distance of a done tile is what the cheapest walk to it costs.
    proof fn lemma_settled(
        &self,
        map: &GameMap,
        src: Point,
        bound: int,
        cur: Option<Point>,
        handled: Set<Point>,
        w: Seq<Point>,
    )
        requires
            self.inv(map, src, bound, cur, handled),
            is_walk(map, w),
            w[0] == src,
            self.is_done(map, w.last()),
        ensures
            walk_cost(map, w) >= self.d(map, w.last()),
    {
        reveal(Search::settled);
    }
}

/// Every tile of a walk is on the map.
proof fn lemma_walk_on_map(map: &GameMap, w: Seq<Point>)
    requires
        is_walk(map, w),
    ensures
        map.contains(w.last()),
        forall|i: int| 0 <= i < w.len() ==> map.contains(#[trigger] w[i]),
{
    assert forall|i: int| 0 <= i < w.len() implies map.contains(#[trigger] w[i]) by {
        if i > 0 {
            assert(enterable(map, w[i]));
        }
    }
    assert(w.last() == w[w.len() - 1]);
}

/// A walk of more than one tile is a shorter walk followed by one step.
proof fn lemma_walk_head(map: &GameMap, w: Seq<Point>)
    requires
        is_walk(map, w),
        w.len() > 1,
    ensures
        is_walk(map, w.drop_last()),
        w.drop_last()[0] == w[0],
        map.contains(w.drop_last().last()),
        map.contains(w.last()),
        adjacent(w.last(), w.drop_last().last()),
        enterable(map, w.last()),
        walk_cost(map, w) == walk_cost(map, w.drop_last()) + enter_cost(map, w.last()),
{
    let head = w.drop_last();
    assert(w[w.len() - 1] == w.last());
    assert(adjacent(w[w.len() - 1], w[w.len() - 2]) && enterable(map, w[w.len() - 1]));
    assert(head.last() == w[w.len() - 2]);
    assert forall|i: int| 1 <= i < head.len() implies adjacent(#[trigger] head[i], head[i - 1])
        && enterable(map, head[i]) by {
        assert(head[i] == w[i]);
        assert(head[i - 1] == w[i - 1]);
    }
    lemma_walk_on_map(map, w);
}

impl Search {
    /// Settling the tile that comes soonest of those that wait keeps the
    /// order of settling.
    proof fn lemma_settle_tie(
        before: Search,
        after: Search,
        map: &GameMap,
        src: Point,
        bound: int,
        last: Option<Point>,
        u: Point,
    )
        requires
            before.inv(map, src, bound, None, Set::empty()),
            before.tie(map, src, last, None, Set::empty()),
            map.contains(u),
            before.is_seen(map, u),
            !before.is_done(map, u),
            forall|p: Point|
                map.contains(p) && #[trigger] before.is_seen(map, p) && !before.is_done(map, p) && p
                    != u ==> before.sooner(map, u, p),
            after.dist@ == before.dist@,
            after.seen@ == before.seen@,
            after.prev@ == before.prev@,
            forall|p: Point|
                map.contains(p) ==> (#[trigger] after.is_done(map, p)) == (before.is_done(map, p) || p
                    == u),
        ensures
            after.tie(map, src, Some(u), Some(u), Set::empty()),
    {
        assert(after.ranked(map, src, Some(u))) by {
            reveal(Search::ranked);
            reveal(Search::queued);
            reveal(Search::basics);
            if u != src {
                before.lemma_link(map, src, u);
            }
            match last {
                None => {
                    assert(map.contains(src));
                    if u != src {
                        assert(before.is_done(map, before.before(map, u)));
                    }
                },
                Some(l) => {
                    assert(before.sooner(map, l, u));
                    assert forall|a: Point|
                        map.contains(a) && #[trigger] after.is_done(map, a) && a != u
                        implies after.sooner(map, a, u) by {
                        assert(before.is_done(map, a));
                        if a != l {
                            assert(before.sooner(map, a, l));
                        }
                    }
                },
            }
        }
        assert(after.queued(map, Some(u))) by {
            reveal(Search::queued);
            assert forall|v: Point|
                map.contains(v) && #[trigger] after.is_seen(map, v) && !after.is_done(map, v)
                implies after.before(map, v) == u || after.sooner(map, u, v) by {
                assert(before.is_seen(map, v) && !before.is_done(map, v) && v != u);
            }
        }
        assert(after.first(map, src, Some(u), Set::empty())) by {
            reveal(Search::first);
            assert forall|p: Point, a: Point|
                map.contains(p) && after.is_seen(map, p) && p != src && map.contains(a)
                    && after.is_done(map, a) && #[trigger] adjacent(p, a) && (Some(u) != Some(a)
                    || Set::<Point>::empty().contains(p)) && after.d(map, a) + enter_cost(map, p)
                    == after.d(map, p) implies slot(map, after.before(map, p)) <= slot(map, a) by {
                assert(before.is_done(map, a));
            }
        }
    }

    /// Offering a neighbour the step from the tile that is being expanded
    /// keeps the order of settling.
    proof fn lemma_relax_tie(
        before: Search,
        after: Search,
        map: &GameMap,
        src: Point,
        bound: int,
        u: Point,
        v: Point,
        handled: Set<Point>,
        took: bool,
    )
        requires
            before.inv(map, src, bound, Some(u), handled),
            before.tie(map, src, Some(u), Some(u), handled),
            map.contains(u),
            map.contains(v),
            adjacent(v, u),
            before.is_done(map, u),
            after.done@ == before.done@,
            forall|p: Point|
                map.contains(p) && p != v ==> (#[trigger] after.is_seen(map, p)) == before.is_seen(
                    map,
                    p,
                ) && after.d(map, p) == before.d(map, p) && after.before(map, p) == before.before(
                    map,
                    p,
                ),
            !took ==> after.is_seen(map, v) == before.is_seen(map, v) && after.d(map, v) == before.d(
                map,
                v,
            ) && after.before(map, v) == before.before(map, v),
            took ==> {
                &&& !before.is_done(map, v)
                &&& enterable(map, v)
                &&& after.is_seen(map, v)
                &&& after.d(map, v) == before.d(map, u) + enter_cost(map, v)
                &&& after.before(map, v) == u
                &&& before.is_seen(map, v) ==> after.d(map, v) < before.d(map, v)
            },
        ensures
            after.tie(map, src, Some(u), Some(u), handled.insert(v)),
    {
        assert forall|p: Point| after.is_done(map, p) == before.is_done(map, p) by {}
        assert(after.is_seen(map, v) == (before.is_seen(map, v) || took));
        assert(v != u);
        // What stays: every tile but `v`, and `v` too unless it took the offer.
        assert forall|p: Point| map.contains(p) && (p != v || !took) implies after.d(map, p)
            == #[trigger] before.d(map, p) && after.before(map, p) == before.before(map, p)
            && after.is_seen(map, p) == before.is_seen(map, p) by {
            if p != v {
                assert(after.is_seen(map, p) == before.is_seen(map, p));
            }
        }
        assert(after.d(map, u) == before.d(map, u));
        assert(after.ranked(map, src, Some(u))) by {
            reveal(Search::ranked);
            assert forall|a: Point|
                map.contains(a) && #[trigger] after.is_done(map, a) && a != u implies after.sooner(
                map,
                a,
                u,
            ) by {
                assert(before.is_done(map, a));
                assert(after.d(map, a) == before.d(map, a));
                assert(before.sooner(map, a, u));
            }
        }
        assert(after.queued(map, Some(u))) by {
            reveal(Search::queued);
            assert forall|w: Point|
                map.contains(w) && #[trigger] after.is_seen(map, w) && !after.is_done(map, w)
                implies after.before(map, w) == u || after.sooner(map, u, w) by {
                if w != v || !took {
                    assert(after.d(map, w) == before.d(map, w));
                    assert(before.is_seen(map, w) && !before.is_done(map, w));
                    assert(before.before(map, w) == u || before.sooner(map, u, w));
                }
            }
        }
        assert(after.first(map, src, Some(u), handled.insert(v))) by {
            reveal(Search::first);
            assert forall|p: Point, a: Point|
                map.contains(p) && after.is_seen(map, p) && p != src && map.contains(a)
                    && after.is_done(map, a) && #[trigger] adjacent(p, a) && (Some(u) != Some(a)
                    || handled.insert(v).contains(p)) && after.d(map, a) + enter_cost(map, p)
                    == after.d(map, p) implies slot(map, after.before(map, p)) <= slot(map, a) by {
                assert(before.is_done(map, a));
                assert(after.d(map, a) == before.d(map, a));
                if p != v {
                    assert(after.d(map, p) == before.d(map, p));
                    assert(before.is_seen(map, p));
                    assert(Some(u) != Some(a) || handled.contains(p));
                } else if took {
                    if a != u {
                        assert(before.is_seen(map, v) && before.d(map, v) <= before.d(map, a)
                            + enter_cost(map, v)) by {
                            reveal(Search::relaxed);
                        }
                    }
                } else if a != u || handled.contains(v) {
                    assert(after.d(map, v) == before.d(map, v));
                    assert(before.is_seen(map, v));
                } else {
                    assert(after.d(map, v) == before.d(map, v));
                    assert(before.is_seen(map, v));
                    before.lemma_link(map, src, v);
                    let q = before.before(map, v);
                    if q != u {
                        assert(before.is_done(map, q));
                        assert(before.sooner(map, q, u)) by {
                            reveal(Search::ranked);
                        }
                    }
                }
            }
        }
    }
}

/// `n` copies of `value`.
fn filled<T: Copy>(n: usize, value: T) -> (v: Vec<T>)
    ensures
        v@.len() == n,
        forall|i: int| 0 <= i < n ==> v@[i] == value,
{
    let mut v: Vec<T> = Vec::new();
    let mut i: usize = 0;
    while i < n
        invariant
            i <= n,
            v@.len() == i,
            forall|j: int| 0 <= j < i ==> v@[j] == value,
        decreases n - i,
    {
        v.push(value);
        i = i + 1;
    }
    v
}

impl Search {
    /// The state before the first round: only the start is seen.
    fn start(map: &GameMap, src: Point) -> (s: Search)
        requires
            map.wf(),
            map.contains(src),
        ensures
            s.inv(map, src, 0, None, Set::empty()),
            s.tie(map, src, None, None, Set::empty()),
            forall|p: Point| map.contains(p) ==> !(#[trigger] s.is_done(map, p)),
            forall|i: int| 0 <= i < s.done@.len() ==> !s.done@[i],
    {
        let n = map.width * map.height;
        let at = slot_of(map, src);
        let mut s = Search {
            dist: filled(n, 0u128),
            seen: filled(n, false),
            done: filled(n, false),
            prev: filled(n, src),
            frontier: Vec::new(),
        };
        s.seen[at] = true;
        s.frontier.push(src);
        proof {
            assert forall|p: Point| map.contains(p) implies !s.is_done(map, p) && s.d(map, p) == 0 && (
            s.is_seen(map, p) ==> p == src) by {
                lemma_slot_range(map, p);
                if slot(map, p) == slot(map, src) {
                    lemma_slot_injective(map, p, src);
                }
            }
            assert(s.basics(map, src, 0)) by {
                reveal(Search::basics);
            }
            assert(s.linked(map, src)) by {
                reveal(Search::linked);
            }
            assert(s.settled(map, src)) by {
                reveal(Search::settled);
                assert forall|w: Seq<Point>| #[trigger]
                    is_walk(map, w) && w[0] == src && s.is_done(map, w.last()) implies walk_cost(
                    map,
                    w,
                ) >= s.d(map, w.last()) by {
                    lemma_walk_on_map(map, w);
                }
            }
            assert(s.relaxed(map, None, Set::empty())) by {
                reveal(Search::relaxed);
            }
            assert(s.ordered(map, None)) by {
                reveal(Search::ordered);
            }
            assert(s.listed(map)) by {
                reveal(Search::listed);
                assert(s.frontier@[0] == src);
            }
            assert(s.tie(map, src, None, None, Set::empty())) by {
                reveal(Search::ranked);
                reveal(Search::queued);
                reveal(Search::first);
            }
        }
        s
    }

    /// The place in the frontier of the tile to settle next: the nearest one,
    /// and among equally near ones the first in row-major order.
    fn pick(&self, map: &GameMap) -> (k: usize)
        requires
            map.wf(),
            self.sized(map),
            self.frontier@.len() > 0,
            forall|i: int| 0 <= i < self.frontier@.len() ==> map.contains(#[trigger] self.frontier@[i]),
        ensures
            k < self.frontier@.len(),
            forall|j: int|
                0 <= j < self.frontier@.len() ==> self.d(map, self.frontier@[k as int]) <= self.d(
                    map,
                    #[trigger] self.frontier@[j],
                ),
            forall|j: int|
                0 <= j < self.frontier@.len() && self.d(map, self.frontier@[k as int]) == self.d(
                    map,
                    #[trigger] self.frontier@[j],
                ) ==> slot(map, self.frontier@[k as int]) <= slot(map, self.frontier@[j]),
    {
        let mut k: usize = 0;
        let mut best_slot = slot_of(map, self.frontier[0]);
        let mut best = self.dist[best_slot];
        let mut i: usize = 1;
        while i < self.frontier.len()
            invariant
                map.wf(),
                self.sized(map),
                forall|i: int|
                    0 <= i < self.frontier@.len() ==> map.contains(#[trigger] self.frontier@[i]),
                1 <= i <= self.frontier@.len(),
                k < i,
                best_slot == slot(map, self.frontier@[k as int]),
                best == self.dist@[best_slot as int],
                forall|j: int| 0 <= j < i ==> best <= self.d(map, #[trigger] self.frontier@[j]),
                forall|j: int|
                    0 <= j < i && best == self.d(map, #[trigger] self.frontier@[j]) ==> best_slot
                        <= slot(map, self.frontier@[j]),
            decreases self.frontier@.len() - i,
        {
            let at = slot_of(map, self.frontier[i]);
            let here = self.dist[at];
            if here < best || (here == best && at < best_slot) {
                k = i;
                best = here;
                best_slot = at;
            }
            i = i + 1;
        }
        k
    }

    /// Takes the nearest tile off the frontier and makes its distance final.
    fn settle(
        &mut self,
        map: &GameMap,
        Ghost(src): Ghost<Point>,
        Ghost(bound): Ghost<int>,
        Ghost(latest): Ghost<Option<Point>>,
    ) -> (u: Point)
        requires
            old(self).inv(map, src, bound, None, Set::empty()),
            old(self).tie(map, src, latest, None, Set::empty()),
            old(self).frontier@.len() > 0,
        ensures
            final(self).inv(map, src, bound + 3, Some(u), Set::empty()),
            final(self).tie(map, src, Some(u), Some(u), Set::empty()),
            final(self).walled(map, src, u),
            map.contains(u),
            !old(self).is_done(map, u),
            final(self).is_done(map, u),
            final(self).done@ == old(self).done@.update(slot(map, u), true),
            final(self).d(map, u) <= bound,
    {
        let ghost before = *self;
        proof {
            assert forall|i: int| 0 <= i < self.frontier@.len() implies map.contains(
                #[trigger] self.frontier@[i],
            ) by {
                reveal(Search::listed);
            }
        }
        let k = self.pick(map);
        let u = self.frontier.swap_remove(k);
        let at = slot_of(map, u);
        self.done[at] = true;
        proof {
            let after = *self;
            let old_f = before.frontier@;
            let new_f = after.frontier@;
            let last = old_f.len() - 1;
            assert(old_f[k as int] == u);
            assert(new_f == old_f.update(k as int, old_f.last()).drop_last());
            assert(map.contains(u) && before.is_seen(map, u) && !before.is_done(map, u)) by {
                reveal(Search::listed);
            }
            assert(before.d(map, u) <= bound) by {
                reveal(Search::basics);
            }
            // What the step changed, tile by tile.
            assert forall|p: Point| map.contains(p) implies (#[trigger] after.is_done(map, p)) == (
            before.is_done(map, p) || p == u) by {
                lemma_slot_range(map, p);
                if slot(map, p) == slot(map, u) {
                    lemma_slot_injective(map, p, u);
                }
            }
            // Nothing that waits is nearer than `u`.
            assert forall|p: Point| #[trigger]
                map.contains(p) && before.is_seen(map, p) && !before.is_done(map, p) implies before.d(
                map,
                u,
            ) <= before.d(map, p) by {
                reveal(Search::listed);
                assert(old_f.contains(p));
                let j = choose|j: int| 0 <= j < old_f.len() && old_f[j] == p;
                assert(old_f[j] == p);
            }
            // Every other tile that waits is settled later than `u`.
            assert forall|p: Point|
                map.contains(p) && #[trigger] before.is_seen(map, p) && !before.is_done(map, p) && p
                    != u implies before.sooner(map, u, p) by {
                reveal(Search::listed);
                assert(old_f.contains(p));
                let j = choose|j: int| 0 <= j < old_f.len() && old_f[j] == p;
                assert(old_f[j] == p);
                if slot(map, p) == slot(map, u) {
                    lemma_slot_injective(map, p, u);
                }
            }
            assert(after.walled(map, src, u)) by {
                reveal(Search::walled);
                assert forall|w: Seq<Point>| #[trigger]
                    is_walk(map, w) && w[0] == src && !after.is_done(map, w.last())
                    implies walk_cost(map, w) >= after.d(map, u) by {
                    lemma_walk_on_map(map, w);
                    assert(!before.is_done(map, w.last()));
                    before.lemma_lower_bound(map, src, bound, before.d(map, u), w);
                }
            }
            Self::lemma_settle_tie(before, after, map, src, bound, latest, u);
            assert(after.basics(map, src, bound + 3)) by {
                reveal(Search::basics);
            }
            assert(after.linked(map, src)) by {
                reveal(Search::linked);
                assert forall|p: Point| #[trigger]
                    map.contains(p) && after.is_seen(map, p) && p != src implies {
                    let q = after.before(map, p);
                    &&& map.contains(q)
                    &&& after.is_done(map, q)
                    &&& adjacent(p, q)
                    &&& enterable(map, p)
                    &&& after.d(map, p) == after.d(map, q) + enter_cost(map, p)
                } by {
                    assert(map.contains(p) && before.is_seen(map, p) && p != src);
                }
            }
            assert(after.settled(map, src)) by {
                assert forall|w: Seq<Point>| #[trigger]
                    is_walk(map, w) && w[0] == src && after.is_done(map, w.last()) implies walk_cost(
                    map,
                    w,
                ) >= after.d(map, w.last()) by {
                    lemma_walk_on_map(map, w);
                    if before.is_done(map, w.last()) {
                        before.lemma_settled(map, src, bound, None, Set::empty(), w);
                    } else {
                        assert(w.last() == u);
                        before.lemma_lower_bound(map, src, bound, before.d(map, u), w);
                    }
                }
                reveal(Search::settled);
            }
            assert(after.relaxed(map, Some(u), Set::empty())) by {
                reveal(Search::relaxed);
                assert forall|a: Point, v: Point|
                    map.contains(a) && after.is_done(map, a) && #[trigger] adjacent(v, a) && enterable(
                        map,
                        v,
                    ) && (Some(u) != Some(a) || Set::<Point>::empty().contains(v)) implies after.is_seen(
                    map,
                    v,
                ) && after.d(map, v) <= after.d(map, a) + enter_cost(map, v) by {
                    assert(before.is_done(map, a));
                }
            }
            assert(after.ordered(map, Some(u))) by {
                reveal(Search::ordered);
                assert forall|a: Point, b: Point|
                    map.contains(a) && map.contains(b) && #[trigger] after.is_done(map, a)
                        && #[trigger] after.is_seen(map, b) && (!after.is_done(map, b) || Some(u)
                        == Some(b)) implies after.d(map, a) <= after.d(map, b) by {
                    assert(before.is_seen(map, b));
                    if a != u {
                        assert(before.is_done(map, a));
                    }
                }
            }
            assert(after.listed(map)) by {
                reveal(Search::listed);
                assert forall|i: int| 0 <= i < new_f.len() implies {
                    let p = #[trigger] new_f[i];
                    map.contains(p) && after.is_seen(map, p) && !after.is_done(map, p)
                } by {
                    let j = if i == k {
                        last
                    } else {
                        i
                    };
                    assert(new_f[i] == old_f[j]);
                    if j < k {
                        assert(old_f[j] != old_f[k as int]);
                    } else {
                        assert(old_f[k as int] != old_f[j]);
                    }
                }
                assert forall|i: int, j: int| 0 <= i < j < new_f.len() implies #[trigger] new_f[i]
                    != #[trigger] new_f[j] by {
                    let oi = if i == k {
                        last
                    } else {
                        i
                    };
                    let oj = if j == k {
                        last
                    } else {
                        j
                    };
                    assert(new_f[i] == old_f[oi]);
                    assert(new_f[j] == old_f[oj]);
                    if oi < oj {
                        assert(old_f[oi] != old_f[oj]);
                    } else {
                        assert(old_f[oj] != old_f[oi]);
                    }
                }
                assert forall|p: Point| #[trigger]
                    map.contains(p) && after.is_seen(map, p) && !after.is_done(map, p)
                    implies new_f.contains(p) by {
                    assert(map.contains(p) && before.is_seen(map, p) && !before.is_done(map, p));
                    assert(old_f.contains(p));
                    let j = choose|j: int| 0 <= j < old_f.len() && old_f[j] == p;
                    if j == last {
                        assert(new_f[k as int] == p);
                    } else {
                        assert(new_f[j] == p);
                    }
                }
            }
        }
        u
    }

    /// Offers the neighbour `v` the step from the tile `u` that is being
    /// expanded, and keeps it if it is cheaper than what `v` had.
    fn relax(
        &mut self,
        map: &GameMap,
        u: Point,
        v: Point,
        Ghost(src): Ghost<Point>,
        Ghost(bound): Ghost<int>,
        Ghost(handled): Ghost<Set<Point>>,
    )
        requires
            old(self).inv(map, src, bound, Some(u), handled),
            old(self).tie(map, src, Some(u), Some(u), handled),
            map.contains(u),
            map.contains(v),
            adjacent(v, u),
            old(self).is_done(map, u),
            old(self).d(map, u) + 3 <= bound <= u128::MAX,
        ensures
            final(self).inv(map, src, bound, Some(u), handled.insert(v)),
            final(self).tie(map, src, Some(u), Some(u), handled.insert(v)),
            final(self).done@ == old(self).done@,
            final(self).d(map, u) == old(self).d(map, u),
    {
        let ghost before = *self;
        let from = slot_of(map, u);
        let at = slot_of(map, v);
        let ghost mut offer: int = 0;
        let ghost mut took: bool = false;
        if !self.done[at] {
            match map.tiles[v.1][v.0].step_cost() {
                None => {},
                Some(c) => {
                    let cost = self.dist[from] + c as u128;
                    if !self.seen[at] {
                        self.seen[at] = true;
                        self.dist[at] = cost;
                        self.prev[at] = u;
                        self.frontier.push(v);
                        proof {
                            took = true;
                            offer = cost as int;
                        }
                    } else if cost < self.dist[at] {
                        self.dist[at] = cost;
                        self.prev[at] = u;
                        proof {
                            took = true;
                            offer = cost as int;
                        }
                    }
                },
            }
        }
        proof {
            let after = *self;
            let old_f = before.frontier@;
            let new_f = after.frontier@;
            assert(after.done@ == before.done@);
            // What the step changed, tile by tile.
            assert forall|p: Point| map.contains(p) && p != v implies after.is_seen(map, p)
                == before.is_seen(map, p) && after.d(map, p) == before.d(map, p) && after.before(map, p)
                == before.before(map, p) by {
                lemma_slot_range(map, p);
                if slot(map, p) == slot(map, v) {
                    lemma_slot_injective(map, p, v);
                }
            }
            assert(!took ==> after.is_seen(map, v) == before.is_seen(map, v) && after.d(map, v)
                == before.d(map, v) && after.before(map, v) == before.before(map, v) && new_f == old_f);
            assert(took ==> {
                &&& !before.is_done(map, v)
                &&& enterable(map, v)
                &&& after.is_seen(map, v)
                &&& after.d(map, v) == offer
                &&& offer == before.d(map, u) + enter_cost(map, v)
                &&& after.before(map, v) == u
                &&& before.is_seen(map, v) ==> offer < before.d(map, v) && new_f == old_f
                &&& !before.is_seen(map, v) ==> new_f == old_f.push(v)
            });
            assert(v != u);
            Self::lemma_relax_tie(before, after, map, src, bound, u, v, handled, took);
            // Every done tile is at most as far as `u`.
            assert forall|a: Point| map.contains(a) && before.is_done(map, a) implies before.d(map, a)
                <= before.d(map, u) by {
                reveal(Search::ordered);
                reveal(Search::basics);
                assert(before.is_seen(map, u));
            }
            assert(after.basics(map, src, bound)) by {
                reveal(Search::basics);
                if v == src && took {
                    assert(false) by {
                        reveal(Search::ordered);
                        assert(before.is_done(map, u) && before.is_seen(map, v));
                    }
                }
                assert forall|p: Point| #[trigger]
                    map.contains(p) && after.is_seen(map, p) implies after.d(map, p) <= bound by {
                    if p != v || !took {
                        assert(map.contains(p) && before.is_seen(map, p));
                    }
                }
                assert forall|p: Point| #[trigger]
                    map.contains(p) && after.is_done(map, p) implies after.is_seen(map, p) by {
                    assert(map.contains(p) && before.is_done(map, p));
                }
            }
            assert(after.linked(map, src)) by {
                reveal(Search::linked);
                assert forall|p: Point| #[trigger]
                    map.contains(p) && after.is_seen(map, p) && p != src implies {
                    let q = after.before(map, p);
                    &&& map.contains(q)
                    &&& after.is_done(map, q)
                    &&& adjacent(p, q)
                    &&& enterable(map, p)
                    &&& after.d(map, p) == after.d(map, q) + enter_cost(map, p)
                } by {
                    if p != v || !took {
                        assert(map.contains(p) && before.is_seen(map, p) && p != src);
                        let q = before.before(map, p);
                        assert(before.is_done(map, q));
                        assert(q != v || !took);
                    }
                }
            }
            assert(after.settled(map, src)) by {
                assert forall|w: Seq<Point>| #[trigger]
                    is_walk(map, w) && w[0] == src && after.is_done(map, w.last()) implies walk_cost(
                    map,
                    w,
                ) >= after.d(map, w.last()) by {
                    lemma_walk_on_map(map, w);
                    before.lemma_settled(map, src, bound, Some(u), handled, w);
                }
                reveal(Search::settled);
            }
            assert(after.ordered(map, Some(u))) by {
                reveal(Search::ordered);
                assert forall|a: Point, b: Point|
                    map.contains(a) && map.contains(b) && #[trigger] after.is_done(map, a)
                        && #[trigger] after.is_seen(map, b) && (!after.is_done(map, b) || Some(u)
                        == Some(b)) implies after.d(map, a) <= after.d(map, b) by {
                    assert(before.is_done(map, a));
                    if b != v || !took {
                        assert(before.is_seen(map, b));
                    }
                }
            }
            assert(after.relaxed(map, Some(u), handled.insert(v))) by {
                reveal(Search::relaxed);
                assert forall|a: Point, b: Point|
                    map.contains(a) && after.is_done(map, a) && #[trigger] adjacent(b, a) && enterable(
                        map,
                        b,
                    ) && (Some(u) != Some(a) || handled.insert(v).contains(b)) implies after.is_seen(
                    map,
                    b,
                ) && after.d(map, b) <= after.d(map, a) + enter_cost(map, b) by {
                    assert(before.is_done(map, a));
                    if a == u && b == v {
                        if before.is_done(map, v) {
                            assert(before.is_seen(map, v)) by {
                                reveal(Search::basics);
                            }
                        }
                    } else {
                        assert(adjacent(b, a) && (Some(u) != Some(a) || handled.contains(b)));
                        assert(before.is_seen(map, b) && before.d(map, b) <= before.d(map, a)
                            + enter_cost(map, b));
                    }
                }
            }
            assert(after.listed(map)) by {
                reveal(Search::listed);
                assert forall|i: int| 0 <= i < new_f.len() implies {
                    let p = #[trigger] new_f[i];
                    map.contains(p) && after.is_seen(map, p) && !after.is_done(map, p)
                } by {
                    if i < old_f.len() {
                        assert(new_f[i] == old_f[i]);
                    }
                }
                assert forall|i: int, j: int| 0 <= i < j < new_f.len() implies #[trigger] new_f[i]
                    != #[trigger] new_f[j] by {
                    assert(new_f[i] == old_f[i]);
                    if j < old_f.len() {
                        assert(new_f[j] == old_f[j]);
                    }
                }
                assert forall|p: Point| #[trigger]
                    map.contains(p) && after.is_seen(map, p) && !after.is_done(map, p)
                    implies new_f.contains(p) by {
                    if before.is_seen(map, p) {
                        assert(map.contains(p) && before.is_seen(map, p) && !before.is_done(map, p));
                        assert(old_f.contains(p));
                        let j = choose|j: int| 0 <= j < old_f.len() && old_f[j] == p;
                        assert(new_f[j] == p);
                    } else {
                        assert(p == v);
                        assert(new_f[old_f.len() as int] == v);
                    }
                }
            }
        }
    }

    /// Offers every neighbour of the freshly settled tile `u` the step from it.
    fn expand(&mut self, map: &GameMap, u: Point, Ghost(src): Ghost<Point>, Ghost(bound): Ghost<int>)
        requires
            old(self).inv(map, src, bound, Some(u), Set::empty()),
            old(self).tie(map, src, Some(u), Some(u), Set::empty()),
            map.contains(u),
            old(self).is_done(map, u),
            old(self).d(map, u) + 3 <= bound <= u128::MAX,
        ensures
            final(self).inv(map, src, bound, None, Set::empty()),
            final(self).tie(map, src, Some(u), None, Set::empty()),
            final(self).done@ == old(self).done@,
    {
        let ghost mut handled: Set<Point> = Set::empty();
        let (x, y) = u;
        if x + 1 < map.width {
            self.relax(map, u, (x + 1, y), Ghost(src), Ghost(bound), Ghost(handled));
            proof {
                handled = handled.insert(((x + 1) as usize, y));
            }
        }
        if x > 0 {
            self.relax(map, u, (x - 1, y), Ghost(src), Ghost(bound), Ghost(handled));
            proof {
                handled = handled.insert(((x - 1) as usize, y));
            }
        }
        if y + 1 < map.height {
            self.relax(map, u, (x, y + 1), Ghost(src), Ghost(bound), Ghost(handled));
            proof {
                handled = handled.insert((x, (y + 1) as usize));
            }
        }
        if y > 0 {
            self.relax(map, u, (x, y - 1), Ghost(src), Ghost(bound), Ghost(handled));
            proof {
                handled = handled.insert((x, (y - 1) as usize));
            }
        }
        proof {
            assert(self.relaxed(map, None, Set::empty())) by {
                reveal(Search::relaxed);
                assert forall|a: Point, b: Point|
                    map.contains(a) && self.is_done(map, a) && #[trigger] adjacent(b, a) && enterable(
                        map,
                        b,
                    ) implies self.is_seen(map, b) && self.d(map, b) <= self.d(map, a) + enter_cost(
                    map,
                    b,
                ) by {
                    if a == u {
                        assert(handled.contains(b));
                    }
                }
            }
            assert(self.ordered(map, None)) by {
                reveal(Search::ordered);
            }
            assert(self.first(map, src, None, Set::empty())) by {
                reveal(Search::first);
                assert forall|p: Point, a: Point|
                    map.contains(p) && self.is_seen(map, p) && p != src && map.contains(a)
                        && self.is_done(map, a) && #[trigger] adjacent(p, a) && self.d(map, a)
                        + enter_cost(map, p) == self.d(map, p) implies slot(
                    map,
                    self.before(map, p),
                ) <= slot(map, a) by {
                    if a == u {
                        assert(handled.contains(p));
                    }
                }
            }
        }
    }

    /// A seen tile other than the start hangs on the tile before it.
    proof fn lemma_link(&self, map: &GameMap, src: Point, p: Point)
        requires
            self.linked(map, src),
            map.contains(p),
            self.is_seen(map, p),
            p != src,
        ensures
            map.contains(self.before(map, p)),
            self.is_done(map, self.before(map, p)),
            adjacent(p, self.before(map, p)),
            enterable(map, p),
            enter_cost(map, p) >= 1,
            self.d(map, p) == self.d(map, self.before(map, p)) + enter_cost(map, p),
    {
        reveal(Search::linked);
    }

    /// The cheapest walk that the search found from the start to the done
    /// tile `dst`, read back along the `prev` links.
    fn rebuild(
        &self,
        map: &GameMap,
        dst: Point,
        Ghost(src): Ghost<Point>,
        Ghost(bound): Ghost<int>,
    ) -> (path: Vec<Point>)
        requires
            self.shape(map, src),
            self.basics(map, src, bound),
            self.linked(map, src),
            map.contains(dst),
            self.is_done(map, dst),
        ensures
            connects(map, path@, src, dst),
            walk_cost(map, path@) == self.d(map, dst),
            forall|j: int|
                1 <= j < path@.len() ==> (#[trigger] path@[j]) != src && map.contains(path@[j])
                    && self.is_seen(map, path@[j]) && path@[j - 1] == self.before(map, path@[j]),
    {
        let back = self.trace(map, dst, Ghost(src), Ghost(bound));
        let mut path: Vec<Point> = Vec::new();
        let mut i: usize = back.len();
        while i > 0
            invariant
                self.linked(map, src),
                i <= back@.len(),
                back@.len() > 0,
                back@.last() == src,
                map.contains(src),
                self.d(map, src) == 0,
                forall|j: int|
                    0 <= j < back@.len() ==> map.contains(#[trigger] back@[j]) && self.is_seen(
                        map,
                        back@[j],
                    ),
                forall|j: int|
                    0 <= j < back@.len() - 1 ==> (#[trigger] back@[j]) != src && back@[j + 1]
                        == self.before(map, back@[j]),
                path@.len() == back@.len() - i,
                i < back@.len() ==> is_walk(map, path@) && path@[0] == src && path@.last()
                    == back@[i as int] && walk_cost(map, path@) == self.d(map, back@[i as int]),
                forall|j: int|
                    1 <= j < path@.len() ==> (#[trigger] path@[j]) != src && map.contains(path@[j])
                        && self.is_seen(map, path@[j]) && path@[j - 1] == self.before(
                        map,
                        path@[j],
                    ),
            decreases i,
        {
            i = i - 1;
            let p = back[i];
            let ghost old_path = path@;
            path.push(p);
            proof {
                if old_path.len() == 0 {
                    assert(p == src);
                    assert(path@ =~= seq![src]);
                    assert(is_walk(map, path@));
                } else {
                    assert(back@[i as int] != src && back@[i + 1] == self.before(map, back@[i as int]));
                    assert(map.contains(back@[i as int]) && self.is_seen(map, back@[i as int]));
                    self.lemma_link(map, src, p);
                    lemma_walk_step(map, old_path, p);
                }
                assert forall|j: int| 1 <= j < path@.len() implies (#[trigger] path@[j]) != src
                    && map.contains(path@[j]) && self.is_seen(map, path@[j]) && path@[j - 1]
                    == self.before(map, path@[j]) by {
                    assert(path@[j - 1] == old_path[j - 1]);
                    if j < old_path.len() {
                        assert(path@[j] == old_path[j]);
                    }
                }
            }
        }
        path
    }

    /// The part of the route up to its tile number `j` is a walk to that
    /// tile that costs the tile's distance, and the tile before it is done.
    proof fn lemma_prefix(&self, map: &GameMap, src: Point, bound: int, path: Seq<Point>, j: int)
        requires
            self.basics(map, src, bound),
            self.linked(map, src),
            is_walk(map, path),
            path[0] == src,
            forall|k: int|
                1 <= k < path.len() ==> (#[trigger] path[k]) != src && map.contains(path[k])
                    && self.is_seen(map, path[k]) && path[k - 1] == self.before(map, path[k]),
            0 <= j < path.len(),
        ensures
            connects(map, path.subrange(0, j + 1), src, path[j]),
            walk_cost(map, path.subrange(0, j + 1)) == self.d(map, path[j]),
            j >= 1 ==> self.is_done(map, path[j - 1]),
        decreases j,
    {
        let part = path.subrange(0, j + 1);
        assert(part[0] == path[0]);
        assert(part.last() == path[j]);
        assert forall|k: int| 1 <= k < part.len() implies adjacent(#[trigger] part[k], part[k - 1])
            && enterable(map, part[k]) by {
            assert(part[k] == path[k]);
            assert(part[k - 1] == path[k - 1]);
        }
        if j == 0 {
            assert(self.d(map, src) == 0) by {
                reveal(Search::basics);
            }
        } else {
            self.lemma_prefix(map, src, bound, path, j - 1);
            assert(part.drop_last() =~= path.subrange(0, j));
            assert(path[j] != src && map.contains(path[j]) && self.is_seen(map, path[j]));
            self.lemma_link(map, src, path[j]);
        }
    }

    /// The route that `rebuild` reads back is the first of the cheapest: at
    /// each of its tiles it comes from the first, in row-major order, of
    /// the neighbours through which cheapest walks can come.
    proof fn lemma_first_of_cheapest(
        &self,
        map: &GameMap,
        src: Point,
        dst: Point,
        bound: int,
        path: Seq<Point>,
        i: int,
        v: Seq<Point>,
    )
        requires
            self.inv(map, src, bound, Some(dst), Set::empty()),
            self.tie(map, src, Some(dst), Some(dst), Set::empty()),
            self.walled(map, src, dst),
            map.contains(dst),
            self.is_done(map, dst),
            connects(map, path, src, dst),
            forall|j: int|
                1 <= j < path.len() ==> (#[trigger] path[j]) != src && map.contains(path[j])
                    && self.is_seen(map, path[j]) && path[j - 1] == self.before(map, path[j]),
            1 <= i < path.len(),
            comes_through(map, v, src, path[i]),
        ensures
            row_major(map, path[i - 1]) <= row_major(map, v.last()),
    {
        let p = path[i];
        let q = path[i - 1];
        let other = v.last();
        let whole = path.subrange(0, i + 1);
        lemma_walk_on_map(map, v);
        lemma_walk_step(map, v, p);
        // The part of the route up to `p` is a walk to `p` that costs its distance.
        self.lemma_prefix(map, src, bound, path, i);
        assert(self.is_done(map, p)) by {
            if i < path.len() - 1 {
                self.lemma_prefix(map, src, bound, path, i + 1);
            } else {
                assert(path[i] == path.last());
            }
        }
        assert(map.contains(p));
        assert(connects(map, whole, src, p));
        assert(walk_cost(map, whole) == self.d(map, p));
        assert(walk_cost(map, v) + enter_cost(map, p) <= self.d(map, p));
        assert(enter_cost(map, p) >= 1);
        assert(self.d(map, p) <= self.d(map, dst)) by {
            reveal(Search::ordered);
            reveal(Search::basics);
            assert(self.is_done(map, p) && self.is_seen(map, dst));
        }
        assert(self.is_done(map, other)) by {
            reveal(Search::walled);
        }
        assert(walk_cost(map, v) >= self.d(map, other)) by {
            reveal(Search::settled);
        }
        assert(other != dst);
        assert(self.d(map, p) <= self.d(map, other) + enter_cost(map, p)) by {
            reveal(Search::relaxed);
            assert(adjacent(p, other));
        }
        assert(slot(map, q) <= slot(map, other)) by {
            reveal(Search::first);
            assert(adjacent(p, other));
        }
    }

    /// The tiles from `dst` back to the start along the `prev` links.
    fn trace(&self, map: &GameMap, dst: Point, Ghost(src): Ghost<Point>, Ghost(bound): Ghost<int>) -> (back: Vec<Point>)
        requires
            self.shape(map, src),
            self.basics(map, src, bound),
            self.linked(map, src),
            map.contains(dst),
            self.is_done(map, dst),
        ensures
            back@.len() > 0,
            back@[0] == dst,
            back@.last() == src,
            self.d(map, src) == 0,
            forall|i: int|
                0 <= i < back@.len() ==> map.contains(#[trigger] back@[i]) && self.is_seen(
                    map,
                    back@[i],
                ),
            forall|i: int|
                0 <= i < back@.len() - 1 ==> (#[trigger] back@[i]) != src && back@[i + 1]
                    == self.before(map, back@[i]),
    {
        proof {
            reveal(Search::basics);
        }
        let mut back: Vec<Point> = Vec::new();
        let mut at = dst;
        back.push(at);
        loop
            invariant_except_break
                self.shape(map, src),
                self.basics(map, src, bound),
                self.linked(map, src),
                map.contains(at),
                self.is_seen(map, at),
                back@.len() > 0,
                back@[0] == dst,
                back@.last() == at,
                forall|i: int|
                    0 <= i < back@.len() ==> map.contains(#[trigger] back@[i]) && self.is_seen(
                        map,
                        back@[i],
                    ),
                forall|i: int|
                    0 <= i < back@.len() - 1 ==> (#[trigger] back@[i]) != src && back@[i + 1]
                        == self.before(map, back@[i]),
            ensures
                back@.len() > 0,
                back@[0] == dst,
                back@.last() == src,
                self.d(map, src) == 0,
                forall|i: int|
                    0 <= i < back@.len() ==> map.contains(#[trigger] back@[i]) && self.is_seen(
                        map,
                        back@[i],
                    ),
                forall|i: int|
                    0 <= i < back@.len() - 1 ==> (#[trigger] back@[i]) != src && back@[i + 1]
                        == self.before(map, back@[i]),
            decreases self.d(map, at),
        {
            let s = slot_of(map, at);
            proof {
                assert(self.d(map, src) == 0) by {
                    reveal(Search::basics);
                }
                if at != src {
                    self.lemma_link(map, src, at);
                    let q = self.before(map, at);
                    assert(self.is_seen(map, q)) by {
                        reveal(Search::basics);
                    }
                    assert(self.d(map, q) >= 0);
                }
            }
            if self.dist[s] == 0 {
                break;
            }
            let ghost old_back = back@;
            at = self.prev[s];
            back.push(at);
            proof {
                assert forall|i: int| 0 <= i < back@.len() - 1 implies (#[trigger] back@[i]) != src
                    && back@[i + 1] == self.before(map, back@[i]) by {
                    if i < old_back.len() - 1 {
                        assert(back@[i] == old_back[i]);
                        assert(back@[i + 1] == old_back[i + 1]);
                    }
                }
            }
        }
        back
    }
}

/// A walk goes on by one step to an enterable neighbour of its last tile,
/// and costs that tile's entry more.
proof fn lemma_walk_step(map: &GameMap, w: Seq<Point>, p: Point)
    requires
        is_walk(map, w),
        adjacent(p, w.last()),
        enterable(map, p),
    ensures
        is_walk(map, w.push(p)),
        w.push(p)[0] == w[0],
        w.push(p).last() == p,
        walk_cost(map, w.push(p)) == walk_cost(map, w) + enter_cost(map, p),
{
    let next = w.push(p);
    assert(next.drop_last() =~= w);
    assert forall|j: int| 1 <= j < next.len() implies adjacent(#[trigger] next[j], next[j - 1])
        && enterable(map, next[j]) by {
        if j < w.len() {
            assert(next[j] == w[j]);
            assert(next[j - 1] == w[j - 1]);
        } else {
            assert(next[j - 1] == w.last());
        }
    }
}

/// Marking one more slot as done adds one to the count of done slots, which
/// never exceeds the number of slots.
proof fn lemma_count_settled(settled: Set<int>, at: int, n: int)
    requires
        settled.finite(),
        0 <= at < n,
        !settled.contains(at),
        forall|s: int| settled.contains(s) ==> 0 <= s < n,
    ensures
        settled.insert(at).finite(),
        settled.insert(at).len() == settled.len() + 1,
        settled.len() + 1 <= n,
{
    lemma_int_range(0, n);
    assert(settled.insert(at).subset_of(set_int_range(0, n)));
    lemma_len_subset(settled.insert(at), set_int_range(0, n));
}

/// Turns that a march of `cost` movement points takes.
pub fn travel_turns(cost: u128) -> (turns: u32)
    ensures
        turns == turns_for(cost as nat),
        turns >= 1,
{
    let whole = cost / (COST_PER_TURN as u128);
    let up = if cost % (COST_PER_TURN as u128) == 0 {
        whole
    } else {
        whole + 1
    };
    assert(up == (cost + COST_PER_TURN - 1) / (COST_PER_TURN as int));
    if up < 1 {
        1
    } else if up > 0xffff_ffff {
        0xffff_ffff
    } else {
        up as u32
    }
}

/// Finds a cheapest walk from `from` to `to`.
///
/// `None` exactly when no walk joins the two tiles: one of them is off the
/// map, or mountains bar every way. Otherwise the route is a walk from
/// `from` to `to`, its `cost` is what that walk costs, and no walk between
/// the two tiles costs less. Of the walks that cost as little it is the
/// one that reaches each of its tiles from the first neighbour, in
/// row-major order, through which a cheapest walk can come.
pub fn shortest_path(map: &GameMap, from: Point, to: Point) -> (r: Option<Route>)
    requires
        map.wf(),
    ensures
        match r {
            Some(route) => {
                &&& is_first_cheapest(map, route.path@, from, to)
                &&& route.cost == walk_cost(map, route.path@)
                &&& reachable(map, from, to)
            },
            None => !reachable(map, from, to),
        },
{
    if !(from.0 < map.width && from.1 < map.height && to.0 < map.width && to.1 < map.height) {
        proof {
            assert forall|w: Seq<Point>| !(#[trigger] connects(map, w, from, to)) by {
                if connects(map, w, from, to) {
                    lemma_walk_on_map(map, w);
                }
            }
        }
        return None;
    }
    let n = map.width * map.height;
    let mut search = Search::start(map, from);
    let mut rounds: usize = 0;
    let ghost mut settled: Set<int> = Set::empty();
    let ghost mut last: Option<Point> = None;
    assert(map.contains(to) && !search.is_done(map, to));
    while search.frontier.len() > 0
        invariant
            search.inv(map, from, 3 * rounds, None, Set::empty()),
            search.tie(map, from, last, None, Set::empty()),
            map.contains(to),
            !search.is_done(map, to),
            n == map.width * map.height,
            rounds <= n,
            settled.finite(),
            settled.len() == rounds,
            forall|s: int| settled.contains(s) <==> 0 <= s < n && search.done@[s],
        decreases n - rounds,
    {
        let u = search.settle(map, Ghost(from), Ghost(3 * rounds as int), Ghost(last));
        proof {
            last = Some(u);
        }
        proof {
            lemma_slot_range(map, u);
            lemma_slot_range(map, to);
            lemma_count_settled(settled, slot(map, u), n as int);
            settled = settled.insert(slot(map, u));
            if u != to && slot(map, u) == slot(map, to) {
                lemma_slot_injective(map, u, to);
            }
        }
        if u.0 == to.0 && u.1 == to.1 {
            let path = search.rebuild(map, to, Ghost(from), Ghost(3 * rounds + 3));
            let cost = search.dist[slot_of(map, to)];
            proof {
                assert forall|w: Seq<Point>| #[trigger] connects(map, w, from, to) implies cost
                    <= walk_cost(map, w) by {
                    search.lemma_settled(map, from, 3 * rounds + 3, Some(u), Set::empty(), w);
                }
                assert forall|i: int, v: Seq<Point>|
                    1 <= i < path@.len() && #[trigger] comes_through(map, v, from, path@[i])
                    implies row_major(map, path@[i - 1]) <= row_major(map, v.last()) by {
                    search.lemma_first_of_cheapest(map, from, to, 3 * rounds + 3, path@, i, v);
                }
            }
            return Some(Route { path, cost });
        }
        search.expand(map, u, Ghost(from), Ghost(3 * rounds + 3));
        rounds = rounds + 1;
    }
    proof {
        assert forall|w: Seq<Point>| !(#[trigger] connects(map, w, from, to)) by {
            if connects(map, w, from, to) {
                search.lemma_exhausted(map, from, 3 * rounds, w);
            }
        }
    }
    None
}

} // verus!
