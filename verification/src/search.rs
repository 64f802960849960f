//! Bounded best-first search (A*-style) over an elevation grid.
//!
//! The search works on a borrowed `Tiles<u8>` of elevations; admissibility of
//! a step between adjacent cells is decided by a pluggable [`TraversalRule`].
//! It keeps a parallel grid of best-known path lengths with back-pointers and
//! a priority queue ordered by path length plus Manhattan distance to the
//! goal; stale queue entries are discarded when popped, not when pushed.
//!
//! The contract of [`astar`] pins the result down: a returned length is
//! realized by an admitted path and no admitted path is shorter, and an
//! exhausted search means no admitted path of any length exists at all.
use vstd::prelude::*;

use crate::tiles::Point;
use crate::tiles::Tiles;

verus! {

use vstd::assert_multisets_equal;
use vstd::math::abs;
use vstd::seq_lib::to_multiset_remove;
use vstd::seq_lib::to_multiset_update;

/// An edge-admissibility rule: which elevation steps may be taken.
pub trait TraversalRule: Sized {
    /// What the rule allows.
    spec fn spec_allows(&self, from: u8, to: u8) -> bool;

    /// Whether a step from elevation `from` to elevation `to` is allowed.
    fn allows(&self, from: u8, to: u8) -> (r: bool)
        ensures
            r == self.spec_allows(from, to),
    ;
}

/// Climbing rule: the next elevation may be at most one above the current.
pub struct ClimbRule;

impl TraversalRule for ClimbRule {
    open spec fn spec_allows(&self, from: u8, to: u8) -> bool {
        to <= from + 1
    }

    fn allows(&self, from: u8, to: u8) -> (r: bool) {
        from == 255 || to <= from + 1
    }
}

/// The climbing rule seen from the far end: walking backwards along a climb,
/// the next elevation may be at most one below the current.
pub struct DescentRule;

impl TraversalRule for DescentRule {
    open spec fn spec_allows(&self, from: u8, to: u8) -> bool {
        to + 1 >= from
    }

    fn allows(&self, from: u8, to: u8) -> (r: bool) {
        to == 255 || to + 1 >= from
    }
}

/// The all-permissive rule: every adjacent step is allowed.
pub struct OpenRule;

impl TraversalRule for OpenRule {
    open spec fn spec_allows(&self, from: u8, to: u8) -> bool {
        true
    }

    fn allows(&self, from: u8, to: u8) -> (r: bool) {
        true
    }
}

/// Best known distance and predecessor of a visited cell.
#[derive(Debug, Clone, Copy, PartialEq, Eq, Structural)]
pub struct VisitInfo {
    pub path_len: u32,
    pub prev: Point,
}

/// A queue entry: a coordinate with its path length snapshot, ordered by
/// `priority` (path length plus heuristic).
#[derive(Clone, Copy)]
struct QueueEntry {
    priority: u64,
    pos: Point,
    info: VisitInfo,
}

/// Whether `b` is one cardinal step away from `a`.
pub open spec fn is_cardinal_neighbor(a: Point, b: Point) -> bool {
    ||| (b.x == a.x && b.y == a.y + 1)
    ||| (b.x == a.x + 1 && b.y == a.y)
    ||| (b.x == a.x && b.y == a.y - 1)
    ||| (b.x == a.x - 1 && b.y == a.y)
}

/// Whether the rule admits a single step from cell `a` to cell `b` of `g`.
pub open spec fn step_allowed<R: TraversalRule>(g: &Tiles<u8>, rule: &R, a: Point, b: Point) -> bool {
    &&& g.spec_contains(a)
    &&& g.spec_contains(b)
    &&& is_cardinal_neighbor(a, b)
    &&& rule.spec_allows(g.spec_at(a), g.spec_at(b))
}

/// A valid walk on `g` under `rule`: at least one cell, every cell inside the
/// grid, every consecutive pair an admitted cardinal step.
pub open spec fn is_path<R: TraversalRule>(g: &Tiles<u8>, rule: &R, path: Seq<Point>) -> bool {
    &&& path.len() >= 1
    &&& forall|i: int| 0 <= i < path.len() ==> g.spec_contains(#[trigger] path[i])
    &&& forall|i: int|
        0 <= i < path.len() - 1 ==> #[trigger] step_allowed(g, rule, path[i], path[i + 1])
}

/// Whether `end` can be reached from `start` in exactly `n` admitted steps.
pub open spec fn reachable_in<R: TraversalRule>(
    g: &Tiles<u8>,
    rule: &R,
    start: Point,
    end: Point,
    n: int,
) -> bool {
    exists|path: Seq<Point>|
        {
            &&& is_path(g, rule, path)
            &&& path.len() == n + 1
            &&& path[0] == start
            &&& path.last() == end
        }
}

/// The heuristic: Manhattan distance between two coordinates.
pub open spec fn spec_manhattan(a: Point, b: Point) -> int {
    abs(a.x - b.x) + abs(a.y - b.y) as int
}

/// Extending a reachable cell by one admitted step keeps it reachable, one
/// step longer.
pub proof fn lemma_reachable_step<R: TraversalRule>(
    g: &Tiles<u8>,
    rule: &R,
    start: Point,
    a: Point,
    b: Point,
    n: int,
)
    requires
        n >= 0,
        reachable_in(g, rule, start, a, n),
        step_allowed(g, rule, a, b),
    ensures
        reachable_in(g, rule, start, b, n + 1),
{
    let path = choose|path: Seq<Point>|
        {
            &&& is_path(g, rule, path)
            &&& path.len() == n + 1
            &&& path[0] == start
            &&& path.last() == a
        };
    let p2 = path.push(b);
    assert forall|i: int| 0 <= i < p2.len() implies g.spec_contains(#[trigger] p2[i]) by {
        if i < path.len() {
            assert(p2[i] == path[i]);
        }
    }
    assert forall|i: int|
        0 <= i < p2.len() - 1 implies #[trigger] step_allowed(g, rule, p2[i], p2[i + 1]) by {
        if i < path.len() - 1 {
            assert(p2[i] == path[i] && p2[i + 1] == path[i + 1]);
        } else {
            assert(p2[i] == path.last() && p2[i + 1] == b);
        }
    }
    assert(is_path(g, rule, p2) && p2.len() == n + 2 && p2[0] == start && p2.last() == b);
}

/// A cell reaches itself in zero steps.
pub proof fn lemma_reachable_self<R: TraversalRule>(g: &Tiles<u8>, rule: &R, p: Point)
    requires
        g.spec_contains(p),
    ensures
        reachable_in(g, rule, p, p, 0),
{
    let path = seq![p];
    assert(is_path(g, rule, path) && path.len() == 1 && path[0] == p && path.last() == p);
}

/// A walk shorn of its last cell is still a walk, from the same start.
proof fn lemma_path_prefix<R: TraversalRule>(g: &Tiles<u8>, rule: &R, path: Seq<Point>)
    requires
        is_path(g, rule, path),
        path.len() >= 2,
    ensures
        is_path(g, rule, path.drop_last()),
        path.drop_last()[0] == path[0],
        path.drop_last().last() == path[path.len() - 2],
{
    let p = path.drop_last();
    assert forall|i: int| 0 <= i < p.len() implies g.spec_contains(#[trigger] p[i]) by {
        assert(p[i] == path[i]);
    }
    assert forall|i: int|
        0 <= i < p.len() - 1 implies #[trigger] step_allowed(g, rule, p[i], p[i + 1]) by {
        assert(p[i] == path[i] && p[i + 1] == path[i + 1]);
    }
}

/// The heuristic is consistent: walking an admitted path moves the Manhattan
/// distance to any fixed target by at most one per step.
pub proof fn lemma_manhattan_along_path<R: TraversalRule>(
    g: &Tiles<u8>,
    rule: &R,
    path: Seq<Point>,
    target: Point,
)
    requires
        is_path(g, rule, path),
    ensures
        spec_manhattan(path[0], target) <= path.len() - 1 + spec_manhattan(path.last(), target),
    decreases path.len(),
{
    if path.len() >= 2 {
        lemma_path_prefix(g, rule, path);
        lemma_manhattan_along_path(g, rule, path.drop_last(), target);
        let y = path[path.len() - 2];
        let z = path.last();
        assert(z == path[path.len() - 2 + 1]);
        assert(step_allowed(g, rule, path[path.len() - 2], path[path.len() - 2 + 1]));
        assert(spec_manhattan(y, target) <= 1 + spec_manhattan(z, target));
    }
}

/// Any single cardinal step out of a coordinate lands on one of its four
/// listed neighbours, provided the coordinates stay off the type's edges.
proof fn lemma_cardinal_is_neighbor(p: Point, w: Point)
    requires
        is_cardinal_neighbor(p, w),
        -32767 <= p.x <= 32766,
        -32767 <= p.y <= 32766,
    ensures
        exists|k: int| 0 <= k < 4 && p.spec_neighbors()[k] == w,
{
    if w.x == p.x && w.y == p.y + 1 {
        assert(p.spec_neighbors()[0] == w);
    } else if w.x == p.x + 1 && w.y == p.y {
        assert(p.spec_neighbors()[1] == w);
    } else if w.x == p.x && w.y == p.y - 1 {
        assert(p.spec_neighbors()[2] == w);
    } else {
        assert(p.spec_neighbors()[3] == w);
    }
}

/// Everything a live queue entry promises: an in-grid coordinate whose
/// recorded length is realized by an admitted path from `start` and bounded
/// by the cell budget, ordered by length plus Manhattan distance to `end`.
spec fn entry_ok<R: TraversalRule>(
    g: &Tiles<u8>,
    rule: &R,
    start: Point,
    end: Point,
    cap: u32,
    e: QueueEntry,
) -> bool {
    &&& g.spec_contains(e.pos)
    &&& e.info.path_len <= cap
    &&& reachable_in(g, rule, start, e.pos, e.info.path_len as int)
    &&& e.priority == e.info.path_len + spec_manhattan(e.pos, end)
}

/// Whether the queue holds an entry for `w` recorded at `bound` steps or
/// fewer.
spec fn queue_has(q: Seq<QueueEntry>, w: Point, bound: int) -> bool {
    exists|k: int| 0 <= k < q.len() && (#[trigger] q[k]).pos == w && q[k].info.path_len <= bound
}

/// Every recorded visit is sound and minimal: its length is realized by an
/// admitted path from `start`, and no admitted path there is shorter.
spec fn visits_minimal<R: TraversalRule>(
    g: &Tiles<u8>,
    rule: &R,
    start: Point,
    vis: Tiles<Option<VisitInfo>>,
    cap: u32,
) -> bool {
    forall|p: Point|
        g.spec_contains(p) ==> match #[trigger] vis.spec_at(p) {
            Some(v) => {
                &&& v.path_len <= cap
                &&& reachable_in(g, rule, start, p, v.path_len as int)
                &&& forall|m: int|
                    0 <= m && #[trigger] reachable_in(g, rule, start, p, m) ==> v.path_len <= m
            },
            None => true,
        }
}

/// One visited cell has been expanded towards one target cell: the admitted
/// step leads to a cell visited at least as quickly, or to a queue entry —
/// unless the visit already used up the whole cell budget.
spec fn cell_expanded<R: TraversalRule>(
    g: &Tiles<u8>,
    rule: &R,
    vis: Tiles<Option<VisitInfo>>,
    q: Seq<QueueEntry>,
    cap: u32,
    p: Point,
    w: Point,
) -> bool {
    match vis.spec_at(p) {
        Some(v) => step_allowed(g, rule, p, w) ==> {
            ||| v.path_len >= cap
            ||| match vis.spec_at(w) {
                Some(u) => u.path_len <= v.path_len + 1,
                None => false,
            }
            ||| queue_has(q, w, v.path_len + 1)
        },
        None => true,
    }
}

/// Every visited cell has been expanded towards every cell.
spec fn visits_expanded<R: TraversalRule>(
    g: &Tiles<u8>,
    rule: &R,
    vis: Tiles<Option<VisitInfo>>,
    q: Seq<QueueEntry>,
    cap: u32,
) -> bool {
    forall|p: Point, w: Point|
        g.spec_contains(p) ==> #[trigger] cell_expanded(g, rule, vis, q, cap, p, w)
}

/// The start cell is visited or waits in the queue at length zero.
spec fn start_covered(
    vis: Tiles<Option<VisitInfo>>,
    q: Seq<QueueEntry>,
    start: Point,
) -> bool {
    vis.spec_at(start) is Some || queue_has(q, start, 0)
}

/// Any admitted walk from `start`, shorter than the cell budget, is
/// intercepted by the search state: its endpoint is already visited at least
/// as quickly, or some queue entry sits on a cell of the walk from which the
/// endpoint is still reachable in the walk's remaining steps.
proof fn lemma_path_intercepted<R: TraversalRule>(
    g: &Tiles<u8>,
    rule: &R,
    start: Point,
    cap: u32,
    vis: Tiles<Option<VisitInfo>>,
    q: Seq<QueueEntry>,
    path: Seq<Point>,
)
    requires
        is_path(g, rule, path),
        path[0] == start,
        path.len() - 1 < cap,
        visits_minimal(g, rule, start, vis, cap),
        visits_expanded(g, rule, vis, q, cap),
        start_covered(vis, q, start),
    ensures
        ({
            let z = path.last();
            let len = path.len() - 1;
            ||| match vis.spec_at(z) {
                Some(v) => v.path_len <= len,
                None => false,
            }
            ||| exists|k: int, s: int|
                0 <= k < q.len() && 0 <= s && q[k].info.path_len + s <= len
                    && #[trigger] reachable_in(g, rule, q[k].pos, z, s)
        }),
    decreases path.len(),
{
    let z = path.last();
    let len = path.len() - 1;
    if path.len() == 1 {
        assert(z == start);
        lemma_reachable_self(g, rule, start);
        match vis.spec_at(start) {
            Some(v) => {
                assert(v.path_len <= 0);
            },
            None => {
                assert(queue_has(q, start, 0));
                let k = choose|k: int|
                    0 <= k < q.len() && (#[trigger] q[k]).pos == start && q[k].info.path_len
                        <= 0;
                assert(reachable_in(g, rule, q[k].pos, z, 0));
                assert(q[k].info.path_len + 0 <= len);
            },
        }
    } else {
        lemma_path_prefix(g, rule, path);
        let pre = path.drop_last();
        let y = path[path.len() - 2];
        assert(z == path[path.len() - 2 + 1]);
        assert(step_allowed(g, rule, path[path.len() - 2], path[path.len() - 2 + 1]));
        lemma_path_intercepted(g, rule, start, cap, vis, q, pre);
        let y_done = match vis.spec_at(y) {
            Some(v) => v.path_len <= len - 1,
            None => false,
        };
        if y_done {
            match vis.spec_at(y) {
                Some(v) => {
                    assert(cell_expanded(g, rule, vis, q, cap, y, z));
                    if v.path_len >= cap {
                        assert(false);
                    } else if (match vis.spec_at(z) {
                        Some(u) => u.path_len <= v.path_len + 1,
                        None => false,
                    }) {
                    } else {
                        assert(queue_has(q, z, v.path_len + 1));
                        let k = choose|k: int|
                            0 <= k < q.len() && (#[trigger] q[k]).pos == z
                                && q[k].info.path_len <= v.path_len + 1;
                        lemma_reachable_self(g, rule, z);
                        assert(reachable_in(g, rule, q[k].pos, z, 0));
                        assert(q[k].info.path_len + 0 <= len);
                    }
                },
                None => {
                    assert(false);
                },
            }
        } else {
            let (k, s) = choose|k: int, s: int|
                0 <= k < q.len() && 0 <= s && q[k].info.path_len + s <= len - 1
                    && #[trigger] reachable_in(g, rule, q[k].pos, pre.last(), s);
            lemma_reachable_step(g, rule, q[k].pos, y, z, s);
            assert(reachable_in(g, rule, q[k].pos, z, s + 1));
            assert(q[k].info.path_len + (s + 1) <= len);
        }
    }
}

/// A sequence of more than `bound` values drawn from `[0, bound)` repeats
/// one of them.
proof fn lemma_pigeonhole_int_seq(ids: Seq<int>, bound: int)
    requires
        0 <= bound,
        forall|i: int| 0 <= i < ids.len() ==> 0 <= #[trigger] ids[i] < bound,
        ids.len() > bound,
    ensures
        exists|i: int, j: int| 0 <= i < j < ids.len() && ids[i] == ids[j],
{
    if !(exists|i: int, j: int| 0 <= i < j < ids.len() && ids[i] == ids[j]) {
        assert(ids.no_duplicates()) by {
            assert forall|i: int, j: int|
                0 <= i < ids.len() && 0 <= j < ids.len() && i != j implies ids[i] != ids[j] by {
                if ids[i] == ids[j] {
                    if i < j {
                        assert(0 <= i < j < ids.len() && ids[i] == ids[j]);
                    } else {
                        assert(0 <= j < i < ids.len() && ids[j] == ids[i]);
                    }
                }
            }
        }
        ids.unique_seq_to_set();
        assert(ids.to_set().subset_of(vstd::set_lib::set_int_range(0, bound))) by {
            assert forall|x: int|
                ids.to_set().contains(x) implies vstd::set_lib::set_int_range(
                0,
                bound,
            ).contains(x) by {
                let i = choose|i: int| 0 <= i < ids.len() && ids[i] == x;
            }
        }
        vstd::set_lib::lemma_int_range(0, bound);
        vstd::set_lib::lemma_len_subset(ids.to_set(), vstd::set_lib::set_int_range(0, bound));
        assert(false);
    }
}

/// A walk longer than the grid's whole buffer revisits a cell, so a strictly
/// shorter walk connects the same endpoints.
proof fn lemma_reachable_shorten<R: TraversalRule>(
    g: &Tiles<u8>,
    rule: &R,
    start: Point,
    end: Point,
    n: int,
)
    requires
        g.wf(),
        n >= g.entries@.len(),
        reachable_in(g, rule, start, end, n),
    ensures
        exists|m: int| 0 <= m < n && reachable_in(g, rule, start, end, m),
{
    let path = choose|path: Seq<Point>|
        {
            &&& is_path(g, rule, path)
            &&& path.len() == n + 1
            &&& path[0] == start
            &&& path.last() == end
        };
    let ids = Seq::new(path.len(), |i: int| g.spec_index_for(path[i]));
    assert forall|i: int| 0 <= i < ids.len() implies 0 <= #[trigger] ids[i] < g.entries@.len() by {
        g.lemma_index_in_bounds(path[i]);
    }
    lemma_pigeonhole_int_seq(ids, g.entries@.len() as int);
    let (i, j) = choose|i: int, j: int| 0 <= i < j < ids.len() && ids[i] == ids[j];
    crate::tiles::lemma_flat_index_injective(
        g.line_width as int,
        path[i].x as int,
        path[i].y as int,
        path[j].x as int,
        path[j].y as int,
    );
    assert(path[i] == path[j]);
    let spliced = path.subrange(0, i) + path.subrange(j, path.len() as int);
    let m = n - (j - i);
    assert(spliced.len() == m + 1);
    assert forall|k: int| 0 <= k < spliced.len() implies g.spec_contains(#[trigger] spliced[k]) by {
        if k < i {
            assert(spliced[k] == path[k]);
        } else {
            assert(spliced[k] == path[k + (j - i)]);
        }
    }
    assert forall|k: int|
        0 <= k < spliced.len() - 1 implies #[trigger] step_allowed(
        g,
        rule,
        spliced[k],
        spliced[k + 1],
    ) by {
        if k + 1 < i {
            assert(spliced[k] == path[k] && spliced[k + 1] == path[k + 1]);
            assert(step_allowed(g, rule, path[k], path[k + 1]));
        } else if k + 1 == i {
            assert(spliced[k] == path[k] && spliced[k + 1] == path[j]);
            assert(step_allowed(g, rule, path[k], path[k + 1]));
        } else {
            assert(spliced[k] == path[k + (j - i)] && spliced[k + 1] == path[k + (j - i) + 1]);
            assert(step_allowed(g, rule, path[k + (j - i)], path[k + (j - i) + 1]));
        }
    }
    if i == 0 {
        assert(spliced[0] == path[j]);
    } else {
        assert(spliced[0] == path[0]);
    }
    assert(spliced.last() == path.last());
    assert(is_path(g, rule, spliced) && spliced.len() == m + 1 && spliced[0] == start
        && spliced.last() == end);
    assert(reachable_in(g, rule, start, end, m));
}

/// Whenever the endpoints are connected at all, they are connected by a walk
/// shorter than the grid's whole buffer.
proof fn lemma_reachable_below_cells<R: TraversalRule>(
    g: &Tiles<u8>,
    rule: &R,
    start: Point,
    end: Point,
    n: int,
)
    requires
        g.wf(),
        0 <= n,
        reachable_in(g, rule, start, end, n),
    ensures
        exists|m: int| 0 <= m < g.entries@.len() && reachable_in(g, rule, start, end, m),
    decreases n,
{
    if n < g.entries@.len() {
        assert(0 <= n < g.entries@.len() && reachable_in(g, rule, start, end, n));
    } else {
        lemma_reachable_shorten(g, rule, start, end, n);
        let m = choose|m: int| 0 <= m < n && reachable_in(g, rule, start, end, m);
        lemma_reachable_below_cells(g, rule, start, end, m);
    }
}

/// Weight of a visited-grid cell for the termination measure: unvisited cells
/// weigh `cap + 1`, visited cells their recorded path length.
spec fn info_weight(o: Option<VisitInfo>, cap: int) -> int {
    match o {
        None => cap + 1,
        Some(v) => v.path_len as int,
    }
}

/// Total weight of a visited buffer: it shrinks whenever a cell's record
/// improves, which bounds the search.
spec fn potential(s: Seq<Option<VisitInfo>>, cap: int) -> int
    decreases s.len(),
{
    if s.len() == 0 {
        0
    } else {
        potential(s.drop_last(), cap) + info_weight(s.last(), cap)
    }
}

proof fn lemma_potential_nonneg(s: Seq<Option<VisitInfo>>, cap: int)
    requires
        cap >= 0,
    ensures
        potential(s, cap) >= 0,
    decreases s.len(),
{
    if s.len() > 0 {
        lemma_potential_nonneg(s.drop_last(), cap);
    }
}

proof fn lemma_potential_update(s: Seq<Option<VisitInfo>>, cap: int, k: int, v: Option<VisitInfo>)
    requires
        0 <= k < s.len(),
    ensures
        potential(s.update(k, v), cap) == potential(s, cap) - info_weight(s[k], cap)
            + info_weight(v, cap),
    decreases s.len(),
{
    let t = s.update(k, v);
    if k == s.len() - 1 {
        assert(t.drop_last() =~= s.drop_last());
    } else {
        assert(t.drop_last() =~= s.drop_last().update(k, v));
        lemma_potential_update(s.drop_last(), cap, k, v);
        assert(t.last() == s.last());
    }
}

/// Removes and returns an entry of minimum priority. The rest of the queue
/// is exactly the old queue with that one entry taken out.
fn pop_min(queue: &mut Vec<QueueEntry>) -> (e: QueueEntry)
    requires
        old(queue)@.len() >= 1,
    ensures
        final(queue)@.len() == old(queue)@.len() - 1,
        exists|k: int| 0 <= k < old(queue)@.len() && old(queue)@[k] == e,
        forall|k: int|
            0 <= k < old(queue)@.len() ==> e.priority <= (#[trigger] old(queue)@[k]).priority,
        old(queue)@.to_multiset() == final(queue)@.to_multiset().insert(e),
{
    let mut best: usize = 0;
    let mut k: usize = 1;
    while k < queue.len()
        invariant
            best < k <= queue@.len(),
            queue@ == old(queue)@,
            forall|k2: int|
                0 <= k2 < k ==> queue@[best as int].priority <= (#[trigger] queue@[k2]).priority,
        decreases queue@.len() - k,
    {
        if queue[k].priority < queue[best].priority {
            best = k;
        }
        k = k + 1;
    }
    let ghost s = queue@;
    let e = queue.swap_remove(best);
    proof {
        assert(s[best as int] == e);
        assert(s.contains(e)) by {
            assert(s[best as int] == e);
        }
        vstd::seq_lib::to_multiset_contains(s, e);
        if best == s.len() - 1 {
            assert(queue@ =~= s.remove(s.len() - 1));
            to_multiset_remove(s, s.len() - 1);
            assert_multisets_equal!(s.to_multiset(), queue@.to_multiset().insert(e));
        } else {
            let u = s.update(best as int, s.last());
            assert(queue@ =~= u.remove(u.len() - 1));
            to_multiset_update(s, best as int, s.last());
            to_multiset_remove(u, u.len() - 1);
            assert(u[u.len() - 1] == s.last());
            assert(s.contains(s.last())) by {
                assert(s[s.len() - 1] == s.last());
            }
            vstd::seq_lib::to_multiset_contains(s, s.last());
            assert_multisets_equal!(s.to_multiset(), queue@.to_multiset().insert(e));
        }
    }
    e
}

/// Path length plus Manhattan distance to the goal: an admissible ordering
/// key for the queue.
fn priority_for(pos: Point, end: Point, path_len: u32) -> (r: u64)
    ensures
        r == path_len + spec_manhattan(pos, end),
{
    let dx = pos.x as i64 - end.x as i64;
    let dy = pos.y as i64 - end.y as i64;
    let adx = if dx < 0 {
        -dx
    } else {
        dx
    };
    let ady = if dy < 0 {
        -dy
    } else {
        dy
    };
    (adx + ady) as u64 + path_len as u64
}

/// Shortest-path search from `start` to `end` over `elevation`, taking only
/// cardinal steps that `rule` admits.
///
/// The result is exact: a returned length is realized by an admitted path
/// and no admitted path is shorter; an exhausted search means no admitted
/// path of any length exists; and equal start and goal always answer zero.
#[verifier::loop_isolation(false)]
#[verifier::rlimit(100)]
pub fn astar<R: TraversalRule>(elevation: &Tiles<u8>, start: Point, end: Point, rule: &R) -> (r:
    Option<u32>)
    requires
        elevation.wf(),
        elevation.coord_bounded(),
        elevation.spec_contains(start),
        elevation.spec_contains(end),
        elevation.entries@.len() <= u32::MAX,
        (elevation.entry_len + 1) * elevation.spec_height() <= usize::MAX,
    ensures
        match r {
            Some(n) => {
                &&& reachable_in(elevation, rule, start, end, n as int)
                &&& forall|m: int| 0 <= m < n ==> !reachable_in(elevation, rule, start, end, m)
            },
            None => forall|n: int| 0 <= n ==> !reachable_in(elevation, rule, start, end, n),
        },
        start == end ==> r == Some(0u32),
{
    let w = elevation.width();
    let h = elevation.height();
    let cap: u32 = elevation.entries.len() as u32;
    let mut visited: Tiles<Option<VisitInfo>> = Tiles::new(w, h, None);
    proof {
        assert forall|p: Point| elevation.spec_contains(p) implies #[trigger] visited.spec_at(p)
            is None by {
            visited.lemma_index_in_bounds(p);
        }
    }

    let mut queue: Vec<QueueEntry> = Vec::new();
    let start_info = VisitInfo { path_len: 0, prev: start };
    queue.push(QueueEntry { priority: priority_for(start, end, 0), pos: start, info: start_info });
    proof {
        lemma_reachable_self(elevation, rule, start);
        assert(queue_has(queue@, start, 0)) by {
            assert(queue@[0].pos == start && queue@[0].info.path_len <= 0);
        }
        assert forall|p: Point, w2: Point|
            elevation.spec_contains(p) implies #[trigger] cell_expanded(
            elevation,
            rule,
            visited,
            queue@,
            cap,
            p,
            w2,
        ) by {}
    }

    while queue.len() > 0
        invariant
            visited.wf(),
            visited.entry_len == elevation.entry_len,
            visited.spec_height() == elevation.spec_height(),
            forall|k: int|
                0 <= k < queue@.len() ==> entry_ok(
                    elevation,
                    rule,
                    start,
                    end,
                    cap,
                    #[trigger] queue@[k],
                ),
            visits_minimal(elevation, rule, start, visited, cap),
            visits_expanded(elevation, rule, visited, queue@, cap),
            start_covered(visited, queue@, start),
            visited.spec_at(end) is None,
        decreases potential(visited.entries@, cap as int), queue@.len(),
    {
        proof {
            lemma_potential_nonneg(visited.entries@, cap as int);
        }
        let ghost q0 = queue@;
        let e = pop_min(&mut queue);
        let pos = e.pos;
        let visit = e.info;
        proof {
            assert(entry_ok(elevation, rule, start, end, cap, e)) by {
                let k = choose|k: int| 0 <= k < q0.len() && q0[k] == e;
                assert(entry_ok(elevation, rule, start, end, cap, q0[k]));
            }
            // An entry that leaves the queue leaves behind either its own
            // visit record or another queue entry no better placed, so the
            // expansion and start-coverage invariants survive the removal
            // whenever the popped cell's record ends up at most e's length.
            assert forall|x: QueueEntry| q0.contains(x) && x != e implies queue@.contains(x) by {
                vstd::seq_lib::to_multiset_contains(q0, x);
                vstd::seq_lib::to_multiset_contains(queue@, x);
            }
            assert forall|k2: int|
                0 <= k2 < queue@.len() implies entry_ok(
                elevation,
                rule,
                start,
                end,
                cap,
                #[trigger] queue@[k2],
            ) by {
                let x = queue@[k2];
                assert(queue@.contains(x)) by {
                    assert(queue@[k2] == x);
                }
                vstd::seq_lib::to_multiset_contains(queue@, x);
                vstd::seq_lib::to_multiset_contains(q0, x);
                assert(q0.contains(x));
                let k3 = choose|k3: int| 0 <= k3 < q0.len() && q0[k3] == x;
                assert(entry_ok(elevation, rule, start, end, cap, q0[k3]));
            }
        }

        if let Some(v) = *visited.at(pos) {
            if v.path_len <= visit.path_len {
                proof {
                    assert forall|p: Point, w2: Point|
                        elevation.spec_contains(p) implies #[trigger] cell_expanded(
                        elevation,
                        rule,
                        visited,
                        queue@,
                        cap,
                        p,
                        w2,
                    ) by {
                        assert(cell_expanded(elevation, rule, visited, q0, cap, p, w2));
                        if (match visited.spec_at(p) {
                            Some(vp) => step_allowed(elevation, rule, p, w2)
                                && vp.path_len < cap && !(match visited.spec_at(w2) {
                                Some(u) => u.path_len <= vp.path_len + 1,
                                None => false,
                            }),
                            None => false,
                        }) {
                            let vp = match visited.spec_at(p) {
                                Some(vp) => vp,
                                None => arbitrary(),
                            };
                            let k = choose|k: int|
                                0 <= k < q0.len() && (#[trigger] q0[k]).pos == w2
                                    && q0[k].info.path_len <= vp.path_len + 1;
                            if q0[k] == e {
                                assert(v.path_len <= e.info.path_len);
                                assert(e.info.path_len <= q0[k].info.path_len);
                            } else {
                                assert(q0.contains(q0[k]));
                                assert(queue@.contains(q0[k]));
                                let k2 = choose|k2: int|
                                    0 <= k2 < queue@.len() && queue@[k2] == q0[k];
                                assert(queue_has(queue@, w2, vp.path_len + 1));
                            }
                        }
                    }
                    assert(start_covered(visited, queue@, start)) by {
                        if visited.spec_at(start) is None {
                            let k = choose|k: int|
                                0 <= k < q0.len() && (#[trigger] q0[k]).pos == start
                                    && q0[k].info.path_len <= 0;
                            if q0[k] == e {
                                assert(false);
                            } else {
                                assert(q0.contains(q0[k]));
                                assert(queue@.contains(q0[k]));
                                let k2 = choose|k2: int|
                                    0 <= k2 < queue@.len() && queue@[k2] == q0[k];
                                assert(queue_has(queue@, start, 0));
                            }
                        }
                    }
                }
                continue ;
            }
        }
        // Record branch: the cell is unvisited or strictly improved. The
        // popped length is minimal: a shorter path would cross a queue entry
        // whose ordering key, by heuristic consistency, beats the minimum
        // just popped.
        proof {
            assert forall|m: int|
                0 <= m < visit.path_len as int implies !reachable_in(
                elevation,
                rule,
                start,
                pos,
                m,
            ) by {
                if reachable_in(elevation, rule, start, pos, m) {
                    let path = choose|path: Seq<Point>|
                        {
                            &&& is_path(elevation, rule, path)
                            &&& path.len() == m + 1
                            &&& path[0] == start
                            &&& path.last() == pos
                        };
                    lemma_path_intercepted(elevation, rule, start, cap, visited, q0, path);
                    if (match visited.spec_at(pos) {
                        Some(v2) => v2.path_len <= m,
                        None => false,
                    }) {
                        assert(false);
                    } else {
                        let (k, s) = choose|k: int, s: int|
                            0 <= k < q0.len() && 0 <= s && q0[k].info.path_len + s <= m
                                && #[trigger] reachable_in(elevation, rule, q0[k].pos, pos, s);
                        let spath = choose|sp: Seq<Point>|
                            {
                                &&& is_path(elevation, rule, sp)
                                &&& sp.len() == s + 1
                                &&& sp[0] == q0[k].pos
                                &&& sp.last() == pos
                            };
                        lemma_manhattan_along_path(elevation, rule, spath, end);
                        assert(entry_ok(elevation, rule, start, end, cap, q0[k]));
                        assert(q0[k].priority < e.priority);
                        assert(e.priority <= q0[k].priority);
                        assert(false);
                    }
                }
            }
        }
        let ghost vpre = visited;
        visited.set(pos, Some(visit));
        proof {
            vpre.lemma_index_in_bounds(pos);
            assert forall|p: Point|
                elevation.spec_contains(p) && p != pos implies #[trigger] visited.spec_at(p)
                == vpre.spec_at(p) by {
                vpre.lemma_index_in_bounds(p);
                if vpre.spec_index_for(p) == vpre.spec_index_for(pos) {
                    crate::tiles::lemma_flat_index_injective(
                        vpre.line_width as int,
                        p.x as int,
                        p.y as int,
                        pos.x as int,
                        pos.y as int,
                    );
                }
            }
            assert(visited.spec_at(pos) == Some(visit));
            lemma_potential_update(
                vpre.entries@,
                cap as int,
                vpre.spec_index_for(pos),
                Some(visit),
            );
            lemma_potential_nonneg(visited.entries@, cap as int);
            assert(potential(visited.entries@, cap as int) < potential(
                vpre.entries@,
                cap as int,
            ));
            assert(visits_minimal(elevation, rule, start, visited, cap)) by {
                assert forall|p: Point| elevation.spec_contains(p) implies match #[trigger] visited.spec_at(
                    p,
                ) {
                    Some(v2) => {
                        &&& v2.path_len <= cap
                        &&& reachable_in(elevation, rule, start, p, v2.path_len as int)
                        &&& forall|m: int|
                            0 <= m && #[trigger] reachable_in(elevation, rule, start, p, m)
                                ==> v2.path_len <= m
                    },
                    None => true,
                } by {
                    if p != pos {
                        assert(visited.spec_at(p) == vpre.spec_at(p));
                    }
                }
            }
        }

        if pos.x == end.x && pos.y == end.y {
            proof {
                if start == end {
                    lemma_reachable_self(elevation, rule, start);
                    assert(visit.path_len == 0);
                }
            }
            return Some(visit.path_len);
        }

        proof {
            assert forall|p: Point, w2: Point|
                elevation.spec_contains(p) && p != pos implies #[trigger] cell_expanded(
                elevation,
                rule,
                visited,
                queue@,
                cap,
                p,
                w2,
            ) by {
                assert(cell_expanded(elevation, rule, vpre, q0, cap, p, w2));
                assert(visited.spec_at(p) == vpre.spec_at(p));
                match vpre.spec_at(p) {
                    Some(vp) => {
                        if step_allowed(elevation, rule, p, w2) && vp.path_len < cap {
                            let old_better = match vpre.spec_at(w2) {
                                Some(u) => u.path_len <= vp.path_len + 1,
                                None => false,
                            };
                            if old_better {
                                if w2 == pos {
                                    assert(match visited.spec_at(w2) {
                                        Some(u2) => u2.path_len <= vp.path_len + 1,
                                        None => false,
                                    });
                                } else {
                                    assert(visited.spec_at(w2) == vpre.spec_at(w2));
                                }
                            } else {
                                let k = choose|k: int|
                                    0 <= k < q0.len() && (#[trigger] q0[k]).pos == w2
                                        && q0[k].info.path_len <= vp.path_len + 1;
                                if q0[k] == e {
                                    assert(w2 == pos);
                                    assert(match visited.spec_at(w2) {
                                        Some(u2) => u2.path_len <= vp.path_len + 1,
                                        None => false,
                                    });
                                } else {
                                    assert(q0.contains(q0[k]));
                                    assert(queue@.contains(q0[k]));
                                    let k2 = choose|k2: int|
                                        0 <= k2 < queue@.len() && queue@[k2] == q0[k];
                                    assert(queue_has(queue@, w2, vp.path_len + 1));
                                }
                            }
                        }
                    },
                    None => {},
                }
            }
            assert(start_covered(visited, queue@, start)) by {
                if vpre.spec_at(start) is Some {
                    if start != pos {
                        assert(visited.spec_at(start) == vpre.spec_at(start));
                    }
                } else {
                    let k = choose|k: int|
                        0 <= k < q0.len() && (#[trigger] q0[k]).pos == start
                            && q0[k].info.path_len <= 0;
                    if q0[k] == e {
                        assert(pos == start);
                    } else {
                        assert(q0.contains(q0[k]));
                        assert(queue@.contains(q0[k]));
                        let k2 = choose|k2: int| 0 <= k2 < queue@.len() && queue@[k2] == q0[k];
                        assert(queue_has(queue@, start, 0));
                    }
                }
            }
        }
        let nbs = pos.neighbors();
        let mut k: usize = 0;
        while k < nbs.len()
            invariant
                nbs@ == pos.spec_neighbors(),
                k <= nbs@.len(),
                visited.spec_at(pos) == Some(visit),
                forall|k2: int|
                    0 <= k2 < queue@.len() ==> entry_ok(
                        elevation,
                        rule,
                        start,
                        end,
                        cap,
                        #[trigger] queue@[k2],
                    ),
                forall|p: Point, w2: Point|
                    elevation.spec_contains(p) && p != pos ==> #[trigger] cell_expanded(
                        elevation,
                        rule,
                        visited,
                        queue@,
                        cap,
                        p,
                        w2,
                    ),
                forall|k2: int|
                    0 <= k2 < k ==> #[trigger] cell_expanded(
                        elevation,
                        rule,
                        visited,
                        queue@,
                        cap,
                        pos,
                        nbs@[k2],
                    ),
                start_covered(visited, queue@, start),
            decreases nbs@.len() - k,
        {
            let ghost qk = queue@;
            let neighbor = nbs[k];
            if elevation.contains(neighbor) {
                let cur = *elevation.at(pos);
                let nxt = *elevation.at(neighbor);
                if rule.allows(cur, nxt) && visit.path_len < cap {
                    let better = match *visited.at(neighbor) {
                        Some(v2) => v2.path_len > visit.path_len + 1,
                        None => true,
                    };
                    if better {
                        proof {
                            assert(is_cardinal_neighbor(pos, neighbor));
                            assert(step_allowed(elevation, rule, pos, neighbor));
                            lemma_reachable_step(
                                elevation,
                                rule,
                                start,
                                pos,
                                neighbor,
                                visit.path_len as int,
                            );
                        }
                        let new_len = visit.path_len + 1;
                        queue.push(
                            QueueEntry {
                                priority: priority_for(neighbor, end, new_len),
                                pos: neighbor,
                                info: VisitInfo { path_len: new_len, prev: pos },
                            },
                        );
                    }
                }
            }
            proof {
                assert forall|p: Point, w2: Point|
                    elevation.spec_contains(p) && p != pos implies #[trigger] cell_expanded(
                    elevation,
                    rule,
                    visited,
                    queue@,
                    cap,
                    p,
                    w2,
                ) by {
                    assert(cell_expanded(elevation, rule, visited, qk, cap, p, w2));
                    assert forall|wq: Point, b: int|
                        queue_has(qk, wq, b) implies queue_has(queue@, wq, b) by {
                        let k3 = choose|k3: int|
                            0 <= k3 < qk.len() && (#[trigger] qk[k3]).pos == wq
                                && qk[k3].info.path_len <= b;
                        assert(queue@[k3] == qk[k3]);
                    }
                }
                assert forall|k2: int|
                    0 <= k2 < k + 1 implies #[trigger] cell_expanded(
                    elevation,
                    rule,
                    visited,
                    queue@,
                    cap,
                    pos,
                    nbs@[k2],
                ) by {
                    if k2 < k {
                        assert(cell_expanded(elevation, rule, visited, qk, cap, pos, nbs@[k2]));
                        assert forall|wq: Point, b: int|
                            queue_has(qk, wq, b) implies queue_has(queue@, wq, b) by {
                            let k3 = choose|k3: int|
                                0 <= k3 < qk.len() && (#[trigger] qk[k3]).pos == wq
                                    && qk[k3].info.path_len <= b;
                            assert(queue@[k3] == qk[k3]);
                        }
                    } else {
                        if step_allowed(elevation, rule, pos, nbs@[k2]) && visit.path_len < cap
                            && !(match visited.spec_at(nbs@[k2]) {
                            Some(u) => u.path_len <= visit.path_len + 1,
                            None => false,
                        }) {
                            assert(queue@[queue@.len() - 1].pos == nbs@[k2]);
                            assert(queue_has(queue@, nbs@[k2], visit.path_len + 1));
                        }
                    }
                }
                assert(start_covered(visited, queue@, start)) by {
                    if visited.spec_at(start) is None {
                        let k3 = choose|k3: int|
                            0 <= k3 < qk.len() && (#[trigger] qk[k3]).pos == start
                                && qk[k3].info.path_len <= 0;
                        assert(queue@[k3] == qk[k3]);
                        assert(queue_has(queue@, start, 0));
                    }
                }
            }
            k = k + 1;
        }
        proof {
            assert forall|p: Point, w2: Point|
                elevation.spec_contains(p) implies #[trigger] cell_expanded(
                elevation,
                rule,
                visited,
                queue@,
                cap,
                p,
                w2,
            ) by {
                if p == pos && step_allowed(elevation, rule, p, w2) {
                    lemma_cardinal_is_neighbor(pos, w2);
                    let k2 = choose|k2: int| 0 <= k2 < 4 && pos.spec_neighbors()[k2] == w2;
                    assert(cell_expanded(elevation, rule, visited, queue@, cap, pos, nbs@[k2]));
                }
            }
        }
    }
    proof {
        assert forall|n: int|
            0 <= n < elevation.entries@.len() implies !reachable_in(
            elevation,
            rule,
            start,
            end,
            n,
        ) by {
            if reachable_in(elevation, rule, start, end, n) {
                let path = choose|path: Seq<Point>|
                    {
                        &&& is_path(elevation, rule, path)
                        &&& path.len() == n + 1
                        &&& path[0] == start
                        &&& path.last() == end
                    };
                lemma_path_intercepted(elevation, rule, start, cap, visited, queue@, path);
                assert(false);
            }
        }
        assert forall|n: int|
            0 <= n implies !reachable_in(elevation, rule, start, end, n) by {
            if reachable_in(elevation, rule, start, end, n) {
                lemma_reachable_below_cells(elevation, rule, start, end, n);
                let m = choose|m: int|
                    0 <= m < elevation.entries@.len() && reachable_in(
                        elevation,
                        rule,
                        start,
                        end,
                        m,
                    );
                assert(false);
            }
        }
        if start == end {
            lemma_reachable_self(elevation, rule, start);
            vstd::arithmetic::div_mod::lemma_fundamental_div_mod(
                elevation.entries@.len() as int,
                elevation.line_width as int,
            );
            assert(elevation.entries@.len() >= 1) by (nonlinear_arith)
                requires
                    elevation.entries@.len() == elevation.line_width * elevation.spec_height(),
                    elevation.line_width >= 1,
                    elevation.spec_height() >= 1,
            ;
            assert(false);
        }
    }
    None
}

} // verus!
