//! Orders in which the vertices of a mesh are visited when its attribute
//! values are decoded, each with the corner from which it is reached.
//!
//! A traversal walks the faces of each connected part of the corner table
//! from the first face not walked yet; each vertex is listed when it is
//! first reached, and the vertices that no walk reaches follow at the end.
use crate::corner_table::{count_false, lemma_count_false_mark, next_corner, previous_corner, CornerTable};
use crate::geometry_indices::{CornerIndex, FaceIndex, PointIndex, VertexIndex, INVALID_INDEX};
use vstd::prelude::*;

verus! {

/// The corner table can be walked: its corners fill whole faces, its
/// opposite corners are corners of it or invalid, each corner maps to one
/// of its vertices or to the invalid vertex, and each vertex records one of
/// its corners or the invalid corner.
pub open spec fn walkable(t: &CornerTable) -> bool {
    let n = t.corner_to_vertex_map@.len();
    let nv = t.vertex_corners@.len();
    &&& n % 3 == 0
    &&& n < 0x8000_0000
    &&& nv <= INVALID_INDEX
    &&& t.opposite_corners@.len() == n
    &&& t.opposites_in_range()
    &&& forall|c: int|
        0 <= c < n ==> (#[trigger] t.corner_to_vertex_map@[c]).0 == INVALID_INDEX
            || t.corner_to_vertex_map@[c].0 < nv
    &&& forall|v: int| 0 <= v < nv ==> (#[trigger] t.vertex_corners@[v]).0 == INVALID_INDEX || t.vertex_corners@[v].0 < n
}

/// Corner `c` is a corner of vertex `v`, or the corner that the table
/// records for `v`.
pub open spec fn reaches_vertex(t: &CornerTable, c: u32, v: u32) -> bool {
    (c < t.corner_to_vertex_map@.len() && t.corner_to_vertex_map@[c as int].0 == v) || c == t.vertex_corners@[v as int].0
}

/// `point_ids` lists distinct vertices of `t`, and `corners` gives for each
/// the corner from which it was reached.
pub open spec fn lists_vertices(t: &CornerTable, point_ids: Seq<PointIndex>, corners: Seq<u32>) -> bool {
    &&& corners.len() == point_ids.len()
    &&& forall|i: int| 0 <= i < point_ids.len() ==> (#[trigger] point_ids[i]).0 < t.vertex_corners@.len()
    &&& forall|i: int, j: int| 0 <= i < j < point_ids.len() ==> point_ids[i] != point_ids[j]
    &&& forall|i: int| 0 <= i < point_ids.len() ==> reaches_vertex(t, #[trigger] corners[i], point_ids[i].0)
}

/// Vertex `v` is in `point_ids`.
pub open spec fn listed(point_ids: Seq<PointIndex>, v: int) -> bool {
    exists|i: int| 0 <= i < point_ids.len() && #[trigger] point_ids[i].0 == v
}

/// `point_ids` lists every vertex of `t` exactly once, and `corners` gives
/// for each the corner from which it was reached.
pub open spec fn orders_all_vertices(t: &CornerTable, point_ids: Seq<PointIndex>, corners: Seq<u32>) -> bool {
    &&& lists_vertices(t, point_ids, corners)
    &&& point_ids.len() == t.vertex_corners@.len()
    &&& forall|v: int| 0 <= v < t.vertex_corners@.len() ==> #[trigger] listed(point_ids, v)
}

/// The vertices marked in `visited` are exactly those listed so far.
spec fn visit_state(t: &CornerTable, visited: Seq<bool>, point_ids: Seq<PointIndex>, corners: Seq<u32>) -> bool {
    &&& visited.len() == t.vertex_corners@.len()
    &&& lists_vertices(t, point_ids, corners)
    &&& forall|i: int| 0 <= i < point_ids.len() ==> visited[(#[trigger] point_ids[i]).0 as int]
    &&& forall|v: int| 0 <= v < visited.len() && #[trigger] visited[v] ==> listed(point_ids, v)
    &&& point_ids.len() + count_false(visited) == visited.len()
}

/// `after` begins with the entries of `before`.
pub open spec fn keeps_prefix<T>(before: Seq<T>, after: Seq<T>) -> bool {
    before.len() <= after.len() && forall|i: int| 0 <= i < before.len() ==> #[trigger] after[i] == before[i]
}

/// `after` marks at least what `before` marks.
pub open spec fn keeps_marks(before: Seq<bool>, after: Seq<bool>) -> bool {
    before.len() == after.len() && forall|i: int| 0 <= i < before.len() && #[trigger] before[i] ==> after[i]
}

/// The vertex of corner `c` is invalid or marked in `visited`.
pub open spec fn corner_vertex_visited(t: &CornerTable, visited: Seq<bool>, c: u32) -> bool {
    t.corner_to_vertex_map@[c as int].0 != INVALID_INDEX ==> visited[t.corner_to_vertex_map@[c as int].0 as int]
}

/// The three vertices of the face of corner `c` are invalid or marked in
/// `visited`.
pub open spec fn face_vertices_visited(t: &CornerTable, visited: Seq<bool>, c: u32) -> bool {
    &&& corner_vertex_visited(t, visited, c)
    &&& corner_vertex_visited(t, visited, next_corner(c))
    &&& corner_vertex_visited(t, visited, previous_corner(c))
}

proof fn lemma_count_false_all(s: Seq<bool>)
    requires
        forall|i: int| 0 <= i < s.len() ==> !s[i],
    ensures
        count_false(s) == s.len(),
    decreases s.len(),
{
    if s.len() > 0 {
        lemma_count_false_all(s.drop_last());
    }
}

proof fn lemma_count_false_bound(s: Seq<bool>)
    ensures
        count_false(s) <= s.len(),
    decreases s.len(),
{
    if s.len() > 0 {
        lemma_count_false_bound(s.drop_last());
    }
}

/// `n` entries, all `false`.
fn falses(n: usize) -> (r: Vec<bool>)
    ensures
        r@.len() == n,
        forall|i: int| 0 <= i < n ==> !r@[i],
        count_false(r@) == n,
{
    let mut r: Vec<bool> = Vec::new();
    let mut i: usize = 0;
    while i < n
        invariant
            i <= n,
            r@.len() == i,
            forall|j: int| 0 <= j < i ==> !r@[j],
        decreases n - i,
    {
        r.push(false);
        i = i + 1;
    }
    proof {
        lemma_count_false_all(r@);
    }
    r
}

/// Listing vertex `v`, reached from corner `c`: the listed vertices, their
/// corners and the marks, with `v` added unless it is invalid, past the
/// marks or marked already.
pub open spec fn visited_with(
    ids: Seq<PointIndex>,
    cs: Seq<u32>,
    vv: Seq<bool>,
    v: u32,
    c: u32,
) -> (Seq<PointIndex>, Seq<u32>, Seq<bool>) {
    if v != INVALID_INDEX && v < vv.len() && !vv[v as int] {
        (ids.push(PointIndex(v)), cs.push(c), vv.update(v as int, true))
    } else {
        (ids, cs, vv)
    }
}

/// A state of the depth-first walk: the vertices listed, their corners, the
/// vertex marks, the face marks, the corners waiting on the stack, and the
/// corner being walked around a fan (none between fans).
pub type DfsState = (Seq<PointIndex>, Seq<u32>, Seq<bool>, Seq<bool>, Seq<CornerIndex>, Option<u32>);

/// The walk has nothing left: no corner waits and none is being walked.
pub open spec fn dfs_done(s: DfsState) -> bool {
    s.4.len() == 0 && s.5 is None
}

/// One step of the depth-first walk. Between fans, the top corner of the
/// stack is dropped if its face was walked, else walked. Walking corner `c`
/// marks its face; if its vertex is invalid the fan ends; a vertex met for
/// the first time is listed, and unless it lies on a boundary the walk
/// turns right around it (the fan ends when there is no right corner).
/// Otherwise the walk goes on to the one neighbouring face not walked yet,
/// ends the fan (dropping the corner) when both were walked, or, when
/// neither was, puts the left corner in place of the top and the right
/// corner above it.
pub open spec fn dfs_step(t: &CornerTable, s: DfsState) -> DfsState {
    let (ids, cs, vv, vf, st, cur) = s;
    match cur {
        None => if st.len() == 0 {
            s
        } else if vf[(st.last().0 / 3) as int] {
            (ids, cs, vv, vf, st.drop_last(), None)
        } else {
            (ids, cs, vv, vf, st, Some(st.last().0))
        },
        Some(c) => {
            let vf1 = vf.update((c / 3) as int, true);
            let v = t.vertex_spec(c);
            if v == INVALID_INDEX {
                (ids, cs, vv, vf1, st, None)
            } else {
                let (ids2, cs2, vv2) = visited_with(ids, cs, vv, v, c);
                let rc = t.opposite_spec(next_corner(c));
                let lc = t.opposite_spec(previous_corner(c));
                if !vv[v as int] && !vertex_on_boundary(t, v) {
                    if rc == INVALID_INDEX {
                        (ids2, cs2, vv2, vf1, st, None)
                    } else {
                        (ids2, cs2, vv2, vf1, st, Some(rc))
                    }
                } else {
                    let rvis = rc == INVALID_INDEX || vf1[(rc / 3) as int];
                    let lvis = lc == INVALID_INDEX || vf1[(lc / 3) as int];
                    if rvis {
                        if lvis {
                            (ids2, cs2, vv2, vf1, st.drop_last(), None)
                        } else {
                            (ids2, cs2, vv2, vf1, st, Some(lc))
                        }
                    } else if lvis {
                        (ids2, cs2, vv2, vf1, st, Some(rc))
                    } else {
                        (ids2, cs2, vv2, vf1, st.update(st.len() - 1, CornerIndex(lc)).push(CornerIndex(rc)), None)
                    }
                }
            }
        },
    }
}

/// The walk is depth first: a step only touches the top of the stack of
/// waiting corners (dropping it, replacing it, or replacing it and pushing
/// one more), so the corners below the top wait unchanged.
pub proof fn lemma_dfs_step_keeps_stack_below_top(t: &CornerTable, s: DfsState)
    requires
        s.5 is Some ==> s.4.len() > 0,
    ensures
        ({
            let st = s.4;
            let st1 = dfs_step(t, s).4;
            &&& st.len() - 1 <= st1.len() <= st.len() + 1
            &&& forall|i: int| 0 <= i < st.len() - 1 ==> #[trigger] st1[i] == st[i]
        }),
{
}

/// When the corner being walked reaches a vertex listed before (or one on a
/// boundary) and both faces beside it, across the edges at the corners
/// after and before it, are still to be walked, the walk turns right: the
/// fan ends, the next corner walked is the right corner (the one opposite
/// the corner after it), and the left corner (the one opposite the corner
/// before it) waits just below the right one on the stack, in place of the
/// corner that began the fan, so it is walked only after the right branch.
pub proof fn lemma_dfs_right_branch_first(t: &CornerTable, s: DfsState)
    requires
        s.5 is Some,
        s.4.len() > 0,
        ({
            let c = s.5.unwrap();
            let v = t.vertex_spec(c);
            let rc = t.opposite_spec(next_corner(c));
            let lc = t.opposite_spec(previous_corner(c));
            &&& v != INVALID_INDEX
            &&& s.2[v as int] || vertex_on_boundary(t, v)
            &&& rc != INVALID_INDEX
            &&& lc != INVALID_INDEX
            &&& rc / 3 != c / 3
            &&& lc / 3 != c / 3
            &&& c / 3 < s.3.len()
            &&& rc / 3 < s.3.len()
            &&& lc / 3 < s.3.len()
            &&& !s.3[(rc / 3) as int]
            &&& !s.3[(lc / 3) as int]
        }),
    ensures
        ({
            let c = s.5.unwrap();
            let rc = t.opposite_spec(next_corner(c));
            let lc = t.opposite_spec(previous_corner(c));
            let s1 = dfs_step(t, s);
            let s2 = dfs_step(t, s1);
            &&& s1.5 is None
            &&& s2.5 == Some(rc)
            &&& s2.4.len() == s.4.len() + 1
            &&& s2.4[s.4.len() - 1] == CornerIndex(lc)
            &&& s2.4.last() == CornerIndex(rc)
            &&& forall|i: int| 0 <= i < s.4.len() - 1 ==> #[trigger] s2.4[i] == s.4[i]
            &&& s2.3[(c / 3) as int]
        }),
{
    let c = s.5.unwrap();
    let rc = t.opposite_spec(next_corner(c));
    let s1 = dfs_step(t, s);
    assert(s1.4.last() == CornerIndex(rc));
    assert(!s1.3[(rc / 3) as int]);
}

/// Walking a corner whose vertex is met for the first time lists that
/// vertex with the corner, and unless it lies on a boundary the walk turns
/// right around it: the next corner walked is the right corner (the one
/// opposite the corner after it), and the fan ends when there is none. A
/// vertex met before, or one on a boundary, leads the walk into the one
/// neighbouring face left to walk when only one is left.
pub proof fn lemma_dfs_next_corner(t: &CornerTable, s: DfsState)
    requires
        s.5 is Some,
        ({
            let c = s.5.unwrap();
            let v = t.vertex_spec(c);
            &&& v != INVALID_INDEX
            &&& v < s.2.len()
            &&& c / 3 < s.3.len()
        }),
    ensures
        ({
            let c = s.5.unwrap();
            let v = t.vertex_spec(c);
            let rc = t.opposite_spec(next_corner(c));
            let lc = t.opposite_spec(previous_corner(c));
            let s1 = dfs_step(t, s);
            let walked = |x: u32| x == INVALID_INDEX || x / 3 == c / 3 || s.3[(x / 3) as int];
            &&& s1.3[(c / 3) as int]
            &&& !s.2[v as int] ==> {
                &&& s1.0 == s.0.push(PointIndex(v))
                &&& s1.1 == s.1.push(c)
                &&& s1.2[v as int]
            }
            &&& !s.2[v as int] && !vertex_on_boundary(t, v) ==> {
                &&& s1.5 == if rc == INVALID_INDEX { None::<u32> } else { Some(rc) }
                &&& s1.4 == s.4
            }
            &&& (s.2[v as int] || vertex_on_boundary(t, v)) && rc / 3 < s.3.len() && lc / 3 < s.3.len() ==> {
                &&& walked(rc) && !walked(lc) ==> s1.5 == Some(lc) && s1.4 == s.4
                &&& !walked(rc) && walked(lc) ==> s1.5 == Some(rc) && s1.4 == s.4
            }
        }),
{
}

/// The state after `fuel` steps of the walk from `s` (or fewer, if it is
/// done before).
pub open spec fn dfs_run(t: &CornerTable, s: DfsState, fuel: nat) -> DfsState
    decreases fuel,
{
    if fuel == 0 || dfs_done(s) {
        s
    } else {
        dfs_run(t, dfs_step(t, s), (fuel - 1) as nat)
    }
}

/// Where the walk from `s` ends.
pub open spec fn dfs_walk(t: &CornerTable, s: DfsState) -> DfsState {
    dfs_run(t, s, choose|k: nat| dfs_done(#[trigger] dfs_run(t, s, k)))
}

/// The state a walk from corner `start` begins in: nothing to do if its
/// face was walked; else the two other vertices of the face are listed
/// (next, then previous) and `start` waits on the stack.
pub open spec fn dfs_start(
    t: &CornerTable,
    ids: Seq<PointIndex>,
    cs: Seq<u32>,
    vv: Seq<bool>,
    vf: Seq<bool>,
    start: u32,
) -> DfsState {
    if vf[(start / 3) as int] {
        (ids, cs, vv, vf, Seq::<CornerIndex>::empty(), None)
    } else {
        let n = next_corner(start);
        let p = previous_corner(start);
        let (i1, c1, v1) = visited_with(ids, cs, vv, t.vertex_spec(n), n);
        let (i2, c2, v2) = visited_with(i1, c1, v1, t.vertex_spec(p), p);
        (i2, c2, v2, vf, seq![CornerIndex(start)], None)
    }
}

/// The listed vertices, corners, vertex marks and face marks after the
/// walks from the first corners of the first `f` faces, in face order.
pub open spec fn dfs_faces(t: &CornerTable, f: int) -> (Seq<PointIndex>, Seq<u32>, Seq<bool>, Seq<bool>)
    decreases f,
{
    if f <= 0 {
        (
            Seq::<PointIndex>::empty(),
            Seq::<u32>::empty(),
            Seq::new(t.vertex_corners@.len(), |i: int| false),
            Seq::new(t.corner_to_vertex_map@.len() / 3, |i: int| false),
        )
    } else {
        let (ids, cs, vv, vf) = dfs_faces(t, f - 1);
        let e = dfs_walk(t, dfs_start(t, ids, cs, vv, vf, (3 * (f - 1)) as u32));
        (e.0, e.1, e.2, e.3)
    }
}

/// The vertices among the first `i` not marked in `visited`, in order, and
/// their recorded corners.
pub open spec fn unreached_listing(t: &CornerTable, visited: Seq<bool>, i: int) -> (Seq<PointIndex>, Seq<u32>)
    decreases i,
{
    if i <= 0 {
        (Seq::<PointIndex>::empty(), Seq::<u32>::empty())
    } else {
        let (a, b) = unreached_listing(t, visited, i - 1);
        if !visited[i - 1] {
            (a.push(PointIndex((i - 1) as u32)), b.push(t.vertex_corners@[i - 1].0))
        } else {
            (a, b)
        }
    }
}

/// The depth-first order of the vertices of `t` and the corner of each:
/// the walks from every face in order, then the vertices no walk reached.
pub open spec fn dfs_order(t: &CornerTable) -> (Seq<PointIndex>, Seq<u32>) {
    let (ids, cs, vv, vf) = dfs_faces(t, (t.corner_to_vertex_map@.len() / 3) as int);
    let (a, b) = unreached_listing(t, vv, vv.len() as int);
    (ids + a, cs + b)
}

/// Once the walk is done it stays where it is.
proof fn lemma_dfs_run_stays(t: &CornerTable, s: DfsState, a: nat, b: nat)
    requires
        a <= b,
        dfs_done(dfs_run(t, s, a)),
    ensures
        dfs_run(t, s, b) == dfs_run(t, s, a),
    decreases a,
{
    if a > 0 && !dfs_done(s) {
        lemma_dfs_run_stays(t, dfs_step(t, s), (a - 1) as nat, (b - 1) as nat);
    }
}

/// A walk that is done after `k` steps ends where `dfs_walk` says.
proof fn lemma_dfs_walk_is(t: &CornerTable, s: DfsState, k: nat)
    requires
        dfs_done(dfs_run(t, s, k)),
    ensures
        dfs_walk(t, s) == dfs_run(t, s, k),
{
    let j = choose|j: nat| dfs_done(#[trigger] dfs_run(t, s, j));
    if j <= k {
        lemma_dfs_run_stays(t, s, j, k);
    } else {
        lemma_dfs_run_stays(t, s, k, j);
    }
}

/// A step more of a walk that is not done is one step of the walk.
proof fn lemma_dfs_run_step(t: &CornerTable, s: DfsState, k: nat)
    requires
        !dfs_done(dfs_run(t, s, k)),
    ensures
        dfs_run(t, s, k + 1) == dfs_step(t, dfs_run(t, s, k)),
    decreases k,
{
    assert(!dfs_done(s));
    if k > 0 {
        lemma_dfs_run_step(t, dfs_step(t, s), (k - 1) as nat);
        assert(dfs_run(t, s, k) == dfs_run(t, dfs_step(t, s), (k - 1) as nat));
        assert(dfs_run(t, s, k + 1) == dfs_run(t, dfs_step(t, s), k as nat));
    } else {
        assert(dfs_run(t, dfs_step(t, s), 0) == dfs_step(t, s));
        assert(dfs_run(t, s, 1) == dfs_run(t, dfs_step(t, s), 0));
    }
}

/// Lists vertex `v`, reached from corner `c`, unless it is invalid, past
/// the vertices, or listed already.
fn visit_vertex(
    t: &CornerTable,
    v: VertexIndex,
    c: CornerIndex,
    point_ids: &mut Vec<PointIndex>,
    corners: &mut Vec<u32>,
    visited: &mut Vec<bool>,
)
    requires
        walkable(t),
        visit_state(t, old(visited)@, old(point_ids)@, old(corners)@),
        v.0 == INVALID_INDEX || (c.0 < t.corner_to_vertex_map@.len() && t.corner_to_vertex_map@[c.0 as int] == v),
    ensures
        visit_state(t, final(visited)@, final(point_ids)@, final(corners)@),
        final(visited)@ == if v.0 < old(visited)@.len() && !old(visited)@[v.0 as int] {
            old(visited)@.update(v.0 as int, true)
        } else {
            old(visited)@
        },
        v.0 < old(visited)@.len() && !old(visited)@[v.0 as int] ==> count_false(final(visited)@) + 1 == count_false(
            old(visited)@,
        ),
        keeps_marks(old(visited)@, final(visited)@),
        keeps_prefix(old(point_ids)@, final(point_ids)@),
        keeps_prefix(old(corners)@, final(corners)@),
        v.0 < old(visited)@.len() ==> final(visited)@[v.0 as int],
        (final(point_ids)@, final(corners)@, final(visited)@) == visited_with(
            old(point_ids)@,
            old(corners)@,
            old(visited)@,
            v.0,
            c.0,
        ),
{
    if v.0 == INVALID_INDEX {
        return;
    }
    let vi = v.0 as usize;
    if vi >= visited.len() {
        return;
    }
    if !visited[vi] {
        let ghost old_ids = point_ids@;
        let ghost old_visited = visited@;
        proof {
            lemma_count_false_mark(visited@, vi as int);
        }
        visited.set(vi, true);
        point_ids.push(PointIndex(v.0));
        corners.push(c.0);
        proof {
            let k = old_ids.len() as int;
            assert(point_ids@[k].0 == v.0);
            assert forall|i: int, j: int| 0 <= i < j < point_ids@.len() implies point_ids@[i] != point_ids@[j] by {
                if j == k {
                    assert(old_visited[old_ids[i].0 as int]);
                }
            }
            assert forall|i: int| 0 <= i < point_ids@.len() implies visited@[(#[trigger] point_ids@[i]).0 as int] by {
                if i < k {
                    assert(old_visited[old_ids[i].0 as int]);
                }
            }
            assert forall|u: int| 0 <= u < visited@.len() && #[trigger] visited@[u] implies listed(point_ids@, u) by {
                if u == vi {
                    assert(point_ids@[k].0 == u);
                } else {
                    assert(old_visited[u]);
                    let i = choose|i: int| 0 <= i < old_ids.len() && #[trigger] old_ids[i].0 == u;
                    assert(point_ids@[i].0 == u);
                }
            }
            assert(reaches_vertex(t, corners@[k], point_ids@[k].0));
        }
    }
}

/// Walking right around a vertex from corner `c` back to `start`: whether
/// an edge without an opposite corner is met within `fuel` steps.
pub open spec fn boundary_walk(t: &CornerTable, start: u32, c: u32, fuel: nat) -> bool
    decreases fuel,
{
    if fuel == 0 {
        false
    } else if t.opposite_spec(c) == INVALID_INDEX || t.opposite_spec(previous_corner(c)) == INVALID_INDEX {
        true
    } else {
        let s = next_corner(t.opposite_spec(next_corner(c)));
        if s == INVALID_INDEX {
            true
        } else if s == start {
            false
        } else {
            boundary_walk(t, start, s, (fuel - 1) as nat)
        }
    }
}

/// Vertex `v` has no recorded corner, or walking right around it from its
/// recorded corner meets an edge without an opposite corner.
pub open spec fn vertex_on_boundary(t: &CornerTable, v: u32) -> bool {
    let s = if v < t.vertex_corners@.len() {
        t.vertex_corners@[v as int].0
    } else {
        INVALID_INDEX
    };
    s == INVALID_INDEX || boundary_walk(t, s, s, t.corner_to_vertex_map@.len())
}

/// Returns whether vertex `vert_id` lies on a boundary: it has no corner,
/// or one of the edges met walking right around it has no opposite corner.
///
/// The walk is cut after as many steps as there are corners, which a walk
/// that comes back to its start never needs; only opposite corners that do
/// not pair up make a longer walk, which would otherwise go on forever.
fn is_vertex_on_boundary(corner_table: &CornerTable, vert_id: VertexIndex) -> (r: bool)
    requires
        walkable(corner_table),
    ensures
        r == vertex_on_boundary(corner_table, vert_id.0),
{
    let start_c = corner_table.left_most_corner(vert_id);
    if start_c.0 == INVALID_INDEX {
        return true;
    }
    let n = corner_table.num_corners();
    let mut c = start_c;
    let mut fuel = n;
    loop
        invariant
            walkable(corner_table),
            n == corner_table.corner_to_vertex_map@.len(),
            start_c.0 < n,
            c.0 < n,
            fuel <= n,
            vertex_on_boundary(corner_table, vert_id.0) == boundary_walk(corner_table, start_c.0, c.0, fuel as nat),
        decreases fuel,
    {
        if fuel == 0 {
            return false;
        }
        if corner_table.opposite(c).0 == INVALID_INDEX {
            return true;
        }
        if corner_table.opposite(corner_table.previous(c)).0 == INVALID_INDEX {
            return true;
        }
        c = corner_table.swing_right(c);
        if c.0 == INVALID_INDEX {
            return true;
        }
        if c == start_c {
            return false;
        }
        fuel = fuel - 1;
    }
}

/// The face of corner `c`, or the invalid face for the invalid corner.
fn face_of(t: &CornerTable, c: CornerIndex) -> (r: FaceIndex)
    ensures
        r.0 == if c.0 == INVALID_INDEX {
            INVALID_INDEX
        } else {
            c.0 / 3
        },
{
    if c.0 == INVALID_INDEX {
        FaceIndex::invalid()
    } else {
        t.face(c)
    }
}

/// Walks the faces reachable from `start_corner` depth first, listing each
/// vertex when it is first reached; does nothing if that face was walked.
/// Otherwise the start face ends walked and its three vertices listed;
/// faces walked and vertices listed before stay so, in their order.
fn dfs_traverse_from_corner(
    corner_table: &CornerTable,
    start_corner: CornerIndex,
    point_ids: &mut Vec<PointIndex>,
    corners: &mut Vec<u32>,
    visited_vertices: &mut Vec<bool>,
    visited_faces: &mut Vec<bool>,
)
    requires
        walkable(corner_table),
        start_corner.0 < corner_table.corner_to_vertex_map@.len(),
        visit_state(corner_table, old(visited_vertices)@, old(point_ids)@, old(corners)@),
        old(visited_faces)@.len() == corner_table.corner_to_vertex_map@.len() / 3,
    ensures
        visit_state(corner_table, final(visited_vertices)@, final(point_ids)@, final(corners)@),
        final(visited_faces)@.len() == old(visited_faces)@.len(),
        keeps_marks(old(visited_faces)@, final(visited_faces)@),
        keeps_prefix(old(point_ids)@, final(point_ids)@),
        keeps_prefix(old(corners)@, final(corners)@),
        final(visited_faces)@[(start_corner.0 / 3) as int],
        !old(visited_faces)@[(start_corner.0 / 3) as int] ==> face_vertices_visited(
            corner_table,
            final(visited_vertices)@,
            start_corner.0,
        ),
        old(visited_faces)@[(start_corner.0 / 3) as int] ==> {
            &&& final(point_ids)@ == old(point_ids)@
            &&& final(corners)@ == old(corners)@
            &&& final(visited_vertices)@ == old(visited_vertices)@
            &&& final(visited_faces)@ == old(visited_faces)@
        },
        ({
            let e = dfs_walk(
                corner_table,
                dfs_start(
                    corner_table,
                    old(point_ids)@,
                    old(corners)@,
                    old(visited_vertices)@,
                    old(visited_faces)@,
                    start_corner.0,
                ),
            );
            &&& final(point_ids)@ == e.0
            &&& final(corners)@ == e.1
            &&& final(visited_vertices)@ == e.2
            &&& final(visited_faces)@ == e.3
        }),
{
    let ghost n = corner_table.corner_to_vertex_map@.len();
    let ghost nf = n / 3;
    let ghost sf: int = (start_corner.0 / 3) as int;
    let start_face = corner_table.face(start_corner);
    if visited_faces[start_face.0 as usize] {
        proof {
            let s0 = dfs_start(corner_table, point_ids@, corners@, visited_vertices@, visited_faces@, start_corner.0);
            assert(dfs_done(s0));
            assert(dfs_run(corner_table, s0, 0) == s0);
            lemma_dfs_walk_is(corner_table, s0, 0);
        }
        return;
    }
    let mut corner_stack: Vec<CornerIndex> = Vec::new();
    corner_stack.push(start_corner);

    // The other two vertices of the first face come first.
    let next_c = corner_table.next(start_corner);
    let prev_c = corner_table.previous(start_corner);
    let next_v = corner_table.vertex(next_c);
    let prev_v = corner_table.vertex(prev_c);
    visit_vertex(corner_table, next_v, next_c, point_ids, corners, visited_vertices);
    visit_vertex(corner_table, prev_v, prev_c, point_ids, corners, visited_vertices);
    assert(corner_stack@ =~= seq![start_corner]);
    let ghost s0: DfsState = (point_ids@, corners@, visited_vertices@, visited_faces@, corner_stack@, None);
    let ghost mut k: nat = 0;
    proof {
        assert(s0 == dfs_start(
            corner_table,
            old(point_ids)@,
            old(corners)@,
            old(visited_vertices)@,
            old(visited_faces)@,
            start_corner.0,
        ));
    }

    while corner_stack.len() > 0
        invariant
            dfs_run(corner_table, s0, k) == (
                point_ids@,
                corners@,
                visited_vertices@,
                visited_faces@,
                corner_stack@,
                None::<u32>,
            ),
            walkable(corner_table),
            n == corner_table.corner_to_vertex_map@.len(),
            nf == n / 3,
            sf == start_corner.0 / 3,
            start_corner.0 < n,
            visit_state(corner_table, visited_vertices@, point_ids@, corners@),
            visited_faces@.len() == nf,
            forall|i: int| 0 <= i < corner_stack@.len() ==> (#[trigger] corner_stack@[i]).0 < n,
            keeps_marks(old(visited_faces)@, visited_faces@),
            keeps_prefix(old(point_ids)@, point_ids@),
            keeps_prefix(old(corners)@, corners@),
            corner_vertex_visited(corner_table, visited_vertices@, next_corner(start_corner.0)),
            corner_vertex_visited(corner_table, visited_vertices@, previous_corner(start_corner.0)),
            (visited_faces@[sf] && corner_vertex_visited(corner_table, visited_vertices@, start_corner.0)) || (
            corner_stack@ == seq![start_corner] && !visited_faces@[sf]),
        decreases 2 * count_false(visited_faces@) + corner_stack@.len(),
    {
        let top = corner_stack.len() - 1;
        let corner_id = corner_stack[top];
        let face_id = corner_table.face(corner_id);
        proof {
            lemma_dfs_run_step(corner_table, s0, k);
            k = k + 1;
        }
        if visited_faces[face_id.0 as usize] {
            corner_stack.pop();
            continue;
        }
        let ghost faces_left = count_false(visited_faces@);
        let ghost stack_len = corner_stack@.len();
        let mut corner_id = corner_id;
        let mut face_id = face_id;
        loop
            invariant_except_break
                corner_id.0 < n,
                face_id.0 == corner_id.0 / 3,
                corner_stack@.len() == stack_len,
                dfs_run(corner_table, s0, k) == (
                    point_ids@,
                    corners@,
                    visited_vertices@,
                    visited_faces@,
                    corner_stack@,
                    Some(corner_id.0),
                ),
                count_false(visited_faces@) < faces_left || (count_false(visited_faces@) == faces_left
                    && !visited_faces@[face_id.0 as int]),
            invariant
                walkable(corner_table),
                n == corner_table.corner_to_vertex_map@.len(),
                nf == n / 3,
                stack_len >= 1,
                sf == start_corner.0 / 3,
                start_corner.0 < n,
                visit_state(corner_table, visited_vertices@, point_ids@, corners@),
                visited_faces@.len() == nf,
                forall|i: int| 0 <= i < corner_stack@.len() ==> (#[trigger] corner_stack@[i]).0 < n,
                keeps_marks(old(visited_faces)@, visited_faces@),
                keeps_prefix(old(point_ids)@, point_ids@),
                keeps_prefix(old(corners)@, corners@),
                corner_vertex_visited(corner_table, visited_vertices@, next_corner(start_corner.0)),
                corner_vertex_visited(corner_table, visited_vertices@, previous_corner(start_corner.0)),
                (visited_faces@[sf] && corner_vertex_visited(corner_table, visited_vertices@, start_corner.0)) || (
                corner_id == start_corner && !visited_faces@[sf]),
            ensures
                dfs_run(corner_table, s0, k) == (
                    point_ids@,
                    corners@,
                    visited_vertices@,
                    visited_faces@,
                    corner_stack@,
                    None::<u32>,
                ),
                visit_state(corner_table, visited_vertices@, point_ids@, corners@),
                visited_faces@.len() == nf,
                forall|i: int| 0 <= i < corner_stack@.len() ==> (#[trigger] corner_stack@[i]).0 < n,
                count_false(visited_faces@) < faces_left,
                corner_stack@.len() <= stack_len + 1,
                keeps_marks(old(visited_faces)@, visited_faces@),
                keeps_prefix(old(point_ids)@, point_ids@),
                keeps_prefix(old(corners)@, corners@),
                corner_vertex_visited(corner_table, visited_vertices@, next_corner(start_corner.0)),
                corner_vertex_visited(corner_table, visited_vertices@, previous_corner(start_corner.0)),
                visited_faces@[sf] && corner_vertex_visited(corner_table, visited_vertices@, start_corner.0),
            decreases 2 * count_false(visited_vertices@) + 2 * count_false(visited_faces@) + if visited_faces@[face_id.0 as int] {
                1int
            } else {
                0int
            },
        {
            proof {
                lemma_count_false_mark(visited_faces@, face_id.0 as int);
                lemma_dfs_run_step(corner_table, s0, k);
                k = k + 1;
            }
            visited_faces.set(face_id.0 as usize, true);
            let vert_id = corner_table.vertex(corner_id);
            if vert_id.0 == INVALID_INDEX {
                break;
            }
            if !visited_vertices[vert_id.0 as usize] {
                let on_boundary = is_vertex_on_boundary(corner_table, vert_id);
                visit_vertex(corner_table, vert_id, corner_id, point_ids, corners, visited_vertices);
                if !on_boundary {
                    corner_id = corner_table.right_corner(corner_id);
                    if corner_id.0 == INVALID_INDEX {
                        break;
                    }
                    face_id = corner_table.face(corner_id);
                    continue;
                }
            }
            // The vertex was listed already or lies on a boundary: go on to
            // a neighbouring face not walked yet.
            let right_corner_id = corner_table.right_corner(corner_id);
            let left_corner_id = corner_table.left_corner(corner_id);
            let right_face_id = face_of(corner_table, right_corner_id);
            let left_face_id = face_of(corner_table, left_corner_id);
            let right_visited = right_face_id.0 == INVALID_INDEX || visited_faces[right_face_id.0 as usize];
            let left_visited = left_face_id.0 == INVALID_INDEX || visited_faces[left_face_id.0 as usize];
            if right_visited {
                if left_visited {
                    corner_stack.pop();
                    break;
                } else {
                    corner_id = left_corner_id;
                    face_id = left_face_id;
                }
            } else {
                if left_visited {
                    corner_id = right_corner_id;
                    face_id = right_face_id;
                } else {
                    // Both neighbours are left: walk the right one first.
                    let last = corner_stack.len() - 1;
                    corner_stack.set(last, left_corner_id);
                    corner_stack.push(right_corner_id);
                    break;
                }
            }
        }
    }
    proof {
        lemma_dfs_walk_is(corner_table, s0, k);
    }
}

/// Lists the vertices of `corner_table` in depth-first order: each
/// connected part is walked from the first face not walked yet, turning
/// right around each vertex reached for the first time unless it lies on a
/// boundary; each vertex is listed with the corner from which it was first
/// reached. The vertices that no walk reaches follow, in order, each with
/// its recorded corner. The result is exactly `dfs_order`.
pub fn generate_point_ids_and_corners_dfs(corner_table: &CornerTable) -> (r: (Vec<PointIndex>, Vec<u32>))
    requires
        walkable(corner_table),
    ensures
        orders_all_vertices(corner_table, r.0@, r.1@),
        r.0@ == dfs_order(corner_table).0,
        r.1@ == dfs_order(corner_table).1,
{
    let num_vertices = corner_table.num_vertices();
    let num_faces = corner_table.num_faces();
    let mut point_ids: Vec<PointIndex> = Vec::new();
    let mut data_to_corner_map: Vec<u32> = Vec::new();
    let mut visited_vertices = falses(num_vertices);
    let mut visited_faces = falses(num_faces);
    proof {
        assert(visit_state(corner_table, visited_vertices@, point_ids@, data_to_corner_map@));
        assert(visited_vertices@ =~= Seq::new(num_vertices as nat, |i: int| false));
        assert(visited_faces@ =~= Seq::new(num_faces as nat, |i: int| false));
    }

    // Walk every connected part, in face order.
    for f in 0..num_faces
        invariant
            walkable(corner_table),
            num_vertices == corner_table.vertex_corners@.len(),
            num_faces == corner_table.corner_to_vertex_map@.len() / 3,
            visit_state(corner_table, visited_vertices@, point_ids@, data_to_corner_map@),
            visited_faces@.len() == num_faces,
            (point_ids@, data_to_corner_map@, visited_vertices@, visited_faces@) == dfs_faces(corner_table, f as int),
    {
        proof {
            let (ids, cs, vv, vf) = dfs_faces(corner_table, f as int);
            assert((3 * f) / 3 == f);
            let s0 = dfs_start(corner_table, ids, cs, vv, vf, (3 * f) as u32);
            if vf[f as int] {
                assert(dfs_run(corner_table, s0, 0) == s0);
                lemma_dfs_walk_is(corner_table, s0, 0);
            }
        }
        if !visited_faces[f] {
            let first_corner = corner_table.first_corner(FaceIndex(f as u32));
            dfs_traverse_from_corner(
                corner_table,
                first_corner,
                &mut point_ids,
                &mut data_to_corner_map,
                &mut visited_vertices,
                &mut visited_faces,
            );
        }
    }
    add_unreached_vertices(corner_table, &mut point_ids, &mut data_to_corner_map, &visited_vertices);
    (point_ids, data_to_corner_map)
}

/// Appends, in order, each vertex not marked in `visited`, with its
/// recorded corner.
fn add_unreached_vertices(
    corner_table: &CornerTable,
    point_ids: &mut Vec<PointIndex>,
    corners: &mut Vec<u32>,
    visited: &Vec<bool>,
)
    requires
        walkable(corner_table),
        visit_state(corner_table, visited@, old(point_ids)@, old(corners)@),
    ensures
        orders_all_vertices(corner_table, final(point_ids)@, final(corners)@),
        final(point_ids)@ == old(point_ids)@ + unreached_listing(corner_table, visited@, visited@.len() as int).0,
        final(corners)@ == old(corners)@ + unreached_listing(corner_table, visited@, visited@.len() as int).1,
{
    let num_vertices = corner_table.num_vertices();
    let ghost mut marked = visited@;
    for i in 0..num_vertices
        invariant
            walkable(corner_table),
            num_vertices == corner_table.vertex_corners@.len(),
            visited@.len() == num_vertices,
            point_ids@ == old(point_ids)@ + unreached_listing(corner_table, visited@, i as int).0,
            corners@ == old(corners)@ + unreached_listing(corner_table, visited@, i as int).1,
            marked.len() == num_vertices,
            visit_state(corner_table, marked, point_ids@, corners@),
            forall|j: int| 0 <= j < i ==> #[trigger] marked[j],
            forall|j: int| i <= j < num_vertices ==> marked[j] == visited@[j],
    {
        if !visited[i] {
            let ghost old_ids = point_ids@;
            let ghost old_marked = marked;
            point_ids.push(PointIndex(i as u32));
            let c = corner_table.left_most_corner(VertexIndex(i as u32));
            corners.push(c.0);
            proof {
                lemma_count_false_mark(marked, i as int);
                marked = marked.update(i as int, true);
                let k = old_ids.len() as int;
                assert(point_ids@[k].0 == i);
                assert forall|a: int, b: int| 0 <= a < b < point_ids@.len() implies point_ids@[a] != point_ids@[b] by {
                    if b == k {
                        assert(old_marked[old_ids[a].0 as int]);
                    }
                }
                assert forall|a: int| 0 <= a < point_ids@.len() implies marked[(#[trigger] point_ids@[a]).0 as int] by {
                    if a < k {
                        assert(old_marked[old_ids[a].0 as int]);
                    }
                }
                assert forall|u: int| 0 <= u < marked.len() && #[trigger] marked[u] implies listed(point_ids@, u) by {
                    if u == i {
                        assert(point_ids@[k].0 == u);
                    } else {
                        assert(old_marked[u]);
                        let a = choose|a: int| 0 <= a < old_ids.len() && #[trigger] old_ids[a].0 == u;
                        assert(point_ids@[a].0 == u);
                    }
                }
                assert(reaches_vertex(corner_table, corners@[k], point_ids@[k].0));
                let (a, b) = unreached_listing(corner_table, visited@, i as int);
                assert(point_ids@ =~= old(point_ids)@ + a.push(PointIndex(i as u32)));
                assert(corners@ =~= old(corners)@ + b.push(corner_table.vertex_corners@[i as int].0));
            }
        }
    }
    proof {
        lemma_count_false_all_marked(marked);
        assert forall|v: int| 0 <= v < corner_table.vertex_corners@.len() implies #[trigger] listed(point_ids@, v) by {
            assert(marked[v]);
        }
    }
}

proof fn lemma_count_false_all_marked(s: Seq<bool>)
    requires
        forall|i: int| 0 <= i < s.len() ==> #[trigger] s[i],
    ensures
        count_false(s) == 0,
    decreases s.len(),
{
    if s.len() > 0 {
        lemma_count_false_all_marked(s.drop_last());
    }
}

/// The stacks and best priority after `ci` is put on the stack of
/// `priority` (at most 2): that priority becomes the best if it is better.
pub open spec fn stacks_added(
    u: Seq<CornerIndex>,
    nm: Seq<CornerIndex>,
    l: Seq<CornerIndex>,
    best: usize,
    ci: CornerIndex,
    priority: usize,
) -> (Seq<CornerIndex>, Seq<CornerIndex>, Seq<CornerIndex>, usize) {
    let p: usize = if priority < 2 {
        priority
    } else {
        2
    };
    let b = if p < best {
        p
    } else {
        best
    };
    if p == 0 {
        (u.push(ci), nm, l, b)
    } else if p == 1 {
        (u, nm.push(ci), l, b)
    } else {
        (u, nm, l.push(ci), b)
    }
}

/// The corner taken from the stacks and what is left: the top of the first
/// non-empty stack from priority `best` on, whose priority becomes the best;
/// the invalid corner, changing nothing, when they are all empty.
pub open spec fn stacks_popped(u: Seq<CornerIndex>, nm: Seq<CornerIndex>, l: Seq<CornerIndex>, best: usize) -> (
    u32,
    Seq<CornerIndex>,
    Seq<CornerIndex>,
    Seq<CornerIndex>,
    usize,
) {
    if best == 0 && u.len() > 0 {
        (u.last().0, u.drop_last(), nm, l, 0)
    } else if best <= 1 && nm.len() > 0 {
        (nm.last().0, u, nm.drop_last(), l, 1)
    } else if best <= 2 && l.len() > 0 {
        (l.last().0, u, nm, l.drop_last(), 2)
    } else {
        (INVALID_INDEX, u, nm, l, best)
    }
}

/// The priority of walking on to corner `ci` (see `compute_priority`) and
/// the degrees after it is counted.
pub open spec fn priority_of(t: &CornerTable, ci: u32, vv: Seq<bool>, deg: Seq<i32>) -> (usize, Seq<i32>) {
    let tip = t.vertex_spec(ci);
    let counts = ci != INVALID_INDEX && tip != INVALID_INDEX && !vv[tip as int];
    let deg2 = if counts {
        deg.update(tip as int, (deg[tip as int] + 1) as i32)
    } else {
        deg
    };
    let r: usize = if ci == INVALID_INDEX || tip == INVALID_INDEX {
        2
    } else if vv[tip as int] {
        0
    } else if deg[tip as int] + 1 > 1 {
        1
    } else {
        2
    };
    (r, deg2)
}

/// A state of the walk by prediction degree: the vertices listed, their
/// corners, the vertex marks, the face marks and the degrees; the three
/// stacks and the best priority; and the corner being walked (none between
/// stretches).
pub type MaxState = (
    (Seq<PointIndex>, Seq<u32>, Seq<bool>, Seq<bool>, Seq<i32>),
    (Seq<CornerIndex>, Seq<CornerIndex>, Seq<CornerIndex>, usize),
    Option<u32>,
);

/// The walk has nothing left: no corner is being walked and none can be
/// taken from the stacks.
pub open spec fn max_done(s: MaxState) -> bool {
    s.2 is None && stacks_popped(s.1.0, s.1.1, s.1.2, s.1.3).0 == INVALID_INDEX
}

/// One step of the walk by prediction degree. Between stretches, a corner
/// is taken from the stacks: dropped if its face was walked, else walked.
/// Walking corner `c` marks its face and lists its vertex if new; of the
/// left and right neighbouring faces not walked yet, the left one is taken
/// next when the right one was walked and its priority is at least as good
/// as the best, else it waits on its stack; then the right one is taken
/// next when its priority is at least as good as the best, else it waits
/// too and the stretch ends.
pub open spec fn max_step(t: &CornerTable, s: MaxState) -> MaxState {
    let ((ids, cs, vv, vf, deg), (u, nm, l, best), cur) = s;
    match cur {
        None => {
            let (c, u2, nm2, l2, b2) = stacks_popped(u, nm, l, best);
            if c == INVALID_INDEX {
                s
            } else if vf[(c / 3) as int] {
                ((ids, cs, vv, vf, deg), (u2, nm2, l2, b2), None)
            } else {
                ((ids, cs, vv, vf, deg), (u2, nm2, l2, b2), Some(c))
            }
        },
        Some(c) => {
            let vf1 = vf.update((c / 3) as int, true);
            let (ids2, cs2, vv2) = visited_with(ids, cs, vv, t.vertex_spec(c), c);
            let rc = t.opposite_spec(next_corner(c));
            let lc = t.opposite_spec(previous_corner(c));
            let rvis = rc == INVALID_INDEX || vf1[(rc / 3) as int];
            let lvis = lc == INVALID_INDEX || vf1[(lc / 3) as int];
            if !lvis {
                let (p, deg1) = priority_of(t, lc, vv2, deg);
                if rvis && p <= best {
                    ((ids2, cs2, vv2, vf1, deg1), (u, nm, l, best), Some(lc))
                } else {
                    let (u1, nm1, l1, b1) = stacks_added(u, nm, l, best, CornerIndex(lc), p);
                    if !rvis {
                        let (p2, deg2) = priority_of(t, rc, vv2, deg1);
                        if p2 <= b1 {
                            ((ids2, cs2, vv2, vf1, deg2), (u1, nm1, l1, b1), Some(rc))
                        } else {
                            ((ids2, cs2, vv2, vf1, deg2), stacks_added(u1, nm1, l1, b1, CornerIndex(rc), p2), None)
                        }
                    } else {
                        ((ids2, cs2, vv2, vf1, deg1), (u1, nm1, l1, b1), None)
                    }
                }
            } else if !rvis {
                let (p2, deg2) = priority_of(t, rc, vv2, deg);
                if p2 <= best {
                    ((ids2, cs2, vv2, vf1, deg2), (u, nm, l, best), Some(rc))
                } else {
                    ((ids2, cs2, vv2, vf1, deg2), stacks_added(u, nm, l, best, CornerIndex(rc), p2), None)
                }
            } else {
                ((ids2, cs2, vv2, vf1, deg), (u, nm, l, best), None)
            }
        },
    }
}

/// The state after `fuel` steps of the walk from `s` (or fewer, if it is
/// done before).
pub open spec fn max_run(t: &CornerTable, s: MaxState, fuel: nat) -> MaxState
    decreases fuel,
{
    if fuel == 0 || max_done(s) {
        s
    } else {
        max_run(t, max_step(t, s), (fuel - 1) as nat)
    }
}

/// Where the walk from `s` ends.
pub open spec fn max_walk(t: &CornerTable, s: MaxState) -> MaxState {
    max_run(t, s, choose|k: nat| max_done(#[trigger] max_run(t, s, k)))
}

/// The walk by prediction degree from corner `start` (the stacks and best
/// priority `stacks`): nothing if its face was walked; else the stacks are
/// emptied, `start` waits with priority 0, its face's next, previous and
/// own vertices are listed, and the walk goes on until it is done.
pub open spec fn max_from_corner(
    t: &CornerTable,
    marks: (Seq<PointIndex>, Seq<u32>, Seq<bool>, Seq<bool>, Seq<i32>),
    stacks: (Seq<CornerIndex>, Seq<CornerIndex>, Seq<CornerIndex>, usize),
    start: u32,
) -> MaxState {
    let (ids, cs, vv, vf, deg) = marks;
    if vf[(start / 3) as int] {
        (marks, stacks, None)
    } else {
        let n = next_corner(start);
        let p = previous_corner(start);
        let (i1, c1, v1) = visited_with(ids, cs, vv, t.vertex_spec(n), n);
        let (i2, c2, v2) = visited_with(i1, c1, v1, t.vertex_spec(p), p);
        let (i3, c3, v3) = visited_with(i2, c2, v2, t.vertex_spec(start), start);
        max_walk(
            t,
            (
                (i3, c3, v3, vf, deg),
                (seq![CornerIndex(start)], Seq::<CornerIndex>::empty(), Seq::<CornerIndex>::empty(), 0usize),
                None,
            ),
        )
    }
}

/// The state after the walks by prediction degree from the first corners of
/// the first `f` faces, in face order.
pub open spec fn max_faces(t: &CornerTable, f: int) -> (
    (Seq<PointIndex>, Seq<u32>, Seq<bool>, Seq<bool>, Seq<i32>),
    (Seq<CornerIndex>, Seq<CornerIndex>, Seq<CornerIndex>, usize),
)
    decreases f,
{
    if f <= 0 {
        (
            (
                Seq::<PointIndex>::empty(),
                Seq::<u32>::empty(),
                Seq::new(t.vertex_corners@.len(), |i: int| false),
                Seq::new(t.corner_to_vertex_map@.len() / 3, |i: int| false),
                Seq::new(t.vertex_corners@.len(), |i: int| 0i32),
            ),
            (Seq::<CornerIndex>::empty(), Seq::<CornerIndex>::empty(), Seq::<CornerIndex>::empty(), 0usize),
        )
    } else {
        let (marks, stacks) = max_faces(t, f - 1);
        let e = max_from_corner(t, marks, stacks, (3 * (f - 1)) as u32);
        (e.0, e.1)
    }
}

/// The order of the vertices of `t` that predicts them best, and the corner
/// of each: the walks by prediction degree from every face in order, then
/// the vertices no walk reached.
pub open spec fn max_degree_order(t: &CornerTable) -> (Seq<PointIndex>, Seq<u32>) {
    let (marks, stacks) = max_faces(t, (t.corner_to_vertex_map@.len() / 3) as int);
    let (a, b) = unreached_listing(t, marks.2, marks.2.len() as int);
    (marks.0 + a, marks.1 + b)
}

proof fn lemma_max_run_stays(t: &CornerTable, s: MaxState, a: nat, b: nat)
    requires
        a <= b,
        max_done(max_run(t, s, a)),
    ensures
        max_run(t, s, b) == max_run(t, s, a),
    decreases a,
{
    if a > 0 && !max_done(s) {
        lemma_max_run_stays(t, max_step(t, s), (a - 1) as nat, (b - 1) as nat);
    }
}

proof fn lemma_max_walk_is(t: &CornerTable, s: MaxState, k: nat)
    requires
        max_done(max_run(t, s, k)),
    ensures
        max_walk(t, s) == max_run(t, s, k),
{
    let j = choose|j: nat| max_done(#[trigger] max_run(t, s, j));
    if j <= k {
        lemma_max_run_stays(t, s, j, k);
    } else {
        lemma_max_run_stays(t, s, k, j);
    }
}

proof fn lemma_max_run_step(t: &CornerTable, s: MaxState, k: nat)
    requires
        !max_done(max_run(t, s, k)),
    ensures
        max_run(t, s, k + 1) == max_step(t, max_run(t, s, k)),
    decreases k,
{
    assert(!max_done(s));
    if k > 0 {
        lemma_max_run_step(t, max_step(t, s), (k - 1) as nat);
        assert(max_run(t, s, k) == max_run(t, max_step(t, s), (k - 1) as nat));
        assert(max_run(t, s, k + 1) == max_run(t, max_step(t, s), k as nat));
    } else {
        assert(max_run(t, max_step(t, s), 0) == max_step(t, s));
        assert(max_run(t, s, 1) == max_run(t, max_step(t, s), 0));
    }
}

/// Corners waiting to be walked, in three stacks by priority; priority 0
/// is taken first.
struct PriorityStacks {
    urgent: Vec<CornerIndex>,
    normal: Vec<CornerIndex>,
    last: Vec<CornerIndex>,
}

impl PriorityStacks {
    /// The number of corners waiting.
    spec fn total(&self) -> nat {
        self.urgent@.len() + self.normal@.len() + self.last@.len()
    }

    /// Every corner waiting is a corner of a table with `n` corners.
    spec fn corners_below(&self, n: int) -> bool {
        &&& forall|i: int| 0 <= i < self.urgent@.len() ==> (#[trigger] self.urgent@[i]).0 < n
        &&& forall|i: int| 0 <= i < self.normal@.len() ==> (#[trigger] self.normal@[i]).0 < n
        &&& forall|i: int| 0 <= i < self.last@.len() ==> (#[trigger] self.last@[i]).0 < n
    }

    fn new() -> (r: Self)
        ensures
            r.total() == 0,
    {
        PriorityStacks { urgent: Vec::new(), normal: Vec::new(), last: Vec::new() }
    }

    fn clear(&mut self)
        ensures
            final(self).total() == 0,
            final(self).urgent@ == Seq::<CornerIndex>::empty(),
            final(self).normal@ == Seq::<CornerIndex>::empty(),
            final(self).last@ == Seq::<CornerIndex>::empty(),
    {
        self.urgent.clear();
        self.normal.clear();
        self.last.clear();
    }

    /// Puts `ci` on the stack of `priority` (at most 2), and lowers
    /// `best_priority` to it.
    fn add_corner(&mut self, ci: CornerIndex, priority: usize, best_priority: &mut usize)
        ensures
            final(self).total() == old(self).total() + 1,
            forall|n: int| old(self).corners_below(n) && ci.0 < n ==> final(self).corners_below(n),
            *final(best_priority) == if priority < 2 && priority < *old(best_priority) {
                priority
            } else if priority >= 2 && 2 < *old(best_priority) {
                2
            } else {
                *old(best_priority)
            },
            priority == 0 ==> final(self).urgent@ == old(self).urgent@.push(ci),
            (final(self).urgent@, final(self).normal@, final(self).last@, *final(best_priority)) == stacks_added(
                old(self).urgent@,
                old(self).normal@,
                old(self).last@,
                *old(best_priority),
                ci,
                priority,
            ),
    {
        let p = if priority < 2 {
            priority
        } else {
            2
        };
        if p == 0 {
            self.urgent.push(ci);
        } else if p == 1 {
            self.normal.push(ci);
        } else {
            self.last.push(ci);
        }
        if p < *best_priority {
            *best_priority = p;
        }
    }

    /// Takes the top corner of the first non-empty stack from
    /// `best_priority` on, and makes that stack's priority the best; the
    /// invalid corner if all those stacks are empty.
    fn pop_next(&mut self, best_priority: &mut usize) -> (r: CornerIndex)
        requires
            old(self).corners_below(INVALID_INDEX as int),
        ensures
            r.0 == INVALID_INDEX ==> final(self).total() == old(self).total(),
            r.0 != INVALID_INDEX ==> final(self).total() == old(self).total() - 1,
            forall|n: int| old(self).corners_below(n) ==> final(self).corners_below(n) && (r.0 == INVALID_INDEX
                || r.0 < n),
            *old(best_priority) == 0 && old(self).urgent@.len() > 0 ==> r == old(self).urgent@.last(),
            (r.0, final(self).urgent@, final(self).normal@, final(self).last@, *final(best_priority)) == stacks_popped(
                old(self).urgent@,
                old(self).normal@,
                old(self).last@,
                *old(best_priority),
            ),
    {
        let mut p = *best_priority;
        while p < 3
            invariant
                self.urgent@ == old(self).urgent@,
                self.normal@ == old(self).normal@,
                self.last@ == old(self).last@,
                old(self).corners_below(INVALID_INDEX as int),
                *best_priority == *old(best_priority),
                *old(best_priority) == 0 && old(self).urgent@.len() > 0 ==> p == 0,
                p >= *old(best_priority),
                *old(best_priority) <= 0 < p ==> old(self).urgent@.len() == 0,
                *old(best_priority) <= 1 < p ==> old(self).normal@.len() == 0,
                *old(best_priority) <= 2 < p ==> old(self).last@.len() == 0,
            decreases 3 - p,
        {
            if p == 0 {
                let ghost before = self.urgent@;
                if let Some(ci) = self.urgent.pop() {
                    assert(ci == before[before.len() - 1]);
                    assert(self.urgent@ =~= before.subrange(0, before.len() - 1));
                    *best_priority = 0;
                    return ci;
                }
            } else if p == 1 {
                let ghost before = self.normal@;
                if let Some(ci) = self.normal.pop() {
                    assert(ci == before[before.len() - 1]);
                    assert(self.normal@ =~= before.subrange(0, before.len() - 1));
                    *best_priority = 1;
                    return ci;
                }
            } else {
                let ghost before = self.last@;
                if let Some(ci) = self.last.pop() {
                    assert(ci == before[before.len() - 1]);
                    assert(self.last@ =~= before.subrange(0, before.len() - 1));
                    *best_priority = 2;
                    return ci;
                }
            }
            p = p + 1;
        }
        CornerIndex::invalid()
    }
}

/// The priority of walking on to corner `ci` next: 0 if its vertex is
/// listed already, else 1 if the vertex has now been met from more than one
/// face (counted in `prediction_degree`), else 2; 2 also for the invalid
/// corner and the invalid vertex.
fn compute_priority(
    corner_table: &CornerTable,
    ci: CornerIndex,
    visited_vertices: &Vec<bool>,
    prediction_degree: &mut Vec<i32>,
) -> (r: usize)
    requires
        walkable(corner_table),
        ci.0 == INVALID_INDEX || ci.0 < corner_table.corner_to_vertex_map@.len(),
        visited_vertices@.len() == corner_table.vertex_corners@.len(),
        old(prediction_degree)@.len() == corner_table.vertex_corners@.len(),
        forall|v: int| 0 <= v < old(prediction_degree)@.len() ==> #[trigger] old(prediction_degree)@[v] < i32::MAX,
    ensures
        r <= 2,
        ({
            let tip = corner_table.vertex_spec(ci.0);
            let counts = ci.0 != INVALID_INDEX && tip != INVALID_INDEX && !visited_vertices@[tip as int];
            &&& final(prediction_degree)@ == if counts {
                old(prediction_degree)@.update(tip as int, (old(prediction_degree)@[tip as int] + 1) as i32)
            } else {
                old(prediction_degree)@
            }
            &&& r == if ci.0 == INVALID_INDEX || tip == INVALID_INDEX {
                2usize
            } else if visited_vertices@[tip as int] {
                0usize
            } else if old(prediction_degree)@[tip as int] + 1 > 1 {
                1usize
            } else {
                2usize
            }
        }),
{
    if ci.0 == INVALID_INDEX {
        return 2;
    }
    let v_tip = corner_table.vertex(ci);
    if v_tip.0 == INVALID_INDEX {
        return 2;
    }
    let vi = v_tip.0 as usize;
    if vi < visited_vertices.len() && visited_vertices[vi] {
        return 0;
    }
    if vi < prediction_degree.len() {
        let d = prediction_degree[vi] + 1;
        prediction_degree.set(vi, d);
        if d > 1 {
            1
        } else {
            2
        }
    } else {
        2
    }
}

/// `n` zeros.
fn zero_degrees(n: usize) -> (r: Vec<i32>)
    ensures
        r@.len() == n,
        forall|i: int| 0 <= i < n ==> r@[i] == 0,
{
    let mut r: Vec<i32> = Vec::new();
    let mut i: usize = 0;
    while i < n
        invariant
            i <= n,
            r@.len() == i,
            forall|j: int| 0 <= j < i ==> r@[j] == 0,
        decreases n - i,
    {
        r.push(0);
        i = i + 1;
    }
    r
}

/// The degrees counted so far are at most two per face walked.
spec fn degrees_bounded(degrees: Seq<i32>, faces_walked: int) -> bool {
    forall|v: int| 0 <= v < degrees.len() ==> 0 <= #[trigger] degrees[v] <= 2 * faces_walked
}

/// Walks the faces reachable from `start_corner`, taking next the corners
/// whose vertices are best predicted, and lists each vertex when it is
/// first reached; does nothing if that face was walked. Otherwise the start
/// face ends walked and its three vertices listed; faces walked and
/// vertices listed before stay so, in their order.
fn max_degree_traverse_from_corner(
    corner_table: &CornerTable,
    start_corner: CornerIndex,
    point_ids: &mut Vec<PointIndex>,
    corners: &mut Vec<u32>,
    visited_vertices: &mut Vec<bool>,
    visited_faces: &mut Vec<bool>,
    prediction_degree: &mut Vec<i32>,
    stacks: &mut PriorityStacks,
    best_priority: &mut usize,
)
    requires
        walkable(corner_table),
        start_corner.0 < corner_table.corner_to_vertex_map@.len(),
        visit_state(corner_table, old(visited_vertices)@, old(point_ids)@, old(corners)@),
        old(visited_faces)@.len() == corner_table.corner_to_vertex_map@.len() / 3,
        old(prediction_degree)@.len() == corner_table.vertex_corners@.len(),
        degrees_bounded(
            old(prediction_degree)@,
            corner_table.corner_to_vertex_map@.len() / 3 - count_false(old(visited_faces)@),
        ),
    ensures
        visit_state(corner_table, final(visited_vertices)@, final(point_ids)@, final(corners)@),
        final(visited_faces)@.len() == old(visited_faces)@.len(),
        final(prediction_degree)@.len() == old(prediction_degree)@.len(),
        degrees_bounded(
            final(prediction_degree)@,
            corner_table.corner_to_vertex_map@.len() / 3 - count_false(final(visited_faces)@),
        ),
        keeps_marks(old(visited_faces)@, final(visited_faces)@),
        keeps_prefix(old(point_ids)@, final(point_ids)@),
        keeps_prefix(old(corners)@, final(corners)@),
        final(visited_faces)@[(start_corner.0 / 3) as int],
        !old(visited_faces)@[(start_corner.0 / 3) as int] ==> face_vertices_visited(
            corner_table,
            final(visited_vertices)@,
            start_corner.0,
        ),
        old(visited_faces)@[(start_corner.0 / 3) as int] ==> {
            &&& final(point_ids)@ == old(point_ids)@
            &&& final(corners)@ == old(corners)@
            &&& final(visited_vertices)@ == old(visited_vertices)@
            &&& final(visited_faces)@ == old(visited_faces)@
            &&& final(prediction_degree)@ == old(prediction_degree)@
        },
        ({
            let e = max_from_corner(
                corner_table,
                (
                    old(point_ids)@,
                    old(corners)@,
                    old(visited_vertices)@,
                    old(visited_faces)@,
                    old(prediction_degree)@,
                ),
                (old(stacks).urgent@, old(stacks).normal@, old(stacks).last@, *old(best_priority)),
                start_corner.0,
            );
            &&& e.0 == (
                final(point_ids)@,
                final(corners)@,
                final(visited_vertices)@,
                final(visited_faces)@,
                final(prediction_degree)@,
            )
            &&& (final(stacks).urgent@, final(stacks).normal@, final(stacks).last@, *final(best_priority)) == e.1
        }),
{
    let ghost n = corner_table.corner_to_vertex_map@.len();
    let ghost nf = n / 3;
    let ghost sf: int = (start_corner.0 / 3) as int;
    let start_face = corner_table.face(start_corner);
    if visited_faces[start_face.0 as usize] {
        return;
    }
    stacks.clear();
    stacks.add_corner(start_corner, 0, best_priority);
    *best_priority = 0;

    // The three vertices of the first face come first.
    let next_c = corner_table.next(start_corner);
    let prev_c = corner_table.previous(start_corner);
    let next_v = corner_table.vertex(next_c);
    let prev_v = corner_table.vertex(prev_c);
    let start_v = corner_table.vertex(start_corner);
    visit_vertex(corner_table, next_v, next_c, point_ids, corners, visited_vertices);
    visit_vertex(corner_table, prev_v, prev_c, point_ids, corners, visited_vertices);
    visit_vertex(corner_table, start_v, start_corner, point_ids, corners, visited_vertices);
    assert(stacks.urgent@ =~= seq![start_corner]);
    let ghost s0: MaxState = (
        (point_ids@, corners@, visited_vertices@, visited_faces@, prediction_degree@),
        (stacks.urgent@, stacks.normal@, stacks.last@, *best_priority),
        None,
    );
    let ghost mut k: nat = 0;

    loop
        invariant
            max_run(corner_table, s0, k) == (
                (point_ids@, corners@, visited_vertices@, visited_faces@, prediction_degree@),
                (stacks.urgent@, stacks.normal@, stacks.last@, *best_priority),
                None::<u32>,
            ),
            walkable(corner_table),
            n == corner_table.corner_to_vertex_map@.len(),
            nf == n / 3,
            visit_state(corner_table, visited_vertices@, point_ids@, corners@),
            visited_faces@.len() == nf,
            prediction_degree@.len() == corner_table.vertex_corners@.len(),
            degrees_bounded(prediction_degree@, nf - count_false(visited_faces@)),
            stacks.corners_below(n as int),
            sf == start_corner.0 / 3,
            start_corner.0 < n,
            keeps_marks(old(visited_faces)@, visited_faces@),
            keeps_prefix(old(point_ids)@, point_ids@),
            keeps_prefix(old(corners)@, corners@),
            face_vertices_visited(corner_table, visited_vertices@, start_corner.0),
            visited_faces@[sf] || (stacks.urgent@.len() > 0 && stacks.urgent@.last() == start_corner
                && *best_priority == 0),
        ensures
            visited_faces@[sf],
            max_done(max_run(corner_table, s0, k)),
        decreases 3 * count_false(visited_faces@) + stacks.total(),
    {
        let ghost measure_before = 3 * count_false(visited_faces@) + stacks.total();
        let mut corner_id = stacks.pop_next(best_priority);
        if corner_id.0 == INVALID_INDEX {
            break;
        }
        proof {
            lemma_max_run_step(corner_table, s0, k);
            k = k + 1;
        }
        let face_id0 = corner_table.face(corner_id);
        if visited_faces[face_id0.0 as usize] {
            continue;
        }
        let ghost measure_in = 3 * count_false(visited_faces@) + stacks.total();
        loop
            invariant_except_break
                corner_id.0 < n,
                !visited_faces@[(corner_id.0 / 3) as int],
                3 * count_false(visited_faces@) + stacks.total() <= measure_in,
                visited_faces@[sf] || corner_id == start_corner,
                max_run(corner_table, s0, k) == (
                    (point_ids@, corners@, visited_vertices@, visited_faces@, prediction_degree@),
                    (stacks.urgent@, stacks.normal@, stacks.last@, *best_priority),
                    Some(corner_id.0),
                ),
            invariant
                walkable(corner_table),
                n == corner_table.corner_to_vertex_map@.len(),
                nf == n / 3,
                measure_in < measure_before,
                visit_state(corner_table, visited_vertices@, point_ids@, corners@),
                visited_faces@.len() == nf,
                prediction_degree@.len() == corner_table.vertex_corners@.len(),
                degrees_bounded(prediction_degree@, nf - count_false(visited_faces@)),
                stacks.corners_below(n as int),
                sf == start_corner.0 / 3,
                keeps_marks(old(visited_faces)@, visited_faces@),
                keeps_prefix(old(point_ids)@, point_ids@),
                keeps_prefix(old(corners)@, corners@),
                face_vertices_visited(corner_table, visited_vertices@, start_corner.0),
                start_corner.0 < n,
            ensures
                3 * count_false(visited_faces@) + stacks.total() < measure_in,
                visited_faces@[sf],
                max_run(corner_table, s0, k) == (
                    (point_ids@, corners@, visited_vertices@, visited_faces@, prediction_degree@),
                    (stacks.urgent@, stacks.normal@, stacks.last@, *best_priority),
                    None::<u32>,
                ),
            decreases count_false(visited_faces@),
        {
            let face_id = corner_table.face(corner_id);
            proof {
                lemma_count_false_mark(visited_faces@, face_id.0 as int);
                lemma_count_false_bound(visited_faces@);
                lemma_max_run_step(corner_table, s0, k);
                k = k + 1;
            }
            visited_faces.set(face_id.0 as usize, true);
            let vert_id = corner_table.vertex(corner_id);
            if vert_id.0 != INVALID_INDEX {
                let vi = vert_id.0 as usize;
                if vi < visited_vertices.len() && !visited_vertices[vi] {
                    visit_vertex(corner_table, vert_id, corner_id, point_ids, corners, visited_vertices);
                }
            }
            let right_corner_id = corner_table.right_corner(corner_id);
            let left_corner_id = corner_table.left_corner(corner_id);
            let right_face_id = face_of(corner_table, right_corner_id);
            let left_face_id = face_of(corner_table, left_corner_id);
            let is_right_face_visited = right_face_id.0 == INVALID_INDEX || visited_faces[right_face_id.0 as usize];
            let is_left_face_visited = left_face_id.0 == INVALID_INDEX || visited_faces[left_face_id.0 as usize];
            if !is_left_face_visited {
                let priority = compute_priority(corner_table, left_corner_id, visited_vertices, prediction_degree);
                if is_right_face_visited && priority <= *best_priority {
                    corner_id = left_corner_id;
                    continue;
                }
                stacks.add_corner(left_corner_id, priority, best_priority);
            }
            if !is_right_face_visited {
                let priority = compute_priority(corner_table, right_corner_id, visited_vertices, prediction_degree);
                if priority <= *best_priority {
                    corner_id = right_corner_id;
                    continue;
                }
                stacks.add_corner(right_corner_id, priority, best_priority);
            }
            break;
        }
    }
    proof {
        lemma_max_walk_is(corner_table, s0, k);
    }
}

/// Lists the vertices of `corner_table` in the order that predicts them
/// best: each connected part is walked from the first face not walked yet,
/// going on from each face to a neighbouring face whose vertex is listed
/// already, else met from more faces, before the others; each vertex is
/// listed with the corner from which it was first reached. The vertices
/// that no walk reaches follow, in order, each with its recorded corner.
/// The result is exactly `max_degree_order`.
pub fn generate_point_ids_and_corners_max_prediction_degree(corner_table: &CornerTable) -> (r: (
    Vec<PointIndex>,
    Vec<u32>,
))
    requires
        walkable(corner_table),
    ensures
        orders_all_vertices(corner_table, r.0@, r.1@),
        r.0@ == max_degree_order(corner_table).0,
        r.1@ == max_degree_order(corner_table).1,
{
    let num_vertices = corner_table.num_vertices();
    let num_faces = corner_table.num_faces();
    let mut point_ids: Vec<PointIndex> = Vec::new();
    let mut data_to_corner_map: Vec<u32> = Vec::new();
    let mut visited_vertices = falses(num_vertices);
    let mut visited_faces = falses(num_faces);
    let mut prediction_degree = zero_degrees(num_vertices);
    let mut stacks = PriorityStacks::new();
    let mut best_priority: usize = 0;
    proof {
        assert(visit_state(corner_table, visited_vertices@, point_ids@, data_to_corner_map@));
        assert(visited_vertices@ =~= Seq::new(num_vertices as nat, |i: int| false));
        assert(visited_faces@ =~= Seq::new(num_faces as nat, |i: int| false));
        assert(prediction_degree@ =~= Seq::new(num_vertices as nat, |i: int| 0i32));
    }

    // Walk every connected part, in face order.
    for f in 0..num_faces
        invariant
            walkable(corner_table),
            num_vertices == corner_table.vertex_corners@.len(),
            num_faces == corner_table.corner_to_vertex_map@.len() / 3,
            visit_state(corner_table, visited_vertices@, point_ids@, data_to_corner_map@),
            visited_faces@.len() == num_faces,
            prediction_degree@.len() == num_vertices,
            degrees_bounded(prediction_degree@, num_faces - count_false(visited_faces@)),
            max_faces(corner_table, f as int) == (
                (point_ids@, data_to_corner_map@, visited_vertices@, visited_faces@, prediction_degree@),
                (stacks.urgent@, stacks.normal@, stacks.last@, best_priority),
            ),
    {
        proof {
            assert((3 * f) / 3 == f);
        }
        if !visited_faces[f] {
            let first_corner = corner_table.first_corner(FaceIndex(f as u32));
            max_degree_traverse_from_corner(
                corner_table,
                first_corner,
                &mut point_ids,
                &mut data_to_corner_map,
                &mut visited_vertices,
                &mut visited_faces,
                &mut prediction_degree,
                &mut stacks,
                &mut best_priority,
            );
        }
    }
    add_unreached_vertices(corner_table, &mut point_ids, &mut data_to_corner_map, &visited_vertices);
    (point_ids, data_to_corner_map)
}

} // verus!
