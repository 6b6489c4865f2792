//! Corner table: the connectivity of a triangle mesh.
//!
//! Face `f` has the corners `3f`, `3f + 1` and `3f + 2`; each corner maps to
//! a vertex, and may have an opposite corner: the corner of the neighbouring
//! face that faces the same edge.
use crate::geometry_indices::{CornerIndex, FaceIndex, PointIndex, VertexIndex, INVALID_INDEX};
use vstd::prelude::*;

verus! {

/// The next corner of the same face (counter-clockwise); the invalid corner
/// stays invalid.
pub open spec fn next_corner(c: u32) -> u32 {
    if c == INVALID_INDEX {
        c
    } else if (c + 1) % 3 != 0 {
        (c + 1) as u32
    } else {
        (c - 2) as u32
    }
}

/// The previous corner of the same face; the invalid corner stays invalid.
pub open spec fn previous_corner(c: u32) -> u32 {
    if c == INVALID_INDEX {
        c
    } else if c % 3 != 0 {
        (c - 1) as u32
    } else {
        (c + 2) as u32
    }
}

/// Connectivity of a triangle mesh.
#[derive(Debug, Clone)]
pub struct CornerTable {
    pub corner_to_vertex_map: Vec<VertexIndex>,
    pub opposite_corners: Vec<CornerIndex>,
    pub vertex_corners: Vec<CornerIndex>,
    pub num_original_vertices: usize,
    pub num_degenerated_faces: usize,
    pub num_isolated_vertices: usize,
}

impl CornerTable {
    /// `c` is the invalid corner or indexes the corner-to-vertex map.
    pub open spec fn vertex_arg_ok(&self, c: u32) -> bool {
        c == INVALID_INDEX || c < self.corner_to_vertex_map@.len()
    }

    /// `c` is the invalid corner or indexes the opposite corners.
    pub open spec fn opposite_arg_ok(&self, c: u32) -> bool {
        c == INVALID_INDEX || c < self.opposite_corners@.len()
    }

    /// The vertex of corner `c` (invalid for the invalid corner).
    pub open spec fn vertex_spec(&self, c: u32) -> u32 {
        if c == INVALID_INDEX {
            INVALID_INDEX
        } else {
            self.corner_to_vertex_map@[c as int].0
        }
    }

    /// The corner opposite to `c` (invalid for the invalid corner).
    pub open spec fn opposite_spec(&self, c: u32) -> u32 {
        if c == INVALID_INDEX {
            INVALID_INDEX
        } else {
            self.opposite_corners@[c as int].0
        }
    }

    /// Face `f` has a repeated vertex, or is the invalid face.
    pub open spec fn degenerated_spec(&self, f: u32) -> bool {
        f == INVALID_INDEX || {
            let c = 3 * f;
            let v0 = self.corner_to_vertex_map@[c];
            let v1 = self.corner_to_vertex_map@[c + 1];
            let v2 = self.corner_to_vertex_map@[c + 2];
            v0 == v1 || v0 == v2 || v1 == v2
        }
    }

    /// Creates a table for `num_faces` faces whose corners have invalid
    /// vertices and no opposite corners, and with no vertices.
    pub fn new(num_faces: usize) -> (r: Self)
        requires
            num_faces * 3 <= usize::MAX,
        ensures
            r.corner_to_vertex_map@.len() == num_faces * 3,
            r.opposite_corners@.len() == num_faces * 3,
            forall|i: int| 0 <= i < num_faces * 3 ==> #[trigger] r.corner_to_vertex_map@[i].0 == INVALID_INDEX,
            forall|i: int| 0 <= i < num_faces * 3 ==> #[trigger] r.opposite_corners@[i].0 == INVALID_INDEX,
            r.vertex_corners@ == Seq::<CornerIndex>::empty(),
            r.num_original_vertices == 0,
            r.num_degenerated_faces == 0,
            r.num_isolated_vertices == 0,
    {
        let n = num_faces * 3;
        let mut corner_to_vertex_map: Vec<VertexIndex> = Vec::new();
        let mut opposite_corners: Vec<CornerIndex> = Vec::new();
        let mut i: usize = 0;
        while i < n
            invariant
                i <= n,
                corner_to_vertex_map@.len() == i,
                opposite_corners@.len() == i,
                forall|j: int| 0 <= j < i ==> #[trigger] corner_to_vertex_map@[j].0 == INVALID_INDEX,
                forall|j: int| 0 <= j < i ==> #[trigger] opposite_corners@[j].0 == INVALID_INDEX,
            decreases n - i,
        {
            corner_to_vertex_map.push(VertexIndex::invalid());
            opposite_corners.push(CornerIndex::invalid());
            i = i + 1;
        }
        CornerTable {
            corner_to_vertex_map,
            opposite_corners,
            vertex_corners: Vec::new(),
            num_original_vertices: 0,
            num_degenerated_faces: 0,
            num_isolated_vertices: 0,
        }
    }

    /// Maps `corner` to `vertex`.
    pub fn map_corner_to_vertex(&mut self, corner: u32, vertex: VertexIndex)
        requires
            corner < old(self).corner_to_vertex_map@.len(),
        ensures
            final(self).corner_to_vertex_map@ == old(self).corner_to_vertex_map@.update(corner as int, vertex),
            final(self).opposite_corners@ == old(self).opposite_corners@,
            final(self).vertex_corners@ == old(self).vertex_corners@,
            final(self).num_original_vertices == old(self).num_original_vertices,
            final(self).num_degenerated_faces == old(self).num_degenerated_faces,
            final(self).num_isolated_vertices == old(self).num_isolated_vertices,
    {
        self.corner_to_vertex_map.set(corner as usize, vertex);
    }

    /// Maps the three corners of `face` to the vertices numbered as the
    /// points `v0`, `v1`, `v2`, and makes each corner the corner of its
    /// vertex where the vertex already has an entry.
    pub fn set_face_vertices(&mut self, face: FaceIndex, v0: PointIndex, v1: PointIndex, v2: PointIndex)
        requires
            3 * face.0 + 2 < old(self).corner_to_vertex_map@.len(),
            3 * face.0 + 2 <= u32::MAX,
        ensures
            final(self).corner_to_vertex_map@ == old(self).corner_to_vertex_map@.update(
                3 * face.0 as int,
                VertexIndex(v0.0),
            ).update(3 * face.0 + 1, VertexIndex(v1.0)).update(3 * face.0 + 2, VertexIndex(v2.0)),
            final(self).vertex_corners@.len() == old(self).vertex_corners@.len(),
            forall|v: int|
                0 <= v < old(self).vertex_corners@.len() ==> #[trigger] final(self).vertex_corners@[v] == if v
                    == v2.0 {
                    CornerIndex((3 * face.0 + 2) as u32)
                } else if v == v1.0 {
                    CornerIndex((3 * face.0 + 1) as u32)
                } else if v == v0.0 {
                    CornerIndex((3 * face.0) as u32)
                } else {
                    old(self).vertex_corners@[v]
                },
            final(self).opposite_corners@ == old(self).opposite_corners@,
            final(self).num_original_vertices == old(self).num_original_vertices,
            final(self).num_degenerated_faces == old(self).num_degenerated_faces,
            final(self).num_isolated_vertices == old(self).num_isolated_vertices,
    {
        let c0 = self.first_corner(face);
        let c1 = self.next(c0);
        let c2 = self.previous(c0);
        self.map_corner_to_vertex(c0.0, VertexIndex(v0.0));
        self.map_corner_to_vertex(c1.0, VertexIndex(v1.0));
        self.map_corner_to_vertex(c2.0, VertexIndex(v2.0));
        if (v0.0 as usize) < self.vertex_corners.len() {
            self.vertex_corners.set(v0.0 as usize, c0);
        }
        if (v1.0 as usize) < self.vertex_corners.len() {
            self.vertex_corners.set(v1.0 as usize, c1);
        }
        if (v2.0 as usize) < self.vertex_corners.len() {
            self.vertex_corners.set(v2.0 as usize, c2);
        }
    }

    /// Sets the corner opposite to `corner`.
    pub fn set_opposite(&mut self, corner: CornerIndex, opposite: CornerIndex)
        requires
            corner.0 < old(self).opposite_corners@.len(),
        ensures
            final(self).opposite_corners@ == old(self).opposite_corners@.update(corner.0 as int, opposite),
            final(self).corner_to_vertex_map@ == old(self).corner_to_vertex_map@,
            final(self).vertex_corners@ == old(self).vertex_corners@,
            final(self).num_original_vertices == old(self).num_original_vertices,
            final(self).num_degenerated_faces == old(self).num_degenerated_faces,
            final(self).num_isolated_vertices == old(self).num_isolated_vertices,
    {
        self.opposite_corners.set(corner.0 as usize, opposite);
    }

    /// Returns the number of vertices.
    pub fn num_vertices(&self) -> (r: usize)
        ensures
            r == self.vertex_corners@.len(),
    {
        self.vertex_corners.len()
    }

    /// Returns the number of vertices without a face, as counted by `init`
    /// or `compute_vertex_corners`.
    pub fn num_isolated_vertices(&self) -> (r: usize)
        ensures
            r == self.num_isolated_vertices,
    {
        self.num_isolated_vertices
    }

    /// Returns the number of faces with a repeated vertex, as counted by
    /// `init`.
    pub fn num_degenerated_faces(&self) -> (r: usize)
        ensures
            r == self.num_degenerated_faces,
    {
        self.num_degenerated_faces
    }

    /// Returns true if `face` is the invalid face or has a repeated vertex.
    pub fn is_degenerated(&self, face: FaceIndex) -> (r: bool)
        requires
            face.0 == INVALID_INDEX || (3 * face.0 + 2 < self.corner_to_vertex_map@.len() && 3 * face.0
                + 2 <= u32::MAX),
        ensures
            r == self.degenerated_spec(face.0),
    {
        if face.0 == INVALID_INDEX {
            return true;
        }
        let c0 = self.first_corner(face);
        let v0 = self.vertex(c0);
        let v1 = self.vertex(self.next(c0));
        let v2 = self.vertex(self.previous(c0));
        v0 == v1 || v0 == v2 || v1 == v2
    }

    /// Returns the number of corners.
    pub fn num_corners(&self) -> (r: usize)
        ensures
            r == self.corner_to_vertex_map@.len(),
    {
        self.corner_to_vertex_map.len()
    }

    /// Returns the number of faces: a third of the number of corners.
    pub fn num_faces(&self) -> (r: usize)
        ensures
            r == self.corner_to_vertex_map@.len() / 3,
    {
        self.corner_to_vertex_map.len() / 3
    }

    /// Returns the corner opposite to `corner`.
    pub fn opposite(&self, corner: CornerIndex) -> (r: CornerIndex)
        requires
            self.opposite_arg_ok(corner.0),
        ensures
            r.0 == self.opposite_spec(corner.0),
    {
        if corner.0 == INVALID_INDEX {
            return corner;
        }
        self.opposite_corners[corner.0 as usize]
    }

    /// Returns the next corner of the same face.
    pub fn next(&self, corner: CornerIndex) -> (r: CornerIndex)
        ensures
            r.0 == next_corner(corner.0),
    {
        if corner.0 == INVALID_INDEX {
            return corner;
        }
        if (corner.0 + 1) % 3 != 0 {
            CornerIndex(corner.0 + 1)
        } else {
            CornerIndex(corner.0 - 2)
        }
    }

    /// Returns the previous corner of the same face.
    pub fn previous(&self, corner: CornerIndex) -> (r: CornerIndex)
        ensures
            r.0 == previous_corner(corner.0),
    {
        if corner.0 == INVALID_INDEX {
            return corner;
        }
        if corner.0 % 3 != 0 {
            CornerIndex(corner.0 - 1)
        } else {
            CornerIndex(corner.0 + 2)
        }
    }

    /// Returns the vertex of `corner`.
    pub fn vertex(&self, corner: CornerIndex) -> (r: VertexIndex)
        requires
            self.vertex_arg_ok(corner.0),
        ensures
            r.0 == self.vertex_spec(corner.0),
    {
        if corner.0 == INVALID_INDEX {
            return VertexIndex::invalid();
        }
        self.corner_to_vertex_map[corner.0 as usize]
    }

    /// Returns the face of `corner`.
    pub fn face(&self, corner: CornerIndex) -> (r: FaceIndex)
        ensures
            r.0 == if corner.0 == INVALID_INDEX {
                INVALID_INDEX
            } else {
                corner.0 / 3
            },
    {
        if corner.0 == INVALID_INDEX {
            return FaceIndex::invalid();
        }
        FaceIndex(corner.0 / 3)
    }

    /// Returns the first corner of `face`.
    pub fn first_corner(&self, face: FaceIndex) -> (r: CornerIndex)
        requires
            3 * face.0 <= u32::MAX,
        ensures
            r.0 == 3 * face.0,
    {
        CornerIndex(face.0 * 3)
    }

    /// Returns the corner recorded for vertex `v` (the left-most one on a
    /// boundary), or the invalid corner for a vertex past the table.
    pub fn left_most_corner(&self, v: VertexIndex) -> (r: CornerIndex)
        ensures
            r == if v.0 < self.vertex_corners@.len() {
                self.vertex_corners@[v.0 as int]
            } else {
                CornerIndex(INVALID_INDEX)
            },
    {
        if v.0 as usize >= self.vertex_corners.len() {
            return CornerIndex::invalid();
        }
        self.vertex_corners[v.0 as usize]
    }

    /// Returns the corner opposite to the previous corner of `corner`.
    pub fn left_corner(&self, corner: CornerIndex) -> (r: CornerIndex)
        requires
            self.opposite_arg_ok(previous_corner(corner.0)),
        ensures
            r.0 == self.opposite_spec(previous_corner(corner.0)),
    {
        self.opposite(self.previous(corner))
    }

    /// Returns the corner opposite to the next corner of `corner`.
    pub fn right_corner(&self, corner: CornerIndex) -> (r: CornerIndex)
        requires
            self.opposite_arg_ok(next_corner(corner.0)),
        ensures
            r.0 == self.opposite_spec(next_corner(corner.0)),
    {
        self.opposite(self.next(corner))
    }

    /// Returns the next corner around the vertex of `corner`, turning right.
    pub fn swing_right(&self, corner: CornerIndex) -> (r: CornerIndex)
        requires
            self.opposite_arg_ok(next_corner(corner.0)),
        ensures
            r.0 == next_corner(self.opposite_spec(next_corner(corner.0))),
    {
        self.next(self.opposite(self.next(corner)))
    }

    /// Returns the next corner around the vertex of `corner`, turning left.
    pub fn swing_left(&self, corner: CornerIndex) -> (r: CornerIndex)
        requires
            self.opposite_arg_ok(previous_corner(corner.0)),
        ensures
            r.0 == previous_corner(self.opposite_spec(previous_corner(corner.0))),
    {
        self.previous(self.opposite(self.previous(corner)))
    }
}

impl Default for CornerTable {
    fn default() -> (r: Self)
        ensures
            r.corner_to_vertex_map@ == Seq::<VertexIndex>::empty(),
            r.opposite_corners@ == Seq::<CornerIndex>::empty(),
            r.vertex_corners@ == Seq::<CornerIndex>::empty(),
            r.num_original_vertices == 0,
            r.num_degenerated_faces == 0,
            r.num_isolated_vertices == 0,
    {
        CornerTable {
            corner_to_vertex_map: Vec::new(),
            opposite_corners: Vec::new(),
            vertex_corners: Vec::new(),
            num_original_vertices: 0,
            num_degenerated_faces: 0,
            num_isolated_vertices: 0,
        }
    }
}

impl CornerTable {
    /// Adds a vertex without a corner and returns its index.
    pub fn add_new_vertex(&mut self) -> (r: VertexIndex)
        requires
            old(self).vertex_corners@.len() < INVALID_INDEX,
        ensures
            r.0 == old(self).vertex_corners@.len(),
            final(self).vertex_corners@ == old(self).vertex_corners@.push(CornerIndex(INVALID_INDEX)),
            final(self).corner_to_vertex_map@ == old(self).corner_to_vertex_map@,
            final(self).opposite_corners@ == old(self).opposite_corners@,
            final(self).num_original_vertices == old(self).num_original_vertices,
            final(self).num_degenerated_faces == old(self).num_degenerated_faces,
            final(self).num_isolated_vertices == old(self).num_isolated_vertices,
    {
        self.vertex_corners.push(CornerIndex::invalid());
        VertexIndex((self.vertex_corners.len() - 1) as u32)
    }

    /// Records `c` as the corner of vertex `v`; a vertex past the table is
    /// left alone.
    pub fn set_left_most_corner(&mut self, v: VertexIndex, c: CornerIndex)
        ensures
            final(self).vertex_corners@ == if v.0 < old(self).vertex_corners@.len() {
                old(self).vertex_corners@.update(v.0 as int, c)
            } else {
                old(self).vertex_corners@
            },
            final(self).corner_to_vertex_map@ == old(self).corner_to_vertex_map@,
            final(self).opposite_corners@ == old(self).opposite_corners@,
            final(self).num_original_vertices == old(self).num_original_vertices,
            final(self).num_degenerated_faces == old(self).num_degenerated_faces,
            final(self).num_isolated_vertices == old(self).num_isolated_vertices,
    {
        if (v.0 as usize) < self.vertex_corners.len() {
            self.vertex_corners.set(v.0 as usize, c);
        }
    }

    /// Removes the corner of vertex `v`, leaving it without faces; a vertex
    /// past the table is left alone.
    pub fn make_vertex_isolated(&mut self, v: VertexIndex)
        ensures
            final(self).vertex_corners@ == if v.0 < old(self).vertex_corners@.len() {
                old(self).vertex_corners@.update(v.0 as int, CornerIndex(INVALID_INDEX))
            } else {
                old(self).vertex_corners@
            },
            final(self).corner_to_vertex_map@ == old(self).corner_to_vertex_map@,
            final(self).opposite_corners@ == old(self).opposite_corners@,
            final(self).num_original_vertices == old(self).num_original_vertices,
            final(self).num_degenerated_faces == old(self).num_degenerated_faces,
            final(self).num_isolated_vertices == old(self).num_isolated_vertices,
    {
        self.set_left_most_corner(v, CornerIndex::invalid());
    }
}

/// Moving to the next corner three times comes back to the start, and the
/// previous corner undoes the next one (and the other way round); both stay
/// in the face.
#[verifier::spinoff_prover]
pub proof fn lemma_corner_cycle(c: u32)
    requires
        c != INVALID_INDEX,
    ensures
        next_corner(next_corner(next_corner(c))) == c,
        previous_corner(previous_corner(previous_corner(c))) == c,
        previous_corner(next_corner(c)) == c,
        next_corner(previous_corner(c)) == c,
        next_corner(c) / 3 == c / 3,
        previous_corner(c) / 3 == c / 3,
        next_corner(c) != c,
        previous_corner(c) != c,
        next_corner(c) != INVALID_INDEX,
        previous_corner(c) != INVALID_INDEX,
{
}


/// Sum of the entries of `s`.
pub open spec fn seq_sum(s: Seq<usize>) -> int
    decreases s.len(),
{
    if s.len() == 0 {
        0
    } else {
        seq_sum(s.drop_last()) + s.last()
    }
}

proof fn lemma_sum_nonneg_and_bounds(s: Seq<usize>, i: int)
    requires
        0 <= i < s.len(),
    ensures
        0 <= s[i] <= seq_sum(s),
    decreases s.len(),
{
    lemma_sum_nonneg(s.drop_last());
    if i < s.len() - 1 {
        lemma_sum_nonneg_and_bounds(s.drop_last(), i);
    }
}

proof fn lemma_sum_nonneg(s: Seq<usize>)
    ensures
        seq_sum(s) >= 0,
    decreases s.len(),
{
    if s.len() > 0 {
        lemma_sum_nonneg(s.drop_last());
    }
}

proof fn lemma_sum_increment(s: Seq<usize>, i: int, x: usize)
    requires
        0 <= i < s.len(),
        x == s[i] + 1,
    ensures
        seq_sum(s.update(i, x)) == seq_sum(s) + 1,
    decreases s.len(),
{
    let t = s.update(i, x);
    if i == s.len() - 1 {
        assert(t.drop_last() =~= s.drop_last());
    } else {
        assert(t.drop_last() =~= s.drop_last().update(i, x));
        lemma_sum_increment(s.drop_last(), i, x);
    }
}

proof fn lemma_sum_prefix_mono(s: Seq<usize>, j: int, k: int)
    requires
        0 <= j <= k <= s.len(),
    ensures
        seq_sum(s.take(j)) <= seq_sum(s.take(k)),
    decreases k - j,
{
    if j < k {
        assert(s.take(k).drop_last() =~= s.take(k - 1));
        lemma_sum_prefix_mono(s, j, k - 1);
    }
}

/// A half-edge waiting for its opposite: the corner facing it and the
/// vertex it ends at.
#[derive(Clone, Copy, Debug)]
struct VertexEdgePair {
    sink_vert: VertexIndex,
    edge_corner: CornerIndex,
}

/// `p` holds a half-edge.
spec fn pair_used(p: VertexEdgePair) -> bool {
    p.sink_vert.0 != INVALID_INDEX
}

/// Every held half-edge belongs to a corner below `c` that has no opposite
/// yet, and ends at the recorded vertex.
spec fn pairs_ok(m: Seq<VertexIndex>, written: Seq<bool>, c: int, ve: Seq<VertexEdgePair>) -> bool {
    forall|i: int|
        0 <= i < ve.len() && #[trigger] pair_used(ve[i]) ==> {
            let e = ve[i].edge_corner.0;
            &&& e < c
            &&& !written[e as int]
            &&& m[previous_corner(e) as int] == ve[i].sink_vert
        }
}

/// The half-edges held in the block of vertex `v` start at `v`.
spec fn blocks_ok(m: Seq<VertexIndex>, cnt: Seq<usize>, off: Seq<usize>, ve: Seq<VertexEdgePair>) -> bool {
    forall|v: int, i: int|
        0 <= v < cnt.len() && off[v] <= i < off[v] + cnt[v] && #[trigger] pair_used(ve[i]) && #[trigger] cnt[v]
            == cnt[v] ==> m[next_corner(ve[i].edge_corner.0) as int].0 == v
}

/// No corner is held twice.
spec fn pairs_distinct(ve: Seq<VertexEdgePair>) -> bool {
    forall|i: int, j: int|
        0 <= i < ve.len() && 0 <= j < ve.len() && i != j && #[trigger] pair_used(ve[i]) && #[trigger] pair_used(ve[j])
            ==> ve[i].edge_corner != ve[j].edge_corner
}

/// The blocks of the vertices lie one after the other within `n` entries.
spec fn blocks_layout(cnt: Seq<usize>, off: Seq<usize>, n: int) -> bool {
    &&& off.len() == cnt.len()
    &&& forall|v: int| 0 <= v < cnt.len() ==> #[trigger] off[v] + cnt[v] <= n
    &&& forall|v: int, w: int| 0 <= v < w < cnt.len() ==> #[trigger] off[v] + cnt[v] <= #[trigger] off[w]
}

/// Every held half-edge belongs to a face that does not repeat a vertex.
spec fn held_ok(m: Seq<VertexIndex>, ve: Seq<VertexEdgePair>) -> bool {
    forall|i: int| 0 <= i < ve.len() && #[trigger] pair_used(ve[i]) ==> !face_degenerated(m, ve[i].edge_corner.0 as int / 3)
}

/// Corner `c` and its opposite `o` face the same edge from two sides: `c`'s
/// edge runs from the vertex of its next corner to that of its previous
/// corner, `o`'s the other way round; and each is the other's opposite.
pub open spec fn opposite_pair(m: Seq<VertexIndex>, opp: Seq<CornerIndex>, c: int) -> bool {
    let o = opp[c].0;
    &&& o != INVALID_INDEX
    &&& o < m.len()
    &&& o != c
    &&& opp[o as int].0 == c
    &&& m[next_corner(c as u32) as int] == m[previous_corner(o) as int]
    &&& m[previous_corner(c as u32) as int] == m[next_corner(o) as int]
}

/// `c` is the invalid corner or one of the first `n` corners.
pub open spec fn corner_in_range(c: u32, n: int) -> bool {
    c == INVALID_INDEX || c < n
}

fn invalid_pair() -> (r: VertexEdgePair)
    ensures
        !pair_used(r),
{
    VertexEdgePair { sink_vert: VertexIndex::invalid(), edge_corner: CornerIndex::invalid() }
}

/// Removes the entry at `mp` from the block ending at `end`, moving the
/// later entries of the block down by one and leaving the last one unused.
fn remove_pair(ve: &mut Vec<VertexEdgePair>, mp: usize, end: usize)
    requires
        mp < end <= old(ve)@.len(),
    ensures
        final(ve)@.len() == old(ve)@.len(),
        forall|p: int|
            0 <= p < old(ve)@.len() && (p < mp || p >= end) ==> #[trigger] final(ve)@[p] == old(ve)@[p],
        forall|p: int| mp <= p < end - 1 ==> #[trigger] final(ve)@[p] == old(ve)@[p + 1],
        !pair_used(final(ve)@[end - 1]),
{
    let mut j = mp;
    while j + 1 < end
        invariant
            mp <= j < end,
            end <= old(ve)@.len(),
            ve@.len() == old(ve)@.len(),
            forall|p: int| 0 <= p < old(ve)@.len() && (p < mp || p >= j) ==> #[trigger] ve@[p] == old(ve)@[p],
            forall|p: int| mp <= p < j ==> #[trigger] ve@[p] == old(ve)@[p + 1],
        decreases end - j,
    {
        let moved = ve[j + 1];
        ve.set(j, moved);
        j = j + 1;
    }
    ve.set(end - 1, invalid_pair());
}

/// Counts, for each vertex, the corners that map to it; the result has one
/// entry per vertex up to the largest one that occurs.
fn count_vertex_corners(m: &Vec<VertexIndex>) -> (cnt: Vec<usize>)
    requires
        forall|c: int| 0 <= c < m@.len() ==> #[trigger] m@[c].0 != INVALID_INDEX,
    ensures
        seq_sum(cnt@) == m@.len(),
        forall|c: int| 0 <= c < m@.len() ==> #[trigger] m@[c].0 < cnt@.len(),
        cnt@.len() == 0 || exists|c: int| 0 <= c < m@.len() && #[trigger] m@[c].0 == cnt@.len() - 1,
{
    let mut cnt: Vec<usize> = Vec::new();
    let n = m.len();
    let mut c: usize = 0;
    while c < n
        invariant
            n == m@.len(),
            c <= n,
            forall|k: int| 0 <= k < m@.len() ==> #[trigger] m@[k].0 != INVALID_INDEX,
            seq_sum(cnt@) == c,
            forall|k: int| 0 <= k < c ==> #[trigger] m@[k].0 < cnt@.len(),
            cnt@.len() == 0 || exists|k: int| 0 <= k < c && #[trigger] m@[k].0 == cnt@.len() - 1,
            cnt@.len() <= INVALID_INDEX,
        decreases n - c,
    {
        let v = m[c].0 as usize;
        if v >= cnt.len() {
            let ghost before = cnt@;
            while cnt.len() <= v
                invariant
                    before.len() <= cnt@.len() <= v + 1,
                    cnt@.subrange(0, before.len() as int) == before,
                    forall|k: int| before.len() <= k < cnt@.len() ==> #[trigger] cnt@[k] == 0,
                    seq_sum(cnt@) == seq_sum(before),
                decreases v + 1 - cnt@.len(),
            {
                let ghost prev = cnt@;
                cnt.push(0);
                proof {
                    assert(cnt@.drop_last() =~= prev);
                    assert(cnt@.subrange(0, before.len() as int) =~= prev.subrange(0, before.len() as int));
                }
            }
            proof {
                assert forall|k: int| 0 <= k < c implies #[trigger] m@[k].0 < cnt@.len() by {}
            }
        }
        proof {
            lemma_sum_nonneg_and_bounds(cnt@, v as int);
        }
        let x = cnt[v] + 1;
        proof {
            lemma_sum_increment(cnt@, v as int, x);
        }
        cnt.set(v, x);
        c = c + 1;
    }
    cnt
}

/// The first entry of each vertex's block: the sum of the counts of the
/// vertices before it.
fn block_offsets(cnt: &Vec<usize>, n: usize) -> (off: Vec<usize>)
    requires
        seq_sum(cnt@) == n,
    ensures
        blocks_layout(cnt@, off@, n as int),
{
    let mut off: Vec<usize> = Vec::new();
    let mut offset: usize = 0;
    let len = cnt.len();
    let mut i: usize = 0;
    while i < len
        invariant
            len == cnt@.len(),
            i <= len,
            seq_sum(cnt@) == n,
            off@.len() == i,
            offset == seq_sum(cnt@.take(i as int)),
            forall|j: int| 0 <= j < i ==> #[trigger] off@[j] == seq_sum(cnt@.take(j)),
        decreases len - i,
    {
        proof {
            assert(cnt@.take(i + 1).drop_last() =~= cnt@.take(i as int));
            lemma_sum_prefix_mono(cnt@, i + 1, len as int);
            assert(cnt@.take(len as int) =~= cnt@);
        }
        off.push(offset);
        offset = offset + cnt[i];
        i = i + 1;
    }
    proof {
        assert(cnt@.take(len as int) =~= cnt@);
        assert forall|v: int| 0 <= v < cnt@.len() implies #[trigger] off@[v] + cnt@[v] <= n by {
            assert(cnt@.take(v + 1).drop_last() =~= cnt@.take(v));
            lemma_sum_prefix_mono(cnt@, v + 1, len as int);
        }
        assert forall|v: int, w: int| 0 <= v < w < cnt@.len() implies #[trigger] off@[v] + cnt@[v]
            <= #[trigger] off@[w] by {
            assert(cnt@.take(v + 1).drop_last() =~= cnt@.take(v));
            lemma_sum_prefix_mono(cnt@, v + 1, w);
        }
    }
    off
}

/// The entry at `k` holds a half-edge ending at `source_v` whose corner does
/// not map to `tip_v`.
spec fn opposite_match(ve: Seq<VertexEdgePair>, m: Seq<VertexIndex>, k: int, source_v: VertexIndex, tip_v: VertexIndex) -> bool {
    pair_used(ve[k]) && ve[k].sink_vert == source_v && m[ve[k].edge_corner.0 as int] != tip_v
}

/// The search for an opposite half-edge stops at entry `k`: it is unused or
/// it matches.
spec fn search_stop(ve: Seq<VertexEdgePair>, m: Seq<VertexIndex>, k: int, source_v: VertexIndex, tip_v: VertexIndex) -> bool {
    !pair_used(ve[k]) || opposite_match(ve, m, k, source_v, tip_v)
}

/// Looks in the block `start .. start + count` for a held half-edge ending
/// at `source_v` whose corner does not map to `tip_v`, stopping at the
/// first unused entry.
fn find_opposite(
    ve: &Vec<VertexEdgePair>,
    m: &Vec<VertexIndex>,
    start: usize,
    count: usize,
    source_v: VertexIndex,
    tip_v: VertexIndex,
) -> (r: Option<usize>)
    requires
        start + count <= ve@.len(),
        forall|i: int|
            start <= i < start + count && #[trigger] pair_used(ve@[i]) ==> ve@[i].edge_corner.0 < m@.len(),
    ensures
        r matches Some(p) ==> start <= p < start + count && pair_used(ve@[p as int])
            && ve@[p as int].sink_vert == source_v,
        r matches Some(p) ==> opposite_match(ve@, m@, p as int, source_v, tip_v)
            && forall|k: int| start <= k < p ==> !#[trigger] search_stop(ve@, m@, k, source_v, tip_v),
        r is None ==> (forall|k: int| start <= k < start + count ==> !#[trigger] search_stop(ve@, m@, k, source_v, tip_v))
            || exists|u: int|
            start <= u < start + count && !pair_used(#[trigger] ve@[u]) && forall|k: int|
                start <= k < u ==> !#[trigger] search_stop(ve@, m@, k, source_v, tip_v),
{
    let mut i: usize = 0;
    assert(ve@.len() == ve.len());
    while i < count
        invariant
            i <= count,
            start + count <= ve@.len(),
            start + count <= usize::MAX,
            forall|k: int|
                start <= k < start + count && #[trigger] pair_used(ve@[k]) ==> ve@[k].edge_corner.0 < m@.len(),
            forall|k: int| start <= k < start + i ==> !#[trigger] search_stop(ve@, m@, k, source_v, tip_v),
        decreases count - i,
    {
        let offset = start + i;
        let other_v = ve[offset].sink_vert;
        if other_v.0 == INVALID_INDEX {
            assert(!pair_used(ve@[offset as int]));
            return None;
        }
        if other_v == source_v {
            let ghost used = pair_used(ve@[offset as int]);
            let e = ve[offset].edge_corner;
            if tip_v != m[e.0 as usize] {
                return Some(offset);
            }
        }
        i = i + 1;
    }
    None
}

/// Puts `pair` into the first unused entry of the block
/// `start .. start + count`, if there is one.
fn add_pair(ve: &mut Vec<VertexEdgePair>, start: usize, count: usize, pair: VertexEdgePair)
    requires
        start + count <= old(ve)@.len(),
    ensures
        final(ve)@ == old(ve)@ || exists|p: int|
            start <= p < start + count && !pair_used(old(ve)@[p]) && final(ve)@ == old(ve)@.update(p, pair),
        (forall|k: int| start <= k < start + count ==> pair_used(#[trigger] old(ve)@[k])) ==> final(ve)@ == old(ve)@,
        forall|p: int|
            start <= p < start + count && !pair_used(#[trigger] old(ve)@[p]) && (forall|k: int|
                start <= k < p ==> pair_used(#[trigger] old(ve)@[k])) ==> final(ve)@ == old(ve)@.update(p, pair),
{
    let mut i: usize = 0;
    assert(ve@.len() == ve.len());
    while i < count
        invariant
            i <= count,
            start + count <= ve@.len(),
            start + count <= usize::MAX,
            ve@ == old(ve)@,
            forall|k: int| start <= k < start + i ==> pair_used(#[trigger] old(ve)@[k]),
        decreases count - i,
    {
        let offset = start + i;
        if ve[offset].sink_vert.0 == INVALID_INDEX {
            ve.set(offset, pair);
            return;
        }
        i = i + 1;
    }
}

/// `s` cut to `n` corners or padded with invalid corners.
pub open spec fn corners_resized(s: Seq<CornerIndex>, n: nat) -> Seq<CornerIndex> {
    Seq::new(n, |i: int| if i < s.len() { s[i] } else { CornerIndex(INVALID_INDEX) })
}

fn resize_corners(v: &mut Vec<CornerIndex>, n: usize)
    ensures
        final(v)@ == corners_resized(old(v)@, n as nat),
{
    if n <= v.len() {
        v.truncate(n);
    } else {
        while v.len() < n
            invariant
                old(v)@.len() <= v@.len() <= n,
                forall|i: int|
                    0 <= i < v@.len() ==> #[trigger] v@[i] == corners_resized(old(v)@, n as nat)[i],
            decreases n - v@.len(),
        {
            v.push(CornerIndex::invalid());
        }
    }
    proof {
        assert(v@ =~= corners_resized(old(v)@, n as nat));
    }
}

/// Which entry of the table before a removal an entry after it came from.
spec fn removal_source(p: int, mp: int, end: int) -> int {
    if mp <= p < end - 1 {
        p + 1
    } else {
        p
    }
}

proof fn lemma_block_unique(cnt: Seq<usize>, off: Seq<usize>, n: int, v: int, w: int, p: int)
    requires
        blocks_layout(cnt, off, n),
        0 <= v < cnt.len(),
        0 <= w < cnt.len(),
        off[v] <= p < off[v] + cnt[v],
        off[w] <= p < off[w] + cnt[w],
    ensures
        v == w,
{
    if v < w {
        assert(off[v] + cnt[v] <= off[w]);
    } else if w < v {
        assert(off[w] + cnt[w] <= off[v]);
    }
}

proof fn lemma_remove_pair_keeps(
    m: Seq<VertexIndex>,
    cnt: Seq<usize>,
    off: Seq<usize>,
    written: Seq<bool>,
    c: int,
    ve: Seq<VertexEdgePair>,
    ve2: Seq<VertexEdgePair>,
    sink: int,
    mp: int,
    n: int,
)
    requires
        0 <= c < n,
        m.len() == n,
        ve.len() == n,
        written.len() == n,
        blocks_layout(cnt, off, n),
        pairs_ok(m, written, c, ve),
        blocks_ok(m, cnt, off, ve),
        pairs_distinct(ve),
        0 <= sink < cnt.len(),
        off[sink] <= mp < off[sink] + cnt[sink],
        pair_used(ve[mp]),
        !written[c],
        ve2.len() == n,
        forall|p: int|
            0 <= p < n && (p < mp || p >= off[sink] + cnt[sink]) ==> #[trigger] ve2[p] == ve[p],
        forall|p: int| mp <= p < off[sink] + cnt[sink] - 1 ==> #[trigger] ve2[p] == ve[p + 1],
        !pair_used(ve2[off[sink] + cnt[sink] - 1]),
    ensures
        ({
            let e = ve[mp].edge_corner.0;
            let w2 = written.update(c, true).update(e as int, true);
            &&& pairs_ok(m, w2, c + 1, ve2)
            &&& blocks_ok(m, cnt, off, ve2)
            &&& pairs_distinct(ve2)
        }),
{
    let end = off[sink] + cnt[sink];
    let e = ve[mp].edge_corner.0;
    let w2 = written.update(c, true).update(e as int, true);
    assert(end <= n);
    assert forall|p: int| 0 <= p < n && pair_used(ve2[p]) implies {
        let q = removal_source(p, mp, end);
        &&& 0 <= q < n
        &&& q != mp
        &&& ve2[p] == ve[q]
        &&& pair_used(ve[q])
    } by {
        if mp <= p < end - 1 {
            assert(ve2[p] == ve[p + 1]);
        } else {
            assert(ve2[p] == ve[p]);
        }
    }
    assert forall|i: int| 0 <= i < ve2.len() && #[trigger] pair_used(ve2[i]) implies {
        let e2 = ve2[i].edge_corner.0;
        &&& e2 < c + 1
        &&& !w2[e2 as int]
        &&& m[previous_corner(e2) as int] == ve2[i].sink_vert
    } by {
        let q = removal_source(i, mp, end);
        assert(pair_used(ve[q]));
        assert(pair_used(ve[mp]));
        assert(ve[q].edge_corner != ve[mp].edge_corner);
    }
    assert forall|v: int, i: int|
        0 <= v < cnt.len() && off[v] <= i < off[v] + cnt[v] && #[trigger] pair_used(ve2[i]) && #[trigger] cnt[v]
            == cnt[v] implies m[next_corner(ve2[i].edge_corner.0) as int].0 == v by {
        let q = removal_source(i, mp, end);
        assert(pair_used(ve[q]));
        if mp <= i < end - 1 {
            lemma_block_unique(cnt, off, n, v, sink, i);
            assert(cnt[v] == cnt[v]);
        } else {
            assert(cnt[v] == cnt[v]);
        }
    }
    assert forall|i: int, j: int|
        0 <= i < ve2.len() && 0 <= j < ve2.len() && i != j && #[trigger] pair_used(ve2[i]) && #[trigger] pair_used(
            ve2[j],
        ) implies ve2[i].edge_corner != ve2[j].edge_corner by {
        let qi = removal_source(i, mp, end);
        let qj = removal_source(j, mp, end);
        assert(pair_used(ve[qi]));
        assert(pair_used(ve[qj]));
    }
}

proof fn lemma_add_pair_keeps(
    m: Seq<VertexIndex>,
    cnt: Seq<usize>,
    off: Seq<usize>,
    written: Seq<bool>,
    c: int,
    ve: Seq<VertexEdgePair>,
    ve2: Seq<VertexEdgePair>,
    source: int,
    pair: VertexEdgePair,
    n: int,
)
    requires
        0 <= c < n,
        m.len() == n,
        ve.len() == n,
        written.len() == n,
        blocks_layout(cnt, off, n),
        pairs_ok(m, written, c, ve),
        blocks_ok(m, cnt, off, ve),
        pairs_distinct(ve),
        0 <= source < cnt.len(),
        !written[c],
        pair_used(pair),
        pair.edge_corner.0 == c,
        m[previous_corner(c as u32) as int] == pair.sink_vert,
        m[next_corner(c as u32) as int].0 == source,
        ve2 == ve || exists|p: int|
            off[source] <= p < off[source] + cnt[source] && !pair_used(ve[p]) && ve2 == ve.update(p, pair),
    ensures
        pairs_ok(m, written, c + 1, ve2),
        blocks_ok(m, cnt, off, ve2),
        pairs_distinct(ve2),
{
    if ve2 != ve {
        let p = choose|p: int|
            off[source] <= p < off[source] + cnt[source] && !pair_used(ve[p]) && ve2 == ve.update(p, pair);
        assert forall|v: int, i: int|
            0 <= v < cnt.len() && off[v] <= i < off[v] + cnt[v] && #[trigger] pair_used(ve2[i]) && #[trigger] cnt[v]
                == cnt[v] implies m[next_corner(ve2[i].edge_corner.0) as int].0 == v by {
            if i == p {
                lemma_block_unique(cnt, off, n, v, source, i);
            } else {
                assert(ve2[i] == ve[i]);
            }
        }
        assert forall|i: int, j: int|
            0 <= i < ve2.len() && 0 <= j < ve2.len() && i != j && #[trigger] pair_used(ve2[i]) && #[trigger] pair_used(
                ve2[j],
            ) implies ve2[i].edge_corner != ve2[j].edge_corner by {
            if i != p && j != p {
                assert(ve2[i] == ve[i]);
                assert(ve2[j] == ve[j]);
            } else if i == p {
                assert(ve2[j] == ve[j]);
                assert(pair_used(ve[j]));
            } else {
                assert(ve2[i] == ve[i]);
                assert(pair_used(ve[i]));
            }
        }
        assert forall|i: int| 0 <= i < ve2.len() && #[trigger] pair_used(ve2[i]) implies {
            let e2 = ve2[i].edge_corner.0;
            &&& e2 < c + 1
            &&& !written[e2 as int]
            &&& m[previous_corner(e2) as int] == ve2[i].sink_vert
        } by {
            if i != p {
                assert(ve2[i] == ve[i]);
            }
        }
    }
}

impl CornerTable {
    /// Every corner maps to a valid vertex, and the corners make up whole
    /// faces with indices below the invalid index.
    pub open spec fn corners_mapped(&self) -> bool {
        &&& self.corner_to_vertex_map@.len() % 3 == 0
        &&& self.corner_to_vertex_map@.len() < INVALID_INDEX
        &&& forall|c: int|
            0 <= c < self.corner_to_vertex_map@.len() ==> #[trigger] self.corner_to_vertex_map@[c].0
                != INVALID_INDEX
    }

    /// Every opposite corner is the invalid corner or an existing corner.
    pub open spec fn opposites_in_range(&self) -> bool {
        forall|c: int|
            0 <= c < self.opposite_corners@.len() ==> corner_in_range(
                #[trigger] self.opposite_corners@[c].0,
                self.corner_to_vertex_map@.len() as int,
            )
    }

    /// Pairs up corners that face the same edge from two non-degenerate
    /// faces (with different third vertices), each corner at most once; the
    /// other corners keep their previous opposite. Also returns the number
    /// of vertices: one more than the largest vertex index.
    fn compute_opposite_corners(&mut self, num_vertices: &mut usize) -> (r: bool)
        requires
            old(self).corners_mapped(),
            old(self).opposites_in_range(),
        ensures
            r,
            final(self).corner_to_vertex_map@ == old(self).corner_to_vertex_map@,
            final(self).vertex_corners@ == old(self).vertex_corners@,
            final(self).num_original_vertices == old(self).num_original_vertices,
            final(self).num_degenerated_faces == old(self).num_degenerated_faces,
            final(self).num_isolated_vertices == old(self).num_isolated_vertices,
            final(self).opposite_corners@.len() == old(self).corner_to_vertex_map@.len(),
            final(self).opposites_in_range(),
            forall|c: int|
                0 <= c < old(self).corner_to_vertex_map@.len() ==> #[trigger] final(self).opposite_corners@[c]
                    == corners_resized(old(self).opposite_corners@, old(self).corner_to_vertex_map@.len())[c]
                    || opposite_pair(final(self).corner_to_vertex_map@, final(self).opposite_corners@, c)
                    && !face_degenerated(final(self).corner_to_vertex_map@, c / 3),
            forall|c: int|
                0 <= c < old(self).corner_to_vertex_map@.len() ==> #[trigger] old(
                    self,
                ).corner_to_vertex_map@[c].0 < *final(num_vertices),
            *final(num_vertices) == 0 || exists|c: int|
                0 <= c < old(self).corner_to_vertex_map@.len() && #[trigger] old(self).corner_to_vertex_map@[c].0
                    == *final(num_vertices) - 1,
    {
        let n = self.corner_to_vertex_map.len();
        let ghost m = self.corner_to_vertex_map@;
        let ghost init = corners_resized(self.opposite_corners@, n as nat);
        resize_corners(&mut self.opposite_corners, n);
        let cnt = count_vertex_corners(&self.corner_to_vertex_map);
        let mut ve: Vec<VertexEdgePair> = Vec::new();
        let mut i: usize = 0;
        while i < n
            invariant
                i <= n,
                ve@.len() == i,
                forall|k: int| 0 <= k < i ==> !#[trigger] pair_used(ve@[k]),
            decreases n - i,
        {
            ve.push(invalid_pair());
            i = i + 1;
        }
        let off = block_offsets(&cnt, n);
        let ghost mut written: Seq<bool> = Seq::new(n as nat, |k: int| false);
        let mut c: usize = 0;
        while c < n
            invariant
                n == self.corner_to_vertex_map@.len(),
                m == self.corner_to_vertex_map@,
                n % 3 == 0,
                n < INVALID_INDEX,
                forall|k: int| 0 <= k < n ==> #[trigger] m[k].0 != INVALID_INDEX,
                forall|k: int| 0 <= k < n ==> #[trigger] m[k].0 < cnt@.len(),
                self.vertex_corners@ == old(self).vertex_corners@,
                self.num_original_vertices == old(self).num_original_vertices,
                self.num_degenerated_faces == old(self).num_degenerated_faces,
                self.num_isolated_vertices == old(self).num_isolated_vertices,
                c <= n,
                self.opposite_corners@.len() == n,
                init.len() == n,
                ve@.len() == n,
                written.len() == n,
                blocks_layout(cnt@, off@, n as int),
                pairs_ok(m, written, c as int, ve@),
                blocks_ok(m, cnt@, off@, ve@),
                pairs_distinct(ve@),
                forall|k: int| 0 <= k < n ==> corner_in_range(#[trigger] self.opposite_corners@[k].0, n as int),
                forall|k: int| 0 <= k < n && !written[k] ==> #[trigger] self.opposite_corners@[k] == init[k],
                forall|k: int|
                    0 <= k < n && #[trigger] written[k] ==> k < c && written[self.opposite_corners@[k].0 as int]
                        && opposite_pair(m, self.opposite_corners@, k),
                forall|k: int| 0 <= k < n && #[trigger] written[k] ==> !face_degenerated(m, k / 3),
                held_ok(m, ve@),
            decreases n - c,
        {
            let c_idx = CornerIndex(c as u32);
            proof {
                assert(3 * (c / 3) + 2 < n);
            }
            let tip_v = self.vertex(c_idx);
            let source_v = self.vertex(self.next(c_idx));
            let sink_v = self.vertex(self.previous(c_idx));
            let f_first = self.first_corner(self.face(c_idx));
            let v0 = self.vertex(f_first);
            let v1 = self.vertex(self.next(f_first));
            let v2 = self.vertex(self.previous(f_first));
            if v0 == v1 || v1 == v2 || v2 == v0 {
                c = c + 1;
                continue;
            }
            let sink = sink_v.0 as usize;
            let source = source_v.0 as usize;
            let found = find_opposite(&ve, &self.corner_to_vertex_map, off[sink], cnt[sink], source_v, tip_v);
            match found {
                Some(mp) => {
                    let opposite_c = ve[mp].edge_corner;
                    let ghost ve_before = ve@;
                    let ghost opp_before = self.opposite_corners@;
                    let ghost e = opposite_c.0 as int;
                    proof {
                        assert(pair_used(ve@[mp as int]));
                        assert(cnt@[sink as int] == cnt@[sink as int]);
                    }
                    remove_pair(&mut ve, mp, off[sink] + cnt[sink]);
                    proof {
                        lemma_remove_pair_keeps(
                            m,
                            cnt@,
                            off@,
                            written,
                            c as int,
                            ve_before,
                            ve@,
                            sink as int,
                            mp as int,
                            n as int,
                        );
                    }
                    proof {
                        assert(!face_degenerated(m, e / 3));
                        assert forall|i: int| 0 <= i < ve@.len() && #[trigger] pair_used(ve@[i]) implies !face_degenerated(
                            m,
                            ve@[i].edge_corner.0 as int / 3,
                        ) by {
                            if mp <= i < off[sink as int] + cnt[sink as int] - 1 {
                                assert(ve@[i] == ve_before[i + 1]);
                            } else {
                                assert(ve@[i] == ve_before[i]);
                            }
                        }
                    }
                    self.opposite_corners.set(c, opposite_c);
                    self.opposite_corners.set(opposite_c.0 as usize, c_idx);
                    proof {
                        let w2 = written.update(c as int, true).update(e, true);
                        let opp = self.opposite_corners@;
                        assert(opposite_pair(m, opp, c as int));
                        assert(opposite_pair(m, opp, e));
                        assert forall|k: int| 0 <= k < n && #[trigger] w2[k] implies k < c + 1 && w2[opp[k].0 as int]
                            && opposite_pair(m, opp, k) by {
                            if k != c && k != e {
                                assert(written[k]);
                                assert(opp[k] == opp_before[k]);
                                let o = opp_before[k].0 as int;
                                assert(written[o]);
                                assert(opp[o] == opp_before[o]);
                            }
                        }
                        assert forall|k: int| 0 <= k < n && !w2[k] implies #[trigger] opp[k] == init[k] by {
                            assert(opp[k] == opp_before[k]);
                        }
                        assert forall|k: int| 0 <= k < n && #[trigger] w2[k] implies !face_degenerated(m, k / 3) by {
                            if k != c && k != e {
                                assert(written[k]);
                            }
                        }
                        written = w2;
                    }
                },
                None => {
                    let pair = VertexEdgePair { sink_vert: sink_v, edge_corner: c_idx };
                    let ghost ve_before = ve@;
                    proof {
                        assert(cnt@[source as int] == cnt@[source as int]);
                    }
                    add_pair(&mut ve, off[source], cnt[source], pair);
                    proof {
                        assert(!face_degenerated(m, c as int / 3));
                        assert forall|i: int| 0 <= i < ve@.len() && #[trigger] pair_used(ve@[i]) implies !face_degenerated(
                            m,
                            ve@[i].edge_corner.0 as int / 3,
                        ) by {
                            if ve@[i] != ve_before[i] {
                                assert(ve@[i] == pair);
                            }
                        }
                        lemma_add_pair_keeps(
                            m,
                            cnt@,
                            off@,
                            written,
                            c as int,
                            ve_before,
                            ve@,
                            source as int,
                            pair,
                            n as int,
                        );
                    }
                },
            }
            c = c + 1;
        }
        *num_vertices = cnt.len();
        true
    }
}

/// Number of `false` entries of `s`.
pub(crate) open spec fn count_false(s: Seq<bool>) -> nat
    decreases s.len(),
{
    if s.len() == 0 {
        0
    } else {
        count_false(s.drop_last()) + if s.last() {
            0nat
        } else {
            1nat
        }
    }
}

pub(crate) proof fn lemma_count_false_mark(s: Seq<bool>, i: int)
    requires
        0 <= i < s.len(),
    ensures
        !s[i] ==> count_false(s) >= 1 && count_false(s.update(i, true)) == count_false(s) - 1,
        s[i] ==> count_false(s.update(i, true)) == count_false(s),
    decreases s.len(),
{
    let t = s.update(i, true);
    if i == s.len() - 1 {
        assert(t.drop_last() =~= s.drop_last());
    } else {
        assert(t.drop_last() =~= s.drop_last().update(i, true));
        lemma_count_false_mark(s.drop_last(), i);
    }
}

/// Every corner either has no opposite or forms an opposite pair with it.
pub open spec fn opposites_consistent(m: Seq<VertexIndex>, opp: Seq<CornerIndex>) -> bool {
    forall|c: int| 0 <= c < opp.len() ==> (#[trigger] opp[c]).0 == INVALID_INDEX || opposite_pair(m, opp, c)
}

/// `opp` with the entries of corners `a` and `b` and of their opposites
/// made invalid.
spec fn cleared_pairs(opp: Seq<CornerIndex>, a: int, b: int) -> Seq<CornerIndex> {
    let pa = opp[a].0;
    let pb = opp[b].0;
    let o1 = if pa != INVALID_INDEX {
        opp.update(pa as int, CornerIndex(INVALID_INDEX))
    } else {
        opp
    };
    let o2 = if pb != INVALID_INDEX {
        o1.update(pb as int, CornerIndex(INVALID_INDEX))
    } else {
        o1
    };
    o2.update(a, CornerIndex(INVALID_INDEX)).update(b, CornerIndex(INVALID_INDEX))
}

proof fn lemma_cleared_pairs_consistent(m: Seq<VertexIndex>, opp: Seq<CornerIndex>, a: int, b: int)
    requires
        opposites_consistent(m, opp),
        m.len() == opp.len(),
        0 <= a < opp.len(),
        0 <= b < opp.len(),
        forall|c: int| 0 <= c < opp.len() ==> corner_in_range(#[trigger] opp[c].0, opp.len() as int),
    ensures
        opposites_consistent(m, cleared_pairs(opp, a, b)),
        cleared_pairs(opp, a, b).len() == opp.len(),
        forall|c: int|
            0 <= c < opp.len() ==> #[trigger] cleared_pairs(opp, a, b)[c] == opp[c]
                || cleared_pairs(opp, a, b)[c].0 == INVALID_INDEX,
{
    let r = cleared_pairs(opp, a, b);
    let pa = opp[a].0 as int;
    let pb = opp[b].0 as int;
    assert forall|c: int| 0 <= c < r.len() implies (#[trigger] r[c]).0 == INVALID_INDEX || opposite_pair(m, r, c) by {
        if r[c].0 != INVALID_INDEX {
            assert(r[c] == opp[c]);
            assert(opp[c].0 != INVALID_INDEX);
            assert(opposite_pair(m, opp, c));
            let o = opp[c].0 as int;
            assert(opp[o].0 == c);
            if o == a {
                assert(pa == c);
            } else if o == b {
                assert(pb == c);
            } else if opp[a].0 != INVALID_INDEX && o == pa {
                assert(opposite_pair(m, opp, a));
            } else if opp[b].0 != INVALID_INDEX && o == pb {
                assert(opposite_pair(m, opp, b));
            } else {
                assert(r[o] == opp[o]);
            }
        }
    }
    assert forall|c: int| 0 <= c < opp.len() implies #[trigger] r[c] == opp[c] || r[c].0 == INVALID_INDEX by {}
}

impl CornerTable {
    /// `self` differs from `before` at most by opposite corners made invalid,
    /// and keeps opposite corners in range and, if they were, consistent.
    spec fn only_opposites_cleared(&self, before: &CornerTable) -> bool {
        &&& self.corner_to_vertex_map@ == before.corner_to_vertex_map@
        &&& self.vertex_corners@ == before.vertex_corners@
        &&& self.num_original_vertices == before.num_original_vertices
        &&& self.num_degenerated_faces == before.num_degenerated_faces
        &&& self.num_isolated_vertices == before.num_isolated_vertices
        &&& self.opposite_corners@.len() == before.opposite_corners@.len()
        &&& self.opposites_in_range()
        &&& forall|c: int|
            0 <= c < self.opposite_corners@.len() ==> #[trigger] self.opposite_corners@[c]
                == before.opposite_corners@[c] || self.opposite_corners@[c].0 == INVALID_INDEX
        &&& opposites_consistent(before.corner_to_vertex_map@, before.opposite_corners@) ==> opposites_consistent(
            self.corner_to_vertex_map@,
            self.opposite_corners@,
        )
    }

    /// Breaks non-manifold edges: walking around each vertex, an edge to a
    /// vertex already met on the walk that is not the closing edge of the
    /// walk is disconnected, together with the other edge to that vertex.
    /// The walks are repeated until no edge is disconnected.
    ///
    /// A walk around a vertex is cut after a number of steps that a walk
    /// that ends never needs (the number of corners to the left, twice that
    /// number to the right); such an overlong walk only arises from opposite
    /// corners that do not pair up, and would otherwise go on forever.
    fn break_non_manifold_edges(&mut self) -> (r: bool)
        requires
            old(self).corner_to_vertex_map@.len() % 3 == 0,
            old(self).corner_to_vertex_map@.len() < INVALID_INDEX,
            old(self).opposite_corners@.len() == old(self).corner_to_vertex_map@.len(),
            old(self).opposites_in_range(),
        ensures
            r,
            final(self).only_opposites_cleared(old(self)),
    {
        let n = self.corner_to_vertex_map.len();
        let mut visited: Vec<bool> = Vec::new();
        let mut i: usize = 0;
        while i < n
            invariant
                i <= n,
                visited@.len() == i,
            decreases n - i,
        {
            visited.push(false);
            i = i + 1;
        }
        let mut sink_vertices: Vec<(VertexIndex, CornerIndex)> = Vec::new();
        loop
            invariant
                n == self.corner_to_vertex_map@.len(),
                n % 3 == 0,
                n < INVALID_INDEX,
                visited@.len() == n,
                self.only_opposites_cleared(old(self)),
                self.opposite_corners@.len() == n,
            decreases count_false(visited@),
        {
            let mut mesh_connectivity_updated = false;
            let ghost start = count_false(visited@);
            let mut c: usize = 0;
            while c < n
                invariant
                    n == self.corner_to_vertex_map@.len(),
                    n % 3 == 0,
                    n < INVALID_INDEX,
                    visited@.len() == n,
                    self.only_opposites_cleared(old(self)),
                    self.opposite_corners@.len() == n,
                    c <= n,
                    count_false(visited@) <= start,
                    mesh_connectivity_updated ==> count_false(visited@) < start,
                decreases n - c,
            {
                if visited[c] {
                    c = c + 1;
                    continue;
                }
                sink_vertices.clear();
                let c_idx = CornerIndex(c as u32);
                let mut first_c = c_idx;
                let mut current_c = c_idx;
                let mut steps: usize = 0;
                loop
                    invariant
                        n == self.corner_to_vertex_map@.len(),
                        n % 3 == 0,
                        n < INVALID_INDEX,
                        visited@.len() == n,
                        self.only_opposites_cleared(old(self)),
                        self.opposite_corners@.len() == n,
                        current_c.0 < n,
                        !visited@[current_c.0 as int],
                        steps <= n,
                    decreases n - steps,
                {
                    if steps >= n {
                        break;
                    }
                    proof {
                        assert(previous_corner(current_c.0) < n);
                        let o = self.opposite_corners@[previous_corner(current_c.0) as int].0;
                        assert(corner_in_range(o, n as int));
                        if o != INVALID_INDEX {
                            assert(previous_corner(o) < n);
                        }
                    }
                    let next_c = self.swing_left(current_c);
                    if next_c == first_c || next_c.0 == INVALID_INDEX || visited[next_c.0 as usize] {
                        break;
                    }
                    current_c = next_c;
                    steps = steps + 1;
                }
                first_c = current_c;
                let ghost before_c = count_false(visited@);
                let limit: u64 = 2 * (n as u64);
                let mut walk: u64 = 0;
                loop
                    invariant_except_break
                        current_c.0 < n,
                        walk < limit,
                        (current_c == first_c && !visited@[first_c.0 as int] && count_false(visited@) == before_c)
                            || count_false(visited@) < before_c,
                    invariant
                        n == self.corner_to_vertex_map@.len(),
                        n % 3 == 0,
                        n < INVALID_INDEX,
                        visited@.len() == n,
                        self.only_opposites_cleared(old(self)),
                        self.opposite_corners@.len() == n,
                        first_c.0 < n,
                        walk <= limit,
                        limit == 2 * n,
                        before_c <= start,
                        count_false(visited@) <= before_c,
                        mesh_connectivity_updated ==> count_false(visited@) < start,
                        forall|k: int| 0 <= k < sink_vertices@.len() ==> (#[trigger] sink_vertices@[k]).1.0 < n,
                    ensures
                        count_false(visited@) < before_c,
                    decreases limit - walk,
                {
                    proof {
                        lemma_count_false_mark(visited@, current_c.0 as int);
                    }
                    visited.set(current_c.0 as usize, true);
                    proof {
                        assert(next_corner(current_c.0) < n);
                        assert(previous_corner(current_c.0) < n);
                    }
                    let sink_c = self.next(current_c);
                    let sink_v = self.corner_to_vertex_map[sink_c.0 as usize];
                    let edge_corner = self.previous(current_c);
                    let mut vertex_connectivity_updated = false;
                    let mut k: usize = 0;
                    while k < sink_vertices.len()
                        invariant_except_break
                            !vertex_connectivity_updated,
                        invariant
                            n == self.corner_to_vertex_map@.len(),
                            n % 3 == 0,
                            n < INVALID_INDEX,
                            self.only_opposites_cleared(old(self)),
                            self.opposite_corners@.len() == n,
                            edge_corner.0 < n,
                            forall|j: int| 0 <= j < sink_vertices@.len() ==> (#[trigger] sink_vertices@[j]).1.0 < n,
                        decreases sink_vertices@.len() - k,
                    {
                        let attached = sink_vertices[k];
                        if attached.0 == sink_v {
                            let other_edge_corner = attached.1;
                            let opp_edge_corner = self.opposite(edge_corner);
                            if opp_edge_corner == other_edge_corner {
                                k = k + 1;
                                continue;
                            }
                            let opp_other_edge_corner = self.opposite(other_edge_corner);
                            let ghost opp_before = self.opposite_corners@;
                            proof {
                                assert(sink_vertices@[k as int].1.0 < n);
                                if opposites_consistent(old(self).corner_to_vertex_map@, old(self).opposite_corners@) {
                                    lemma_cleared_pairs_consistent(
                                        self.corner_to_vertex_map@,
                                        opp_before,
                                        edge_corner.0 as int,
                                        other_edge_corner.0 as int,
                                    );
                                }
                            }
                            if opp_edge_corner.0 != INVALID_INDEX {
                                self.opposite_corners.set(opp_edge_corner.0 as usize, CornerIndex::invalid());
                            }
                            if opp_other_edge_corner.0 != INVALID_INDEX {
                                self.opposite_corners.set(opp_other_edge_corner.0 as usize, CornerIndex::invalid());
                            }
                            self.opposite_corners.set(edge_corner.0 as usize, CornerIndex::invalid());
                            self.opposite_corners.set(other_edge_corner.0 as usize, CornerIndex::invalid());
                            proof {
                                assert(self.opposite_corners@ =~= cleared_pairs(
                                    opp_before,
                                    edge_corner.0 as int,
                                    other_edge_corner.0 as int,
                                ));
                                assert forall|j: int| 0 <= j < self.opposite_corners@.len() implies corner_in_range(
                                    #[trigger] self.opposite_corners@[j].0,
                                    n as int,
                                ) by {
                                    assert(self.opposite_corners@[j] == opp_before[j]
                                        || self.opposite_corners@[j].0 == INVALID_INDEX);
                                }
                                assert forall|j: int| 0 <= j < self.opposite_corners@.len() implies #[trigger] self.opposite_corners@[j]
                                    == old(self).opposite_corners@[j] || self.opposite_corners@[j].0 == INVALID_INDEX by {
                                    assert(self.opposite_corners@[j] == opp_before[j]
                                        || self.opposite_corners@[j].0 == INVALID_INDEX);
                                }
                            }
                            vertex_connectivity_updated = true;
                            break;
                        }
                        k = k + 1;
                    }
                    if vertex_connectivity_updated {
                        mesh_connectivity_updated = true;
                        break;
                    }
                    let new_sink_vert = (self.corner_to_vertex_map[self.previous(current_c).0 as usize], sink_c);
                    sink_vertices.push(new_sink_vert);
                    proof {
                        assert(next_corner(current_c.0) < n);
                    }
                    current_c = self.swing_right(current_c);
                    walk = walk + 1;
                    if current_c == first_c || current_c.0 == INVALID_INDEX || walk >= limit {
                        break;
                    }
                }
                c = c + 1;
            }
            if !mesh_connectivity_updated {
                break;
            }
        }
        true
    }
}

/// The corner after `x` when swinging left around its vertex (invalid when
/// there is none), as `CornerTable::swing_left` finds it.
pub open spec fn swung_left(opp: Seq<CornerIndex>, x: u32) -> u32 {
    previous_corner(opp[previous_corner(x) as int].0)
}

/// The corner after `x` when swinging right around its vertex (invalid when
/// there is none), as `CornerTable::swing_right` finds it.
pub open spec fn swung_right(opp: Seq<CornerIndex>, x: u32) -> u32 {
    next_corner(opp[next_corner(x) as int].0)
}

/// Under opposite corners that pair up consistently with the map `m`,
/// swinging left and swinging right undo each other and stay on the same
/// vertex.
proof fn lemma_swings(m: Seq<VertexIndex>, opp: Seq<CornerIndex>, x: u32)
    requires
        opposites_consistent(m, opp),
        m.len() == opp.len(),
        m.len() % 3 == 0,
        m.len() < INVALID_INDEX,
        x < m.len(),
    ensures
        swung_left(opp, x) != INVALID_INDEX ==> swung_left(opp, x) < m.len() && swung_right(
            opp,
            swung_left(opp, x),
        ) == x && m[swung_left(opp, x) as int] == m[x as int],
        swung_right(opp, x) != INVALID_INDEX ==> swung_right(opp, x) < m.len() && swung_left(
            opp,
            swung_right(opp, x),
        ) == x && m[swung_right(opp, x) as int] == m[x as int],
{
    let p = previous_corner(x);
    let q = next_corner(x);
    assert(p < m.len() && q < m.len());
    assert(next_corner(p) == x);
    assert(previous_corner(q) == x);
    if opp[p as int].0 != INVALID_INDEX {
        assert(opposite_pair(m, opp, p as int));
        let o = opp[p as int].0;
        assert(next_corner(previous_corner(o)) == o);
    }
    if opp[q as int].0 != INVALID_INDEX {
        assert(opposite_pair(m, opp, q as int));
        let o = opp[q as int].0;
        assert(previous_corner(next_corner(o)) == o);
    }
}

/// Corner `x` is marked in `vis`.
pub open spec fn marked(vis: Seq<bool>, x: int) -> bool {
    vis[x]
}

/// The corners that `vis` marks are closed under swinging: each one's
/// neighbours around its vertex are marked too, or there are none.
pub open spec fn swings_closed(opp: Seq<CornerIndex>, vis: Seq<bool>) -> bool {
    forall|x: int|
        0 <= x < vis.len() && #[trigger] marked(vis, x) ==> (swung_left(opp, x as u32) == INVALID_INDEX || vis[swung_left(
            opp,
            x as u32,
        ) as int]) && (swung_right(opp, x as u32) == INVALID_INDEX || vis[swung_right(opp, x as u32) as int])
}

/// Number of `false` entries of `s` is at most its length.
pub(crate) proof fn lemma_count_false_at_most(s: Seq<bool>)
    ensures
        count_false(s) <= s.len(),
    decreases s.len(),
{
    if s.len() > 0 {
        lemma_count_false_at_most(s.drop_last());
    }
}

/// The recorded corner of vertex `u` before a call (`stale`, invalid past
/// its end).
pub open spec fn stale_at(stale: Seq<CornerIndex>, u: int) -> CornerIndex {
    if u < stale.len() {
        stale[u]
    } else {
        CornerIndex(INVALID_INDEX)
    }
}

/// Each vertex but `skip` that a walk reached (`vv`) has a corner of the
/// table, which (when the opposites are `good`) is marked in `vis` and maps
/// to it; the others keep their corner from `stale`.
spec fn vertex_corners_found(
    vc: Seq<CornerIndex>,
    map: Seq<VertexIndex>,
    vv: Seq<bool>,
    vis: Seq<bool>,
    stale: Seq<CornerIndex>,
    good: bool,
    skip: int,
) -> bool {
    forall|u: int|
        0 <= u < vc.len() && u != skip ==> {
            &&& #[trigger] vv[u] ==> vc[u].0 < map.len() && (good ==> vis[vc[u].0 as int] && map[vc[u].0 as int].0
                == u)
            &&& !vv[u] ==> vc[u] == stale_at(stale, u)
        }
}

/// The place of corner `x` on the current walk.
spec fn walk_pos(ord: Seq<int>, x: int) -> int {
    ord[x]
}

/// The corners marked in `vis` but not in `w0` form one walk around a
/// vertex, numbered by `ord` from `lo` to `hi - 1`: `c` is numbered 0,
/// `top` is the last corner reached swinging left and `bot` the last one
/// reached swinging right, and swinging left (right) from a corner of the
/// walk reaches the next (previous) one.
spec fn walk_shape(
    opp: Seq<CornerIndex>,
    vis: Seq<bool>,
    w0: Seq<bool>,
    ord: Seq<int>,
    c: u32,
    lo: int,
    hi: int,
    top: u32,
    bot: u32,
) -> bool {
    forall|x: int|
        0 <= x < vis.len() && vis[x] && !w0[x] ==> {
            &&& lo <= #[trigger] walk_pos(ord, x) < hi
            &&& (ord[x] == 0 <==> x == c)
            &&& ord[x] == hi - 1 ==> x == top
            &&& ord[x] == lo ==> x == bot
            &&& lo < ord[x] ==> {
                let y = swung_right(opp, x as u32);
                y < vis.len() && vis[y as int] && !w0[y as int] && ord[y as int] == ord[x] - 1
            }
            &&& ord[x] < hi - 1 ==> {
                let y = swung_left(opp, x as u32);
                y < vis.len() && vis[y as int] && !w0[y as int] && ord[y as int] == ord[x] + 1
            }
        }
}

/// Swinging from a corner marked in `vis` stays on its vertex of `map`.
pub open spec fn swings_same_vertex(opp: Seq<CornerIndex>, map: Seq<VertexIndex>, vis: Seq<bool>) -> bool {
    forall|x: int|
        0 <= x < vis.len() && #[trigger] marked(vis, x) ==> (swung_left(opp, x as u32) == INVALID_INDEX || map[swung_left(
            opp,
            x as u32,
        ) as int] == map[x]) && (swung_right(opp, x as u32) == INVALID_INDEX || map[swung_right(opp, x as u32) as int]
            == map[x])
}

/// A finished walk keeps the marked corners closed under swinging: it
/// either came back to `c` swinging left, or ended on both sides.
proof fn lemma_walk_closed(
    m: Seq<VertexIndex>,
    map: Seq<VertexIndex>,
    map0: Seq<VertexIndex>,
    v: VertexIndex,
    opp: Seq<CornerIndex>,
    vis: Seq<bool>,
    w0: Seq<bool>,
    ord: Seq<int>,
    c: u32,
    lo: int,
    hi: int,
    top: u32,
    bot: u32,
)
    requires
        opposites_consistent(m, opp),
        m.len() == opp.len(),
        m.len() % 3 == 0,
        m.len() < INVALID_INDEX,
        vis.len() == m.len(),
        w0.len() == m.len(),
        swings_closed(opp, w0),
        forall|x: int| 0 <= x < w0.len() && #[trigger] w0[x] ==> vis[x],
        walk_shape(opp, vis, w0, ord, c, lo, hi, top, bot),
        top < m.len(),
        bot < m.len(),
        c < m.len(),
        ord.len() == m.len(),
        vis[c as int],
        !w0[c as int],
        vis[top as int],
        !w0[top as int],
        vis[bot as int],
        !w0[bot as int],
        (lo == 0 && bot == c && swung_left(opp, top) == c) || (swung_left(opp, top) == INVALID_INDEX && swung_right(
            opp,
            bot,
        ) == INVALID_INDEX),
        map.len() == m.len(),
        map0.len() == m.len(),
        swings_same_vertex(opp, map0, w0),
        forall|x: int| 0 <= x < w0.len() && #[trigger] w0[x] ==> map[x] == map0[x],
        forall|x: int| 0 <= x < vis.len() && #[trigger] marked(vis, x) && !w0[x] ==> map[x] == v,
    ensures
        swings_closed(opp, vis),
        swings_same_vertex(opp, map, vis),
{
    assert forall|x: int| 0 <= x < vis.len() && #[trigger] marked(vis, x) implies (swung_left(opp, x as u32)
        == INVALID_INDEX || map[swung_left(opp, x as u32) as int] == map[x]) && (swung_right(opp, x as u32)
        == INVALID_INDEX || map[swung_right(opp, x as u32) as int] == map[x]) by {
        let yl = swung_left(opp, x as u32);
        let yr = swung_right(opp, x as u32);
        if w0[x] {
            assert(marked(w0, x));
            if yl != INVALID_INDEX {
                assert(w0[yl as int]);
            }
            if yr != INVALID_INDEX {
                assert(w0[yr as int]);
            }
        } else {
            assert(walk_pos(ord, x) == ord[x]);
            if swung_left(opp, top) == c {
                lemma_swings(m, opp, top);
                assert(walk_pos(ord, top as int) == ord[top as int]);
            }
            if yl != INVALID_INDEX {
                assert(marked(vis, yl as int));
            }
            if yr != INVALID_INDEX {
                assert(marked(vis, yr as int));
            }
        }
    }

    assert forall|x: int|
        0 <= x < vis.len() && #[trigger] marked(vis, x) implies (swung_left(opp, x as u32) == INVALID_INDEX || vis[swung_left(
            opp,
            x as u32,
        ) as int]) && (swung_right(opp, x as u32) == INVALID_INDEX || vis[swung_right(opp, x as u32) as int]) by {
        if w0[x] {
            assert(marked(w0, x));
            let yl = swung_left(opp, x as u32);
            let yr = swung_right(opp, x as u32);
            if yl != INVALID_INDEX {
                assert(w0[yl as int]);
            }
            if yr != INVALID_INDEX {
                assert(w0[yr as int]);
            }
        } else {
            assert(walk_pos(ord, x) == ord[x]);
            if swung_left(opp, top) == c {
                lemma_swings(m, opp, top);
                assert(walk_pos(ord, top as int) == ord[top as int]);
            }
        }
    }
}

impl CornerTable {
    /// The vertex corners are invalid, corners of the table, or (for the
    /// first `nv` vertices) what `before` held.
    pub open spec fn vertex_corners_ok(&self, before: Seq<CornerIndex>, nv: int) -> bool {
        forall|v: int|
            0 <= v < self.vertex_corners@.len() ==> {
                let x = #[trigger] self.vertex_corners@[v];
                x.0 == INVALID_INDEX || x.0 < self.corner_to_vertex_map@.len() || (v < nv && v < before.len()
                    && x == before[v])
            }
    }

    /// Records for each vertex one of its corners (the left-most one when
    /// the vertex lies on a boundary), walking around each vertex from each
    /// corner not reached yet. A vertex reached again from a corner that no
    /// walk around it reached is split: a new vertex is added and the corners
    /// of the new walk are mapped to it. Counts the vertices that no corner
    /// reaches as isolated.
    ///
    /// Each walk is cut after as many steps as there are corners, which a
    /// walk that ends never needs; only opposite corners that do not pair up
    /// make a longer walk, which would otherwise go on forever.
    #[verifier::rlimit(100)]
    pub fn compute_vertex_corners(&mut self, num_vertices: usize) -> (r: bool)
        requires
            old(self).corner_to_vertex_map@.len() % 3 == 0,
            old(self).corner_to_vertex_map@.len() < INVALID_INDEX,
            old(self).opposite_corners@.len() == old(self).corner_to_vertex_map@.len(),
            old(self).opposites_in_range(),
            num_vertices + old(self).corner_to_vertex_map@.len() <= INVALID_INDEX,
            forall|c: int|
                0 <= c < old(self).corner_to_vertex_map@.len() ==> #[trigger] old(self).corner_to_vertex_map@[c].0
                    < num_vertices,
        ensures
            r,
            final(self).opposite_corners@ == old(self).opposite_corners@,
            final(self).num_original_vertices == num_vertices,
            final(self).num_degenerated_faces == old(self).num_degenerated_faces,
            num_vertices <= final(self).vertex_corners@.len() <= num_vertices + old(self).corner_to_vertex_map@.len(),
            final(self).corner_to_vertex_map@.len() == old(self).corner_to_vertex_map@.len(),
            forall|c: int|
                0 <= c < old(self).corner_to_vertex_map@.len() ==> #[trigger] final(self).corner_to_vertex_map@[c]
                    == old(self).corner_to_vertex_map@[c] || (num_vertices <= final(self).corner_to_vertex_map@[c].0
                    < final(self).vertex_corners@.len()),
            final(self).vertex_corners_ok(corners_resized(old(self).vertex_corners@, num_vertices as nat), num_vertices as int),
            final(self).num_isolated_vertices <= final(self).vertex_corners@.len(),
            opposites_consistent(old(self).corner_to_vertex_map@, old(self).opposite_corners@) ==> forall|v: int|
                0 <= v < final(self).vertex_corners@.len() ==> {
                    let x = (#[trigger] final(self).vertex_corners@[v]).0;
                    ||| final(self).vertex_corners@[v] == stale_at(
                        corners_resized(old(self).vertex_corners@, num_vertices as nat),
                        v,
                    )
                    ||| x < final(self).corner_to_vertex_map@.len() && final(self).corner_to_vertex_map@[x as int].0 == v
                },
            opposites_consistent(old(self).corner_to_vertex_map@, old(self).opposite_corners@) ==> opposites_consistent(
                final(self).corner_to_vertex_map@,
                final(self).opposite_corners@,
            ),
            (forall|u: int|
                0 <= u < old(self).vertex_corners@.len() ==> (#[trigger] old(self).vertex_corners@[u]).0
                    == INVALID_INDEX) ==> final(self).num_isolated_vertices == count_invalid_corners(
                final(self).vertex_corners@,
                final(self).vertex_corners@.len() as int,
            ),
    {
        let ghost old_nv = num_vertices as int;
        let ghost old_map = self.corner_to_vertex_map@;
        let ghost old_vc = self.vertex_corners@;
        let mut num_vertices = num_vertices;
        let n = self.corner_to_vertex_map.len();
        self.num_original_vertices = num_vertices;
        resize_corners(&mut self.vertex_corners, num_vertices);
        let mut visited_vertices: Vec<bool> = Vec::new();
        let mut i: usize = 0;
        while i < num_vertices
            invariant
                i <= num_vertices,
                visited_vertices@.len() == i,
                forall|j: int| 0 <= j < i ==> !#[trigger] visited_vertices@[j],
            decreases num_vertices - i,
        {
            visited_vertices.push(false);
            i = i + 1;
        }
        let mut visited_corners: Vec<bool> = Vec::new();
        let mut i: usize = 0;
        while i < n
            invariant
                i <= n,
                visited_corners@.len() == i,
                forall|j: int| 0 <= j < i ==> !#[trigger] visited_corners@[j],
            decreases n - i,
        {
            visited_corners.push(false);
            i = i + 1;
        }
        let ghost opp = self.opposite_corners@;
        let ghost good = opposites_consistent(old_map, opp);
        let ghost stale = corners_resized(old_vc, old_nv as nat);
        proof {
            assert(self.vertex_corners@ == stale);
            assert forall|x: int| 0 <= x < n && #[trigger] marked(visited_corners@, x) implies false by {}
            lemma_count_false_at_most(visited_corners@);
        }
        let nf = self.num_faces();
        let mut f: usize = 0;
        while f < nf
            invariant
                n == self.corner_to_vertex_map@.len(),
                n == old_map.len(),
                n % 3 == 0,
                n < INVALID_INDEX,
                nf == n / 3,
                f <= nf,
                opp == old(self).opposite_corners@,
                good == opposites_consistent(old_map, opp),
                stale == corners_resized(old_vc, old_nv as nat),
                self.opposite_corners@ == old(self).opposite_corners@,
                self.opposite_corners@.len() == n,
                self.opposites_in_range(),
                self.num_original_vertices == old_nv,
                self.num_degenerated_faces == old(self).num_degenerated_faces,
                old_nv <= num_vertices <= old_nv + 3 * f,
                old_nv + n <= INVALID_INDEX,
                self.vertex_corners@.len() == num_vertices,
                visited_vertices@.len() == num_vertices,
                visited_corners@.len() == n,
                forall|x: int| 0 <= x < n ==> #[trigger] old_map[x].0 < old_nv,
                forall|x: int|
                    0 <= x < n ==> #[trigger] self.corner_to_vertex_map@[x] == old_map[x] || (old_nv
                        <= self.corner_to_vertex_map@[x].0 < num_vertices),
                forall|x: int| 0 <= x < n && !#[trigger] visited_corners@[x] ==> self.corner_to_vertex_map@[x] == old_map[x],
                self.vertex_corners_ok(corners_resized(old_vc, old_nv as nat), old_nv),
                good ==> swings_closed(opp, visited_corners@),
                good ==> swings_same_vertex(opp, self.corner_to_vertex_map@, visited_corners@),
                vertex_corners_found(
                    self.vertex_corners@,
                    self.corner_to_vertex_map@,
                    visited_vertices@,
                    visited_corners@,
                    stale,
                    good,
                    -1,
                ),
            decreases nf - f,
        {
            let face = FaceIndex(f as u32);
            let first_face_corner = self.first_corner(face);
            if self.is_degenerated(face) {
                f = f + 1;
                continue;
            }
            let mut k: u32 = 0;
            while k < 3
                invariant
                    n == self.corner_to_vertex_map@.len(),
                    n == old_map.len(),
                    n % 3 == 0,
                    n < INVALID_INDEX,
                    nf == n / 3,
                    f < nf,
                    first_face_corner.0 == 3 * f,
                    k <= 3,
                    opp == old(self).opposite_corners@,
                    good == opposites_consistent(old_map, opp),
                    stale == corners_resized(old_vc, old_nv as nat),
                    self.opposite_corners@ == old(self).opposite_corners@,
                    self.opposite_corners@.len() == n,
                    self.opposites_in_range(),
                    self.num_original_vertices == old_nv,
                    self.num_degenerated_faces == old(self).num_degenerated_faces,
                    old_nv <= num_vertices <= old_nv + 3 * f + k,
                    old_nv + n <= INVALID_INDEX,
                    self.vertex_corners@.len() == num_vertices,
                    visited_vertices@.len() == num_vertices,
                    visited_corners@.len() == n,
                    forall|x: int| 0 <= x < n ==> #[trigger] old_map[x].0 < old_nv,
                    forall|x: int|
                        0 <= x < n ==> #[trigger] self.corner_to_vertex_map@[x] == old_map[x] || (old_nv
                            <= self.corner_to_vertex_map@[x].0 < num_vertices),
                    forall|x: int|
                        0 <= x < n && !#[trigger] visited_corners@[x] ==> self.corner_to_vertex_map@[x] == old_map[x],
                    self.vertex_corners_ok(corners_resized(old_vc, old_nv as nat), old_nv),
                    good ==> swings_closed(opp, visited_corners@),
                good ==> swings_same_vertex(opp, self.corner_to_vertex_map@, visited_corners@),
                    vertex_corners_found(
                        self.vertex_corners@,
                        self.corner_to_vertex_map@,
                        visited_vertices@,
                        visited_corners@,
                        stale,
                        good,
                        -1,
                    ),
                decreases 3 - k,
            {
                let c = CornerIndex(first_face_corner.0 + k);
                if visited_corners[c.0 as usize] {
                    k = k + 1;
                    continue;
                }
                let mut v = self.corner_to_vertex_map[c.0 as usize];
                let mut is_non_manifold_vertex = false;
                if visited_vertices[v.0 as usize] {
                    self.vertex_corners.push(CornerIndex::invalid());
                    visited_vertices.push(false);
                    v = VertexIndex(num_vertices as u32);
                    num_vertices = num_vertices + 1;
                    is_non_manifold_vertex = true;
                }
                proof {
                    assert(stale.len() == old_nv);
                }
                let ghost vv0 = visited_vertices@;
                visited_vertices.set(v.0 as usize, true);
                let ghost w0 = visited_corners@;
                let ghost map0 = self.corner_to_vertex_map@;
                let ghost mut ord: Seq<int> = Seq::new(n as nat, |x: int| 0int);
                let ghost mut top: u32 = c.0;
                proof {
                    assert forall|u: int| 0 <= u < self.vertex_corners@.len() && u != v.0 implies #[trigger] visited_vertices@[u]
                        == vv0[u] by {}
                    lemma_count_false_at_most(w0);
                }
                let mut act_c = c;
                let mut steps: usize = 0;
                loop
                    invariant_except_break
                        act_c.0 < n,
                        steps < n,
                        steps == 0 ==> act_c == c,
                        good ==> !visited_corners@[act_c.0 as int],
                        good && steps > 0 ==> swung_left(opp, top) == act_c.0,
                        good && !is_non_manifold_vertex ==> old_map[act_c.0 as int] == v,
                    invariant
                        good && !is_non_manifold_vertex ==> old_map[c.0 as int] == v,
                        n == self.corner_to_vertex_map@.len(),
                        n % 3 == 0,
                        n < INVALID_INDEX,
                        c.0 < n,
                        v.0 < num_vertices,
                        is_non_manifold_vertex ==> old_nv <= v.0,
                        opp == old(self).opposite_corners@,
                        good == opposites_consistent(old_map, opp),
                        self.opposite_corners@ == old(self).opposite_corners@,
                        self.opposite_corners@.len() == n,
                        self.opposites_in_range(),
                        self.num_original_vertices == old_nv,
                        self.num_degenerated_faces == old(self).num_degenerated_faces,
                        self.vertex_corners@.len() == num_vertices,
                        visited_vertices@.len() == num_vertices,
                        visited_vertices@[v.0 as int],
                        visited_corners@.len() == n,
                        forall|x: int|
                            0 <= x < n ==> #[trigger] self.corner_to_vertex_map@[x] == old_map[x] || (old_nv
                                <= self.corner_to_vertex_map@[x].0 < num_vertices),
                        forall|x: int|
                            0 <= x < n && !#[trigger] visited_corners@[x] ==> self.corner_to_vertex_map@[x]
                                == old_map[x],
                        self.vertex_corners_ok(corners_resized(old_vc, old_nv as nat), old_nv),
                        steps <= n,
                        act_c.0 == INVALID_INDEX || act_c.0 < n,
                        w0.len() == n,
                        ord.len() == n,
                        !w0[c.0 as int],
                        forall|x: int| 0 <= x < n && #[trigger] w0[x] ==> visited_corners@[x],
                        good ==> forall|x: int| 0 <= x < n && #[trigger] w0[x] ==> self.corner_to_vertex_map@[x] == map0[x],
                        old_map.len() == n,
                        opp.len() == n,
                        good ==> swings_closed(opp, w0),
                        good ==> swings_same_vertex(opp, map0, w0),
                        good ==> forall|x: int| 0 <= x < n && #[trigger] marked(visited_corners@, x) && !w0[x] ==> self.corner_to_vertex_map@[x] == v,
                        map0.len() == n,
                        good ==> walk_shape(opp, visited_corners@, w0, ord, c.0, 0, steps as int, top, c.0),
                        good ==> count_false(visited_corners@) + steps == count_false(w0),
                        count_false(w0) <= n,
                        steps > 0 ==> visited_corners@[c.0 as int],
                        steps > 0 ==> self.vertex_corners@[v.0 as int] == CornerIndex(top) && top < n,
                        good && steps > 0 ==> visited_corners@[top as int] && !w0[top as int]
                            && self.corner_to_vertex_map@[top as int] == v && ord[top as int] == steps - 1,
                        vertex_corners_found(
                            self.vertex_corners@,
                            self.corner_to_vertex_map@,
                            visited_vertices@,
                            visited_corners@,
                            stale,
                            good,
                            v.0 as int,
                        ),
                        forall|u: int|
                            0 <= u < self.vertex_corners@.len() && u != v.0 && #[trigger] visited_vertices@[u]
                                ==> (good ==> w0[self.vertex_corners@[u].0 as int]),
                    ensures
                        steps >= 1,
                        self.vertex_corners@[v.0 as int] == CornerIndex(top) && top < n,
                        good ==> act_c == c || act_c.0 == INVALID_INDEX,
                        good ==> swung_left(opp, top) == act_c.0,
                        good ==> visited_corners@[top as int] && !w0[top as int] && self.corner_to_vertex_map@[top as int]
                            == v && ord[top as int] == steps - 1,
                        visited_corners@[c.0 as int],
                        good ==> walk_shape(opp, visited_corners@, w0, ord, c.0, 0, steps as int, top, c.0),
                        good && !is_non_manifold_vertex ==> old_map[c.0 as int] == v,
                    decreases n - steps,
                {
                    let ghost vis_before = visited_corners@;
                    visited_corners.set(act_c.0 as usize, true);
                    self.vertex_corners.set(v.0 as usize, act_c);
                    if is_non_manifold_vertex {
                        self.corner_to_vertex_map.set(act_c.0 as usize, v);
                    }
                    proof {
                        assert(previous_corner(act_c.0) < n);
                        let o = self.opposite_corners@[previous_corner(act_c.0) as int].0;
                        assert(corner_in_range(o, n as int));
                        if o != INVALID_INDEX {
                            assert(previous_corner(o) < n);
                        }
                        if good {
                            lemma_count_false_mark(vis_before, act_c.0 as int);
                            let ord_old = ord;
                            let old_top = top;
                            if steps > 0 {
                                lemma_swings(old_map, opp, old_top);
                                assert(walk_pos(ord_old, old_top as int) == ord_old[old_top as int]);
                            }
                            ord = ord.update(act_c.0 as int, steps as int);
                            assert forall|x: int|
                                0 <= x < visited_corners@.len() && visited_corners@[x] && !w0[x] implies {
                                &&& 0 <= #[trigger] walk_pos(ord, x) < steps + 1
                                &&& (ord[x] == 0 <==> x == c.0)
                                &&& ord[x] == steps + 1 - 1 ==> x == act_c.0
                                &&& ord[x] == 0 ==> x == c.0
                                &&& 0 < ord[x] ==> {
                                    let y = swung_right(opp, x as u32);
                                    y < visited_corners@.len() && visited_corners@[y as int] && !w0[y as int] && ord[y as int]
                                        == ord[x] - 1
                                }
                                &&& ord[x] < steps + 1 - 1 ==> {
                                    let y = swung_left(opp, x as u32);
                                    y < visited_corners@.len() && visited_corners@[y as int] && !w0[y as int] && ord[y as int]
                                        == ord[x] + 1
                                }
                            } by {
                                if x != act_c.0 {
                                    assert(vis_before[x]);
                                    assert(walk_pos(ord_old, x) == ord_old[x]);
                                    let yl = swung_left(opp, x as u32);
                                    let yr = swung_right(opp, x as u32);
                                    if ord_old[x] < steps - 1 {
                                        assert(yl != act_c.0);
                                    }
                                    if 0 < ord_old[x] {
                                        assert(yr != act_c.0);
                                    }
                                }
                            }
                            assert(walk_shape(opp, visited_corners@, w0, ord, c.0, 0, steps + 1, act_c.0, c.0));
                            assert(!vis_before[act_c.0 as int]);
                            assert(self.corner_to_vertex_map@[act_c.0 as int] == v);
                            assert forall|x: int|
                                0 <= x < n && #[trigger] marked(visited_corners@, x) && !w0[x] implies self.corner_to_vertex_map@[x]
                                == v by {
                                if x != act_c.0 {
                                    assert(marked(vis_before, x));
                                }
                            }
                        }
                        top = act_c.0;
                    }
                    act_c = self.swing_left(act_c);
                    steps = steps + 1;
                    if act_c == c {
                        break;
                    }
                    if act_c.0 == INVALID_INDEX {
                        break;
                    }
                    proof {
                        if good {
                            lemma_swings(old_map, opp, top);
                            assert(walk_pos(ord, top as int) == ord[top as int]);
                            if visited_corners@[act_c.0 as int] {
                                if w0[act_c.0 as int] {
                                    assert(swings_closed(opp, w0));
                                    assert(marked(w0, act_c.0 as int));
                                } else {
                                    assert(walk_pos(ord, act_c.0 as int) == ord[act_c.0 as int]);
                                }
                                assert(false);
                            }
                            lemma_count_false_mark(visited_corners@, act_c.0 as int);
                        }
                    }
                    if steps >= n {
                        break;
                    }
                }
                let ghost hi: int = steps as int;
                let ghost mut bot: u32 = c.0;
                let ghost mut lo_end: int = 0;
                if act_c.0 == INVALID_INDEX {
                    proof {
                        assert(next_corner(c.0) < n);
                        let o = self.opposite_corners@[next_corner(c.0) as int].0;
                        assert(corner_in_range(o, n as int));
                        if o != INVALID_INDEX {
                            assert(next_corner(o) < n);
                        }
                    }
                    act_c = self.swing_right(c);
                    proof {
                        if good {
                            lemma_swings(old_map, opp, c.0);
                            assert(walk_pos(ord, c.0 as int) == ord[c.0 as int]);
                            assert(walk_pos(ord, top as int) == ord[top as int]);
                            if act_c.0 != INVALID_INDEX && visited_corners@[act_c.0 as int] {
                                if w0[act_c.0 as int] {
                                    assert(swings_closed(opp, w0));
                                    assert(marked(w0, act_c.0 as int));
                                } else {
                                    assert(walk_pos(ord, act_c.0 as int) == ord[act_c.0 as int]);
                                }
                                assert(false);
                            }
                        }
                    }
                    let mut steps2: usize = 0;
                    while act_c.0 != INVALID_INDEX && steps2 < n
                        invariant
                            n == self.corner_to_vertex_map@.len(),
                            n % 3 == 0,
                            n < INVALID_INDEX,
                            c.0 < n,
                            v.0 < num_vertices,
                            is_non_manifold_vertex ==> old_nv <= v.0,
                            opp == old(self).opposite_corners@,
                            good == opposites_consistent(old_map, opp),
                            self.opposite_corners@ == old(self).opposite_corners@,
                            self.opposite_corners@.len() == n,
                            self.opposites_in_range(),
                            self.num_original_vertices == old_nv,
                            self.num_degenerated_faces == old(self).num_degenerated_faces,
                            self.vertex_corners@.len() == num_vertices,
                            visited_vertices@.len() == num_vertices,
                            visited_vertices@[v.0 as int],
                            visited_corners@.len() == n,
                            forall|x: int|
                                0 <= x < n ==> #[trigger] self.corner_to_vertex_map@[x] == old_map[x] || (old_nv
                                    <= self.corner_to_vertex_map@[x].0 < num_vertices),
                            forall|x: int|
                                0 <= x < n && !#[trigger] visited_corners@[x] ==> self.corner_to_vertex_map@[x]
                                    == old_map[x],
                            self.vertex_corners_ok(corners_resized(old_vc, old_nv as nat), old_nv),
                            steps2 <= n,
                            act_c.0 == INVALID_INDEX || act_c.0 < n,
                            w0.len() == n,
                            ord.len() == n,
                            !w0[c.0 as int],
                            hi >= 1,
                            bot < n,
                            top < n,
                            forall|x: int| 0 <= x < n && #[trigger] w0[x] ==> visited_corners@[x],
                            good ==> forall|x: int| 0 <= x < n && #[trigger] w0[x] ==> self.corner_to_vertex_map@[x] == map0[x],
                        old_map.len() == n,
                        opp.len() == n,
                            good ==> swings_closed(opp, w0),
                        good ==> swings_same_vertex(opp, map0, w0),
                        good ==> forall|x: int| 0 <= x < n && #[trigger] marked(visited_corners@, x) && !w0[x] ==> self.corner_to_vertex_map@[x] == v,
                        map0.len() == n,
                            good ==> walk_shape(opp, visited_corners@, w0, ord, c.0, -(steps2 as int), hi, top, bot),
                            good ==> count_false(visited_corners@) + hi + steps2 == count_false(w0),
                            count_false(w0) <= n,
                            good ==> swung_left(opp, top) == INVALID_INDEX,
                            good ==> swung_right(opp, bot) == act_c.0,
                            good ==> act_c.0 == INVALID_INDEX || !visited_corners@[act_c.0 as int],
                            good && !is_non_manifold_vertex && act_c.0 != INVALID_INDEX ==> old_map[act_c.0 as int] == v,
                            good && !is_non_manifold_vertex ==> old_map[c.0 as int] == v,
                            good ==> visited_corners@[bot as int] && !w0[bot as int] && ord[bot as int] == -(steps2 as int),
                            good ==> ord[top as int] == hi - 1,
                            visited_corners@[c.0 as int],
                            self.vertex_corners@[v.0 as int] == CornerIndex(top),
                            good ==> visited_corners@[top as int] && !w0[top as int]
                                && self.corner_to_vertex_map@[top as int] == v,
                            vertex_corners_found(
                                self.vertex_corners@,
                                self.corner_to_vertex_map@,
                                visited_vertices@,
                                visited_corners@,
                                stale,
                                good,
                                v.0 as int,
                            ),
                            forall|u: int|
                                0 <= u < self.vertex_corners@.len() && u != v.0 && #[trigger] visited_vertices@[u]
                                    ==> (good ==> w0[self.vertex_corners@[u].0 as int]),
                        decreases n - steps2,
                    {
                        let ghost vis_before = visited_corners@;
                        visited_corners.set(act_c.0 as usize, true);
                        if is_non_manifold_vertex {
                            self.corner_to_vertex_map.set(act_c.0 as usize, v);
                        }
                        proof {
                            assert(next_corner(act_c.0) < n);
                            let o = self.opposite_corners@[next_corner(act_c.0) as int].0;
                            assert(corner_in_range(o, n as int));
                            if o != INVALID_INDEX {
                                assert(next_corner(o) < n);
                            }
                            if good {
                                lemma_count_false_mark(vis_before, act_c.0 as int);
                                let ord_old = ord;
                                let old_bot = bot;
                                lemma_swings(old_map, opp, old_bot);
                                assert(walk_pos(ord_old, old_bot as int) == ord_old[old_bot as int]);
                                let lo = -(steps2 as int);
                                ord = ord.update(act_c.0 as int, lo - 1);
                                assert forall|x: int|
                                    0 <= x < visited_corners@.len() && visited_corners@[x] && !w0[x] implies {
                                    &&& lo - 1 <= #[trigger] walk_pos(ord, x) < hi
                                    &&& (ord[x] == 0 <==> x == c.0)
                                    &&& ord[x] == hi - 1 ==> x == top
                                    &&& ord[x] == lo - 1 ==> x == act_c.0
                                    &&& lo - 1 < ord[x] ==> {
                                        let y = swung_right(opp, x as u32);
                                        y < visited_corners@.len() && visited_corners@[y as int] && !w0[y as int]
                                            && ord[y as int] == ord[x] - 1
                                    }
                                    &&& ord[x] < hi - 1 ==> {
                                        let y = swung_left(opp, x as u32);
                                        y < visited_corners@.len() && visited_corners@[y as int] && !w0[y as int]
                                            && ord[y as int] == ord[x] + 1
                                    }
                                } by {
                                    if x != act_c.0 {
                                        assert(vis_before[x]);
                                        assert(walk_pos(ord_old, x) == ord_old[x]);
                                        let yl = swung_left(opp, x as u32);
                                        let yr = swung_right(opp, x as u32);
                                        if ord_old[x] < hi - 1 {
                                            assert(yl != act_c.0);
                                        }
                                        if lo < ord_old[x] {
                                            assert(yr != act_c.0);
                                        }
                                    }
                                }
                                assert(walk_shape(opp, visited_corners@, w0, ord, c.0, lo - 1, hi, top, act_c.0));
                                assert(!vis_before[act_c.0 as int]);
                                assert(self.corner_to_vertex_map@[act_c.0 as int] == v);
                                assert forall|x: int|
                                    0 <= x < n && #[trigger] marked(visited_corners@, x) && !w0[x] implies self.corner_to_vertex_map@[x]
                                    == v by {
                                    if x != act_c.0 {
                                        assert(marked(vis_before, x));
                                    }
                                }
                            }
                            bot = act_c.0;
                        }
                        act_c = self.swing_right(act_c);
                        steps2 = steps2 + 1;
                        proof {
                            if good {
                                lemma_swings(old_map, opp, bot);
                                assert(old_map[bot as int] == v || is_non_manifold_vertex);
                                assert(walk_pos(ord, bot as int) == ord[bot as int]);
                                assert(walk_pos(ord, top as int) == ord[top as int]);
                                if act_c.0 != INVALID_INDEX && visited_corners@[act_c.0 as int] {
                                    if w0[act_c.0 as int] {
                                        assert(swings_closed(opp, w0));
                                        assert(marked(w0, act_c.0 as int));
                                    } else {
                                        assert(walk_pos(ord, act_c.0 as int) == ord[act_c.0 as int]);
                                    }
                                    assert(false);
                                }
                            }
                        }
                    }
                    proof {
                        if good && act_c.0 != INVALID_INDEX {
                            lemma_count_false_mark(visited_corners@, act_c.0 as int);
                        }
                        lo_end = -(steps2 as int);
                    }
                }
                proof {
                    if good {
                        lemma_walk_closed(
                            old_map,
                            self.corner_to_vertex_map@,
                            map0,
                            v,
                            opp,
                            visited_corners@,
                            w0,
                            ord,
                            c.0,
                            lo_end,
                            hi,
                            top,
                            bot,
                        );
                    }
                }
                k = k + 1;
            }
            f = f + 1;
        }
        proof {
            if good {
                let map = self.corner_to_vertex_map@;
                let vis = visited_corners@;
                assert forall|c: int| 0 <= c < opp.len() implies (#[trigger] opp[c]).0 == INVALID_INDEX || opposite_pair(
                    map,
                    opp,
                    c,
                ) by {
                    if opp[c].0 != INVALID_INDEX {
                        assert(opposite_pair(old_map, opp, c));
                        let o = opp[c].0;
                        let x = next_corner(c as u32);
                        let y = previous_corner(c as u32);
                        assert(previous_corner(x) == c as u32);
                        assert(next_corner(y) == c as u32);
                        assert(swung_left(opp, x) == previous_corner(o));
                        assert(swung_right(opp, y) == next_corner(o));
                        lemma_swings(old_map, opp, x);
                        lemma_swings(old_map, opp, y);
                        if vis[x as int] {
                            assert(marked(vis, x as int));
                        } else if vis[previous_corner(o) as int] {
                            assert(marked(vis, previous_corner(o) as int));
                        }
                        if vis[y as int] {
                            assert(marked(vis, y as int));
                        } else if vis[next_corner(o) as int] {
                            assert(marked(vis, next_corner(o) as int));
                        }
                    }
                }
            }
        }
        let mut isolated: usize = 0;
        let mut i: usize = 0;
        while i < visited_vertices.len()
            invariant
                i <= visited_vertices@.len(),
                isolated <= i,
                visited_vertices@.len() == self.vertex_corners@.len(),
                n == self.corner_to_vertex_map@.len(),
                stale == corners_resized(old_vc, old_nv as nat),
                vertex_corners_found(
                    self.vertex_corners@,
                    self.corner_to_vertex_map@,
                    visited_vertices@,
                    visited_corners@,
                    stale,
                    good,
                    -1,
                ),
                n < INVALID_INDEX,
                good ==> opposites_consistent(self.corner_to_vertex_map@, opp),
                (forall|u: int| 0 <= u < old_vc.len() ==> (#[trigger] old_vc[u]).0 == INVALID_INDEX) ==> isolated
                    == count_invalid_corners(self.vertex_corners@, i as int),
            decreases visited_vertices@.len() - i,
        {
            proof {
                if forall|u: int| 0 <= u < old_vc.len() ==> (#[trigger] old_vc[u]).0 == INVALID_INDEX {
                    let u = i as int;
                    assert(visited_vertices@[u] || !visited_vertices@[u]);
                    if u < old_vc.len() && u < old_nv {
                        assert(old_vc[u].0 == INVALID_INDEX);
                    }
                }
            }
            if !visited_vertices[i] {
                isolated = isolated + 1;
            }
            i = i + 1;
        }
        self.num_isolated_vertices = isolated;
        proof {
            if good {
                assert forall|v: int| 0 <= v < self.vertex_corners@.len() implies {
                    let x = (#[trigger] self.vertex_corners@[v]).0;
                    ||| self.vertex_corners@[v] == stale_at(stale, v)
                    ||| x < self.corner_to_vertex_map@.len() && self.corner_to_vertex_map@[x as int].0 == v
                } by {
                    assert(vertex_corners_found(
                        self.vertex_corners@,
                        self.corner_to_vertex_map@,
                        visited_vertices@,
                        visited_corners@,
                        stale,
                        good,
                        -1,
                    ));
                    if visited_vertices@[v] {
                    } else {
                    }
                }
            }
        }
        true
    }
}

/// The corner-to-vertex map of a list of faces: corner `c` is corner
/// `c % 3` of face `c / 3`.
pub open spec fn face_map(faces: Seq<[VertexIndex; 3]>) -> Seq<VertexIndex> {
    Seq::new((3 * faces.len()) as nat, |c: int| faces[c / 3]@[c % 3])
}

/// Corners `c` and `o` face the same edge from two sides, in different
/// places.
pub open spec fn same_edge(m: Seq<VertexIndex>, c: int, o: int) -> bool {
    &&& o != c
    &&& m[next_corner(c as u32) as int] == m[previous_corner(o as u32) as int]
    &&& m[previous_corner(c as u32) as int] == m[next_corner(o as u32) as int]
}

/// Face `f` of the map `m` repeats a vertex.
pub open spec fn face_degenerated(m: Seq<VertexIndex>, f: int) -> bool {
    m[3 * f] == m[3 * f + 1] || m[3 * f] == m[3 * f + 2] || m[3 * f + 1] == m[3 * f + 2]
}

/// Number of faces among the first `k` of `m` that repeat a vertex.
pub open spec fn count_degenerated(m: Seq<VertexIndex>, k: int) -> nat
    decreases k,
{
    if k <= 0 {
        0
    } else {
        count_degenerated(m, k - 1) + if face_degenerated(m, k - 1) {
            1nat
        } else {
            0nat
        }
    }
}

/// Number of invalid corners among the first `k` entries of `s`.
pub open spec fn count_invalid_corners(s: Seq<CornerIndex>, k: int) -> nat
    decreases k,
{
    if k <= 0 {
        0
    } else {
        count_invalid_corners(s, k - 1) + if s[k - 1].0 == INVALID_INDEX {
            1nat
        } else {
            0nat
        }
    }
}

/// A corner of a face that does not repeat a vertex faces its edge from a
/// corner of another face.
pub proof fn lemma_opposite_in_other_face(m: Seq<VertexIndex>, c: int, o: int)
    requires
        m.len() % 3 == 0,
        m.len() < INVALID_INDEX,
        0 <= c < m.len(),
        0 <= o < m.len(),
        same_edge(m, c, o),
        !face_degenerated(m, c / 3),
    ensures
        o / 3 != c / 3,
{
    if o / 3 == c / 3 {
        assert(3 * (c / 3) + 2 < m.len());
    }
}

impl CornerTable {
    /// Builds the table of `faces`: maps the corners to the faces' vertices,
    /// pairs up opposite corners, breaks non-manifold edges, records a corner
    /// for each vertex (splitting non-manifold vertices), and counts the
    /// degenerate faces and the vertices without a corner.
    pub fn init(&mut self, faces: &[[VertexIndex; 3]]) -> (r: bool)
        requires
            3 * faces@.len() < INVALID_INDEX,
            forall|f: int, i: int|
                0 <= f < faces@.len() && 0 <= i < 3 ==> #[trigger] faces@[f]@[i].0 + 3 * faces@.len() < INVALID_INDEX,
            forall|c: int|
                0 <= c < old(self).opposite_corners@.len() ==> corner_in_range(
                    #[trigger] old(self).opposite_corners@[c].0,
                    (3 * faces@.len()) as int,
                ),
        ensures
            r,
            ({
                let n = 3 * faces@.len();
                let fm = face_map(faces@);
                let nv = final(self).num_original_vertices;
                &&& final(self).corner_to_vertex_map@.len() == n
                &&& final(self).opposite_corners@.len() == n
                &&& final(self).opposites_in_range()
                &&& forall|c: int|
                    0 <= c < n ==> {
                        let o = (#[trigger] final(self).opposite_corners@[c]).0;
                        ||| o == INVALID_INDEX
                        ||| final(self).opposite_corners@[c] == corners_resized(old(self).opposite_corners@, n as nat)[c]
                        ||| same_edge(fm, c, o as int) && !face_degenerated(fm, c / 3) && o / 3 != c / 3
                    }
                &&& forall|c: int|
                    0 <= c < n && face_degenerated(fm, c / 3) ==> (#[trigger] final(self).opposite_corners@[c]).0
                        == INVALID_INDEX || final(self).opposite_corners@[c] == corners_resized(
                        old(self).opposite_corners@,
                        n as nat,
                    )[c]
                &&& (forall|c: int|
                    0 <= c < old(self).opposite_corners@.len() ==> (#[trigger] old(self).opposite_corners@[c]).0
                        == INVALID_INDEX) ==> opposites_consistent(fm, final(self).opposite_corners@)
                &&& forall|c: int| 0 <= c < n ==> (#[trigger] fm[c]).0 < nv
                &&& nv == 0 || exists|c: int| 0 <= c < n && (#[trigger] fm[c]).0 == nv - 1
                &&& forall|c: int|
                    0 <= c < n ==> #[trigger] final(self).corner_to_vertex_map@[c] == fm[c] || (nv
                        <= final(self).corner_to_vertex_map@[c].0 < final(self).vertex_corners@.len())
                &&& nv <= final(self).vertex_corners@.len() <= nv + n
                &&& final(self).vertex_corners_ok(corners_resized(old(self).vertex_corners@, nv as nat), nv as int)
                &&& final(self).num_degenerated_faces == count_degenerated(
                    final(self).corner_to_vertex_map@,
                    faces@.len() as int,
                )
                &&& final(self).num_isolated_vertices == count_invalid_corners(
                    final(self).vertex_corners@,
                    final(self).vertex_corners@.len() as int,
                )
                &&& (forall|c: int|
                    0 <= c < old(self).opposite_corners@.len() ==> (#[trigger] old(self).opposite_corners@[c]).0
                        == INVALID_INDEX) ==> opposites_consistent(
                    final(self).corner_to_vertex_map@,
                    final(self).opposite_corners@,
                )
                &&& (forall|c: int|
                    0 <= c < old(self).opposite_corners@.len() ==> (#[trigger] old(self).opposite_corners@[c]).0
                        == INVALID_INDEX) ==> forall|v: int|
                    0 <= v < final(self).vertex_corners@.len() ==> {
                        let x = (#[trigger] final(self).vertex_corners@[v]).0;
                        ||| final(self).vertex_corners@[v] == stale_at(
                            corners_resized(old(self).vertex_corners@, nv as nat),
                            v,
                        )
                        ||| x < n && final(self).corner_to_vertex_map@[x as int].0 == v
                    }
            }),
    {
        let ghost fm = face_map(faces@);
        let ghost old_opp = self.opposite_corners@;
        let nf = faces.len();
        let n = nf * 3;
        self.corner_to_vertex_map.clear();
        let mut fi: usize = 0;
        while fi < nf
            invariant
                nf == faces@.len(),
                n == 3 * nf,
                fi <= nf,
                fm == face_map(faces@),
                self.corner_to_vertex_map@ == fm.subrange(0, 3 * fi as int),
                self.opposite_corners@ == old_opp,
                self.vertex_corners@ == old(self).vertex_corners@,
            decreases nf - fi,
        {
            let face = faces[fi];
            self.corner_to_vertex_map.push(face[0]);
            self.corner_to_vertex_map.push(face[1]);
            self.corner_to_vertex_map.push(face[2]);
            proof {
                assert(self.corner_to_vertex_map@ =~= fm.subrange(0, 3 * fi + 3));
            }
            fi = fi + 1;
        }
        proof {
            assert(self.corner_to_vertex_map@ =~= fm);
            assert forall|c: int| 0 <= c < self.opposite_corners@.len() implies corner_in_range(
                #[trigger] self.opposite_corners@[c].0,
                self.corner_to_vertex_map@.len() as int,
            ) by {
                assert(corner_in_range(old_opp[c].0, (3 * faces@.len()) as int));
            }
            assert forall|c: int| 0 <= c < self.corner_to_vertex_map@.len() implies #[trigger] self.corner_to_vertex_map@[c].0
                != INVALID_INDEX by {
                assert(faces@[c / 3]@[c % 3].0 + 3 * faces@.len() < INVALID_INDEX);
            }
        }
        let mut num_vertices: usize = 0;
        if !self.compute_opposite_corners(&mut num_vertices) {
            return false;
        }
        let ghost opp1 = self.opposite_corners@;
        if !self.break_non_manifold_edges() {
            return false;
        }
        let ghost opp2 = self.opposite_corners@;
        proof {
            assert forall|c: int| 0 <= c < n implies {
                let o = (#[trigger] opp2[c]).0;
                ||| o == INVALID_INDEX
                ||| opp2[c] == corners_resized(old_opp, n as nat)[c]
                ||| same_edge(fm, c, o as int) && !face_degenerated(fm, c / 3) && o / 3 != c / 3
            } by {
                assert(opp2[c] == opp1[c] || opp2[c].0 == INVALID_INDEX);
                assert(opp1[c] == corners_resized(old_opp, n as nat)[c] || opposite_pair(fm, opp1, c)
                    && !face_degenerated(fm, c / 3));
                if opp2[c] == opp1[c] && opp1[c] != corners_resized(old_opp, n as nat)[c] {
                    lemma_opposite_in_other_face(fm, c, opp1[c].0 as int);
                }
            }
            assert forall|c: int| 0 <= c < n && face_degenerated(fm, c / 3) implies (#[trigger] opp2[c]).0
                == INVALID_INDEX || opp2[c] == corners_resized(old_opp, n as nat)[c] by {
                assert(opp2[c] == opp1[c] || opp2[c].0 == INVALID_INDEX);
                assert(opp1[c] == corners_resized(old_opp, n as nat)[c] || opposite_pair(fm, opp1, c)
                    && !face_degenerated(fm, c / 3));
            }
            if forall|c: int| 0 <= c < old_opp.len() ==> (#[trigger] old_opp[c]).0 == INVALID_INDEX {
                assert forall|c: int| 0 <= c < opp1.len() implies (#[trigger] opp1[c]).0 == INVALID_INDEX
                    || opposite_pair(fm, opp1, c) by {
                    if c < old_opp.len() {
                        assert(old_opp[c].0 == INVALID_INDEX);
                    }
                }
            }
        }
        if !self.compute_vertex_corners(num_vertices) {
            return false;
        }
        let ghost nv = num_vertices;
        let mut num_degenerated: usize = 0;
        let mut f: usize = 0;
        let faces_count = self.num_faces();
        while f < faces_count
            invariant
                faces_count == nf,
                n == 3 * nf,
                n < INVALID_INDEX,
                self.corner_to_vertex_map@.len() == n,
                f <= faces_count,
                num_degenerated == count_degenerated(self.corner_to_vertex_map@, f as int),
                num_degenerated <= f,
            decreases faces_count - f,
        {
            if self.is_degenerated(FaceIndex(f as u32)) {
                num_degenerated = num_degenerated + 1;
            }
            f = f + 1;
        }
        self.num_degenerated_faces = num_degenerated;
        let mut num_isolated: usize = 0;
        let mut v: usize = 0;
        let nvc = self.num_vertices();
        while v < nvc
            invariant
                nvc == self.vertex_corners@.len(),
                v <= nvc,
                num_isolated == count_invalid_corners(self.vertex_corners@, v as int),
                num_isolated <= v,
            decreases nvc - v,
        {
            if self.vertex_corners[v].0 == INVALID_INDEX {
                num_isolated = num_isolated + 1;
            }
            v = v + 1;
        }
        self.num_isolated_vertices = num_isolated;
        true
    }
}
} // verus!
