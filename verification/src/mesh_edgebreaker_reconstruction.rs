//! Rebuilding the faces of a mesh from its Edgebreaker symbols, topology
//! split events, start-face bits and seam bits.
//!
//! Symbols are decoded in reverse order of encoding: E starts a component
//! with three new vertices, C closes a face between the active corner and
//! the corner after the left-most corner of the vertex opposite it, L and R
//! add one new vertex, S joins two active corners and merges two vertices.
//! Remaining active corners are then closed by start faces, seams are read
//! for each attribute, and the vertices still in use are renumbered in
//! increasing order.
use crate::corner_table::{next_corner, previous_corner};
use crate::error::DracoError;
use crate::geometry_indices::{FaceIndex, PointIndex, INVALID_INDEX};
use crate::mesh::Mesh;
use crate::mesh_edgebreaker_shared::{EdgeFaceName, TopologySplitEventData};
use vstd::prelude::*;

verus! {

/// The corners of the faces being rebuilt: the vertex and the opposite
/// corner of each corner (the invalid index for none), and the left-most
/// corner recorded for each vertex (the invalid index for none).
struct RecTable {
    verts: Vec<u32>,
    opps: Vec<u32>,
    lmc: Vec<u32>,
}

impl RecTable {
    /// `n` corners, vertices below `cap`, every stored corner below `n` or
    /// invalid.
    spec fn ok(&self, n: nat, cap: nat) -> bool {
        &&& self.verts@.len() == n
        &&& self.opps@.len() == n
        &&& self.lmc@.len() == cap
        &&& n < INVALID_INDEX
        &&& forall|c: int| 0 <= c < n ==> #[trigger] self.verts@[c] < cap
        &&& forall|c: int| 0 <= c < n ==> #[trigger] self.opps@[c] == INVALID_INDEX || self.opps@[c] < n
        &&& forall|v: int| 0 <= v < cap ==> #[trigger] self.lmc@[v] == INVALID_INDEX || self.lmc@[v] < n
    }

    fn new(n: usize, cap: usize) -> (r: Self)
        requires
            n < INVALID_INDEX,
            cap > 0,
        ensures
            r.ok(n as nat, cap as nat),
            r.verts@ == Seq::new(n as nat, |c: int| 0u32),
            r.opps@ == Seq::new(n as nat, |c: int| INVALID_INDEX),
            r.lmc@ == Seq::new(cap as nat, |v: int| INVALID_INDEX),
    {
        let mut verts: Vec<u32> = Vec::new();
        let mut opps: Vec<u32> = Vec::new();
        let mut i: usize = 0;
        while i < n
            invariant
                i <= n,
                verts@.len() == i,
                opps@.len() == i,
                forall|c: int| 0 <= c < i ==> #[trigger] verts@[c] == 0,
                forall|c: int| 0 <= c < i ==> #[trigger] opps@[c] == INVALID_INDEX,
            decreases n - i,
        {
            verts.push(0);
            opps.push(INVALID_INDEX);
            i = i + 1;
        }
        let mut lmc: Vec<u32> = Vec::new();
        let mut v: usize = 0;
        while v < cap
            invariant
                v <= cap,
                lmc@.len() == v,
                forall|x: int| 0 <= x < v ==> #[trigger] lmc@[x] == INVALID_INDEX,
            decreases cap - v,
        {
            lmc.push(INVALID_INDEX);
            v = v + 1;
        }
        assert(verts@ =~= Seq::new(n as nat, |c: int| 0u32));
        assert(opps@ =~= Seq::new(n as nat, |c: int| INVALID_INDEX));
        assert(lmc@ =~= Seq::new(cap as nat, |v: int| INVALID_INDEX));
        RecTable { verts, opps, lmc }
    }

    fn vertex(&self, c: u32, Ghost(n): Ghost<nat>, Ghost(cap): Ghost<nat>) -> (r: u32)
        requires
            self.ok(n, cap),
            c < n,
        ensures
            r == self.verts@[c as int],
            r < cap,
    {
        self.verts[c as usize]
    }

    fn opposite(&self, c: u32, Ghost(n): Ghost<nat>, Ghost(cap): Ghost<nat>) -> (r: u32)
        requires
            self.ok(n, cap),
            c < n,
        ensures
            r == self.opps@[c as int],
            r == INVALID_INDEX || r < n,
    {
        self.opps[c as usize]
    }

    fn left_most(&self, v: u32, Ghost(n): Ghost<nat>, Ghost(cap): Ghost<nat>) -> (r: u32)
        requires
            self.ok(n, cap),
            v < cap,
        ensures
            r == self.lmc@[v as int],
            r == INVALID_INDEX || r < n,
    {
        self.lmc[v as usize]
    }

    fn map(&mut self, c: u32, v: u32, Ghost(n): Ghost<nat>, Ghost(cap): Ghost<nat>)
        requires
            old(self).ok(n, cap),
            c < n,
            v < cap,
        ensures
            final(self).ok(n, cap),
            final(self).verts@ == old(self).verts@.update(c as int, v),
            final(self).opps@ == old(self).opps@,
            final(self).lmc@ == old(self).lmc@,
    {
        self.verts.set(c as usize, v);
    }

    fn link(&mut self, c1: u32, c2: u32, Ghost(n): Ghost<nat>, Ghost(cap): Ghost<nat>)
        requires
            old(self).ok(n, cap),
            c1 < n,
            c2 < n,
        ensures
            final(self).ok(n, cap),
            final(self).verts@ == old(self).verts@,
            final(self).opps@ == old(self).opps@.update(c1 as int, c2).update(c2 as int, c1),
            final(self).lmc@ == old(self).lmc@,
    {
        self.opps.set(c1 as usize, c2);
        self.opps.set(c2 as usize, c1);
    }

    fn set_left_most(&mut self, v: u32, c: u32, Ghost(n): Ghost<nat>, Ghost(cap): Ghost<nat>)
        requires
            old(self).ok(n, cap),
            v < cap,
            c == INVALID_INDEX || c < n,
        ensures
            final(self).ok(n, cap),
            final(self).verts@ == old(self).verts@,
            final(self).opps@ == old(self).opps@,
            final(self).lmc@ == old(self).lmc@.update(v as int, c),
    {
        self.lmc.set(v as usize, c);
    }
}

/// The next corner of a face (`c` is a corner).
fn nxt(c: u32) -> (r: u32)
    requires
        c < INVALID_INDEX,
    ensures
        r == next_corner(c),
{
    if c % 3 == 2 {
        c - 2
    } else {
        c + 1
    }
}

/// The previous corner of a face (`c` is a corner).
fn prv(c: u32) -> (r: u32)
    requires
        c < INVALID_INDEX,
    ensures
        r == previous_corner(c),
{
    if c % 3 == 0 {
        c + 2
    } else {
        c - 1
    }
}

proof fn lemma_face_corners(c: u32, n: nat)
    requires
        c < n,
        n % 3 == 0,
        n < INVALID_INDEX,
    ensures
        next_corner(c) < n,
        previous_corner(c) < n,
{
}

/// The opposite corners `o` with `c1` and `c2` made each other's opposite.
pub open spec fn linked(o: Seq<u32>, c1: u32, c2: u32) -> Seq<u32> {
    o.update(c1 as int, c2).update(c2 as int, c1)
}

/// A state of the rebuilding: the vertex, opposite corner and left-most
/// corner tables, the stack of active corners, the active corner recorded
/// for each split symbol, the next new vertex, the corner at which each
/// vertex was created, and the number of components found.
pub type RecState = (Seq<u32>, Seq<u32>, Seq<u32>, Seq<u32>, Seq<u32>, u32, Seq<u32>, usize);

/// Walking left around a vertex from corner `act` (the walk started at
/// `first`), mapping each corner met to `vp`: the vertices at the end, or
/// none when the walk comes back to `first` or runs past `fuel` steps.
pub open spec fn walk_left(verts: Seq<u32>, opps: Seq<u32>, act: u32, first: u32, vp: u32, fuel: nat) -> Option<Seq<u32>>
    decreases fuel,
{
    let v1 = verts.update(act as int, vp);
    let o = opps[previous_corner(act) as int];
    if o == INVALID_INDEX {
        Some(v1)
    } else if previous_corner(o) == first || fuel <= 1 {
        None
    } else {
        walk_left(v1, opps, previous_corner(o), first, vp, (fuel - 1) as nat)
    }
}

/// Walking right around a vertex, as `walk_left` walks left.
pub open spec fn walk_right(verts: Seq<u32>, opps: Seq<u32>, act: u32, first: u32, vp: u32, fuel: nat) -> Option<Seq<u32>>
    decreases fuel,
{
    let v1 = verts.update(act as int, vp);
    let o = opps[next_corner(act) as int];
    if o == INVALID_INDEX {
        Some(v1)
    } else if next_corner(o) == first || fuel <= 1 {
        None
    } else {
        walk_right(v1, opps, next_corner(o), first, vp, (fuel - 1) as nat)
    }
}

/// `verts` with every corner on vertex `vn` moved to `vp`.
pub open spec fn replaced(verts: Seq<u32>, vn: u32, vp: u32) -> Seq<u32> {
    Seq::new(verts.len(), |c: int| if verts[c] == vn { vp } else { verts[c] })
}

/// An E symbol decoded into the face at corner `c`: three new vertices.
pub open spec fn end_step(s: RecState, c: u32, maxv: nat) -> Option<RecState> {
    let (verts, opps, lmc, st, sa, np, v2c, nc) = s;
    if maxv < 3 || np > maxv - 3 {
        None
    } else {
        let v0 = np;
        let v1 = (np + 1) as u32;
        let v2 = (np + 2) as u32;
        Some(
            (
                verts.update(c as int, v0).update(c + 1, v1).update(c + 2, v2),
                opps,
                lmc.update(v0 as int, c).update(v1 as int, (c + 1) as u32).update(v2 as int, (c + 2) as u32),
                st.push(c),
                sa,
                (np + 3) as u32,
                v2c.update(v0 as int, c).update(v1 as int, (c + 1) as u32).update(v2 as int, (c + 2) as u32),
                1usize,
            ),
        )
    }
}

/// A C symbol decoded into the face at corner `c`.
pub open spec fn center_step(s: RecState, c: u32) -> Option<RecState> {
    let (verts, opps, lmc, st, sa, np, v2c, nc) = s;
    if st.len() == 0 {
        None
    } else {
        let a = st.last();
        let vx = verts[next_corner(a) as int];
        let l = lmc[vx as int];
        if l == INVALID_INDEX {
            None
        } else {
            let b = next_corner(l);
            if a == b || opps[a as int] != INVALID_INDEX || opps[b as int] != INVALID_INDEX {
                None
            } else {
                let vap = verts[previous_corner(a) as int];
                let vbn = verts[next_corner(b) as int];
                if vx == vap || vx == vbn {
                    None
                } else {
                    Some(
                        (
                            verts.update(c as int, vx).update(c + 1, vbn).update(c + 2, vap),
                            linked(linked(opps, a, (c + 1) as u32), b, (c + 2) as u32),
                            lmc.update(vap as int, (c + 2) as u32),
                            st.update(st.len() - 1, c),
                            sa,
                            np,
                            v2c,
                            nc,
                        ),
                    )
                }
            }
        }
    }
}

/// For a C symbol decoded into the face at corner `c`, the new face closes
/// the gap between the active corner `a` and the corner `b` after the
/// left-most corner of the vertex after `a`, oriented as both faces across
/// it: the corners opposite `a` and `b` are two different corners of the new
/// face, and for each of them the corners after and before it hold the
/// vertices before and after `a` (or `b`), so each shared edge is walked
/// one way in each face. Here `a` and `b` lie in faces decoded before, and
/// the left-most corner recorded for the vertex after `a` lies on it.
pub proof fn lemma_center_orientation(s: RecState, c: u32)
    requires
        center_step(s, c) is Some,
        c % 3 == 0,
        c + 2 < s.0.len(),
        s.0.len() < INVALID_INDEX,
        s.1.len() == s.0.len(),
        s.3.len() > 0,
        s.3.last() < c,
        ({
            let vx = s.0[next_corner(s.3.last()) as int];
            let l = s.2[vx as int];
            &&& next_corner(l) < c
            &&& s.0[l as int] == vx
        }),
    ensures
        ({
            let (verts, opps, lmc, st, sa, np, v2c, nc) = s;
            let (verts2, opps2, lmc2, st2, sa2, np2, v2c2, nc2) = center_step(s, c).unwrap();
            let a = st.last();
            let b = next_corner(lmc[verts[next_corner(a) as int] as int]);
            let oa = opps2[a as int];
            let ob = opps2[b as int];
            &&& c <= oa < c + 3
            &&& c <= ob < c + 3
            &&& oa != ob
            &&& opps2[oa as int] == a
            &&& opps2[ob as int] == b
            &&& verts2[next_corner(oa) as int] == verts[previous_corner(a) as int]
            &&& verts2[previous_corner(oa) as int] == verts[next_corner(a) as int]
            &&& verts2[next_corner(ob) as int] == verts[previous_corner(b) as int]
            &&& verts2[previous_corner(ob) as int] == verts[next_corner(b) as int]
        }),
{
    let a = s.3.last();
    let vx = s.0[next_corner(a) as int];
    let l = s.2[vx as int];
    let b = next_corner(l);
    assert(next_corner(a) < c && previous_corner(a) < c);
    assert(next_corner(b) < c && previous_corner(b) == l);
    assert(next_corner((c + 1) as u32) == c + 2 && previous_corner((c + 1) as u32) == c);
    assert(next_corner((c + 2) as u32) == c && previous_corner((c + 2) as u32) == c + 1);
}

/// The corners of the face at `c` playing the parts of an R (`right`) or L
/// symbol: the corner opposite the active corner, the left corner and the
/// right corner.
pub open spec fn rl_corners(c: u32, right: bool) -> (u32, u32, u32) {
    if right {
        ((c + 2) as u32, (c + 1) as u32, c)
    } else {
        ((c + 1) as u32, c, (c + 2) as u32)
    }
}

/// An R (`right`) or L symbol decoded into the face at corner `c`: one new
/// vertex.
pub open spec fn right_left_step(s: RecState, c: u32, right: bool, maxv: nat) -> Option<RecState> {
    let (verts, opps, lmc, st, sa, np, v2c, nc) = s;
    if st.len() == 0 {
        None
    } else {
        let a = st.last();
        if opps[a as int] != INVALID_INDEX || np >= maxv {
            None
        } else {
            let (oc, cl, cr) = rl_corners(c, right);
            let verts1 = verts.update(oc as int, np);
            let lmc1 = lmc.update(np as int, oc);
            let vr = verts1[previous_corner(a) as int];
            let verts2 = verts1.update(cr as int, vr);
            let lmc2 = lmc1.update(vr as int, cr);
            let vl = verts2[next_corner(a) as int];
            Some(
                (
                    verts2.update(cl as int, vl),
                    linked(opps, oc, a),
                    lmc2,
                    st.update(st.len() - 1, c),
                    sa,
                    (np + 1) as u32,
                    v2c.update(np as int, oc),
                    nc,
                ),
            )
        }
    }
}

/// For an R (`right`) or L symbol decoded into the face at corner `c`, the
/// new face is attached to the active edge and oriented as the face across
/// it: the corner opposite the active corner `a` holds the new vertex, and
/// the two other corners, in face order after it, hold the vertex before `a`
/// then the vertex after `a`, so the shared edge is walked one way in each
/// face. The corner holding the new vertex is the last corner of the face
/// for R and the second for L, and it becomes `a`'s opposite.
pub proof fn lemma_right_left_orientation(s: RecState, c: u32, right: bool, maxv: nat)
    requires
        right_left_step(s, c, right, maxv) is Some,
        c % 3 == 0,
        c + 2 < s.0.len(),
        s.0.len() < INVALID_INDEX,
        s.1.len() == s.0.len(),
        s.3.len() > 0,
        s.3.last() < c,
    ensures
        ({
            let (verts, opps, lmc, st, sa, np, v2c, nc) = s;
            let (verts2, opps2, lmc2, st2, sa2, np2, v2c2, nc2) = right_left_step(s, c, right, maxv).unwrap();
            let a = st.last();
            let o = opps2[a as int];
            &&& c <= o < c + 3
            &&& o == if right { c + 2 } else { c + 1 }
            &&& opps2[o as int] == a
            &&& verts2[o as int] == np
            &&& verts2[next_corner(o) as int] == verts[previous_corner(a) as int]
            &&& verts2[previous_corner(o) as int] == verts[next_corner(a) as int]
            &&& verts2[next_corner(a) as int] == verts[next_corner(a) as int]
            &&& verts2[previous_corner(a) as int] == verts[previous_corner(a) as int]
            &&& np2 == (np + 1) as u32
        }),
{
    let a = s.3.last();
    assert(next_corner(a) < c && previous_corner(a) < c);
    assert(next_corner((c + 1) as u32) == c + 2 && previous_corner((c + 1) as u32) == c);
    assert(next_corner((c + 2) as u32) == c && previous_corner((c + 2) as u32) == c + 1);
}

/// An S symbol (number `i`) decoded into the face at corner `c`: the two
/// active corners are joined and the vertex after the popped one is merged
/// into the one before the other.
pub open spec fn split_step(s: RecState, c: u32, i: int, n: nat) -> Option<RecState> {
    let (verts, opps, lmc, st, sa, np, v2c, nc) = s;
    if st.len() == 0 {
        None
    } else {
        let b = st.last();
        let st1 = st.drop_last();
        let st2 = if sa[i] != INVALID_INDEX {
            st1.push(sa[i])
        } else {
            st1
        };
        if st2.len() == 0 {
            None
        } else {
            let a = st2.last();
            if a == b || opps[a as int] != INVALID_INDEX || opps[b as int] != INVALID_INDEX {
                None
            } else {
                let opps1 = linked(linked(opps, a, (c + 2) as u32), b, (c + 1) as u32);
                let vp = verts[previous_corner(a) as int];
                let verts1 = verts.update(c as int, vp);
                let van = verts1[next_corner(a) as int];
                let verts2 = verts1.update(c + 1, van);
                let vbp = verts2[previous_corner(b) as int];
                let verts3 = verts2.update(c + 2, vbp);
                let lmc1 = lmc.update(vbp as int, (c + 2) as u32);
                let cn = next_corner(b);
                let vn = verts3[cn as int];
                let ln = lmc1[vn as int];
                let lmc2 = if ln != INVALID_INDEX {
                    lmc1.update(vp as int, ln)
                } else {
                    lmc1
                };
                match walk_left(verts3, opps1, cn, cn, vp, n) {
                    None => None,
                    Some(verts4) => match walk_right(verts4, opps1, cn, cn, vp, n) {
                        None => None,
                        Some(verts5) => Some(
                            (
                                replaced(verts5, vn, vp),
                                opps1,
                                lmc2.update(vn as int, INVALID_INDEX),
                                st2.update(st2.len() - 1, c),
                                sa,
                                np,
                                v2c,
                                nc,
                            ),
                        ),
                    },
                }
            }
        }
    }
}

/// The opposite corners `opps` of a table of `verts.len()` corners stay in
/// the table.
pub open spec fn opposites_in_table(verts: Seq<u32>, opps: Seq<u32>) -> bool {
    &&& opps.len() == verts.len()
    &&& verts.len() < INVALID_INDEX
    &&& verts.len() % 3 == 0
    &&& forall|k: int| 0 <= k < opps.len() ==> #[trigger] opps[k] == INVALID_INDEX || opps[k] < opps.len()
}

/// A walk left that ends maps its first corner to `vp` and keeps every
/// corner already on `vp` there.
proof fn lemma_walk_left_keeps(verts: Seq<u32>, opps: Seq<u32>, act: u32, first: u32, vp: u32, fuel: nat)
    requires
        act < verts.len(),
        opposites_in_table(verts, opps),
    ensures
        walk_left(verts, opps, act, first, vp, fuel) matches Some(r) ==> {
            &&& r.len() == verts.len()
            &&& r[act as int] == vp
            &&& forall|k: int| 0 <= k < verts.len() && verts[k] == vp ==> #[trigger] r[k] == vp
        },
    decreases fuel,
{
    let v1 = verts.update(act as int, vp);
    let o = opps[previous_corner(act) as int];
    if o != INVALID_INDEX && !(previous_corner(o) == first || fuel <= 1) {
        lemma_walk_left_keeps(v1, opps, previous_corner(o), first, vp, (fuel - 1) as nat);
        assert forall|k: int| 0 <= k < verts.len() && verts[k] == vp implies v1[k] == vp by {}
    }
}

/// A walk right that ends maps its first corner to `vp` and keeps every
/// corner already on `vp` there.
proof fn lemma_walk_right_keeps(verts: Seq<u32>, opps: Seq<u32>, act: u32, first: u32, vp: u32, fuel: nat)
    requires
        act < verts.len(),
        opposites_in_table(verts, opps),
    ensures
        walk_right(verts, opps, act, first, vp, fuel) matches Some(r) ==> {
            &&& r.len() == verts.len()
            &&& r[act as int] == vp
            &&& forall|k: int| 0 <= k < verts.len() && verts[k] == vp ==> #[trigger] r[k] == vp
        },
    decreases fuel,
{
    let v1 = verts.update(act as int, vp);
    let o = opps[next_corner(act) as int];
    if o != INVALID_INDEX && !(next_corner(o) == first || fuel <= 1) {
        lemma_walk_right_keeps(v1, opps, next_corner(o), first, vp, (fuel - 1) as nat);
        assert forall|k: int| 0 <= k < verts.len() && verts[k] == vp implies v1[k] == vp by {}
    }
}

/// For an S symbol decoded into the face at corner `c`, the new face joins
/// the edge of the active corner `a` below the popped one and the edge of
/// the popped corner `b`: their opposites become the last and the second
/// corner of the new face. The face is oriented as both faces across it:
/// the corner after the one opposite `a` and the corner before `a` end on
/// the same vertex, the vertex before `a`, and so do the corner before the
/// one opposite `b` and the corner after `b`, the vertex after `b` being
/// merged into the vertex before `a`. Here `a` and `b` lie in faces decoded
/// before and the opposite corners stay in the table.
pub proof fn lemma_split_orientation(s: RecState, c: u32, i: int, n: nat)
    requires
        split_step(s, c, i, n) is Some,
        c % 3 == 0,
        c + 2 < s.0.len(),
        opposites_in_table(s.0, s.1),
        s.3.len() > 0,
        s.3.last() < c,
        ({
            let st1 = s.3.drop_last();
            let st2 = if s.4[i] != INVALID_INDEX {
                st1.push(s.4[i])
            } else {
                st1
            };
            st2.len() > 0 && st2.last() < c
        }),
    ensures
        ({
            let (verts, opps, lmc, st, sa, np, v2c, nc) = s;
            let (verts2, opps2, lmc2, st2, sa2, np2, v2c2, nc2) = split_step(s, c, i, n).unwrap();
            let st1 = st.drop_last();
            let a = (if sa[i] != INVALID_INDEX {
                st1.push(sa[i])
            } else {
                st1
            }).last();
            let b = st.last();
            let oa = opps2[a as int];
            let ob = opps2[b as int];
            &&& oa == c + 2
            &&& ob == c + 1
            &&& opps2[oa as int] == a
            &&& opps2[ob as int] == b
            &&& verts2[next_corner(oa) as int] == verts[previous_corner(a) as int]
            &&& verts2[previous_corner(a) as int] == verts[previous_corner(a) as int]
            &&& verts2[previous_corner(ob) as int] == verts[previous_corner(a) as int]
            &&& verts2[next_corner(b) as int] == verts[previous_corner(a) as int]
        }),
{
    let (verts, opps, lmc, st, sa, np, v2c, nc) = s;
    let b = st.last();
    let st1 = st.drop_last();
    let stk = if sa[i] != INVALID_INDEX {
        st1.push(sa[i])
    } else {
        st1
    };
    let a = stk.last();
    let opps1 = linked(linked(opps, a, (c + 2) as u32), b, (c + 1) as u32);
    let vp = verts[previous_corner(a) as int];
    let verts1 = verts.update(c as int, vp);
    let van = verts1[next_corner(a) as int];
    let verts2 = verts1.update(c + 1, van);
    let vbp = verts2[previous_corner(b) as int];
    let verts3 = verts2.update(c + 2, vbp);
    let cn = next_corner(b);
    let vn = verts3[cn as int];
    assert(next_corner(a) < c && previous_corner(a) < c && cn < c);
    assert(next_corner((c + 2) as u32) == c && previous_corner((c + 1) as u32) == c);
    assert(opposites_in_table(verts3, opps1));
    lemma_walk_left_keeps(verts3, opps1, cn, cn, vp, n);
    let verts4 = walk_left(verts3, opps1, cn, cn, vp, n).unwrap();
    lemma_walk_right_keeps(verts4, opps1, cn, cn, vp, n);
    let verts5 = walk_right(verts4, opps1, cn, cn, vp, n).unwrap();
    assert(verts3[c as int] == vp && verts3[previous_corner(a) as int] == vp);
    assert(verts5[c as int] == vp && verts5[previous_corner(a) as int] == vp && verts5[cn as int] == vp);
    assert(replaced(verts5, vn, vp)[c as int] == vp);
    assert(replaced(verts5, vn, vp)[previous_corner(a) as int] == vp);
    assert(replaced(verts5, vn, vp)[cn as int] == vp);
}

/// The active corners recorded for split symbols after the first `j`
/// topology split events whose source is symbol `i` (of `ns`) are applied,
/// with `top` the active corner.
pub open spec fn events_applied(events: Seq<TopologySplitEventData>, j: int, sa: Seq<u32>, top: u32, i: int, ns: nat) -> Seq<u32>
    decreases j,
{
    if j <= 0 {
        sa
    } else {
        let sa1 = events_applied(events, j - 1, sa, top, i, ns);
        let e = events[j - 1];
        if ns - e.source_symbol_id - 1 == i {
            sa1.update(
                ns - e.split_symbol_id - 1,
                match e.source_edge {
                    EdgeFaceName::RightFaceEdge => next_corner(top),
                    EdgeFaceName::LeftFaceEdge => previous_corner(top),
                },
            )
        } else {
            sa1
        }
    }
}

/// Symbol `i` of `symbols` decoded, with its topology split events.
pub open spec fn symbol_step(
    symbols: Seq<u32>,
    events: Seq<TopologySplitEventData>,
    s: RecState,
    i: int,
    n: nat,
    maxv: nat,
) -> Option<RecState> {
    let c = (3 * i) as u32;
    let symbol = symbols[i];
    let r = if symbol == 4 {
        end_step(s, c, maxv)
    } else if symbol == 0 {
        center_step(s, c)
    } else if symbol == 3 || symbol == 2 {
        right_left_step(s, c, symbol == 3, maxv)
    } else {
        split_step(s, c, i, n)
    };
    match r {
        None => None,
        Some(s1) => if symbol == 4 || symbol == 3 || symbol == 2 {
            let (verts, opps, lmc, st, sa, np, v2c, nc) = s1;
            Some((verts, opps, lmc, st, events_applied(events, events.len() as int, sa, st.last(), i, symbols.len()), np, v2c, nc))
        } else {
            Some(s1)
        },
    }
}

/// The state after the first `i` symbols, from `s0`.
pub open spec fn symbols_decoded(
    symbols: Seq<u32>,
    events: Seq<TopologySplitEventData>,
    s0: RecState,
    i: int,
    n: nat,
    maxv: nat,
) -> Option<RecState>
    decreases i,
{
    if i <= 0 {
        Some(s0)
    } else {
        match symbols_decoded(symbols, events, s0, i - 1, n, maxv) {
            None => None,
            Some(s) => symbol_step(symbols, events, s, i - 1, n, maxv),
        }
    }
}

/// Bit `idx` of `bits`, false past their end.
pub open spec fn bit_at(bits: Seq<bool>, idx: usize) -> bool {
    if idx < bits.len() {
        bits[idx as int]
    } else {
        false
    }
}

/// The bit index after one more bit is read.
pub open spec fn next_index(idx: usize) -> usize {
    if idx < usize::MAX {
        (idx + 1) as usize
    } else {
        idx
    }
}

/// The start face closing active corner `a` as face number `ndec`: its
/// other two corners are found through the left-most corners of the
/// vertices after `a` and after the second corner. The vertices and
/// opposite corners after it, or none when those corners are missing,
/// coincide or already have opposite corners.
pub open spec fn start_face_step(verts: Seq<u32>, opps: Seq<u32>, lmc: Seq<u32>, a: u32, ndec: nat) -> Option<
    (Seq<u32>, Seq<u32>),
> {
    let vn = verts[next_corner(a) as int];
    let ln = lmc[vn as int];
    if ln == INVALID_INDEX {
        None
    } else {
        let b = next_corner(ln);
        let vx = verts[next_corner(b) as int];
        let lx = lmc[vx as int];
        if lx == INVALID_INDEX {
            None
        } else {
            let c = next_corner(lx);
            if a == b || a == c || b == c || opps[a as int] != INVALID_INDEX || opps[b as int] != INVALID_INDEX
                || opps[c as int] != INVALID_INDEX {
                None
            } else {
                let vp = verts[next_corner(c) as int];
                let nc = (3 * ndec) as u32;
                Some(
                    (
                        verts.update(nc as int, vx).update(nc + 1, vp).update(nc + 2, vn),
                        linked(linked(linked(opps, nc, a), (nc + 1) as u32, b), (nc + 2) as u32, c),
                    ),
                )
            }
        }
    }
}

/// An interior start face closing active corner `a` fills the triangular
/// hole at `a` oriented as the three faces around it: its corners, in face
/// order, hold the vertex after the corner `b`, the vertex after `c` and
/// the vertex after `a`, where `b` and `c` follow the left-most corners of
/// the vertices after `a` and after `b`; `a`, `b` and `c` become the
/// opposites of its three corners, and each shared edge is walked one way
/// in each face. Here `a`, `b` and `c` lie in faces decoded before, and the
/// left-most corners met lie on their vertices.
pub proof fn lemma_start_face_orientation(verts: Seq<u32>, opps: Seq<u32>, lmc: Seq<u32>, a: u32, ndec: nat)
    requires
        start_face_step(verts, opps, lmc, a, ndec) is Some,
        3 * ndec + 2 < verts.len() < INVALID_INDEX,
        opps.len() == verts.len(),
        a < 3 * ndec,
        ({
            let vn = verts[next_corner(a) as int];
            let ln = lmc[vn as int];
            let vx = verts[next_corner(next_corner(ln)) as int];
            let lx = lmc[vx as int];
            &&& next_corner(ln) < 3 * ndec
            &&& next_corner(lx) < 3 * ndec
            &&& verts[ln as int] == vn
            &&& verts[lx as int] == vx
        }),
    ensures
        ({
            let (verts2, opps2) = start_face_step(verts, opps, lmc, a, ndec).unwrap();
            let nc = (3 * ndec) as u32;
            let b = next_corner(lmc[verts[next_corner(a) as int] as int]);
            let c = next_corner(lmc[verts[next_corner(b) as int] as int]);
            &&& opps2[a as int] == nc
            &&& opps2[b as int] == nc + 1
            &&& opps2[c as int] == nc + 2
            &&& opps2[nc as int] == a
            &&& opps2[nc + 1] == b
            &&& opps2[nc + 2] == c
            &&& verts2[previous_corner(nc) as int] == verts[next_corner(a) as int]
            &&& verts2[next_corner(nc) as int] == verts[next_corner(c) as int]
            &&& verts2[next_corner((nc + 1) as u32) as int] == verts[previous_corner(b) as int]
            &&& verts2[previous_corner((nc + 1) as u32) as int] == verts[next_corner(b) as int]
            &&& verts2[next_corner((nc + 2) as u32) as int] == verts[previous_corner(c) as int]
            &&& verts2[previous_corner((nc + 2) as u32) as int] == verts[next_corner(c) as int]
        }),
{
    let nc = (3 * ndec) as u32;
    let vn = verts[next_corner(a) as int];
    let ln = lmc[vn as int];
    let b = next_corner(ln);
    let vx = verts[next_corner(b) as int];
    let lx = lmc[vx as int];
    let c = next_corner(lx);
    assert(previous_corner(b) == ln && previous_corner(c) == lx);
    assert(next_corner(a) < nc && next_corner(b) < nc && next_corner(c) < nc);
    assert(next_corner(nc) == nc + 1 && previous_corner(nc) == nc + 2);
    assert(next_corner((nc + 1) as u32) == nc + 2 && previous_corner((nc + 1) as u32) == nc);
    assert(next_corner((nc + 2) as u32) == nc && previous_corner((nc + 2) as u32) == nc + 1);
}

/// The start faces closing the active corners left on `st` (last first),
/// one bit each telling whether an interior face closes it; `ndec` faces are
/// decoded so far. The vertices and opposite corners at the end and the
/// number of faces, or none when a start face does not fit or cannot be
/// closed.
pub open spec fn start_faces(
    verts: Seq<u32>,
    opps: Seq<u32>,
    lmc: Seq<u32>,
    st: Seq<u32>,
    bits: Seq<bool>,
    idx: usize,
    ndec: nat,
    total: nat,
) -> Option<(Seq<u32>, Seq<u32>, nat)>
    decreases st.len(),
{
    if st.len() == 0 {
        Some((verts, opps, ndec))
    } else {
        let a = st.last();
        let st1 = st.drop_last();
        if !bit_at(bits, idx) {
            start_faces(verts, opps, lmc, st1, bits, next_index(idx), ndec, total)
        } else if ndec >= total {
            None
        } else {
            match start_face_step(verts, opps, lmc, a, ndec) {
                None => None,
                Some(e) => start_faces(e.0, e.1, lmc, st1, bits, next_index(idx), ndec + 1, total),
            }
        }
    }
}

/// The seam corners among the first `k` corners, with one bit of `bits`
/// for each inner edge met from its lower face, and the bits used: a corner
/// without an opposite is a seam; a seam bit adds the corner and its
/// opposite.
pub open spec fn seam_prefix(opps: Seq<u32>, bits: Seq<bool>, k: int) -> (Seq<u32>, usize)
    decreases k,
{
    if k <= 0 {
        (Seq::<u32>::empty(), 0usize)
    } else {
        let (l, idx) = seam_prefix(opps, bits, k - 1);
        let c = (k - 1) as u32;
        let o = opps[k - 1];
        if o == INVALID_INDEX {
            (l.push(c), idx)
        } else if c / 3 < o / 3 {
            if bit_at(bits, idx) {
                (l.push(c).push(o), next_index(idx))
            } else {
                (l, next_index(idx))
            }
        } else {
            (l, idx)
        }
    }
}

/// Some corner maps to vertex `v`.
pub open spec fn vertex_used(verts: Seq<u32>, v: int) -> bool {
    exists|x: int| 0 <= x < verts.len() && verts[x] == v
}

/// The number of vertices below `v` that some corner maps to: the new
/// number of vertex `v`.
pub open spec fn vertex_rank(verts: Seq<u32>, v: int) -> nat
    decreases v,
{
    if v <= 0 {
        0
    } else {
        vertex_rank(verts, v - 1) + if vertex_used(verts, v - 1) {
            1nat
        } else {
            0nat
        }
    }
}

/// The corner at which each used vertex below `v` was created (none past
/// `maxv`), in order.
pub open spec fn kept_corners(verts: Seq<u32>, v2c: Seq<u32>, maxv: nat, v: int) -> Seq<u32>
    decreases v,
{
    if v <= 0 {
        Seq::<u32>::empty()
    } else {
        let l = kept_corners(verts, v2c, maxv, v - 1);
        if vertex_used(verts, v - 1) {
            l.push(
                if v - 1 < maxv {
                    v2c[v - 1]
                } else {
                    u32::MAX
                },
            )
        } else {
            l
        }
    }
}

/// The faces of the corners `verts`, with the vertices renumbered.
pub open spec fn renumbered_faces(verts: Seq<u32>, total: nat) -> Seq<[PointIndex; 3]> {
    Seq::new(
        total,
        |f: int|
            [
                PointIndex(vertex_rank(verts, verts[3 * f] as int) as u32),
                PointIndex(vertex_rank(verts, verts[3 * f + 1] as int) as u32),
                PointIndex(vertex_rank(verts, verts[3 * f + 2] as int) as u32),
            ],
    )
}

/// The state the rebuilding starts from: no vertex, no opposite, no
/// left-most corner, no split corner, no vertex created.
pub open spec fn initial_state(n: nat, cap: nat, ns: nat, maxv: nat) -> RecState {
    (
        Seq::new(n, |c: int| 0u32),
        Seq::new(n, |c: int| INVALID_INDEX),
        Seq::new(cap, |v: int| INVALID_INDEX),
        Seq::<u32>::empty(),
        Seq::new(ns, |i: int| INVALID_INDEX),
        0u32,
        Seq::new(maxv, |v: int| u32::MAX),
        0usize,
    )
}

/// The mesh rebuilt from non-empty `symbols` (see `reconstruct_faces`): its
/// faces, number of points, the corner at which each point was created, the
/// seam corners of each attribute and the number of components; none when
/// the rebuilding fails.
pub open spec fn rebuilt_mesh(
    symbols: Seq<u32>,
    events: Seq<TopologySplitEventData>,
    total: nat,
    maxv: nat,
    start_bits: Seq<bool>,
    seam_bits: Seq<Vec<bool>>,
) -> Option<(Seq<[PointIndex; 3]>, nat, Seq<u32>, Seq<Seq<u32>>, usize)> {
    let n = 3 * total;
    let cap: nat = if maxv > 0 {
        maxv
    } else {
        1
    };
    match symbols_decoded(symbols, events, initial_state(n, cap, symbols.len(), maxv), symbols.len() as int, n, maxv) {
        None => None,
        Some(s) => {
            let (verts, opps, lmc, st, sa, np, v2c, nc) = s;
            match start_faces(verts, opps, lmc, st, start_bits, 0, symbols.len(), total) {
                None => None,
                Some(e) => {
                    let (verts1, opps1, ndec) = e;
                    if ndec != total {
                        None
                    } else {
                        Some(
                            (
                                renumbered_faces(verts1, total),
                                vertex_rank(verts1, cap as int),
                                kept_corners(verts1, v2c, maxv, cap as int),
                                Seq::new(seam_bits.len(), |a: int| seam_prefix(opps1, seam_bits[a]@, n as int).0),
                                nc,
                            ),
                        )
                    }
                }
            }
        },
    }
}

/// Once a symbol fails to decode, no longer prefix decodes either.
proof fn lemma_decoded_fails_on(
    symbols: Seq<u32>,
    events: Seq<TopologySplitEventData>,
    s0: RecState,
    i: int,
    j: int,
    n: nat,
    maxv: nat,
)
    requires
        0 <= i <= j,
        symbols_decoded(symbols, events, s0, i, n, maxv) is None,
    ensures
        symbols_decoded(symbols, events, s0, j, n, maxv) is None,
    decreases j - i,
{
    if i < j {
        lemma_decoded_fails_on(symbols, events, s0, i, j - 1, n, maxv);
    }
}

/// Some of the first `c` corners maps to vertex `v`.
spec fn seen(verts: Seq<u32>, c: int, v: int) -> bool {
    exists|x: int| 0 <= x < c && verts[x] == v
}

/// What the rebuilding gives: the number of components found (0 or 1), the
/// corner at which each kept vertex was created (in the new numbering), the
/// seam corners of each attribute, and the number of vertices kept.
pub struct Reconstruction {
    pub num_components: usize,
    pub data_to_corner_map: Vec<u32>,
    pub seam_corners: Vec<Vec<u32>>,
    pub num_points: usize,
}

/// The three points of `face` are below `count`.
pub open spec fn face_points_below(face: [PointIndex; 3], count: usize) -> bool {
    face[0].0 < count && face[1].0 < count && face[2].0 < count
}

/// The next bit of `bits` at `*index` (false past its end), moving the index
/// on.
fn next_bit(bits: &[bool], index: &mut usize) -> (r: bool)
    ensures
        r == if *old(index) < bits@.len() {
            bits@[*old(index) as int]
        } else {
            false
        },
        *final(index) == if *old(index) < usize::MAX {
            (*old(index) + 1) as usize
        } else {
            *old(index)
        },
{
    let i = *index;
    let r = if i < bits.len() {
        bits[i]
    } else {
        false
    };
    if i < usize::MAX {
        *index = i + 1;
    }
    r
}

/// The exec values of the rebuilding, as a state.
spec fn state_of(t: RecTable, st: Vec<u32>, sa: Vec<u32>, np: u32, v2c: Vec<u32>, nc: usize) -> RecState {
    (t.verts@, t.opps@, t.lmc@, st@, sa@, np, v2c@, nc)
}

/// The bounds the rebuilding keeps: every stored corner is a corner, every
/// vertex has a slot.
spec fn rec_bounds(
    t: RecTable,
    st: Seq<u32>,
    sa: Seq<u32>,
    np: u32,
    v2c: Seq<u32>,
    n: nat,
    cap: nat,
    maxv: nat,
    ns: nat,
) -> bool {
    &&& t.ok(n, cap)
    &&& n % 3 == 0
    &&& n + 3 < INVALID_INDEX
    &&& cap > 0
    &&& maxv <= cap
    &&& maxv < INVALID_INDEX
    &&& forall|x: int| 0 <= x < st.len() ==> #[trigger] st[x] < n
    &&& sa.len() == ns
    &&& forall|x: int| 0 <= x < ns ==> #[trigger] sa[x] == INVALID_INDEX || sa[x] < n
    &&& np <= maxv
    &&& v2c.len() == maxv
    &&& forall|x: int| 0 <= x < maxv ==> #[trigger] v2c[x] == u32::MAX || v2c[x] < n
}

fn rec_end(
    t: &mut RecTable,
    st: &mut Vec<u32>,
    sa: &Vec<u32>,
    np: &mut u32,
    v2c: &mut Vec<u32>,
    nc: &mut usize,
    corner: u32,
    maxv: usize,
    Ghost(n): Ghost<nat>,
    Ghost(cap): Ghost<nat>,
    Ghost(ns): Ghost<nat>,
) -> (r: Result<(), DracoError>)
    requires
        rec_bounds(*old(t), old(st)@, sa@, *old(np), old(v2c)@, n, cap, maxv as nat, ns),
        corner + 2 < n,
    ensures
        ({
            let e = end_step(state_of(*old(t), *old(st), *sa, *old(np), *old(v2c), *old(nc)), corner, maxv as nat);
            &&& r is Ok <==> e is Some
            &&& r is Ok ==> state_of(*final(t), *final(st), *sa, *final(np), *final(v2c), *final(nc)) == e->0
                && rec_bounds(*final(t), final(st)@, sa@, *final(np), final(v2c)@, n, cap, maxv as nat, ns)
            &&& r is Ok ==> *final(nc) == 1
        }),
{
    if maxv < 3 || *np as usize > maxv - 3 {
        return Err(DracoError::error("Unexpected number of decoded vertices"));
    }
    let v0 = *np;
    let v1 = v0 + 1;
    let v2 = v0 + 2;
    *np = v0 + 3;
    v2c.set(v0 as usize, corner);
    v2c.set(v1 as usize, corner + 1);
    v2c.set(v2 as usize, corner + 2);
    t.map(corner, v0, Ghost(n), Ghost(cap));
    t.map(corner + 1, v1, Ghost(n), Ghost(cap));
    t.map(corner + 2, v2, Ghost(n), Ghost(cap));
    t.set_left_most(v0, corner, Ghost(n), Ghost(cap));
    t.set_left_most(v1, corner + 1, Ghost(n), Ghost(cap));
    t.set_left_most(v2, corner + 2, Ghost(n), Ghost(cap));
    st.push(corner);
    *nc = 1;
    Ok(())
}

fn rec_center(
    t: &mut RecTable,
    st: &mut Vec<u32>,
    sa: &Vec<u32>,
    np: &u32,
    v2c: &Vec<u32>,
    nc: &usize,
    corner: u32,
    maxv: usize,
    Ghost(n): Ghost<nat>,
    Ghost(cap): Ghost<nat>,
    Ghost(ns): Ghost<nat>,
) -> (r: Result<(), DracoError>)
    requires
        rec_bounds(*old(t), old(st)@, sa@, *np, v2c@, n, cap, maxv as nat, ns),
        corner + 2 < n,
    ensures
        ({
            let e = center_step(state_of(*old(t), *old(st), *sa, *np, *v2c, *nc), corner);
            &&& r is Ok <==> e is Some
            &&& r is Ok ==> state_of(*final(t), *final(st), *sa, *np, *v2c, *nc) == e->0 && rec_bounds(
                *final(t),
                final(st)@,
                sa@,
                *np,
                v2c@,
                n,
                cap,
                maxv as nat,
                ns,
            )
        }),
{
    let len = st.len();
    if len == 0 {
        return Err(DracoError::error("Empty active corner stack on C"));
    }
    let corner_a = st[len - 1];
    proof {
        lemma_face_corners(corner_a, n);
    }
    let vertex_x = t.vertex(nxt(corner_a), Ghost(n), Ghost(cap));
    let lmc_x = t.left_most(vertex_x, Ghost(n), Ghost(cap));
    if lmc_x == INVALID_INDEX {
        return Err(DracoError::error("Missing left-most corner for vertex_x on C"));
    }
    proof {
        lemma_face_corners(lmc_x, n);
    }
    let corner_b = nxt(lmc_x);
    if corner_a == corner_b {
        return Err(DracoError::error("Invalid C symbol: corner_a == corner_b"));
    }
    if t.opposite(corner_a, Ghost(n), Ghost(cap)) != INVALID_INDEX || t.opposite(corner_b, Ghost(n), Ghost(cap))
        != INVALID_INDEX {
        return Err(DracoError::error("Invalid C symbol: matched corner already has opposite"));
    }
    t.link(corner_a, corner + 1, Ghost(n), Ghost(cap));
    t.link(corner_b, corner + 2, Ghost(n), Ghost(cap));
    proof {
        lemma_face_corners(corner_b, n);
    }
    let vert_a_prev = t.vertex(prv(corner_a), Ghost(n), Ghost(cap));
    let vert_b_next = t.vertex(nxt(corner_b), Ghost(n), Ghost(cap));
    if vertex_x == vert_a_prev || vertex_x == vert_b_next {
        return Err(DracoError::error("Invalid C symbol: degenerate face"));
    }
    t.map(corner, vertex_x, Ghost(n), Ghost(cap));
    t.map(corner + 1, vert_b_next, Ghost(n), Ghost(cap));
    t.map(corner + 2, vert_a_prev, Ghost(n), Ghost(cap));
    t.set_left_most(vert_a_prev, corner + 2, Ghost(n), Ghost(cap));
    st.set(len - 1, corner);
    proof {
        assert forall|x: int| 0 <= x < st@.len() implies #[trigger] st@[x] < n by {
            if x < len - 1 {
                assert(st@[x] == old(st)@[x]);
            }
        }
    }
    Ok(())
}

fn rec_right_left(
    t: &mut RecTable,
    st: &mut Vec<u32>,
    sa: &Vec<u32>,
    np: &mut u32,
    v2c: &mut Vec<u32>,
    nc: &usize,
    corner: u32,
    right: bool,
    maxv: usize,
    Ghost(n): Ghost<nat>,
    Ghost(cap): Ghost<nat>,
    Ghost(ns): Ghost<nat>,
) -> (r: Result<(), DracoError>)
    requires
        rec_bounds(*old(t), old(st)@, sa@, *old(np), old(v2c)@, n, cap, maxv as nat, ns),
        corner + 2 < n,
    ensures
        ({
            let e = right_left_step(
                state_of(*old(t), *old(st), *sa, *old(np), *old(v2c), *nc),
                corner,
                right,
                maxv as nat,
            );
            &&& r is Ok <==> e is Some
            &&& r is Ok ==> state_of(*final(t), *final(st), *sa, *final(np), *final(v2c), *nc) == e->0
                && rec_bounds(*final(t), final(st)@, sa@, *final(np), final(v2c)@, n, cap, maxv as nat, ns)
        }),
{
    let len = st.len();
    if len == 0 {
        return Err(DracoError::error("Empty active corner stack on L/R"));
    }
    let corner_a = st[len - 1];
    proof {
        lemma_face_corners(corner_a, n);
    }
    if t.opposite(corner_a, Ghost(n), Ghost(cap)) != INVALID_INDEX {
        return Err(DracoError::error("Invalid L/R symbol: active corner already has opposite"));
    }
    let (opp_corner, corner_l, corner_r) = if right {
        (corner + 2, corner + 1, corner)
    } else {
        (corner + 1, corner, corner + 2)
    };
    t.link(opp_corner, corner_a, Ghost(n), Ghost(cap));
    if *np as usize >= maxv {
        return Err(DracoError::error("Unexpected number of decoded vertices"));
    }
    let new_vert = *np;
    *np = new_vert + 1;
    t.map(opp_corner, new_vert, Ghost(n), Ghost(cap));
    t.set_left_most(new_vert, opp_corner, Ghost(n), Ghost(cap));
    v2c.set(new_vert as usize, opp_corner);
    let vertex_r = t.vertex(prv(corner_a), Ghost(n), Ghost(cap));
    t.map(corner_r, vertex_r, Ghost(n), Ghost(cap));
    t.set_left_most(vertex_r, corner_r, Ghost(n), Ghost(cap));
    let vertex_l = t.vertex(nxt(corner_a), Ghost(n), Ghost(cap));
    t.map(corner_l, vertex_l, Ghost(n), Ghost(cap));
    st.set(len - 1, corner);
    proof {
        assert forall|x: int| 0 <= x < st@.len() implies #[trigger] st@[x] < n by {
            if x < len - 1 {
                assert(st@[x] == old(st)@[x]);
            }
        }
    }
    Ok(())
}

#[verifier::rlimit(40)]
fn rec_split(
    t: &mut RecTable,
    st: &mut Vec<u32>,
    sa: &Vec<u32>,
    np: &u32,
    v2c: &Vec<u32>,
    nc: &usize,
    corner: u32,
    i: usize,
    maxv: usize,
    Ghost(n): Ghost<nat>,
    Ghost(cap): Ghost<nat>,
    Ghost(ns): Ghost<nat>,
) -> (r: Result<(), DracoError>)
    requires
        rec_bounds(*old(t), old(st)@, sa@, *np, v2c@, n, cap, maxv as nat, ns),
        corner + 2 < n,
        i < ns,
    ensures
        ({
            let e = split_step(state_of(*old(t), *old(st), *sa, *np, *v2c, *nc), corner, i as int, n);
            &&& r is Ok <==> e is Some
            &&& r is Ok ==> state_of(*final(t), *final(st), *sa, *np, *v2c, *nc) == e->0 && rec_bounds(
                *final(t),
                final(st)@,
                sa@,
                *np,
                v2c@,
                n,
                cap,
                maxv as nat,
                ns,
            )
        }),
{
    let len = st.len();
    if len == 0 {
        return Err(DracoError::error("Empty active corner stack on S"));
    }
    let corner_b = st[len - 1];
    st.pop();
    let split_corner = sa[i];
    if split_corner != INVALID_INDEX {
        st.push(split_corner);
    }
    let len2 = st.len();
    if len2 == 0 {
        return Err(DracoError::error("Empty active corner stack after topology split on S"));
    }
    let corner_a = st[len2 - 1];
    proof {
        assert forall|x: int| 0 <= x < st@.len() implies #[trigger] st@[x] < n by {
            if x < len - 1 {
                assert(st@[x] == old(st)@[x]);
            }
        }
        lemma_face_corners(corner_a, n);
        lemma_face_corners(corner_b, n);
    }
    if corner_a == corner_b {
        return Err(DracoError::error("Invalid S symbol: corner_a == corner_b"));
    }
    if t.opposite(corner_a, Ghost(n), Ghost(cap)) != INVALID_INDEX || t.opposite(corner_b, Ghost(n), Ghost(cap))
        != INVALID_INDEX {
        return Err(DracoError::error("Invalid S symbol: matched corner already has opposite"));
    }
    t.link(corner_a, corner + 2, Ghost(n), Ghost(cap));
    t.link(corner_b, corner + 1, Ghost(n), Ghost(cap));
    let vertex_p = t.vertex(prv(corner_a), Ghost(n), Ghost(cap));
    t.map(corner, vertex_p, Ghost(n), Ghost(cap));
    let va_next = t.vertex(nxt(corner_a), Ghost(n), Ghost(cap));
    t.map(corner + 1, va_next, Ghost(n), Ghost(cap));
    let vert_b_prev = t.vertex(prv(corner_b), Ghost(n), Ghost(cap));
    t.map(corner + 2, vert_b_prev, Ghost(n), Ghost(cap));
    t.set_left_most(vert_b_prev, corner + 2, Ghost(n), Ghost(cap));
    let corner_n = nxt(corner_b);
    let vertex_n = t.vertex(corner_n, Ghost(n), Ghost(cap));
    let lmc_n = t.left_most(vertex_n, Ghost(n), Ghost(cap));
    if lmc_n != INVALID_INDEX {
        t.set_left_most(vertex_p, lmc_n, Ghost(n), Ghost(cap));
    }
    // Walk left, then right, around the merged vertex.
    let nn = t.verts.len();
    let ghost opps1 = t.opps@;
    let ghost lmc2 = t.lmc@;
    let ghost st2 = st@;
    let ghost w1 = walk_left(t.verts@, opps1, corner_n, corner_n, vertex_p, n);
    proof {
        let s0 = state_of(*old(t), *old(st), *sa, *np, *v2c, *nc);
        assert(split_step(s0, corner, i as int, n) == match w1 {
            None => None,
            Some(verts4) => match walk_right(verts4, opps1, corner_n, corner_n, vertex_p, n) {
                None => None,
                Some(verts5) => Some(
                    (
                        replaced(verts5, vertex_n, vertex_p),
                        opps1,
                        lmc2.update(vertex_n as int, INVALID_INDEX),
                        st2.update(st2.len() - 1, corner),
                        sa@,
                        *np,
                        v2c@,
                        *nc,
                    ),
                ),
            },
        });
    }
    let mut act = corner_n;
    let mut steps: usize = 0;
    let mut failure: u8 = 0;
    loop
        invariant_except_break
            steps < n,
            failure == 0,
            w1 == walk_left(t.verts@, opps1, act, corner_n, vertex_p, (n - steps) as nat),
        invariant
            t.ok(n, cap),
            n % 3 == 0,
            n < INVALID_INDEX,
            act < n,
            corner_n < n,
            vertex_p < cap,
            nn == n,
            t.opps@ == opps1,
            t.lmc@ == lmc2,
        ensures
            t.ok(n, cap),
            t.opps@ == opps1,
            t.lmc@ == lmc2,
            failure == 0 ==> w1 == Some(t.verts@),
            failure != 0 ==> w1 is None,
        decreases n - steps,
    {
        let ghost vb = t.verts@;
        t.map(act, vertex_p, Ghost(n), Ghost(cap));
        proof {
            lemma_face_corners(act, n);
        }
        let o = t.opposite(prv(act), Ghost(n), Ghost(cap));
        if o == INVALID_INDEX {
            break;
        }
        proof {
            lemma_face_corners(o, n);
        }
        let c = prv(o);
        if c == corner_n {
            failure = 1;
            break;
        }
        steps = steps + 1;
        if steps >= nn {
            failure = 2;
            break;
        }
        act = c;
    }
    if failure == 1 {
        return Err(DracoError::error("Invalid S symbol: reached start again while SwingLeft-walking vertex_n"));
    } else if failure != 0 {
        return Err(DracoError::error("Invalid S symbol: SwingLeft walk around vertex_n does not end"));
    }
    let ghost verts4 = t.verts@;
    let ghost w2 = walk_right(verts4, opps1, corner_n, corner_n, vertex_p, n);
    let mut act = corner_n;
    let mut steps: usize = 0;
    let mut failure: u8 = 0;
    loop
        invariant_except_break
            steps < n,
            failure == 0,
            w2 == walk_right(t.verts@, opps1, act, corner_n, vertex_p, (n - steps) as nat),
        invariant
            t.ok(n, cap),
            n % 3 == 0,
            n < INVALID_INDEX,
            act < n,
            corner_n < n,
            vertex_p < cap,
            nn == n,
            t.opps@ == opps1,
            t.lmc@ == lmc2,
        ensures
            t.ok(n, cap),
            t.opps@ == opps1,
            t.lmc@ == lmc2,
            failure == 0 ==> w2 == Some(t.verts@),
            failure != 0 ==> w2 is None,
        decreases n - steps,
    {
        let ghost vb = t.verts@;
        t.map(act, vertex_p, Ghost(n), Ghost(cap));
        proof {
            lemma_face_corners(act, n);
        }
        let o = t.opposite(nxt(act), Ghost(n), Ghost(cap));
        if o == INVALID_INDEX {
            break;
        }
        proof {
            lemma_face_corners(o, n);
        }
        let c = nxt(o);
        if c == corner_n {
            failure = 1;
            break;
        }
        steps = steps + 1;
        if steps >= nn {
            failure = 2;
            break;
        }
        act = c;
    }
    if failure == 1 {
        return Err(DracoError::error("Invalid S symbol: reached start again while SwingRight-walking vertex_n"));
    } else if failure != 0 {
        return Err(DracoError::error("Invalid S symbol: SwingRight walk around vertex_n does not end"));
    }
    // Every corner still on the merged vertex moves to the kept one.
    let ghost v5 = t.verts@;
    let mut c: usize = 0;
    while c < nn
        invariant
            t.ok(n, cap),
            nn == n,
            c <= n,
            vertex_p < cap,
            t.opps@ == opps1,
            t.lmc@ == lmc2,
            t.lmc@.len() == cap,
            v5.len() == n,
            forall|x: int| 0 <= x < c ==> #[trigger] t.verts@[x] == replaced(v5, vertex_n, vertex_p)[x],
            forall|x: int| c <= x < n ==> #[trigger] t.verts@[x] == v5[x],
        decreases n - c,
    {
        if t.verts[c] == vertex_n {
            t.map(c as u32, vertex_p, Ghost(n), Ghost(cap));
        }
        c = c + 1;
    }
    assert(t.verts@ =~= replaced(v5, vertex_n, vertex_p));
    t.set_left_most(vertex_n, INVALID_INDEX, Ghost(n), Ghost(cap));
    st.set(len2 - 1, corner);
    proof {
        assert forall|x: int| 0 <= x < st@.len() implies #[trigger] st@[x] < n by {}
        assert(w1 == Some(verts4));
        assert(w2 == Some(v5));
        assert(st@ == st2.update(st2.len() - 1, corner));
        assert(t.lmc@ == lmc2.update(vertex_n as int, INVALID_INDEX));
    }
    Ok(())
}

/// Records, for each topology split event whose source is symbol `i`, the
/// active corner of the split symbol it names.
fn rec_events(
    sa: &mut Vec<u32>,
    events: &[TopologySplitEventData],
    top: u32,
    i: usize,
    ns: usize,
    Ghost(n): Ghost<nat>,
) -> (r: ())
    requires
        old(sa)@.len() == ns,
        forall|x: int| 0 <= x < ns ==> #[trigger] old(sa)@[x] == INVALID_INDEX || old(sa)@[x] < n,
        top < n,
        n % 3 == 0,
        n < INVALID_INDEX,
        i < ns,
        ns < INVALID_INDEX,
        forall|x: int|
            0 <= x < events@.len() ==> #[trigger] events@[x].source_symbol_id < ns
                && events@[x].split_symbol_id < ns,
    ensures
        final(sa)@ == events_applied(events@, events@.len() as int, old(sa)@, top, i as int, ns as nat),
        final(sa)@.len() == ns,
        forall|x: int| 0 <= x < ns ==> #[trigger] final(sa)@[x] == INVALID_INDEX || final(sa)@[x] < n,
{
    proof {
        lemma_face_corners(top, n);
    }
    let num_events = events.len();
    let mut e: usize = 0;
    while e < num_events
        invariant
            num_events == events@.len(),
            e <= num_events,
            top < n,
            n % 3 == 0,
            n < INVALID_INDEX,
            next_corner(top) < n,
            previous_corner(top) < n,
            i < ns,
            ns < INVALID_INDEX,
            forall|x: int|
                0 <= x < events@.len() ==> #[trigger] events@[x].source_symbol_id < ns
                    && events@[x].split_symbol_id < ns,
            sa@ == events_applied(events@, e as int, old(sa)@, top, i as int, ns as nat),
            sa@.len() == ns,
            forall|x: int| 0 <= x < ns ==> #[trigger] sa@[x] == INVALID_INDEX || sa@[x] < n,
        decreases num_events - e,
    {
        let event = events[e];
        let source_id = ns as u32 - event.source_symbol_id - 1;
        if source_id as usize == i {
            let new_active_corner = match event.source_edge {
                EdgeFaceName::RightFaceEdge => nxt(top),
                EdgeFaceName::LeftFaceEdge => prv(top),
            };
            let split_id = ns as u32 - event.split_symbol_id - 1;
            sa.set(split_id as usize, new_active_corner);
        }
        e = e + 1;
    }
}

/// Symbol `i` decoded into the face at corner `3 * i`.
fn rec_symbol(
    t: &mut RecTable,
    st: &mut Vec<u32>,
    sa: &mut Vec<u32>,
    np: &mut u32,
    v2c: &mut Vec<u32>,
    nc: &mut usize,
    symbols: &[u32],
    events: &[TopologySplitEventData],
    i: usize,
    maxv: usize,
    Ghost(n): Ghost<nat>,
    Ghost(cap): Ghost<nat>,
) -> (r: Result<(), DracoError>)
    requires
        rec_bounds(*old(t), old(st)@, old(sa)@, *old(np), old(v2c)@, n, cap, maxv as nat, symbols@.len()),
        i < symbols@.len(),
        3 * symbols@.len() <= n,
        symbols@[i as int] <= 4,
        *old(nc) <= 1,
        forall|x: int|
            0 <= x < events@.len() ==> #[trigger] events@[x].source_symbol_id < symbols@.len()
                && events@[x].split_symbol_id < symbols@.len(),
    ensures
        ({
            let e = symbol_step(
                symbols@,
                events@,
                state_of(*old(t), *old(st), *old(sa), *old(np), *old(v2c), *old(nc)),
                i as int,
                n,
                maxv as nat,
            );
            &&& r is Ok <==> e is Some
            &&& r is Ok ==> state_of(*final(t), *final(st), *final(sa), *final(np), *final(v2c), *final(nc))
                == e->0 && rec_bounds(
                *final(t),
                final(st)@,
                final(sa)@,
                *final(np),
                final(v2c)@,
                n,
                cap,
                maxv as nat,
                symbols@.len(),
            )
            &&& r is Ok ==> *final(nc) <= 1
        }),
{
    let corner: u32 = (i * 3) as u32;
    let symbol = symbols[i];
    let ns = symbols.len();
    if symbol == 1 {
        return rec_split(t, st, sa, np, v2c, nc, corner, i, maxv, Ghost(n), Ghost(cap), Ghost(ns as nat));
    }
    if symbol == 0 {
        return rec_center(t, st, sa, np, v2c, nc, corner, maxv, Ghost(n), Ghost(cap), Ghost(ns as nat));
    }
    if symbol == 4 {
        let r = rec_end(t, st, sa, np, v2c, nc, corner, maxv, Ghost(n), Ghost(cap), Ghost(ns as nat));
        if r.is_err() {
            return r;
        }
    } else {
        let r = rec_right_left(t, st, sa, np, v2c, nc, corner, symbol == 3, maxv, Ghost(n), Ghost(cap), Ghost(ns as nat));
        if r.is_err() {
            return r;
        }
    }
    let top = st[st.len() - 1];
    rec_events(sa, events, top, i, ns, Ghost(n));
    Ok(())
}

/// The start face closing active corner `corner_a`, as face `ndec`.
fn rec_start_face(t: &mut RecTable, corner_a: u32, ndec: usize, Ghost(n): Ghost<nat>, Ghost(cap): Ghost<nat>) -> (r:
    Result<(), DracoError>)
    requires
        old(t).ok(n, cap),
        n % 3 == 0,
        n < INVALID_INDEX,
        corner_a < n,
        3 * ndec + 3 <= n,
    ensures
        ({
            let e = start_face_step(old(t).verts@, old(t).opps@, old(t).lmc@, corner_a, ndec as nat);
            &&& r is Ok <==> e is Some
            &&& r is Ok ==> (final(t).verts@, final(t).opps@) == e->0
            &&& r is Ok ==> final(t).lmc@ == old(t).lmc@
            &&& r is Ok ==> final(t).ok(n, cap)
        }),
{
    proof {
        lemma_face_corners(corner_a, n);
    }
    let vert_n = t.vertex(nxt(corner_a), Ghost(n), Ghost(cap));
    let lmc_n = t.left_most(vert_n, Ghost(n), Ghost(cap));
    if lmc_n == INVALID_INDEX {
        return Err(DracoError::error("Missing left-most corner for vert_n on start face"));
    }
    proof {
        lemma_face_corners(lmc_n, n);
    }
    let corner_b = nxt(lmc_n);
    proof {
        lemma_face_corners(corner_b, n);
    }
    let vert_x = t.vertex(nxt(corner_b), Ghost(n), Ghost(cap));
    let lmc_x = t.left_most(vert_x, Ghost(n), Ghost(cap));
    if lmc_x == INVALID_INDEX {
        return Err(DracoError::error("Missing left-most corner for vert_x on start face"));
    }
    proof {
        lemma_face_corners(lmc_x, n);
    }
    let corner_c = nxt(lmc_x);
    if corner_a == corner_b || corner_a == corner_c || corner_b == corner_c {
        return Err(DracoError::error("Invalid start face: matched corners are not distinct"));
    }
    if t.opposite(corner_a, Ghost(n), Ghost(cap)) != INVALID_INDEX || t.opposite(corner_b, Ghost(n), Ghost(cap))
        != INVALID_INDEX || t.opposite(corner_c, Ghost(n), Ghost(cap)) != INVALID_INDEX {
        return Err(DracoError::error("Invalid start face: corner already has opposite"));
    }
    proof {
        lemma_face_corners(corner_c, n);
    }
    let vert_p = t.vertex(nxt(corner_c), Ghost(n), Ghost(cap));
    let new_corner = (ndec * 3) as u32;
    t.link(new_corner, corner_a, Ghost(n), Ghost(cap));
    t.link(new_corner + 1, corner_b, Ghost(n), Ghost(cap));
    t.link(new_corner + 2, corner_c, Ghost(n), Ghost(cap));
    t.map(new_corner, vert_x, Ghost(n), Ghost(cap));
    t.map(new_corner + 1, vert_p, Ghost(n), Ghost(cap));
    t.map(new_corner + 2, vert_n, Ghost(n), Ghost(cap));
    Ok(())
}

/// The mesh rebuilt from `symbols` (0 = C, 1 = S, 2 = L, 3 = R, 4 = E, in
/// decoding order) with the topology split events `split_events`, for
/// `total_num_faces` faces and at most `max_num_vertices` vertices before
/// merges are compacted away. `start_face_bits` tells, for each active
/// corner left after the symbols (last one first), whether it is closed by
/// an interior start face; `seam_bits` holds, for each attribute, one bit
/// per inner edge (met from its lower face) telling whether it is a seam. A
/// missing bit reads as false.
///
/// Sets the faces `0 .. total_num_faces` of `mesh` and its number of
/// points. With no symbols nothing is done and no component is found.
///
/// Fails on a symbol that needs an active corner when there is none, on a C,
/// S or start face whose corners coincide or already have opposite corners,
/// on a C with a degenerate face or a vertex without a left-most corner, on
/// more vertices than `max_num_vertices`, on an S whose merge walk comes back
/// to its start or runs longer than there are corners, on more start faces
/// than faces, and when the faces decoded do not fill `total_num_faces`.
#[verifier::spinoff_prover]
pub fn reconstruct_faces(
    symbols: &[u32],
    split_events: &[TopologySplitEventData],
    mesh: &mut Mesh,
    total_num_faces: usize,
    max_num_vertices: usize,
    start_face_bits: &[bool],
    seam_bits: &[Vec<bool>],
) -> (r: Result<Reconstruction, DracoError>)
    requires
        symbols@.len() <= total_num_faces,
        3 * total_num_faces + 3 < INVALID_INDEX,
        max_num_vertices < INVALID_INDEX,
        forall|i: int| 0 <= i < symbols@.len() ==> #[trigger] symbols@[i] <= 4,
        forall|i: int|
            0 <= i < split_events@.len() ==> #[trigger] split_events@[i].source_symbol_id < symbols@.len()
                && split_events@[i].split_symbol_id < symbols@.len(),
    ensures
        symbols@.len() == 0 ==> (r matches Ok(rec) && rec.num_components == 0 && rec.num_points == 0
            && rec.data_to_corner_map@.len() == 0 && rec.seam_corners@.len() == 0 && *final(mesh) == *old(mesh)),
        symbols@.len() > 0 ==> {
            let m = rebuilt_mesh(
                symbols@,
                split_events@,
                total_num_faces as nat,
                max_num_vertices as nat,
                start_face_bits@,
                seam_bits@,
            );
            &&& r is Ok <==> m is Some
            &&& r matches Ok(rec) ==> {
                let (faces, num_points, corners, seams, components) = m->0;
                &&& rec.num_components == components
                &&& rec.num_points == num_points
                &&& rec.data_to_corner_map@ == corners
                &&& rec.seam_corners@.len() == seams.len()
                &&& forall|a: int| 0 <= a < rec.seam_corners@.len() ==> #[trigger] rec.seam_corners@[a]@ == seams[a]
                &&& forall|f: int| 0 <= f < total_num_faces ==> #[trigger] final(mesh).faces_spec()[f] == faces[f]
            }
        },
        r matches Ok(rec) ==> {
            &&& rec.num_components <= 1
            &&& symbols@.len() > 0 ==> {
                &&& rec.data_to_corner_map@.len() == rec.num_points
                &&& forall|i: int|
                    0 <= i < rec.num_points ==> #[trigger] rec.data_to_corner_map@[i] == u32::MAX
                        || rec.data_to_corner_map@[i] < 3 * total_num_faces
                &&& rec.seam_corners@.len() == seam_bits@.len()
                &&& final(mesh).cloud().num_points_spec() == rec.num_points
                &&& final(mesh).cloud().attributes_spec() == old(mesh).cloud().attributes_spec()
                &&& final(mesh).faces_spec().len() == if old(mesh).faces_spec().len() < total_num_faces {
                    total_num_faces as int
                } else {
                    old(mesh).faces_spec().len() as int
                }
                &&& forall|f: int|
                    total_num_faces <= f < old(mesh).faces_spec().len() ==> #[trigger] final(mesh).faces_spec()[f]
                        == old(mesh).faces_spec()[f]
                &&& forall|f: int|
                    0 <= f < total_num_faces ==> face_points_below(#[trigger] final(mesh).faces_spec()[f], rec.num_points)
                &&& forall|a: int, j: int|
                    0 <= a < rec.seam_corners@.len() && 0 <= j < rec.seam_corners@[a]@.len() ==> #[trigger] rec.seam_corners@[a]@[j]
                        < 3 * total_num_faces
            }
        },
{
    if symbols.len() == 0 {
        return Ok(
            Reconstruction {
                num_components: 0,
                data_to_corner_map: Vec::new(),
                seam_corners: Vec::new(),
                num_points: 0,
            },
        );
    }
    let num_symbols = symbols.len();
    let n: usize = 3 * total_num_faces;
    let ghost gn = n as nat;
    let cap: usize = if max_num_vertices > 0 {
        max_num_vertices
    } else {
        1
    };
    let ghost gcap = cap as nat;
    let ghost maxv = max_num_vertices as nat;
    let mut t = RecTable::new(n, cap);
    let mut active_corner_stack: Vec<u32> = Vec::new();
    let mut split_active: Vec<u32> = Vec::new();
    let mut i: usize = 0;
    while i < num_symbols
        invariant
            i <= num_symbols,
            split_active@ == Seq::new(i as nat, |x: int| INVALID_INDEX),
        decreases num_symbols - i,
    {
        split_active.push(INVALID_INDEX);
        i = i + 1;
        assert(split_active@ =~= Seq::new(i as nat, |x: int| INVALID_INDEX));
    }
    let mut next_point_id: u32 = 0;
    let mut old_vertex_to_corner_map: Vec<u32> = Vec::new();
    let mut i: usize = 0;
    while i < max_num_vertices
        invariant
            i <= max_num_vertices,
            old_vertex_to_corner_map@ == Seq::new(i as nat, |v: int| u32::MAX),
        decreases max_num_vertices - i,
    {
        old_vertex_to_corner_map.push(u32::MAX);
        i = i + 1;
        assert(old_vertex_to_corner_map@ =~= Seq::new(i as nat, |v: int| u32::MAX));
    }
    let mut num_components: usize = 0;
    let ghost s0 = initial_state(gn, gcap, num_symbols as nat, maxv);
    assert(state_of(t, active_corner_stack, split_active, next_point_id, old_vertex_to_corner_map, num_components)
        == s0);
    let mut symbol_id: usize = 0;
    let mut failure: Option<DracoError> = None;
    while symbol_id < num_symbols
        invariant_except_break
            failure is None,
            num_components <= 1,
            rec_bounds(
                t,
                active_corner_stack@,
                split_active@,
                next_point_id,
                old_vertex_to_corner_map@,
                gn,
                gcap,
                maxv,
                num_symbols as nat,
            ),
            symbols_decoded(symbols@, split_events@, s0, symbol_id as int, gn, maxv) == Some(
                state_of(t, active_corner_stack, split_active, next_point_id, old_vertex_to_corner_map, num_components),
            ),
        invariant
            num_symbols == symbols@.len(),
            num_symbols > 0,
            num_symbols <= total_num_faces,
            n == 3 * total_num_faces,
            3 * total_num_faces + 3 < INVALID_INDEX,
            gn == n,
            gcap == cap,
            maxv == max_num_vertices,
            symbol_id <= num_symbols,
            forall|x: int| 0 <= x < symbols@.len() ==> #[trigger] symbols@[x] <= 4,
            forall|x: int|
                0 <= x < split_events@.len() ==> #[trigger] split_events@[x].source_symbol_id < symbols@.len()
                    && split_events@[x].split_symbol_id < symbols@.len(),
        ensures
            failure is Some ==> symbols_decoded(symbols@, split_events@, s0, num_symbols as int, gn, maxv) is None,
            failure is None ==> num_components <= 1,
            failure is None ==> rec_bounds(
                t,
                active_corner_stack@,
                split_active@,
                next_point_id,
                old_vertex_to_corner_map@,
                gn,
                gcap,
                maxv,
                num_symbols as nat,
            ),
            failure is None ==> symbols_decoded(symbols@, split_events@, s0, num_symbols as int, gn, maxv) == Some(
                state_of(t, active_corner_stack, split_active, next_point_id, old_vertex_to_corner_map, num_components),
            ),
        decreases num_symbols - symbol_id,
    {
        let r = rec_symbol(
            &mut t,
            &mut active_corner_stack,
            &mut split_active,
            &mut next_point_id,
            &mut old_vertex_to_corner_map,
            &mut num_components,
            symbols,
            split_events,
            symbol_id,
            max_num_vertices,
            Ghost(gn),
            Ghost(gcap),
        );
        if let Err(e) = r {
            proof {
                assert(symbols_decoded(symbols@, split_events@, s0, symbol_id + 1, gn, maxv) is None);
                lemma_decoded_fails_on(symbols@, split_events@, s0, symbol_id + 1, num_symbols as int, gn, maxv);
            }
            failure = Some(e);
            break;
        }
        symbol_id = symbol_id + 1;
    }
    if let Some(e) = failure {
        return Err(e);
    }
    // Close the remaining active corners with start faces.
    let ghost verts0 = t.verts@;
    let ghost opps0 = t.opps@;
    let ghost lmc0 = t.lmc@;
    let ghost st0 = active_corner_stack@;
    let ghost v2c0 = old_vertex_to_corner_map@;
    let mut num_decoded_faces: usize = num_symbols;
    let mut bit_index: usize = 0;
    let mut failure: Option<DracoError> = None;
    while active_corner_stack.len() > 0
        invariant_except_break
            failure is None,
            forall|x: int| 0 <= x < active_corner_stack@.len() ==> #[trigger] active_corner_stack@[x] < n,
            start_faces(verts0, opps0, lmc0, st0, start_face_bits@, 0, num_symbols as nat, total_num_faces as nat)
                == start_faces(
                t.verts@,
                t.opps@,
                lmc0,
                active_corner_stack@,
                start_face_bits@,
                bit_index,
                num_decoded_faces as nat,
                total_num_faces as nat,
            ),
            t.ok(gn, gcap),
            t.lmc@ == lmc0,
            num_decoded_faces <= total_num_faces,
        invariant
            n == gn,
            n == 3 * total_num_faces,
            3 * total_num_faces + 3 < INVALID_INDEX,
            n % 3 == 0,
        ensures
            failure is Some ==> start_faces(
                verts0,
                opps0,
                lmc0,
                st0,
                start_face_bits@,
                0,
                num_symbols as nat,
                total_num_faces as nat,
            ) is None,
            failure is None ==> start_faces(
                verts0,
                opps0,
                lmc0,
                st0,
                start_face_bits@,
                0,
                num_symbols as nat,
                total_num_faces as nat,
            ) == Some((t.verts@, t.opps@, num_decoded_faces as nat)),
            failure is None ==> t.ok(gn, gcap),
            failure is None ==> num_decoded_faces <= total_num_faces,
        decreases active_corner_stack@.len(),
    {
        let ghost st = active_corner_stack@;
        let ghost vb = t.verts@;
        let ghost ob = t.opps@;
        let ghost ib = bit_index;
        let corner_a = active_corner_stack.pop().unwrap();
        proof {
            assert(corner_a == st[st.len() - 1]);
            assert(active_corner_stack@ == st.drop_last());
            assert forall|x: int| 0 <= x < active_corner_stack@.len() implies #[trigger] active_corner_stack@[x] < n by {
                assert(active_corner_stack@[x] == st[x]);
            }
        }
        let interior_face = next_bit(start_face_bits, &mut bit_index);
        if interior_face {
            if num_decoded_faces >= total_num_faces {
                failure = Some(DracoError::error("More faces than expected added to the mesh"));
                break;
            }
            let r = rec_start_face(&mut t, corner_a, num_decoded_faces, Ghost(gn), Ghost(gcap));
            if let Err(e) = r {
                failure = Some(e);
                break;
            }
            num_decoded_faces = num_decoded_faces + 1;
        }
    }
    if let Some(e) = failure {
        return Err(e);
    }
    // Seams of each attribute.
    let mut seam_corners: Vec<Vec<u32>> = Vec::new();
    let num_attributes = seam_bits.len();
    let mut a: usize = 0;
    while a < num_attributes
        invariant
            t.ok(gn, gcap),
            n == gn,
            n == 3 * total_num_faces,
            3 * total_num_faces + 3 < INVALID_INDEX,
            num_attributes == seam_bits@.len(),
            a <= num_attributes,
            seam_corners@.len() == a,
            forall|x: int| 0 <= x < a ==> #[trigger] seam_corners@[x]@ == seam_prefix(t.opps@, seam_bits@[x]@, n as int).0,
            forall|x: int, j: int|
                0 <= x < seam_corners@.len() && 0 <= j < seam_corners@[x]@.len() ==> #[trigger] seam_corners@[x]@[j] < n,
        decreases num_attributes - a,
    {
        let mut corners: Vec<u32> = Vec::new();
        let mut seam_index: usize = 0;
        let bits = &seam_bits[a];
        let mut c: usize = 0;
        while c < n
            invariant
                t.ok(gn, gcap),
                n == gn,
                n == 3 * total_num_faces,
                3 * total_num_faces + 3 < INVALID_INDEX,
                c <= n,
                (corners@, seam_index) == seam_prefix(t.opps@, bits@, c as int),
                forall|j: int| 0 <= j < corners@.len() ==> #[trigger] corners@[j] < n,
            decreases n - c,
        {
            let opp = t.opposite(c as u32, Ghost(gn), Ghost(gcap));
            if opp == INVALID_INDEX {
                corners.push(c as u32);
            } else if c / 3 < (opp / 3) as usize {
                let is_seam = next_bit(bits.as_slice(), &mut seam_index);
                if is_seam {
                    corners.push(c as u32);
                    corners.push(opp);
                }
            }
            c = c + 1;
        }
        let ghost prev = seam_corners@;
        seam_corners.push(corners);
        proof {
            assert forall|x: int, j: int|
                0 <= x < seam_corners@.len() && 0 <= j < seam_corners@[x]@.len() implies #[trigger] seam_corners@[x]@[j]
                < n by {
                if x < a {
                    assert(seam_corners@[x] == prev[x]);
                }
            }
        }
        a = a + 1;
    }
    if num_decoded_faces != total_num_faces {
        return Err(DracoError::error("Unexpected number of decoded faces"));
    }
    let ghost verts1 = t.verts@;
    // Keep the vertices still in use, numbered in increasing order.
    let mut used: Vec<bool> = Vec::new();
    let mut v: usize = 0;
    while v < cap
        invariant
            v <= cap,
            used@.len() == v,
            forall|x: int| 0 <= x < v ==> !#[trigger] used@[x],
        decreases cap - v,
    {
        used.push(false);
        v = v + 1;
    }
    let mut c: usize = 0;
    while c < n
        invariant
            t.ok(gn, gcap),
            n == gn,
            c <= n,
            used@.len() == cap,
            gcap == cap,
            forall|x: int| 0 <= x < cap ==> (#[trigger] used@[x] <==> seen(t.verts@, c as int, x)),
        decreases n - c,
    {
        let vert = t.verts[c];
        used.set(vert as usize, true);
        proof {
            assert forall|x: int| 0 <= x < cap implies (#[trigger] used@[x] <==> seen(t.verts@, c + 1, x)) by {
                if x == vert {
                    assert(t.verts@[c as int] == x);
                } else if seen(t.verts@, c + 1, x) {
                    let y = choose|y: int| 0 <= y < c + 1 && t.verts@[y] == x;
                    assert(y != c);
                    assert(seen(t.verts@, c as int, x));
                }
            }
        }
        c = c + 1;
    }
    proof {
        assert forall|x: int| 0 <= x < cap implies (#[trigger] used@[x] <==> vertex_used(verts1, x)) by {
            assert(used@[x] <==> seen(verts1, n as int, x));
        }
    }
    let mut new_id: Vec<u32> = Vec::new();
    let mut count: usize = 0;
    let mut data_to_corner_map: Vec<u32> = Vec::new();
    let mut v: usize = 0;
    while v < cap
        invariant
            v <= cap,
            used@.len() == cap,
            new_id@.len() == v,
            count <= v,
            count == vertex_rank(verts1, v as int),
            cap < INVALID_INDEX || cap == 1,
            max_num_vertices <= cap,
            max_num_vertices < INVALID_INDEX,
            gcap == cap,
            maxv == max_num_vertices,
            old_vertex_to_corner_map@.len() == max_num_vertices,
            data_to_corner_map@ == kept_corners(verts1, v2c0, maxv, v as int),
            data_to_corner_map@.len() == count,
            old_vertex_to_corner_map@ == v2c0,
            forall|x: int| 0 <= x < max_num_vertices ==> #[trigger] old_vertex_to_corner_map@[x] == u32::MAX
                || old_vertex_to_corner_map@[x] < 3 * total_num_faces,
            forall|j: int| 0 <= j < count ==> #[trigger] data_to_corner_map@[j] == u32::MAX
                || data_to_corner_map@[j] < 3 * total_num_faces,
            forall|x: int| 0 <= x < cap ==> (#[trigger] used@[x] <==> vertex_used(verts1, x)),
            forall|x: int| 0 <= x < v && #[trigger] used@[x] ==> new_id@[x] == vertex_rank(verts1, x),
            forall|x: int| 0 <= x < v && #[trigger] used@[x] ==> new_id@[x] < count,
        decreases cap - v,
    {
        if used[v] {
            new_id.push(count as u32);
            let corner = if v < old_vertex_to_corner_map.len() {
                old_vertex_to_corner_map[v]
            } else {
                u32::MAX
            };
            data_to_corner_map.push(corner);
            count = count + 1;
        } else {
            new_id.push(0);
        }
        v = v + 1;
    }
    let nf = total_num_faces;
    let mut f: usize = 0;
    while f < nf
        invariant
            t.ok(gn, gcap),
            n == gn,
            n == 3 * nf,
            nf == total_num_faces,
            3 * total_num_faces + 3 < INVALID_INDEX,
            f <= nf,
            t.verts@ == verts1,
            used@.len() == cap,
            new_id@.len() == cap,
            gcap == cap,
            count == vertex_rank(verts1, cap as int),
            forall|x: int| 0 <= x < cap ==> (#[trigger] used@[x] <==> vertex_used(verts1, x)),
            forall|x: int| 0 <= x < cap && #[trigger] used@[x] ==> new_id@[x] == vertex_rank(verts1, x),
            forall|x: int| 0 <= x < cap && #[trigger] used@[x] ==> new_id@[x] < count,
            mesh.faces_spec().len() == if old(mesh).faces_spec().len() < f {
                f as int
            } else {
                old(mesh).faces_spec().len() as int
            },
            mesh.cloud() == old(mesh).cloud(),
            forall|g: int| 0 <= g < f ==> #[trigger] mesh.faces_spec()[g] == renumbered_faces(verts1, nf as nat)[g],
            forall|g: int| 0 <= g < f ==> face_points_below(#[trigger] mesh.faces_spec()[g], count),
            forall|g: int| f <= g < old(mesh).faces_spec().len() ==> #[trigger] mesh.faces_spec()[g] == old(mesh).faces_spec()[g],
        decreases nf - f,
    {
        let base = f * 3;
        let v0 = t.verts[base];
        let v1 = t.verts[base + 1];
        let v2 = t.verts[base + 2];
        proof {
            assert(verts1[3 * f] == v0 && verts1[3 * f + 1] == v1 && verts1[3 * f + 2] == v2);
            assert(vertex_used(verts1, v0 as int));
            assert(vertex_used(verts1, v1 as int));
            assert(vertex_used(verts1, v2 as int));
            assert(used@[v0 as int] && used@[v1 as int] && used@[v2 as int]);
        }
        let face = [PointIndex(new_id[v0 as usize]), PointIndex(new_id[v1 as usize]), PointIndex(new_id[v2 as usize])];
        let ghost before = mesh.faces_spec();
        mesh.set_face(FaceIndex(f as u32), face);
        proof {
            let rf = renumbered_faces(verts1, nf as nat)[f as int];
            assert(face[0] == rf[0] && face[1] == rf[1] && face[2] == rf[2]);
            assert(face == rf);
            assert forall|g: int| 0 <= g < f + 1 implies #[trigger] mesh.faces_spec()[g] == renumbered_faces(
                verts1,
                nf as nat,
            )[g] && face_points_below(mesh.faces_spec()[g], count) by {
                if g < f {
                    assert(mesh.faces_spec()[g] == before[g]);
                }
            }
        }
        f = f + 1;
    }
    mesh.point_cloud_mut().set_num_points(count);
    let rec = Reconstruction { num_components, data_to_corner_map, seam_corners, num_points: count };
    proof {
        assert(start_faces(verts0, opps0, lmc0, st0, start_face_bits@, 0, num_symbols as nat, total_num_faces as nat)
            == Some((verts1, t.opps@, total_num_faces as nat)));
    }
    Ok(rec)
}

} // verus!
