//! The valence traversal decoder: it hands out the edgebreaker symbols of
//! a mesh from one stack of symbols per context, the context being chosen
//! by the valence (number of faces met so far) of the vertex reached next.
//!
//! The symbols of each context and the start-face bits are given as plain
//! values, already read from the stream.
use crate::corner_table::{next_corner, previous_corner, CornerTable};
use crate::edgebreaker_connectivity_decoder::EdgebreakerTraversalDecoder;
use crate::geometry_indices::{CornerIndex, VertexIndex, INVALID_INDEX};
use crate::mesh_edgebreaker_shared::{EdgeFaceName, TopologySplitEventData};
use vstd::prelude::*;

verus! {

/// The symbol handed out when a context has run out of symbols or holds an
/// unknown one.
pub const INVALID_SYMBOL: u32 = 0xFFFF_FFFF;

/// The smallest valence that has a context of its own.
pub const MIN_VALENCE: i32 = 2;

/// The largest valence that has a context of its own.
pub const MAX_VALENCE: i32 = 7;

/// The vertex of corner `c` in `t`, or the invalid vertex when `c` is not a
/// corner of `t`.
pub open spec fn vertex_or_invalid(t: &CornerTable, c: u32) -> u32 {
    if c != INVALID_INDEX && c < t.corner_to_vertex_map@.len() {
        t.corner_to_vertex_map@[c as int].0
    } else {
        INVALID_INDEX
    }
}

/// `vals` with `k` added (wrapped to 32 bits) to the valence of vertex `v`;
/// a vertex past them is left alone.
pub open spec fn valence_added(vals: Seq<i32>, v: u32, k: int) -> Seq<i32> {
    if v < vals.len() {
        vals.update(v as int, (vals[v as int] + k) as i32)
    } else {
        vals
    }
}

/// The valence of vertex `v`, 0 for a vertex past them.
pub open spec fn valence_of(vals: Seq<i32>, v: u32) -> i32 {
    if v < vals.len() {
        vals[v as int]
    } else {
        0
    }
}

/// The valences after the face of the last symbol `last` reaches corner `c`:
/// C and S add one to the two other vertices of the face, R adds one to the
/// tip and the next vertex and two to the previous one, L one to the tip and
/// the previous vertex and two to the next one, E two to all three.
pub open spec fn valences_after(vals: Seq<i32>, last: i32, vc: u32, vn: u32, vp: u32) -> Seq<i32> {
    if last == 0 || last == 1 {
        valence_added(valence_added(vals, vn, 1), vp, 1)
    } else if last == 3 {
        valence_added(valence_added(valence_added(vals, vc, 1), vn, 1), vp, 2)
    } else if last == 2 {
        valence_added(valence_added(valence_added(vals, vc, 1), vn, 2), vp, 1)
    } else if last == 4 {
        valence_added(valence_added(valence_added(vals, vc, 2), vn, 2), vp, 2)
    } else {
        vals
    }
}

/// The opposite corner of corner `c` in `t`, or the invalid corner when `c`
/// is not a corner of `t`.
pub open spec fn opposite_or_invalid(t: &CornerTable, c: u32) -> u32 {
    if c != INVALID_INDEX && c < t.opposite_corners@.len() {
        t.opposite_corners@[c as int].0
    } else {
        INVALID_INDEX
    }
}

/// How many ends at vertex `x` the edge opposite corner `k` has (0, 1 or 2),
/// counted only when that edge is new: `k` has no opposite corner yet.
pub open spec fn new_edge_ends(t: &CornerTable, k: u32, x: u32) -> int {
    if opposite_or_invalid(t, k) == INVALID_INDEX {
        (if vertex_or_invalid(t, next_corner(k)) == x { 1int } else { 0int }) + (if vertex_or_invalid(
            t,
            previous_corner(k),
        ) == x {
            1int
        } else {
            0int
        })
    } else {
        0
    }
}

/// How many new edges of the face of corner `c` (edges with no face across
/// them yet) meet vertex `x`.
pub open spec fn new_edges_at(t: &CornerTable, c: u32, x: u32) -> int {
    new_edge_ends(t, c, x) + new_edge_ends(t, next_corner(c), x) + new_edge_ends(t, previous_corner(c), x)
}

/// The face of corner `c` is joined to the faces decoded before it as the
/// symbol `last` that made it says: a C or S face across the edges at the
/// corners after and before `c`, an R face across the edge at the corner
/// before `c`, an L face across the edge at the corner after `c`, an E face
/// across none; the edge opposite `c` is new in every case.
pub open spec fn face_joined_as(t: &CornerTable, c: u32, last: i32) -> bool {
    let joined_next = opposite_or_invalid(t, next_corner(c)) != INVALID_INDEX;
    let joined_prev = opposite_or_invalid(t, previous_corner(c)) != INVALID_INDEX;
    &&& opposite_or_invalid(t, c) == INVALID_INDEX
    &&& 0 <= last <= 4
    &&& joined_next == (last == 0 || last == 1 || last == 2)
    &&& joined_prev == (last == 0 || last == 1 || last == 3)
}

/// The valences count edges: when the face of the last symbol reaches corner
/// `c`, each vertex's valence grows by the number of new edges of that face
/// at it (the edges no earlier face shares). So an E face adds two to each
/// of its vertices, an R face two to the vertex before `c`, an L face two to
/// the vertex after `c`, and a C or S face one to each end of the edge
/// opposite `c`.
pub proof fn lemma_valences_count_new_edges(vals: Seq<i32>, t: &CornerTable, c: u32, last: i32)
    requires
        c < t.corner_to_vertex_map@.len() < INVALID_INDEX,
        face_joined_as(t, c, last),
        forall|x: int| 0 <= x < vals.len() ==> #[trigger] vals[x] <= i32::MAX - 6,
    ensures
        ({
            let vals2 = valences_after(
                vals,
                last,
                vertex_or_invalid(t, c),
                vertex_or_invalid(t, next_corner(c)),
                vertex_or_invalid(t, previous_corner(c)),
            );
            &&& vals2.len() == vals.len()
            &&& forall|x: u32| x < vals.len() ==> #[trigger] vals2[x as int] == vals[x as int] + new_edges_at(t, c, x)
        }),
{
    let n = next_corner(c);
    let p = previous_corner(c);
    assert(next_corner(n) == p && previous_corner(n) == c);
    assert(next_corner(p) == c && previous_corner(p) == n);
    let vc = vertex_or_invalid(t, c);
    let vn = vertex_or_invalid(t, n);
    let vp = vertex_or_invalid(t, p);
    let vals2 = valences_after(vals, last, vc, vn, vp);
    assert forall|x: u32| x < vals.len() implies #[trigger] vals2[x as int] == vals[x as int] + new_edges_at(t, c, x) by {
        let k: int = (if vc == x { 1int } else { 0int });
        let kn: int = (if vn == x { 1int } else { 0int });
        let kp: int = (if vp == x { 1int } else { 0int });
        assert(new_edge_ends(t, c, x) == kn + kp);
        if last == 0 || last == 1 {
            assert(new_edges_at(t, c, x) == kn + kp);
        } else if last == 3 {
            assert(new_edge_ends(t, n, x) == kp + k);
            assert(new_edges_at(t, c, x) == k + kn + 2 * kp);
        } else if last == 2 {
            assert(new_edge_ends(t, p, x) == k + kn);
            assert(new_edges_at(t, c, x) == k + 2 * kn + kp);
        } else {
            assert(new_edge_ends(t, n, x) == kp + k);
            assert(new_edge_ends(t, p, x) == k + kn);
            assert(new_edges_at(t, c, x) == 2 * k + 2 * kn + 2 * kp);
        }
    }
}

/// The context of a vertex of valence `v`: the valence clamped to
/// `MIN_VALENCE ..= MAX_VALENCE`, counted from `MIN_VALENCE`.
pub open spec fn context_of(v: i32) -> i32 {
    if v < MIN_VALENCE {
        0
    } else if v > MAX_VALENCE {
        (MAX_VALENCE - MIN_VALENCE) as i32
    } else {
        (v - MIN_VALENCE) as i32
    }
}

/// Traversal decoder that picks each symbol from the context of the valence
/// of the vertex reached next.
pub struct MeshEdgebreakerTraversalValenceDecoder {
    num_vertices: usize,
    vertex_valences: Vec<i32>,
    last_symbol: i32,
    active_context: i32,
    context_symbols: Vec<Vec<u32>>,
    context_counters: Vec<i32>,
    topology_split_data: Vec<TopologySplitEventData>,
    split_event_remaining: usize,
    start_face_bits: Option<Vec<bool>>,
    start_face_bits_index: usize,
    processed_connectivity_corners: Vec<u32>,
}

impl MeshEdgebreakerTraversalValenceDecoder {
    /// The number of vertices that have a valence.
    pub closed spec fn num_vertices_spec(&self) -> usize {
        self.num_vertices
    }

    /// The valence of each vertex.
    pub closed spec fn valences(&self) -> Seq<i32> {
        self.vertex_valences@
    }

    /// The last symbol handed out (-1 before the first).
    pub closed spec fn last_symbol_spec(&self) -> i32 {
        self.last_symbol
    }

    /// The context of the next symbol (-1 before the first corner is reached).
    pub closed spec fn active_context_spec(&self) -> i32 {
        self.active_context
    }

    /// The symbols of each context; they are handed out from the back.
    pub closed spec fn contexts(&self) -> Seq<Seq<u32>> {
        self.context_symbols@.map_values(|v: Vec<u32>| v@)
    }

    /// How many symbols of each context are left.
    pub closed spec fn counters(&self) -> Seq<i32> {
        self.context_counters@
    }

    /// The topology split events, handed out from the back.
    pub closed spec fn split_events(&self) -> Seq<TopologySplitEventData> {
        self.topology_split_data@
    }

    /// How many topology split events are left.
    pub closed spec fn splits_remaining(&self) -> usize {
        self.split_event_remaining
    }

    /// The start-face bits read from the stream, if the stream has them.
    pub closed spec fn start_bits(&self) -> Option<Seq<bool>> {
        match self.start_face_bits {
            Some(b) => Some(b@),
            None => None,
        }
    }

    /// The number of start-face bits asked for so far.
    pub closed spec fn start_bit_index(&self) -> usize {
        self.start_face_bits_index
    }

    /// The corners reached, in order.
    pub closed spec fn processed(&self) -> Seq<u32> {
        self.processed_connectivity_corners@
    }

    /// Creates a decoder for the topology split events `topology_split_data`
    /// and the start-face bits `start_face_bits` (without them every start
    /// face is an interior one); no context holds symbols yet.
    pub fn new(topology_split_data: Vec<TopologySplitEventData>, start_face_bits: Option<Vec<bool>>) -> (r: Self)
        ensures
            r.num_vertices_spec() == 0,
            r.valences() == Seq::<i32>::empty(),
            r.last_symbol_spec() == -1,
            r.active_context_spec() == -1,
            r.contexts() == Seq::<Seq<u32>>::empty(),
            r.counters() == Seq::<i32>::empty(),
            r.split_events() == topology_split_data@,
            r.splits_remaining() == topology_split_data@.len(),
            r.start_bits() == (match start_face_bits {
                Some(b) => Some(b@),
                None => None,
            }),
            r.start_bit_index() == 0,
            r.processed() == Seq::<u32>::empty(),
    {
        let split_event_remaining = topology_split_data.len();
        let r = MeshEdgebreakerTraversalValenceDecoder {
            num_vertices: 0,
            vertex_valences: Vec::new(),
            last_symbol: -1,
            active_context: -1,
            context_symbols: Vec::new(),
            context_counters: Vec::new(),
            topology_split_data,
            split_event_remaining,
            start_face_bits,
            start_face_bits_index: 0,
            processed_connectivity_corners: Vec::new(),
        };
        assert(r.contexts() =~= Seq::<Seq<u32>>::empty());
        r
    }

    /// Gives `num_vertices` vertices a valence (new ones start at 0) and
    /// takes `context_symbols` as the symbols of the contexts, each context
    /// full.
    pub fn init_contexts(&mut self, num_vertices: usize, context_symbols: Vec<Vec<u32>>)
        requires
            forall|i: int| 0 <= i < context_symbols@.len() ==> #[trigger] context_symbols@[i]@.len() <= i32::MAX,
        ensures
            final(self).num_vertices_spec() == num_vertices,
            final(self).valences().len() == num_vertices,
            forall|v: int|
                0 <= v < num_vertices ==> #[trigger] final(self).valences()[v] == if v < old(self).valences().len() {
                    old(self).valences()[v]
                } else {
                    0
                },
            final(self).contexts() == context_symbols@.map_values(|v: Vec<u32>| v@),
            final(self).counters().len() == context_symbols@.len(),
            forall|i: int|
                0 <= i < context_symbols@.len() ==> #[trigger] final(self).counters()[i] == context_symbols@[i]@.len(),
            final(self).last_symbol_spec() == old(self).last_symbol_spec(),
            final(self).active_context_spec() == old(self).active_context_spec(),
            final(self).split_events() == old(self).split_events(),
            final(self).splits_remaining() == old(self).splits_remaining(),
            final(self).start_bits() == old(self).start_bits(),
            final(self).start_bit_index() == old(self).start_bit_index(),
            final(self).processed() == old(self).processed(),
    {
        self.num_vertices = num_vertices;
        let mut vals: Vec<i32> = Vec::new();
        std::mem::swap(&mut vals, &mut self.vertex_valences);
        let ghost old_vals = vals@;
        if vals.len() > num_vertices {
            vals.truncate(num_vertices);
        }
        let ghost before = vals@;
        while vals.len() < num_vertices
            invariant
                before.len() <= vals@.len() <= num_vertices,
                before.len() <= num_vertices,
                forall|v: int| 0 <= v < before.len() ==> #[trigger] vals@[v] == before[v],
                forall|v: int| before.len() <= v < vals@.len() ==> #[trigger] vals@[v] == 0,
            decreases num_vertices - vals@.len(),
        {
            vals.push(0);
        }
        assert forall|v: int| 0 <= v < num_vertices implies #[trigger] vals@[v] == if v < old_vals.len() {
            old_vals[v]
        } else {
            0
        } by {
            if v < before.len() {
                assert(vals@[v] == before[v]);
            }
        }
        self.vertex_valences = vals;
        let mut counters: Vec<i32> = Vec::new();
        let n = context_symbols.len();
        for i in 0..n
            invariant
                n == context_symbols@.len(),
                counters@.len() == i,
                forall|j: int| 0 <= j < context_symbols@.len() ==> #[trigger] context_symbols@[j]@.len() <= i32::MAX,
                forall|j: int| 0 <= j < i ==> #[trigger] counters@[j] == context_symbols@[j]@.len(),
        {
            counters.push(context_symbols[i].len() as i32);
        }
        self.context_symbols = context_symbols;
        self.context_counters = counters;
    }

    /// Adds `k` (wrapped to 32 bits) to the valence of vertex `v`, if it has
    /// one.
    fn add_valence(&mut self, v: u32, k: i32)
        ensures
            final(self).valences() == valence_added(old(self).valences(), v, k as int),
            final(self).num_vertices_spec() == old(self).num_vertices_spec(),
            final(self).last_symbol_spec() == old(self).last_symbol_spec(),
            final(self).active_context_spec() == old(self).active_context_spec(),
            final(self).contexts() == old(self).contexts(),
            final(self).counters() == old(self).counters(),
            final(self).split_events() == old(self).split_events(),
            final(self).splits_remaining() == old(self).splits_remaining(),
            final(self).start_bits() == old(self).start_bits(),
            final(self).start_bit_index() == old(self).start_bit_index(),
            final(self).processed() == old(self).processed(),
    {
        let vi = v as usize;
        if vi < self.vertex_valences.len() {
            let sum: i64 = self.vertex_valences[vi] as i64 + k as i64;
            self.vertex_valences.set(vi, sum as i32);
        }
    }
}

/// The vertex of corner `c` in `t`, or the invalid vertex when `c` is not a
/// corner of `t`.
fn corner_vertex(t: &CornerTable, c: CornerIndex) -> (r: u32)
    ensures
        r == vertex_or_invalid(t, c.0),
{
    if c.0 != INVALID_INDEX && (c.0 as usize) < t.corner_to_vertex_map.len() {
        t.corner_to_vertex_map[c.0 as usize].0
    } else {
        INVALID_INDEX
    }
}

impl EdgebreakerTraversalDecoder for MeshEdgebreakerTraversalValenceDecoder {
    /// Before the first corner is reached the symbol is E. Afterwards it is
    /// the next symbol, from the back, of the active context; a context that
    /// has run out, is missing or holds a symbol past E gives the invalid
    /// symbol (the counter still moves down).
    fn decode_symbol(&mut self) -> (r: u32)
        ensures
            ({
                let ctx = old(self).active_context_spec();
                let cs = old(self).counters();
                if ctx == -1 {
                    &&& r == 4
                    &&& final(self).last_symbol_spec() == 4
                    &&& final(self).counters() == cs
                } else if !(0 <= ctx < cs.len() && ctx < old(self).contexts().len()) {
                    &&& r == INVALID_SYMBOL
                    &&& final(self).last_symbol_spec() == old(self).last_symbol_spec()
                    &&& final(self).counters() == cs
                } else {
                    let c = cs[ctx as int];
                    let k = if c > i32::MIN {
                        (c - 1) as i32
                    } else {
                        c
                    };
                    let syms = old(self).contexts()[ctx as int];
                    &&& final(self).counters() == cs.update(ctx as int, k)
                    &&& if k < 0 || k >= syms.len() || syms[k as int] > 4 {
                        r == INVALID_SYMBOL && final(self).last_symbol_spec() == old(self).last_symbol_spec()
                    } else {
                        r == syms[k as int] && final(self).last_symbol_spec() == r
                    }
                }
            }),
            final(self).num_vertices_spec() == old(self).num_vertices_spec(),
            final(self).valences() == old(self).valences(),
            final(self).active_context_spec() == old(self).active_context_spec(),
            final(self).contexts() == old(self).contexts(),
            final(self).split_events() == old(self).split_events(),
            final(self).splits_remaining() == old(self).splits_remaining(),
            final(self).start_bits() == old(self).start_bits(),
            final(self).start_bit_index() == old(self).start_bit_index(),
            final(self).processed() == old(self).processed(),
    {
        if self.active_context == -1 {
            self.last_symbol = 4;
            return 4;
        }
        let ctx = self.active_context;
        if ctx < 0 || ctx as usize >= self.context_counters.len() || ctx as usize >= self.context_symbols.len() {
            return INVALID_SYMBOL;
        }
        let ci = ctx as usize;
        let c = self.context_counters[ci];
        let k = if c > i32::MIN {
            c - 1
        } else {
            c
        };
        self.context_counters.set(ci, k);
        if k < 0 || k as usize >= self.context_symbols[ci].len() {
            return INVALID_SYMBOL;
        }
        let symbol = self.context_symbols[ci][k as usize];
        if symbol > 4 {
            return INVALID_SYMBOL;
        }
        self.last_symbol = symbol as i32;
        symbol
    }

    /// The next start-face bit of the stream, true past their end; true
    /// when the stream has none.
    fn decode_start_face_configuration(&mut self) -> (r: bool)
        ensures
            match old(self).start_bits() {
                Some(b) => {
                    &&& r == if old(self).start_bit_index() < b.len() {
                        b[old(self).start_bit_index() as int]
                    } else {
                        true
                    }
                    &&& final(self).start_bit_index() == if old(self).start_bit_index() < usize::MAX {
                        (old(self).start_bit_index() + 1) as usize
                    } else {
                        old(self).start_bit_index()
                    }
                },
                None => r && final(self).start_bit_index() == old(self).start_bit_index(),
            },
            final(self).num_vertices_spec() == old(self).num_vertices_spec(),
            final(self).valences() == old(self).valences(),
            final(self).last_symbol_spec() == old(self).last_symbol_spec(),
            final(self).active_context_spec() == old(self).active_context_spec(),
            final(self).contexts() == old(self).contexts(),
            final(self).counters() == old(self).counters(),
            final(self).split_events() == old(self).split_events(),
            final(self).splits_remaining() == old(self).splits_remaining(),
            final(self).start_bits() == old(self).start_bits(),
            final(self).processed() == old(self).processed(),
    {
        let idx = self.start_face_bits_index;
        match &self.start_face_bits {
            Some(bits) => {
                let r = if idx < bits.len() {
                    bits[idx]
                } else {
                    true
                };
                if idx < usize::MAX {
                    self.start_face_bits_index = idx + 1;
                }
                r
            },
            None => true,
        }
    }

    /// Adds the valence of `source` to that of `dest` (wrapped to 32 bits)
    /// when both have one.
    fn merge_vertices(&mut self, dest: VertexIndex, source: VertexIndex)
        ensures
            final(self).valences() == if dest.0 < old(self).valences().len() && source.0 < old(
                self,
            ).valences().len() {
                old(self).valences().update(
                    dest.0 as int,
                    (old(self).valences()[dest.0 as int] + old(self).valences()[source.0 as int]) as i32,
                )
            } else {
                old(self).valences()
            },
            final(self).num_vertices_spec() == old(self).num_vertices_spec(),
            final(self).last_symbol_spec() == old(self).last_symbol_spec(),
            final(self).active_context_spec() == old(self).active_context_spec(),
            final(self).contexts() == old(self).contexts(),
            final(self).counters() == old(self).counters(),
            final(self).split_events() == old(self).split_events(),
            final(self).splits_remaining() == old(self).splits_remaining(),
            final(self).start_bits() == old(self).start_bits(),
            final(self).start_bit_index() == old(self).start_bit_index(),
            final(self).processed() == old(self).processed(),
    {
        let d = dest.0 as usize;
        let s = source.0 as usize;
        if d < self.vertex_valences.len() && s < self.vertex_valences.len() {
            let sum: i64 = self.vertex_valences[d] as i64 + self.vertex_valences[s] as i64;
            self.vertex_valences.set(d, sum as i32);
        }
    }

    /// Looks at the last topology split event not handed out yet: if it
    /// belongs to `encoder_symbol_id` it is handed out (its edge and split
    /// symbol); if it belongs to a later symbol, the answer is the left edge
    /// and split symbol -1; otherwise there is none.
    fn is_topology_split(&mut self, encoder_symbol_id: i32) -> (r: Option<(EdgeFaceName, i32)>)
        ensures
            ({
                let rem = old(self).splits_remaining();
                let evs = old(self).split_events();
                if 0 < rem <= evs.len() {
                    let e = evs[rem - 1];
                    if e.source_symbol_id == encoder_symbol_id as u32 {
                        &&& r == Some((e.source_edge, e.split_symbol_id as i32))
                        &&& final(self).splits_remaining() == rem - 1
                    } else if e.source_symbol_id > encoder_symbol_id as u32 {
                        &&& r == Some((EdgeFaceName::LeftFaceEdge, -1i32))
                        &&& final(self).splits_remaining() == rem
                    } else {
                        &&& r is None
                        &&& final(self).splits_remaining() == rem
                    }
                } else {
                    &&& r is None
                    &&& final(self).splits_remaining() == rem
                }
            }),
            final(self).num_vertices_spec() == old(self).num_vertices_spec(),
            final(self).valences() == old(self).valences(),
            final(self).last_symbol_spec() == old(self).last_symbol_spec(),
            final(self).active_context_spec() == old(self).active_context_spec(),
            final(self).contexts() == old(self).contexts(),
            final(self).counters() == old(self).counters(),
            final(self).split_events() == old(self).split_events(),
            final(self).start_bits() == old(self).start_bits(),
            final(self).start_bit_index() == old(self).start_bit_index(),
            final(self).processed() == old(self).processed(),
    {
        let rem = self.split_event_remaining;
        if rem > 0 && rem <= self.topology_split_data.len() {
            let e = self.topology_split_data[rem - 1];
            if e.source_symbol_id == encoder_symbol_id as u32 {
                self.split_event_remaining = rem - 1;
                return Some((e.source_edge, e.split_symbol_id as i32));
            } else if e.source_symbol_id > encoder_symbol_id as u32 {
                return Some((EdgeFaceName::LeftFaceEdge, -1));
            }
        }
        None
    }

    /// Gives a new vertex a valence of 0, growing the valences up to it (the
    /// invalid vertex gets none).
    fn on_vertex_created(&mut self, vertex: VertexIndex, _symbol_id: i32, _corner_index: i32)
        ensures
            vertex.0 == INVALID_INDEX || vertex.0 < old(self).valences().len() ==> {
                &&& final(self).valences() == old(self).valences()
                &&& final(self).num_vertices_spec() == old(self).num_vertices_spec()
            },
            vertex.0 != INVALID_INDEX && vertex.0 >= old(self).valences().len() ==> {
                &&& final(self).valences() == old(self).valences() + Seq::new(
                    (vertex.0 + 1 - old(self).valences().len()) as nat,
                    |i: int| 0i32,
                )
                &&& final(self).num_vertices_spec() == vertex.0 + 1
            },
            final(self).last_symbol_spec() == old(self).last_symbol_spec(),
            final(self).active_context_spec() == old(self).active_context_spec(),
            final(self).contexts() == old(self).contexts(),
            final(self).counters() == old(self).counters(),
            final(self).split_events() == old(self).split_events(),
            final(self).splits_remaining() == old(self).splits_remaining(),
            final(self).start_bits() == old(self).start_bits(),
            final(self).start_bit_index() == old(self).start_bit_index(),
            final(self).processed() == old(self).processed(),
    {
        if vertex.0 == INVALID_INDEX {
            return;
        }
        let target = vertex.0 as usize + 1;
        if self.vertex_valences.len() >= target {
            return;
        }
        let mut vals: Vec<i32> = Vec::new();
        std::mem::swap(&mut vals, &mut self.vertex_valences);
        let ghost before = vals@;
        while vals.len() < target
            invariant
                before.len() <= vals@.len() <= target,
                vals@ == before + Seq::new((vals@.len() - before.len()) as nat, |i: int| 0i32),
            decreases target - vals@.len(),
        {
            vals.push(0);
            assert(vals@ =~= before + Seq::new((vals@.len() - before.len()) as nat, |i: int| 0i32));
        }
        self.num_vertices = vals.len();
        self.vertex_valences = vals;
    }

    fn on_vertices_swapped(&mut self, _v1: VertexIndex, _v2: VertexIndex) {
    }

    fn on_start_face_decoded(&mut self, _corner: CornerIndex) {
    }

    /// Adds the valences that the face of the last symbol gives the vertices
    /// of `corner`'s face, makes the context that of the vertex after
    /// `corner`, and records `corner` as reached.
    fn new_active_corner_reached(&mut self, corner: CornerIndex, corner_table: &CornerTable)
        ensures
            ({
                let vc = vertex_or_invalid(corner_table, corner.0);
                let vn = vertex_or_invalid(corner_table, next_corner(corner.0));
                let vp = vertex_or_invalid(corner_table, previous_corner(corner.0));
                let vals = valences_after(old(self).valences(), old(self).last_symbol_spec(), vc, vn, vp);
                &&& final(self).valences() == vals
                &&& final(self).active_context_spec() == context_of(valence_of(vals, vn))
            }),
            corner.0 < corner_table.corner_to_vertex_map@.len() < INVALID_INDEX && face_joined_as(
                corner_table,
                corner.0,
                old(self).last_symbol_spec(),
            ) && (forall|x: int| 0 <= x < old(self).valences().len() ==> #[trigger] old(self).valences()[x] <= i32::MAX - 6)
                ==> forall|x: u32|
                x < old(self).valences().len() ==> #[trigger] final(self).valences()[x as int] == old(self).valences()[x as int]
                    + new_edges_at(corner_table, corner.0, x),
            final(self).processed() == old(self).processed().push(corner.0),
            final(self).num_vertices_spec() == old(self).num_vertices_spec(),
            final(self).last_symbol_spec() == old(self).last_symbol_spec(),
            final(self).contexts() == old(self).contexts(),
            final(self).counters() == old(self).counters(),
            final(self).split_events() == old(self).split_events(),
            final(self).splits_remaining() == old(self).splits_remaining(),
            final(self).start_bits() == old(self).start_bits(),
            final(self).start_bit_index() == old(self).start_bit_index(),
    {
        let next = corner_table.next(corner);
        let prev = corner_table.previous(corner);
        let vc = corner_vertex(corner_table, corner);
        let vn = corner_vertex(corner_table, next);
        let vp = corner_vertex(corner_table, prev);
        let last = self.last_symbol;
        if last == 0 || last == 1 {
            self.add_valence(vn, 1);
            self.add_valence(vp, 1);
        } else if last == 3 {
            self.add_valence(vc, 1);
            self.add_valence(vn, 1);
            self.add_valence(vp, 2);
        } else if last == 2 {
            self.add_valence(vc, 1);
            self.add_valence(vn, 2);
            self.add_valence(vp, 1);
        } else if last == 4 {
            self.add_valence(vc, 2);
            self.add_valence(vn, 2);
            self.add_valence(vp, 2);
        }
        let active_valence = if (vn as usize) < self.vertex_valences.len() {
            self.vertex_valences[vn as usize]
        } else {
            0
        };
        let clamped = if active_valence < MIN_VALENCE {
            MIN_VALENCE
        } else if active_valence > MAX_VALENCE {
            MAX_VALENCE
        } else {
            active_valence
        };
        self.active_context = clamped - MIN_VALENCE;
        self.processed_connectivity_corners.push(corner.0);
        proof {
            if corner.0 < corner_table.corner_to_vertex_map@.len() < INVALID_INDEX && face_joined_as(
                corner_table,
                corner.0,
                old(self).last_symbol_spec(),
            ) && (forall|x: int| 0 <= x < old(self).valences().len() ==> #[trigger] old(self).valences()[x] <= i32::MAX - 6) {
                lemma_valences_count_new_edges(old(self).valences(), corner_table, corner.0, old(self).last_symbol_spec());
            }
        }
    }
}

} // verus!
