//! Parallelogram prediction of mesh attribute values.
//!
//! An attribute entry whose corner has an opposite corner is predicted as
//! the fourth point of the parallelogram spanned by the face across that
//! edge: `next + previous - opposite`, component by component, provided the
//! three entries of that face come before it. Otherwise it is predicted by
//! the entry just before it, and the first entry by zeros.
use crate::corner_table::{next_corner, previous_corner, CornerTable};
use crate::decoder_buffer::DecoderBuffer;
use crate::geometry_attribute::{GeometryAttributeType, PointAttribute};
use crate::geometry_indices::{CornerIndex, INVALID_INDEX};
use crate::mesh_prediction_scheme_data::MeshPredictionSchemeData;
use crate::prediction_scheme::{
    PredictionScheme, PredictionSchemeDecoder, PredictionSchemeDecodingTransform, PredictionSchemeEncoder,
    PredictionSchemeEncodingTransform, PredictionSchemeMethod, PredictionSchemeTransformType,
};
use std::marker::PhantomData;
use vstd::arithmetic::mul::*;
use vstd::prelude::*;

verus! {

/// A value type that parallelogram prediction can combine.
pub trait ParallelogramDataType: Copy + Default + Sized + 'static {
    /// The value predicted from the `next`, `prev` and `opp` values of a
    /// parallelogram.
    spec fn parallelogram_spec(next: Self, prev: Self, opp: Self) -> Self;

    fn compute_parallelogram_prediction(next: Self, prev: Self, opp: Self) -> (r: Self)
        ensures
            r == Self::parallelogram_spec(next, prev, opp),
    ;
}

impl ParallelogramDataType for i32 {
    /// `next + prev - opp`, wrapped to 32 bits.
    open spec fn parallelogram_spec(next: i32, prev: i32, opp: i32) -> i32 {
        ((next + prev) - opp) as i32
    }

    fn compute_parallelogram_prediction(next: i32, prev: i32, opp: i32) -> (r: i32) {
        ((next as i64 + prev as i64) - opp as i64) as i32
    }
}

/// Corner `c` is the invalid corner, or the three corners of its face have
/// vertices, and those vertices have places in `vertex_to_data`.
pub open spec fn face_mapped(table: &CornerTable, vertex_to_data: Seq<i32>, c: u32) -> bool {
    c == INVALID_INDEX || {
        &&& c < table.corner_to_vertex_map@.len()
        &&& next_corner(c) < table.corner_to_vertex_map@.len()
        &&& previous_corner(c) < table.corner_to_vertex_map@.len()
        &&& table.vertex_spec(c) < vertex_to_data.len()
        &&& table.vertex_spec(next_corner(c)) < vertex_to_data.len()
        &&& table.vertex_spec(previous_corner(c)) < vertex_to_data.len()
    }
}

/// Corner `c` can be used for a prediction: its opposite corner can be
/// looked up, and the face of that opposite corner is mapped.
pub open spec fn predicting_corner_ok(table: &CornerTable, vertex_to_data: Seq<i32>, c: u32) -> bool {
    table.opposite_arg_ok(c) && face_mapped(table, vertex_to_data, table.opposite_spec(c))
}

/// The entries `(opposite, next, previous)` of the parallelogram that
/// predicts entry `entry` from corner `c`: those of the face across the edge
/// that `c` faces, when all three are entries before `entry`.
pub open spec fn parallelogram_sources(
    table: &CornerTable,
    vertex_to_data: Seq<i32>,
    c: u32,
    entry: i32,
) -> Option<(int, int, int)> {
    let oc = table.opposite_spec(c);
    if oc == INVALID_INDEX {
        None
    } else {
        let o = vertex_to_data[table.vertex_spec(oc) as int];
        let n = vertex_to_data[table.vertex_spec(next_corner(oc)) as int];
        let p = vertex_to_data[table.vertex_spec(previous_corner(oc)) as int];
        if 0 <= o && 0 <= n && 0 <= p && o < entry && n < entry && p < entry {
            Some((o as int, n as int, p as int))
        } else {
            None
        }
    }
}

/// The parallelogram prediction, component by component, of a value from
/// the entries `src` (opposite, next, previous) of `data`, where each entry
/// has `nc` components.
pub open spec fn parallelogram_values<D: ParallelogramDataType>(data: Seq<D>, nc: int, src: (int, int, int)) -> Seq<D> {
    Seq::new(
        nc as nat,
        |k: int| D::parallelogram_spec(data[src.1 * nc + k], data[src.2 * nc + k], data[src.0 * nc + k]),
    )
}

/// Entry `q` of `data`, where each entry has `nc` components.
pub open spec fn entry_of<T>(data: Seq<T>, nc: int, q: int) -> Seq<T> {
    data.subrange(q * nc, q * nc + nc)
}

/// Entries `q` and `r > q` do not overlap.
proof fn lemma_entry_offsets(q: int, r: int, nc: int)
    requires
        0 <= q < r,
        0 <= nc,
    ensures
        0 <= q * nc,
        q * nc + nc <= r * nc,
{
    lemma_mul_inequality(q + 1, r, nc);
    lemma_mul_is_distributive_add_other_way(nc, q, 1);
    lemma_mul_nonnegative(q, nc);
}

/// Computes into the first `num_components` values of `out_prediction` the
/// parallelogram prediction of entry `data_entry_id` from corner `ci`, and
/// returns whether there is one; `out_prediction` is left as it was if not.
fn compute_parallelogram_prediction<D: ParallelogramDataType>(
    data_entry_id: i32,
    ci: CornerIndex,
    table: &CornerTable,
    vertex_to_data_map: &[i32],
    in_data: &[D],
    num_components: usize,
    out_prediction: &mut [D],
) -> (r: bool)
    requires
        predicting_corner_ok(table, vertex_to_data_map@, ci.0),
        data_entry_id * num_components <= in_data@.len(),
        num_components <= old(out_prediction)@.len(),
    ensures
        r == parallelogram_sources(table, vertex_to_data_map@, ci.0, data_entry_id) is Some,
        final(out_prediction)@.len() == old(out_prediction)@.len(),
        r ==> final(out_prediction)@.subrange(0, num_components as int) == parallelogram_values(
            in_data@,
            num_components as int,
            parallelogram_sources(table, vertex_to_data_map@, ci.0, data_entry_id)->0,
        ),
        r ==> final(out_prediction)@.subrange(num_components as int, final(out_prediction)@.len() as int)
            == old(out_prediction)@.subrange(num_components as int, old(out_prediction)@.len() as int),
        !r ==> final(out_prediction)@ == old(out_prediction)@,
{
    let oci = table.opposite(ci);
    if oci.0 == INVALID_INDEX {
        return false;
    }
    let vert_opp = vertex_to_data_map[table.vertex(oci).0 as usize];
    let vert_next = vertex_to_data_map[table.vertex(table.next(oci)).0 as usize];
    let vert_prev = vertex_to_data_map[table.vertex(table.previous(oci)).0 as usize];

    if vert_opp >= 0 && vert_next >= 0 && vert_prev >= 0 && vert_opp < data_entry_id && vert_next < data_entry_id
        && vert_prev < data_entry_id {
        let ghost nc = num_components as int;
        proof {
            lemma_entry_offsets(vert_opp as int, data_entry_id as int, nc);
            lemma_entry_offsets(vert_next as int, data_entry_id as int, nc);
            lemma_entry_offsets(vert_prev as int, data_entry_id as int, nc);
        }
        let in_len = in_data.len();
        let vo = vert_opp as usize;
        let vn = vert_next as usize;
        let vp = vert_prev as usize;
        assert(vo * nc + nc <= in_data@.len());
        assert(vn * nc + nc <= in_data@.len());
        assert(vp * nc + nc <= in_data@.len());
        let v_opp_off = vo * num_components;
        let v_next_off = vn * num_components;
        let v_prev_off = vp * num_components;
        let ghost src = (vert_opp as int, vert_next as int, vert_prev as int);
        let ghost values = parallelogram_values(in_data@, num_components as int, src);
        for c in 0..num_components
            invariant
                v_opp_off == src.0 * num_components,
                v_next_off == src.1 * num_components,
                v_prev_off == src.2 * num_components,
                in_len == in_data@.len(),
                v_opp_off + num_components <= in_data@.len(),
                v_next_off + num_components <= in_data@.len(),
                v_prev_off + num_components <= in_data@.len(),
                values == parallelogram_values(in_data@, num_components as int, src),
                out_prediction@.len() == old(out_prediction)@.len(),
                num_components <= out_prediction@.len(),
                forall|k: int| 0 <= k < c ==> out_prediction@[k] == values[k],
                forall|k: int| c <= k < out_prediction@.len() ==> out_prediction@[k] == old(out_prediction)@[k],
        {
            out_prediction[c] = D::compute_parallelogram_prediction(
                in_data[v_next_off + c],
                in_data[v_prev_off + c],
                in_data[v_opp_off + c],
            );
            assert(values[c as int] == out_prediction@[c as int]);
        }
        assert(out_prediction@.subrange(0, num_components as int) =~= values);
        assert(out_prediction@.subrange(num_components as int, out_prediction@.len() as int) =~= old(
            out_prediction,
        )@.subrange(num_components as int, old(out_prediction)@.len() as int));
        return true;
    }
    false
}

/// Encoding transform of parallelogram prediction: each correction is the
/// original value minus the predicted one, wrapped to 32 bits.
pub struct PredictionSchemeParallelogramEncodingTransform<DataType, CorrType> {
    _marker: PhantomData<(DataType, CorrType)>,
}

impl<DataType, CorrType> PredictionSchemeParallelogramEncodingTransform<DataType, CorrType> {
    pub fn new() -> Self {
        Self { _marker: PhantomData }
    }
}

impl<DataType, CorrType> Default for PredictionSchemeParallelogramEncodingTransform<DataType, CorrType> {
    fn default() -> Self {
        Self::new()
    }
}

/// `original - predicted`, value by value, wrapped to 32 bits.
pub open spec fn wrapped_differences(original: Seq<i32>, predicted: Seq<i32>) -> Seq<i32> {
    Seq::new(original.len(), |i: int| (original[i] - predicted[i]) as i32)
}

/// `predicted + correction`, value by value, wrapped to 32 bits.
pub open spec fn wrapped_sums(predicted: Seq<i32>, corrections: Seq<i32>) -> Seq<i32> {
    Seq::new(predicted.len(), |i: int| (predicted[i] + corrections[i]) as i32)
}

impl PredictionSchemeEncodingTransform<i32, i32> for PredictionSchemeParallelogramEncodingTransform<i32, i32> {
    open spec fn corrections(&self, original: Seq<i32>, predicted: Seq<i32>) -> Seq<i32> {
        wrapped_differences(original, predicted)
    }

    open spec fn transform_type(&self) -> PredictionSchemeTransformType {
        PredictionSchemeTransformType::Parallelogram
    }

    fn get_type(&self) -> (r: PredictionSchemeTransformType) {
        PredictionSchemeTransformType::Parallelogram
    }

    fn init(&mut self, _orig_data: &[i32], _size: usize, _num_components: usize)
        ensures
            *final(self) == *old(self),
    {
    }

    fn compute_correction(&self, original_vals: &[i32], predicted_vals: &[i32], out_corr_vals: &mut [i32]) {
        let n = original_vals.len();
        for i in 0..n
            invariant
                n == original_vals@.len(),
                predicted_vals@.len() == n,
                out_corr_vals@.len() == n,
                forall|k: int| 0 <= k < i ==> out_corr_vals@[k] == (original_vals@[k] - predicted_vals@[k]) as i32,
        {
            let o: i64 = original_vals[i] as i64;
            let p: i64 = predicted_vals[i] as i64;
            let diff = (o - p) as i32;
            out_corr_vals[i] = diff;
        }
        assert(out_corr_vals@ =~= wrapped_differences(original_vals@, predicted_vals@));
    }

    /// There are no parameters to write.
    open spec fn transform_data_encoding(&self, buffer: Seq<u8>) -> (bool, Seq<u8>) {
        (true, buffer)
    }

    fn encode_transform_data(&mut self, _buffer: &mut Vec<u8>) -> (r: bool)
        ensures
            r,
            final(_buffer)@ == old(_buffer)@,
    {
        true
    }
}

/// Decoding transform of parallelogram prediction: each value is the
/// predicted value plus the correction, wrapped to 32 bits.
pub struct PredictionSchemeParallelogramDecodingTransform<DataType, CorrType> {
    _marker: PhantomData<(DataType, CorrType)>,
}

impl<DataType, CorrType> PredictionSchemeParallelogramDecodingTransform<DataType, CorrType> {
    pub fn new() -> Self {
        Self { _marker: PhantomData }
    }
}

impl<DataType, CorrType> Default for PredictionSchemeParallelogramDecodingTransform<DataType, CorrType> {
    fn default() -> Self {
        Self::new()
    }
}

impl PredictionSchemeDecodingTransform<i32, i32> for PredictionSchemeParallelogramDecodingTransform<i32, i32> {
    open spec fn originals(&self, predicted: Seq<i32>, corrections: Seq<i32>) -> Seq<i32> {
        wrapped_sums(predicted, corrections)
    }

    open spec fn transform_type(&self) -> PredictionSchemeTransformType {
        PredictionSchemeTransformType::Parallelogram
    }

    fn get_type(&self) -> (r: PredictionSchemeTransformType) {
        PredictionSchemeTransformType::Parallelogram
    }

    fn init(&mut self, _num_components: usize)
        ensures
            *final(self) == *old(self),
    {
    }

    fn compute_original_value(&self, predicted_vals: &[i32], corr_vals: &[i32], out_original_vals: &mut [i32]) {
        let n = predicted_vals.len();
        for i in 0..n
            invariant
                n == predicted_vals@.len(),
                corr_vals@.len() == n,
                out_original_vals@.len() == n,
                forall|k: int| 0 <= k < i ==> out_original_vals@[k] == (predicted_vals@[k] + corr_vals@[k]) as i32,
        {
            let p: i64 = predicted_vals[i] as i64;
            let c: i32 = corr_vals[i];
            let o = p + c as i64;
            out_original_vals[i] = o as i32;
        }
        assert(out_original_vals@ =~= wrapped_sums(predicted_vals@, corr_vals@));
    }

    /// There are no parameters to read.
    open spec fn transform_data_decoding(&self, buffer: DecoderBuffer) -> (bool, DecoderBuffer, Self) {
        (true, buffer, *self)
    }

    fn decode_transform_data(&mut self, _buffer: &mut DecoderBuffer) -> (r: bool)
        ensures
            r,
            *final(_buffer) == *old(_buffer),
    {
        true
    }
}

/// The mesh data holds a corner table and both maps, and the corner of
/// every entry can be used for a prediction.
pub open spec fn mesh_data_ready(md: MeshPredictionSchemeData) -> bool {
    &&& md.table_spec() is Some
    &&& md.data_to_corner_spec() is Some
    &&& md.vertex_to_data_spec() is Some
    &&& forall|q: int|
        0 <= q < md.data_to_corner_spec()->0.len() ==> #[trigger] predicting_corner_ok(
            md.table_spec()->0,
            md.vertex_to_data_spec()->0,
            md.data_to_corner_spec()->0[q],
        )
}

/// The number of entries that the scheme processes: one per entry of the
/// corner map, and at least one.
pub open spec fn num_entries(md: MeshPredictionSchemeData) -> int {
    let n = md.data_to_corner_spec()->0.len();
    if n == 0 {
        1
    } else {
        n as int
    }
}

/// `nc` zeros.
pub open spec fn zeros(nc: int) -> Seq<i32> {
    Seq::new(nc as nat, |k: int| 0i32)
}

/// The prediction of entry `q` from the values `data`, with `nc` components
/// per entry: zeros for the first entry; the parallelogram prediction from
/// the corner of the entry, if there is one; else the entry before it.
pub open spec fn predicted_entry(md: MeshPredictionSchemeData, data: Seq<i32>, nc: int, q: int) -> Seq<i32> {
    if q == 0 {
        zeros(nc)
    } else {
        match parallelogram_sources(
            md.table_spec()->0,
            md.vertex_to_data_spec()->0,
            md.data_to_corner_spec()->0[q],
            q as i32,
        ) {
            Some(src) => parallelogram_values(data, nc, src),
            None => entry_of(data, nc, q - 1),
        }
    }
}

/// `corr` holds, entry by entry, the corrections that transform `t`
/// computes for the values `data` and their predictions.
pub open spec fn encodes_entries<T: PredictionSchemeEncodingTransform<i32, i32>>(
    md: MeshPredictionSchemeData,
    t: T,
    data: Seq<i32>,
    corr: Seq<i32>,
    nc: int,
) -> bool {
    forall|q: int|
        0 <= q < num_entries(md) ==> #[trigger] entry_of(corr, nc, q) == t.corrections(
            entry_of(data, nc, q),
            predicted_entry(md, data, nc, q),
        )
}

/// `data` holds, entry by entry, the values that transform `t` restores
/// from the corrections `corr` and the predictions from the entries of
/// `data` before them.
pub open spec fn decodes_entries<T: PredictionSchemeDecodingTransform<i32, i32>>(
    md: MeshPredictionSchemeData,
    t: T,
    corr: Seq<i32>,
    data: Seq<i32>,
    nc: int,
) -> bool {
    forall|q: int|
        0 <= q < num_entries(md) ==> #[trigger] entry_of(data, nc, q) == t.originals(
            predicted_entry(md, data, nc, q),
            entry_of(corr, nc, q),
        )
}

/// `new` is `old` with the `nc` values from `p * nc` replaced by `e`.
proof fn lemma_write_entry(old_s: Seq<i32>, new_s: Seq<i32>, e: Seq<i32>, nc: int, p: int)
    requires
        0 <= p,
        0 <= nc,
        e.len() == nc,
        p * nc + nc <= old_s.len(),
        new_s == old_s.subrange(0, p * nc) + e + old_s.subrange(p * nc + nc, old_s.len() as int),
    ensures
        new_s.len() == old_s.len(),
        entry_of(new_s, nc, p) == e,
        forall|i: int| 0 <= i < p * nc ==> new_s[i] == old_s[i],
        forall|i: int| p * nc + nc <= i < old_s.len() ==> new_s[i] == old_s[i],
{
    lemma_mul_nonnegative(p, nc);
    assert(entry_of(new_s, nc, p) =~= e);
}

/// Two sequences that agree on the values of the entries before `q` give
/// entry `q` the same prediction.
proof fn lemma_prediction_reads_before(md: MeshPredictionSchemeData, a: Seq<i32>, b: Seq<i32>, nc: int, q: int)
    requires
        0 <= q,
        0 <= nc,
        q * nc <= a.len(),
        q * nc <= b.len(),
        forall|i: int| 0 <= i < q * nc ==> a[i] == b[i],
    ensures
        predicted_entry(md, a, nc, q) == predicted_entry(md, b, nc, q),
{
    if q > 0 {
        match parallelogram_sources(
            md.table_spec()->0,
            md.vertex_to_data_spec()->0,
            md.data_to_corner_spec()->0[q],
            q as i32,
        ) {
            Some(src) => {
                assert((q as i32) <= q);
                lemma_entry_offsets(src.0, q, nc);
                lemma_entry_offsets(src.1, q, nc);
                lemma_entry_offsets(src.2, q, nc);
                assert(parallelogram_values(a, nc, src) =~= parallelogram_values(b, nc, src));
            },
            None => {
                lemma_entry_offsets(q - 1, q, nc);
                assert(entry_of(a, nc, q - 1) =~= entry_of(b, nc, q - 1));
            },
        }
    }
}

/// `(q as i32) * nc` is at most `q * nc`.
proof fn lemma_entry_id_bound(q: usize, nc: usize)
    ensures
        (q as i32) * nc <= q * nc,
{
    if q <= i32::MAX {
        assert((q as i32) == q);
    } else {
        assert((q as i32) <= i32::MAX);
    }
    lemma_mul_inequality((q as i32) as int, q as int, nc as int);
}

/// The parallelogram prediction scheme on the encoding side.
pub struct PredictionSchemeParallelogramEncoder<'a, DataType, CorrType, Transform> {
    #[allow(dead_code)]
    attribute: &'a PointAttribute,
    transform: Transform,
    mesh_data: MeshPredictionSchemeData<'a>,
    _marker: PhantomData<(DataType, CorrType)>,
}

impl<'a, DataType, CorrType, Transform> PredictionSchemeParallelogramEncoder<'a, DataType, CorrType, Transform> {
    /// The transform of the corrections.
    pub closed spec fn transform_spec(&self) -> Transform {
        self.transform
    }

    /// The mesh data that predictions read.
    pub closed spec fn mesh_data_spec(&self) -> MeshPredictionSchemeData<'a> {
        self.mesh_data
    }

    pub fn new(attribute: &'a PointAttribute, transform: Transform, mesh_data: MeshPredictionSchemeData<'a>) -> (r: Self)
        ensures
            r.transform_spec() == transform,
            r.mesh_data_spec() == mesh_data,
    {
        Self { attribute, transform, mesh_data, _marker: PhantomData }
    }
}

impl<'a, DataType, CorrType, Transform> PredictionScheme for PredictionSchemeParallelogramEncoder<
    'a,
    DataType,
    CorrType,
    Transform,
> where Transform: PredictionSchemeEncodingTransform<DataType, CorrType> {
    fn get_prediction_method(&self) -> (r: PredictionSchemeMethod)
        ensures
            r == PredictionSchemeMethod::MeshPredictionParallelogram,
    {
        PredictionSchemeMethod::MeshPredictionParallelogram
    }

    fn get_transform_type(&self) -> (r: PredictionSchemeTransformType)
        ensures
            r == self.transform_spec().transform_type(),
    {
        self.transform.get_type()
    }

    fn is_initialized(&self) -> (r: bool)
        ensures
            r == self.mesh_data_spec().table_spec() is Some,
    {
        self.mesh_data.corner_table().is_some()
    }

    fn get_num_parent_attributes(&self) -> (r: i32)
        ensures
            r == 0,
    {
        0
    }

    fn get_parent_attribute_type(&self, _i: i32) -> (r: GeometryAttributeType)
        ensures
            r == GeometryAttributeType::Invalid,
    {
        GeometryAttributeType::Invalid
    }

    fn set_parent_attribute(&mut self, _att: &PointAttribute) -> (r: bool)
        ensures
            !r,
            *final(self) == *old(self),
    {
        false
    }
}

impl<'a, Transform> PredictionSchemeEncoder<i32, i32> for PredictionSchemeParallelogramEncoder<
    'a,
    i32,
    i32,
    Transform,
> where Transform: PredictionSchemeEncodingTransform<i32, i32> {
    /// The mesh data is ready, and the values and the output hold every
    /// entry.
    open spec fn correction_values_ok(&self, in_data: Seq<i32>, out_len: nat, num_components: usize) -> bool {
        &&& mesh_data_ready(self.mesh_data_spec())
        &&& num_entries(self.mesh_data_spec()) * num_components <= in_data.len()
        &&& num_entries(self.mesh_data_spec()) * num_components <= out_len
    }

    /// Computes, entry by entry, the corrections of `in_data` against their
    /// predictions, after initialising the transform with the values.
    fn compute_correction_values(
        &mut self,
        in_data: &[i32],
        out_corr: &mut [i32],
        size: usize,
        num_components: usize,
        _entry_to_point_id_map: Option<&[u32]>,
    ) -> (r: bool)
        ensures
            r,
            final(self).mesh_data_spec() == old(self).mesh_data_spec(),
            final(out_corr)@.len() == old(out_corr)@.len(),
            encodes_entries(
                final(self).mesh_data_spec(),
                final(self).transform_spec(),
                in_data@,
                final(out_corr)@,
                num_components as int,
            ),
            forall|i: int|
                num_entries(final(self).mesh_data_spec()) * num_components <= i < old(out_corr)@.len()
                    ==> final(out_corr)@[i] == old(out_corr)@[i],
    {
        self.transform.init(in_data, size, num_components);
        let ghost md = self.mesh_data;
        let ghost nc = num_components as int;
        let table = self.mesh_data.corner_table().unwrap();
        let vertex_to_data_map = self.mesh_data.vertex_to_data_map().unwrap();
        let data_to_corner_map = self.mesh_data.data_to_corner_map().unwrap();
        let n = data_to_corner_map.len();
        let ghost ne = num_entries(md);
        proof {
            lemma_mul_nonnegative(ne, nc);
            lemma_mul_inequality(1, ne, nc);
        }
        let in_len = in_data.len();
        let out_len = out_corr.len();
        let mut pred_vals: Vec<i32> = vec![i32::default(); num_components];

        // Entries from the last to the second.
        let mut p = n;
        while p > 1
            invariant
                md == self.mesh_data,
                table == md.table_spec()->0,
                vertex_to_data_map@ == md.vertex_to_data_spec()->0,
                data_to_corner_map@ == md.data_to_corner_spec()->0,
                n == data_to_corner_map@.len(),
                mesh_data_ready(md),
                ne == num_entries(md),
                nc == num_components,
                ne * nc <= in_data@.len(),
                ne * nc <= out_corr@.len(),
                nc <= ne * nc,
                in_len == in_data@.len(),
                out_len == out_corr@.len(),
                0 <= p <= n,
                pred_vals@.len() == num_components,
                out_corr@.len() == old(out_corr)@.len(),
                forall|q: int|
                    p <= q < n && q > 0 ==> #[trigger] entry_of(out_corr@, nc, q) == self.transform.corrections(
                        entry_of(in_data@, nc, q),
                        predicted_entry(md, in_data@, nc, q),
                    ),
                forall|i: int| ne * nc <= i < old(out_corr)@.len() ==> out_corr@[i] == old(out_corr)@[i],
            decreases p,
        {
            p = p - 1;
            proof {
                lemma_entry_offsets(p as int, n as int, nc);
                lemma_entry_offsets(p as int - 1, p as int, nc);
                lemma_entry_id_bound(p, num_components);
                lemma_mul_inequality(n as int, ne, nc);
                assert(predicting_corner_ok(table, vertex_to_data_map@, data_to_corner_map@[p as int]));
            }
            let corner_id = CornerIndex(data_to_corner_map[p]);
            let dst_offset = p * num_components;
            let is_parallelogram = compute_parallelogram_prediction(
                p as i32,
                corner_id,
                table,
                vertex_to_data_map,
                in_data,
                num_components,
                pred_vals.as_mut_slice(),
            );
            let original = &in_data[dst_offset..dst_offset + num_components];
            let ghost before = out_corr@;
            let (_, rest) = out_corr.split_at_mut(dst_offset);
            let (corr, _) = rest.split_at_mut(num_components);
            if !is_parallelogram {
                let src_offset = (p - 1) * num_components;
                let predicted = &in_data[src_offset..src_offset + num_components];
                self.transform.compute_correction(original, predicted, corr);
            } else {
                assert(pred_vals@ =~= pred_vals@.subrange(0, nc));
                self.transform.compute_correction(original, pred_vals.as_slice(), corr);
            }
            proof {
                let e = entry_of(out_corr@, nc, p as int);
                assert(out_corr@ =~= before.subrange(0, p * nc) + out_corr@.subrange(p * nc, p * nc + nc)
                    + before.subrange(p * nc + nc, before.len() as int));
                lemma_write_entry(before, out_corr@, out_corr@.subrange(p * nc, p * nc + nc), nc, p as int);
                assert forall|q: int| p < q < n && q > 0 implies #[trigger] entry_of(out_corr@, nc, q)
                    == entry_of(before, nc, q) by {
                    lemma_entry_offsets(p as int, q, nc);
                    lemma_entry_offsets(q, n as int, nc);
                    assert(entry_of(out_corr@, nc, q) =~= entry_of(before, nc, q));
                }
            }
        }

        // The first entry, predicted by zeros.
        for i in 0..num_components
            invariant
                pred_vals@.len() == num_components,
                forall|k: int| 0 <= k < i ==> pred_vals@[k] == 0,
        {
            pred_vals[i] = i32::default();
        }
        assert(pred_vals@ =~= zeros(nc));
        let original = &in_data[0..num_components];
        let ghost before = out_corr@;
        let (corr, _) = out_corr.split_at_mut(num_components);
        self.transform.compute_correction(original, pred_vals.as_slice(), corr);
        let ghost first = corr@;
        proof {
            assert(out_corr@.subrange(0, nc) =~= first);
            assert(out_corr@ =~= before.subrange(0, 0 * nc) + out_corr@.subrange(0, nc) + before.subrange(
                0 * nc + nc,
                before.len() as int,
            ));
            lemma_write_entry(before, out_corr@, out_corr@.subrange(0, nc), nc, 0);
            assert(entry_of(in_data@, nc, 0) =~= original@);
            assert forall|q: int| 0 < q < n implies #[trigger] entry_of(out_corr@, nc, q) == entry_of(before, nc, q) by {
                lemma_entry_offsets(0, q, nc);
                lemma_entry_offsets(q, n as int, nc);
                assert(entry_of(out_corr@, nc, q) =~= entry_of(before, nc, q));
            }
            assert(entry_of(out_corr@, nc, 0) == self.transform.corrections(
                entry_of(in_data@, nc, 0),
                predicted_entry(md, in_data@, nc, 0),
            ));
        }
        true
    }

    /// Writes the parameters of the transform.
    fn encode_prediction_data(&mut self, buffer: &mut Vec<u8>) -> (r: bool)
        ensures
            (r, final(buffer)@) == old(self).transform_spec().transform_data_encoding(old(buffer)@),
            final(self).mesh_data_spec() == old(self).mesh_data_spec(),
    {
        self.transform.encode_transform_data(buffer)
    }
}

/// Writing entry `p` as restored from the corrections and its prediction
/// from the entries before it keeps those entries restored.
proof fn lemma_decoded_entry_step<T: PredictionSchemeDecodingTransform<i32, i32>>(
    md: MeshPredictionSchemeData,
    t: T,
    corr: Seq<i32>,
    before: Seq<i32>,
    after: Seq<i32>,
    written: Seq<i32>,
    nc: int,
    p: int,
)
    requires
        1 <= p,
        0 <= nc,
        written.len() == nc,
        p * nc + nc <= before.len(),
        after == before.subrange(0, p * nc) + written + before.subrange(p * nc + nc, before.len() as int),
        written == t.originals(predicted_entry(md, before.subrange(0, p * nc), nc, p), entry_of(corr, nc, p)),
        forall|q: int|
            0 <= q < p ==> #[trigger] entry_of(before, nc, q) == t.originals(
                predicted_entry(md, before, nc, q),
                entry_of(corr, nc, q),
            ),
    ensures
        after.len() == before.len(),
        forall|q: int|
            0 <= q <= p ==> #[trigger] entry_of(after, nc, q) == t.originals(
                predicted_entry(md, after, nc, q),
                entry_of(corr, nc, q),
            ),
        forall|i: int| p * nc + nc <= i < before.len() ==> after[i] == before[i],
{
    lemma_write_entry(before, after, written, nc, p);
    lemma_mul_nonnegative(p, nc);
    lemma_prediction_reads_before(md, before.subrange(0, p * nc), after, nc, p);
    assert forall|q: int| 0 <= q < p implies #[trigger] entry_of(after, nc, q) == t.originals(
        predicted_entry(md, after, nc, q),
        entry_of(corr, nc, q),
    ) by {
        lemma_entry_offsets(q, p, nc);
        assert(entry_of(after, nc, q) =~= entry_of(before, nc, q));
        lemma_prediction_reads_before(md, before, after, nc, q);
    }
}

/// The parallelogram prediction scheme on the decoding side.
pub struct PredictionSchemeParallelogramDecoder<'a, DataType, CorrType, Transform> {
    #[allow(dead_code)]
    attribute: &'a PointAttribute,
    transform: Transform,
    mesh_data: MeshPredictionSchemeData<'a>,
    _marker: PhantomData<(DataType, CorrType)>,
}

impl<'a, DataType, CorrType, Transform> PredictionSchemeParallelogramDecoder<'a, DataType, CorrType, Transform> {
    /// The transform of the corrections.
    pub closed spec fn transform_spec(&self) -> Transform {
        self.transform
    }

    /// The mesh data that predictions read.
    pub closed spec fn mesh_data_spec(&self) -> MeshPredictionSchemeData<'a> {
        self.mesh_data
    }

    pub fn new(attribute: &'a PointAttribute, transform: Transform, mesh_data: MeshPredictionSchemeData<'a>) -> (r: Self)
        ensures
            r.transform_spec() == transform,
            r.mesh_data_spec() == mesh_data,
    {
        Self { attribute, transform, mesh_data, _marker: PhantomData }
    }
}

impl<'a, DataType, CorrType, Transform> PredictionScheme for PredictionSchemeParallelogramDecoder<
    'a,
    DataType,
    CorrType,
    Transform,
> where Transform: PredictionSchemeDecodingTransform<DataType, CorrType> {
    fn get_prediction_method(&self) -> (r: PredictionSchemeMethod)
        ensures
            r == PredictionSchemeMethod::MeshPredictionParallelogram,
    {
        PredictionSchemeMethod::MeshPredictionParallelogram
    }

    fn get_transform_type(&self) -> (r: PredictionSchemeTransformType)
        ensures
            r == self.transform_spec().transform_type(),
    {
        self.transform.get_type()
    }

    fn is_initialized(&self) -> (r: bool)
        ensures
            r == self.mesh_data_spec().table_spec() is Some,
    {
        self.mesh_data.corner_table().is_some()
    }

    fn get_num_parent_attributes(&self) -> (r: i32)
        ensures
            r == 0,
    {
        0
    }

    fn get_parent_attribute_type(&self, _i: i32) -> (r: GeometryAttributeType)
        ensures
            r == GeometryAttributeType::Invalid,
    {
        GeometryAttributeType::Invalid
    }

    fn set_parent_attribute(&mut self, _att: &PointAttribute) -> (r: bool)
        ensures
            !r,
            *final(self) == *old(self),
    {
        false
    }
}

impl<'a, Transform> PredictionSchemeDecoder<i32, i32> for PredictionSchemeParallelogramDecoder<
    'a,
    i32,
    i32,
    Transform,
> where Transform: PredictionSchemeDecodingTransform<i32, i32> {
    /// The mesh data is ready, and the corrections and the output hold
    /// every entry.
    open spec fn original_values_ok(&self, in_corr: Seq<i32>, out_len: nat, num_components: usize) -> bool {
        &&& mesh_data_ready(self.mesh_data_spec())
        &&& num_entries(self.mesh_data_spec()) * num_components <= in_corr.len()
        &&& num_entries(self.mesh_data_spec()) * num_components <= out_len
    }

    /// Restores, entry by entry and from the first, the values from their
    /// corrections and their predictions from the values restored before
    /// them, after initialising the transform.
    fn compute_original_values(
        &mut self,
        in_corr: &[i32],
        out_data: &mut [i32],
        _size: usize,
        num_components: usize,
        _entry_to_point_id_map: Option<&[u32]>,
    ) -> (r: bool)
        ensures
            r,
            final(self).mesh_data_spec() == old(self).mesh_data_spec(),
            final(out_data)@.len() == old(out_data)@.len(),
            decodes_entries(
                final(self).mesh_data_spec(),
                final(self).transform_spec(),
                in_corr@,
                final(out_data)@,
                num_components as int,
            ),
            forall|i: int|
                num_entries(final(self).mesh_data_spec()) * num_components <= i < old(out_data)@.len()
                    ==> final(out_data)@[i] == old(out_data)@[i],
    {
        self.transform.init(num_components);
        let ghost md = self.mesh_data;
        let ghost nc = num_components as int;
        let table = self.mesh_data.corner_table().unwrap();
        let vertex_to_data_map = self.mesh_data.vertex_to_data_map().unwrap();
        let data_to_corner_map = self.mesh_data.data_to_corner_map().unwrap();
        let n = data_to_corner_map.len();
        let ghost ne = num_entries(md);
        proof {
            lemma_mul_nonnegative(ne, nc);
            lemma_mul_inequality(1, ne, nc);
        }
        let corr_len = in_corr.len();
        let out_len = out_data.len();
        let mut pred_vals: Vec<i32> = vec![i32::default(); num_components];

        // The first entry, predicted by zeros.
        let zero_vals: Vec<i32> = vec![i32::default(); num_components];
        assert(zero_vals@ =~= zeros(nc));
        let corr = &in_corr[0..num_components];
        let ghost before = out_data@;
        let (out, _) = out_data.split_at_mut(num_components);
        self.transform.compute_original_value(zero_vals.as_slice(), corr, out);
        let ghost first = out@;
        proof {
            assert(out_data@.subrange(0, nc) =~= first);
            assert(out_data@ =~= before.subrange(0, 0 * nc) + out_data@.subrange(0, nc) + before.subrange(
                0 * nc + nc,
                before.len() as int,
            ));
            lemma_write_entry(before, out_data@, first, nc, 0);
            assert(entry_of(in_corr@, nc, 0) =~= corr@);
        }

        // The other entries, each predicted from those before it.
        let mut p: usize = 1;
        while p < n
            invariant
                1 <= p,
                p <= n || n == 0,
                md == self.mesh_data,
                table == md.table_spec()->0,
                vertex_to_data_map@ == md.vertex_to_data_spec()->0,
                data_to_corner_map@ == md.data_to_corner_spec()->0,
                n == data_to_corner_map@.len(),
                mesh_data_ready(md),
                ne == num_entries(md),
                nc == num_components,
                ne * nc <= in_corr@.len(),
                ne * nc <= out_data@.len(),
                nc <= ne * nc,
                corr_len == in_corr@.len(),
                out_len == out_data@.len(),
                pred_vals@.len() == num_components,
                out_data@.len() == old(out_data)@.len(),
                forall|q: int|
                    0 <= q < p ==> #[trigger] entry_of(out_data@, nc, q) == self.transform.originals(
                        predicted_entry(md, out_data@, nc, q),
                        entry_of(in_corr@, nc, q),
                    ),
                forall|i: int| ne * nc <= i < old(out_data)@.len() ==> out_data@[i] == old(out_data)@[i],
            decreases n - p,
        {
            proof {
                lemma_entry_offsets(p as int, n as int, nc);
                lemma_entry_offsets(p as int - 1, p as int, nc);
                lemma_entry_id_bound(p, num_components);
                lemma_mul_inequality(n as int, ne, nc);
                assert(predicting_corner_ok(table, vertex_to_data_map@, data_to_corner_map@[p as int]));
            }
            let corner_id = CornerIndex(data_to_corner_map[p]);
            let dst_offset = p * num_components;
            let ghost before = out_data@;
            let (decoded_data, remaining_data) = out_data.split_at_mut(dst_offset);
            let (current_out, _) = remaining_data.split_at_mut(num_components);
            let is_parallelogram = compute_parallelogram_prediction(
                p as i32,
                corner_id,
                table,
                vertex_to_data_map,
                decoded_data,
                num_components,
                pred_vals.as_mut_slice(),
            );
            if !is_parallelogram {
                let src_offset = (p - 1) * num_components;
                assert(src_offset + num_components == dst_offset) by (nonlinear_arith)
                    requires
                        src_offset == (p - 1) * num_components,
                        dst_offset == p * num_components,
                ;
                for k in 0..num_components
                    invariant
                        src_offset + num_components == dst_offset,
                        dst_offset == decoded_data@.len(),
                        pred_vals@.len() == num_components,
                        forall|j: int| 0 <= j < k ==> pred_vals@[j] == decoded_data@[src_offset + j],
                {
                    pred_vals[k] = decoded_data[src_offset + k];
                }
                assert(pred_vals@ =~= entry_of(decoded_data@, nc, p - 1));
            } else {
                assert(pred_vals@ =~= pred_vals@.subrange(0, nc));
            }
            let corr = &in_corr[dst_offset..dst_offset + num_components];
            self.transform.compute_original_value(pred_vals.as_slice(), corr, current_out);
            let ghost written = current_out@;
            proof {
                assert(decoded_data@ =~= before.subrange(0, p * nc));
                assert(out_data@.subrange(p * nc, p * nc + nc) =~= written);
                assert(out_data@ =~= before.subrange(0, p * nc) + written + before.subrange(
                    p * nc + nc,
                    before.len() as int,
                ));
                assert(entry_of(in_corr@, nc, p as int) =~= corr@);
                lemma_decoded_entry_step(md, self.transform, in_corr@, before, out_data@, written, nc, p as int);
            }
            p = p + 1;
        }
        true
    }

    /// Reads the parameters of the transform.
    fn decode_prediction_data(&mut self, buffer: &mut DecoderBuffer) -> (r: bool)
        ensures
            (r, *final(buffer), final(self).transform_spec()) == old(self).transform_spec().transform_data_decoding(
                *old(buffer),
            ),
            final(self).mesh_data_spec() == old(self).mesh_data_spec(),
    {
        self.transform.decode_transform_data(buffer)
    }
}

/// Adding back a wrapped difference restores the original values.
pub proof fn lemma_wrapped_round_trip(original: Seq<i32>, predicted: Seq<i32>)
    requires
        predicted.len() == original.len(),
    ensures
        wrapped_sums(predicted, wrapped_differences(original, predicted)) == original,
{
    assert forall|i: int| 0 <= i < original.len() implies #[trigger] wrapped_sums(
        predicted,
        wrapped_differences(original, predicted),
    )[i] == original[i] by {
        let o = original[i];
        let p = predicted[i];
        assert(((p + ((o - p) as i32)) as i32) == o) by (bit_vector);
    }
    assert(wrapped_sums(predicted, wrapped_differences(original, predicted)) =~= original);
}

/// The first `k` entries restored from the corrections of `data` are those
/// of `data`.
proof fn lemma_round_trip_prefix<E: PredictionSchemeEncodingTransform<i32, i32>, D: PredictionSchemeDecodingTransform<i32, i32>>(
    md: MeshPredictionSchemeData,
    encoding: E,
    decoding: D,
    data: Seq<i32>,
    corr: Seq<i32>,
    restored: Seq<i32>,
    nc: int,
    k: int,
)
    requires
        0 <= nc,
        0 <= k <= num_entries(md),
        num_entries(md) * nc <= data.len(),
        num_entries(md) * nc <= corr.len(),
        num_entries(md) * nc <= restored.len(),
        forall|o: Seq<i32>, p: Seq<i32>|
            o.len() == nc && p.len() == nc ==> #[trigger] decoding.originals(p, encoding.corrections(o, p)) == o,
        encodes_entries(md, encoding, data, corr, nc),
        decodes_entries(md, decoding, corr, restored, nc),
    ensures
        forall|q: int| 0 <= q < k ==> #[trigger] entry_of(restored, nc, q) == entry_of(data, nc, q),
        forall|i: int| 0 <= i < k * nc ==> restored[i] == data[i],
    decreases k,
{
    if k > 0 {
        let j = k - 1;
        let ne = num_entries(md);
        lemma_round_trip_prefix(md, encoding, decoding, data, corr, restored, nc, j);
        lemma_entry_offsets(j, ne, nc);
        let pred = predicted_entry(md, data, nc, j);
        lemma_prediction_reads_before(md, restored, data, nc, j);
        assert(entry_of(corr, nc, j) == encoding.corrections(entry_of(data, nc, j), pred));
        assert(entry_of(restored, nc, j) == decoding.originals(pred, entry_of(corr, nc, j)));
        if j > 0 {
            match parallelogram_sources(
                md.table_spec()->0,
                md.vertex_to_data_spec()->0,
                md.data_to_corner_spec()->0[j],
                j as i32,
            ) {
                Some(src) => {},
                None => {
                    lemma_entry_offsets(j - 1, j, nc);
                },
            }
        }
        assert(pred.len() == nc);
        assert(entry_of(data, nc, j).len() == nc);
        assert(entry_of(restored, nc, j) == entry_of(data, nc, j));
        assert forall|i: int| 0 <= i < k * nc implies restored[i] == data[i] by {
            lemma_mul_is_distributive_add_other_way(nc, j, 1);
            if i >= j * nc {
                assert(restored[i] == entry_of(restored, nc, j)[i - j * nc]);
                assert(data[i] == entry_of(data, nc, j)[i - j * nc]);
            }
        }
    }
}

/// Decoding what was encoded gives the values back: whenever the decoding
/// transform undoes the encoding transform on every entry, the values that
/// the decoder restores from the encoder's corrections of `data` are, entry
/// by entry, those of `data`.
pub proof fn lemma_parallelogram_round_trip<E: PredictionSchemeEncodingTransform<i32, i32>, D: PredictionSchemeDecodingTransform<i32, i32>>(
    md: MeshPredictionSchemeData,
    encoding: E,
    decoding: D,
    data: Seq<i32>,
    corr: Seq<i32>,
    restored: Seq<i32>,
    nc: int,
)
    requires
        0 <= nc,
        num_entries(md) * nc <= data.len(),
        num_entries(md) * nc <= corr.len(),
        num_entries(md) * nc <= restored.len(),
        forall|o: Seq<i32>, p: Seq<i32>|
            o.len() == nc && p.len() == nc ==> #[trigger] decoding.originals(p, encoding.corrections(o, p)) == o,
        encodes_entries(md, encoding, data, corr, nc),
        decodes_entries(md, decoding, corr, restored, nc),
    ensures
        forall|q: int| 0 <= q < num_entries(md) ==> #[trigger] entry_of(restored, nc, q) == entry_of(data, nc, q),
{
    lemma_round_trip_prefix(md, encoding, decoding, data, corr, restored, nc, num_entries(md));
}

/// With the parallelogram transforms of this module, decoding what was
/// encoded gives the values back, entry by entry.
pub proof fn lemma_parallelogram_transforms_round_trip(
    md: MeshPredictionSchemeData,
    encoding: PredictionSchemeParallelogramEncodingTransform<i32, i32>,
    decoding: PredictionSchemeParallelogramDecodingTransform<i32, i32>,
    data: Seq<i32>,
    corr: Seq<i32>,
    restored: Seq<i32>,
    nc: int,
)
    requires
        0 <= nc,
        num_entries(md) * nc <= data.len(),
        num_entries(md) * nc <= corr.len(),
        num_entries(md) * nc <= restored.len(),
        encodes_entries(md, encoding, data, corr, nc),
        decodes_entries(md, decoding, corr, restored, nc),
    ensures
        forall|q: int| 0 <= q < num_entries(md) ==> #[trigger] entry_of(restored, nc, q) == entry_of(data, nc, q),
{
    assert forall|o: Seq<i32>, p: Seq<i32>| o.len() == nc && p.len() == nc implies #[trigger] decoding.originals(
        p,
        encoding.corrections(o, p),
    ) == o by {
        lemma_wrapped_round_trip(o, p);
    }
    lemma_parallelogram_round_trip(md, encoding, decoding, data, corr, restored, nc);
}

} // verus!
