//! Attributes of geometry: the description of an attribute's values and the
//! point attribute that stores them and maps points to them.
use crate::attribute_transform_data::AttributeTransformData;
use crate::data_buffer::{resized, DataBuffer};
use crate::draco_types::{data_type_length, DataType};
use crate::geometry_indices::{AttributeValueIndex, PointIndex, INVALID_INDEX};
use vstd::prelude::*;

verus! {

/// What an attribute describes.
#[derive(Debug, Clone, Copy, PartialEq, Eq, Structural)]
pub enum GeometryAttributeType {
    Invalid,
    Position,
    Normal,
    Color,
    TexCoord,
    Generic,
}

/// The fields of a `GeometryAttribute`, as a value.
pub struct GeometryAttributeView {
    pub attribute_type: GeometryAttributeType,
    pub data_type: DataType,
    pub num_components: u8,
    pub normalized: bool,
    pub byte_stride: i64,
    pub byte_offset: i64,
    pub unique_id: u32,
}

/// Layout and meaning of the values of an attribute.
#[derive(Debug, Clone)]
pub struct GeometryAttribute {
    attribute_type: GeometryAttributeType,
    data_type: DataType,
    num_components: u8,
    normalized: bool,
    byte_stride: i64,
    byte_offset: i64,
    unique_id: u32,
}

impl View for GeometryAttribute {
    type V = GeometryAttributeView;

    closed spec fn view(&self) -> GeometryAttributeView {
        GeometryAttributeView {
            attribute_type: self.attribute_type,
            data_type: self.data_type,
            num_components: self.num_components,
            normalized: self.normalized,
            byte_stride: self.byte_stride,
            byte_offset: self.byte_offset,
            unique_id: self.unique_id,
        }
    }
}

impl Default for GeometryAttribute {
    fn default() -> (r: Self)
        ensures
            r@ == (GeometryAttributeView {
                attribute_type: GeometryAttributeType::Invalid,
                data_type: DataType::Invalid,
                num_components: 0,
                normalized: false,
                byte_stride: 0,
                byte_offset: 0,
                unique_id: 0,
            }),
    {
        GeometryAttribute {
            attribute_type: GeometryAttributeType::Invalid,
            data_type: DataType::Invalid,
            num_components: 0,
            normalized: false,
            byte_stride: 0,
            byte_offset: 0,
            unique_id: 0,
        }
    }
}

impl GeometryAttribute {
    /// Sets the description of the attribute's values; the unique id is
    /// kept. The data buffer argument is not stored.
    pub fn init(
        &mut self,
        attribute_type: GeometryAttributeType,
        _buffer: Option<&DataBuffer>,
        num_components: u8,
        data_type: DataType,
        normalized: bool,
        byte_stride: i64,
        byte_offset: i64,
    )
        ensures
            final(self)@ == (GeometryAttributeView {
                attribute_type,
                data_type,
                num_components,
                normalized,
                byte_stride,
                byte_offset,
                unique_id: old(self)@.unique_id,
            }),
    {
        self.attribute_type = attribute_type;
        self.num_components = num_components;
        self.data_type = data_type;
        self.normalized = normalized;
        self.byte_stride = byte_stride;
        self.byte_offset = byte_offset;
    }

    /// Returns what the attribute describes.
    pub fn attribute_type(&self) -> (r: GeometryAttributeType)
        ensures
            r == self@.attribute_type,
    {
        self.attribute_type
    }

    /// Returns the type of each component.
    pub fn data_type(&self) -> (r: DataType)
        ensures
            r == self@.data_type,
    {
        self.data_type
    }

    /// Returns the number of components of each value.
    pub fn num_components(&self) -> (r: u8)
        ensures
            r == self@.num_components,
    {
        self.num_components
    }

    /// Returns whether integer components stand for values in [0, 1].
    pub fn normalized(&self) -> (r: bool)
        ensures
            r == self@.normalized,
    {
        self.normalized
    }

    /// Returns the distance in bytes between consecutive values.
    pub fn byte_stride(&self) -> (r: i64)
        ensures
            r == self@.byte_stride,
    {
        self.byte_stride
    }

    /// Returns the offset in bytes of the first value.
    pub fn byte_offset(&self) -> (r: i64)
        ensures
            r == self@.byte_offset,
    {
        self.byte_offset
    }

    /// Returns the attribute's unique id.
    pub fn unique_id(&self) -> (r: u32)
        ensures
            r == self@.unique_id,
    {
        self.unique_id
    }

    /// Sets the attribute's unique id.
    pub fn set_unique_id(&mut self, id: u32)
        ensures
            final(self)@ == (GeometryAttributeView { unique_id: id, ..old(self)@ }),
    {
        self.unique_id = id;
    }

    /// Sets what the attribute describes.
    pub fn set_attribute_type(&mut self, attribute_type: GeometryAttributeType)
        ensures
            final(self)@ == (GeometryAttributeView { attribute_type, ..old(self)@ }),
    {
        self.attribute_type = attribute_type;
    }

    /// Sets the type of each component.
    pub fn set_data_type(&mut self, data_type: DataType)
        ensures
            final(self)@ == (GeometryAttributeView { data_type, ..old(self)@ }),
    {
        self.data_type = data_type;
    }

    /// Sets the number of components of each value.
    pub fn set_num_components(&mut self, num_components: u8)
        ensures
            final(self)@ == (GeometryAttributeView { num_components, ..old(self)@ }),
    {
        self.num_components = num_components;
    }
}

/// An attribute with its values and the map from points to values.
///
/// With the identity mapping, point `i` has value `i`; otherwise an explicit
/// table gives each point's value.
#[derive(Debug, Clone)]
pub struct PointAttribute {
    base: GeometryAttribute,
    buffer: DataBuffer,
    indices_map: Vec<AttributeValueIndex>,
    identity_mapping: bool,
    num_unique_entries: usize,
    attribute_transform_data: Option<Box<AttributeTransformData>>,
}

impl PointAttribute {
    /// The description of the values.
    pub closed spec fn base_view(&self) -> GeometryAttributeView {
        self.base@
    }

    /// The storage of the values.
    pub closed spec fn buffer_spec(&self) -> DataBuffer {
        self.buffer
    }

    /// Points map to values by the identity.
    pub closed spec fn identity(&self) -> bool {
        self.identity_mapping
    }

    /// The explicit table from points to values.
    pub closed spec fn index_table(&self) -> Seq<AttributeValueIndex> {
        self.indices_map@
    }

    /// The number of distinct values.
    pub closed spec fn num_entries(&self) -> usize {
        self.num_unique_entries
    }

    /// The transform data attached to the attribute, if any.
    pub closed spec fn transform_data(&self) -> Option<AttributeTransformData> {
        match self.attribute_transform_data {
            Some(b) => Some(*b),
            None => None,
        }
    }

    /// The value index of point `p`.
    pub open spec fn mapped_index_spec(&self, p: PointIndex) -> AttributeValueIndex {
        if self.identity() {
            AttributeValueIndex(p.0)
        } else if p.0 < self.index_table().len() {
            self.index_table()[p.0 as int]
        } else {
            AttributeValueIndex(INVALID_INDEX)
        }
    }

    /// `self` equals `other` except possibly for the description of the
    /// values.
    pub open spec fn same_except_base(&self, other: &Self) -> bool {
        &&& self.buffer_spec() == other.buffer_spec()
        &&& self.identity() == other.identity()
        &&& self.index_table() == other.index_table()
        &&& self.num_entries() == other.num_entries()
        &&& self.transform_data() == other.transform_data()
    }

    /// `self` equals `other` except possibly for the map from points to
    /// values.
    pub open spec fn same_except_mapping(&self, other: &Self) -> bool {
        &&& self.base_view() == other.base_view()
        &&& self.buffer_spec() == other.buffer_spec()
        &&& self.num_entries() == other.num_entries()
        &&& self.transform_data() == other.transform_data()
    }

    /// Creates an attribute with an invalid description, no values and the
    /// identity mapping.
    pub fn new() -> (r: Self)
        ensures
            r.base_view() == (GeometryAttributeView {
                attribute_type: GeometryAttributeType::Invalid,
                data_type: DataType::Invalid,
                num_components: 0,
                normalized: false,
                byte_stride: 0,
                byte_offset: 0,
                unique_id: 0,
            }),
            r.buffer_spec().bytes() == Seq::<u8>::empty(),
            r.buffer_spec().id_spec() == 0,
            r.buffer_spec().update_count_spec() == 0,
            r.identity(),
            r.index_table() == Seq::<AttributeValueIndex>::empty(),
            r.num_entries() == 0,
            r.transform_data() is None,
    {
        PointAttribute {
            base: GeometryAttribute::default(),
            buffer: DataBuffer::new(),
            indices_map: Vec::new(),
            identity_mapping: true,
            num_unique_entries: 0,
            attribute_transform_data: None,
        }
    }

    /// Describes the values and makes room for `num_attribute_values` of
    /// them: the stride is `num_components` times the size of `data_type`,
    /// the buffer is cut or padded with zeros to that many values, and
    /// points map to values by the identity.
    pub fn init(
        &mut self,
        attribute_type: GeometryAttributeType,
        num_components: u8,
        data_type: DataType,
        normalized: bool,
        num_attribute_values: usize,
    )
        requires
            num_attribute_values * (num_components * data_type_length(data_type)) <= usize::MAX,
        ensures
            ({
                let stride = num_components * data_type_length(data_type);
                &&& final(self).base_view() == (GeometryAttributeView {
                    attribute_type,
                    data_type,
                    num_components,
                    normalized,
                    byte_stride: stride as i64,
                    byte_offset: 0,
                    unique_id: old(self).base_view().unique_id,
                })
                &&& final(self).buffer_spec().bytes() == resized(
                    old(self).buffer_spec().bytes(),
                    (num_attribute_values * stride) as nat,
                )
                &&& final(self).buffer_spec().id_spec() == old(self).buffer_spec().id_spec()
                &&& final(self).buffer_spec().update_count_spec() == old(
                    self,
                ).buffer_spec().update_count_spec()
            }),
            final(self).num_entries() == num_attribute_values,
            final(self).identity(),
            final(self).index_table() == old(self).index_table(),
            final(self).transform_data() == old(self).transform_data(),
    {
        let stride: usize = num_components as usize * data_type.byte_length();
        assert(stride <= 255 * 8) by (nonlinear_arith)
            requires
                stride == num_components * data_type_length(data_type),
                num_components <= 255,
                data_type_length(data_type) <= 8,
        ;
        let byte_stride = stride as i64;
        self.base.init(attribute_type, None, num_components, data_type, normalized, byte_stride, 0);
        self.buffer.resize(num_attribute_values * stride);
        self.num_unique_entries = num_attribute_values;
        self.identity_mapping = true;
    }

    /// Returns the index of the value of `point_index`: the point's own
    /// number under the identity mapping, else its entry in the explicit
    /// table (invalid for a point past the table).
    pub fn mapped_index(&self, point_index: PointIndex) -> (r: AttributeValueIndex)
        ensures
            r == self.mapped_index_spec(point_index),
    {
        if self.identity_mapping {
            AttributeValueIndex(point_index.0)
        } else if (point_index.0 as usize) < self.indices_map.len() {
            self.indices_map[point_index.0 as usize]
        } else {
            AttributeValueIndex::invalid()
        }
    }

    /// Returns the number of distinct values.
    pub fn size(&self) -> (r: usize)
        ensures
            r == self.num_entries(),
    {
        self.num_unique_entries
    }

    /// Returns the storage of the values.
    pub fn buffer(&self) -> (r: &DataBuffer)
        ensures
            *r == self.buffer_spec(),
    {
        &self.buffer
    }

    /// Returns the storage of the values for modification.
    pub fn buffer_mut(&mut self) -> (r: &mut DataBuffer)
        ensures
            *r == old(self).buffer_spec(),
            final(self).buffer_spec() == *final(r),
            final(self).base_view() == old(self).base_view(),
            final(self).identity() == old(self).identity(),
            final(self).index_table() == old(self).index_table(),
            final(self).num_entries() == old(self).num_entries(),
            final(self).transform_data() == old(self).transform_data(),
    {
        &mut self.buffer
    }

    /// Returns what the attribute describes.
    pub fn attribute_type(&self) -> (r: GeometryAttributeType)
        ensures
            r == self.base_view().attribute_type,
    {
        self.base.attribute_type()
    }

    /// Returns the attribute's unique id.
    pub fn unique_id(&self) -> (r: u32)
        ensures
            r == self.base_view().unique_id,
    {
        self.base.unique_id()
    }

    /// Sets the attribute's unique id.
    pub fn set_unique_id(&mut self, id: u32)
        ensures
            final(self).base_view() == (GeometryAttributeView { unique_id: id, ..old(self).base_view() }),
            final(self).same_except_base(old(self)),
    {
        self.base.set_unique_id(id);
    }

    /// Sets what the attribute describes.
    pub fn set_attribute_type(&mut self, attribute_type: GeometryAttributeType)
        ensures
            final(self).base_view() == (GeometryAttributeView { attribute_type, ..old(self).base_view() }),
            final(self).same_except_base(old(self)),
    {
        self.base.set_attribute_type(attribute_type);
    }

    /// Sets the type of each component.
    pub fn set_data_type(&mut self, data_type: DataType)
        ensures
            final(self).base_view() == (GeometryAttributeView { data_type, ..old(self).base_view() }),
            final(self).same_except_base(old(self)),
    {
        self.base.set_data_type(data_type);
    }

    /// Sets the number of components of each value.
    pub fn set_num_components(&mut self, num_components: u8)
        ensures
            final(self).base_view() == (GeometryAttributeView { num_components, ..old(self).base_view() }),
            final(self).same_except_base(old(self)),
    {
        self.base.set_num_components(num_components);
    }

    /// Makes points map to values by the identity and empties the explicit
    /// table.
    pub fn set_identity_mapping(&mut self)
        ensures
            final(self).identity(),
            final(self).index_table() == Seq::<AttributeValueIndex>::empty(),
            final(self).same_except_mapping(old(self)),
    {
        self.identity_mapping = true;
        self.indices_map.clear();
    }

    /// Makes points map to values by the explicit table, cut or padded with
    /// invalid indices to `num_points` entries.
    pub fn set_explicit_mapping(&mut self, num_points: usize)
        ensures
            !final(self).identity(),
            final(self).index_table().len() == num_points,
            forall|i: int|
                0 <= i < num_points ==> #[trigger] final(self).index_table()[i] == if i < old(
                    self,
                ).index_table().len() {
                    old(self).index_table()[i]
                } else {
                    AttributeValueIndex(INVALID_INDEX)
                },
            final(self).same_except_mapping(old(self)),
    {
        let ghost before = self.indices_map@;
        self.identity_mapping = false;
        self.indices_map.resize(num_points, AttributeValueIndex::invalid());
        proof {
            assert forall|i: int| 0 <= i < num_points implies #[trigger] self.indices_map@[i] == if i
                < before.len() {
                before[i]
            } else {
                AttributeValueIndex(INVALID_INDEX)
            } by {
                if i < before.len() {
                    if num_points > before.len() {
                        assert(self.indices_map@.subrange(0, before.len() as int)[i] == self.indices_map@[i]);
                    }
                } else {
                    assert(cloned::<AttributeValueIndex>(AttributeValueIndex(INVALID_INDEX), self.indices_map@[i]));
                }
            }
        }
    }

    /// Sets the value of `point_index` in the explicit table; does nothing
    /// under the identity mapping.
    pub fn set_point_map_entry(&mut self, point_index: PointIndex, entry_index: AttributeValueIndex)
        requires
            !old(self).identity() ==> point_index.0 < old(self).index_table().len(),
        ensures
            old(self).identity() ==> final(self).index_table() == old(self).index_table(),
            !old(self).identity() ==> final(self).index_table() == old(self).index_table().update(
                point_index.0 as int,
                entry_index,
            ),
            final(self).identity() == old(self).identity(),
            final(self).same_except_mapping(old(self)),
    {
        if self.identity_mapping {
            return;
        }
        self.indices_map.set(point_index.0 as usize, entry_index);
    }

    /// Attaches transform data to the attribute.
    pub fn set_attribute_transform_data(&mut self, data: AttributeTransformData)
        ensures
            final(self).transform_data() == Some(data),
            final(self).base_view() == old(self).base_view(),
            final(self).buffer_spec() == old(self).buffer_spec(),
            final(self).identity() == old(self).identity(),
            final(self).index_table() == old(self).index_table(),
            final(self).num_entries() == old(self).num_entries(),
    {
        self.attribute_transform_data = Some(Box::new(data));
    }

    /// Returns the attached transform data, if any.
    pub fn attribute_transform_data(&self) -> (r: Option<&AttributeTransformData>)
        ensures
            match r {
                Some(d) => self.transform_data() == Some(*d),
                None => self.transform_data() is None,
            },
    {
        match &self.attribute_transform_data {
            Some(b) => Some(&**b),
            None => None,
        }
    }

    /// Returns the type of each component.
    pub fn data_type(&self) -> (r: DataType)
        ensures
            r == self.base_view().data_type,
    {
        self.base.data_type()
    }

    /// Returns whether integer components stand for values in [0, 1].
    pub fn normalized(&self) -> (r: bool)
        ensures
            r == self.base_view().normalized,
    {
        self.base.normalized()
    }

    /// Returns the number of components of each value.
    pub fn num_components(&self) -> (r: u8)
        ensures
            r == self.base_view().num_components,
    {
        self.base.num_components()
    }

    /// Returns the distance in bytes between consecutive values.
    pub fn byte_stride(&self) -> (r: i64)
        ensures
            r == self.base_view().byte_stride,
    {
        self.base.byte_stride()
    }
}

impl Default for PointAttribute {
    fn default() -> (r: Self)
        ensures
            r.identity(),
            r.num_entries() == 0,
            r.index_table() == Seq::<AttributeValueIndex>::empty(),
            r.buffer_spec().bytes() == Seq::<u8>::empty(),
            r.transform_data() is None,
            r.base_view().attribute_type == GeometryAttributeType::Invalid,
    {
        PointAttribute::new()
    }
}

/// An entry set with `set_point_map_entry` under the explicit mapping is
/// what `mapped_index` gives for that point; every other point keeps its
/// value.
pub proof fn lemma_map_entry_read_back(
    before: PointAttribute,
    after: PointAttribute,
    p: PointIndex,
    e: AttributeValueIndex,
    q: PointIndex,
)
    requires
        !before.identity(),
        p.0 < before.index_table().len(),
        !after.identity(),
        after.index_table() == before.index_table().update(p.0 as int, e),
    ensures
        after.mapped_index_spec(q) == if q == p {
            e
        } else {
            before.mapped_index_spec(q)
        },
        q.0 >= after.index_table().len() ==> after.mapped_index_spec(q) == AttributeValueIndex(INVALID_INDEX),
{
}

/// Under the identity mapping, which `init` and `set_identity_mapping` set,
/// every point maps to the value of its own number.
pub proof fn lemma_identity_mapping(a: PointAttribute, q: PointIndex)
    requires
        a.identity(),
    ensures
        a.mapped_index_spec(q) == AttributeValueIndex(q.0),
{
}

/// Right after `set_explicit_mapping` with `num_points` entries, points past
/// the table map to the invalid value and the others to what the table held
/// before (invalid where it was shorter).
pub proof fn lemma_explicit_mapping_read(before: PointAttribute, after: PointAttribute, num_points: nat, q: PointIndex)
    requires
        !after.identity(),
        after.index_table().len() == num_points,
        forall|i: int|
            0 <= i < num_points ==> #[trigger] after.index_table()[i] == if i < before.index_table().len() {
                before.index_table()[i]
            } else {
                AttributeValueIndex(INVALID_INDEX)
            },
    ensures
        after.mapped_index_spec(q) == if q.0 < num_points && q.0 < before.index_table().len() {
            before.index_table()[q.0 as int]
        } else {
            AttributeValueIndex(INVALID_INDEX)
        },
{
}

} // verus!
