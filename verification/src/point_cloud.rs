//! A set of points with attributes.
use crate::geometry_attribute::{GeometryAttributeType, GeometryAttributeView, PointAttribute};
use vstd::prelude::*;

verus! {

/// Points and the attributes that give them values.
#[derive(Debug, Clone)]
pub struct PointCloud {
    attributes: Vec<PointAttribute>,
    num_points: usize,
}

impl PointCloud {
    /// The attributes, in the order they were added.
    pub closed spec fn attributes_spec(&self) -> Seq<PointAttribute> {
        self.attributes@
    }

    /// The number of points.
    pub closed spec fn num_points_spec(&self) -> usize {
        self.num_points
    }

    /// Attribute `i` is the first one of type `t`.
    pub open spec fn first_of_type(&self, t: GeometryAttributeType, i: int) -> bool {
        &&& 0 <= i < self.attributes_spec().len()
        &&& self.attributes_spec()[i].base_view().attribute_type == t
        &&& forall|j: int|
            0 <= j < i ==> #[trigger] self.attributes_spec()[j].base_view().attribute_type != t
    }

    /// No attribute has type `t`.
    pub open spec fn has_no_type(&self, t: GeometryAttributeType) -> bool {
        forall|j: int|
            0 <= j < self.attributes_spec().len() ==> #[trigger] self.attributes_spec()[j].base_view().attribute_type
                != t
    }

    /// Creates a point cloud with no points and no attributes.
    pub fn new() -> (r: Self)
        ensures
            r.attributes_spec() == Seq::<PointAttribute>::empty(),
            r.num_points_spec() == 0,
    {
        PointCloud { attributes: Vec::new(), num_points: 0 }
    }

    /// Sets the number of points.
    pub fn set_num_points(&mut self, num_points: usize)
        ensures
            final(self).num_points_spec() == num_points,
            final(self).attributes_spec() == old(self).attributes_spec(),
    {
        self.num_points = num_points;
    }

    /// Adds an attribute and returns its id, its position among the
    /// attributes, which also becomes its unique id. A point cloud without
    /// points takes its number of points from the attribute's number of
    /// values.
    pub fn add_attribute(&mut self, attribute: PointAttribute) -> (r: i32)
        ensures
            r == old(self).attributes_spec().len() as i32,
            final(self).attributes_spec().len() == old(self).attributes_spec().len() + 1,
            final(self).attributes_spec().subrange(0, old(self).attributes_spec().len() as int) == old(
                self,
            ).attributes_spec(),
            ({
                let added = final(self).attributes_spec()[old(self).attributes_spec().len() as int];
                &&& added.base_view() == (GeometryAttributeView {
                    unique_id: r as u32,
                    ..attribute.base_view()
                })
                &&& added.same_except_base(&attribute)
            }),
            final(self).num_points_spec() == if old(self).num_points_spec() == 0 && attribute.num_entries() > 0 {
                attribute.num_entries()
            } else {
                old(self).num_points_spec()
            },
    {
        let mut attribute = attribute;
        if self.num_points == 0 && attribute.size() > 0 {
            self.num_points = attribute.size();
        }
        let id = self.attributes.len() as i32;
        attribute.set_unique_id(id as u32);
        self.attributes.push(attribute);
        proof {
            assert(self.attributes@.subrange(0, old(self).attributes@.len() as int) =~= old(self).attributes@);
        }
        id
    }

    /// Returns the number of attributes.
    pub fn num_attributes(&self) -> (r: i32)
        ensures
            r == self.attributes_spec().len() as i32,
    {
        self.attributes.len() as i32
    }

    /// Returns the attribute with id `att_id`.
    pub fn attribute(&self, att_id: i32) -> (r: &PointAttribute)
        requires
            0 <= att_id < self.attributes_spec().len(),
        ensures
            *r == self.attributes_spec()[att_id as int],
    {
        &self.attributes[att_id as usize]
    }

    /// Returns the attribute with id `att_id` for modification.
    pub fn attribute_mut(&mut self, att_id: i32) -> (r: &mut PointAttribute)
        requires
            0 <= att_id < old(self).attributes_spec().len(),
        ensures
            *r == old(self).attributes_spec()[att_id as int],
            final(self).attributes_spec() == old(self).attributes_spec().update(att_id as int, *final(r)),
            final(self).num_points_spec() == old(self).num_points_spec(),
    {
        &mut self.attributes[att_id as usize]
    }

    /// Returns the id of the first attribute of type `att_type`, or -1 if
    /// there is none.
    pub fn named_attribute_id(&self, att_type: GeometryAttributeType) -> (r: i32)
        ensures
            self.has_no_type(att_type) ==> r == -1,
            forall|i: int| self.first_of_type(att_type, i) ==> r == i as i32,
    {
        let n = self.attributes.len();
        let mut i: usize = 0;
        while i < n
            invariant
                n == self.attributes@.len(),
                i <= n,
                forall|j: int| 0 <= j < i ==> #[trigger] self.attributes@[j].base_view().attribute_type != att_type,
            decreases n - i,
        {
            if self.attributes[i].attribute_type() == att_type {
                proof {
                    assert forall|k: int| self.first_of_type(att_type, k) implies k == i by {
                        if k < i {
                        } else if k > i {
                            assert(self.attributes_spec()[i as int].base_view().attribute_type != att_type);
                        }
                    }
                }
                return i as i32;
            }
            i = i + 1;
        }
        -1
    }

    /// Returns the first attribute of type `att_type`, if its id (as
    /// `named_attribute_id` returns it) is not negative.
    pub fn named_attribute(&self, att_type: GeometryAttributeType) -> (r: Option<&PointAttribute>)
        ensures
            self.has_no_type(att_type) ==> r is None,
            forall|i: int|
                self.first_of_type(att_type, i) ==> (if i as i32 >= 0 {
                    r == Some(&self.attributes_spec()[i as i32 as int])
                } else {
                    r is None
                }),
    {
        let id = self.named_attribute_id(att_type);
        if id >= 0 {
            proof {
                if self.has_no_type(att_type) {
                    assert(id == -1);
                }
            }
            let k = id as usize;
            if k < self.attributes.len() {
                Some(&self.attributes[k])
            } else {
                None
            }
        } else {
            None
        }
    }

    /// Returns the number of points.
    pub fn num_points(&self) -> (r: usize)
        ensures
            r == self.num_points_spec(),
    {
        self.num_points
    }
}

impl Default for PointCloud {
    fn default() -> (r: Self)
        ensures
            r.attributes_spec() == Seq::<PointAttribute>::empty(),
            r.num_points_spec() == 0,
    {
        PointCloud::new()
    }
}

} // verus!
