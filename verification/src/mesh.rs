//! A triangle mesh: a point cloud with faces.
use crate::geometry_indices::{FaceIndex, PointIndex};
use crate::point_cloud::PointCloud;
use vstd::prelude::*;

verus! {

/// A triangle, as the indices of its three points.
pub type Face = [PointIndex; 3];

/// The face that `set_face` and `set_num_faces` fill new slots with: all
/// three points are point 0.
pub open spec fn zero_face() -> Face {
    [PointIndex(0), PointIndex(0), PointIndex(0)]
}

/// A point cloud with triangular faces.
#[derive(Debug, Clone)]
pub struct Mesh {
    point_cloud: PointCloud,
    faces: Vec<Face>,
}

/// Returns the face whose three points are point 0.
fn new_zero_face() -> (r: Face)
    ensures
        r == zero_face(),
{
    [PointIndex(0), PointIndex(0), PointIndex(0)]
}

/// Cuts `faces` to `n` faces or pads it with zero faces.
fn resize_faces(faces: &mut Vec<Face>, n: usize)
    ensures
        final(faces)@.len() == n,
        forall|i: int|
            0 <= i < n ==> #[trigger] final(faces)@[i] == if i < old(faces)@.len() {
                old(faces)@[i]
            } else {
                zero_face()
            },
{
    if n <= faces.len() {
        faces.truncate(n);
    } else {
        let ghost before = faces@;
        while faces.len() < n
            invariant
                before.len() <= faces@.len() <= n,
                forall|i: int|
                    0 <= i < faces@.len() ==> #[trigger] faces@[i] == if i < before.len() {
                        before[i]
                    } else {
                        zero_face()
                    },
            decreases n - faces@.len(),
        {
            faces.push(new_zero_face());
        }
    }
}

impl Mesh {
    /// The faces.
    pub closed spec fn faces_spec(&self) -> Seq<Face> {
        self.faces@
    }

    /// The underlying point cloud.
    pub closed spec fn cloud(&self) -> PointCloud {
        self.point_cloud
    }

    /// Creates a mesh with no points, attributes or faces.
    pub fn new() -> (r: Self)
        ensures
            r.faces_spec() == Seq::<Face>::empty(),
            r.cloud().attributes_spec().len() == 0,
            r.cloud().num_points_spec() == 0,
    {
        Mesh { point_cloud: PointCloud::new(), faces: Vec::new() }
    }

    /// Appends a face.
    pub fn add_face(&mut self, face: Face)
        ensures
            final(self).faces_spec() == old(self).faces_spec().push(face),
            final(self).cloud() == old(self).cloud(),
    {
        self.faces.push(face);
    }

    /// Sets face `face_id`, first padding the faces with zero faces if it
    /// lies past them.
    pub fn set_face(&mut self, face_id: FaceIndex, face: Face)
        requires
            face_id.0 + 1 <= usize::MAX,
        ensures
            ({
                let n = if face_id.0 < old(self).faces_spec().len() {
                    old(self).faces_spec().len() as int
                } else {
                    face_id.0 + 1
                };
                &&& final(self).faces_spec().len() == n
                &&& forall|i: int|
                    0 <= i < n ==> #[trigger] final(self).faces_spec()[i] == if i == face_id.0 {
                        face
                    } else if i < old(self).faces_spec().len() {
                        old(self).faces_spec()[i]
                    } else {
                        zero_face()
                    }
            }),
            final(self).cloud() == old(self).cloud(),
    {
        let id = face_id.0 as usize;
        if id >= self.faces.len() {
            resize_faces(&mut self.faces, id + 1);
        }
        self.faces.set(id, face);
    }

    /// Returns face `face_id`.
    pub fn face(&self, face_id: FaceIndex) -> (r: Face)
        requires
            face_id.0 < self.faces_spec().len(),
        ensures
            r == self.faces_spec()[face_id.0 as int],
    {
        self.faces[face_id.0 as usize]
    }

    /// Returns the number of faces.
    pub fn num_faces(&self) -> (r: usize)
        ensures
            r == self.faces_spec().len(),
    {
        self.faces.len()
    }

    /// Cuts the faces to `num_faces` or pads them with zero faces.
    pub fn set_num_faces(&mut self, num_faces: usize)
        ensures
            final(self).faces_spec().len() == num_faces,
            forall|i: int|
                0 <= i < num_faces ==> #[trigger] final(self).faces_spec()[i] == if i < old(self).faces_spec().len() {
                    old(self).faces_spec()[i]
                } else {
                    zero_face()
                },
            final(self).cloud() == old(self).cloud(),
    {
        resize_faces(&mut self.faces, num_faces);
    }

    /// Returns the underlying point cloud.
    pub fn point_cloud(&self) -> (r: &PointCloud)
        ensures
            *r == self.cloud(),
    {
        &self.point_cloud
    }

    /// Returns the underlying point cloud for modification.
    pub fn point_cloud_mut(&mut self) -> (r: &mut PointCloud)
        ensures
            *r == old(self).cloud(),
            final(self).cloud() == *final(r),
            final(self).faces_spec() == old(self).faces_spec(),
    {
        &mut self.point_cloud
    }
}

impl Default for Mesh {
    fn default() -> (r: Self)
        ensures
            r.faces_spec() == Seq::<Face>::empty(),
            r.cloud().attributes_spec().len() == 0,
            r.cloud().num_points_spec() == 0,
    {
        Mesh::new()
    }
}

impl core::ops::Deref for Mesh {
    type Target = PointCloud;

    fn deref(&self) -> (r: &PointCloud)
        ensures
            *r == self.cloud(),
    {
        &self.point_cloud
    }
}

} // verus!
