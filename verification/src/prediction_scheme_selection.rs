//! The choice of the prediction scheme for an attribute being encoded.
use crate::draco_types::{data_type_integral, DataType};
use crate::geometry_attribute::GeometryAttributeType;
use crate::prediction_scheme::PredictionSchemeMethod;
use vstd::prelude::*;

verus! {

/// What the choice of a prediction scheme reads of the encoder options, the
/// encoder and its point cloud.
pub struct PredictionSelectionInputs {
    /// The encoding speed option (0 is slowest and best, 10 fastest).
    pub encoding_speed: i32,
    /// The geometry is a triangular mesh (else a point cloud).
    pub is_triangular_mesh: bool,
    /// The encoding method of the encoder, if it has one (0 is sequential).
    pub encoding_method: Option<i32>,
    /// The `quantization_bits` option of the attribute, -1 when not set.
    pub attribute_quantization_bits: i32,
    /// The type of the attribute.
    pub attribute_type: GeometryAttributeType,
    /// The number of components of the attribute.
    pub attribute_num_components: u8,
    /// The data type of the position attribute, if there is one.
    pub position_data_type: Option<DataType>,
    /// The `quantization_bits` option of the position attribute, -1 when not
    /// set.
    pub position_quantization_bits: i32,
    /// The number of points of the point cloud.
    pub num_points: usize,
}

/// The position attribute can serve the portable texture coordinate
/// prediction: it holds whole numbers, or is quantized to at most 21 bits
/// with room for twice that plus the texture coordinate bits in 64 bits.
pub open spec fn position_fits_tex_coords(i: PredictionSelectionInputs) -> bool {
    match i.position_data_type {
        Some(t) => data_type_integral(t) || (0 < i.position_quantization_bits <= 21 && 2
            * i.position_quantization_bits + i.attribute_quantization_bits < 64),
        None => false,
    }
}

/// The prediction scheme chosen for the inputs `i`: difference coding at
/// speed 10 and above, for point clouds, for sequentially encoded meshes,
/// for normals and at speed 8 and above; the portable texture coordinate
/// prediction for quantized two-component texture coordinates with a
/// suitable position attribute below speed 4; else parallelogram prediction
/// from speed 2 on or below 40 points, and constrained multi-parallelogram
/// prediction otherwise.
pub open spec fn selected_method(i: PredictionSelectionInputs) -> PredictionSchemeMethod {
    if i.encoding_speed >= 10 {
        PredictionSchemeMethod::Difference
    } else if !i.is_triangular_mesh {
        PredictionSchemeMethod::Difference
    } else if i.encoding_method == Some(0i32) {
        PredictionSchemeMethod::Difference
    } else if i.attribute_quantization_bits != -1 && i.attribute_type == GeometryAttributeType::TexCoord
        && i.attribute_num_components == 2 && position_fits_tex_coords(i) && i.encoding_speed < 4 {
        PredictionSchemeMethod::MeshPredictionTexCoordsPortable
    } else if i.attribute_type == GeometryAttributeType::Normal {
        PredictionSchemeMethod::Difference
    } else if i.encoding_speed >= 8 {
        PredictionSchemeMethod::Difference
    } else if i.encoding_speed >= 2 || i.num_points < 40 {
        PredictionSchemeMethod::MeshPredictionParallelogram
    } else {
        PredictionSchemeMethod::MeshPredictionConstrainedMultiParallelogram
    }
}

/// The portable texture coordinate prediction suits the inputs `i`: the
/// attribute is a quantized (its `quantization_bits` option set) texture
/// coordinate of two components on a triangular mesh encoded below speed 4
/// by a method other than the sequential one, with a position attribute that
/// can serve it.
pub open spec fn portable_tex_coords_allowed(i: PredictionSelectionInputs) -> bool {
    &&& i.attribute_quantization_bits != -1
    &&& i.attribute_type == GeometryAttributeType::TexCoord
    &&& i.attribute_num_components == 2
    &&& i.is_triangular_mesh
    &&& i.encoding_method != Some(0i32)
    &&& i.encoding_speed < 4
    &&& position_fits_tex_coords(i)
}

/// The portable texture coordinate prediction is chosen only where it suits
/// the inputs: never for texture coordinates that are not quantized, never
/// for another attribute type or component count, never for point clouds,
/// sequential encoding or speed 4 and above.
pub proof fn lemma_portable_tex_coords_only_quantized(i: PredictionSelectionInputs)
    ensures
        selected_method(i) == PredictionSchemeMethod::MeshPredictionTexCoordsPortable ==> portable_tex_coords_allowed(i),
        i.attribute_quantization_bits == -1 ==> selected_method(i) != PredictionSchemeMethod::MeshPredictionTexCoordsPortable,
{
}

/// Mesh predictions are kept for meshes encoded by a method other than the
/// sequential one below speed 10: point clouds, sequential encoding, speed
/// 10 and above, and normals always get difference coding; only speeds below
/// 2 with at least 40 points reach the constrained multi-parallelogram
/// prediction.
pub proof fn lemma_difference_coding_cases(i: PredictionSelectionInputs)
    ensures
        i.encoding_speed >= 10 || !i.is_triangular_mesh || i.encoding_method == Some(0i32) ==> selected_method(i)
            == PredictionSchemeMethod::Difference,
        i.attribute_type == GeometryAttributeType::Normal ==> selected_method(i) == PredictionSchemeMethod::Difference,
        selected_method(i) == PredictionSchemeMethod::MeshPredictionConstrainedMultiParallelogram ==> i.encoding_speed < 2
            && i.num_points >= 40,
{
}

/// Chooses the prediction scheme of an attribute being encoded (see
/// `selected_method`).
pub fn select_prediction_method(inputs: &PredictionSelectionInputs) -> (r: PredictionSchemeMethod)
    ensures
        r == selected_method(*inputs),
        r == PredictionSchemeMethod::MeshPredictionTexCoordsPortable ==> portable_tex_coords_allowed(*inputs),
{
    if inputs.encoding_speed >= 10 {
        return PredictionSchemeMethod::Difference;
    }
    if !inputs.is_triangular_mesh {
        return PredictionSchemeMethod::Difference;
    }
    match inputs.encoding_method {
        Some(m) => {
            if m == 0 {
                return PredictionSchemeMethod::Difference;
            }
        },
        None => {},
    }
    let att_quant = inputs.attribute_quantization_bits;
    if att_quant != -1 && inputs.attribute_type == GeometryAttributeType::TexCoord
        && inputs.attribute_num_components == 2 {
        let mut is_pos_att_valid = false;
        match inputs.position_data_type {
            Some(t) => {
                if t.is_integral() {
                    is_pos_att_valid = true;
                } else {
                    let pos_quant = inputs.position_quantization_bits;
                    if pos_quant > 0 && pos_quant <= 21 && 2 * (pos_quant as i64) + (att_quant as i64) < 64 {
                        is_pos_att_valid = true;
                    }
                }
            },
            None => {},
        }
        if is_pos_att_valid && inputs.encoding_speed < 4 {
            return PredictionSchemeMethod::MeshPredictionTexCoordsPortable;
        }
    }
    if inputs.attribute_type == GeometryAttributeType::Normal {
        return PredictionSchemeMethod::Difference;
    }
    if inputs.encoding_speed >= 8 {
        return PredictionSchemeMethod::Difference;
    }
    if inputs.encoding_speed >= 2 || inputs.num_points < 40 {
        return PredictionSchemeMethod::MeshPredictionParallelogram;
    }
    PredictionSchemeMethod::MeshPredictionConstrainedMultiParallelogram
}

} // verus!
