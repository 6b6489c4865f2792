//! Prediction schemes of attribute values: their kinds, the kinds of
//! transforms of their corrections, and the interfaces that schemes and
//! transforms implement.
use crate::decoder_buffer::DecoderBuffer;
use crate::geometry_attribute::{GeometryAttributeType, PointAttribute};
use vstd::prelude::*;
use vstd::std_specs::convert::TryFromSpecImpl;

verus! {

/// How attribute values are predicted from values decoded before them.
#[derive(Debug, Clone, Copy, PartialEq, Eq, Structural)]
pub enum PredictionSchemeMethod {
    Undefined,
    /// No prediction.
    NoPrediction,
    Difference,
    MeshPredictionParallelogram,
    MeshPredictionMultiParallelogram,
    MeshPredictionTexCoordsDeprecated,
    MeshPredictionConstrainedMultiParallelogram,
    MeshPredictionTexCoordsPortable,
    MeshPredictionGeometricNormal,
}

/// The method stored in a bitstream as `value`, if any: the methods from
/// `Difference` on are numbered from 0.
pub open spec fn method_of_code(value: u8) -> Option<PredictionSchemeMethod> {
    if value == 0 {
        Some(PredictionSchemeMethod::Difference)
    } else if value == 1 {
        Some(PredictionSchemeMethod::MeshPredictionParallelogram)
    } else if value == 2 {
        Some(PredictionSchemeMethod::MeshPredictionMultiParallelogram)
    } else if value == 3 {
        Some(PredictionSchemeMethod::MeshPredictionTexCoordsDeprecated)
    } else if value == 4 {
        Some(PredictionSchemeMethod::MeshPredictionConstrainedMultiParallelogram)
    } else if value == 5 {
        Some(PredictionSchemeMethod::MeshPredictionTexCoordsPortable)
    } else if value == 6 {
        Some(PredictionSchemeMethod::MeshPredictionGeometricNormal)
    } else {
        None
    }
}

impl TryFrom<u8> for PredictionSchemeMethod {
    type Error = ();

    fn try_from(value: u8) -> (r: Result<Self, ()>) {
        match value {
            0 => Ok(PredictionSchemeMethod::Difference),
            1 => Ok(PredictionSchemeMethod::MeshPredictionParallelogram),
            2 => Ok(PredictionSchemeMethod::MeshPredictionMultiParallelogram),
            3 => Ok(PredictionSchemeMethod::MeshPredictionTexCoordsDeprecated),
            4 => Ok(PredictionSchemeMethod::MeshPredictionConstrainedMultiParallelogram),
            5 => Ok(PredictionSchemeMethod::MeshPredictionTexCoordsPortable),
            6 => Ok(PredictionSchemeMethod::MeshPredictionGeometricNormal),
            _ => Err(()),
        }
    }
}

impl TryFromSpecImpl<u8> for PredictionSchemeMethod {
    open spec fn obeys_try_from_spec() -> bool {
        true
    }

    open spec fn try_from_spec(value: u8) -> Result<Self, ()> {
        match method_of_code(value) {
            Some(m) => Ok(m),
            None => Err(()),
        }
    }
}

/// How the corrections of a prediction scheme are transformed.
#[derive(Debug, Clone, Copy, PartialEq, Eq, Structural)]
pub enum PredictionSchemeTransformType {
    /// No transform.
    NoTransform,
    Delta,
    Wrap,
    NormalOctahedron,
    NormalOctahedronCanonicalized,
    Parallelogram,
    TexCoordsPortable,
    GeometricNormal,
    MultiParallelogram,
    ConstrainedMultiParallelogram,
}

/// The transform type stored in a bitstream as `value`, if any: the types
/// from `Delta` on are numbered from 0.
pub open spec fn transform_of_code(value: u8) -> Option<PredictionSchemeTransformType> {
    if value == 0 {
        Some(PredictionSchemeTransformType::Delta)
    } else if value == 1 {
        Some(PredictionSchemeTransformType::Wrap)
    } else if value == 2 {
        Some(PredictionSchemeTransformType::NormalOctahedron)
    } else if value == 3 {
        Some(PredictionSchemeTransformType::NormalOctahedronCanonicalized)
    } else if value == 4 {
        Some(PredictionSchemeTransformType::Parallelogram)
    } else if value == 5 {
        Some(PredictionSchemeTransformType::TexCoordsPortable)
    } else if value == 6 {
        Some(PredictionSchemeTransformType::GeometricNormal)
    } else if value == 7 {
        Some(PredictionSchemeTransformType::MultiParallelogram)
    } else if value == 8 {
        Some(PredictionSchemeTransformType::ConstrainedMultiParallelogram)
    } else {
        None
    }
}

impl TryFrom<u8> for PredictionSchemeTransformType {
    type Error = ();

    fn try_from(value: u8) -> (r: Result<Self, ()>) {
        match value {
            0 => Ok(PredictionSchemeTransformType::Delta),
            1 => Ok(PredictionSchemeTransformType::Wrap),
            2 => Ok(PredictionSchemeTransformType::NormalOctahedron),
            3 => Ok(PredictionSchemeTransformType::NormalOctahedronCanonicalized),
            4 => Ok(PredictionSchemeTransformType::Parallelogram),
            5 => Ok(PredictionSchemeTransformType::TexCoordsPortable),
            6 => Ok(PredictionSchemeTransformType::GeometricNormal),
            7 => Ok(PredictionSchemeTransformType::MultiParallelogram),
            8 => Ok(PredictionSchemeTransformType::ConstrainedMultiParallelogram),
            _ => Err(()),
        }
    }
}

impl TryFromSpecImpl<u8> for PredictionSchemeTransformType {
    open spec fn obeys_try_from_spec() -> bool {
        true
    }

    open spec fn try_from_spec(value: u8) -> Result<Self, ()> {
        match transform_of_code(value) {
            Some(t) => Ok(t),
            None => Err(()),
        }
    }
}

/// A prediction scheme of an attribute.
pub trait PredictionScheme {
    fn get_prediction_method(&self) -> PredictionSchemeMethod;

    fn is_initialized(&self) -> bool;

    fn get_num_parent_attributes(&self) -> i32;

    fn get_parent_attribute_type(&self, i: i32) -> GeometryAttributeType;

    fn set_parent_attribute(&mut self, att: &PointAttribute) -> bool;

    fn get_transform_type(&self) -> PredictionSchemeTransformType;

    /// Returns true if the corrections are never negative, so that they are
    /// stored without zigzag coding; by default they may be negative.
    fn are_corrections_positive(&self) -> (r: bool)
        default_ensures
            !r,
    {
        false
    }
}

/// Turns original and predicted values into corrections.
pub trait PredictionSchemeEncodingTransform<DataType, CorrType>: Sized {
    /// The corrections that this transform, in its present state, computes
    /// from `original` values and their `predicted` values.
    spec fn corrections(&self, original: Seq<DataType>, predicted: Seq<DataType>) -> Seq<CorrType>;

    /// The kind of this transform.
    spec fn transform_type(&self) -> PredictionSchemeTransformType;

    fn init(&mut self, orig_data: &[DataType], size: usize, num_components: usize);

    fn compute_correction(&self, original_vals: &[DataType], predicted_vals: &[DataType], out_corr_vals: &mut [CorrType])
        requires
            predicted_vals@.len() == original_vals@.len(),
            old(out_corr_vals)@.len() == original_vals@.len(),
        ensures
            final(out_corr_vals)@.len() == old(out_corr_vals)@.len(),
            final(out_corr_vals)@ == self.corrections(original_vals@, predicted_vals@),
    ;

    /// Whether this transform, in its present state, writes its parameters
    /// after the bytes `buffer`, and the bytes it leaves.
    spec fn transform_data_encoding(&self, buffer: Seq<u8>) -> (bool, Seq<u8>);

    fn encode_transform_data(&mut self, buffer: &mut Vec<u8>) -> (r: bool)
        ensures
            (r, final(buffer)@) == old(self).transform_data_encoding(old(buffer)@),
    ;

    fn get_type(&self) -> (r: PredictionSchemeTransformType)
        ensures
            r == self.transform_type(),
    ;

    /// Returns true if the corrections are never negative; by default they
    /// may be negative.
    fn are_corrections_positive(&self) -> (r: bool)
        default_ensures
            !r,
    {
        false
    }
}

/// Turns predicted values and corrections back into original values.
pub trait PredictionSchemeDecodingTransform<DataType, CorrType>: Sized {
    /// The values that this transform, in its present state, computes from
    /// `predicted` values and their `corrections`.
    spec fn originals(&self, predicted: Seq<DataType>, corrections: Seq<CorrType>) -> Seq<DataType>;

    /// The kind of this transform.
    spec fn transform_type(&self) -> PredictionSchemeTransformType;

    fn init(&mut self, num_components: usize);

    fn compute_original_value(&self, predicted_vals: &[DataType], corr_vals: &[CorrType], out_original_vals: &mut [DataType])
        requires
            corr_vals@.len() == predicted_vals@.len(),
            old(out_original_vals)@.len() == predicted_vals@.len(),
        ensures
            final(out_original_vals)@.len() == old(out_original_vals)@.len(),
            final(out_original_vals)@ == self.originals(predicted_vals@, corr_vals@),
    ;

    /// Whether this transform, in its present state, reads its parameters
    /// from `buffer`, the buffer it leaves, and the transform it becomes.
    spec fn transform_data_decoding(&self, buffer: DecoderBuffer) -> (bool, DecoderBuffer, Self);

    fn decode_transform_data(&mut self, buffer: &mut DecoderBuffer) -> (r: bool)
        ensures
            (r, *final(buffer), *final(self)) == old(self).transform_data_decoding(*old(buffer)),
    ;

    fn get_type(&self) -> (r: PredictionSchemeTransformType)
        ensures
            r == self.transform_type(),
    ;

    /// Returns true if the corrections are never negative; by default they
    /// may be negative.
    fn are_corrections_positive(&self) -> (r: bool)
        default_ensures
            !r,
    {
        false
    }
}

/// The encoding side of a prediction scheme.
pub trait PredictionSchemeEncoder<DataType, CorrType>: PredictionScheme + Sized {
    /// The inputs on which this scheme computes corrections: the original
    /// values, the length of the output, and the number of components of
    /// each value.
    spec fn correction_values_ok(&self, in_data: Seq<DataType>, out_len: nat, num_components: usize) -> bool;

    fn compute_correction_values(
        &mut self,
        in_data: &[DataType],
        out_corr: &mut [CorrType],
        size: usize,
        num_components: usize,
        entry_to_point_id_map: Option<&[u32]>,
    ) -> bool
        requires
            old(self).correction_values_ok(in_data@, old(out_corr)@.len(), num_components),
    ;

    fn encode_prediction_data(&mut self, buffer: &mut Vec<u8>) -> bool;
}

/// The decoding side of a prediction scheme.
pub trait PredictionSchemeDecoder<DataType, CorrType>: PredictionScheme + Sized {
    /// The inputs on which this scheme restores original values: the
    /// corrections, the length of the output, and the number of components
    /// of each value.
    spec fn original_values_ok(&self, in_corr: Seq<CorrType>, out_len: nat, num_components: usize) -> bool;

    fn compute_original_values(
        &mut self,
        in_corr: &[CorrType],
        out_data: &mut [DataType],
        size: usize,
        num_components: usize,
        entry_to_point_id_map: Option<&[u32]>,
    ) -> bool
        requires
            old(self).original_values_ok(in_corr@, old(out_data)@.len(), num_components),
    ;

    fn decode_prediction_data(&mut self, buffer: &mut DecoderBuffer) -> bool;
}

} // verus!
