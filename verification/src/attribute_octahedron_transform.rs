//! Octahedral transform of normal vectors: its parameter (the number of
//! quantization bits) and how the parameter is stored and transmitted.
use crate::attribute_transform::AttributeTransformType;
use crate::attribute_transform_data::AttributeTransformData;
use crate::plain_value::PlainValue;
use crate::decoder_buffer::DecoderBuffer;
use crate::draco_types::DataType;
use crate::encoder_buffer::EncoderBuffer;
use crate::geometry_attribute::PointAttribute;
use vstd::prelude::*;

verus! {

/// Transform of unit vectors to quantized octahedral coordinates.
#[derive(Debug, Clone)]
pub struct AttributeOctahedronTransform {
    quantization_bits: i32,
}

impl AttributeOctahedronTransform {
    /// The number of quantization bits (-1 when not set).
    pub closed spec fn bits(&self) -> i32 {
        self.quantization_bits
    }

    /// Creates a transform with `quantization_bits` bits.
    pub fn new(quantization_bits: i32) -> (r: Self)
        ensures
            r.bits() == quantization_bits,
    {
        AttributeOctahedronTransform { quantization_bits }
    }

    /// Sets the number of quantization bits.
    pub fn set_parameters(&mut self, quantization_bits: i32)
        ensures
            final(self).bits() == quantization_bits,
    {
        self.quantization_bits = quantization_bits;
    }

    /// Returns true once the number of quantization bits is set (is not -1).
    pub fn is_initialized(&self) -> (r: bool)
        ensures
            r == (self.bits() != -1),
    {
        self.quantization_bits != -1
    }

    /// Returns the number of quantization bits.
    pub fn quantization_bits(&self) -> (r: i32)
        ensures
            r == self.bits(),
    {
        self.quantization_bits
    }

    /// The kind of this transform.
    pub fn transform_type(&self) -> (r: AttributeTransformType)
        ensures
            r == AttributeTransformType::OctahedronTransform,
    {
        AttributeTransformType::OctahedronTransform
    }

    /// Takes the number of quantization bits from the octahedral transform
    /// data attached to `attribute` (its first parameter). Fails, changing
    /// nothing, when no such data is attached or it holds no parameter.
    pub fn init_from_attribute(&mut self, attribute: &PointAttribute) -> (r: bool)
        ensures
            r <==> (attribute.transform_data() matches Some(d) && d.kind()
                == AttributeTransformType::OctahedronTransform && 4 <= d.parameter_bytes().len()),
            r ==> final(self).bits() == <i32 as PlainValue>::from_bytes_spec(
                attribute.transform_data()->0.parameter_bytes().subrange(0, 4),
            ),
            !r ==> final(self).bits() == old(self).bits(),
    {
        match attribute.attribute_transform_data() {
            Some(transform_data) => {
                if transform_data.transform_type() != AttributeTransformType::OctahedronTransform {
                    return false;
                }
                match transform_data.get_parameter_value::<i32>(0) {
                    Some(bits) => {
                        self.quantization_bits = bits;
                        true
                    },
                    None => false,
                }
            },
            None => false,
        }
    }

    /// Records this transform in `out_data`: its kind, and the number of
    /// quantization bits appended to the parameters.
    pub fn copy_to_attribute_transform_data(&self, out_data: &mut AttributeTransformData)
        requires
            old(out_data).parameter_bytes().len() + 4 <= usize::MAX,
        ensures
            final(out_data).kind() == AttributeTransformType::OctahedronTransform,
            final(out_data).parameter_bytes() == old(out_data).parameter_bytes() + self.bits().to_bytes_spec(),
    {
        out_data.set_transform_type(AttributeTransformType::OctahedronTransform);
        out_data.append_parameter_value(self.quantization_bits);
    }

    /// Writes the number of quantization bits as one byte (its low eight
    /// bits). Fails, writing nothing, when the number is not set. The byte
    /// is not written while a bit-level section of the buffer is open.
    pub fn encode_parameters(&self, encoder_buffer: &mut EncoderBuffer) -> (r: bool)
        ensures
            r == (self.bits() != -1),
            r && !old(encoder_buffer).bit_encoding_active() ==> final(encoder_buffer).bytes()
                == old(encoder_buffer).bytes().push(self.bits() as u8),
            !(r && !old(encoder_buffer).bit_encoding_active()) ==> *final(encoder_buffer) == *old(encoder_buffer),
    {
        if self.is_initialized() {
            let byte = [self.quantization_bits as u8];
            let _ = encoder_buffer.encode(&byte);
            proof {
                assert(byte@ =~= seq![self.bits() as u8]);
            }
            true
        } else {
            false
        }
    }

    /// Reads the number of quantization bits as one byte. Fails, changing
    /// nothing, when no byte can be read.
    pub fn decode_parameters(&mut self, _attribute: &PointAttribute, decoder_buffer: &mut DecoderBuffer) -> (r: bool)
        ensures
            final(decoder_buffer).same_except_pos(old(decoder_buffer)),
            r <==> !old(decoder_buffer).bit_decoding() && old(decoder_buffer).pos_spec() < old(
                decoder_buffer,
            ).bytes().len(),
            r ==> final(self).bits() == old(decoder_buffer).bytes()[old(decoder_buffer).pos_spec() as int]
                && final(decoder_buffer).pos_spec() == old(decoder_buffer).pos_spec() + 1,
            !r ==> final(self).bits() == old(self).bits() && final(decoder_buffer).pos_spec() == old(
                decoder_buffer,
            ).pos_spec(),
    {
        match decoder_buffer.decode_u8() {
            Ok(quantization_bits) => {
                self.quantization_bits = quantization_bits as i32;
                true
            },
            Err(_) => false,
        }
    }

    /// The type of the transformed values: unsigned 32-bit integers.
    pub fn get_transformed_data_type(&self, _attribute: &PointAttribute) -> (r: DataType)
        ensures
            r == DataType::Uint32,
    {
        DataType::Uint32
    }

    /// The number of components of a transformed value: two octahedral
    /// coordinates.
    pub fn get_transformed_num_components(&self, _attribute: &PointAttribute) -> (r: i32)
        ensures
            r == 2,
    {
        2
    }
}

/// What `copy_to_attribute_transform_data` records into empty transform
/// data, `init_from_attribute` reads back from an attribute carrying it.
pub proof fn lemma_transform_data_round_trip(bits: i32, data: AttributeTransformData)
    requires
        data.kind() == AttributeTransformType::OctahedronTransform,
        data.parameter_bytes() == bits.to_bytes_spec(),
    ensures
        4 <= data.parameter_bytes().len(),
        <i32 as PlainValue>::from_bytes_spec(data.parameter_bytes().subrange(0, 4)) == bits,
{
    bits.lemma_bytes_round_trip();
    assert(data.parameter_bytes().subrange(0, 4) =~= bits.to_bytes_spec());
}

/// The byte that `encode_parameters` writes is read back by
/// `decode_parameters` as the same number of bits, for every number of bits
/// that fits in a byte.
pub proof fn lemma_parameters_byte_round_trip(bits: i32)
    requires
        0 <= bits <= 255,
    ensures
        (bits as u8) as i32 == bits,
{
}

} // verus!
