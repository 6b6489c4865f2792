use draco_core::attribute_octahedron_transform::AttributeOctahedronTransform;
use draco_core::attribute_transform::AttributeTransformType;
use draco_core::attribute_transform_data::AttributeTransformData;
use draco_core::c_api::{draco_status_t, status_to_c};
use draco_core::decoder_buffer::DecoderBuffer;
use draco_core::draco_types::DataType;
use draco_core::encoder_buffer::EncoderBuffer;
use draco_core::error::{DracoError, Status};
use draco_core::geometry_attribute::{GeometryAttribute, GeometryAttributeType, PointAttribute};
use draco_core::geometry_indices::{AttributeValueIndex, FaceIndex, PointIndex, INVALID_INDEX};
use draco_core::mesh::Mesh;
use draco_core::point_cloud::PointCloud;

#[test]
fn draco_type_lengths() {
    assert_eq!(DataType::Invalid.byte_length(), 0);
    assert_eq!(DataType::Bool.byte_length(), 1);
    assert_eq!(DataType::Uint16.byte_length(), 2);
    assert_eq!(DataType::Float32.byte_length(), 4);
    assert_eq!(DataType::Int64.byte_length(), 8);
    assert!(DataType::Bool.is_integral());
    assert!(!DataType::Float64.is_integral());
    assert!(!DataType::Invalid.is_integral());
}

#[test]
fn transform_parameters_read_back() {
    let mut data = AttributeTransformData::new();
    assert_eq!(data.transform_type(), AttributeTransformType::InvalidTransform);
    data.set_transform_type(AttributeTransformType::QuantizationTransform);
    data.append_parameter_value(7i32);
    data.append_parameter_value(0xDEAD_BEEFu32);
    data.append_parameter_value(200u8);
    assert_eq!(data.get_parameter_value::<i32>(0), Some(7));
    assert_eq!(data.get_parameter_value::<u32>(4), Some(0xDEAD_BEEF));
    assert_eq!(data.get_parameter_value::<u8>(8), Some(200));
    assert_eq!(data.get_parameter_value::<u32>(6), None);
    data.set_parameter_value(12, -5i32);
    assert_eq!(data.get_parameter_value::<u8>(9), Some(0));
    assert_eq!(data.get_parameter_value::<i32>(12), Some(-5));
    assert_eq!(data.get_parameter_value::<u8>(0), Some(7));
}

#[test]
fn octahedron_parameters() {
    let mut t = AttributeOctahedronTransform::new(-1);
    assert!(!t.is_initialized());
    t.set_parameters(10);
    assert!(t.is_initialized());
    assert_eq!(t.quantization_bits(), 10);
    assert_eq!(t.transform_type(), AttributeTransformType::OctahedronTransform);

    let mut data = AttributeTransformData::default();
    t.copy_to_attribute_transform_data(&mut data);
    let mut att = PointAttribute::new();
    assert_eq!(t.get_transformed_data_type(&att), DataType::Uint32);
    assert_eq!(t.get_transformed_num_components(&att), 2);
    let mut other = AttributeOctahedronTransform::new(3);
    assert!(!other.init_from_attribute(&att));
    att.set_attribute_transform_data(data);
    assert!(other.init_from_attribute(&att));
    assert_eq!(other.quantization_bits(), 10);

    let mut enc = EncoderBuffer::new();
    assert!(t.encode_parameters(&mut enc));
    assert_eq!(enc.data(), &[10]);
    assert!(!AttributeOctahedronTransform::new(-1).encode_parameters(&mut enc));
    let bytes = enc.data().to_vec();
    let mut dec = DecoderBuffer::new(&bytes);
    let mut third = AttributeOctahedronTransform::new(-1);
    assert!(third.decode_parameters(&att, &mut dec));
    assert_eq!(third.quantization_bits(), 10);
    assert!(!third.decode_parameters(&att, &mut dec));
}

#[test]
fn geometry_attribute_fields() {
    let mut g = GeometryAttribute::default();
    assert_eq!(g.attribute_type(), GeometryAttributeType::Invalid);
    g.init(GeometryAttributeType::Normal, None, 3, DataType::Float32, true, 12, 4);
    assert_eq!(g.attribute_type(), GeometryAttributeType::Normal);
    assert_eq!(g.num_components(), 3);
    assert_eq!(g.data_type(), DataType::Float32);
    assert!(g.normalized());
    assert_eq!(g.byte_stride(), 12);
    assert_eq!(g.byte_offset(), 4);
    g.set_unique_id(5);
    g.set_attribute_type(GeometryAttributeType::Color);
    g.set_data_type(DataType::Uint8);
    g.set_num_components(4);
    assert_eq!(g.unique_id(), 5);
    assert_eq!(g.attribute_type(), GeometryAttributeType::Color);
    assert_eq!(g.data_type(), DataType::Uint8);
    assert_eq!(g.num_components(), 4);
}

#[test]
fn point_attribute_mapping() {
    let mut a = PointAttribute::new();
    a.init(GeometryAttributeType::Position, 3, DataType::Float32, false, 4);
    assert_eq!(a.size(), 4);
    assert_eq!(a.byte_stride(), 12);
    assert_eq!(a.buffer().data_size(), 48);
    assert_eq!(a.mapped_index(PointIndex(2)), AttributeValueIndex(2));
    a.set_point_map_entry(PointIndex(0), AttributeValueIndex(3));
    assert_eq!(a.mapped_index(PointIndex(0)), AttributeValueIndex(0));
    a.set_explicit_mapping(3);
    assert_eq!(a.mapped_index(PointIndex(1)).0, INVALID_INDEX);
    a.set_point_map_entry(PointIndex(1), AttributeValueIndex(3));
    assert_eq!(a.mapped_index(PointIndex(1)), AttributeValueIndex(3));
    assert_eq!(a.mapped_index(PointIndex(7)).0, INVALID_INDEX);
    a.set_identity_mapping();
    assert_eq!(a.mapped_index(PointIndex(7)), AttributeValueIndex(7));
    a.buffer_mut().update(&[1, 2], None);
    assert_eq!(a.buffer().data()[..2], [1, 2]);
    a.set_data_type(DataType::Int8);
    a.set_num_components(2);
    a.set_attribute_type(GeometryAttributeType::Generic);
    assert_eq!(a.data_type(), DataType::Int8);
    assert_eq!(a.num_components(), 2);
    assert_eq!(a.attribute_type(), GeometryAttributeType::Generic);
    assert!(!a.normalized());
    assert!(a.attribute_transform_data().is_none());
}

#[test]
fn point_cloud_attributes() {
    let mut pc = PointCloud::new();
    let mut pos = PointAttribute::new();
    pos.init(GeometryAttributeType::Position, 3, DataType::Float32, false, 5);
    let mut nrm = PointAttribute::default();
    nrm.init(GeometryAttributeType::Normal, 3, DataType::Float32, false, 2);
    assert_eq!(pc.add_attribute(pos), 0);
    assert_eq!(pc.num_points(), 5);
    assert_eq!(pc.add_attribute(nrm), 1);
    assert_eq!(pc.num_points(), 5);
    assert_eq!(pc.num_attributes(), 2);
    assert_eq!(pc.attribute(1).unique_id(), 1);
    assert_eq!(pc.named_attribute_id(GeometryAttributeType::Normal), 1);
    assert_eq!(pc.named_attribute_id(GeometryAttributeType::Color), -1);
    assert!(pc.named_attribute(GeometryAttributeType::Color).is_none());
    assert_eq!(pc.named_attribute(GeometryAttributeType::Position).unwrap().size(), 5);
    pc.attribute_mut(0).set_unique_id(9);
    assert_eq!(pc.attribute(0).unique_id(), 9);
    pc.set_num_points(11);
    assert_eq!(pc.num_points(), 11);
}

#[test]
fn mesh_faces() {
    let mut m = Mesh::new();
    m.add_face([PointIndex(0), PointIndex(1), PointIndex(2)]);
    m.set_face(FaceIndex(2), [PointIndex(3), PointIndex(4), PointIndex(5)]);
    assert_eq!(m.num_faces(), 3);
    assert_eq!(m.face(FaceIndex(1)), [PointIndex(0); 3]);
    assert_eq!(m.face(FaceIndex(2)), [PointIndex(3), PointIndex(4), PointIndex(5)]);
    m.set_num_faces(1);
    assert_eq!(m.num_faces(), 1);
    assert_eq!(m.face(FaceIndex(0)), [PointIndex(0), PointIndex(1), PointIndex(2)]);
    m.point_cloud_mut().set_num_points(3);
    assert_eq!(m.num_points(), 3);
    assert_eq!(m.point_cloud().num_points(), 3);
    assert_eq!(Mesh::default().num_faces(), 0);
}

#[test]
fn status_codes_for_c() {
    assert_eq!(status_to_c(Status::ok()), draco_status_t::DRACO_STATUS_OK);
    assert_eq!(status_to_c(Status::error("x")), draco_status_t::DRACO_STATUS_ERROR);
    assert_eq!(
        status_to_c(Status::from(DracoError::invalid_parameter("p"))),
        draco_status_t::DRACO_STATUS_INVALID_PARAMETER
    );
    assert_eq!(
        status_to_c(Status::from(DracoError::unknown_version("v"))),
        draco_status_t::DRACO_STATUS_UNKNOWN_VERSION
    );
    assert_eq!(draco_status_t::default(), draco_status_t::DRACO_STATUS_OK);
}
