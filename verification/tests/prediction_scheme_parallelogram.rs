use draco_core::corner_table::CornerTable;
use draco_core::decoder_buffer::DecoderBuffer;
use draco_core::geometry_attribute::{GeometryAttributeType, PointAttribute};
use draco_core::geometry_indices::{VertexIndex, INVALID_INDEX};
use draco_core::mesh_prediction_scheme_data::MeshPredictionSchemeData;
use draco_core::prediction_scheme::{
    PredictionScheme, PredictionSchemeDecoder, PredictionSchemeDecodingTransform, PredictionSchemeEncoder,
    PredictionSchemeEncodingTransform, PredictionSchemeMethod, PredictionSchemeTransformType,
};
use draco_core::prediction_scheme_parallelogram::{
    ParallelogramDataType, PredictionSchemeParallelogramDecoder, PredictionSchemeParallelogramDecodingTransform,
    PredictionSchemeParallelogramEncoder, PredictionSchemeParallelogramEncodingTransform,
};

fn quad() -> CornerTable {
    let mut t = CornerTable::default();
    let faces = vec![
        [VertexIndex(0), VertexIndex(1), VertexIndex(2)],
        [VertexIndex(2), VertexIndex(1), VertexIndex(3)],
    ];
    assert!(t.init(&faces));
    t
}

fn maps(t: &CornerTable) -> (Vec<u32>, Vec<i32>) {
    let data_to_corner: Vec<u32> = (0..4).map(|v| t.left_most_corner(VertexIndex(v)).0).collect();
    let vertex_to_data: Vec<i32> = (0..4).collect();
    (data_to_corner, vertex_to_data)
}

#[test]
fn parallelogram_prediction_wraps() {
    assert_eq!(i32::compute_parallelogram_prediction(3, 4, 5), 2);
    assert_eq!(i32::compute_parallelogram_prediction(i32::MAX, 1, 0), i32::MIN);
    assert_eq!(i32::compute_parallelogram_prediction(i32::MIN, 0, 1), i32::MAX);
}

#[test]
fn parallelogram_transforms_wrap_and_invert() {
    let enc = PredictionSchemeParallelogramEncodingTransform::<i32, i32>::new();
    let dec = PredictionSchemeParallelogramDecodingTransform::<i32, i32>::new();
    assert_eq!(enc.get_type(), PredictionSchemeTransformType::Parallelogram);
    assert_eq!(dec.get_type(), PredictionSchemeTransformType::Parallelogram);
    let original = [5, i32::MIN, 7];
    let predicted = [2, 1, -3];
    let mut corr = [0; 3];
    enc.compute_correction(&original, &predicted, &mut corr);
    assert_eq!(corr, [3, i32::MAX, 10]);
    let mut back = [0; 3];
    dec.compute_original_value(&predicted, &corr, &mut back);
    assert_eq!(back, original);
}

#[test]
fn mesh_prediction_data_holds_what_was_set() {
    let t = quad();
    let (d2c, v2d) = maps(&t);
    let mut md = MeshPredictionSchemeData::new();
    assert!(md.corner_table().is_none());
    assert!(md.data_to_corner_map().is_none());
    assert!(md.vertex_to_data_map().is_none());
    md.set(&t, &d2c, &v2d);
    assert_eq!(md.corner_table().unwrap().num_faces(), 2);
    assert_eq!(md.data_to_corner_map().unwrap(), &d2c[..]);
    assert_eq!(md.vertex_to_data_map().unwrap(), &v2d[..]);
}

#[test]
fn parallelogram_encoder_predicts_across_the_shared_edge() {
    let t = quad();
    let (d2c, v2d) = maps(&t);
    let mut md = MeshPredictionSchemeData::new();
    md.set(&t, &d2c, &v2d);
    let attribute = PointAttribute::new();
    let mut encoder = PredictionSchemeParallelogramEncoder::new(
        &attribute,
        PredictionSchemeParallelogramEncodingTransform::<i32, i32>::new(),
        md,
    );
    assert!(encoder.is_initialized());
    assert_eq!(encoder.get_prediction_method(), PredictionSchemeMethod::MeshPredictionParallelogram);
    assert_eq!(encoder.get_transform_type(), PredictionSchemeTransformType::Parallelogram);
    assert_eq!(encoder.get_num_parent_attributes(), 0);
    assert_eq!(encoder.get_parent_attribute_type(0), GeometryAttributeType::Invalid);

    // Vertices 0..4 at (0,0), (10,0), (0,10) and (11,12): the last one is
    // predicted as v1 + v2 - v0 = (10,10); the others by the entry before.
    let data = [0, 0, 10, 0, 0, 10, 11, 12];
    let mut corr = [99; 9];
    assert!(encoder.compute_correction_values(&data, &mut corr, 8, 2, None));
    assert_eq!(corr, [0, 0, 10, 0, -10, 10, 1, 2, 99]);

    let mut buffer = Vec::new();
    assert!(encoder.encode_prediction_data(&mut buffer));
    assert!(buffer.is_empty());
}

#[test]
fn parallelogram_decoder_restores_what_was_encoded() {
    let t = quad();
    let (d2c, v2d) = maps(&t);
    let mut md = MeshPredictionSchemeData::new();
    md.set(&t, &d2c, &v2d);
    let attribute = PointAttribute::new();
    let mut encoder = PredictionSchemeParallelogramEncoder::new(
        &attribute,
        PredictionSchemeParallelogramEncodingTransform::<i32, i32>::new(),
        md,
    );
    let mut decoder = PredictionSchemeParallelogramDecoder::new(
        &attribute,
        PredictionSchemeParallelogramDecodingTransform::<i32, i32>::new(),
        md,
    );
    assert!(decoder.is_initialized());
    assert_eq!(decoder.get_prediction_method(), PredictionSchemeMethod::MeshPredictionParallelogram);
    let data = [i32::MAX, -4, 7, i32::MIN, 100, 3, -20, 8, 1, 1, 1, 1];
    let mut corr = [0; 12];
    assert!(encoder.compute_correction_values(&data, &mut corr, 12, 3, None));
    let mut restored = [0; 12];
    assert!(decoder.compute_original_values(&corr, &mut restored, 12, 3, None));
    assert_eq!(restored, data);
}

#[test]
fn parallelogram_scheme_without_a_corner_falls_back_to_the_previous_entry() {
    let t = quad();
    let d2c = vec![INVALID_INDEX, INVALID_INDEX, INVALID_INDEX];
    let v2d: Vec<i32> = vec![0, 1, 2, 3];
    let mut md = MeshPredictionSchemeData::new();
    md.set(&t, &d2c, &v2d);
    let attribute = PointAttribute::new();
    let mut encoder = PredictionSchemeParallelogramEncoder::new(
        &attribute,
        PredictionSchemeParallelogramEncodingTransform::<i32, i32>::new(),
        md,
    );
    let data = [5, 8, 6];
    let mut corr = [0; 3];
    assert!(encoder.compute_correction_values(&data, &mut corr, 3, 1, None));
    assert_eq!(corr, [5, 3, -2]);
    let mut decoder = PredictionSchemeParallelogramDecoder::new(
        &attribute,
        PredictionSchemeParallelogramDecodingTransform::<i32, i32>::new(),
        md,
    );
    let mut restored = [0; 3];
    assert!(decoder.compute_original_values(&corr, &mut restored, 3, 1, None));
    assert_eq!(restored, data);
}

#[test]
fn uninitialised_parallelogram_scheme() {
    let attribute = PointAttribute::new();
    let decoder = PredictionSchemeParallelogramDecoder::new(
        &attribute,
        PredictionSchemeParallelogramDecodingTransform::<i32, i32>::new(),
        MeshPredictionSchemeData::new(),
    );
    assert!(!decoder.is_initialized());
}

#[test]
fn parallelogram_transforms_have_no_parameters() {
    let t = quad();
    let (d2c, v2d) = maps(&t);
    let mut md = MeshPredictionSchemeData::new();
    md.set(&t, &d2c, &v2d);
    let attribute = PointAttribute::new();
    let mut encoder = PredictionSchemeParallelogramEncoder::new(
        &attribute,
        PredictionSchemeParallelogramEncodingTransform::<i32, i32>::new(),
        md,
    );
    let mut decoder = PredictionSchemeParallelogramDecoder::new(
        &attribute,
        PredictionSchemeParallelogramDecodingTransform::<i32, i32>::new(),
        md,
    );
    assert!(!encoder.are_corrections_positive());
    assert!(!decoder.are_corrections_positive());

    let mut bytes = vec![1u8, 2, 3];
    assert!(encoder.encode_prediction_data(&mut bytes));
    assert_eq!(bytes, vec![1u8, 2, 3]);

    let data = [5u8, 6, 7];
    let mut buffer = DecoderBuffer::new(&data);
    assert!(decoder.decode_prediction_data(&mut buffer));
    assert_eq!(buffer.position(), 0);
    assert_eq!(buffer.remaining_size(), 3);
}
