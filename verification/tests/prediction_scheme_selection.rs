use draco_core::draco_types::DataType;
use draco_core::geometry_attribute::GeometryAttributeType;
use draco_core::prediction_scheme::PredictionSchemeMethod;
use draco_core::prediction_scheme_selection::{select_prediction_method, PredictionSelectionInputs};

fn inputs(speed: i32, att_type: GeometryAttributeType) -> PredictionSelectionInputs {
    PredictionSelectionInputs {
        encoding_speed: speed,
        is_triangular_mesh: true,
        encoding_method: Some(1),
        attribute_quantization_bits: 10,
        attribute_type: att_type,
        attribute_num_components: 2,
        position_data_type: Some(DataType::Float32),
        position_quantization_bits: 11,
        num_points: 100,
    }
}

#[test]
fn fast_speeds_point_clouds_and_sequential_meshes_use_differences() {
    assert_eq!(select_prediction_method(&inputs(10, GeometryAttributeType::Position)), PredictionSchemeMethod::Difference);
    let mut i = inputs(0, GeometryAttributeType::Position);
    i.is_triangular_mesh = false;
    assert_eq!(select_prediction_method(&i), PredictionSchemeMethod::Difference);
    let mut i = inputs(0, GeometryAttributeType::Position);
    i.encoding_method = Some(0);
    assert_eq!(select_prediction_method(&i), PredictionSchemeMethod::Difference);
    assert_eq!(select_prediction_method(&inputs(0, GeometryAttributeType::Normal)), PredictionSchemeMethod::Difference);
    assert_eq!(select_prediction_method(&inputs(8, GeometryAttributeType::Position)), PredictionSchemeMethod::Difference);
}

#[test]
fn texture_coordinates_use_the_portable_prediction_below_speed_four() {
    assert_eq!(
        select_prediction_method(&inputs(3, GeometryAttributeType::TexCoord)),
        PredictionSchemeMethod::MeshPredictionTexCoordsPortable
    );
    assert_eq!(
        select_prediction_method(&inputs(4, GeometryAttributeType::TexCoord)),
        PredictionSchemeMethod::MeshPredictionParallelogram
    );
    let mut i = inputs(0, GeometryAttributeType::TexCoord);
    i.position_quantization_bits = 27;
    assert_eq!(select_prediction_method(&i), PredictionSchemeMethod::MeshPredictionConstrainedMultiParallelogram);
    let mut i = inputs(0, GeometryAttributeType::TexCoord);
    i.position_data_type = None;
    assert_eq!(select_prediction_method(&i), PredictionSchemeMethod::MeshPredictionConstrainedMultiParallelogram);
    let mut i = inputs(0, GeometryAttributeType::TexCoord);
    i.position_data_type = Some(DataType::Int16);
    i.position_quantization_bits = -1;
    assert_eq!(select_prediction_method(&i), PredictionSchemeMethod::MeshPredictionTexCoordsPortable);
}

#[test]
fn meshes_use_parallelograms() {
    assert_eq!(
        select_prediction_method(&inputs(2, GeometryAttributeType::Position)),
        PredictionSchemeMethod::MeshPredictionParallelogram
    );
    assert_eq!(
        select_prediction_method(&inputs(1, GeometryAttributeType::Position)),
        PredictionSchemeMethod::MeshPredictionConstrainedMultiParallelogram
    );
    let mut i = inputs(1, GeometryAttributeType::Position);
    i.num_points = 39;
    assert_eq!(select_prediction_method(&i), PredictionSchemeMethod::MeshPredictionParallelogram);
}
