//! Core building blocks of the Draco geometry compression library: bit and
//! integer utilities, data types, status handling and byte/bit buffers.
pub mod bit_utils;
pub mod math_utils;
pub mod data_types;
pub mod error;
pub mod buffer;
pub mod encoder_buffer;
pub mod decoder_buffer;
pub mod bit_sections;
pub mod vector_extensions;
pub mod geometry_indices;
pub mod draco_types;
pub mod data_buffer;
pub mod attribute_transform;
pub mod plain_value;
pub mod attribute_transform_data;
pub mod geometry_attribute;
pub mod point_cloud;
pub mod mesh;
pub mod corner_table;
pub mod c_api;
pub mod attribute_octahedron_transform;
pub mod prediction_scheme;
pub mod mesh_edgebreaker_shared;
pub mod edgebreaker_connectivity_decoder;
pub mod mesh_prediction_scheme_data;
pub mod prediction_scheme_parallelogram;
pub mod mesh_traversal;
pub mod mesh_metadata;
pub mod mesh_edgebreaker_decoder;
pub mod mesh_edgebreaker_traversal_valence_decoder;
pub mod mesh_edgebreaker_reconstruction;
pub mod prediction_scheme_selection;
