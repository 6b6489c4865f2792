use draco_core::data_types::DataType;

#[test]
fn test_data_type_size() {
    assert_eq!(DataType::Int8.size(), 1);
    assert_eq!(DataType::UInt8.size(), 1);
    assert_eq!(DataType::Int16.size(), 2);
    assert_eq!(DataType::UInt16.size(), 2);
    assert_eq!(DataType::Int32.size(), 4);
    assert_eq!(DataType::UInt32.size(), 4);
    assert_eq!(DataType::Int64.size(), 8);
    assert_eq!(DataType::UInt64.size(), 8);
    assert_eq!(DataType::Float32.size(), 4);
    assert_eq!(DataType::Float64.size(), 8);
    assert_eq!(DataType::Bool.size(), 1);
    assert_eq!(DataType::Invalid.size(), 0);
}

#[test]
fn test_is_integral() {
    assert!(DataType::Int8.is_integral());
    assert!(DataType::UInt8.is_integral());
    assert!(DataType::Int16.is_integral());
    assert!(DataType::UInt16.is_integral());
    assert!(DataType::Int32.is_integral());
    assert!(DataType::UInt32.is_integral());
    assert!(DataType::Int64.is_integral());
    assert!(DataType::UInt64.is_integral());
    assert!(DataType::Bool.is_integral());
    assert!(!DataType::Float32.is_integral());
    assert!(!DataType::Float64.is_integral());
}

#[test]
fn test_is_floating_point() {
    assert!(DataType::Float32.is_floating_point());
    assert!(DataType::Float64.is_floating_point());
    assert!(!DataType::Int8.is_floating_point());
    assert!(!DataType::UInt8.is_floating_point());
    assert!(!DataType::Bool.is_floating_point());
}

#[test]
fn test_from_u8() {
    assert_eq!(DataType::from(1u8), DataType::Int8);
    assert_eq!(DataType::from(2u8), DataType::UInt8);
    assert_eq!(DataType::from(11u8), DataType::Bool);
    assert_eq!(DataType::from(0u8), DataType::Invalid);
    assert_eq!(DataType::from(255u8), DataType::Invalid);
}

#[test]
fn test_from_str() {
    assert_eq!(DataType::from("int8"), DataType::Int8);
    assert_eq!(DataType::from("UINT8"), DataType::UInt8);
    assert_eq!(DataType::from("Float32"), DataType::Float32);
    assert_eq!(DataType::from("bool"), DataType::Bool);
    assert_eq!(DataType::from("unknown"), DataType::Invalid);
}

#[test]
fn data_type_names_parse_back() {
    let all = [
        DataType::Invalid,
        DataType::Int8,
        DataType::UInt8,
        DataType::Int16,
        DataType::UInt16,
        DataType::Int32,
        DataType::UInt32,
        DataType::Int64,
        DataType::UInt64,
        DataType::Float32,
        DataType::Float64,
        DataType::Bool,
    ];
    for t in all {
        assert_eq!(DataType::from(t.name()), t);
        assert!(!(t.is_signed_integer() && t.is_unsigned_integer()));
        assert_eq!(t.is_integral(), t.is_signed_integer() || t.is_unsigned_integer() || t == DataType::Bool);
    }
    assert_eq!(DataType::Int16.name(), "int16");
    assert!(!DataType::Bool.is_unsigned_integer());
    assert!(DataType::UInt32.is_unsigned_integer());
    assert!(DataType::Int64.is_signed_integer());
    assert_eq!(DataType::default(), DataType::Invalid);
}
