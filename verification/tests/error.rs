use draco_core::error::{error_status, io_error_status, ok_status, DracoError, ErrorCode, Status, StatusResult};

#[test]
fn test_error_codes() {
    assert_eq!(ErrorCode::Success.name(), "OK");
    assert_eq!(ErrorCode::DracoError.name(), "DRACO_ERROR");
    assert_eq!(ErrorCode::IoError.name(), "IO_ERROR");
}

#[test]
fn test_draco_error() {
    let error = DracoError::error("test message");
    assert_eq!(error.code(), ErrorCode::DracoError);
    assert_eq!(error.message(), "test message");
    assert!(error.is_error());
    assert!(!error.is_ok());
}

#[test]
fn test_status() {
    let status = Status::ok();
    assert!(status.is_ok());
    assert_eq!(status.code(), ErrorCode::Success);

    let status = Status::error("test error");
    assert!(!status.is_ok());
    assert_eq!(status.code(), ErrorCode::DracoError);
    assert_eq!(status.error_msg(), "test error");
}

#[test]
fn test_status_to_result() {
    let ok_status = Status::ok();
    assert!(ok_status.into_result().is_ok());

    let err_status = Status::error("test error");
    assert!(err_status.into_result().is_err());
}

#[test]
fn test_status_result_with_value() {
    let ok_status = Status::ok();
    let result: StatusResult<i32> = ok_status.into_result_with(42);
    assert_eq!(result.unwrap(), 42);

    let err_status = Status::error("test error");
    let result: StatusResult<i32> = err_status.into_result_with(42);
    assert!(result.is_err());
}

#[test]
fn test_convenience_constructors() {
    let io_err = DracoError::io_error("file not found");
    assert_eq!(io_err.code(), ErrorCode::IoError);

    let param_err = DracoError::invalid_parameter("negative value");
    assert_eq!(param_err.code(), ErrorCode::InvalidParameter);
}

#[test]
fn test_display() {
    let error = DracoError::error("test message");
    assert_eq!(error.to_string(), "DRACO_ERROR: test message");

    let status = Status::ok();
    assert_eq!(status.to_string(), "OK");

    let err_status = Status::error("test error");
    assert_eq!(err_status.to_string(), "DRACO_ERROR: test error");
}

#[test]
fn status_from_error_keeps_code_and_message() {
    let status = Status::from(DracoError::unsupported_feature("no kd-tree"));
    assert_eq!(status.code(), ErrorCode::UnsupportedFeature);
    assert_eq!(status.error_msg(), "no kd-tree");
    assert_eq!(status.code_string(), "UNSUPPORTED_FEATURE");
    assert_eq!(status.code_and_error_string(), "UNSUPPORTED_FEATURE: no kd-tree");
    let err = status.into_result().unwrap_err();
    assert_eq!(err.code(), ErrorCode::UnsupportedFeature);
    assert_eq!(err.message(), "no kd-tree");
}

#[test]
fn error_code_names_and_helpers() {
    assert_eq!(ErrorCode::InvalidParameter.to_string(), "INVALID_PARAMETER");
    assert_eq!(ErrorCode::UnsupportedVersion.name(), "UNSUPPORTED_VERSION");
    assert_eq!(ErrorCode::UnknownVersion.name(), "UNKNOWN_VERSION");
    assert_eq!(ErrorCode::default(), ErrorCode::Success);
    assert!(ok_status().is_ok());
    assert_eq!(error_status("x").code(), ErrorCode::DracoError);
    assert_eq!(io_error_status("y").code(), ErrorCode::IoError);
    assert_eq!(Status::default().code(), ErrorCode::Success);
    assert_eq!(DracoError::unknown_version("v9").code(), ErrorCode::UnknownVersion);
    assert_eq!(DracoError::unsupported_version("v1").code(), ErrorCode::UnsupportedVersion);
    let e = DracoError::new(ErrorCode::IoError, "disk");
    assert_eq!(e.to_string(), "IO_ERROR: disk");
    assert!(DracoError::from_code(ErrorCode::Success).is_ok());
}

#[test]
fn test_from_conversions() {
    let io_error = std::io::Error::new(std::io::ErrorKind::NotFound, "file not found");
    let draco_error: DracoError = io_error.into();
    assert_eq!(draco_error.code(), ErrorCode::IoError);
    assert!(draco_error.message().contains("file not found"));
}

#[test]
fn io_errors_become_io_error_statuses() {
    let io_error = std::io::Error::new(std::io::ErrorKind::Other, "disk full");
    let status: Status = io_error.into();
    assert_eq!(status.code(), ErrorCode::IoError);
    assert_eq!(status.error_msg(), "disk full");
}
