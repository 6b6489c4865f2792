//! Status codes of the C interface and their correspondence with the
//! library's error codes.
use crate::error::{ErrorCode, Status};
use vstd::prelude::*;

verus! {

/// Status codes returned through the C interface (0 for success, -1 to -6
/// for the errors, in the order listed here).
#[allow(non_camel_case_types)]
#[derive(Debug, Clone, Copy, PartialEq, Eq, Structural)]
pub enum draco_status_t {
    DRACO_STATUS_OK,
    DRACO_STATUS_ERROR,
    DRACO_STATUS_IO_ERROR,
    DRACO_STATUS_INVALID_PARAMETER,
    DRACO_STATUS_UNSUPPORTED_VERSION,
    DRACO_STATUS_UNKNOWN_VERSION,
    DRACO_STATUS_UNSUPPORTED_FEATURE,
}

/// The C status code of an error code.
pub open spec fn c_status_of(code: ErrorCode) -> draco_status_t {
    match code {
        ErrorCode::Success => draco_status_t::DRACO_STATUS_OK,
        ErrorCode::DracoError => draco_status_t::DRACO_STATUS_ERROR,
        ErrorCode::IoError => draco_status_t::DRACO_STATUS_IO_ERROR,
        ErrorCode::InvalidParameter => draco_status_t::DRACO_STATUS_INVALID_PARAMETER,
        ErrorCode::UnsupportedVersion => draco_status_t::DRACO_STATUS_UNSUPPORTED_VERSION,
        ErrorCode::UnknownVersion => draco_status_t::DRACO_STATUS_UNKNOWN_VERSION,
        ErrorCode::UnsupportedFeature => draco_status_t::DRACO_STATUS_UNSUPPORTED_FEATURE,
    }
}

impl Default for draco_status_t {
    fn default() -> (r: Self)
        ensures
            r == draco_status_t::DRACO_STATUS_OK,
    {
        draco_status_t::DRACO_STATUS_OK
    }
}

/// Converts a status into the C status code of its error code.
pub fn status_to_c(status: Status) -> (r: draco_status_t)
    ensures
        r == c_status_of(status.code_spec()),
{
    match status.code() {
        ErrorCode::Success => draco_status_t::DRACO_STATUS_OK,
        ErrorCode::DracoError => draco_status_t::DRACO_STATUS_ERROR,
        ErrorCode::IoError => draco_status_t::DRACO_STATUS_IO_ERROR,
        ErrorCode::InvalidParameter => draco_status_t::DRACO_STATUS_INVALID_PARAMETER,
        ErrorCode::UnsupportedVersion => draco_status_t::DRACO_STATUS_UNSUPPORTED_VERSION,
        ErrorCode::UnknownVersion => draco_status_t::DRACO_STATUS_UNKNOWN_VERSION,
        ErrorCode::UnsupportedFeature => draco_status_t::DRACO_STATUS_UNSUPPORTED_FEATURE,
    }
}

/// Distinct error codes give distinct C status codes.
pub proof fn lemma_c_status_injective(a: ErrorCode, b: ErrorCode)
    ensures
        c_status_of(a) == c_status_of(b) ==> a == b,
{
}

} // verus!
