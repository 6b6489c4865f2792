//! Error codes, errors and statuses of library operations.
use vstd::prelude::*;
use vstd::string::*;

verus! {

/// Result codes of library operations.
///
/// The numeric values of the codes are 0 for `Success` and -1 to -6 for the
/// errors, in the order listed here.
#[derive(Debug, Clone, Copy, PartialEq, Eq, Hash, Structural)]
pub enum ErrorCode {
    /// Operation completed successfully.
    Success,
    /// General error.
    DracoError,
    /// Error when handling an input or output stream.
    IoError,
    /// Invalid parameter passed to a function.
    InvalidParameter,
    /// Input not compatible with the current version.
    UnsupportedVersion,
    /// Input created with an unknown version of the library.
    UnknownVersion,
    /// Input contains a feature that is not supported.
    UnsupportedFeature,
}

/// The printable name of an error code.
pub open spec fn error_code_name(c: ErrorCode) -> Seq<char> {
    match c {
        ErrorCode::Success => seq!['O', 'K'],
        ErrorCode::DracoError => seq!['D', 'R', 'A', 'C', 'O', '_', 'E', 'R', 'R', 'O', 'R'],
        ErrorCode::IoError => seq!['I', 'O', '_', 'E', 'R', 'R', 'O', 'R'],
        ErrorCode::InvalidParameter => seq![
            'I', 'N', 'V', 'A', 'L', 'I', 'D', '_', 'P', 'A', 'R', 'A', 'M', 'E', 'T', 'E', 'R'
        ],
        ErrorCode::UnsupportedVersion => seq![
            'U', 'N', 'S', 'U', 'P', 'P', 'O', 'R', 'T', 'E', 'D', '_', 'V', 'E', 'R', 'S', 'I', 'O', 'N'
        ],
        ErrorCode::UnknownVersion => seq![
            'U', 'N', 'K', 'N', 'O', 'W', 'N', '_', 'V', 'E', 'R', 'S', 'I', 'O', 'N'
        ],
        ErrorCode::UnsupportedFeature => seq![
            'U', 'N', 'S', 'U', 'P', 'P', 'O', 'R', 'T', 'E', 'D', '_', 'F', 'E', 'A', 'T', 'U', 'R', 'E'
        ],
    }
}

/// The text `"<code name>: <message>"` used to print failures.
pub open spec fn code_and_message(c: ErrorCode, message: Seq<char>) -> Seq<char> {
    error_code_name(c) + seq![':', ' '] + message
}

impl ErrorCode {
    /// Returns the name of this error code.
    pub fn name(self) -> (r: &'static str)
        ensures
            r@ == error_code_name(self),
    {
        let r = match self {
            ErrorCode::Success => "OK",
            ErrorCode::DracoError => "DRACO_ERROR",
            ErrorCode::IoError => "IO_ERROR",
            ErrorCode::InvalidParameter => "INVALID_PARAMETER",
            ErrorCode::UnsupportedVersion => "UNSUPPORTED_VERSION",
            ErrorCode::UnknownVersion => "UNKNOWN_VERSION",
            ErrorCode::UnsupportedFeature => "UNSUPPORTED_FEATURE",
        };
        proof {
            reveal_strlit("OK");
            reveal_strlit("DRACO_ERROR");
            reveal_strlit("IO_ERROR");
            reveal_strlit("INVALID_PARAMETER");
            reveal_strlit("UNSUPPORTED_VERSION");
            reveal_strlit("UNKNOWN_VERSION");
            reveal_strlit("UNSUPPORTED_FEATURE");
        }
        r
    }

    /// The printed form of the code: its name.
    pub fn to_string(self) -> (r: String)
        ensures
            r@ == error_code_name(self),
    {
        self.name().to_owned()
    }
}

impl Default for ErrorCode {
    fn default() -> (r: Self)
        ensures
            r == ErrorCode::Success,
    {
        ErrorCode::Success
    }
}

/// An error of a library operation: a code and a message.
#[derive(Debug, Clone)]
pub struct DracoError {
    code: ErrorCode,
    message: String,
}

impl DracoError {
    /// The error code.
    pub closed spec fn code_spec(&self) -> ErrorCode {
        self.code
    }

    /// The error message.
    pub closed spec fn message_spec(&self) -> Seq<char> {
        self.message@
    }

    /// Creates an error with the given code and message.
    pub fn new(code: ErrorCode, message: &str) -> (r: Self)
        ensures
            r.code_spec() == code,
            r.message_spec() == message@,
    {
        DracoError { code, message: message.to_owned() }
    }

    /// Creates an error with the given code, whose message is the code's
    /// name.
    pub fn from_code(code: ErrorCode) -> (r: Self)
        ensures
            r.code_spec() == code,
            r.message_spec() == error_code_name(code),
    {
        DracoError { code, message: code.name().to_owned() }
    }

    /// Returns the error code.
    pub fn code(&self) -> (r: ErrorCode)
        ensures
            r == self.code_spec(),
    {
        self.code
    }

    /// Returns the error message.
    pub fn message(&self) -> (r: &str)
        ensures
            r@ == self.message_spec(),
    {
        self.message.as_str()
    }

    /// Returns true if the code is `ErrorCode::Success`.
    pub fn is_ok(&self) -> (r: bool)
        ensures
            r == (self.code_spec() == ErrorCode::Success),
    {
        self.code == ErrorCode::Success
    }

    /// Returns true if the code is anything other than `ErrorCode::Success`.
    pub fn is_error(&self) -> (r: bool)
        ensures
            r == (self.code_spec() != ErrorCode::Success),
    {
        self.code != ErrorCode::Success
    }

    /// The printed form of the error: `"<code name>: <message>"`.
    pub fn to_string(&self) -> (r: String)
        ensures
            r@ == code_and_message(self.code_spec(), self.message_spec()),
    {
        let mut s = self.code.name().to_owned();
        s.append(": ");
        s.append(self.message.as_str());
        proof {
            reveal_strlit(": ");
        }
        s
    }

    /// Creates a general error.
    pub fn error(message: &str) -> (r: Self)
        ensures
            r.code_spec() == ErrorCode::DracoError,
            r.message_spec() == message@,
    {
        Self::new(ErrorCode::DracoError, message)
    }

    /// Creates an I/O error.
    pub fn io_error(message: &str) -> (r: Self)
        ensures
            r.code_spec() == ErrorCode::IoError,
            r.message_spec() == message@,
    {
        Self::new(ErrorCode::IoError, message)
    }

    /// Creates an invalid-parameter error.
    pub fn invalid_parameter(message: &str) -> (r: Self)
        ensures
            r.code_spec() == ErrorCode::InvalidParameter,
            r.message_spec() == message@,
    {
        Self::new(ErrorCode::InvalidParameter, message)
    }

    /// Creates an unsupported-version error.
    pub fn unsupported_version(message: &str) -> (r: Self)
        ensures
            r.code_spec() == ErrorCode::UnsupportedVersion,
            r.message_spec() == message@,
    {
        Self::new(ErrorCode::UnsupportedVersion, message)
    }

    /// Creates an unknown-version error.
    pub fn unknown_version(message: &str) -> (r: Self)
        ensures
            r.code_spec() == ErrorCode::UnknownVersion,
            r.message_spec() == message@,
    {
        Self::new(ErrorCode::UnknownVersion, message)
    }

    /// Creates an unsupported-feature error.
    pub fn unsupported_feature(message: &str) -> (r: Self)
        ensures
            r.code_spec() == ErrorCode::UnsupportedFeature,
            r.message_spec() == message@,
    {
        Self::new(ErrorCode::UnsupportedFeature, message)
    }
}

/// Result of a library operation: a value, or the error that prevented it.
pub type StatusResult<T> = Result<T, DracoError>;

/// Outcome of an operation that produces no value: a code and a message.
#[derive(Debug, Clone)]
pub struct Status {
    code: ErrorCode,
    message: String,
}

impl Status {
    /// The status code.
    pub closed spec fn code_spec(&self) -> ErrorCode {
        self.code
    }

    /// The status message.
    pub closed spec fn message_spec(&self) -> Seq<char> {
        self.message@
    }

    /// Creates a status with the given code and message.
    pub fn new(code: ErrorCode, message: &str) -> (r: Self)
        ensures
            r.code_spec() == code,
            r.message_spec() == message@,
    {
        Status { code, message: message.to_owned() }
    }

    /// Returns the status code.
    pub fn code(&self) -> (r: ErrorCode)
        ensures
            r == self.code_spec(),
    {
        self.code
    }

    /// Returns the status message.
    pub fn error_msg(&self) -> (r: &str)
        ensures
            r@ == self.message_spec(),
    {
        self.message.as_str()
    }

    /// Returns true if this status represents success.
    pub fn is_ok(&self) -> (r: bool)
        ensures
            r == (self.code_spec() == ErrorCode::Success),
    {
        self.code == ErrorCode::Success
    }

    /// Converts this status into a result: `Ok(())` on success, otherwise an
    /// error with the same code and message.
    pub fn into_result(self) -> (r: StatusResult<()>)
        ensures
            r is Ok <==> self.code_spec() == ErrorCode::Success,
            r matches Err(e) ==> e.code_spec() == self.code_spec() && e.message_spec()
                == self.message_spec(),
    {
        if self.is_ok() {
            Ok(())
        } else {
            Err(DracoError { code: self.code, message: self.message })
        }
    }

    /// Converts this status into a result carrying `value` on success,
    /// otherwise an error with the same code and message.
    pub fn into_result_with<T>(self, value: T) -> (r: StatusResult<T>)
        ensures
            self.code_spec() == ErrorCode::Success ==> r == Ok::<T, DracoError>(value),
            self.code_spec() != ErrorCode::Success ==> (r matches Err(e) && e.code_spec()
                == self.code_spec() && e.message_spec() == self.message_spec()),
    {
        if self.is_ok() {
            Ok(value)
        } else {
            Err(DracoError { code: self.code, message: self.message })
        }
    }

    /// Returns a success status (message "OK").
    pub fn ok() -> (r: Self)
        ensures
            r.code_spec() == ErrorCode::Success,
            r.message_spec() == error_code_name(ErrorCode::Success),
    {
        let message = "OK".to_owned();
        proof {
            reveal_strlit("OK");
        }
        Status { code: ErrorCode::Success, message }
    }

    /// Creates a general error status.
    pub fn error(message: &str) -> (r: Self)
        ensures
            r.code_spec() == ErrorCode::DracoError,
            r.message_spec() == message@,
    {
        Self::new(ErrorCode::DracoError, message)
    }

    /// Returns the name of the status code.
    pub fn code_string(&self) -> (r: String)
        ensures
            r@ == error_code_name(self.code_spec()),
    {
        self.code.name().to_owned()
    }

    /// Returns "OK" for success, otherwise `"<code name>: <message>"`.
    pub fn code_and_error_string(&self) -> (r: String)
        ensures
            self.code_spec() == ErrorCode::Success ==> r@ == error_code_name(ErrorCode::Success),
            self.code_spec() != ErrorCode::Success ==> r@ == code_and_message(
                self.code_spec(),
                self.message_spec(),
            ),
    {
        if self.is_ok() {
            let r = "OK".to_owned();
            proof {
                reveal_strlit("OK");
            }
            r
        } else {
            let mut s = self.code.name().to_owned();
            s.append(": ");
            s.append(self.message.as_str());
            proof {
                reveal_strlit(": ");
            }
            s
        }
    }

    /// The printed form of the status (see `code_and_error_string`).
    pub fn to_string(&self) -> (r: String)
        ensures
            self.code_spec() == ErrorCode::Success ==> r@ == error_code_name(ErrorCode::Success),
            self.code_spec() != ErrorCode::Success ==> r@ == code_and_message(
                self.code_spec(),
                self.message_spec(),
            ),
    {
        self.code_and_error_string()
    }
}

impl Default for Status {
    fn default() -> (r: Self)
        ensures
            r.code_spec() == ErrorCode::Success,
            r.message_spec() == error_code_name(ErrorCode::Success),
    {
        Self::ok()
    }
}

impl From<DracoError> for Status {
    /// A status with the error's code and message.
    fn from(err: DracoError) -> (r: Self) {
        Status { code: err.code, message: err.message }
    }
}

impl vstd::std_specs::convert::FromSpecImpl<DracoError> for Status {
    open spec fn obeys_from_spec() -> bool {
        true
    }

    closed spec fn from_spec(err: DracoError) -> Status {
        Status { code: err.code, message: err.message }
    }
}

/// A status converted from an error keeps the error's code and message.
pub proof fn lemma_status_from_error(err: DracoError)
    ensures
        <Status as vstd::std_specs::convert::FromSpec<DracoError>>::from_spec(err).code_spec()
            == err.code_spec(),
        <Status as vstd::std_specs::convert::FromSpec<DracoError>>::from_spec(err).message_spec()
            == err.message_spec(),
{
}

/// The error type of the standard library's input and output operations.
#[verifier::external_type_specification]
#[verifier::external_body]
pub struct ExIoError(std::io::Error);

/// The printed description of an I/O error.
///
/// Calls `ToString::to_string` on the error (its `Display` text). Nothing is
/// stated of the text: the error is opaque here.
#[verifier::external_body]
fn io_error_text(err: &std::io::Error) -> (r: String) {
    err.to_string()
}

impl From<std::io::Error> for DracoError {
    /// An I/O error whose message is the error's printed description.
    fn from(err: std::io::Error) -> (r: Self)
        ensures
            r.code_spec() == ErrorCode::IoError,
    {
        let text = io_error_text(&err);
        DracoError::io_error(text.as_str())
    }
}

impl vstd::std_specs::convert::FromSpecImpl<std::io::Error> for DracoError {
    /// The message of the result is not a function that can be stated here.
    open spec fn obeys_from_spec() -> bool {
        false
    }

    closed spec fn from_spec(err: std::io::Error) -> DracoError {
        choose|e: DracoError| e.code_spec() == ErrorCode::IoError
    }
}

impl From<std::io::Error> for Status {
    /// An I/O error status whose message is the error's printed description.
    fn from(err: std::io::Error) -> (r: Self)
        ensures
            r.code_spec() == ErrorCode::IoError,
    {
        let text = io_error_text(&err);
        Status::new(ErrorCode::IoError, text.as_str())
    }
}

impl vstd::std_specs::convert::FromSpecImpl<std::io::Error> for Status {
    /// The message of the result is not a function that can be stated here.
    open spec fn obeys_from_spec() -> bool {
        false
    }

    closed spec fn from_spec(err: std::io::Error) -> Status {
        choose|s: Status| s.code_spec() == ErrorCode::IoError
    }
}

/// Creates a success status.
pub fn ok_status() -> (r: Status)
    ensures
        r.code_spec() == ErrorCode::Success,
        r.message_spec() == error_code_name(ErrorCode::Success),
{
    Status::ok()
}

/// Creates a general error status with the given message.
pub fn error_status(message: &str) -> (r: Status)
    ensures
        r.code_spec() == ErrorCode::DracoError,
        r.message_spec() == message@,
{
    Status::error(message)
}

/// Creates an I/O error status with the given message.
pub fn io_error_status(message: &str) -> (r: Status)
    ensures
        r.code_spec() == ErrorCode::IoError,
        r.message_spec() == message@,
{
    Status::new(ErrorCode::IoError, message)
}

/// Converting a status into a result succeeds exactly for a success status,
/// and a failure keeps the status's code and message.
pub proof fn lemma_status_result_agree(s: Status, r: StatusResult<()>)
    requires
        r is Ok <==> s.code_spec() == ErrorCode::Success,
        r matches Err(e) ==> e.code_spec() == s.code_spec() && e.message_spec() == s.message_spec(),
    ensures
        r matches Err(e) ==> e.code_spec() != ErrorCode::Success,
{
}

} // verus!
