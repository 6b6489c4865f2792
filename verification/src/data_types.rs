//! The data types that can be stored in compressed geometry.
use vstd::prelude::*;
use vstd::string::*;

verus! {

/// Data types of geometry attribute components.
///
/// The numeric code of each type (its position in this list, starting at 0
/// for `Invalid`) is the value stored in compressed files.
#[derive(Debug, Clone, Copy, PartialEq, Eq, Hash, Structural)]
pub enum DataType {
    /// Not a legal value; marks a field that has not been set.
    Invalid,
    /// 8-bit signed integer.
    Int8,
    /// 8-bit unsigned integer.
    UInt8,
    /// 16-bit signed integer.
    Int16,
    /// 16-bit unsigned integer.
    UInt16,
    /// 32-bit signed integer.
    Int32,
    /// 32-bit unsigned integer.
    UInt32,
    /// 64-bit signed integer.
    Int64,
    /// 64-bit unsigned integer.
    UInt64,
    /// 32-bit floating point number.
    Float32,
    /// 64-bit floating point number.
    Float64,
    /// Boolean value.
    Bool,
}

/// The numeric code of a data type.
pub open spec fn data_type_code(t: DataType) -> u8 {
    match t {
        DataType::Invalid => 0,
        DataType::Int8 => 1,
        DataType::UInt8 => 2,
        DataType::Int16 => 3,
        DataType::UInt16 => 4,
        DataType::Int32 => 5,
        DataType::UInt32 => 6,
        DataType::Int64 => 7,
        DataType::UInt64 => 8,
        DataType::Float32 => 9,
        DataType::Float64 => 10,
        DataType::Bool => 11,
    }
}

/// The data type with numeric code `v`; codes without a type give `Invalid`.
pub open spec fn data_type_from_code(v: u8) -> DataType {
    if v == 1 {
        DataType::Int8
    } else if v == 2 {
        DataType::UInt8
    } else if v == 3 {
        DataType::Int16
    } else if v == 4 {
        DataType::UInt16
    } else if v == 5 {
        DataType::Int32
    } else if v == 6 {
        DataType::UInt32
    } else if v == 7 {
        DataType::Int64
    } else if v == 8 {
        DataType::UInt64
    } else if v == 9 {
        DataType::Float32
    } else if v == 10 {
        DataType::Float64
    } else if v == 11 {
        DataType::Bool
    } else {
        DataType::Invalid
    }
}

/// The lower-case name of a data type.
pub open spec fn data_type_name(t: DataType) -> Seq<char> {
    match t {
        DataType::Invalid => seq!['i', 'n', 'v', 'a', 'l', 'i', 'd'],
        DataType::Int8 => seq!['i', 'n', 't', '8'],
        DataType::UInt8 => seq!['u', 'i', 'n', 't', '8'],
        DataType::Int16 => seq!['i', 'n', 't', '1', '6'],
        DataType::UInt16 => seq!['u', 'i', 'n', 't', '1', '6'],
        DataType::Int32 => seq!['i', 'n', 't', '3', '2'],
        DataType::UInt32 => seq!['u', 'i', 'n', 't', '3', '2'],
        DataType::Int64 => seq!['i', 'n', 't', '6', '4'],
        DataType::UInt64 => seq!['u', 'i', 'n', 't', '6', '4'],
        DataType::Float32 => seq!['f', 'l', 'o', 'a', 't', '3', '2'],
        DataType::Float64 => seq!['f', 'l', 'o', 'a', 't', '6', '4'],
        DataType::Bool => seq!['b', 'o', 'o', 'l'],
    }
}

/// Size in bytes of one value of a data type.
pub open spec fn data_type_size(t: DataType) -> usize {
    match t {
        DataType::Invalid => 0,
        DataType::Int8 | DataType::UInt8 | DataType::Bool => 1,
        DataType::Int16 | DataType::UInt16 => 2,
        DataType::Int32 | DataType::UInt32 | DataType::Float32 => 4,
        DataType::Int64 | DataType::UInt64 | DataType::Float64 => 8,
    }
}

impl DataType {
    /// Returns the size of this data type in bytes.
    pub fn size(self) -> (r: usize)
        ensures
            r == data_type_size(self),
    {
        match self {
            DataType::Invalid => 0,
            DataType::Int8 | DataType::UInt8 | DataType::Bool => 1,
            DataType::Int16 | DataType::UInt16 => 2,
            DataType::Int32 | DataType::UInt32 | DataType::Float32 => 4,
            DataType::Int64 | DataType::UInt64 | DataType::Float64 => 8,
        }
    }

    /// Returns the lower-case name of this data type.
    pub fn name(self) -> (r: &'static str)
        ensures
            r@ == data_type_name(self),
    {
        let r = match self {
            DataType::Invalid => "invalid",
            DataType::Int8 => "int8",
            DataType::UInt8 => "uint8",
            DataType::Int16 => "int16",
            DataType::UInt16 => "uint16",
            DataType::Int32 => "int32",
            DataType::UInt32 => "uint32",
            DataType::Int64 => "int64",
            DataType::UInt64 => "uint64",
            DataType::Float32 => "float32",
            DataType::Float64 => "float64",
            DataType::Bool => "bool",
        };
        proof {
            reveal_strlit("invalid");
            reveal_strlit("int8");
            reveal_strlit("uint8");
            reveal_strlit("int16");
            reveal_strlit("uint16");
            reveal_strlit("int32");
            reveal_strlit("uint32");
            reveal_strlit("int64");
            reveal_strlit("uint64");
            reveal_strlit("float32");
            reveal_strlit("float64");
            reveal_strlit("bool");
        }
        r
    }

    /// Returns true for the integral types: every signed and unsigned integer
    /// type, and `Bool`.
    pub fn is_integral(self) -> (r: bool)
        ensures
            r == (self.is_signed_integer_spec() || self.is_unsigned_integer_spec() || self == DataType::Bool),
    {
        match self {
            DataType::Int8 | DataType::UInt8 | DataType::Int16 | DataType::UInt16 | DataType::Int32
            | DataType::UInt32 | DataType::Int64 | DataType::UInt64 | DataType::Bool => true,
            _ => false,
        }
    }

    /// Returns true for the floating point types.
    pub fn is_floating_point(self) -> (r: bool)
        ensures
            r == (self == DataType::Float32 || self == DataType::Float64),
    {
        match self {
            DataType::Float32 | DataType::Float64 => true,
            _ => false,
        }
    }

    /// The signed integer types.
    pub open spec fn is_signed_integer_spec(self) -> bool {
        self == DataType::Int8 || self == DataType::Int16 || self == DataType::Int32 || self
            == DataType::Int64
    }

    /// The unsigned integer types.
    pub open spec fn is_unsigned_integer_spec(self) -> bool {
        self == DataType::UInt8 || self == DataType::UInt16 || self == DataType::UInt32 || self
            == DataType::UInt64
    }

    /// Returns true for the signed integer types.
    pub fn is_signed_integer(self) -> (r: bool)
        ensures
            r == self.is_signed_integer_spec(),
    {
        match self {
            DataType::Int8 | DataType::Int16 | DataType::Int32 | DataType::Int64 => true,
            _ => false,
        }
    }

    /// Returns true for the unsigned integer types.
    pub fn is_unsigned_integer(self) -> (r: bool)
        ensures
            r == self.is_unsigned_integer_spec(),
    {
        match self {
            DataType::UInt8 | DataType::UInt16 | DataType::UInt32 | DataType::UInt64 => true,
            _ => false,
        }
    }
}

/// Every data type is exactly one of: invalid, integral, floating point.
pub proof fn lemma_data_type_classes(t: DataType)
    ensures
        (t == DataType::Invalid) || (t.is_signed_integer_spec() || t.is_unsigned_integer_spec()
            || t == DataType::Bool) || (t == DataType::Float32 || t == DataType::Float64),
        !((t.is_signed_integer_spec() || t.is_unsigned_integer_spec() || t == DataType::Bool) && (t
            == DataType::Float32 || t == DataType::Float64)),
        t.is_signed_integer_spec() ==> !t.is_unsigned_integer_spec(),
        data_type_size(t) == 0 <==> t == DataType::Invalid,
{
}

/// Reading back the code of a data type gives the type again, and every code
/// names the type it maps to or `Invalid`.
pub proof fn lemma_data_type_code_round_trip(t: DataType, v: u8)
    ensures
        data_type_from_code(data_type_code(t)) == t,
        data_type_from_code(v) == DataType::Invalid || data_type_code(data_type_from_code(v)) == v,
{
}

impl Default for DataType {
    fn default() -> (r: Self)
        ensures
            r == DataType::Invalid,
    {
        DataType::Invalid
    }
}

impl From<u8> for DataType {
    /// The data type with numeric code `value`; unknown codes give `Invalid`.
    fn from(value: u8) -> (r: Self) {
        match value {
            1 => DataType::Int8,
            2 => DataType::UInt8,
            3 => DataType::Int16,
            4 => DataType::UInt16,
            5 => DataType::Int32,
            6 => DataType::UInt32,
            7 => DataType::Int64,
            8 => DataType::UInt64,
            9 => DataType::Float32,
            10 => DataType::Float64,
            11 => DataType::Bool,
            _ => DataType::Invalid,
        }
    }
}

impl vstd::std_specs::convert::FromSpecImpl<u8> for DataType {
    open spec fn obeys_from_spec() -> bool {
        true
    }

    open spec fn from_spec(v: u8) -> DataType {
        data_type_from_code(v)
    }
}

/// ASCII lower-casing of one byte.
pub open spec fn ascii_lower(b: u8) -> u8 {
    if 65 <= b <= 90 {
        (b + 32) as u8
    } else {
        b
    }
}

/// `s` spells the lower-case ASCII word `name`, in any letter case.
pub open spec fn matches_name_ignoring_case(s: Seq<u8>, name: Seq<u8>) -> bool {
    s.len() == name.len() && forall|i: int| 0 <= i < s.len() ==> #[trigger] ascii_lower(s[i]) == name[i]
}

/// The bytes of the lower-case name of a data type.
pub open spec fn data_type_name_bytes(t: DataType) -> Seq<u8> {
    match t {
        DataType::Invalid => seq![105u8, 110, 118, 97, 108, 105, 100],
        DataType::Int8 => seq![105u8, 110, 116, 56],
        DataType::UInt8 => seq![117u8, 105, 110, 116, 56],
        DataType::Int16 => seq![105u8, 110, 116, 49, 54],
        DataType::UInt16 => seq![117u8, 105, 110, 116, 49, 54],
        DataType::Int32 => seq![105u8, 110, 116, 51, 50],
        DataType::UInt32 => seq![117u8, 105, 110, 116, 51, 50],
        DataType::Int64 => seq![105u8, 110, 116, 54, 52],
        DataType::UInt64 => seq![117u8, 105, 110, 116, 54, 52],
        DataType::Float32 => seq![102u8, 108, 111, 97, 116, 51, 50],
        DataType::Float64 => seq![102u8, 108, 111, 97, 116, 54, 52],
        DataType::Bool => seq![98u8, 111, 111, 108],
    }
}

/// The data type whose name `s` spells, ignoring letter case; any other text
/// (the word "invalid" included) gives `Invalid`.
pub open spec fn data_type_from_name(s: Seq<u8>) -> DataType {
    if matches_name_ignoring_case(s, data_type_name_bytes(DataType::Int8)) {
        DataType::Int8
    } else if matches_name_ignoring_case(s, data_type_name_bytes(DataType::UInt8)) {
        DataType::UInt8
    } else if matches_name_ignoring_case(s, data_type_name_bytes(DataType::Int16)) {
        DataType::Int16
    } else if matches_name_ignoring_case(s, data_type_name_bytes(DataType::UInt16)) {
        DataType::UInt16
    } else if matches_name_ignoring_case(s, data_type_name_bytes(DataType::Int32)) {
        DataType::Int32
    } else if matches_name_ignoring_case(s, data_type_name_bytes(DataType::UInt32)) {
        DataType::UInt32
    } else if matches_name_ignoring_case(s, data_type_name_bytes(DataType::Int64)) {
        DataType::Int64
    } else if matches_name_ignoring_case(s, data_type_name_bytes(DataType::UInt64)) {
        DataType::UInt64
    } else if matches_name_ignoring_case(s, data_type_name_bytes(DataType::Float32)) {
        DataType::Float32
    } else if matches_name_ignoring_case(s, data_type_name_bytes(DataType::Float64)) {
        DataType::Float64
    } else if matches_name_ignoring_case(s, data_type_name_bytes(DataType::Bool)) {
        DataType::Bool
    } else {
        DataType::Invalid
    }
}

/// Compares `s` with the lower-case ASCII word `name`, ignoring the letter
/// case of `s`.
fn matches_ignoring_case(s: &[u8], name: &[u8]) -> (r: bool)
    ensures
        r == matches_name_ignoring_case(s@, name@),
{
    if s.len() != name.len() {
        return false;
    }
    let mut i: usize = 0;
    while i < s.len()
        invariant
            s@.len() == name@.len(),
            i <= s@.len(),
            forall|j: int| 0 <= j < i ==> #[trigger] ascii_lower(s@[j]) == name@[j],
        decreases s@.len() - i,
    {
        let b = s[i];
        let lower = if 65 <= b && b <= 90 { b + 32 } else { b };
        if lower != name[i] {
            assert(ascii_lower(s@[i as int]) != name@[i as int]);
            return false;
        }
        i = i + 1;
    }
    true
}

impl<'a> From<&'a str> for DataType {
    /// The data type named by `s`, ignoring letter case; unknown names give
    /// `Invalid`.
    fn from(s: &'a str) -> (r: Self) {
        let b = s.as_bytes();
        if matches_ignoring_case(b, &[105u8, 110, 116, 56]) {
            DataType::Int8
        } else if matches_ignoring_case(b, &[117u8, 105, 110, 116, 56]) {
            DataType::UInt8
        } else if matches_ignoring_case(b, &[105u8, 110, 116, 49, 54]) {
            DataType::Int16
        } else if matches_ignoring_case(b, &[117u8, 105, 110, 116, 49, 54]) {
            DataType::UInt16
        } else if matches_ignoring_case(b, &[105u8, 110, 116, 51, 50]) {
            DataType::Int32
        } else if matches_ignoring_case(b, &[117u8, 105, 110, 116, 51, 50]) {
            DataType::UInt32
        } else if matches_ignoring_case(b, &[105u8, 110, 116, 54, 52]) {
            DataType::Int64
        } else if matches_ignoring_case(b, &[117u8, 105, 110, 116, 54, 52]) {
            DataType::UInt64
        } else if matches_ignoring_case(b, &[102u8, 108, 111, 97, 116, 51, 50]) {
            DataType::Float32
        } else if matches_ignoring_case(b, &[102u8, 108, 111, 97, 116, 54, 52]) {
            DataType::Float64
        } else if matches_ignoring_case(b, &[98u8, 111, 111, 108]) {
            DataType::Bool
        } else {
            DataType::Invalid
        }
    }
}

impl<'a> vstd::std_specs::convert::FromSpecImpl<&'a str> for DataType {
    open spec fn obeys_from_spec() -> bool {
        true
    }

    open spec fn from_spec(v: &'a str) -> DataType {
        data_type_from_name(v.spec_bytes())
    }
}

} // verus!
