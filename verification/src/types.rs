//! The writer's value types, data-type tags and error kinds.

use vstd::prelude::*;

verus! {

/// The scalar kinds a column can hold. Each carries a stable one-byte tag.
#[derive(Copy, Clone, Eq, PartialEq, Structural, Debug)]
pub enum TSDataType {
    INT32,
    INT64,
    FLOAT,
}

impl TSDataType {
    /// The one-byte tag of the data type.
    pub fn serialize(&self) -> (r: u8)
        ensures
            r == self.tag(),
    {
        match self {
            TSDataType::INT32 => 1,
            TSDataType::INT64 => 2,
            TSDataType::FLOAT => 3,
        }
    }

    /// The one-byte tag of the data type.
    pub open spec fn tag(&self) -> u8 {
        match self {
            TSDataType::INT32 => 1,
            TSDataType::INT64 => 2,
            TSDataType::FLOAT => 3,
        }
    }
}

/// A sample value. The float kinds carry their IEEE bit patterns, so that
/// the verified core can state byte-exact results; `f32::to_bits` /
/// `f64::to_bits` produce them at the boundary.
#[derive(Copy, Clone, Debug)]
pub enum IoTDBValue {
    DOUBLE(u64),
    FLOAT(u32),
    INT(i32),
    LONG(i64),
}

impl IoTDBValue {
    /// True when the value's kind matches the column type `dt`.
    pub open spec fn matches_type(&self, dt: TSDataType) -> bool {
        match self {
            IoTDBValue::INT(_) => dt == TSDataType::INT32,
            IoTDBValue::LONG(_) => dt == TSDataType::INT64,
            IoTDBValue::FLOAT(_) => dt == TSDataType::FLOAT,
            IoTDBValue::DOUBLE(_) => false,
        }
    }
}

/// Everything that can go wrong while writing.
#[derive(Copy, Clone, Eq, PartialEq, Structural, Debug)]
pub enum TsFileError {
    /// The device is not in the schema; the writer state is unchanged.
    UnknownDevice,
    /// The measurement is not in the device's schema; state unchanged.
    UnknownMeasurement,
    /// The value's kind does not match the column's data type; state
    /// unchanged.
    TypeMismatch,
    /// A single-page budget was exceeded; the chunk is unchanged.
    PageOverflow,
    /// The sink rejected a write; the file is considered corrupt.
    SinkError,
    /// A write arrived after `close`.
    AlreadyClosed,
}

} // verus!
