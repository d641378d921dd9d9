//! The values that a column can hold.

use vstd::prelude::*;
use vstd::bytes::{
    spec_u16_to_le_bytes, spec_u32_to_le_bytes, spec_u64_to_le_bytes, u16_to_le_bytes,
    u32_to_le_bytes, u64_to_le_bytes,
};

verus! {

pub type TimestampMs = i64;

/// The value enum to express the data in HoraeDB.
///
/// A floating point number is held as the bits of its IEEE 754 encoding:
/// `Double` holds those of a 64 bit number and `Float` those of a 32 bit
/// number. Two such values are equal when their bits are.
#[derive(Debug, PartialEq)]
pub enum Value {
    Null,
    Timestamp(TimestampMs),
    Double(u64),
    Float(u32),
    Varbinary(Vec<u8>),
    String(String),
    UInt64(u64),
    UInt32(u32),
    UInt16(u16),
    UInt8(u8),
    Int64(i64),
    Int32(i32),
    Int16(i16),
    Int8(i8),
    Boolean(bool),
}

/// What a [`Value`] stands for.
pub enum ValueView {
    Null,
    Timestamp(i64),
    Double(u64),
    Float(u32),
    Varbinary(Seq<u8>),
    String(Seq<char>),
    UInt64(u64),
    UInt32(u32),
    UInt16(u16),
    UInt8(u8),
    Int64(i64),
    Int32(i32),
    Int16(i16),
    Int8(i8),
    Boolean(bool),
}

impl View for Value {
    type V = ValueView;

    open spec fn view(&self) -> ValueView {
        match *self {
            Value::Null => ValueView::Null,
            Value::Timestamp(v) => ValueView::Timestamp(v),
            Value::Double(v) => ValueView::Double(v),
            Value::Float(v) => ValueView::Float(v),
            Value::Varbinary(v) => ValueView::Varbinary(v@),
            Value::String(v) => ValueView::String(v@),
            Value::UInt64(v) => ValueView::UInt64(v),
            Value::UInt32(v) => ValueView::UInt32(v),
            Value::UInt16(v) => ValueView::UInt16(v),
            Value::UInt8(v) => ValueView::UInt8(v),
            Value::Int64(v) => ValueView::Int64(v),
            Value::Int32(v) => ValueView::Int32(v),
            Value::Int16(v) => ValueView::Int16(v),
            Value::Int8(v) => ValueView::Int8(v),
            Value::Boolean(v) => ValueView::Boolean(v),
        }
    }
}

impl Clone for Value {
    fn clone(&self) -> (r: Self)
        ensures
            r@ == self@,
    {
        match self {
            Value::Null => Value::Null,
            Value::Timestamp(v) => Value::Timestamp(*v),
            Value::Double(v) => Value::Double(*v),
            Value::Float(v) => Value::Float(*v),
            Value::Varbinary(v) => Value::Varbinary(v.clone()),
            Value::String(v) => Value::String(v.clone()),
            Value::UInt64(v) => Value::UInt64(*v),
            Value::UInt32(v) => Value::UInt32(*v),
            Value::UInt16(v) => Value::UInt16(*v),
            Value::UInt8(v) => Value::UInt8(*v),
            Value::Int64(v) => Value::Int64(*v),
            Value::Int32(v) => Value::Int32(*v),
            Value::Int16(v) => Value::Int16(*v),
            Value::Int8(v) => Value::Int8(*v),
            Value::Boolean(v) => Value::Boolean(*v),
        }
    }
}

impl Default for Value {
    fn default() -> (r: Self)
        ensures
            r@ == ValueView::Null,
    {
        Self::Null
    }
}

/// The data type supported by HoraeDB.
#[derive(Debug, Clone, Copy, PartialEq, Eq, Structural)]
pub enum DataType {
    Null,
    Timestamp,
    Double,
    Float,
    Varbinary,
    String,
    UInt64,
    UInt32,
    UInt16,
    UInt8,
    Int64,
    Int32,
    Int16,
    Int8,
    Boolean,
}

/// One for true, zero for false.
pub open spec fn bit(b: bool) -> int {
    if b {
        1
    } else {
        0
    }
}

impl ValueView {
    /// The type of the value.
    pub open spec fn data_type(self) -> DataType {
        match self {
            ValueView::Null => DataType::Null,
            ValueView::Timestamp(_) => DataType::Timestamp,
            ValueView::Double(_) => DataType::Double,
            ValueView::Float(_) => DataType::Float,
            ValueView::Varbinary(_) => DataType::Varbinary,
            ValueView::String(_) => DataType::String,
            ValueView::UInt64(_) => DataType::UInt64,
            ValueView::UInt32(_) => DataType::UInt32,
            ValueView::UInt16(_) => DataType::UInt16,
            ValueView::UInt8(_) => DataType::UInt8,
            ValueView::Int64(_) => DataType::Int64,
            ValueView::Int32(_) => DataType::Int32,
            ValueView::Int16(_) => DataType::Int16,
            ValueView::Int8(_) => DataType::Int8,
            ValueView::Boolean(_) => DataType::Boolean,
        }
    }

    /// The value as a whole number, for a target of the given width and
    /// signedness. A boolean counts, as one or zero; a signed number counts
    /// where it is no wider than the target; an unsigned number counts where
    /// it is narrower than the target, or as wide as an unsigned target.
    pub open spec fn integer(self, bits: int, unsigned: bool) -> Option<int> {
        match self {
            ValueView::Boolean(v) => Some(bit(v)),
            ValueView::Int8(v) => Some(v as int),
            ValueView::UInt8(v) => if bits > 8 || unsigned {
                Some(v as int)
            } else {
                None
            },
            ValueView::Int16(v) => if bits >= 16 {
                Some(v as int)
            } else {
                None
            },
            ValueView::UInt16(v) => if bits > 16 || (unsigned && bits == 16) {
                Some(v as int)
            } else {
                None
            },
            ValueView::Int32(v) => if bits >= 32 {
                Some(v as int)
            } else {
                None
            },
            ValueView::UInt32(v) => if bits > 32 || (unsigned && bits == 32) {
                Some(v as int)
            } else {
                None
            },
            ValueView::Int64(v) => if bits >= 64 {
                Some(v as int)
            } else {
                None
            },
            ValueView::UInt64(v) => if unsigned && bits == 64 {
                Some(v as int)
            } else {
                None
            },
            _ => None,
        }
    }

    /// The bytes that stand for the value in the key of a series: nothing
    /// for null, the text or the bytes as they are, and a number in little
    /// endian order at the width of its type.
    pub open spec fn bytes(self) -> Seq<u8> {
        match self {
            ValueView::Null => Seq::empty(),
            ValueView::Timestamp(v) => spec_u64_to_le_bytes(v as u64),
            ValueView::Double(v) => spec_u64_to_le_bytes(v),
            ValueView::Float(v) => spec_u32_to_le_bytes(v),
            ValueView::Varbinary(v) => v,
            ValueView::String(v) => vstd::utf8::encode_utf8(v),
            ValueView::UInt64(v) => spec_u64_to_le_bytes(v),
            ValueView::UInt32(v) => spec_u32_to_le_bytes(v),
            ValueView::UInt16(v) => spec_u16_to_le_bytes(v),
            ValueView::UInt8(v) => seq![v],
            ValueView::Int64(v) => spec_u64_to_le_bytes(v as u64),
            ValueView::Int32(v) => spec_u32_to_le_bytes(v as u32),
            ValueView::Int16(v) => spec_u16_to_le_bytes(v as u16),
            ValueView::Int8(v) => seq![v as u8],
            ValueView::Boolean(v) => seq![bit(v) as u8],
        }
    }
}

impl Value {
    /// The type of the value.
    pub fn data_type(&self) -> (r: DataType)
        ensures
            r == self@.data_type(),
    {
        match self {
            Value::Null => DataType::Null,
            Value::Timestamp(_) => DataType::Timestamp,
            Value::Double(_) => DataType::Double,
            Value::Float(_) => DataType::Float,
            Value::Varbinary(_) => DataType::Varbinary,
            Value::String(_) => DataType::String,
            Value::UInt64(_) => DataType::UInt64,
            Value::UInt32(_) => DataType::UInt32,
            Value::UInt16(_) => DataType::UInt16,
            Value::UInt8(_) => DataType::UInt8,
            Value::Int64(_) => DataType::Int64,
            Value::Int32(_) => DataType::Int32,
            Value::Int16(_) => DataType::Int16,
            Value::Int8(_) => DataType::Int8,
            Value::Boolean(_) => DataType::Boolean,
        }
    }

    pub fn is_null(&self) -> (r: bool)
        ensures
            r == (self@ is Null),
    {
        matches!(self, Value::Null)
    }

    /// The value as a number of the width and signedness that the name says,
    /// where it counts as one; so for each of the functions that follow. A
    /// number that the type does not hold is cut to the width.
    pub fn as_i8(&self) -> (r: Option<i8>)
        ensures
            r == match self@.integer(8, false) {
                Some(v) => Some(v as i8),
                None => None,
            },
    {
        match self {
            Value::Boolean(v) => Some(if *v { 1 } else { 0 }),
            Value::Int8(v) => Some(*v),
            _ => None,
        }
    }

    pub fn as_u8(&self) -> (r: Option<u8>)
        ensures
            r == match self@.integer(8, true) {
                Some(v) => Some(v as u8),
                None => None,
            },
    {
        match self {
            Value::Boolean(v) => Some(if *v { 1 } else { 0 }),
            Value::Int8(v) => Some(#[verifier::truncate] (*v as u8)),
            Value::UInt8(v) => Some(*v),
            _ => None,
        }
    }

    pub fn as_i16(&self) -> (r: Option<i16>)
        ensures
            r == match self@.integer(16, false) {
                Some(v) => Some(v as i16),
                None => None,
            },
    {
        match self {
            Value::Boolean(v) => Some(if *v { 1 } else { 0 }),
            Value::Int8(v) => Some(*v as i16),
            Value::UInt8(v) => Some(*v as i16),
            Value::Int16(v) => Some(*v),
            _ => None,
        }
    }

    pub fn as_u16(&self) -> (r: Option<u16>)
        ensures
            r == match self@.integer(16, true) {
                Some(v) => Some(v as u16),
                None => None,
            },
    {
        match self {
            Value::Boolean(v) => Some(if *v { 1 } else { 0 }),
            Value::Int8(v) => Some(#[verifier::truncate] (*v as u16)),
            Value::UInt8(v) => Some(*v as u16),
            Value::Int16(v) => Some(#[verifier::truncate] (*v as u16)),
            Value::UInt16(v) => Some(*v),
            _ => None,
        }
    }

    pub fn as_i32(&self) -> (r: Option<i32>)
        ensures
            r == match self@.integer(32, false) {
                Some(v) => Some(v as i32),
                None => None,
            },
    {
        match self {
            Value::Boolean(v) => Some(if *v { 1 } else { 0 }),
            Value::Int8(v) => Some(*v as i32),
            Value::UInt8(v) => Some(*v as i32),
            Value::Int16(v) => Some(*v as i32),
            Value::UInt16(v) => Some(*v as i32),
            Value::Int32(v) => Some(*v),
            _ => None,
        }
    }

    pub fn as_u32(&self) -> (r: Option<u32>)
        ensures
            r == match self@.integer(32, true) {
                Some(v) => Some(v as u32),
                None => None,
            },
    {
        match self {
            Value::Boolean(v) => Some(if *v { 1 } else { 0 }),
            Value::Int8(v) => Some(#[verifier::truncate] (*v as u32)),
            Value::UInt8(v) => Some(*v as u32),
            Value::Int16(v) => Some(#[verifier::truncate] (*v as u32)),
            Value::UInt16(v) => Some(*v as u32),
            Value::Int32(v) => Some(#[verifier::truncate] (*v as u32)),
            Value::UInt32(v) => Some(*v),
            _ => None,
        }
    }

    pub fn as_i64(&self) -> (r: Option<i64>)
        ensures
            r == match self@.integer(64, false) {
                Some(v) => Some(v as i64),
                None => None,
            },
    {
        match self {
            Value::Boolean(v) => Some(if *v { 1 } else { 0 }),
            Value::Int8(v) => Some(*v as i64),
            Value::UInt8(v) => Some(*v as i64),
            Value::Int16(v) => Some(*v as i64),
            Value::UInt16(v) => Some(*v as i64),
            Value::Int32(v) => Some(*v as i64),
            Value::UInt32(v) => Some(*v as i64),
            Value::Int64(v) => Some(*v),
            _ => None,
        }
    }

    pub fn as_u64(&self) -> (r: Option<u64>)
        ensures
            r == match self@.integer(64, true) {
                Some(v) => Some(v as u64),
                None => None,
            },
    {
        match self {
            Value::Boolean(v) => Some(if *v { 1 } else { 0 }),
            Value::Int8(v) => Some(#[verifier::truncate] (*v as u64)),
            Value::UInt8(v) => Some(*v as u64),
            Value::Int16(v) => Some(#[verifier::truncate] (*v as u64)),
            Value::UInt16(v) => Some(*v as u64),
            Value::Int32(v) => Some(#[verifier::truncate] (*v as u64)),
            Value::UInt32(v) => Some(*v as u64),
            Value::Int64(v) => Some(#[verifier::truncate] (*v as u64)),
            Value::UInt64(v) => Some(*v),
            _ => None,
        }
    }

    /// The bytes, where the value is bytes.
    pub fn as_varbinary(&self) -> (r: Option<Vec<u8>>)
        ensures
            match r {
                Some(bytes) => self@ == ValueView::Varbinary(bytes@),
                None => !(self@ is Varbinary),
            },
    {
        match &self {
            Value::Varbinary(v) => Some(v.clone()),
            _ => None,
        }
    }

    /// Cast datum to &str.
    pub fn as_str(&self) -> (r: Option<String>)
        ensures
            match r {
                Some(text) => self@ == ValueView::String(text@),
                None => !(self@ is String),
            },
    {
        match self {
            Value::String(v) => Some(v.clone()),
            _ => None,
        }
    }

    /// The bytes that stand for the value in the key of a series.
    pub fn to_bytes(&self) -> (r: Vec<u8>)
        ensures
            r@ == self@.bytes(),
    {
        match self {
            Value::Null => Vec::new(),
            Value::Timestamp(v) => u64_to_le_bytes(#[verifier::truncate] (*v as u64)),
            Value::Double(v) => u64_to_le_bytes(*v),
            Value::Float(v) => u32_to_le_bytes(*v),
            Value::Varbinary(v) => v.clone(),
            Value::String(v) => v.as_str().as_bytes_vec(),
            Value::UInt64(v) => u64_to_le_bytes(*v),
            Value::UInt32(v) => u32_to_le_bytes(*v),
            Value::UInt16(v) => u16_to_le_bytes(*v),
            Value::UInt8(v) => vec![*v],
            Value::Int64(v) => u64_to_le_bytes(#[verifier::truncate] (*v as u64)),
            Value::Int32(v) => u32_to_le_bytes(#[verifier::truncate] (*v as u32)),
            Value::Int16(v) => u16_to_le_bytes(#[verifier::truncate] (*v as u16)),
            Value::Int8(v) => vec![#[verifier::truncate] (*v as u8)],
            Value::Boolean(v) => vec![if *v { 1u8 } else { 0u8 }],
        }
    }
}

} // verus!
