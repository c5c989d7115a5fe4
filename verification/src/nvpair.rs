//! The nvlist wire format: its data model, its definition as a function on
//! bytes, and the decoder.

use crate::wire::{
    bytes_eq, c_strlen, checked_align, find_nul, is_nul_free, lemma_nul_from, nul_free, spec_align,
    LittleEndian,
};
use vstd::prelude::*;
use vstd::slice::{slice_subrange, slice_to_vec};

verus! {

/// The version that every container carries.
pub const NV_VERSION: i32 = 0;

/// The flags word that every container carries: names are unique.
pub const NV_UNIQUE_NAME: u32 = 1;

/// The data types of the wire format.
#[derive(Clone, Copy, Debug, PartialEq, Eq)]
pub enum PairType {
    Boolean,
    Byte,
    Int16,
    UInt16,
    Int32,
    UInt32,
    Int64,
    UInt64,
    String,
    ByteArray,
    Int16Array,
    UInt16Array,
    Int32Array,
    UInt32Array,
    Int64Array,
    UInt64Array,
    StringArray,
    HiResTime,
    NVList,
    NVListArray,
    BooleanValue,
    Int8,
    UInt8,
    BooleanArray,
    Int8Array,
    UInt8Array,
    Double,
}

impl PairType {
    /// The type that a tag of the wire format stands for.
    pub open spec fn spec_from_i32(tag: i32) -> Option<PairType> {
        if tag == 1 {
            Some(PairType::Boolean)
        } else if tag == 2 {
            Some(PairType::Byte)
        } else if tag == 3 {
            Some(PairType::Int16)
        } else if tag == 4 {
            Some(PairType::UInt16)
        } else if tag == 5 {
            Some(PairType::Int32)
        } else if tag == 6 {
            Some(PairType::UInt32)
        } else if tag == 7 {
            Some(PairType::Int64)
        } else if tag == 8 {
            Some(PairType::UInt64)
        } else if tag == 9 {
            Some(PairType::String)
        } else if tag == 10 {
            Some(PairType::ByteArray)
        } else if tag == 11 {
            Some(PairType::Int16Array)
        } else if tag == 12 {
            Some(PairType::UInt16Array)
        } else if tag == 13 {
            Some(PairType::Int32Array)
        } else if tag == 14 {
            Some(PairType::UInt32Array)
        } else if tag == 15 {
            Some(PairType::Int64Array)
        } else if tag == 16 {
            Some(PairType::UInt64Array)
        } else if tag == 17 {
            Some(PairType::StringArray)
        } else if tag == 18 {
            Some(PairType::HiResTime)
        } else if tag == 19 {
            Some(PairType::NVList)
        } else if tag == 20 {
            Some(PairType::NVListArray)
        } else if tag == 21 {
            Some(PairType::BooleanValue)
        } else if tag == 22 {
            Some(PairType::Int8)
        } else if tag == 23 {
            Some(PairType::UInt8)
        } else if tag == 24 {
            Some(PairType::BooleanArray)
        } else if tag == 25 {
            Some(PairType::Int8Array)
        } else if tag == 26 {
            Some(PairType::UInt8Array)
        } else if tag == 27 {
            Some(PairType::Double)
        } else {
            None
        }
    }

    /// The tag that stands for the type on the wire.
    pub open spec fn spec_tag(self) -> i32 {
        match self {
            PairType::Boolean => 1,
            PairType::Byte => 2,
            PairType::Int16 => 3,
            PairType::UInt16 => 4,
            PairType::Int32 => 5,
            PairType::UInt32 => 6,
            PairType::Int64 => 7,
            PairType::UInt64 => 8,
            PairType::String => 9,
            PairType::ByteArray => 10,
            PairType::Int16Array => 11,
            PairType::UInt16Array => 12,
            PairType::Int32Array => 13,
            PairType::UInt32Array => 14,
            PairType::Int64Array => 15,
            PairType::UInt64Array => 16,
            PairType::StringArray => 17,
            PairType::HiResTime => 18,
            PairType::NVList => 19,
            PairType::NVListArray => 20,
            PairType::BooleanValue => 21,
            PairType::Int8 => 22,
            PairType::UInt8 => 23,
            PairType::BooleanArray => 24,
            PairType::Int8Array => 25,
            PairType::UInt8Array => 26,
            PairType::Double => 27,
        }
    }

    /// Tells which type a tag stands for; `None` for a tag that stands for
    /// none.
    pub fn from_i32(tag: i32) -> (r: Option<PairType>)
        ensures
            r == Self::spec_from_i32(tag),
    {
        match tag {
            1 => Some(PairType::Boolean),
            2 => Some(PairType::Byte),
            3 => Some(PairType::Int16),
            4 => Some(PairType::UInt16),
            5 => Some(PairType::Int32),
            6 => Some(PairType::UInt32),
            7 => Some(PairType::Int64),
            8 => Some(PairType::UInt64),
            9 => Some(PairType::String),
            10 => Some(PairType::ByteArray),
            11 => Some(PairType::Int16Array),
            12 => Some(PairType::UInt16Array),
            13 => Some(PairType::Int32Array),
            14 => Some(PairType::UInt32Array),
            15 => Some(PairType::Int64Array),
            16 => Some(PairType::UInt64Array),
            17 => Some(PairType::StringArray),
            18 => Some(PairType::HiResTime),
            19 => Some(PairType::NVList),
            20 => Some(PairType::NVListArray),
            21 => Some(PairType::BooleanValue),
            22 => Some(PairType::Int8),
            23 => Some(PairType::UInt8),
            24 => Some(PairType::BooleanArray),
            25 => Some(PairType::Int8Array),
            26 => Some(PairType::UInt8Array),
            27 => Some(PairType::Double),
            _ => None,
        }
    }

    /// The tag that stands for the type on the wire.
    pub fn tag(self) -> (r: i32)
        ensures
            r == self.spec_tag(),
            1 <= r <= 27,
    {
        match self {
            PairType::Boolean => 1,
            PairType::Byte => 2,
            PairType::Int16 => 3,
            PairType::UInt16 => 4,
            PairType::Int32 => 5,
            PairType::UInt32 => 6,
            PairType::Int64 => 7,
            PairType::UInt64 => 8,
            PairType::String => 9,
            PairType::ByteArray => 10,
            PairType::Int16Array => 11,
            PairType::UInt16Array => 12,
            PairType::Int32Array => 13,
            PairType::UInt32Array => 14,
            PairType::Int64Array => 15,
            PairType::UInt64Array => 16,
            PairType::StringArray => 17,
            PairType::HiResTime => 18,
            PairType::NVList => 19,
            PairType::NVListArray => 20,
            PairType::BooleanValue => 21,
            PairType::Int8 => 22,
            PairType::UInt8 => 23,
            PairType::BooleanArray => 24,
            PairType::Int8Array => 25,
            PairType::UInt8Array => 26,
            PairType::Double => 27,
        }
    }

    /// A type's tag stands for that type, and a tag that stands for a type
    /// is that type's tag.
    pub proof fn lemma_tag_round_trip(t: PairType, tag: i32)
        ensures
            Self::spec_from_i32(t.spec_tag()) == Some(t),
            Self::spec_from_i32(tag) matches Some(u) ==> u.spec_tag() == tag,
            Self::spec_from_i32(tag) is Some <==> 1 <= tag <= 27,
    {
    }
}

/// What a decoded value is: the mathematical counterpart of `PairValue`.
pub enum Value {
    Boolean,
    Byte(u8),
    Int16(i16),
    UInt16(u16),
    Int32(i32),
    UInt32(u32),
    Int64(i64),
    UInt64(u64),
    String(Seq<u8>),
    ByteArray(Seq<u8>),
    Int16Array(Seq<i16>),
    UInt16Array(Seq<u16>),
    Int32Array(Seq<i32>),
    UInt32Array(Seq<u32>),
    Int64Array(Seq<i64>),
    UInt64Array(Seq<u64>),
    StringArray(Seq<Seq<u8>>),
    HiResTime(i64),
    List(Seq<Entry>),
    ListArray(Seq<Seq<Entry>>),
    BooleanValue(bool),
    Int8(i8),
    UInt8(u8),
    BooleanArray(Seq<bool>),
    Int8Array(Seq<i8>),
    UInt8Array(Seq<u8>),
    Double(u64),
}

/// What a decoded pair is: a name and a value. A container is a sequence of
/// entries.
pub struct Entry {
    pub name: Seq<u8>,
    pub value: Value,
}

/// A decoded value. A string is held as its bytes without the terminating
/// NUL, and a double as the bits of its IEEE 754 representation.
#[derive(Debug, PartialEq, Eq)]
pub enum PairValue {
    Boolean,
    Byte(u8),
    Int16(i16),
    UInt16(u16),
    Int32(i32),
    UInt32(u32),
    Int64(i64),
    UInt64(u64),
    String(Vec<u8>),
    ByteArray(Vec<u8>),
    Int16Array(Vec<i16>),
    UInt16Array(Vec<u16>),
    Int32Array(Vec<i32>),
    UInt32Array(Vec<u32>),
    Int64Array(Vec<i64>),
    UInt64Array(Vec<u64>),
    StringArray(Vec<Vec<u8>>),
    HiResTime(i64),
    List(PairList),
    ListArray(Vec<PairList>),
    BooleanValue(bool),
    Int8(i8),
    UInt8(u8),
    BooleanArray(Vec<bool>),
    Int8Array(Vec<i8>),
    UInt8Array(Vec<u8>),
    Double(u64),
}

/// A decoded pair: a name, held as its bytes without the terminating NUL,
/// and a value.
#[derive(Debug, PartialEq, Eq)]
pub struct Pair(pub Vec<u8>, pub PairValue);

/// A decoded container: its pairs in the order of the wire.
#[derive(Debug, PartialEq, Eq)]
pub struct PairList(pub Vec<Pair>);

impl View for PairValue {
    type V = Value;

    open spec fn view(&self) -> Value
        decreases self,
    {
        match self {
            PairValue::Boolean => Value::Boolean,
            PairValue::Byte(n) => Value::Byte(*n),
            PairValue::Int16(n) => Value::Int16(*n),
            PairValue::UInt16(n) => Value::UInt16(*n),
            PairValue::Int32(n) => Value::Int32(*n),
            PairValue::UInt32(n) => Value::UInt32(*n),
            PairValue::Int64(n) => Value::Int64(*n),
            PairValue::UInt64(n) => Value::UInt64(*n),
            PairValue::String(s) => Value::String(s@),
            PairValue::ByteArray(v) => Value::ByteArray(v@),
            PairValue::Int16Array(v) => Value::Int16Array(v@),
            PairValue::UInt16Array(v) => Value::UInt16Array(v@),
            PairValue::Int32Array(v) => Value::Int32Array(v@),
            PairValue::UInt32Array(v) => Value::UInt32Array(v@),
            PairValue::Int64Array(v) => Value::Int64Array(v@),
            PairValue::UInt64Array(v) => Value::UInt64Array(v@),
            PairValue::StringArray(v) => Value::StringArray(Seq::new(v@.len(), |i: int| v@[i]@)),
            PairValue::HiResTime(n) => Value::HiResTime(*n),
            PairValue::List(l) => Value::List(l@),
            PairValue::ListArray(v) => Value::ListArray(
                Seq::new(
                    v@.len(),
                    |i: int|
                        if 0 <= i < v@.len() {
                            v@[i]@
                        } else {
                            Seq::empty()
                        },
                ),
            ),
            PairValue::BooleanValue(b) => Value::BooleanValue(*b),
            PairValue::Int8(n) => Value::Int8(*n),
            PairValue::UInt8(n) => Value::UInt8(*n),
            PairValue::BooleanArray(v) => Value::BooleanArray(v@),
            PairValue::Int8Array(v) => Value::Int8Array(v@),
            PairValue::UInt8Array(v) => Value::UInt8Array(v@),
            PairValue::Double(n) => Value::Double(*n),
        }
    }
}

impl View for Pair {
    type V = Entry;

    open spec fn view(&self) -> Entry
        decreases self,
    {
        Entry { name: self.0@, value: self.1@ }
    }
}

impl View for PairList {
    type V = Seq<Entry>;

    open spec fn view(&self) -> Seq<Entry>
        decreases self,
    {
        Seq::new(
            self.0@.len(),
            |i: int|
                if 0 <= i < self.0@.len() {
                    self.0@[i]@
                } else {
                    Entry { name: Seq::empty(), value: Value::Boolean }
                },
        )
    }
}

/// Why a buffer could not be decoded.
#[derive(Debug, Clone, Copy, PartialEq, Eq)]
pub enum ParseError {
    /// The encoding marker is not that of the native encoding.
    InvalidEncoding,
    /// The endianness marker is not that of little-endian.
    InvalidEndian,
    /// The buffer ends before a field that has to be read.
    ShortRead,
    /// A string has no terminating NUL within its window.
    UnterminatedString,
    /// A pair carries a type tag that stands for no type.
    UnknownPairType(i32),
    /// The container's version is not `NV_VERSION`.
    UnsupportedVersion(i32),
    /// The container's flags word is not `NV_UNIQUE_NAME`.
    UnsupportedFlags(u32),
}

impl ParseError {
    /// A few words on the failure.
    pub fn to_string(&self) -> (r: String)
        ensures
            r@ == match *self {
                ParseError::InvalidEncoding => "invalid encoding"@,
                ParseError::InvalidEndian => "invalid endian"@,
                ParseError::ShortRead => "short read"@,
                ParseError::UnterminatedString => "unterminated string"@,
                ParseError::UnknownPairType(_) => "unknown pair type"@,
                ParseError::UnsupportedVersion(_) => "unsupported version"@,
                ParseError::UnsupportedFlags(_) => "unsupported flags"@,
            },
    {
        match *self {
            ParseError::InvalidEncoding => "invalid encoding".to_owned(),
            ParseError::InvalidEndian => "invalid endian".to_owned(),
            ParseError::ShortRead => "short read".to_owned(),
            ParseError::UnterminatedString => "unterminated string".to_owned(),
            ParseError::UnknownPairType(_) => "unknown pair type".to_owned(),
            ParseError::UnsupportedVersion(_) => "unsupported version".to_owned(),
            ParseError::UnsupportedFlags(_) => "unsupported flags".to_owned(),
        }
    }
}

/// The encodings that the first byte of a buffer can announce.
#[derive(PartialEq, Eq, Debug, Clone, Copy)]
pub enum Encoding {
    Native,
    XDR,
}

/// The byte orders that the second byte of a buffer can announce.
#[derive(PartialEq, Eq, Debug, Clone, Copy)]
pub enum Endian {
    Big,
    Little,
}

impl Encoding {
    /// The encoding that a marker byte announces.
    pub open spec fn spec_from_marker(b: u8) -> Option<Encoding> {
        if b == 0 {
            Some(Encoding::Native)
        } else if b == 1 {
            Some(Encoding::XDR)
        } else {
            None
        }
    }

    /// Tells which encoding a marker byte announces.
    pub fn from_marker(b: u8) -> (r: Option<Encoding>)
        ensures
            r == Self::spec_from_marker(b),
    {
        match b {
            0 => Some(Encoding::Native),
            1 => Some(Encoding::XDR),
            _ => None,
        }
    }
}

impl Endian {
    /// The byte order that a marker byte announces.
    pub open spec fn spec_from_marker(b: u8) -> Option<Endian> {
        if b == 0 {
            Some(Endian::Big)
        } else if b == 1 {
            Some(Endian::Little)
        } else {
            None
        }
    }

    /// Tells which byte order a marker byte announces.
    pub fn from_marker(b: u8) -> (r: Option<Endian>)
        ensures
            r == Self::spec_from_marker(b),
    {
        match b {
            0 => Some(Endian::Big),
            1 => Some(Endian::Little),
            _ => None,
        }
    }
}

/// One fixed-width integer at the start of `s`, and the input after it.
pub open spec fn spec_int<T: LittleEndian>(s: Seq<u8>) -> Result<(T, Seq<u8>), ParseError> {
    if s.len() < T::width() {
        Err(ParseError::ShortRead)
    } else {
        Ok((T::decode(s), s.subrange(T::width(), s.len() as int)))
    }
}

/// `n` fixed-width integers one after the other from the start of `s`; none
/// where `n` is not positive.
pub open spec fn spec_ints<T: LittleEndian>(s: Seq<u8>, n: int) -> Result<Seq<T>, ParseError>
    decreases n,
{
    if n <= 0 {
        Ok(Seq::empty())
    } else {
        match spec_int::<T>(s) {
            Err(e) => Err(e),
            Ok((v, rest)) => match spec_ints::<T>(rest, n - 1) {
                Err(e) => Err(e),
                Ok(tail) => Ok(seq![v] + tail),
            },
        }
    }
}

/// One NUL-terminated string at the start of `s`, and the input after the
/// padding that follows it: the string with its NUL fills a multiple of
/// eight bytes.
pub open spec fn spec_string(s: Seq<u8>) -> Result<(Seq<u8>, Seq<u8>), ParseError> {
    let n = c_strlen(s);
    if n >= s.len() {
        Err(ParseError::UnterminatedString)
    } else if spec_align(n + 1) > s.len() {
        Err(ParseError::ShortRead)
    } else {
        Ok((s.subrange(0, n), s.subrange(spec_align(n + 1), s.len() as int)))
    }
}

/// `n` padded strings one after the other from the start of `s`; none where
/// `n` is not positive.
pub open spec fn spec_strings(s: Seq<u8>, n: int) -> Result<Seq<Seq<u8>>, ParseError>
    decreases n,
{
    if n <= 0 {
        Ok(Seq::empty())
    } else {
        match spec_string(s) {
            Err(e) => Err(e),
            Ok((v, rest)) => match spec_strings(rest, n - 1) {
                Err(e) => Err(e),
                Ok(tail) => Ok(seq![v] + tail),
            },
        }
    }
}

/// What stands at the start of a pair's bounded region, before its value.
pub struct PairHeader {
    /// The pair's name, without its NUL.
    pub name: Seq<u8>,
    /// The element count.
    pub nelems: i32,
    /// The type tag.
    pub tag: i32,
    /// The rest of the region, from the first byte after the name's padding.
    pub window: Seq<u8>,
}

/// The header of the pair whose bounded region is `region`: a name length
/// and a reserved field of two bytes each, the element count and the type tag
/// of four bytes each, and the padded name. The name ends at its NUL,
/// whatever the name length says.
pub open spec fn spec_header(region: Seq<u8>) -> Result<PairHeader, ParseError> {
    match spec_int::<i16>(region) {
        Err(e) => Err(e),
        Ok((_, r1)) => match spec_int::<i16>(r1) {
            Err(e) => Err(e),
            Ok((_, r2)) => match spec_int::<i32>(r2) {
                Err(e) => Err(e),
                Ok((nelems, r3)) => match spec_int::<i32>(r3) {
                    Err(e) => Err(e),
                    Ok((tag, r4)) => match spec_string(r4) {
                        Err(e) => Err(e),
                        Ok((name, window)) => Ok(PairHeader { name, nelems, tag, window }),
                    },
                },
            },
        },
    }
}

/// The first component of a successful read.
pub open spec fn value_of<T>(r: Result<(T, Seq<u8>), ParseError>) -> Result<T, ParseError> {
    match r {
        Ok((v, _)) => Ok(v),
        Err(e) => Err(e),
    }
}

/// The value of a pair of type `t` as far as the value window `w` holds it.
/// A scalar is read from the start of `w`, and an array is `nelems` elements
/// one after the other from there. A boolean with a payload is a word of
/// four bytes and is true where the word is not zero; a double is given as
/// its eight bytes' unsigned value. The window holds nothing of a container
/// or an array of containers: for these two types the value is empty here,
/// and `spec_pair` reads it from behind the region.
pub open spec fn spec_plain(t: PairType, nelems: i32, w: Seq<u8>) -> Result<Value, ParseError> {
    match t {
        PairType::Boolean => Ok(Value::Boolean),
        PairType::Byte => match value_of(spec_int::<u8>(w)) {
            Ok(v) => Ok(Value::Byte(v)),
            Err(e) => Err(e),
        },
        PairType::Int16 => match value_of(spec_int::<i16>(w)) {
            Ok(v) => Ok(Value::Int16(v)),
            Err(e) => Err(e),
        },
        PairType::UInt16 => match value_of(spec_int::<u16>(w)) {
            Ok(v) => Ok(Value::UInt16(v)),
            Err(e) => Err(e),
        },
        PairType::Int32 => match value_of(spec_int::<i32>(w)) {
            Ok(v) => Ok(Value::Int32(v)),
            Err(e) => Err(e),
        },
        PairType::UInt32 => match value_of(spec_int::<u32>(w)) {
            Ok(v) => Ok(Value::UInt32(v)),
            Err(e) => Err(e),
        },
        PairType::Int64 => match value_of(spec_int::<i64>(w)) {
            Ok(v) => Ok(Value::Int64(v)),
            Err(e) => Err(e),
        },
        PairType::UInt64 => match value_of(spec_int::<u64>(w)) {
            Ok(v) => Ok(Value::UInt64(v)),
            Err(e) => Err(e),
        },
        PairType::String => match value_of(spec_string(w)) {
            Ok(v) => Ok(Value::String(v)),
            Err(e) => Err(e),
        },
        PairType::ByteArray => match spec_ints::<u8>(w, nelems as int) {
            Ok(v) => Ok(Value::ByteArray(v)),
            Err(e) => Err(e),
        },
        PairType::Int16Array => match spec_ints::<i16>(w, nelems as int) {
            Ok(v) => Ok(Value::Int16Array(v)),
            Err(e) => Err(e),
        },
        PairType::UInt16Array => match spec_ints::<u16>(w, nelems as int) {
            Ok(v) => Ok(Value::UInt16Array(v)),
            Err(e) => Err(e),
        },
        PairType::Int32Array => match spec_ints::<i32>(w, nelems as int) {
            Ok(v) => Ok(Value::Int32Array(v)),
            Err(e) => Err(e),
        },
        PairType::UInt32Array => match spec_ints::<u32>(w, nelems as int) {
            Ok(v) => Ok(Value::UInt32Array(v)),
            Err(e) => Err(e),
        },
        PairType::Int64Array => match spec_ints::<i64>(w, nelems as int) {
            Ok(v) => Ok(Value::Int64Array(v)),
            Err(e) => Err(e),
        },
        PairType::UInt64Array => match spec_ints::<u64>(w, nelems as int) {
            Ok(v) => Ok(Value::UInt64Array(v)),
            Err(e) => Err(e),
        },
        PairType::StringArray => match spec_strings(w, nelems as int) {
            Ok(v) => Ok(Value::StringArray(v)),
            Err(e) => Err(e),
        },
        PairType::HiResTime => match value_of(spec_int::<i64>(w)) {
            Ok(v) => Ok(Value::HiResTime(v)),
            Err(e) => Err(e),
        },
        PairType::NVList => Ok(Value::List(Seq::empty())),
        PairType::NVListArray => Ok(Value::ListArray(Seq::empty())),
        PairType::BooleanValue => match value_of(spec_int::<i32>(w)) {
            Ok(v) => Ok(Value::BooleanValue(v != 0)),
            Err(e) => Err(e),
        },
        PairType::Int8 => match value_of(spec_int::<i8>(w)) {
            Ok(v) => Ok(Value::Int8(v)),
            Err(e) => Err(e),
        },
        PairType::UInt8 => match value_of(spec_int::<u8>(w)) {
            Ok(v) => Ok(Value::UInt8(v)),
            Err(e) => Err(e),
        },
        PairType::BooleanArray => match spec_ints::<i32>(w, nelems as int) {
            Ok(v) => Ok(Value::BooleanArray(Seq::new(v.len(), |i: int| v[i] != 0))),
            Err(e) => Err(e),
        },
        PairType::Int8Array => match spec_ints::<i8>(w, nelems as int) {
            Ok(v) => Ok(Value::Int8Array(v)),
            Err(e) => Err(e),
        },
        PairType::UInt8Array => match spec_ints::<u8>(w, nelems as int) {
            Ok(v) => Ok(Value::UInt8Array(v)),
            Err(e) => Err(e),
        },
        PairType::Double => match value_of(spec_int::<u64>(w)) {
            Ok(v) => Ok(Value::Double(v)),
            Err(e) => Err(e),
        },
    }
}

/// One pair at the start of `s`, and the input after it; no pair where the
/// total-length field is zero, which ends a container.
///
/// The total length counts its own four bytes, and the bytes after them that
/// it covers are the pair's bounded region. The value of a container-valued
/// pair is not in that region: it is decoded from the input after the region,
/// and the input after the pair is then what follows the nested data.
pub open spec fn spec_pair(s: Seq<u8>) -> Result<(Option<Entry>, Seq<u8>), ParseError>
    decreases s.len(), 0int, 0int,
{
    match spec_int::<i32>(s) {
        Err(e) => Err(e),
        Ok((len, body)) => if len == 0 {
            Ok((None, body))
        } else if len < 4 || len - 4 > body.len() {
            Err(ParseError::ShortRead)
        } else {
            let region = body.subrange(0, len - 4);
            let after = body.subrange(len - 4, body.len() as int);
            match spec_header(region) {
                Err(e) => Err(e),
                Ok(h) => match PairType::spec_from_i32(h.tag) {
                    None => Err(ParseError::UnknownPairType(h.tag)),
                    Some(PairType::NVList) => match spec_list(after) {
                        Err(e) => Err(e),
                        Ok((entries, rest)) => Ok(
                            (Some(Entry { name: h.name, value: Value::List(entries) }), rest),
                        ),
                    },
                    Some(PairType::NVListArray) => match spec_lists(after, h.nelems as int) {
                        Err(e) => Err(e),
                        Ok((lists, rest)) => Ok(
                            (Some(Entry { name: h.name, value: Value::ListArray(lists) }), rest),
                        ),
                    },
                    Some(t) => match spec_plain(t, h.nelems, h.window) {
                        Err(e) => Err(e),
                        Ok(value) => Ok((Some(Entry { name: h.name, value }), after)),
                    },
                },
            }
        },
    }
}

/// The pairs of one container from the start of `s` up to its terminator,
/// and the input after the terminator.
///
/// A pair always uses up input (`lemma_pair_advances`), so the test before
/// the recursive call never fails; it is there to show that the definition
/// terminates.
pub open spec fn spec_list(s: Seq<u8>) -> Result<(Seq<Entry>, Seq<u8>), ParseError>
    decreases s.len(), 1int, 0int,
{
    match spec_pair(s) {
        Err(e) => Err(e),
        Ok((None, rest)) => Ok((Seq::empty(), rest)),
        Ok((Some(entry), rest)) => if rest.len() < s.len() {
            match spec_list(rest) {
                Err(e) => Err(e),
                Ok((tail, end)) => Ok((seq![entry] + tail, end)),
            }
        } else {
            Err(ParseError::ShortRead)
        },
    }
}

/// `n` containers one after the other from the start of `s`, and the input
/// after the last; none where `n` is not positive.
///
/// A container never gives back more input than it was given
/// (`lemma_list_advances`), so the test before the recursive call never
/// fails; it is there to show that the definition terminates.
pub open spec fn spec_lists(s: Seq<u8>, n: int) -> Result<(Seq<Seq<Entry>>, Seq<u8>), ParseError>
    decreases s.len(), 2int, n,
{
    if n <= 0 {
        Ok((Seq::empty(), s))
    } else {
        match spec_list(s) {
            Err(e) => Err(e),
            Ok((first, rest)) => if rest.len() <= s.len() {
                match spec_lists(rest, n - 1) {
                    Err(e) => Err(e),
                    Ok((tail, end)) => Ok((seq![first] + tail, end)),
                }
            } else {
                Err(ParseError::ShortRead)
            },
        }
    }
}

/// The container that a whole buffer encodes: the markers of the native
/// encoding and of little-endian byte order, two reserved bytes, the version
/// and the flags word, and then the pairs up to the terminator. What follows
/// the terminator is not looked at.
pub open spec fn spec_parse(s: Seq<u8>) -> Result<Seq<Entry>, ParseError> {
    if s.len() < 1 {
        Err(ParseError::ShortRead)
    } else if Encoding::spec_from_marker(s[0]) != Some(Encoding::Native) {
        Err(ParseError::InvalidEncoding)
    } else if s.len() < 2 {
        Err(ParseError::ShortRead)
    } else if Endian::spec_from_marker(s[1]) != Some(Endian::Little) {
        Err(ParseError::InvalidEndian)
    } else if s.len() < 4 {
        Err(ParseError::ShortRead)
    } else {
        match spec_int::<i32>(s.subrange(4, s.len() as int)) {
            Err(e) => Err(e),
            Ok((version, r1)) => match spec_int::<u32>(r1) {
                Err(e) => Err(e),
                Ok((flags, r2)) => if version != NV_VERSION {
                    Err(ParseError::UnsupportedVersion(version))
                } else if flags != NV_UNIQUE_NAME {
                    Err(ParseError::UnsupportedFlags(flags))
                } else {
                    match spec_list(r2) {
                        Err(e) => Err(e),
                        Ok((entries, _)) => Ok(entries),
                    }
                },
            },
        }
    }
}

/// The entries that a sequence of pairs stands for.
pub open spec fn entries_of(v: Seq<Pair>) -> Seq<Entry> {
    Seq::new(v.len(), |i: int| v[i]@)
}

/// The containers that a sequence of pair lists stands for.
pub open spec fn lists_of(v: Seq<PairList>) -> Seq<Seq<Entry>> {
    Seq::new(v.len(), |i: int| v[i]@)
}

/// The strings that a sequence of byte vectors stands for.
pub open spec fn strings_of(v: Seq<Vec<u8>>) -> Seq<Seq<u8>> {
    Seq::new(v.len(), |i: int| v[i]@)
}

/// A pair list stands for the entries of its pairs.
pub proof fn lemma_view_pair_list(v: Vec<Pair>)
    ensures
        PairList(v)@ == entries_of(v@),
{
    assert(PairList(v)@ =~= entries_of(v@));
}

/// An array of containers stands for the containers of its elements.
pub proof fn lemma_view_list_array(v: Vec<PairList>)
    ensures
        PairValue::ListArray(v)@ == Value::ListArray(lists_of(v@)),
{
    reveal_with_fuel(<PairValue as View>::view, 2);
    assert(PairValue::ListArray(v)@->ListArray_0 =~= lists_of(v@));
}

/// An array of strings stands for the strings of its elements.
pub proof fn lemma_view_string_array(v: Vec<Vec<u8>>)
    ensures
        PairValue::StringArray(v)@ == Value::StringArray(strings_of(v@)),
{
    assert(PairValue::StringArray(v)@->StringArray_0 =~= strings_of(v@));
}

/// `head` put in front of what `r` holds, where `r` is a success.
pub open spec fn prepend<A>(head: Seq<A>, r: Result<Seq<A>, ParseError>) -> Result<
    Seq<A>,
    ParseError,
> {
    match r {
        Ok(tail) => Ok(head + tail),
        Err(e) => Err(e),
    }
}

/// `head` put in front of what `r` holds, where `r` is a success; the rest of
/// the input stays as it is.
pub open spec fn prepend_keeping<A>(
    head: Seq<A>,
    r: Result<(Seq<A>, Seq<u8>), ParseError>,
) -> Result<(Seq<A>, Seq<u8>), ParseError> {
    match r {
        Ok((tail, rest)) => Ok((head + tail, rest)),
        Err(e) => Err(e),
    }
}

proof fn lemma_prepend_empty<A>(r: Result<Seq<A>, ParseError>)
    ensures
        prepend(Seq::empty(), r) == r,
{
    if let Ok(tail) = r {
        assert(Seq::<A>::empty() + tail =~= tail);
    }
}

proof fn lemma_prepend_push<A>(head: Seq<A>, x: A, r: Result<Seq<A>, ParseError>)
    ensures
        prepend(head, prepend(seq![x], r)) == prepend(head.push(x), r),
{
    if let Ok(tail) = r {
        assert(head + (seq![x] + tail) =~= head.push(x) + tail);
    }
}

proof fn lemma_prepend_keeping_empty<A>(r: Result<(Seq<A>, Seq<u8>), ParseError>)
    ensures
        prepend_keeping(Seq::empty(), r) == r,
{
    if let Ok((tail, rest)) = r {
        assert(Seq::<A>::empty() + tail =~= tail);
    }
}

proof fn lemma_prepend_keeping_push<A>(
    head: Seq<A>,
    x: A,
    r: Result<(Seq<A>, Seq<u8>), ParseError>,
)
    ensures
        prepend_keeping(head, prepend_keeping(seq![x], r)) == prepend_keeping(head.push(x), r),
{
    if let Ok((tail, rest)) = r {
        assert(head + (seq![x] + tail) =~= head.push(x) + tail);
    }
}

proof fn lemma_suffix_of_suffix(a: Seq<u8>, b: Seq<u8>, c: Seq<u8>)
    requires
        a.is_suffix_of(b),
        b.is_suffix_of(c),
    ensures
        a.is_suffix_of(c),
{
    assert(a =~= c.subrange(c.len() - a.len(), c.len() as int));
}

/// A pair uses up at least the four bytes of its total-length field, and
/// what it leaves is the end of what it was given.
pub proof fn lemma_pair_advances(s: Seq<u8>)
    ensures
        spec_pair(s) matches Ok((_, rest)) ==> rest.len() + 4 <= s.len() && rest.is_suffix_of(s),
    decreases s.len(), 0int, 0int,
{
    if let Ok((len, body)) = spec_int::<i32>(s) {
        assert(body.is_suffix_of(s));
        if len != 0 && !(len < 4 || len - 4 > body.len()) {
            let after = body.subrange(len - 4, body.len() as int);
            assert(after.is_suffix_of(body));
            lemma_suffix_of_suffix(after, body, s);
            lemma_list_advances(after);
            lemma_lists_advances(
                after,
                spec_header(body.subrange(0, len - 4)).unwrap().nelems as int,
            );
            if let Ok((_, rest)) = spec_pair(s) {
                if rest.is_suffix_of(after) {
                    lemma_suffix_of_suffix(rest, after, s);
                }
            }
        }
    }
}

/// A container uses up at least the four bytes of its terminator, and what
/// it leaves is the end of what it was given.
pub proof fn lemma_list_advances(s: Seq<u8>)
    ensures
        spec_list(s) matches Ok((_, rest)) ==> rest.len() + 4 <= s.len() && rest.is_suffix_of(s),
    decreases s.len(), 1int, 0int,
{
    lemma_pair_advances(s);
    if let Ok((Some(_), rest)) = spec_pair(s) {
        lemma_list_advances(rest);
        if let Ok((_, end)) = spec_list(rest) {
            lemma_suffix_of_suffix(end, rest, s);
        }
    }
}

/// A run of containers gives back no more input than it was given, and what
/// it leaves is the end of what it was given.
pub proof fn lemma_lists_advances(s: Seq<u8>, n: int)
    ensures
        spec_lists(s, n) matches Ok((_, rest)) ==> rest.len() <= s.len() && rest.is_suffix_of(s),
    decreases s.len(), 2int, n,
{
    if n > 0 {
        lemma_list_advances(s);
        if let Ok((_, rest)) = spec_list(s) {
            lemma_lists_advances(rest, n - 1);
            if let Ok((_, end)) = spec_lists(rest, n - 1) {
                lemma_suffix_of_suffix(end, rest, s);
            }
        }
    } else {
        assert(s.is_suffix_of(s));
    }
}

/// What the result of reading one integer stands for.
pub open spec fn int_result<T>(r: Result<(T, &[u8]), ParseError>) -> Result<
    (T, Seq<u8>),
    ParseError,
> {
    match r {
        Ok((v, rest)) => Ok((v, rest@)),
        Err(e) => Err(e),
    }
}

/// What the result of reading one string stands for.
pub open spec fn string_result(r: Result<(Vec<u8>, &[u8]), ParseError>) -> Result<
    (Seq<u8>, Seq<u8>),
    ParseError,
> {
    match r {
        Ok((v, rest)) => Ok((v@, rest@)),
        Err(e) => Err(e),
    }
}

/// What the result of reading a value stands for.
pub open spec fn value_result(r: Result<PairValue, ParseError>) -> Result<Value, ParseError> {
    match r {
        Ok(v) => Ok(v@),
        Err(e) => Err(e),
    }
}

/// What the result of reading one pair stands for.
pub open spec fn pair_result(r: Result<(Option<Pair>, &[u8]), ParseError>) -> Result<
    (Option<Entry>, Seq<u8>),
    ParseError,
> {
    match r {
        Ok((Some(p), rest)) => Ok((Some(p@), rest@)),
        Ok((None, rest)) => Ok((None, rest@)),
        Err(e) => Err(e),
    }
}

/// What the result of reading one container stands for.
pub open spec fn list_result(r: Result<(PairList, &[u8]), ParseError>) -> Result<
    (Seq<Entry>, Seq<u8>),
    ParseError,
> {
    match r {
        Ok((l, rest)) => Ok((l@, rest@)),
        Err(e) => Err(e),
    }
}

/// What the result of reading a run of containers stands for.
pub open spec fn lists_result(r: Result<(Vec<PairList>, &[u8]), ParseError>) -> Result<
    (Seq<Seq<Entry>>, Seq<u8>),
    ParseError,
> {
    match r {
        Ok((v, rest)) => Ok((lists_of(v@), rest@)),
        Err(e) => Err(e),
    }
}

/// What the result of decoding a whole buffer stands for.
pub open spec fn parse_result(r: Result<PairList, ParseError>) -> Result<Seq<Entry>, ParseError> {
    match r {
        Ok(l) => Ok(l@),
        Err(e) => Err(e),
    }
}

/// The decoder of the wire format.
#[derive(Debug)]
pub struct Parser;

/// Decodes the container that the whole of `buf` encodes.
pub fn parse(buf: &[u8]) -> (r: Result<PairList, ParseError>)
    ensures
        parse_result(r) == spec_parse(buf@),
        r matches Ok(l) ==> l.wf(),
{
    Parser::new().parse(buf)
}

impl Parser {
    pub fn new() -> Parser {
        Parser
    }

    /// Decodes the container that the whole of `buf` encodes.
    pub fn parse(&self, buf: &[u8]) -> (r: Result<PairList, ParseError>)
        ensures
            parse_result(r) == spec_parse(buf@),
            r matches Ok(l) ==> l.wf(),
    {
        proof {
            lemma_parse_wf(buf@);
        }
        if buf.len() < 1 {
            return Err(ParseError::ShortRead);
        }
        match Encoding::from_marker(buf[0]) {
            Some(Encoding::Native) => {},
            _ => {
                return Err(ParseError::InvalidEncoding);
            },
        }
        if buf.len() < 2 {
            return Err(ParseError::ShortRead);
        }
        match Endian::from_marker(buf[1]) {
            Some(Endian::Little) => {},
            _ => {
                return Err(ParseError::InvalidEndian);
            },
        }
        if buf.len() < 4 {
            return Err(ParseError::ShortRead);
        }
        let lbuf = slice_subrange(buf, 4, buf.len());
        let (version, lbuf) = match self.parse_int::<i32>(lbuf) {
            Ok(x) => x,
            Err(e) => {
                return Err(e);
            },
        };
        let (flags, lbuf) = match self.parse_int::<u32>(lbuf) {
            Ok(x) => x,
            Err(e) => {
                return Err(e);
            },
        };
        if version != NV_VERSION {
            return Err(ParseError::UnsupportedVersion(version));
        }
        if flags != NV_UNIQUE_NAME {
            return Err(ParseError::UnsupportedFlags(flags));
        }
        match self.parse_nvlist(lbuf) {
            Ok((l, _)) => Ok(l),
            Err(e) => Err(e),
        }
    }

    /// Reads one fixed-width integer from the start of `buf` and gives it
    /// with the input after it.
    pub fn parse_int<'a, T: LittleEndian>(&self, buf: &'a [u8]) -> (r: Result<
        (T, &'a [u8]),
        ParseError,
    >)
        ensures
            int_result(r) == spec_int::<T>(buf@),
    {
        let s: usize = T::size();
        if buf.len() < s {
            return Err(ParseError::ShortRead);
        }
        match T::read_le(buf) {
            Some(v) => Ok((v, slice_subrange(buf, s, buf.len()))),
            None => Err(ParseError::ShortRead),
        }
    }

    /// Reads `n` fixed-width integers one after the other from the start of
    /// `buf`; none where `n` is not positive.
    pub fn parse_ints<T: LittleEndian>(&self, buf: &[u8], n: i32) -> (r: Result<
        Vec<T>,
        ParseError,
    >)
        ensures
            match r {
                Ok(v) => spec_ints::<T>(buf@, n as int) == Ok::<Seq<T>, ParseError>(v@),
                Err(e) => spec_ints::<T>(buf@, n as int) == Err::<Seq<T>, ParseError>(e),
            },
    {
        let mut v: Vec<T> = Vec::new();
        let mut pbuf: &[u8] = buf;
        let mut k: i32 = 0;
        proof {
            lemma_prepend_empty(spec_ints::<T>(buf@, n as int));
        }
        while k < n
            invariant
                0 <= k,
                k <= n || n <= 0,
                spec_ints::<T>(buf@, n as int) == prepend(v@, spec_ints::<T>(pbuf@, n - k)),
            decreases n - k,
        {
            let ghost before = pbuf@;
            let ghost head = v@;
            match self.parse_int::<T>(pbuf) {
                Ok((x, rest)) => {
                    proof {
                        lemma_prepend_push(head, x, spec_ints::<T>(rest@, n - k - 1));
                    }
                    v.push(x);
                    pbuf = rest;
                },
                Err(e) => {
                    return Err(e);
                },
            }
            k = k + 1;
        }
        proof {
            assert(v@ + Seq::<T>::empty() =~= v@);
        }
        Ok(v)
    }

    /// Reads one NUL-terminated string from the start of `buf` and gives its
    /// bytes, without the NUL, with the input after its padding.
    pub fn parse_string<'a>(&self, buf: &'a [u8]) -> (r: Result<(Vec<u8>, &'a [u8]), ParseError>)
        ensures
            string_result(r) == spec_string(buf@),
    {
        let total: usize = buf.len();
        match find_nul(buf) {
            None => Err(ParseError::UnterminatedString),
            Some(n) => {
                match checked_align(n + 1) {
                    Some(s) => {
                        if s > total {
                            Err(ParseError::ShortRead)
                        } else {
                            let text = slice_to_vec(slice_subrange(buf, 0, n));
                            Ok((text, slice_subrange(buf, s, total)))
                        }
                    },
                    None => Err(ParseError::ShortRead),
                }
            },
        }
    }

    /// Reads `n` padded strings one after the other from the start of `buf`;
    /// none where `n` is not positive.
    pub fn parse_strings(&self, buf: &[u8], n: i32) -> (r: Result<Vec<Vec<u8>>, ParseError>)
        ensures
            match r {
                Ok(v) => spec_strings(buf@, n as int) == Ok::<Seq<Seq<u8>>, ParseError>(
                    strings_of(v@),
                ),
                Err(e) => spec_strings(buf@, n as int) == Err::<Seq<Seq<u8>>, ParseError>(e),
            },
    {
        let mut v: Vec<Vec<u8>> = Vec::new();
        let mut pbuf: &[u8] = buf;
        let mut k: i32 = 0;
        proof {
            lemma_prepend_empty(spec_strings(buf@, n as int));
            assert(strings_of(v@) =~= Seq::empty());
        }
        while k < n
            invariant
                0 <= k,
                k <= n || n <= 0,
                spec_strings(buf@, n as int) == prepend(
                    strings_of(v@),
                    spec_strings(pbuf@, n - k),
                ),
            decreases n - k,
        {
            let ghost head = strings_of(v@);
            match self.parse_string(pbuf) {
                Ok((x, rest)) => {
                    proof {
                        lemma_prepend_push(head, x@, spec_strings(rest@, n - k - 1));
                    }
                    v.push(x);
                    proof {
                        assert(strings_of(v@) =~= head.push(x@));
                    }
                    pbuf = rest;
                },
                Err(e) => {
                    return Err(e);
                },
            }
            k = k + 1;
        }
        proof {
            assert(strings_of(v@) + Seq::<Seq<u8>>::empty() =~= strings_of(v@));
        }
        Ok(v)
    }

    /// Reads the pairs of one container from the start of `buf` up to its
    /// terminator, and gives them with the input after the terminator.
    pub fn parse_nvlist<'a>(&self, buf: &'a [u8]) -> (r: Result<(PairList, &'a [u8]), ParseError>)
        ensures
            list_result(r) == spec_list(buf@),
        decreases buf@.len(), 1int, 0int,
    {
        let mut pairs: Vec<Pair> = Vec::new();
        let mut nbuf: &[u8] = buf;
        proof {
            lemma_prepend_keeping_empty(spec_list(buf@));
            assert(entries_of(pairs@) =~= Seq::empty());
        }
        loop
            invariant
                nbuf@.len() <= buf@.len(),
                spec_list(buf@) == prepend_keeping(entries_of(pairs@), spec_list(nbuf@)),
            decreases nbuf@.len(),
        {
            let ghost head = entries_of(pairs@);
            proof {
                lemma_pair_advances(nbuf@);
            }
            match self.parse_pair(nbuf) {
                Ok((Some(pair), rest)) => {
                    proof {
                        lemma_prepend_keeping_push(head, pair@, spec_list(rest@));
                    }
                    pairs.push(pair);
                    proof {
                        assert(entries_of(pairs@) =~= head.push(pair@));
                    }
                    nbuf = rest;
                },
                Ok((None, rest)) => {
                    let l = PairList(pairs);
                    proof {
                        lemma_view_pair_list(pairs);
                        assert(head + Seq::<Entry>::empty() =~= head);
                    }
                    return Ok((l, rest));
                },
                Err(e) => {
                    return Err(e);
                },
            }
        }
    }

    /// Reads `n` containers one after the other from the start of `buf`, and
    /// gives them with the input after the last; none where `n` is not
    /// positive.
    pub fn parse_nvlists<'a>(&self, buf: &'a [u8], n: i32) -> (r: Result<
        (Vec<PairList>, &'a [u8]),
        ParseError,
    >)
        ensures
            lists_result(r) == spec_lists(buf@, n as int),
        decreases buf@.len(), 2int, 0int,
    {
        let mut v: Vec<PairList> = Vec::new();
        let mut pbuf: &[u8] = buf;
        let mut k: i32 = 0;
        proof {
            lemma_prepend_keeping_empty(spec_lists(buf@, n as int));
            assert(lists_of(v@) =~= Seq::empty());
        }
        while k < n
            invariant
                0 <= k,
                k <= n || n <= 0,
                pbuf@.len() <= buf@.len(),
                spec_lists(buf@, n as int) == prepend_keeping(
                    lists_of(v@),
                    spec_lists(pbuf@, n - k),
                ),
            decreases n - k,
        {
            let ghost head = lists_of(v@);
            proof {
                lemma_list_advances(pbuf@);
            }
            match self.parse_nvlist(pbuf) {
                Ok((l, rest)) => {
                    proof {
                        lemma_prepend_keeping_push(head, l@, spec_lists(rest@, n - k - 1));
                    }
                    v.push(l);
                    proof {
                        assert(lists_of(v@) =~= head.push(l@));
                    }
                    pbuf = rest;
                },
                Err(e) => {
                    return Err(e);
                },
            }
            k = k + 1;
        }
        proof {
            assert(lists_of(v@) + Seq::<Seq<Entry>>::empty() =~= lists_of(v@));
        }
        Ok((v, pbuf))
    }
}

/// What stands at the start of a pair's bounded region, as decoded.
pub struct RawHeader<'a> {
    /// The pair's name, without its NUL.
    pub name: Vec<u8>,
    /// The element count.
    pub nelems: i32,
    /// The type tag.
    pub tag: i32,
    /// The rest of the region, from the first byte after the name's padding.
    pub window: &'a [u8],
}

impl<'a> View for RawHeader<'a> {
    type V = PairHeader;

    open spec fn view(&self) -> PairHeader {
        PairHeader { name: self.name@, nelems: self.nelems, tag: self.tag, window: self.window@ }
    }
}

/// What the result of reading a pair's header stands for.
pub open spec fn header_result(r: Result<RawHeader<'_>, ParseError>) -> Result<
    PairHeader,
    ParseError,
> {
    match r {
        Ok(h) => Ok(h@),
        Err(e) => Err(e),
    }
}

impl Parser {
    /// Reads the header of the pair whose bounded region is `region`.
    pub fn parse_header<'a>(&self, region: &'a [u8]) -> (r: Result<RawHeader<'a>, ParseError>)
        ensures
            header_result(r) == spec_header(region@),
    {
        let (_, buf) = match self.parse_int::<i16>(region) {
            Ok(x) => x,
            Err(e) => {
                return Err(e);
            },
        };
        let (_, buf) = match self.parse_int::<i16>(buf) {
            Ok(x) => x,
            Err(e) => {
                return Err(e);
            },
        };
        let (nelems, buf) = match self.parse_int::<i32>(buf) {
            Ok(x) => x,
            Err(e) => {
                return Err(e);
            },
        };
        let (tag, buf) = match self.parse_int::<i32>(buf) {
            Ok(x) => x,
            Err(e) => {
                return Err(e);
            },
        };
        let (name, buf) = match self.parse_string(buf) {
            Ok(x) => x,
            Err(e) => {
                return Err(e);
            },
        };
        Ok(RawHeader { name, nelems, tag, window: buf })
    }

    /// Reads the value of a pair of type `t` that is neither a container nor
    /// an array of containers from the start of its value window `w`.
    fn parse_plain(&self, t: PairType, nelems: i32, w: &[u8]) -> (r: Result<
        PairValue,
        ParseError,
    >)
        requires
            t != PairType::NVList,
            t != PairType::NVListArray,
        ensures
            value_result(r) == spec_plain(t, nelems, w@),
    {
        match t {
            PairType::Boolean => Ok(PairValue::Boolean),
            PairType::Byte => match self.parse_int::<u8>(w) {
                Ok((v, _)) => Ok(PairValue::Byte(v)),
                Err(e) => Err(e),
            },
            PairType::Int16 => match self.parse_int::<i16>(w) {
                Ok((v, _)) => Ok(PairValue::Int16(v)),
                Err(e) => Err(e),
            },
            PairType::UInt16 => match self.parse_int::<u16>(w) {
                Ok((v, _)) => Ok(PairValue::UInt16(v)),
                Err(e) => Err(e),
            },
            PairType::Int32 => match self.parse_int::<i32>(w) {
                Ok((v, _)) => Ok(PairValue::Int32(v)),
                Err(e) => Err(e),
            },
            PairType::UInt32 => match self.parse_int::<u32>(w) {
                Ok((v, _)) => Ok(PairValue::UInt32(v)),
                Err(e) => Err(e),
            },
            PairType::Int64 => match self.parse_int::<i64>(w) {
                Ok((v, _)) => Ok(PairValue::Int64(v)),
                Err(e) => Err(e),
            },
            PairType::UInt64 => match self.parse_int::<u64>(w) {
                Ok((v, _)) => Ok(PairValue::UInt64(v)),
                Err(e) => Err(e),
            },
            PairType::String => match self.parse_string(w) {
                Ok((v, _)) => Ok(PairValue::String(v)),
                Err(e) => Err(e),
            },
            PairType::ByteArray => match self.parse_ints::<u8>(w, nelems) {
                Ok(v) => Ok(PairValue::ByteArray(v)),
                Err(e) => Err(e),
            },
            PairType::Int16Array => match self.parse_ints::<i16>(w, nelems) {
                Ok(v) => Ok(PairValue::Int16Array(v)),
                Err(e) => Err(e),
            },
            PairType::UInt16Array => match self.parse_ints::<u16>(w, nelems) {
                Ok(v) => Ok(PairValue::UInt16Array(v)),
                Err(e) => Err(e),
            },
            PairType::Int32Array => match self.parse_ints::<i32>(w, nelems) {
                Ok(v) => Ok(PairValue::Int32Array(v)),
                Err(e) => Err(e),
            },
            PairType::UInt32Array => match self.parse_ints::<u32>(w, nelems) {
                Ok(v) => Ok(PairValue::UInt32Array(v)),
                Err(e) => Err(e),
            },
            PairType::Int64Array => match self.parse_ints::<i64>(w, nelems) {
                Ok(v) => Ok(PairValue::Int64Array(v)),
                Err(e) => Err(e),
            },
            PairType::UInt64Array => match self.parse_ints::<u64>(w, nelems) {
                Ok(v) => Ok(PairValue::UInt64Array(v)),
                Err(e) => Err(e),
            },
            PairType::StringArray => match self.parse_strings(w, nelems) {
                Ok(v) => {
                    let value = PairValue::StringArray(v);
                    proof {
                        lemma_view_string_array(v);
                    }
                    Ok(value)
                },
                Err(e) => Err(e),
            },
            PairType::HiResTime => match self.parse_int::<i64>(w) {
                Ok((v, _)) => Ok(PairValue::HiResTime(v)),
                Err(e) => Err(e),
            },
            PairType::NVList => Ok(PairValue::List(PairList(Vec::new()))),
            PairType::NVListArray => Ok(PairValue::ListArray(Vec::new())),
            PairType::BooleanValue => match self.parse_int::<i32>(w) {
                Ok((v, _)) => Ok(PairValue::BooleanValue(v != 0)),
                Err(e) => Err(e),
            },
            PairType::Int8 => match self.parse_int::<i8>(w) {
                Ok((v, _)) => Ok(PairValue::Int8(v)),
                Err(e) => Err(e),
            },
            PairType::UInt8 => match self.parse_int::<u8>(w) {
                Ok((v, _)) => Ok(PairValue::UInt8(v)),
                Err(e) => Err(e),
            },
            PairType::BooleanArray => match self.parse_ints::<i32>(w, nelems) {
                Ok(words) => {
                    let mut v: Vec<bool> = Vec::new();
                    let mut i: usize = 0;
                    while i < words.len()
                        invariant
                            i <= words@.len(),
                            v@.len() == i,
                            forall|j: int| 0 <= j < i ==> v@[j] == (words@[j] != 0),
                        decreases words@.len() - i,
                    {
                        v.push(words[i] != 0);
                        i += 1;
                    }
                    proof {
                        assert(v@ =~= Seq::new(words@.len(), |j: int| words@[j] != 0));
                    }
                    Ok(PairValue::BooleanArray(v))
                },
                Err(e) => Err(e),
            },
            PairType::Int8Array => match self.parse_ints::<i8>(w, nelems) {
                Ok(v) => Ok(PairValue::Int8Array(v)),
                Err(e) => Err(e),
            },
            PairType::UInt8Array => match self.parse_ints::<u8>(w, nelems) {
                Ok(v) => Ok(PairValue::UInt8Array(v)),
                Err(e) => Err(e),
            },
            PairType::Double => match self.parse_int::<u64>(w) {
                Ok((v, _)) => Ok(PairValue::Double(v)),
                Err(e) => Err(e),
            },
        }
    }

    /// Reads one pair from the start of `buf` and gives it with the input
    /// after it; no pair where the total-length field is zero.
    pub fn parse_pair<'a>(&self, buf: &'a [u8]) -> (r: Result<
        (Option<Pair>, &'a [u8]),
        ParseError,
    >)
        ensures
            pair_result(r) == spec_pair(buf@),
        decreases buf@.len(), 0int, 0int,
    {
        let (len, body) = match self.parse_int::<i32>(buf) {
            Ok(x) => x,
            Err(e) => {
                return Err(e);
            },
        };
        if len == 0 {
            return Ok((None, body));
        }
        if len < 4 {
            return Err(ParseError::ShortRead);
        }
        let cut: usize = (len - 4) as usize;
        if cut > body.len() {
            return Err(ParseError::ShortRead);
        }
        let region = slice_subrange(body, 0, cut);
        let nbuf = slice_subrange(body, cut, body.len());
        let h = match self.parse_header(region) {
            Ok(h) => h,
            Err(e) => {
                return Err(e);
            },
        };
        let typ = match PairType::from_i32(h.tag) {
            Some(t) => t,
            None => {
                return Err(ParseError::UnknownPairType(h.tag));
            },
        };
        match typ {
            PairType::NVList => match self.parse_nvlist(nbuf) {
                Ok((l, rest)) => Ok((Some(Pair(h.name, PairValue::List(l))), rest)),
                Err(e) => Err(e),
            },
            PairType::NVListArray => match self.parse_nvlists(nbuf, h.nelems) {
                Ok((v, rest)) => {
                    let value = PairValue::ListArray(v);
                    proof {
                        lemma_view_list_array(v);
                    }
                    Ok((Some(Pair(h.name, value)), rest))
                },
                Err(e) => Err(e),
            },
            _ => match self.parse_plain(typ, h.nelems, h.window) {
                Ok(value) => Ok((Some(Pair(h.name, value)), nbuf)),
                Err(e) => Err(e),
            },
        }
    }
}

/// The position of the first entry at or after `from` that is named `key`,
/// or the number of entries where there is none.
pub open spec fn position_of(entries: Seq<Entry>, key: Seq<u8>, from: int) -> int
    decreases entries.len() - from,
{
    if from < 0 || from >= entries.len() {
        entries.len() as int
    } else if entries[from].name == key {
        from
    } else {
        position_of(entries, key, from + 1)
    }
}

/// The first entry that is named `key`. No entry is named by a key that
/// holds a zero byte, which no C string can.
pub open spec fn spec_get(entries: Seq<Entry>, key: Seq<u8>) -> Option<Entry> {
    let i = position_of(entries, key, 0);
    if nul_free(key) && i < entries.len() {
        Some(entries[i])
    } else {
        None
    }
}

/// The container that the first entry named `key` holds.
pub open spec fn spec_get_list(entries: Seq<Entry>, key: Seq<u8>) -> Option<Seq<Entry>> {
    match spec_get(entries, key) {
        Some(Entry { value: Value::List(l), .. }) => Some(l),
        _ => None,
    }
}

/// The containers that the first entry named `key` holds.
pub open spec fn spec_get_list_slice(entries: Seq<Entry>, key: Seq<u8>) -> Option<
    Seq<Seq<Entry>>,
> {
    match spec_get(entries, key) {
        Some(Entry { value: Value::ListArray(v), .. }) => Some(v),
        _ => None,
    }
}

/// The number that the first entry named `key` holds.
pub open spec fn spec_get_u64(entries: Seq<Entry>, key: Seq<u8>) -> Option<u64> {
    match spec_get(entries, key) {
        Some(Entry { value: Value::UInt64(n), .. }) => Some(n),
        _ => None,
    }
}

/// The numbers that the first entry named `key` holds.
pub open spec fn spec_get_u64_slice(entries: Seq<Entry>, key: Seq<u8>) -> Option<Seq<u64>> {
    match spec_get(entries, key) {
        Some(Entry { value: Value::UInt64Array(v), .. }) => Some(v),
        _ => None,
    }
}

/// The string that the first entry named `key` holds.
pub open spec fn spec_get_c_string(entries: Seq<Entry>, key: Seq<u8>) -> Option<Seq<u8>> {
    match spec_get(entries, key) {
        Some(Entry { value: Value::String(s), .. }) => Some(s),
        _ => None,
    }
}

/// `position_of` stays within the entries, passes over no entry named `key`,
/// and stops at one that is.
pub proof fn lemma_position_of(entries: Seq<Entry>, key: Seq<u8>, from: int)
    requires
        0 <= from <= entries.len(),
    ensures
        from <= position_of(entries, key, from) <= entries.len(),
        forall|i: int| from <= i < position_of(entries, key, from) ==> entries[i].name != key,
        position_of(entries, key, from) < entries.len() ==> entries[position_of(
            entries,
            key,
            from,
        )].name == key,
    decreases entries.len() - from,
{
    if from < entries.len() && entries[from].name != key {
        lemma_position_of(entries, key, from + 1);
    }
}

proof fn lemma_position_of_is(entries: Seq<Entry>, key: Seq<u8>, from: int, at: int)
    requires
        0 <= from <= at <= entries.len(),
        forall|i: int| from <= i < at ==> entries[i].name != key,
        at < entries.len() ==> entries[at].name == key,
    ensures
        position_of(entries, key, from) == at,
    decreases at - from,
{
    if from < at {
        lemma_position_of_is(entries, key, from + 1, at);
    }
}

impl Pair {
    /// The pair's name.
    pub fn key(&self) -> (r: &[u8])
        ensures
            r@ == self@.name,
    {
        self.0.as_slice()
    }

    /// The pair's name and its value.
    pub fn into_parts(self) -> (r: (Vec<u8>, PairValue))
        ensures
            r.0 == self.0,
            r.1 == self.1,
    {
        (self.0, self.1)
    }

    /// The pair's value.
    pub fn value(&self) -> (r: &PairValue)
        ensures
            *r == self.1,
            r@ == self@.value,
    {
        &self.1
    }

    /// The container that the pair holds, if it holds one.
    pub fn as_list(&self) -> (r: Option<&PairList>)
        ensures
            match self.1 {
                PairValue::List(l) => r == Some(&l) && self@.value == Value::List(l@),
                _ => r is None && !(self@.value is List),
            },
    {
        match &self.1 {
            PairValue::List(l) => Some(l),
            _ => None,
        }
    }

    /// The containers that the pair holds, if it holds an array of them.
    pub fn as_list_slice(&self) -> (r: Option<&[PairList]>)
        ensures
            match self.1 {
                PairValue::ListArray(v) => r matches Some(s) && s@ == v@ && self@.value
                    == Value::ListArray(lists_of(v@)),
                _ => r is None && !(self@.value is ListArray),
            },
    {
        match &self.1 {
            PairValue::ListArray(v) => {
                proof {
                    lemma_view_list_array(*v);
                }
                Some(v.as_slice())
            },
            _ => None,
        }
    }

    /// The numbers that the pair holds, if it holds an array of unsigned
    /// 64-bit numbers.
    pub fn as_u64_slice(&self) -> (r: Option<&[u64]>)
        ensures
            match self@.value {
                Value::UInt64Array(v) => r matches Some(s) && s@ == v,
                _ => r is None,
            },
    {
        match &self.1 {
            PairValue::UInt64Array(v) => Some(v.as_slice()),
            _ => None,
        }
    }

    /// The number that the pair holds, if it holds an unsigned 64-bit
    /// number.
    pub fn to_u64(&self) -> (r: Option<u64>)
        ensures
            r == match self@.value {
                Value::UInt64(n) => Some(n),
                _ => None,
            },
    {
        match self.1 {
            PairValue::UInt64(n) => Some(n),
            _ => None,
        }
    }

    /// A copy of the string that the pair holds, if it holds one.
    pub fn to_c_string(&self) -> (r: Option<Vec<u8>>)
        ensures
            match self@.value {
                Value::String(s) => r matches Some(c) && c@ == s,
                _ => r is None,
            },
    {
        match &self.1 {
            PairValue::String(s) => Some(slice_to_vec(s.as_slice())),
            _ => None,
        }
    }
}

impl PairList {
    /// The pairs, in the order of the wire.
    pub fn pairs(&self) -> (r: &[Pair])
        ensures
            r@ == self.0@,
            entries_of(r@) == self@,
    {
        proof {
            lemma_view_pair_list(self.0);
        }
        self.0.as_slice()
    }

    /// The names of the pairs, in the order of the wire.
    pub fn keys(&self) -> (r: Vec<Vec<u8>>)
        ensures
            r@.len() == self@.len(),
            forall|i: int| 0 <= i < r@.len() ==> r@[i]@ == self@[i].name,
    {
        let mut names: Vec<Vec<u8>> = Vec::new();
        let mut i: usize = 0;
        proof {
            lemma_view_pair_list(self.0);
        }
        while i < self.0.len()
            invariant
                i <= self.0@.len(),
                names@.len() == i,
                self@ == entries_of(self.0@),
                forall|j: int| 0 <= j < i ==> names@[j]@ == self@[j].name,
            decreases self.0@.len() - i,
        {
            names.push(slice_to_vec(self.0[i].0.as_slice()));
            i += 1;
        }
        names
    }

    /// The first pair that is named `key`. No pair is named by a key that
    /// holds a zero byte.
    pub fn get(&self, key: &[u8]) -> (r: Option<&Pair>)
        ensures
            match r {
                Some(p) => spec_get(self@, key@) == Some(p@) && *p == self.0@[position_of(
                    self@,
                    key@,
                    0,
                )],
                None => spec_get(self@, key@) is None,
            },
    {
        proof {
            lemma_view_pair_list(self.0);
        }
        if !is_nul_free(key) {
            return None;
        }
        let mut i: usize = 0;
        while i < self.0.len()
            invariant
                i <= self.0@.len(),
                nul_free(key@),
                self@ == entries_of(self.0@),
                forall|j: int| 0 <= j < i ==> self@[j].name != key@,
            decreases self.0@.len() - i,
        {
            assert(self@[i as int] == self.0@[i as int]@);
            if bytes_eq(self.0[i].0.as_slice(), key) {
                proof {
                    lemma_position_of_is(self@, key@, 0, i as int);
                }
                return Some(&self.0[i]);
            }
            i += 1;
        }
        proof {
            lemma_position_of_is(self@, key@, 0, self@.len() as int);
        }
        None
    }

    /// The container that the first pair named `key` holds.
    pub fn get_list(&self, key: &[u8]) -> (r: Option<&PairList>)
        ensures
            match r {
                Some(l) => spec_get_list(self@, key@) == Some(l@),
                None => spec_get_list(self@, key@) is None,
            },
    {
        match self.get(key) {
            Some(p) => p.as_list(),
            None => None,
        }
    }

    /// The containers that the first pair named `key` holds.
    pub fn get_list_slice(&self, key: &[u8]) -> (r: Option<&[PairList]>)
        ensures
            match r {
                Some(s) => spec_get_list_slice(self@, key@) == Some(lists_of(s@)),
                None => spec_get_list_slice(self@, key@) is None,
            },
    {
        match self.get(key) {
            Some(p) => p.as_list_slice(),
            None => None,
        }
    }

    /// The number that the first pair named `key` holds.
    pub fn get_u64(&self, key: &[u8]) -> (r: Option<u64>)
        ensures
            r == spec_get_u64(self@, key@),
    {
        match self.get(key) {
            Some(p) => p.to_u64(),
            None => None,
        }
    }

    /// The numbers that the first pair named `key` holds.
    pub fn get_u64_slice(&self, key: &[u8]) -> (r: Option<&[u64]>)
        ensures
            match r {
                Some(s) => spec_get_u64_slice(self@, key@) == Some(s@),
                None => spec_get_u64_slice(self@, key@) is None,
            },
    {
        match self.get(key) {
            Some(p) => p.as_u64_slice(),
            None => None,
        }
    }

    /// A copy of the string that the first pair named `key` holds.
    pub fn get_c_string(&self, key: &[u8]) -> (r: Option<Vec<u8>>)
        ensures
            match r {
                Some(s) => spec_get_c_string(self@, key@) == Some(s@),
                None => spec_get_c_string(self@, key@) is None,
            },
    {
        match self.get(key) {
            Some(p) => p.to_c_string(),
            None => None,
        }
    }
}

/// Whether every name and every string in `v` is free of zero bytes, as
/// C strings are.
pub open spec fn value_wf(v: Value) -> bool
    decreases v,
{
    match v {
        Value::String(s) => nul_free(s),
        Value::StringArray(a) => forall|i: int| 0 <= i < a.len() ==> nul_free(#[trigger] a[i]),
        Value::List(l) => forall|i: int| 0 <= i < l.len() ==> entry_wf(#[trigger] l[i]),
        Value::ListArray(a) => forall|i: int, j: int|
            0 <= i < a.len() && 0 <= j < a[i].len() ==> entry_wf(#[trigger] a[i][j]),
        _ => true,
    }
}

/// Whether the name of `e`, and every name and string in its value, is free
/// of zero bytes.
pub open spec fn entry_wf(e: Entry) -> bool
    decreases e,
{
    nul_free(e.name) && value_wf(e.value)
}

/// Whether every entry of a container is well formed.
pub open spec fn entries_wf(l: Seq<Entry>) -> bool {
    forall|i: int| 0 <= i < l.len() ==> entry_wf(#[trigger] l[i])
}

impl PairList {
    /// Whether every name and every string in the container is free of zero
    /// bytes. Every decoded container is (`lemma_parse_wf`).
    pub open spec fn wf(&self) -> bool {
        entries_wf(self@)
    }
}

/// A string that was read holds no zero byte.
pub proof fn lemma_string_wf(s: Seq<u8>)
    ensures
        spec_string(s) matches Ok((text, _)) ==> nul_free(text),
{
    lemma_nul_from(s, 0);
}

/// Strings that were read hold no zero byte.
pub proof fn lemma_strings_wf(s: Seq<u8>, n: int)
    ensures
        spec_strings(s, n) matches Ok(a) ==> forall|i: int|
            0 <= i < a.len() ==> nul_free(#[trigger] a[i]),
    decreases n,
{
    if n > 0 {
        lemma_string_wf(s);
        if let Ok((_, rest)) = spec_string(s) {
            lemma_strings_wf(rest, n - 1);
        }
    }
}

/// A decoded pair is well formed.
pub proof fn lemma_pair_wf(s: Seq<u8>)
    ensures
        spec_pair(s) matches Ok((Some(e), _)) ==> entry_wf(e),
    decreases s.len(), 0int, 0int,
{
    if let Ok((len, body)) = spec_int::<i32>(s) {
        if len != 0 && !(len < 4 || len - 4 > body.len()) {
            let region = body.subrange(0, len - 4);
            let after = body.subrange(len - 4, body.len() as int);
            if let Ok(h) = spec_header(region) {
                let r1 = spec_int::<i16>(region).unwrap().1;
                let r2 = spec_int::<i16>(r1).unwrap().1;
                let r3 = spec_int::<i32>(r2).unwrap().1;
                let r4 = spec_int::<i32>(r3).unwrap().1;
                lemma_string_wf(r4);
                lemma_string_wf(h.window);
                lemma_strings_wf(h.window, h.nelems as int);
                lemma_list_wf(after);
                lemma_lists_wf(after, h.nelems as int);
            }
        }
    }
}

/// A decoded container is well formed.
pub proof fn lemma_list_wf(s: Seq<u8>)
    ensures
        spec_list(s) matches Ok((l, _)) ==> entries_wf(l),
    decreases s.len(), 1int, 0int,
{
    lemma_pair_wf(s);
    if let Ok((Some(e), rest)) = spec_pair(s) {
        if rest.len() < s.len() {
            lemma_list_wf(rest);
        }
    }
}

/// Decoded containers are well formed.
pub proof fn lemma_lists_wf(s: Seq<u8>, n: int)
    ensures
        spec_lists(s, n) matches Ok((a, _)) ==> forall|i: int, j: int|
            0 <= i < a.len() && 0 <= j < a[i].len() ==> entry_wf(#[trigger] a[i][j]),
    decreases s.len(), 2int, n,
{
    if n > 0 {
        lemma_list_wf(s);
        if let Ok((first, rest)) = spec_list(s) {
            if rest.len() <= s.len() {
                lemma_lists_wf(rest, n - 1);
            }
        }
    }
}

/// Every name and every string of a decoded buffer is free of zero bytes.
pub proof fn lemma_parse_wf(buf: Seq<u8>)
    ensures
        spec_parse(buf) matches Ok(l) ==> entries_wf(l),
{
    if buf.len() >= 4 {
        if let Ok((_, r1)) = spec_int::<i32>(buf.subrange(4, buf.len() as int)) {
            if let Ok((_, r2)) = spec_int::<u32>(r1) {
                lemma_list_wf(r2);
            }
        }
    }
}

/// Decoding is a function of the bytes: whatever two decodings of one buffer
/// give, they give the same error or containers that stand for the same
/// entries.
pub proof fn lemma_decode_deterministic(
    buf: Seq<u8>,
    first: Result<PairList, ParseError>,
    second: Result<PairList, ParseError>,
)
    requires
        parse_result(first) == spec_parse(buf),
        parse_result(second) == spec_parse(buf),
    ensures
        parse_result(first) == parse_result(second),
        first is Ok <==> second is Ok,
        first matches Ok(a) ==> second matches Ok(b) && a@ == b@,
        first matches Err(e) ==> second == Err::<PairList, ParseError>(e),
{
}

/// A first byte other than the marker of the native encoding is an invalid
/// encoding, whatever follows; after that marker, a second byte other than
/// the marker of little-endian byte order is an invalid byte order, whatever
/// follows. Neither gives a container.
pub proof fn lemma_marker_errors(buf: Seq<u8>)
    ensures
        buf.len() >= 1 && buf[0] != 0 ==> spec_parse(buf) == Err::<Seq<Entry>, ParseError>(
            ParseError::InvalidEncoding,
        ),
        buf.len() >= 2 && buf[0] == 0 && buf[1] != 1 ==> spec_parse(buf) == Err::<
            Seq<Entry>,
            ParseError,
        >(ParseError::InvalidEndian),
{
}

/// A total-length field of zero ends the container wherever it stands: the
/// pairs read from there are none, and the input goes on after the field.
pub proof fn lemma_zero_length_ends(s: Seq<u8>)
    requires
        spec_int::<i32>(s) matches Ok((len, _)) && len == 0,
    ensures
        spec_pair(s) == Ok::<(Option<Entry>, Seq<u8>), ParseError>(
            (None, s.subrange(4, s.len() as int)),
        ),
        spec_list(s) == Ok::<(Seq<Entry>, Seq<u8>), ParseError>(
            (Seq::empty(), s.subrange(4, s.len() as int)),
        ),
{
}

/// The pairs before a total-length field of zero are the whole container:
/// where the input after one pair starts with such a field, the container is
/// that pair alone.
pub proof fn lemma_zero_length_after_pair(s: Seq<u8>)
    requires
        spec_pair(s) matches Ok((Some(_), rest)) && (spec_int::<i32>(rest) matches Ok((len, _))
            && len == 0),
    ensures
        spec_pair(s) matches Ok((Some(e), rest)) && spec_list(s) == Ok::<
            (Seq<Entry>, Seq<u8>),
            ParseError,
        >((seq![e], rest.subrange(4, rest.len() as int))),
{
    lemma_pair_advances(s);
    let rest = spec_pair(s).unwrap().1;
    let e = spec_pair(s).unwrap().0.unwrap();
    lemma_zero_length_ends(rest);
    assert(seq![e] + Seq::<Entry>::empty() =~= seq![e]);
}

/// The data of a container-valued pair is read from the byte that follows
/// the pair's bounded region: the pair's value is the container decoded from
/// there, whatever the region holds after the name, and the input goes on
/// after that container.
pub proof fn lemma_nested_container_position(s: Seq<u8>)
    requires
        spec_int::<i32>(s) matches Ok((len, body)) && 4 <= len <= s.len() && (spec_header(
            body.subrange(0, len - 4),
        ) matches Ok(h) && h.tag == PairType::NVList.spec_tag()),
    ensures
        spec_int::<i32>(s) matches Ok((len, body)) && (spec_header(
            body.subrange(0, len - 4),
        ) matches Ok(h) && spec_pair(s) == match spec_list(s.subrange(len as int, s.len() as int)) {
            Ok((entries, rest)) => Ok(
                (Some(Entry { name: h.name, value: Value::List(entries) }), rest),
            ),
            Err(e) => Err::<(Option<Entry>, Seq<u8>), ParseError>(e),
        }),
{
    let (len, body) = spec_int::<i32>(s).unwrap();
    assert(body.subrange(len - 4, body.len() as int) =~= s.subrange(len as int, s.len() as int));
}

} // verus!
