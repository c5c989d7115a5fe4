//! A decoded buffer as a map from names to values, with the markers and
//! the version and flags of each container kept.

use crate::nvpair::{
    lemma_view_list_array, lemma_view_pair_list, lemma_view_string_array, lists_of, spec_int,
    spec_list, spec_parse, strings_of, Entry, PairList, PairValue, ParseError, Parser, Value,
    NV_UNIQUE_NAME, NV_VERSION,
};
use crate::wire::bytes_eq;
use vstd::prelude::*;
use vstd::slice::slice_to_vec;

verus! {

/// Why a buffer could not be decoded.
#[derive(Debug, Clone, Copy, PartialEq, Eq)]
pub enum UnpackError {
    /// The encoding marker is not that of the native encoding.
    InvalidEncoding,
    /// The endianness marker is not that of little-endian.
    InvalidEndian,
    /// The buffer ends before a field that has to be read.
    ShortRead,
    /// A string has no terminating NUL within its window.
    UnterminatedString,
    /// A pair carries a type tag that stands for no type.
    UnknownPairType(i32),
    /// The container's version is not the known one.
    UnsupportedVersion(i32),
    /// The container's flags word is not the known one.
    UnsupportedFlags(u32),
}

impl UnpackError {
    /// The same failure, as the decoder of pairs reports it.
    pub open spec fn spec_from(e: ParseError) -> UnpackError {
        match e {
            ParseError::InvalidEncoding => UnpackError::InvalidEncoding,
            ParseError::InvalidEndian => UnpackError::InvalidEndian,
            ParseError::ShortRead => UnpackError::ShortRead,
            ParseError::UnterminatedString => UnpackError::UnterminatedString,
            ParseError::UnknownPairType(t) => UnpackError::UnknownPairType(t),
            ParseError::UnsupportedVersion(v) => UnpackError::UnsupportedVersion(v),
            ParseError::UnsupportedFlags(f) => UnpackError::UnsupportedFlags(f),
        }
    }

    /// Takes over a failure of the decoder of pairs.
    pub fn from(e: ParseError) -> (r: UnpackError)
        ensures
            r == Self::spec_from(e),
    {
        match e {
            ParseError::InvalidEncoding => UnpackError::InvalidEncoding,
            ParseError::InvalidEndian => UnpackError::InvalidEndian,
            ParseError::ShortRead => UnpackError::ShortRead,
            ParseError::UnterminatedString => UnpackError::UnterminatedString,
            ParseError::UnknownPairType(t) => UnpackError::UnknownPairType(t),
            ParseError::UnsupportedVersion(v) => UnpackError::UnsupportedVersion(v),
            ParseError::UnsupportedFlags(f) => UnpackError::UnsupportedFlags(f),
        }
    }

    /// A few words on the failure.
    pub fn description(&self) -> (r: &'static str)
        ensures
            r@ == match *self {
                UnpackError::InvalidEncoding => "invalid encoding"@,
                UnpackError::InvalidEndian => "invalid endian"@,
                UnpackError::ShortRead => "short read"@,
                UnpackError::UnterminatedString => "unterminated string"@,
                UnpackError::UnknownPairType(_) => "unknown pair type"@,
                UnpackError::UnsupportedVersion(_) => "unsupported version"@,
                UnpackError::UnsupportedFlags(_) => "unsupported flags"@,
            },
    {
        match *self {
            UnpackError::InvalidEncoding => "invalid encoding",
            UnpackError::InvalidEndian => "invalid endian",
            UnpackError::ShortRead => "short read",
            UnpackError::UnterminatedString => "unterminated string",
            UnpackError::UnknownPairType(_) => "unknown pair type",
            UnpackError::UnsupportedVersion(_) => "unsupported version",
            UnpackError::UnsupportedFlags(_) => "unsupported flags",
        }
    }

    /// The name of the failure, as it is shown.
    pub fn to_string(&self) -> (r: String)
        ensures
            r@ == match *self {
                UnpackError::InvalidEncoding => "InvalidEncoding"@,
                UnpackError::InvalidEndian => "InvalidEndian"@,
                UnpackError::ShortRead => "ShortRead"@,
                UnpackError::UnterminatedString => "UnterminatedStringValue"@,
                UnpackError::UnknownPairType(_) => "UnknownPairType"@,
                UnpackError::UnsupportedVersion(_) => "UnsupportedVersion"@,
                UnpackError::UnsupportedFlags(_) => "UnsupportedFlags"@,
            },
    {
        match *self {
            UnpackError::InvalidEncoding => "InvalidEncoding".to_owned(),
            UnpackError::InvalidEndian => "InvalidEndian".to_owned(),
            UnpackError::ShortRead => "ShortRead".to_owned(),
            UnpackError::UnterminatedString => "UnterminatedStringValue".to_owned(),
            UnpackError::UnknownPairType(_) => "UnknownPairType".to_owned(),
            UnpackError::UnsupportedVersion(_) => "UnsupportedVersion".to_owned(),
            UnpackError::UnsupportedFlags(_) => "UnsupportedFlags".to_owned(),
        }
    }
}

/// The encodings that the first byte of a buffer can announce.
#[derive(PartialEq, Eq, Debug, Clone, Copy)]
pub enum Encoding {
    Native,
    XDR,
}

/// The byte orders that the second byte of a buffer can announce.
#[derive(PartialEq, Eq, Debug, Clone, Copy)]
pub enum Endian {
    Big,
    Little,
}

/// What a decoded value is, with containers as maps: the mathematical
/// counterpart of `Data`.
pub enum DataView {
    Boolean,
    Byte(u8),
    Int16(i16),
    UInt16(u16),
    Int32(i32),
    UInt32(u32),
    Int64(i64),
    UInt64(u64),
    String(Seq<u8>),
    ByteArray(Seq<u8>),
    Int16Array(Seq<i16>),
    UInt16Array(Seq<u16>),
    Int32Array(Seq<i32>),
    UInt32Array(Seq<u32>),
    Int64Array(Seq<i64>),
    UInt64Array(Seq<u64>),
    StringArray(Seq<Seq<u8>>),
    HiResTime(i64),
    List(ListView),
    ListArray(Seq<ListView>),
    BooleanValue(bool),
    Int8(i8),
    UInt8(u8),
    BooleanArray(Seq<bool>),
    Int8Array(Seq<i8>),
    UInt8Array(Seq<u8>),
    Double(u64),
}

/// What a decoded container is, as a map: the mathematical counterpart of
/// `List`.
pub struct ListView {
    pub version: i32,
    pub flags: u32,
    pub pairs: Map<Seq<u8>, DataView>,
}

/// A decoded value. A string is held as its bytes without the terminating
/// NUL, and a double as the bits of its IEEE 754 representation.
#[derive(Debug, PartialEq, Eq)]
pub enum Data {
    Boolean,
    Byte(u8),
    Int16(i16),
    UInt16(u16),
    Int32(i32),
    UInt32(u32),
    Int64(i64),
    UInt64(u64),
    String(Vec<u8>),
    ByteArray(Vec<u8>),
    Int16Array(Vec<i16>),
    UInt16Array(Vec<u16>),
    Int32Array(Vec<i32>),
    UInt32Array(Vec<u32>),
    Int64Array(Vec<i64>),
    UInt64Array(Vec<u64>),
    StringArray(Vec<Vec<u8>>),
    HiResTime(i64),
    List(List),
    ListArray(Vec<List>),
    BooleanValue(bool),
    Int8(i8),
    UInt8(u8),
    BooleanArray(Vec<bool>),
    Int8Array(Vec<i8>),
    UInt8Array(Vec<u8>),
    Double(u64),
}

/// A decoded container: its version, its flags, and its pairs by name. No
/// two pairs have the same name.
#[derive(Debug, PartialEq, Eq)]
pub struct List {
    pub version: i32,
    pub flags: u32,
    pub pairs: Vec<(Vec<u8>, Data)>,
}

/// A decoded buffer: what its markers announce, and its container.
#[derive(Debug, PartialEq, Eq)]
pub struct Header {
    pub encoding: Encoding,
    pub endian: Endian,
    pub list: List,
}

/// What a decoded buffer is.
pub struct HeaderView {
    pub encoding: Encoding,
    pub endian: Endian,
    pub list: ListView,
}

/// The map that pairs stand for: each name goes to the value of the last
/// pair of that name.
pub open spec fn pairs_view(pairs: Seq<(Vec<u8>, Data)>) -> Map<Seq<u8>, DataView>
    decreases pairs,
{
    if pairs.len() == 0 {
        Map::empty()
    } else {
        pairs_view(pairs.drop_last()).insert(pairs.last().0@, pairs.last().1@)
    }
}

/// The containers that lists stand for.
pub open spec fn list_views(lists: Seq<List>) -> Seq<ListView>
    decreases lists,
{
    if lists.len() == 0 {
        Seq::empty()
    } else {
        list_views(lists.drop_last()).push(lists.last()@)
    }
}

impl View for Data {
    type V = DataView;

    open spec fn view(&self) -> DataView
        decreases self,
    {
        match self {
            Data::Boolean => DataView::Boolean,
            Data::Byte(n) => DataView::Byte(*n),
            Data::Int16(n) => DataView::Int16(*n),
            Data::UInt16(n) => DataView::UInt16(*n),
            Data::Int32(n) => DataView::Int32(*n),
            Data::UInt32(n) => DataView::UInt32(*n),
            Data::Int64(n) => DataView::Int64(*n),
            Data::UInt64(n) => DataView::UInt64(*n),
            Data::String(v) => DataView::String(v@),
            Data::ByteArray(v) => DataView::ByteArray(v@),
            Data::Int16Array(v) => DataView::Int16Array(v@),
            Data::UInt16Array(v) => DataView::UInt16Array(v@),
            Data::Int32Array(v) => DataView::Int32Array(v@),
            Data::UInt32Array(v) => DataView::UInt32Array(v@),
            Data::Int64Array(v) => DataView::Int64Array(v@),
            Data::UInt64Array(v) => DataView::UInt64Array(v@),
            Data::StringArray(v) => DataView::StringArray(strings_of(v@)),
            Data::HiResTime(n) => DataView::HiResTime(*n),
            Data::List(l) => DataView::List(l@),
            Data::ListArray(v) => DataView::ListArray(list_views(v@)),
            Data::BooleanValue(n) => DataView::BooleanValue(*n),
            Data::Int8(n) => DataView::Int8(*n),
            Data::UInt8(n) => DataView::UInt8(*n),
            Data::BooleanArray(v) => DataView::BooleanArray(v@),
            Data::Int8Array(v) => DataView::Int8Array(v@),
            Data::UInt8Array(v) => DataView::UInt8Array(v@),
            Data::Double(n) => DataView::Double(*n),
        }
    }
}

impl View for List {
    type V = ListView;

    open spec fn view(&self) -> ListView
        decreases self,
    {
        ListView { version: self.version, flags: self.flags, pairs: pairs_view(self.pairs@) }
    }
}

impl View for Header {
    type V = HeaderView;

    open spec fn view(&self) -> HeaderView {
        HeaderView { encoding: self.encoding, endian: self.endian, list: self.list@ }
    }
}

/// Whether no two of the pairs have the same name.
pub open spec fn unique_names(pairs: Seq<(Vec<u8>, Data)>) -> bool {
    forall|i: int, j: int|
        0 <= i < pairs.len() && 0 <= j < pairs.len() && i != j ==> (#[trigger] pairs[i]).0@ != (
        #[trigger] pairs[j]).0@
}

/// Whether in every container of `d`, nested ones included, no two pairs
/// have the same name.
pub open spec fn data_wf(d: Data) -> bool
    decreases d,
{
    match d {
        Data::List(l) => list_wf(l),
        Data::ListArray(v) => forall|i: int| 0 <= i < v@.len() ==> list_wf(#[trigger] v@[i]),
        _ => true,
    }
}

/// Whether in `l` and in every container nested in it no two pairs have the
/// same name.
pub open spec fn list_wf(l: List) -> bool
    decreases l,
{
    unique_names(l.pairs@) && forall|i: int|
        0 <= i < l.pairs@.len() ==> data_wf((#[trigger] l.pairs@[i]).1)
}

/// The value `v` with its containers as maps.
pub open spec fn keyed_value(v: Value) -> DataView
    decreases v,
{
    match v {
        Value::Boolean => DataView::Boolean,
        Value::Byte(v) => DataView::Byte(v),
        Value::Int16(v) => DataView::Int16(v),
        Value::UInt16(v) => DataView::UInt16(v),
        Value::Int32(v) => DataView::Int32(v),
        Value::UInt32(v) => DataView::UInt32(v),
        Value::Int64(v) => DataView::Int64(v),
        Value::UInt64(v) => DataView::UInt64(v),
        Value::String(v) => DataView::String(v),
        Value::ByteArray(v) => DataView::ByteArray(v),
        Value::Int16Array(v) => DataView::Int16Array(v),
        Value::UInt16Array(v) => DataView::UInt16Array(v),
        Value::Int32Array(v) => DataView::Int32Array(v),
        Value::UInt32Array(v) => DataView::UInt32Array(v),
        Value::Int64Array(v) => DataView::Int64Array(v),
        Value::UInt64Array(v) => DataView::UInt64Array(v),
        Value::StringArray(v) => DataView::StringArray(v),
        Value::HiResTime(v) => DataView::HiResTime(v),
        Value::List(l) => DataView::List(
            ListView { version: NV_VERSION, flags: NV_UNIQUE_NAME, pairs: keyed(l) },
        ),
        Value::ListArray(a) => DataView::ListArray(keyed_lists(a)),
        Value::BooleanValue(v) => DataView::BooleanValue(v),
        Value::Int8(v) => DataView::Int8(v),
        Value::UInt8(v) => DataView::UInt8(v),
        Value::BooleanArray(v) => DataView::BooleanArray(v),
        Value::Int8Array(v) => DataView::Int8Array(v),
        Value::UInt8Array(v) => DataView::UInt8Array(v),
        Value::Double(v) => DataView::Double(v),
    }
}

/// The map from names to values that the entries stand for: each name goes
/// to the value of the last entry of that name.
pub open spec fn keyed(entries: Seq<Entry>) -> Map<Seq<u8>, DataView>
    decreases entries,
{
    if entries.len() == 0 {
        Map::empty()
    } else {
        keyed(entries.drop_last()).insert(entries.last().name, keyed_value(entries.last().value))
    }
}

/// The container, with the known version and flags, that the entries stand
/// for.
pub open spec fn keyed_list(entries: Seq<Entry>) -> ListView {
    ListView { version: NV_VERSION, flags: NV_UNIQUE_NAME, pairs: keyed(entries) }
}

/// The containers that a run of entry sequences stands for.
pub open spec fn keyed_lists(a: Seq<Seq<Entry>>) -> Seq<ListView>
    decreases a,
{
    if a.len() == 0 {
        Seq::empty()
    } else {
        keyed_lists(a.drop_last()).push(
            ListView { version: NV_VERSION, flags: NV_UNIQUE_NAME, pairs: keyed(a.last()) },
        )
    }
}

proof fn lemma_pairs_view_unfold(s: Seq<(Vec<u8>, Data)>)
    requires
        s.len() > 0,
    ensures
        pairs_view(s) == pairs_view(s.drop_last()).insert(s.last().0@, s.last().1@),
{
}

proof fn lemma_pairs_view_push(s: Seq<(Vec<u8>, Data)>, e: (Vec<u8>, Data))
    ensures
        pairs_view(s.push(e)) == pairs_view(s).insert(e.0@, e.1@),
{
    assert(s.push(e).drop_last() =~= s);
    lemma_pairs_view_unfold(s.push(e));
}

proof fn lemma_unique_front(s: Seq<(Vec<u8>, Data)>)
    requires
        s.len() > 0,
        unique_names(s),
    ensures
        unique_names(s.drop_last()),
{
    let front = s.drop_last();
    assert forall|a: int, b: int|
        0 <= a < front.len() && 0 <= b < front.len() && a != b implies (#[trigger] front[a]).0@ != (
    #[trigger] front[b]).0@ by {
        assert(front[a] == s[a]);
        assert(front[b] == s[b]);
    }
}

proof fn lemma_pairs_view_update(s: Seq<(Vec<u8>, Data)>, i: int, e: (Vec<u8>, Data))
    requires
        0 <= i < s.len(),
        unique_names(s),
        s[i].0@ == e.0@,
    ensures
        pairs_view(s.update(i, e)) == pairs_view(s).insert(e.0@, e.1@),
        unique_names(s.update(i, e)),
    decreases s.len(),
{
    let t = s.update(i, e);
    assert forall|a: int, b: int| 0 <= a < t.len() && 0 <= b < t.len() && a != b implies (
    #[trigger] t[a]).0@ != (#[trigger] t[b]).0@ by {
        assert(s[a].0@ != s[b].0@);
        assert(t[a].0@ == s[a].0@);
        assert(t[b].0@ == s[b].0@);
    }
    lemma_pairs_view_unfold(s);
    lemma_pairs_view_unfold(t);
    let front = s.drop_last();
    if i == s.len() - 1 {
        assert(t.drop_last() =~= front);
        assert(t.last() == e);
        assert(pairs_view(front).insert(s.last().0@, s.last().1@).insert(e.0@, e.1@)
            =~= pairs_view(front).insert(e.0@, e.1@));
    } else {
        lemma_unique_front(s);
        lemma_pairs_view_update(front, i, e);
        assert(t.drop_last() =~= front.update(i, e));
        assert(t.last() == s.last());
        assert(s[i].0@ != s[s.len() - 1].0@);
        assert(pairs_view(front).insert(e.0@, e.1@).insert(s.last().0@, s.last().1@)
            =~= pairs_view(front).insert(s.last().0@, s.last().1@).insert(e.0@, e.1@));
    }
}

/// A name that no pair has is not in the map of the pairs.
pub proof fn lemma_pairs_view_absent(s: Seq<(Vec<u8>, Data)>, key: Seq<u8>)
    requires
        forall|j: int| 0 <= j < s.len() ==> (#[trigger] s[j]).0@ != key,
    ensures
        !pairs_view(s).contains_key(key),
    decreases s.len(),
{
    if s.len() > 0 {
        lemma_pairs_view_unfold(s);
        let front = s.drop_last();
        assert forall|j: int| 0 <= j < front.len() implies (#[trigger] front[j]).0@ != key by {
            assert(front[j] == s[j]);
        }
        lemma_pairs_view_absent(front, key);
        assert(s[s.len() - 1].0@ != key);
    }
}

/// A name goes to the value of the last pair that has it.
pub proof fn lemma_pairs_view_last(s: Seq<(Vec<u8>, Data)>, key: Seq<u8>, j: int)
    requires
        0 <= j < s.len(),
        s[j].0@ == key,
        forall|k: int| j < k < s.len() ==> (#[trigger] s[k]).0@ != key,
    ensures
        pairs_view(s).contains_key(key),
        pairs_view(s)[key] == s[j].1@,
    decreases s.len(),
{
    lemma_pairs_view_unfold(s);
    if j < s.len() - 1 {
        let front = s.drop_last();
        assert forall|k: int| j < k < front.len() implies (#[trigger] front[k]).0@ != key by {
            assert(front[k] == s[k]);
        }
        assert(front[j] == s[j]);
        lemma_pairs_view_last(front, key, j);
        assert(s[s.len() - 1].0@ != key);
    }
}

/// Puts the pair of `name` and `data` into `pairs`: in place of the pair of
/// that name, or behind the others where there is none.
fn insert(pairs: &mut Vec<(Vec<u8>, Data)>, name: Vec<u8>, data: Data)
    requires
        unique_names(old(pairs)@),
        forall|i: int| 0 <= i < old(pairs)@.len() ==> data_wf((#[trigger] old(pairs)@[i]).1),
        data_wf(data),
    ensures
        unique_names(final(pairs)@),
        forall|i: int| 0 <= i < final(pairs)@.len() ==> data_wf((#[trigger] final(pairs)@[i]).1),
        pairs_view(final(pairs)@) == pairs_view(old(pairs)@).insert(name@, data@),
{
    let mut i: usize = 0;
    while i < pairs.len()
        invariant
            i <= pairs@.len(),
            pairs@ == old(pairs)@,
            unique_names(pairs@),
            data_wf(data),
            forall|j: int| 0 <= j < pairs@.len() ==> data_wf((#[trigger] pairs@[j]).1),
            forall|j: int| 0 <= j < i ==> (#[trigger] pairs@[j]).0@ != name@,
        decreases pairs@.len() - i,
    {
        if bytes_eq(pairs[i].0.as_slice(), name.as_slice()) {
            proof {
                lemma_pairs_view_update(pairs@, i as int, (name, data));
            }
            pairs.set(i, (name, data));
            return ;
        }
        i += 1;
    }
    proof {
        lemma_pairs_view_push(pairs@, (name, data));
        let t = pairs@.push((name, data));
        assert forall|a: int, b: int| 0 <= a < t.len() && 0 <= b < t.len() && a != b implies (
        #[trigger] t[a]).0@ != (#[trigger] t[b]).0@ by {
            if a < pairs@.len() && b < pairs@.len() {
                assert(pairs@[a].0@ != pairs@[b].0@);
            } else if a < pairs@.len() {
                assert(pairs@[a].0@ != name@);
            } else {
                assert(pairs@[b].0@ != name@);
            }
        }
    }
    pairs.push((name, data));
}

/// Copies strings.
fn copy_strings(v: &Vec<Vec<u8>>) -> (r: Vec<Vec<u8>>)
    ensures
        strings_of(r@) == strings_of(v@),
{
    let mut out: Vec<Vec<u8>> = Vec::new();
    let mut i: usize = 0;
    while i < v.len()
        invariant
            i <= v@.len(),
            out@.len() == i,
            forall|j: int| 0 <= j < i ==> out@[j]@ == v@[j]@,
        decreases v@.len() - i,
    {
        out.push(slice_to_vec(v[i].as_slice()));
        i += 1;
    }
    proof {
        assert(strings_of(out@) =~= strings_of(v@));
    }
    out
}

/// Makes the value with its containers as maps.
pub fn data_from(v: &PairValue) -> (d: Data)
    ensures
        d@ == keyed_value(v@),
        data_wf(d),
    decreases v,
{
    match v {
        PairValue::Boolean => Data::Boolean,
        PairValue::Byte(n) => Data::Byte(*n),
        PairValue::Int16(n) => Data::Int16(*n),
        PairValue::UInt16(n) => Data::UInt16(*n),
        PairValue::Int32(n) => Data::Int32(*n),
        PairValue::UInt32(n) => Data::UInt32(*n),
        PairValue::Int64(n) => Data::Int64(*n),
        PairValue::UInt64(n) => Data::UInt64(*n),
        PairValue::String(v) => Data::String(slice_to_vec(v.as_slice())),
        PairValue::ByteArray(v) => Data::ByteArray(slice_to_vec(v.as_slice())),
        PairValue::Int16Array(v) => Data::Int16Array(slice_to_vec(v.as_slice())),
        PairValue::UInt16Array(v) => Data::UInt16Array(slice_to_vec(v.as_slice())),
        PairValue::Int32Array(v) => Data::Int32Array(slice_to_vec(v.as_slice())),
        PairValue::UInt32Array(v) => Data::UInt32Array(slice_to_vec(v.as_slice())),
        PairValue::Int64Array(v) => Data::Int64Array(slice_to_vec(v.as_slice())),
        PairValue::UInt64Array(v) => Data::UInt64Array(slice_to_vec(v.as_slice())),
        PairValue::StringArray(v) => {
            proof {
                lemma_view_string_array(*v);
            }
            Data::StringArray(copy_strings(v))
        },
        PairValue::HiResTime(n) => Data::HiResTime(*n),
        PairValue::List(l) => Data::List(list_from(l)),
        PairValue::ListArray(v) => {
            proof {
                lemma_view_list_array(*v);
            }
            Data::ListArray(lists_from(v))
        },
        PairValue::BooleanValue(n) => Data::BooleanValue(*n),
        PairValue::Int8(n) => Data::Int8(*n),
        PairValue::UInt8(n) => Data::UInt8(*n),
        PairValue::BooleanArray(v) => Data::BooleanArray(slice_to_vec(v.as_slice())),
        PairValue::Int8Array(v) => Data::Int8Array(slice_to_vec(v.as_slice())),
        PairValue::UInt8Array(v) => Data::UInt8Array(slice_to_vec(v.as_slice())),
        PairValue::Double(n) => Data::Double(*n),
    }
}

/// Makes the container as a map, with the known version and flags.
pub fn list_from(l: &PairList) -> (r: List)
    ensures
        r@ == keyed_list(l@),
        list_wf(r),
    decreases l,
{
    let mut pairs: Vec<(Vec<u8>, Data)> = Vec::new();
    let mut i: usize = 0;
    proof {
        lemma_view_pair_list(l.0);
        assert(l@.subrange(0, 0) =~= Seq::<Entry>::empty());
    }
    while i < l.0.len()
        invariant
            i <= l.0@.len(),
            l@ == crate::nvpair::entries_of(l.0@),
            unique_names(pairs@),
            forall|j: int| 0 <= j < pairs@.len() ==> data_wf((#[trigger] pairs@[j]).1),
            pairs_view(pairs@) == keyed(l@.subrange(0, i as int)),
        decreases l.0@.len() - i,
    {
        proof {
            let next = l@.subrange(0, i + 1);
            assert(next.drop_last() =~= l@.subrange(0, i as int));
            assert(next.last() == l.0@[i as int]@);
        }
        let name = slice_to_vec(l.0[i].0.as_slice());
        let data = data_from(&l.0[i].1);
        insert(&mut pairs, name, data);
        i += 1;
    }
    proof {
        assert(l@.subrange(0, l@.len() as int) =~= l@);
    }
    List { version: NV_VERSION, flags: NV_UNIQUE_NAME, pairs }
}

/// Makes the containers as maps.
pub fn lists_from(v: &Vec<PairList>) -> (r: Vec<List>)
    ensures
        list_views(r@) == keyed_lists(lists_of(v@)),
        forall|i: int| 0 <= i < r@.len() ==> list_wf(#[trigger] r@[i]),
    decreases v,
{
    let mut out: Vec<List> = Vec::new();
    let mut i: usize = 0;
    proof {
        assert(lists_of(v@).subrange(0, 0) =~= Seq::<Seq<Entry>>::empty());
    }
    while i < v.len()
        invariant
            i <= v@.len(),
            forall|j: int| 0 <= j < out@.len() ==> list_wf(#[trigger] out@[j]),
            list_views(out@) == keyed_lists(lists_of(v@).subrange(0, i as int)),
        decreases v@.len() - i,
    {
        proof {
            let next = lists_of(v@).subrange(0, i + 1);
            assert(next.drop_last() =~= lists_of(v@).subrange(0, i as int));
            assert(next.last() == v@[i as int]@);
        }
        let ghost before = out@;
        let l = list_from(&v[i]);
        out.push(l);
        proof {
            assert(out@.drop_last() =~= before);
        }
        i += 1;
    }
    proof {
        assert(lists_of(v@).subrange(0, v@.len() as int) =~= lists_of(v@));
    }
    out
}

/// The pairs of one container from the start of `s` up to its terminator,
/// as a map, and the input after the terminator.
pub open spec fn spec_unpack_pairs(s: Seq<u8>) -> Result<
    (Map<Seq<u8>, DataView>, Seq<u8>),
    UnpackError,
> {
    match spec_list(s) {
        Ok((entries, rest)) => Ok((keyed(entries), rest)),
        Err(e) => Err(UnpackError::spec_from(e)),
    }
}

/// One container from the start of `s`, and the input after it. A container
/// that is the value of a pair starts with its pairs and has the known
/// version and flags; the container of a buffer starts with its version and
/// its flags word, which have to be the known ones.
pub open spec fn spec_unpack_list(s: Seq<u8>, embedded: bool) -> Result<
    (ListView, Seq<u8>),
    UnpackError,
> {
    if embedded {
        match spec_unpack_pairs(s) {
            Ok((pairs, rest)) => Ok(
                (ListView { version: NV_VERSION, flags: NV_UNIQUE_NAME, pairs }, rest),
            ),
            Err(e) => Err(e),
        }
    } else {
        match spec_int::<i32>(s) {
            Err(e) => Err(UnpackError::spec_from(e)),
            Ok((version, r1)) => match spec_int::<u32>(r1) {
                Err(e) => Err(UnpackError::spec_from(e)),
                Ok((flags, r2)) => if version != NV_VERSION {
                    Err(UnpackError::UnsupportedVersion(version))
                } else if flags != NV_UNIQUE_NAME {
                    Err(UnpackError::UnsupportedFlags(flags))
                } else {
                    match spec_unpack_pairs(r2) {
                        Ok((pairs, rest)) => Ok((ListView { version, flags, pairs }, rest)),
                        Err(e) => Err(e),
                    }
                },
            },
        }
    }
}

/// The decoded buffer: the markers of the only encoding and byte order that
/// are decoded, and the buffer's container as a map.
pub open spec fn spec_unpack(s: Seq<u8>) -> Result<HeaderView, UnpackError> {
    match spec_parse(s) {
        Ok(entries) => Ok(
            HeaderView {
                encoding: Encoding::Native,
                endian: Endian::Little,
                list: keyed_list(entries),
            },
        ),
        Err(e) => Err(UnpackError::spec_from(e)),
    }
}

/// Reads the pairs of one container from the start of `buf` up to its
/// terminator, and gives them by name with the input after the terminator.
pub fn unpack_pairs<'a>(buf: &'a [u8]) -> (r: Result<
    (Vec<(Vec<u8>, Data)>, &'a [u8]),
    UnpackError,
>)
    ensures
        match r {
            Ok((pairs, rest)) => spec_unpack_pairs(buf@) == Ok::<
                (Map<Seq<u8>, DataView>, Seq<u8>),
                UnpackError,
            >((pairs_view(pairs@), rest@)) && unique_names(pairs@) && forall|i: int|
                0 <= i < pairs@.len() ==> data_wf((#[trigger] pairs@[i]).1),
            Err(e) => spec_unpack_pairs(buf@) == Err::<
                (Map<Seq<u8>, DataView>, Seq<u8>),
                UnpackError,
            >(e),
        },
{
    match Parser::new().parse_nvlist(buf) {
        Ok((l, rest)) => {
            let keyed = list_from(&l);
            Ok((keyed.pairs, rest))
        },
        Err(e) => Err(UnpackError::from(e)),
    }
}

/// Reads one container from the start of `buf` and gives it with the input
/// after it. `embedded` tells that the container is the value of a pair.
pub fn unpack_list<'a>(buf: &'a [u8], embedded: bool) -> (r: Result<(List, &'a [u8]), UnpackError>)
    ensures
        match r {
            Ok((l, rest)) => spec_unpack_list(buf@, embedded) == Ok::<
                (ListView, Seq<u8>),
                UnpackError,
            >((l@, rest@)) && list_wf(l),
            Err(e) => spec_unpack_list(buf@, embedded) == Err::<(ListView, Seq<u8>), UnpackError>(
                e,
            ),
        },
{
    let p = Parser::new();
    let mut version: i32 = NV_VERSION;
    let mut flags: u32 = NV_UNIQUE_NAME;
    let mut pairs_buf: &[u8] = buf;
    if !embedded {
        let (v, r1) = match p.parse_int::<i32>(buf) {
            Ok(x) => x,
            Err(e) => {
                return Err(UnpackError::from(e));
            },
        };
        let (f, r2) = match p.parse_int::<u32>(r1) {
            Ok(x) => x,
            Err(e) => {
                return Err(UnpackError::from(e));
            },
        };
        if v != NV_VERSION {
            return Err(UnpackError::UnsupportedVersion(v));
        }
        if f != NV_UNIQUE_NAME {
            return Err(UnpackError::UnsupportedFlags(f));
        }
        version = v;
        flags = f;
        pairs_buf = r2;
    }
    match unpack_pairs(pairs_buf) {
        Ok((pairs, rest)) => Ok((List { version, flags, pairs }, rest)),
        Err(e) => Err(e),
    }
}

/// Decodes the whole of `buf`.
pub fn unpack(buf: &[u8]) -> (r: Result<Header, UnpackError>)
    ensures
        match r {
            Ok(h) => spec_unpack(buf@) == Ok::<HeaderView, UnpackError>(h@) && list_wf(h.list),
            Err(e) => spec_unpack(buf@) == Err::<HeaderView, UnpackError>(e),
        },
{
    if buf.len() < 1 {
        return Err(UnpackError::ShortRead);
    }
    let encoding = match buf[0] {
        0 => Encoding::Native,
        _ => {
            return Err(UnpackError::InvalidEncoding);
        },
    };
    if buf.len() < 2 {
        return Err(UnpackError::ShortRead);
    }
    let endian = match buf[1] {
        1 => Endian::Little,
        _ => {
            return Err(UnpackError::InvalidEndian);
        },
    };
    if buf.len() < 4 {
        return Err(UnpackError::ShortRead);
    }
    match unpack_list(vstd::slice::slice_subrange(buf, 4, buf.len()), false) {
        Ok((list, _)) => Ok(Header { encoding, endian, list }),
        Err(e) => Err(e),
    }
}

impl List {
    /// Whether no two pairs have the same name, here and in every nested
    /// container. Every decoded container is so.
    pub open spec fn wf(&self) -> bool {
        list_wf(*self)
    }

    /// The number of pairs.
    pub fn len(&self) -> (r: usize)
        ensures
            r == self.pairs@.len(),
    {
        self.pairs.len()
    }

    /// The value of the name `key`.
    pub fn get(&self, key: &[u8]) -> (r: Option<&Data>)
        ensures
            match r {
                Some(d) => self@.pairs.contains_key(key@) && self@.pairs[key@] == d@,
                None => !self@.pairs.contains_key(key@),
            },
    {
        let mut i: usize = self.pairs.len();
        while i > 0
            invariant
                i <= self.pairs@.len(),
                forall|k: int| i <= k < self.pairs@.len() ==> (#[trigger] self.pairs@[k]).0@ != key@,
            decreases i,
        {
            i -= 1;
            if bytes_eq(self.pairs[i].0.as_slice(), key) {
                proof {
                    lemma_pairs_view_last(self.pairs@, key@, i as int);
                }
                return Some(&self.pairs[i].1);
            }
        }
        proof {
            lemma_pairs_view_absent(self.pairs@, key@);
        }
        None
    }

    /// The names of the pairs.
    pub fn keys(&self) -> (r: Vec<Vec<u8>>)
        ensures
            r@.len() == self.pairs@.len(),
            forall|i: int| 0 <= i < r@.len() ==> r@[i]@ == (#[trigger] self.pairs@[i]).0@,
    {
        let mut names: Vec<Vec<u8>> = Vec::new();
        let mut i: usize = 0;
        while i < self.pairs.len()
            invariant
                i <= self.pairs@.len(),
                names@.len() == i,
                forall|j: int| 0 <= j < i ==> names@[j]@ == (#[trigger] self.pairs@[j]).0@,
            decreases self.pairs@.len() - i,
        {
            names.push(slice_to_vec(self.pairs[i].0.as_slice()));
            i += 1;
        }
        names
    }
}

/// The two views of a decoded buffer agree: a name is in the map exactly
/// where an entry has it.
pub proof fn lemma_keyed_names(entries: Seq<Entry>, key: Seq<u8>)
    ensures
        keyed(entries).contains_key(key) <==> exists|i: int|
            0 <= i < entries.len() && (#[trigger] entries[i]).name == key,
    decreases entries.len(),
{
    if entries.len() > 0 {
        let front = entries.drop_last();
        lemma_keyed_names(front, key);
        if entries.last().name == key {
            assert(entries[entries.len() - 1].name == key);
        } else {
            if keyed(entries).contains_key(key) {
                let i = choose|i: int| 0 <= i < front.len() && (#[trigger] front[i]).name == key;
                assert(entries[i].name == key);
            }
            if exists|i: int| 0 <= i < entries.len() && (#[trigger] entries[i]).name == key {
                let i = choose|i: int|
                    0 <= i < entries.len() && (#[trigger] entries[i]).name == key;
                assert(front[i].name == key);
            }
        }
    }
}

} // verus!
