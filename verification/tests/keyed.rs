use veneer::nvlist::{
    data_from, list_from, unpack, unpack_list, unpack_pairs, Data, Encoding, Endian, Header, List,
    UnpackError,
};
use veneer::nvpair::{Pair, PairList, PairValue, ParseError};

fn pair_bytes(name: &[u8], nelems: i32, tag: i32, value: &[u8]) -> Vec<u8> {
    let mut region: Vec<u8> = Vec::new();
    region.extend_from_slice(&((name.len() + 1) as i16).to_le_bytes());
    region.extend_from_slice(&0i16.to_le_bytes());
    region.extend_from_slice(&nelems.to_le_bytes());
    region.extend_from_slice(&tag.to_le_bytes());
    region.extend_from_slice(name);
    region.push(0);
    while region.len() % 8 != 4 {
        region.push(0);
    }
    region.extend_from_slice(value);
    let mut out: Vec<u8> = Vec::new();
    out.extend_from_slice(&((region.len() + 4) as i32).to_le_bytes());
    out.extend_from_slice(&region);
    out
}

fn with_header(pairs: &[u8]) -> Vec<u8> {
    let mut out: Vec<u8> = vec![0, 1, 0, 0];
    out.extend_from_slice(&0i32.to_le_bytes());
    out.extend_from_slice(&1u32.to_le_bytes());
    out.extend_from_slice(pairs);
    out
}

fn sample() -> Vec<u8> {
    let mut body = pair_bytes(b"guid", 1, 8, &7u64.to_le_bytes());
    body.extend_from_slice(&pair_bytes(b"tree", 1, 19, &[]));
    body.extend_from_slice(&pair_bytes(b"name", 1, 9, b"tank\0\0\0\0"));
    body.extend_from_slice(&[0, 0, 0, 0]);
    body.extend_from_slice(&pair_bytes(b"guid", 1, 8, &8u64.to_le_bytes()));
    body.extend_from_slice(&[0, 0, 0, 0]);
    body
}

#[test]
fn unpack_gives_markers_version_flags_and_pairs_by_name() {
    let h = unpack(&with_header(&sample())).unwrap();
    assert_eq!(h.encoding, Encoding::Native);
    assert_eq!(h.endian, Endian::Little);
    assert_eq!(h.list.version, 0);
    assert_eq!(h.list.flags, 1);
    assert_eq!(h.list.len(), 2);
    assert_eq!(h.list.get(b"guid"), Some(&Data::UInt64(8)));
    assert_eq!(h.list.get(b"missing"), None);
    assert_eq!(h.list.keys(), vec![b"guid".to_vec(), b"tree".to_vec()]);
    match h.list.get(b"tree") {
        Some(Data::List(l)) => {
            assert_eq!(l.version, 0);
            assert_eq!(l.flags, 1);
            assert_eq!(l.get(b"name"), Some(&Data::String(b"tank".to_vec())));
            assert_eq!(l.len(), 1);
        }
        other => panic!("no container: {:?}", other),
    }
}

#[test]
fn unpack_reports_what_parse_reports() {
    assert_eq!(unpack(&[]), Err(UnpackError::ShortRead));
    assert_eq!(unpack(&[1, 1, 0, 0]), Err(UnpackError::InvalidEncoding));
    assert_eq!(unpack(&[9]), Err(UnpackError::InvalidEncoding));
    assert_eq!(unpack(&[0, 0, 0, 0]), Err(UnpackError::InvalidEndian));
    assert_eq!(unpack(&[0, 1, 0, 0]), Err(UnpackError::ShortRead));
    assert_eq!(
        unpack(&[0, 1, 0, 0, 2, 0, 0, 0, 1, 0, 0, 0, 0, 0, 0, 0]),
        Err(UnpackError::UnsupportedVersion(2))
    );
    assert_eq!(
        unpack(&[0, 1, 0, 0, 0, 0, 0, 0, 2, 0, 0, 0, 0, 0, 0, 0]),
        Err(UnpackError::UnsupportedFlags(2))
    );
    let mut body = pair_bytes(b"odd", 1, 99, &[]);
    body.extend_from_slice(&[0, 0, 0, 0]);
    assert_eq!(unpack(&with_header(&body)), Err(UnpackError::UnknownPairType(99)));
    let mut body = pair_bytes(b"s", 1, 9, b"abcdefgh");
    body.extend_from_slice(&[0, 0, 0, 0]);
    assert_eq!(unpack(&with_header(&body)), Err(UnpackError::UnterminatedString));
    assert_eq!(
        unpack(&with_header(&[0, 0, 0, 0])),
        Ok(Header {
            encoding: Encoding::Native,
            endian: Endian::Little,
            list: List { version: 0, flags: 1, pairs: vec![] },
        })
    );
}

#[test]
fn unpack_pairs_and_lists_thread_the_rest() {
    let mut bytes = sample();
    bytes.extend_from_slice(&[1, 2, 3]);
    let (pairs, rest) = unpack_pairs(&bytes).unwrap();
    assert_eq!(pairs.len(), 2);
    assert_eq!(pairs[0], (b"guid".to_vec(), Data::UInt64(8)));
    assert_eq!(rest, &[1u8, 2, 3][..]);
    let (l, rest) = unpack_list(&bytes, true).unwrap();
    assert_eq!(l.version, 0);
    assert_eq!(l.flags, 1);
    assert_eq!(l.len(), 2);
    assert_eq!(rest, &[1u8, 2, 3][..]);
    let whole = with_header(&bytes);
    let (l, rest) = unpack_list(&whole[4..], false).unwrap();
    assert_eq!(l.len(), 2);
    assert_eq!(rest, &[1u8, 2, 3][..]);
    assert_eq!(unpack_list(&[0, 0, 0], false).err(), Some(UnpackError::ShortRead));
    assert_eq!(
        unpack_list(&[1, 0, 0, 0, 1, 0, 0, 0, 0, 0, 0, 0], false).err(),
        Some(UnpackError::UnsupportedVersion(1))
    );
    assert_eq!(unpack_pairs(&[4, 0, 0]).err(), Some(UnpackError::ShortRead));
}

#[test]
fn a_later_pair_takes_the_place_of_an_earlier_one_of_its_name() {
    let l = list_from(&PairList(vec![
        Pair(b"a".to_vec(), PairValue::UInt64(1)),
        Pair(b"b".to_vec(), PairValue::Boolean),
        Pair(b"a".to_vec(), PairValue::String(b"x".to_vec())),
        Pair(b"c".to_vec(), PairValue::Int8(-1)),
        Pair(b"b".to_vec(), PairValue::UInt64(2)),
    ]));
    assert_eq!(
        l,
        List {
            version: 0,
            flags: 1,
            pairs: vec![
                (b"a".to_vec(), Data::String(b"x".to_vec())),
                (b"b".to_vec(), Data::UInt64(2)),
                (b"c".to_vec(), Data::Int8(-1)),
            ],
        }
    );
    assert_eq!(l.get(b"a"), Some(&Data::String(b"x".to_vec())));
    assert_eq!(l.get(b"b"), Some(&Data::UInt64(2)));
    assert_eq!(l.get(b"c"), Some(&Data::Int8(-1)));
    assert_eq!(l.get(b"d"), None);
}

#[test]
fn values_keep_their_kind() {
    assert_eq!(data_from(&PairValue::Boolean), Data::Boolean);
    assert_eq!(data_from(&PairValue::Byte(1)), Data::Byte(1));
    assert_eq!(data_from(&PairValue::Int16(-1)), Data::Int16(-1));
    assert_eq!(data_from(&PairValue::UInt16(1)), Data::UInt16(1));
    assert_eq!(data_from(&PairValue::Int32(-1)), Data::Int32(-1));
    assert_eq!(data_from(&PairValue::UInt32(1)), Data::UInt32(1));
    assert_eq!(data_from(&PairValue::Int64(-1)), Data::Int64(-1));
    assert_eq!(data_from(&PairValue::UInt64(1)), Data::UInt64(1));
    assert_eq!(data_from(&PairValue::String(b"s".to_vec())), Data::String(b"s".to_vec()));
    assert_eq!(data_from(&PairValue::ByteArray(vec![1])), Data::ByteArray(vec![1]));
    assert_eq!(data_from(&PairValue::Int16Array(vec![-1])), Data::Int16Array(vec![-1]));
    assert_eq!(data_from(&PairValue::UInt16Array(vec![1])), Data::UInt16Array(vec![1]));
    assert_eq!(data_from(&PairValue::Int32Array(vec![-1])), Data::Int32Array(vec![-1]));
    assert_eq!(data_from(&PairValue::UInt32Array(vec![1])), Data::UInt32Array(vec![1]));
    assert_eq!(data_from(&PairValue::Int64Array(vec![-1])), Data::Int64Array(vec![-1]));
    assert_eq!(data_from(&PairValue::UInt64Array(vec![1])), Data::UInt64Array(vec![1]));
    assert_eq!(
        data_from(&PairValue::StringArray(vec![b"a".to_vec(), b"b".to_vec()])),
        Data::StringArray(vec![b"a".to_vec(), b"b".to_vec()])
    );
    assert_eq!(data_from(&PairValue::HiResTime(5)), Data::HiResTime(5));
    assert_eq!(data_from(&PairValue::BooleanValue(true)), Data::BooleanValue(true));
    assert_eq!(data_from(&PairValue::Int8(-1)), Data::Int8(-1));
    assert_eq!(data_from(&PairValue::UInt8(1)), Data::UInt8(1));
    assert_eq!(data_from(&PairValue::BooleanArray(vec![true])), Data::BooleanArray(vec![true]));
    assert_eq!(data_from(&PairValue::Int8Array(vec![-1])), Data::Int8Array(vec![-1]));
    assert_eq!(data_from(&PairValue::UInt8Array(vec![1])), Data::UInt8Array(vec![1]));
    assert_eq!(data_from(&PairValue::Double(7)), Data::Double(7));
    let inner = PairList(vec![Pair(b"k".to_vec(), PairValue::UInt64(1))]);
    let keyed = List { version: 0, flags: 1, pairs: vec![(b"k".to_vec(), Data::UInt64(1))] };
    assert_eq!(
        data_from(&PairValue::ListArray(vec![inner, PairList(vec![])])),
        Data::ListArray(vec![keyed, List { version: 0, flags: 1, pairs: vec![] }])
    );
}

#[test]
fn unpack_error_texts() {
    assert_eq!(UnpackError::InvalidEncoding.description(), "invalid encoding");
    assert_eq!(UnpackError::InvalidEndian.description(), "invalid endian");
    assert_eq!(UnpackError::ShortRead.description(), "short read");
    assert_eq!(UnpackError::UnterminatedString.description(), "unterminated string");
    assert_eq!(UnpackError::UnknownPairType(1).description(), "unknown pair type");
    assert_eq!(UnpackError::UnsupportedVersion(1).description(), "unsupported version");
    assert_eq!(UnpackError::UnsupportedFlags(1).description(), "unsupported flags");
    assert_eq!(UnpackError::InvalidEncoding.to_string(), "InvalidEncoding");
    assert_eq!(UnpackError::InvalidEndian.to_string(), "InvalidEndian");
    assert_eq!(UnpackError::ShortRead.to_string(), "ShortRead");
    assert_eq!(UnpackError::UnterminatedString.to_string(), "UnterminatedStringValue");
    assert_eq!(UnpackError::UnknownPairType(1).to_string(), "UnknownPairType");
    assert_eq!(UnpackError::UnsupportedVersion(1).to_string(), "UnsupportedVersion");
    assert_eq!(UnpackError::UnsupportedFlags(1).to_string(), "UnsupportedFlags");
    assert_eq!(UnpackError::from(ParseError::ShortRead), UnpackError::ShortRead);
    assert_eq!(UnpackError::from(ParseError::UnknownPairType(5)), UnpackError::UnknownPairType(5));
    assert_eq!(UnpackError::from(ParseError::InvalidEncoding), UnpackError::InvalidEncoding);
    assert_eq!(UnpackError::from(ParseError::InvalidEndian), UnpackError::InvalidEndian);
    assert_eq!(
        UnpackError::from(ParseError::UnterminatedString),
        UnpackError::UnterminatedString
    );
    assert_eq!(
        UnpackError::from(ParseError::UnsupportedVersion(5)),
        UnpackError::UnsupportedVersion(5)
    );
    assert_eq!(UnpackError::from(ParseError::UnsupportedFlags(5)), UnpackError::UnsupportedFlags(5));
}
