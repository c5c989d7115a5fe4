use veneer::nvpair::{
    parse, Encoding, Endian, Pair, PairList, PairType, PairValue, ParseError, Parser,
};
use veneer::wire::{align, bytes_eq, checked_align, find_nul, is_nul_free};

fn padded(bytes: &[u8]) -> Vec<u8> {
    let mut out = bytes.to_vec();
    while out.len() % 8 != 0 {
        out.push(0);
    }
    out
}

fn pair_bytes(name: &[u8], nelems: i32, tag: i32, value: &[u8]) -> Vec<u8> {
    let mut region: Vec<u8> = Vec::new();
    region.extend_from_slice(&((name.len() + 1) as i16).to_le_bytes());
    region.extend_from_slice(&0i16.to_le_bytes());
    region.extend_from_slice(&nelems.to_le_bytes());
    region.extend_from_slice(&tag.to_le_bytes());
    let mut text = name.to_vec();
    text.push(0);
    region.extend_from_slice(&padded(&text));
    region.extend_from_slice(value);
    let mut out: Vec<u8> = Vec::new();
    out.extend_from_slice(&((region.len() + 4) as i32).to_le_bytes());
    out.extend_from_slice(&region);
    out
}

fn end_of_list() -> Vec<u8> {
    vec![0, 0, 0, 0]
}

fn with_header(pairs: &[u8]) -> Vec<u8> {
    let mut out: Vec<u8> = vec![0, 1, 0, 0];
    out.extend_from_slice(&0i32.to_le_bytes());
    out.extend_from_slice(&1u32.to_le_bytes());
    out.extend_from_slice(pairs);
    out
}

fn one_pair(name: &[u8], nelems: i32, tag: i32, value: &[u8]) -> Result<PairList, ParseError> {
    let mut body = pair_bytes(name, nelems, tag, value);
    body.extend_from_slice(&end_of_list());
    parse(&with_header(&body))
}

fn value_of(nelems: i32, tag: i32, value: &[u8]) -> Result<PairValue, ParseError> {
    one_pair(b"v", nelems, tag, value).map(|mut l| l.0.remove(0).1)
}

#[test]
fn uint64_pair_decodes_to_42() {
    let list = one_pair(b"n", 1, 8, &[0x2a, 0, 0, 0, 0, 0, 0, 0]).unwrap();
    assert_eq!(list, PairList(vec![Pair(b"n".to_vec(), PairValue::UInt64(42))]));
    assert_eq!(list.get_u64(b"n"), Some(42));
}

#[test]
fn string_pair_decodes_to_hi() {
    let list = one_pair(b"greeting", 1, 9, &padded(&[0x68, 0x69, 0x00])).unwrap();
    assert_eq!(
        list,
        PairList(vec![Pair(b"greeting".to_vec(), PairValue::String(b"hi".to_vec()))])
    );
    assert_eq!(list.get_c_string(b"greeting"), Some(b"hi".to_vec()));
}

#[test]
fn uint64_array_pair_decodes_to_1_2_3() {
    let mut payload: Vec<u8> = Vec::new();
    for n in [1u64, 2, 3] {
        payload.extend_from_slice(&n.to_le_bytes());
    }
    assert_eq!(payload.len(), 24);
    let list = one_pair(b"stats", 3, 16, &payload).unwrap();
    assert_eq!(
        list,
        PairList(vec![Pair(b"stats".to_vec(), PairValue::UInt64Array(vec![1, 2, 3]))])
    );
    assert_eq!(list.get_u64_slice(b"stats"), Some(&[1u64, 2, 3][..]));
}

#[test]
fn unknown_tag_is_reported() {
    let mut body = pair_bytes(b"ok", 1, 8, &[1, 0, 0, 0, 0, 0, 0, 0]);
    body.extend_from_slice(&pair_bytes(b"odd", 1, 99, &[0; 8]));
    body.extend_from_slice(&end_of_list());
    assert_eq!(parse(&with_header(&body)), Err(ParseError::UnknownPairType(99)));
    assert_eq!(value_of(1, 0, &[0; 8]), Err(ParseError::UnknownPairType(0)));
    assert_eq!(value_of(1, 28, &[0; 8]), Err(ParseError::UnknownPairType(28)));
    assert_eq!(value_of(1, -1, &[0; 8]), Err(ParseError::UnknownPairType(-1)));
}

#[test]
fn nested_container_is_read_after_the_bounded_region() {
    let mut body = pair_bytes(b"child", 1, 19, &[0xde, 0xad, 0xbe, 0xef, 0xde, 0xad, 0xbe, 0xef]);
    body.extend_from_slice(&end_of_list());
    body.extend_from_slice(&end_of_list());
    let list = parse(&with_header(&body)).unwrap();
    assert_eq!(
        list,
        PairList(vec![Pair(b"child".to_vec(), PairValue::List(PairList(vec![])))])
    );
}

#[test]
fn nested_container_holds_its_pairs_and_siblings_follow() {
    let mut body = pair_bytes(b"tree", 1, 19, &[]);
    body.extend_from_slice(&pair_bytes(b"guid", 1, 8, &7u64.to_le_bytes()));
    body.extend_from_slice(&end_of_list());
    body.extend_from_slice(&pair_bytes(b"after", 1, 8, &9u64.to_le_bytes()));
    body.extend_from_slice(&end_of_list());
    let list = parse(&with_header(&body)).unwrap();
    assert_eq!(
        list,
        PairList(vec![
            Pair(
                b"tree".to_vec(),
                PairValue::List(PairList(vec![Pair(b"guid".to_vec(), PairValue::UInt64(7))]))
            ),
            Pair(b"after".to_vec(), PairValue::UInt64(9)),
        ])
    );
    assert_eq!(list.get_list(b"tree").unwrap().get_u64(b"guid"), Some(7));
}

#[test]
fn container_array_is_read_back_to_back() {
    let mut body = pair_bytes(b"children", 2, 20, &[]);
    body.extend_from_slice(&pair_bytes(b"guid", 1, 8, &1u64.to_le_bytes()));
    body.extend_from_slice(&end_of_list());
    body.extend_from_slice(&end_of_list());
    body.extend_from_slice(&pair_bytes(b"last", 1, 1, &[]));
    body.extend_from_slice(&end_of_list());
    let list = parse(&with_header(&body)).unwrap();
    assert_eq!(
        list,
        PairList(vec![
            Pair(
                b"children".to_vec(),
                PairValue::ListArray(vec![
                    PairList(vec![Pair(b"guid".to_vec(), PairValue::UInt64(1))]),
                    PairList(vec![]),
                ])
            ),
            Pair(b"last".to_vec(), PairValue::Boolean),
        ])
    );
    assert_eq!(list.get_list_slice(b"children").unwrap().len(), 2);
}

#[test]
fn container_array_of_no_elements_is_empty() {
    assert_eq!(value_of(0, 20, &[]), Ok(PairValue::ListArray(vec![])));
    assert_eq!(value_of(-3, 20, &[]), Ok(PairValue::ListArray(vec![])));
}

#[test]
fn marker_errors() {
    assert_eq!(parse(&[1, 1, 0, 0, 0, 0, 0, 0, 1, 0, 0, 0, 0, 0, 0, 0]), Err(ParseError::InvalidEncoding));
    assert_eq!(parse(&[7]), Err(ParseError::InvalidEncoding));
    assert_eq!(parse(&[0xff, 0xff]), Err(ParseError::InvalidEncoding));
    assert_eq!(parse(&[0, 0, 0, 0, 0, 0, 0, 0, 1, 0, 0, 0, 0, 0, 0, 0]), Err(ParseError::InvalidEndian));
    assert_eq!(parse(&[0, 2]), Err(ParseError::InvalidEndian));
}

#[test]
fn short_buffers_are_short_reads() {
    assert_eq!(parse(&[]), Err(ParseError::ShortRead));
    assert_eq!(parse(&[0]), Err(ParseError::ShortRead));
    assert_eq!(parse(&[0, 1]), Err(ParseError::ShortRead));
    assert_eq!(parse(&[0, 1, 0]), Err(ParseError::ShortRead));
    assert_eq!(parse(&[0, 1, 0, 0]), Err(ParseError::ShortRead));
    assert_eq!(parse(&[0, 1, 0, 0, 0, 0, 0, 0, 1, 0, 0]), Err(ParseError::ShortRead));
    assert_eq!(parse(&with_header(&[])), Err(ParseError::ShortRead));
    assert_eq!(parse(&with_header(&[0, 0, 0])), Err(ParseError::ShortRead));
}

#[test]
fn version_and_flags_are_checked() {
    let mut buf: Vec<u8> = vec![0, 1, 0, 0];
    buf.extend_from_slice(&1i32.to_le_bytes());
    buf.extend_from_slice(&1u32.to_le_bytes());
    buf.extend_from_slice(&end_of_list());
    assert_eq!(parse(&buf), Err(ParseError::UnsupportedVersion(1)));
    let mut buf: Vec<u8> = vec![0, 1, 0, 0];
    buf.extend_from_slice(&0i32.to_le_bytes());
    buf.extend_from_slice(&3u32.to_le_bytes());
    buf.extend_from_slice(&end_of_list());
    assert_eq!(parse(&buf), Err(ParseError::UnsupportedFlags(3)));
    let mut buf: Vec<u8> = vec![0, 1, 0, 0];
    buf.extend_from_slice(&5i32.to_le_bytes());
    buf.extend_from_slice(&[1, 0]);
    assert_eq!(parse(&buf), Err(ParseError::ShortRead));
}

#[test]
fn empty_container_decodes() {
    assert_eq!(parse(&with_header(&end_of_list())), Ok(PairList(vec![])));
}

#[test]
fn zero_length_ends_the_container_wherever_it_stands() {
    let mut body = pair_bytes(b"a", 1, 8, &1u64.to_le_bytes());
    body.extend_from_slice(&end_of_list());
    body.extend_from_slice(&pair_bytes(b"b", 1, 8, &2u64.to_le_bytes()));
    body.extend_from_slice(&end_of_list());
    let list = parse(&with_header(&body)).unwrap();
    assert_eq!(list, PairList(vec![Pair(b"a".to_vec(), PairValue::UInt64(1))]));
    let p = Parser::new();
    let (l, rest) = p.parse_nvlist(&[0, 0, 0, 0, 9, 9]).unwrap();
    assert_eq!(l, PairList(vec![]));
    assert_eq!(rest, &[9u8, 9][..]);
    let (none, rest) = p.parse_pair(&[0, 0, 0, 0, 5]).unwrap();
    assert_eq!(none, None);
    assert_eq!(rest, &[5u8][..]);
}

#[test]
fn bad_total_lengths_are_short_reads() {
    for len in [1i32, 2, 3, -1, i32::MIN, 100, i32::MAX] {
        let mut body: Vec<u8> = Vec::new();
        body.extend_from_slice(&len.to_le_bytes());
        body.extend_from_slice(&[0; 16]);
        assert_eq!(parse(&with_header(&body)), Err(ParseError::ShortRead));
    }
    // a region too short for the header
    let mut body: Vec<u8> = Vec::new();
    body.extend_from_slice(&12i32.to_le_bytes());
    body.extend_from_slice(&[0; 8]);
    body.extend_from_slice(&end_of_list());
    assert_eq!(parse(&with_header(&body)), Err(ParseError::ShortRead));
}

#[test]
fn names_need_their_nul_and_their_padding() {
    // twelve bytes of header and a name without NUL
    let mut body: Vec<u8> = Vec::new();
    body.extend_from_slice(&(4i32 + 12 + 8).to_le_bytes());
    body.extend_from_slice(&[9, 0, 0, 0, 1, 0, 0, 0, 8, 0, 0, 0]);
    body.extend_from_slice(b"abcdefgh");
    body.extend_from_slice(&end_of_list());
    assert_eq!(parse(&with_header(&body)), Err(ParseError::UnterminatedString));
    // a name with its NUL and no padding
    let mut body: Vec<u8> = Vec::new();
    body.extend_from_slice(&(4i32 + 12 + 3).to_le_bytes());
    body.extend_from_slice(&[3, 0, 0, 0, 1, 0, 0, 0, 1, 0, 0, 0]);
    body.extend_from_slice(b"ab\0");
    body.extend_from_slice(&end_of_list());
    assert_eq!(parse(&with_header(&body)), Err(ParseError::ShortRead));
}

#[test]
fn name_ends_at_its_nul_whatever_the_name_length_says() {
    let mut body = pair_bytes(b"abc", 1, 1, &[]);
    body[4] = 77;
    body.extend_from_slice(&end_of_list());
    assert_eq!(
        parse(&with_header(&body)),
        Ok(PairList(vec![Pair(b"abc".to_vec(), PairValue::Boolean)]))
    );
}

#[test]
fn name_errors_come_before_tag_errors_and_tag_errors_before_value_errors() {
    let mut body: Vec<u8> = Vec::new();
    body.extend_from_slice(&(4i32 + 12 + 8).to_le_bytes());
    body.extend_from_slice(&[9, 0, 0, 0, 1, 0, 0, 0, 99, 0, 0, 0]);
    body.extend_from_slice(b"abcdefgh");
    assert_eq!(parse(&with_header(&body)), Err(ParseError::UnterminatedString));
    assert_eq!(value_of(1, 99, &[]), Err(ParseError::UnknownPairType(99)));
    assert_eq!(value_of(1, 8, &[]), Err(ParseError::ShortRead));
}

#[test]
fn scalars_of_every_width_decode() {
    assert_eq!(value_of(0, 1, &[]), Ok(PairValue::Boolean));
    assert_eq!(value_of(1, 2, &[0xfe]), Ok(PairValue::Byte(0xfe)));
    assert_eq!(value_of(1, 3, &[0xfe, 0xff]), Ok(PairValue::Int16(-2)));
    assert_eq!(value_of(1, 4, &[0xfe, 0xff]), Ok(PairValue::UInt16(0xfffe)));
    assert_eq!(value_of(1, 5, &[0xfe, 0xff, 0xff, 0xff]), Ok(PairValue::Int32(-2)));
    assert_eq!(value_of(1, 6, &[0x78, 0x56, 0x34, 0x12]), Ok(PairValue::UInt32(0x12345678)));
    assert_eq!(value_of(1, 7, &(-5i64).to_le_bytes()), Ok(PairValue::Int64(-5)));
    assert_eq!(
        value_of(1, 8, &[0x08, 0x07, 0x06, 0x05, 0x04, 0x03, 0x02, 0x01]),
        Ok(PairValue::UInt64(0x0102030405060708))
    );
    assert_eq!(value_of(1, 18, &i64::MIN.to_le_bytes()), Ok(PairValue::HiResTime(i64::MIN)));
    assert_eq!(value_of(1, 21, &[0, 0, 0, 0]), Ok(PairValue::BooleanValue(false)));
    assert_eq!(value_of(1, 21, &[0, 1, 0, 0]), Ok(PairValue::BooleanValue(true)));
    assert_eq!(value_of(1, 22, &[0x80]), Ok(PairValue::Int8(-128)));
    assert_eq!(value_of(1, 23, &[0x80]), Ok(PairValue::UInt8(128)));
    assert_eq!(
        value_of(1, 27, &1.5f64.to_le_bytes()),
        Ok(PairValue::Double(1.5f64.to_bits()))
    );
}

#[test]
fn scalars_that_do_not_fit_are_short_reads() {
    assert_eq!(value_of(1, 2, &[]), Err(ParseError::ShortRead));
    assert_eq!(value_of(1, 3, &[1]), Err(ParseError::ShortRead));
    assert_eq!(value_of(1, 5, &[1, 2, 3]), Err(ParseError::ShortRead));
    assert_eq!(value_of(1, 8, &[1, 2, 3, 4, 5, 6, 7]), Err(ParseError::ShortRead));
    assert_eq!(value_of(1, 21, &[1, 2, 3]), Err(ParseError::ShortRead));
    assert_eq!(value_of(1, 27, &[1, 2, 3, 4]), Err(ParseError::ShortRead));
}

#[test]
fn arrays_of_every_width_decode() {
    assert_eq!(value_of(3, 10, &[1, 2, 3]), Ok(PairValue::ByteArray(vec![1, 2, 3])));
    assert_eq!(value_of(2, 11, &[0xff, 0xff, 1, 0]), Ok(PairValue::Int16Array(vec![-1, 1])));
    assert_eq!(value_of(2, 12, &[0xff, 0xff, 1, 0]), Ok(PairValue::UInt16Array(vec![0xffff, 1])));
    assert_eq!(
        value_of(2, 13, &[0xff, 0xff, 0xff, 0xff, 2, 0, 0, 0]),
        Ok(PairValue::Int32Array(vec![-1, 2]))
    );
    assert_eq!(
        value_of(2, 14, &[0xff, 0xff, 0xff, 0xff, 2, 0, 0, 0]),
        Ok(PairValue::UInt32Array(vec![u32::MAX, 2]))
    );
    let mut words: Vec<u8> = Vec::new();
    words.extend_from_slice(&(-1i64).to_le_bytes());
    words.extend_from_slice(&2i64.to_le_bytes());
    assert_eq!(value_of(2, 15, &words), Ok(PairValue::Int64Array(vec![-1, 2])));
    assert_eq!(value_of(2, 16, &words), Ok(PairValue::UInt64Array(vec![u64::MAX, 2])));
    assert_eq!(
        value_of(3, 24, &[0, 0, 0, 0, 1, 0, 0, 0, 0, 0, 0, 0x80]),
        Ok(PairValue::BooleanArray(vec![false, true, true]))
    );
    assert_eq!(value_of(2, 25, &[0xff, 1]), Ok(PairValue::Int8Array(vec![-1, 1])));
    assert_eq!(value_of(2, 26, &[0xff, 1]), Ok(PairValue::UInt8Array(vec![255, 1])));
}

#[test]
fn arrays_take_their_element_count() {
    assert_eq!(value_of(0, 16, &[1, 2, 3]), Ok(PairValue::UInt64Array(vec![])));
    assert_eq!(value_of(-1, 16, &[1, 2, 3]), Ok(PairValue::UInt64Array(vec![])));
    assert_eq!(value_of(1, 16, &[0; 16]), Ok(PairValue::UInt64Array(vec![0])));
    assert_eq!(value_of(3, 16, &[0; 16]), Err(ParseError::ShortRead));
    assert_eq!(value_of(i32::MAX, 10, &[0; 16]), Err(ParseError::ShortRead));
}

#[test]
fn string_arrays_are_padded_strings_back_to_back() {
    let mut payload = padded(b"one\0");
    payload.extend_from_slice(&padded(b"a longer one\0"));
    payload.extend_from_slice(&padded(b"\0"));
    assert_eq!(
        value_of(3, 17, &payload),
        Ok(PairValue::StringArray(vec![b"one".to_vec(), b"a longer one".to_vec(), vec![]]))
    );
    assert_eq!(value_of(4, 17, &payload), Err(ParseError::UnterminatedString));
    assert_eq!(value_of(1, 17, b"abc"), Err(ParseError::UnterminatedString));
    assert_eq!(value_of(1, 17, b"abc\0"), Err(ParseError::ShortRead));
}

#[test]
fn string_values_need_their_nul_and_their_padding() {
    assert_eq!(value_of(1, 9, b"abcdefgh"), Err(ParseError::UnterminatedString));
    assert_eq!(value_of(1, 9, &[]), Err(ParseError::UnterminatedString));
    assert_eq!(value_of(1, 9, b"hi\0"), Err(ParseError::ShortRead));
    assert_eq!(value_of(1, 9, &padded(b"\0")), Ok(PairValue::String(vec![])));
    assert_eq!(value_of(1, 9, &padded(b"1234567\0")), Ok(PairValue::String(b"1234567".to_vec())));
}

#[test]
fn errors_in_nested_containers_come_out() {
    let mut body = pair_bytes(b"tree", 1, 19, &[]);
    body.extend_from_slice(&pair_bytes(b"odd", 1, 42, &[]));
    body.extend_from_slice(&end_of_list());
    body.extend_from_slice(&end_of_list());
    assert_eq!(parse(&with_header(&body)), Err(ParseError::UnknownPairType(42)));
    let mut body = pair_bytes(b"tree", 1, 19, &[]);
    body.extend_from_slice(&pair_bytes(b"guid", 1, 8, &7u64.to_le_bytes()));
    body.extend_from_slice(&end_of_list());
    assert_eq!(parse(&with_header(&body)), Err(ParseError::ShortRead));
    let mut body = pair_bytes(b"children", 2, 20, &[]);
    body.extend_from_slice(&end_of_list());
    assert_eq!(parse(&with_header(&body)), Err(ParseError::ShortRead));
}

#[test]
fn decoding_twice_gives_equal_containers() {
    let mut body = pair_bytes(b"tree", 1, 19, &[]);
    body.extend_from_slice(&pair_bytes(b"guid", 1, 8, &7u64.to_le_bytes()));
    body.extend_from_slice(&pair_bytes(b"name", 1, 9, &padded(b"tank\0")));
    body.extend_from_slice(&end_of_list());
    body.extend_from_slice(&end_of_list());
    let buf = with_header(&body);
    assert_eq!(parse(&buf), parse(&buf));
    assert_eq!(Parser::new().parse(&buf), parse(&buf));
    assert!(parse(&buf).is_ok());
}

#[test]
fn what_follows_the_terminator_is_not_looked_at() {
    let mut body = end_of_list();
    body.extend_from_slice(&[0xff; 13]);
    assert_eq!(parse(&with_header(&body)), Ok(PairList(vec![])));
}

#[test]
fn parse_int_reads_little_endian_of_every_type() {
    let p = Parser::new();
    let bytes = [0x01u8, 0x02, 0x03, 0x04, 0x05, 0x06, 0x07, 0x88, 0x99];
    assert_eq!(p.parse_int::<u8>(&bytes), Ok((0x01u8, &bytes[1..])));
    assert_eq!(p.parse_int::<i8>(&bytes[7..]), Ok((-120i8, &bytes[8..])));
    assert_eq!(p.parse_int::<u16>(&bytes), Ok((0x0201u16, &bytes[2..])));
    assert_eq!(p.parse_int::<i16>(&bytes[6..]), Ok((-30713i16, &bytes[8..])));
    assert_eq!(p.parse_int::<u32>(&bytes), Ok((0x04030201u32, &bytes[4..])));
    assert_eq!(p.parse_int::<i32>(&bytes[4..]), Ok((-2012805627i32, &bytes[8..])));
    assert_eq!(p.parse_int::<u64>(&bytes), Ok((0x8807060504030201u64, &bytes[8..])));
    assert_eq!(p.parse_int::<i64>(&bytes), Ok((0x8807060504030201u64 as i64, &bytes[8..])));
    assert_eq!(p.parse_int::<u64>(&bytes[2..]), Err(ParseError::ShortRead));
    assert_eq!(p.parse_int::<u8>(&[]), Err(ParseError::ShortRead));
    assert_eq!(p.parse_int::<i16>(&[1]), Err(ParseError::ShortRead));
}

#[test]
fn parse_ints_and_strings_read_runs() {
    let p = Parser::new();
    assert_eq!(p.parse_ints::<u16>(&[1, 0, 2, 0, 3], 2), Ok(vec![1u16, 2]));
    assert_eq!(p.parse_ints::<u16>(&[1, 0, 2, 0, 3], 3), Err(ParseError::ShortRead));
    assert_eq!(p.parse_ints::<u16>(&[], 0), Ok(vec![]));
    let (s, rest) = p.parse_string(b"abc\0\0\0\0\0rest").unwrap();
    assert_eq!(s, b"abc".to_vec());
    assert_eq!(rest, b"rest");
    let (s, rest) = p.parse_string(b"abcdefg\0").unwrap();
    assert_eq!(s, b"abcdefg".to_vec());
    assert_eq!(rest, b"");
    let (s, rest) = p.parse_string(b"abcdefgh\0\0\0\0\0\0\0\0x").unwrap();
    assert_eq!(s, b"abcdefgh".to_vec());
    assert_eq!(rest, b"x");
    assert_eq!(
        p.parse_strings(b"a\0\0\0\0\0\0\0b\0\0\0\0\0\0\0", 2),
        Ok(vec![b"a".to_vec(), b"b".to_vec()])
    );
}

#[test]
fn parse_header_gives_the_fields_and_the_value_window() {
    let p = Parser::new();
    let bytes = pair_bytes(b"name", 3, 16, &[1, 2, 3]);
    let h = p.parse_header(&bytes[4..]).unwrap();
    assert_eq!(h.name, b"name".to_vec());
    assert_eq!(h.nelems, 3);
    assert_eq!(h.tag, 16);
    assert_eq!(h.window, &[1u8, 2, 3][..]);
    assert!(matches!(p.parse_header(&[0; 11]), Err(ParseError::ShortRead)));
}

#[test]
fn tags_and_types_correspond() {
    for tag in 1..=27 {
        assert_eq!(PairType::from_i32(tag).unwrap().tag(), tag);
    }
    assert_eq!(PairType::from_i32(0), None);
    assert_eq!(PairType::from_i32(28), None);
    assert_eq!(PairType::from_i32(8), Some(PairType::UInt64));
    assert_eq!(PairType::from_i32(19), Some(PairType::NVList));
    assert_eq!(PairType::from_i32(20), Some(PairType::NVListArray));
    assert_eq!(PairType::Double.tag(), 27);
}

#[test]
fn markers_are_told_apart() {
    assert_eq!(Encoding::from_marker(0), Some(Encoding::Native));
    assert_eq!(Encoding::from_marker(1), Some(Encoding::XDR));
    assert_eq!(Encoding::from_marker(2), None);
    assert_eq!(Endian::from_marker(0), Some(Endian::Big));
    assert_eq!(Endian::from_marker(1), Some(Endian::Little));
    assert_eq!(Endian::from_marker(255), None);
}

#[test]
fn accessors_tell_the_kinds_apart() {
    let number = Pair(b"n".to_vec(), PairValue::UInt64(5));
    let text = Pair(b"s".to_vec(), PairValue::String(b"x".to_vec()));
    let list = Pair(b"l".to_vec(), PairValue::List(PairList(vec![])));
    let lists = Pair(b"a".to_vec(), PairValue::ListArray(vec![PairList(vec![])]));
    let words = Pair(b"w".to_vec(), PairValue::UInt64Array(vec![1, 2]));
    assert_eq!(number.key(), b"n");
    assert_eq!(
        Pair(b"k".to_vec(), PairValue::Boolean).into_parts(),
        (b"k".to_vec(), PairValue::Boolean)
    );
    assert_eq!(number.value(), &PairValue::UInt64(5));
    assert_eq!(number.to_u64(), Some(5));
    assert_eq!(text.to_u64(), None);
    assert_eq!(text.to_c_string(), Some(b"x".to_vec()));
    assert_eq!(number.to_c_string(), None);
    assert_eq!(list.as_list(), Some(&PairList(vec![])));
    assert_eq!(lists.as_list(), None);
    assert_eq!(lists.as_list_slice(), Some(&[PairList(vec![])][..]));
    assert_eq!(list.as_list_slice(), None);
    assert_eq!(words.as_u64_slice(), Some(&[1u64, 2][..]));
    assert_eq!(number.as_u64_slice(), None);
}

#[test]
fn get_finds_the_first_pair_of_a_name() {
    let list = PairList(vec![
        Pair(b"a".to_vec(), PairValue::UInt64(1)),
        Pair(b"b".to_vec(), PairValue::UInt64(2)),
        Pair(b"a".to_vec(), PairValue::UInt64(3)),
    ]);
    assert_eq!(list.get(b"a"), Some(&Pair(b"a".to_vec(), PairValue::UInt64(1))));
    assert_eq!(list.get(b"b"), Some(&Pair(b"b".to_vec(), PairValue::UInt64(2))));
    assert_eq!(list.get(b"c"), None);
    assert_eq!(list.get(b""), None);
    assert_eq!(list.get(b"a\0"), None);
    assert_eq!(list.get_u64(b"a"), Some(1));
    assert_eq!(list.get_list(b"a"), None);
    assert_eq!(list.get_c_string(b"a"), None);
    assert_eq!(list.keys(), vec![b"a".to_vec(), b"b".to_vec(), b"a".to_vec()]);
    assert_eq!(list.pairs().len(), 3);
}

#[test]
fn a_key_with_a_nul_names_nothing() {
    let list = PairList(vec![Pair(b"a\0b".to_vec(), PairValue::UInt64(1))]);
    assert_eq!(list.get(b"a\0b"), None);
}

#[test]
fn error_texts() {
    assert_eq!(ParseError::InvalidEncoding.to_string(), "invalid encoding");
    assert_eq!(ParseError::InvalidEndian.to_string(), "invalid endian");
    assert_eq!(ParseError::ShortRead.to_string(), "short read");
    assert_eq!(ParseError::UnterminatedString.to_string(), "unterminated string");
    assert_eq!(ParseError::UnknownPairType(3).to_string(), "unknown pair type");
    assert_eq!(ParseError::UnsupportedVersion(3).to_string(), "unsupported version");
    assert_eq!(ParseError::UnsupportedFlags(3).to_string(), "unsupported flags");
}

#[test]
fn align_rounds_up_to_eight() {
    assert_eq!(align(0), 0);
    assert_eq!(align(1), 8);
    assert_eq!(align(7), 8);
    assert_eq!(align(8), 8);
    assert_eq!(align(9), 16);
    assert_eq!(align(4096), 4096);
    assert_eq!(checked_align(13), Some(16));
    assert_eq!(checked_align(usize::MAX), None);
    assert_eq!(checked_align(usize::MAX - 7), Some(usize::MAX - 7));
    assert_eq!(checked_align(usize::MAX - 8), Some(usize::MAX - 7));
}

#[test]
fn nul_scans() {
    assert_eq!(find_nul(b"abc\0def\0"), Some(3));
    assert_eq!(find_nul(b"\0"), Some(0));
    assert_eq!(find_nul(b"abc"), None);
    assert_eq!(find_nul(b""), None);
    assert!(is_nul_free(b"abc"));
    assert!(is_nul_free(b""));
    assert!(!is_nul_free(b"a\0"));
    assert!(bytes_eq(b"abc", b"abc"));
    assert!(!bytes_eq(b"abc", b"abd"));
    assert!(!bytes_eq(b"abc", b"ab"));
    assert!(bytes_eq(b"", b""));
}
