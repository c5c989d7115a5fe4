use veneer::ioc::{
    invoke_list, is_exhausted, iter_state, prepare, step_after_failure, CallError, Command, Opcode,
    Step, BUFFER_SIZE, ESRCH, MAXPATHLEN,
};
use veneer::nvpair::{Pair, PairList, PairValue, ParseError};
use veneer::util::AutoString;

fn name(s: &str) -> AutoString {
    AutoString::from(s.as_bytes())
}

fn reply() -> Vec<u8> {
    let mut out: Vec<u8> = vec![0, 1, 0, 0];
    out.extend_from_slice(&0i32.to_le_bytes());
    out.extend_from_slice(&1u32.to_le_bytes());
    out.extend_from_slice(&32i32.to_le_bytes());
    out.extend_from_slice(&[2, 0, 0, 0, 1, 0, 0, 0, 8, 0, 0, 0]);
    out.extend_from_slice(b"n\0\0\0\0\0\0\0");
    out.extend_from_slice(&42u64.to_le_bytes());
    out.extend_from_slice(&[0, 0, 0, 0]);
    out
}

fn field(text: &[u8]) -> Vec<u8> {
    let mut f = text.to_vec();
    f.resize(MAXPATHLEN, 0);
    f
}

#[test]
fn constants_of_the_channel() {
    assert_eq!(MAXPATHLEN, 4096);
    assert_eq!(BUFFER_SIZE, 262144);
    assert_eq!(ESRCH, 3);
    assert_eq!(Opcode::PoolConfigs.number(), 0x04);
    assert_eq!(Opcode::PoolStats.number(), 0x05);
    assert_eq!(Opcode::PoolGetProps.number(), 0x27);
    assert_eq!(Opcode::ObjsetStats.number(), 0x12);
    assert_eq!(Opcode::DatasetListNext.number(), 0x14);
    assert!(!Opcode::PoolConfigs.takes_name());
    assert!(Opcode::PoolStats.takes_name());
    assert!(Opcode::DatasetListNext.takes_name());
    assert!(Opcode::DatasetListNext.takes_cookie());
    assert!(!Opcode::ObjsetStats.takes_cookie());
    assert!(!Opcode::PoolConfigs.takes_cookie());
}

#[test]
fn a_new_record_is_zero_but_for_the_capacity() {
    let cmd = Command::new(262144);
    assert_eq!(cmd.name_field(), &field(b"")[..]);
    assert_eq!(cmd.nvlist_dst_size(), 262144);
    assert_eq!(cmd.cookie(), 0);
    assert_eq!(cmd.name(), Ok(name("")));
}

#[test]
fn the_name_is_copied_with_its_nul() {
    let mut cmd = Command::new(16);
    assert_eq!(cmd.set_name(&name("tank/home")), Ok(()));
    assert_eq!(cmd.name_field(), &field(b"tank/home")[..]);
    assert_eq!(cmd.name(), Ok(name("tank/home")));
    // a shorter name over a longer one ends at its own NUL
    assert_eq!(cmd.set_name(&name("ab")), Ok(()));
    assert_eq!(&cmd.name_field()[..10], b"ab\0k/home\0");
    assert_eq!(cmd.name(), Ok(name("ab")));
    assert_eq!(cmd.nvlist_dst_size(), 16);
    cmd.set_cookie(77);
    assert_eq!(cmd.cookie(), 77);
    assert_eq!(cmd.name(), Ok(name("ab")));
}

#[test]
fn a_name_that_does_not_fit_is_refused() {
    let longest = vec![b'a'; MAXPATHLEN - 1];
    let too_long = vec![b'a'; MAXPATHLEN];
    let mut cmd = Command::new(0);
    assert_eq!(cmd.set_name(&AutoString::from(&longest)), Ok(()));
    assert_eq!(cmd.name_field()[MAXPATHLEN - 2], b'a');
    assert_eq!(cmd.name_field()[MAXPATHLEN - 1], 0);
    let mut cmd = Command::new(0);
    assert_eq!(cmd.set_name(&AutoString::from(&too_long)), Err(CallError::NameTooLong));
    assert_eq!(cmd.name_field(), &field(b"")[..]);
    assert_eq!(
        prepare(Opcode::PoolStats, 1, &AutoString::from(&too_long), 0).err(),
        Some(CallError::NameTooLong)
    );
    assert!(prepare(Opcode::PoolConfigs, 1, &AutoString::from(&too_long), 0).is_ok());
}

#[test]
fn prepare_sets_what_the_operation_takes() {
    let cmd = prepare(Opcode::PoolConfigs, 100, &name("tank"), 5).unwrap();
    assert_eq!(cmd.name_field(), &field(b"")[..]);
    assert_eq!(cmd.nvlist_dst_size(), 100);
    assert_eq!(cmd.cookie(), 0);
    let cmd = prepare(Opcode::PoolStats, 100, &name("tank"), 5).unwrap();
    assert_eq!(cmd.name_field(), &field(b"tank")[..]);
    assert_eq!(cmd.nvlist_dst_size(), 100);
    assert_eq!(cmd.cookie(), 0);
    let cmd = prepare(Opcode::DatasetListNext, 100, &name("tank"), 5).unwrap();
    assert_eq!(cmd.name_field(), &field(b"tank")[..]);
    assert_eq!(cmd.cookie(), 5);
}

#[test]
fn a_record_that_came_back_needs_its_whole_name_field() {
    assert!(Command::from_parts(&field(b"x"), 1, 2).is_some());
    assert!(Command::from_parts(b"x\0", 1, 2).is_none());
    assert!(Command::from_parts(&vec![0; MAXPATHLEN + 1], 1, 2).is_none());
    let cmd = Command::from_parts(&field(b"tank/a"), 9, 8).unwrap();
    assert_eq!(cmd.nvlist_dst_size(), 9);
    assert_eq!(cmd.cookie(), 8);
    assert_eq!(cmd.name(), Ok(name("tank/a")));
    let full = vec![b'x'; MAXPATHLEN];
    assert_eq!(
        Command::from_parts(&full, 0, 0).unwrap().name(),
        Err(CallError::UnterminatedName)
    );
}

#[test]
fn the_reply_is_the_written_part_of_the_buffer() {
    let bytes = reply();
    let mut buf = bytes.clone();
    buf.extend_from_slice(&[0xee; 100]);
    let expected = PairList(vec![Pair(b"n".to_vec(), PairValue::UInt64(42))]);
    assert_eq!(invoke_list(&buf, bytes.len() as u64), Ok(expected));
    assert_eq!(
        invoke_list(&buf, bytes.len() as u64 - 1),
        Err(CallError::Decode(ParseError::ShortRead))
    );
    assert_eq!(invoke_list(&buf, 0), Err(CallError::Decode(ParseError::ShortRead)));
    assert_eq!(invoke_list(&buf, buf.len() as u64 + 1), Err(CallError::ReplyTooLarge));
    assert_eq!(invoke_list(&buf, u64::MAX), Err(CallError::ReplyTooLarge));
    assert!(invoke_list(&buf, buf.len() as u64).is_ok());
}

#[test]
fn a_step_gives_name_container_and_cookie() {
    let bytes = reply();
    let cmd = Command::from_parts(&field(b"tank/child"), bytes.len() as u64, 99).unwrap();
    let is = iter_state(&cmd, &bytes).unwrap();
    assert_eq!(is.name, name("tank/child"));
    assert_eq!(is.cookie, 99);
    assert_eq!(is.list, PairList(vec![Pair(b"n".to_vec(), PairValue::UInt64(42))]));
    let bad = Command::from_parts(&field(b"tank/child"), 3, 99).unwrap();
    assert_eq!(iter_state(&bad, &bytes).err(), Some(CallError::Decode(ParseError::ShortRead)));
    let full = vec![b'x'; MAXPATHLEN];
    let unterminated = Command::from_parts(&full, bytes.len() as u64, 0).unwrap();
    assert_eq!(iter_state(&unterminated, &bytes).err(), Some(CallError::UnterminatedName));
}

#[test]
fn only_the_exhaustion_code_ends_an_iteration() {
    assert!(is_exhausted(Some(3)));
    assert!(!is_exhausted(Some(2)));
    assert!(!is_exhausted(Some(0)));
    assert!(!is_exhausted(Some(-3)));
    assert!(!is_exhausted(Some(13)));
    assert!(!is_exhausted(None));
}

#[test]
fn a_step_that_fails_with_the_exhaustion_code_is_the_end_and_no_error() {
    assert!(matches!(step_after_failure(Some(3)), Ok(Step::End)));
    assert!(matches!(step_after_failure(Some(2)), Err(Some(2))));
    assert!(matches!(step_after_failure(Some(5)), Err(Some(5))));
    assert!(matches!(step_after_failure(Some(-3)), Err(Some(-3))));
    assert!(matches!(step_after_failure(None), Err(None)));
}
