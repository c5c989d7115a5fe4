//! Little-endian primitives of the nvlist wire format: fixed-width integers,
//! eight-byte alignment and NUL-terminated strings.

use desert::FromBytesLE;
use vstd::prelude::*;

verus! {

/// The unsigned value of the two bytes of `s` that start at `at`, least
/// significant byte first.
pub open spec fn le16(s: Seq<u8>, at: int) -> int {
    s[at] as int + 0x100 * (s[at + 1] as int)
}

/// The unsigned value of the four bytes of `s` that start at `at`, least
/// significant byte first.
pub open spec fn le32(s: Seq<u8>, at: int) -> int {
    le16(s, at) + 0x1_0000 * le16(s, at + 2)
}

/// The unsigned value of the eight bytes of `s` that start at `at`, least
/// significant byte first.
pub open spec fn le64(s: Seq<u8>, at: int) -> int {
    le32(s, at) + 0x1_0000_0000 * le32(s, at + 4)
}

/// Reads an unsigned value below `2^bits` as a two's complement number of
/// `bits` bits; `half` is `2^(bits - 1)`.
pub open spec fn twos_complement(v: int, half: int) -> int {
    if v < half {
        v
    } else {
        v - 2 * half
    }
}

/// `n` rounded up to the next multiple of eight.
pub open spec fn spec_align(n: int) -> int {
    if n % 8 == 0 {
        n
    } else {
        n + 8 - n % 8
    }
}

/// Rounds `n` up to the next multiple of eight.
pub fn align(n: usize) -> (r: usize)
    requires
        n + 7 <= usize::MAX,
    ensures
        r == spec_align(n as int),
        n <= r < n + 8,
        r % 8 == 0,
{
    let m: usize = n + 7;
    assert(m & !7usize == m - m % 8) by (bit_vector);
    m & !7
}

/// Rounds `n` up to the next multiple of eight, or gives `None` where the
/// result does not fit a `usize`.
pub fn checked_align(n: usize) -> (r: Option<usize>)
    ensures
        spec_align(n as int) <= usize::MAX ==> r == Some(spec_align(n as int) as usize),
        spec_align(n as int) > usize::MAX ==> r is None,
{
    let rem: usize = n % 8;
    if rem == 0 {
        Some(n)
    } else if n - rem <= usize::MAX - 8 {
        Some(n - rem + 8)
    } else {
        None
    }
}

/// The position of the first zero byte of `s` at or after `from`, or the
/// length of `s` where there is none.
pub open spec fn nul_from(s: Seq<u8>, from: int) -> int
    decreases s.len() - from,
{
    if from < 0 || from >= s.len() {
        s.len() as int
    } else if s[from] == 0 {
        from
    } else {
        nul_from(s, from + 1)
    }
}

/// The length of the C string at the start of `s`: the number of bytes
/// before the first zero byte, or the length of `s` where no byte is zero.
pub open spec fn c_strlen(s: Seq<u8>) -> int {
    nul_from(s, 0)
}

/// Whether no byte of `s` is zero, as holds of the content of a C string.
pub open spec fn nul_free(s: Seq<u8>) -> bool {
    forall|i: int| 0 <= i < s.len() ==> s[i] != 0
}

/// `nul_from` stays within the sequence, the bytes it passes over are not
/// zero, and the byte it stops at is.
pub proof fn lemma_nul_from(s: Seq<u8>, from: int)
    requires
        0 <= from <= s.len(),
    ensures
        from <= nul_from(s, from) <= s.len(),
        forall|i: int| from <= i < nul_from(s, from) ==> s[i] != 0,
        nul_from(s, from) < s.len() ==> s[nul_from(s, from)] == 0,
    decreases s.len() - from,
{
    if from < s.len() && s[from] != 0 {
        lemma_nul_from(s, from + 1);
    }
}

/// A position at or after `from` that holds a zero byte, with none between
/// `from` and it, is the one that `nul_from` finds.
pub proof fn lemma_nul_from_is(s: Seq<u8>, from: int, at: int)
    requires
        0 <= from <= at <= s.len(),
        forall|i: int| from <= i < at ==> s[i] != 0,
        at < s.len() ==> s[at] == 0,
    ensures
        nul_from(s, from) == at,
    decreases at - from,
{
    if from < at {
        lemma_nul_from_is(s, from + 1, at);
    }
}

/// Finds the first zero byte of `buf`.
pub fn find_nul(buf: &[u8]) -> (r: Option<usize>)
    ensures
        match r {
            Some(n) => n == c_strlen(buf@) && n < buf@.len(),
            None => c_strlen(buf@) == buf@.len(),
        },
{
    proof {
        lemma_nul_from(buf@, 0);
    }
    let mut i: usize = 0;
    while i < buf.len()
        invariant
            i <= buf@.len(),
            forall|j: int| 0 <= j < i ==> buf@[j] != 0,
        decreases buf@.len() - i,
    {
        if buf[i] == 0 {
            proof {
                lemma_nul_from_is(buf@, 0, i as int);
            }
            return Some(i);
        }
        i += 1;
    }
    proof {
        lemma_nul_from_is(buf@, 0, buf@.len() as int);
    }
    None
}

/// No byte of `s` is zero exactly when the C string at its start is all of
/// `s`.
pub proof fn lemma_nul_free_strlen(s: Seq<u8>)
    ensures
        nul_free(s) <==> c_strlen(s) == s.len(),
{
    lemma_nul_from(s, 0);
    if nul_free(s) {
        lemma_nul_from_is(s, 0, s.len() as int);
    }
}

/// Tells whether no byte of `buf` is zero.
pub fn is_nul_free(buf: &[u8]) -> (r: bool)
    ensures
        r == nul_free(buf@),
{
    proof {
        lemma_nul_free_strlen(buf@);
    }
    find_nul(buf).is_none()
}

/// Tells whether `a` and `b` hold the same bytes.
pub fn bytes_eq(a: &[u8], b: &[u8]) -> (r: bool)
    ensures
        r == (a@ == b@),
{
    if a.len() != b.len() {
        return false;
    }
    let mut i: usize = 0;
    while i < a.len()
        invariant
            a@.len() == b@.len(),
            i <= a@.len(),
            forall|j: int| 0 <= j < i ==> a@[j] == b@[j],
        decreases a@.len() - i,
    {
        if a[i] != b[i] {
            return false;
        }
        i += 1;
    }
    proof {
        assert(a@ =~= b@);
    }
    true
}

/// How `a` and `b` compare from position `from` on, byte by byte, where
/// they agree before it: negative where `a` comes first, positive where `b`
/// does, zero where they are the same. Of two strings of which one starts
/// the other, the shorter comes first.
pub open spec fn lex_sign(a: Seq<u8>, b: Seq<u8>, from: int) -> int
    decreases a.len() - from,
{
    if from < 0 || from >= a.len() {
        if 0 <= from < b.len() {
            -1
        } else {
            0
        }
    } else if from >= b.len() {
        1
    } else if a[from] < b[from] {
        -1
    } else if a[from] > b[from] {
        1
    } else {
        lex_sign(a, b, from + 1)
    }
}

/// Strings that agree up to `from` compare as equal exactly where they are
/// the same.
pub proof fn lemma_lex_sign_zero(a: Seq<u8>, b: Seq<u8>, from: int)
    requires
        0 <= from <= a.len(),
        from <= b.len(),
        a.subrange(0, from) == b.subrange(0, from),
    ensures
        lex_sign(a, b, from) == 0 <==> a == b,
    decreases a.len() - from,
{
    if from < a.len() && from < b.len() {
        if a[from] == b[from] {
            assert(a.subrange(0, from + 1) =~= a.subrange(0, from).push(a[from]));
            assert(b.subrange(0, from + 1) =~= b.subrange(0, from).push(b[from]));
            lemma_lex_sign_zero(a, b, from + 1);
        }
    } else if from == a.len() && from == b.len() {
        assert(a =~= a.subrange(0, from));
        assert(b =~= b.subrange(0, from));
    }
}

/// Swapping the strings swaps the outcome.
pub proof fn lemma_lex_sign_swap(a: Seq<u8>, b: Seq<u8>, from: int)
    requires
        0 <= from,
    ensures
        lex_sign(a, b, from) == -lex_sign(b, a, from),
    decreases a.len() - from,
{
    if from < a.len() && from < b.len() && a[from] == b[from] {
        lemma_lex_sign_swap(a, b, from + 1);
    }
}

/// Compares `a` and `b` byte by byte.
pub fn compare_bytes(a: &[u8], b: &[u8]) -> (r: i8)
    ensures
        r == lex_sign(a@, b@, 0),
{
    let mut i: usize = 0;
    while i < a.len() && i < b.len()
        invariant
            i <= a@.len(),
            i <= b@.len(),
            lex_sign(a@, b@, 0) == lex_sign(a@, b@, i as int),
        decreases a@.len() - i,
    {
        if a[i] < b[i] {
            return -1;
        }
        if a[i] > b[i] {
            return 1;
        }
        i += 1;
    }
    if i < b.len() {
        -1
    } else if i < a.len() {
        1
    } else {
        0
    }
}

/// A fixed-width integer of the wire format, stored least significant byte
/// first.
pub trait LittleEndian: Sized {
    /// The number of bytes that the value occupies.
    spec fn width() -> int;

    /// The value that the first `width()` bytes of `s` encode.
    spec fn decode(s: Seq<u8>) -> Self;

    /// The number of bytes that the value occupies.
    fn size() -> (n: usize)
        ensures
            n == Self::width(),
            1 <= n <= 8,
    ;

    /// Decodes the value at the start of `src`, if `src` is long enough.
    fn read_le(src: &[u8]) -> (r: Option<Self>)
        ensures
            src@.len() < Self::width() ==> r is None,
            src@.len() >= Self::width() ==> r == Some(Self::decode(src@)),
    ;
}

/// desert's `FromBytesLE::from_bytes_le` for `u8`: fails on an empty source,
/// and otherwise reports one byte read and gives the first byte.
#[verifier::external_body]
fn desert_u8(src: &[u8]) -> (r: Option<(usize, u8)>)
    ensures
        src@.len() < 1 ==> r is None,
        src@.len() >= 1 ==> r == Some((1usize, src@[0])),
{
    u8::from_bytes_le(src).ok()
}

/// desert's `FromBytesLE::from_bytes_le` for `i8`: fails on an empty source,
/// and otherwise reports one byte read and gives the first byte as a two's
/// complement number.
#[verifier::external_body]
fn desert_i8(src: &[u8]) -> (r: Option<(usize, i8)>)
    ensures
        src@.len() < 1 ==> r is None,
        src@.len() >= 1 ==> r == Some((1usize, twos_complement(src@[0] as int, 0x80) as i8)),
{
    i8::from_bytes_le(src).ok()
}

/// desert's `FromBytesLE::from_bytes_le` for `u16`: fails on a source of
/// fewer than two bytes, and otherwise reports two bytes read and gives the
/// little-endian value of the first two.
#[verifier::external_body]
fn desert_u16(src: &[u8]) -> (r: Option<(usize, u16)>)
    ensures
        src@.len() < 2 ==> r is None,
        src@.len() >= 2 ==> r == Some((2usize, le16(src@, 0) as u16)),
{
    u16::from_bytes_le(src).ok()
}

/// desert's `FromBytesLE::from_bytes_le` for `i16`: fails on a source of
/// fewer than two bytes, and otherwise reports two bytes read and gives the
/// little-endian two's complement value of the first two.
#[verifier::external_body]
fn desert_i16(src: &[u8]) -> (r: Option<(usize, i16)>)
    ensures
        src@.len() < 2 ==> r is None,
        src@.len() >= 2 ==> r == Some((2usize, twos_complement(le16(src@, 0), 0x8000) as i16)),
{
    i16::from_bytes_le(src).ok()
}

/// desert's `FromBytesLE::from_bytes_le` for `u32`: fails on a source of
/// fewer than four bytes, and otherwise reports four bytes read and gives the
/// little-endian value of the first four.
#[verifier::external_body]
fn desert_u32(src: &[u8]) -> (r: Option<(usize, u32)>)
    ensures
        src@.len() < 4 ==> r is None,
        src@.len() >= 4 ==> r == Some((4usize, le32(src@, 0) as u32)),
{
    u32::from_bytes_le(src).ok()
}

/// desert's `FromBytesLE::from_bytes_le` for `i32`: fails on a source of
/// fewer than four bytes, and otherwise reports four bytes read and gives the
/// little-endian two's complement value of the first four.
#[verifier::external_body]
fn desert_i32(src: &[u8]) -> (r: Option<(usize, i32)>)
    ensures
        src@.len() < 4 ==> r is None,
        src@.len() >= 4 ==> r == Some(
            (4usize, twos_complement(le32(src@, 0), 0x8000_0000) as i32),
        ),
{
    i32::from_bytes_le(src).ok()
}

/// desert's `FromBytesLE::from_bytes_le` for `u64`: fails on a source of
/// fewer than eight bytes, and otherwise reports eight bytes read and gives
/// the little-endian value of the first eight.
#[verifier::external_body]
fn desert_u64(src: &[u8]) -> (r: Option<(usize, u64)>)
    ensures
        src@.len() < 8 ==> r is None,
        src@.len() >= 8 ==> r == Some((8usize, le64(src@, 0) as u64)),
{
    u64::from_bytes_le(src).ok()
}

/// desert's `FromBytesLE::from_bytes_le` for `i64`: fails on a source of
/// fewer than eight bytes, and otherwise reports eight bytes read and gives
/// the little-endian two's complement value of the first eight.
#[verifier::external_body]
fn desert_i64(src: &[u8]) -> (r: Option<(usize, i64)>)
    ensures
        src@.len() < 8 ==> r is None,
        src@.len() >= 8 ==> r == Some(
            (8usize, twos_complement(le64(src@, 0), 0x8000_0000_0000_0000) as i64),
        ),
{
    i64::from_bytes_le(src).ok()
}

impl LittleEndian for u8 {
    open spec fn width() -> int {
        1
    }

    open spec fn decode(s: Seq<u8>) -> u8 {
        s[0]
    }

    fn size() -> (n: usize) {
        1
    }

    fn read_le(src: &[u8]) -> (r: Option<u8>) {
        match desert_u8(src) {
            Some((_, v)) => Some(v),
            None => None,
        }
    }
}

impl LittleEndian for i8 {
    open spec fn width() -> int {
        1
    }

    open spec fn decode(s: Seq<u8>) -> i8 {
        twos_complement(s[0] as int, 0x80) as i8
    }

    fn size() -> (n: usize) {
        1
    }

    fn read_le(src: &[u8]) -> (r: Option<i8>) {
        match desert_i8(src) {
            Some((_, v)) => Some(v),
            None => None,
        }
    }
}

impl LittleEndian for u16 {
    open spec fn width() -> int {
        2
    }

    open spec fn decode(s: Seq<u8>) -> u16 {
        le16(s, 0) as u16
    }

    fn size() -> (n: usize) {
        2
    }

    fn read_le(src: &[u8]) -> (r: Option<u16>) {
        match desert_u16(src) {
            Some((_, v)) => Some(v),
            None => None,
        }
    }
}

impl LittleEndian for i16 {
    open spec fn width() -> int {
        2
    }

    open spec fn decode(s: Seq<u8>) -> i16 {
        twos_complement(le16(s, 0), 0x8000) as i16
    }

    fn size() -> (n: usize) {
        2
    }

    fn read_le(src: &[u8]) -> (r: Option<i16>) {
        match desert_i16(src) {
            Some((_, v)) => Some(v),
            None => None,
        }
    }
}

impl LittleEndian for u32 {
    open spec fn width() -> int {
        4
    }

    open spec fn decode(s: Seq<u8>) -> u32 {
        le32(s, 0) as u32
    }

    fn size() -> (n: usize) {
        4
    }

    fn read_le(src: &[u8]) -> (r: Option<u32>) {
        match desert_u32(src) {
            Some((_, v)) => Some(v),
            None => None,
        }
    }
}

impl LittleEndian for i32 {
    open spec fn width() -> int {
        4
    }

    open spec fn decode(s: Seq<u8>) -> i32 {
        twos_complement(le32(s, 0), 0x8000_0000) as i32
    }

    fn size() -> (n: usize) {
        4
    }

    fn read_le(src: &[u8]) -> (r: Option<i32>) {
        match desert_i32(src) {
            Some((_, v)) => Some(v),
            None => None,
        }
    }
}

impl LittleEndian for u64 {
    open spec fn width() -> int {
        8
    }

    open spec fn decode(s: Seq<u8>) -> u64 {
        le64(s, 0) as u64
    }

    fn size() -> (n: usize) {
        8
    }

    fn read_le(src: &[u8]) -> (r: Option<u64>) {
        match desert_u64(src) {
            Some((_, v)) => Some(v),
            None => None,
        }
    }
}

impl LittleEndian for i64 {
    open spec fn width() -> int {
        8
    }

    open spec fn decode(s: Seq<u8>) -> i64 {
        twos_complement(le64(s, 0), 0x8000_0000_0000_0000) as i64
    }

    fn size() -> (n: usize) {
        8
    }

    fn read_le(src: &[u8]) -> (r: Option<i64>) {
        match desert_i64(src) {
            Some((_, v)) => Some(v),
            None => None,
        }
    }
}

} // verus!
