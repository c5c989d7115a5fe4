//! Names as the kernel hands them out: C strings that are shown as text.

use crate::wire::{c_strlen, compare_bytes, find_nul, lemma_nul_from, lex_sign, nul_free};
use core::cmp::Ordering;
use vstd::prelude::*;
use vstd::slice::{slice_subrange, slice_to_vec};
use vstd::utf8::{decode_utf8, valid_utf8};

verus! {

/// The text that `String::from_utf8_lossy` makes of bytes.
pub uninterp spec fn utf8_lossy(bytes: Seq<u8>) -> Seq<char>;

/// `String::from_utf8_lossy` of std, which turns bytes into text and puts
/// U+FFFD in place of what is not UTF-8. The text depends on the bytes alone,
/// and bytes that are valid UTF-8 give the text that they encode.
#[verifier::external_body]
pub(crate) fn from_utf8_lossy(bytes: &[u8]) -> (r: String)
    ensures
        r@ == utf8_lossy(bytes@),
        valid_utf8(bytes@) ==> r@ == decode_utf8(bytes@),
{
    String::from_utf8_lossy(bytes).into_owned()
}

/// A C string that gives its text on demand, by a lossy conversion.
#[derive(Debug, Ord)]
pub struct AutoString {
    /// The bytes of the string, followed by the terminating NUL.
    raw: Vec<u8>,
}

impl View for AutoString {
    type V = Seq<u8>;

    /// The bytes of the string, without the terminating NUL.
    closed spec fn view(&self) -> Seq<u8> {
        self.raw@.drop_last()
    }
}

impl AutoString {
    #[verifier::type_invariant]
    spec fn inv(self) -> bool {
        &&& self.raw@.len() >= 1
        &&& self.raw@.last() == 0
        &&& nul_free(self.raw@.drop_last())
    }

    /// The C string at the start of `bytes`: the bytes before the first NUL,
    /// or all of them where none is NUL.
    pub fn from(bytes: &[u8]) -> (r: AutoString)
        ensures
            r@ == bytes@.subrange(0, c_strlen(bytes@)),
            nul_free(bytes@) ==> r@ == bytes@,
    {
        let n: usize = match find_nul(bytes) {
            Some(n) => n,
            None => bytes.len(),
        };
        proof {
            lemma_nul_from(bytes@, 0);
            if nul_free(bytes@) {
                crate::wire::lemma_nul_free_strlen(bytes@);
                assert(bytes@.subrange(0, bytes@.len() as int) =~= bytes@);
            }
        }
        let mut raw = slice_to_vec(slice_subrange(bytes, 0, n));
        raw.push(0);
        proof {
            assert(raw@.drop_last() =~= bytes@.subrange(0, n as int));
        }
        AutoString { raw }
    }

    /// The bytes of the string followed by the terminating NUL, as C takes
    /// a string.
    pub fn as_c_str(&self) -> (r: &[u8])
        ensures
            r@ == self@.push(0),
            nul_free(self@),
    {
        proof {
            use_type_invariant(self);
            assert(self.raw@ =~= self.raw@.drop_last().push(0));
        }
        self.raw.as_slice()
    }

    /// The text of the string, with U+FFFD in place of what is not UTF-8.
    pub fn as_str(&self) -> (r: String)
        ensures
            r@ == utf8_lossy(self@),
            valid_utf8(self@) ==> r@ == decode_utf8(self@),
    {
        from_utf8_lossy(self.as_bytes())
    }

    /// The bytes of the string, without the terminating NUL.
    pub fn as_bytes(&self) -> (r: &[u8])
        ensures
            r@ == self@,
            nul_free(self@),
    {
        proof {
            use_type_invariant(self);
        }
        slice_subrange(self.raw.as_slice(), 0, self.raw.len() - 1)
    }

    /// The bytes of the string, without the terminating NUL.
    pub fn into_bytes(self) -> (r: Vec<u8>)
        ensures
            r@ == self@,
            nul_free(self@),
    {
        slice_to_vec(self.as_bytes())
    }
}

impl Clone for AutoString {
    fn clone(&self) -> (r: AutoString)
        ensures
            r@ == self@,
    {
        proof {
            use_type_invariant(self);
        }
        let raw = slice_to_vec(self.raw.as_slice());
        AutoString { raw }
    }
}

impl Default for AutoString {
    /// The empty string.
    fn default() -> (r: AutoString)
        ensures
            r@ == Seq::<u8>::empty(),
    {
        let mut raw: Vec<u8> = Vec::new();
        raw.push(0);
        proof {
            assert(raw@.drop_last() =~= Seq::<u8>::empty());
        }
        AutoString { raw }
    }
}

impl PartialEq for AutoString {
    /// Two strings are equal where their bytes are.
    fn eq(&self, other: &AutoString) -> (r: bool) {
        proof {
            use_type_invariant(self);
            use_type_invariant(other);
            assert(self.raw@ =~= self.raw@.drop_last().push(0));
            assert(other.raw@ =~= other.raw@.drop_last().push(0));
        }
        crate::wire::bytes_eq(self.raw.as_slice(), other.raw.as_slice())
    }
}

impl vstd::std_specs::cmp::PartialEqSpecImpl for AutoString {
    open spec fn obeys_eq_spec() -> bool {
        true
    }

    open spec fn eq_spec(&self, other: &AutoString) -> bool {
        self@ == other@
    }
}

impl Eq for AutoString {

}

impl PartialOrd for AutoString {
    /// Strings are ordered as their bytes are, byte by byte.
    fn partial_cmp(&self, other: &AutoString) -> (r: Option<Ordering>) {
        let sign = compare_bytes(self.as_bytes(), other.as_bytes());
        if sign < 0 {
            Some(Ordering::Less)
        } else if sign > 0 {
            Some(Ordering::Greater)
        } else {
            Some(Ordering::Equal)
        }
    }
}

impl vstd::std_specs::cmp::PartialOrdSpecImpl for AutoString {
    open spec fn obeys_partial_cmp_spec() -> bool {
        true
    }

    open spec fn partial_cmp_spec(&self, other: &AutoString) -> Option<Ordering> {
        let sign = lex_sign(self@, other@, 0);
        if sign < 0 {
            Some(Ordering::Less)
        } else if sign > 0 {
            Some(Ordering::Greater)
        } else {
            Some(Ordering::Equal)
        }
    }
}

} // verus!
