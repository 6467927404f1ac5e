//! The native-string primitive: an owned byte sequence as the operating
//! system hands it out, not necessarily valid Unicode.

use vstd::prelude::*;
use vstd::string::StrSliceExecFns;
use vstd::string::StringSliceAdditionalSpecFns;
use vstd::utf8::{decode_utf8, valid_utf8};

verus! {

/// An owned platform-native string.
///
/// A native string round-trips losslessly to and from raw bytes, and converts
/// to a strict Unicode [`String`] only when its bytes are valid UTF-8. Its
/// view is the byte sequence it holds.
#[derive(Debug, PartialEq, Eq)]
pub struct NativeString {
    bytes: Vec<u8>,
}

impl View for NativeString {
    type V = Seq<u8>;

    closed spec fn view(&self) -> Seq<u8> {
        self.bytes@
    }
}

impl Clone for NativeString {
    fn clone(&self) -> (r: Self)
        ensures
            r@ == self@,
    {
        NativeString { bytes: copy_bytes(&self.bytes) }
    }
}

/// Relies on `alloc::string::String::from_utf8` (with
/// `FromUtf8Error::into_bytes` to recover the input): it returns the string
/// reading the bytes as UTF-8 exactly when they are valid UTF-8, and
/// otherwise hands the bytes back unchanged.
#[verifier::external_body]
fn bytes_into_string(v: Vec<u8>) -> (r: Result<String, Vec<u8>>)
    ensures
        match r {
            Ok(s) => valid_utf8(v@) && s@ == decode_utf8(v@),
            Err(w) => !valid_utf8(v@) && w@ == v@,
        },
{
    match String::from_utf8(v) {
        Ok(s) => Ok(s),
        Err(e) => Err(e.into_bytes()),
    }
}

/// Relies on `core::str::from_utf8`: it succeeds exactly when the input is
/// valid UTF-8.
#[verifier::external_body]
fn utf8_valid(v: &[u8]) -> (r: bool)
    ensures
        r == valid_utf8(v@),
{
    core::str::from_utf8(v).is_ok()
}

fn copy_bytes(v: &Vec<u8>) -> (r: Vec<u8>)
    ensures
        r@ == v@,
{
    let mut out: Vec<u8> = Vec::new();
    let mut i: usize = 0;
    while i < v.len()
        invariant
            i <= v@.len(),
            out@ == v@.take(i as int),
        decreases v@.len() - i,
    {
        out.push(v[i]);
        i = i + 1;
        proof {
            assert(out@ =~= v@.take(i as int));
        }
    }
    proof {
        assert(v@.take(v@.len() as int) =~= v@);
    }
    out
}

impl NativeString {
    /// Wraps raw bytes as a native string.
    pub fn from_bytes(bytes: Vec<u8>) -> (r: Self)
        ensures
            r@ == bytes@,
    {
        NativeString { bytes }
    }

    /// Hands the raw bytes back, losslessly.
    pub fn into_bytes(self) -> (r: Vec<u8>)
        ensures
            r@ == self@,
    {
        self.bytes
    }

    /// Borrows the raw bytes.
    pub fn as_bytes(&self) -> (r: &Vec<u8>)
        ensures
            r@ == self@,
    {
        &self.bytes
    }

    /// Builds a native string from a Unicode string; the bytes are the UTF-8
    /// encoding of its characters.
    pub fn from_str(s: &str) -> (r: Self)
        ensures
            r@ == vstd::utf8::encode_utf8(s@),
    {
        NativeString { bytes: s.as_bytes_vec() }
    }

    /// Converts to a strict Unicode string; fails with the unchanged native
    /// string when the bytes are not valid UTF-8.
    pub fn into_string(self) -> (r: Result<String, NativeString>)
        ensures
            match r {
                Ok(s) => valid_utf8(self@) && s@ == decode_utf8(self@),
                Err(n) => !valid_utf8(self@) && n@ == self@,
            },
    {
        match bytes_into_string(self.bytes) {
            Ok(s) => Ok(s),
            Err(w) => Err(NativeString { bytes: w }),
        }
    }

    /// True when the bytes are valid UTF-8, so that [`Self::into_string`]
    /// would succeed.
    pub fn is_unicode(&self) -> (r: bool)
        ensures
            r == valid_utf8(self@),
    {
        utf8_valid(self.bytes.as_slice())
    }

    /// Byte-for-byte equality with another native string.
    pub fn eq_bytes(&self, other: &NativeString) -> (r: bool)
        ensures
            r == (self@ == other@),
    {
        if self.bytes.len() != other.bytes.len() {
            return false;
        }
        let mut i: usize = 0;
        while i < self.bytes.len()
            invariant
                self@.len() == other@.len(),
                i <= self@.len(),
                forall|j: int| 0 <= j < i ==> self@[j] == other@[j],
            decreases self@.len() - i,
        {
            if self.bytes[i] != other.bytes[i] {
                return false;
            }
            i = i + 1;
        }
        proof {
            assert(self@ =~= other@);
        }
        true
    }

    pub fn len(&self) -> (r: usize)
        ensures
            r == self@.len(),
    {
        self.bytes.len()
    }

    pub fn is_empty(&self) -> (r: bool)
        ensures
            r == (self@.len() == 0),
    {
        self.bytes.len() == 0
    }
}

} // verus!
