//! An owned string for secret material.
//!
//! The bytes behind a [`SafeString`] are overwritten with zero when the string goes out
//! of scope, on every path that releases it.

use vstd::prelude::*;
use vstd::string::*;
use vstd::utf8::{
    decode_utf8, decode_utf8_encode_utf8, encode_utf8, encode_utf8_valid_utf8,
    is_ascii_chars_encode_utf8, valid_utf8,
};
use crate::safe_vec::{all_zero, secure_fill};

verus! {

/// Turns a string into the bytes that back it, without copying them.
///
/// Trusted: calls `String::into_bytes`. The contract claims that the result is the
/// UTF-8 encoding of the string.
#[verifier::external_body]
pub(crate) fn string_into_bytes(s: String) -> (r: Vec<u8>)
    ensures
        r@ == encode_utf8(s@),
    opens_invariants none
    no_unwind
{
    s.into_bytes()
}

/// Moves the text out of `s` and leaves an empty string behind.
///
/// Trusted: calls `std::mem::take`, which replaces the target with its default value
/// and returns what it held.
#[verifier::external_body]
pub(crate) fn take_string(s: &mut String) -> (r: String)
    ensures
        r@ == old(s)@,
        final(s)@ == Seq::<char>::empty(),
    opens_invariants none
    no_unwind
{
    std::mem::take(s)
}

/// Turns bytes into the string that they encode, if they are UTF-8, without copying
/// them.
///
/// Trusted: calls `String::from_utf8`, which gives the string exactly when the bytes
/// are valid UTF-8.
#[verifier::external_body]
pub(crate) fn string_from_utf8(bytes: Vec<u8>) -> (r: Option<String>)
    ensures
        match r {
            Some(text) => valid_utf8(bytes@) && text@ == decode_utf8(bytes@),
            None => !valid_utf8(bytes@),
        },
    opens_invariants none
    no_unwind
{
    String::from_utf8(bytes).ok()
}

/// Bytes that are all zero are the UTF-8 encoding of a text: of as many NUL characters.
pub proof fn lemma_zero_bytes_are_text(bytes: Seq<u8>)
    requires
        all_zero(bytes),
    ensures
        valid_utf8(bytes),
        encode_utf8(decode_utf8(bytes)) == bytes,
{
    let chars = Seq::new(bytes.len(), |i: int| '\0');
    is_ascii_chars_encode_utf8(chars);
    assert(encode_utf8(chars) =~= bytes);
    encode_utf8_valid_utf8(chars);
    decode_utf8_encode_utf8(bytes);
}

/// A string that holds secret material.
#[derive(Debug, PartialEq, Eq)]
pub struct SafeString {
    pub inner: String,
}

impl View for SafeString {
    type V = Seq<char>;

    open spec fn view(&self) -> Seq<char> {
        self.inner@
    }
}

impl SafeString {
    /// Takes ownership of `inner`.
    pub fn new(inner: String) -> (r: SafeString)
        ensures
            r@ == inner@,
            r.inner == inner,
    {
        SafeString { inner: inner }
    }

    /// A read-only borrow of the text.
    pub fn as_str(&self) -> (r: &str)
        ensures
            r@ == self@,
    {
        self.inner.as_str()
    }

    /// An independently owned copy, itself erased when released.
    pub fn duplicate(&self) -> (r: SafeString)
        ensures
            r@ == self@,
    {
        SafeString { inner: self.inner.clone() }
    }

    /// Overwrites every byte behind the text with zero, in the storage that held it.
    /// The string keeps that storage: it reads as NUL characters, one for each byte
    /// that the text took.
    pub fn erase(&mut self)
        ensures
            encode_utf8(final(self)@).len() == encode_utf8(old(self)@).len(),
            all_zero(encode_utf8(final(self)@)),
        opens_invariants none
        no_unwind
    {
        let text = take_string(&mut self.inner);
        let mut bytes = string_into_bytes(text);
        secure_fill(&mut bytes, 0);
        proof {
            lemma_zero_bytes_are_text(bytes@);
        }
        if let Some(erased) = string_from_utf8(bytes) {
            self.inner = erased;
        }
    }
}

impl From<String> for SafeString {
    fn from(inner: String) -> (r: SafeString)
        ensures
            r@ == inner@,
    {
        SafeString::new(inner)
    }
}

impl vstd::std_specs::convert::FromSpecImpl<String> for SafeString {
    open spec fn obeys_from_spec() -> bool {
        true
    }

    open spec fn from_spec(inner: String) -> SafeString {
        SafeString { inner }
    }
}

impl<'a> From<&'a str> for SafeString {
    fn from(text: &'a str) -> (r: SafeString)
        ensures
            r@ == text@,
    {
        SafeString::new(text.to_owned())
    }
}

/// A text does not fix which string holds it: what `from` gives for a `&str` is
/// stated on `from` itself, over the view.
impl<'a> vstd::std_specs::convert::FromSpecImpl<&'a str> for SafeString {
    open spec fn obeys_from_spec() -> bool {
        false
    }

    open spec fn from_spec(text: &'a str) -> SafeString {
        choose|s: SafeString| s@ == text@
    }
}

impl std::ops::Deref for SafeString {
    type Target = str;

    fn deref(&self) -> (r: &str)
        ensures
            r@ == self@,
    {
        self.inner.as_str()
    }
}

impl Clone for SafeString {
    fn clone(&self) -> (r: SafeString)
        ensures
            r@ == self@,
    {
        self.duplicate()
    }
}

impl Drop for SafeString {
    /// Overwrites every byte behind the text with zero before the storage is given
    /// back.
    fn drop(&mut self)
        ensures
            encode_utf8(final(self)@).len() == encode_utf8(old(self)@).len(),
            all_zero(encode_utf8(final(self)@)),
        opens_invariants none
        no_unwind
    {
        self.erase();
    }
}

} // verus!
