use vstd::prelude::*;
use vstd::utf8::{encode_utf8, is_ascii_chars};

verus! {

/// A `String` wrapper adding an "is us-ascii" soft constraint.
///
/// This is the owned counterpart of [`crate::soft_str::SoftAsciiStr`]: it owns
/// a growable UTF-8 buffer that is expected, but not guaranteed, to contain
/// only ASCII code points. Its view is the sequence of characters it holds.
#[derive(Debug)]
pub struct SoftAsciiString {
    inner: String,
}

impl View for SoftAsciiString {
    type V = Seq<char>;

    closed spec fn view(&self) -> Seq<char> {
        self.inner@
    }
}

impl SoftAsciiString {
    /// The UTF-8 bytes of the wrapped buffer.
    pub open spec fn spec_bytes(&self) -> Seq<u8> {
        encode_utf8(self@)
    }

    /// Wraps an owned native string as soft-constrained text without
    /// checking it.
    pub fn from_unchecked(s: String) -> (r: SoftAsciiString)
        ensures
            r@ == s@,
    {
        SoftAsciiString { inner: s }
    }

    /// Exposes the underlying native string slice.
    pub fn as_str(&self) -> (r: &str)
        ensures
            r@ == self@,
    {
        self.inner.as_str()
    }

    /// Unwraps the underlying native string.
    pub fn into_string(self) -> (r: String)
        ensures
            r@ == self@,
    {
        self.inner
    }

    /// The length of the wrapped buffer, in bytes.
    pub fn len(&self) -> (r: usize)
        ensures
            r == self.spec_bytes().len(),
    {
        proof {
            broadcast use vstd::slice::group_slice_axioms;
        }
        self.inner.as_str().as_bytes().len()
    }

    /// Reports whether the wrapped buffer is empty.
    pub fn is_empty(&self) -> (r: bool)
        ensures
            r == (self@.len() == 0),
    {
        self.inner.as_str().is_empty()
    }

    /// Reports whether the wrapped buffer actually is all ASCII.
    pub fn is_ascii(&self) -> (r: bool)
        ensures
            r == is_ascii_chars(self@),
    {
        self.inner.as_str().is_ascii()
    }

    /// Copies this buffer into a borrowed-style view value, without
    /// rescanning; the counterpart of building the owned form from a view.
    pub fn to_soft_ascii_str(&self) -> (r: crate::soft_str::SoftAsciiStr)
        ensures
            r@ == self@,
    {
        crate::soft_str::SoftAsciiStr::from_unchecked(self.inner.as_str())
    }
}

} // verus!
