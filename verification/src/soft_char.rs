use vstd::prelude::*;

verus! {

/// A `char` wrapper adding an "is us-ascii" soft constraint.
///
/// The character is expected, but not guaranteed, to lie in the ASCII range;
/// a non-ASCII character is not a safety issue, only a potential bug.
#[derive(Debug, Clone, Copy, PartialEq, Eq, Structural)]
pub struct SoftAsciiChar {
    inner: char,
}

impl View for SoftAsciiChar {
    type V = char;

    closed spec fn view(&self) -> char {
        self.inner
    }
}

impl SoftAsciiChar {
    /// Re-tags an existing character as soft-constrained without checking it.
    pub fn from_unchecked(c: char) -> (r: SoftAsciiChar)
        ensures
            r@ == c,
    {
        SoftAsciiChar { inner: c }
    }

    /// Returns the wrapped character.
    pub fn to_char(&self) -> (r: char)
        ensures
            r == self@,
    {
        self.inner
    }

    /// Reports whether the wrapped character actually is ASCII.
    pub fn is_ascii(&self) -> (r: bool)
        ensures
            r == ('\0' <= self@ <= '\u{7f}'),
    {
        (self.inner as u32) < 128
    }
}

} // verus!
