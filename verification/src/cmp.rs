//! Cross-type value equality for the soft-constrained text types: each
//! pairing compares the exposed content character for character through one
//! canonical primitive, [`crate::text::str_content_eq`], and none re-checks
//! the soft constraint.

use vstd::prelude::*;
use vstd::std_specs::cmp::PartialEqSpecImpl;
use std::borrow::Cow;
use crate::soft_str::SoftAsciiStr;
use crate::soft_string::SoftAsciiString;
use crate::text::str_content_eq;

verus! {

/// The characters a copy-on-write native text exposes, whichever side it
/// currently holds.
pub open spec fn cow_str_chars(c: Cow<'_, str>) -> Seq<char> {
    match c {
        Cow::Borrowed(b) => b@,
        Cow::Owned(o) => o@,
    }
}

impl PartialEq for SoftAsciiStr {
    fn eq(&self, other: &SoftAsciiStr) -> (r: bool) {
        str_content_eq(self.as_str(), other.as_str())
    }
}

impl PartialEqSpecImpl for SoftAsciiStr {
    open spec fn obeys_eq_spec() -> bool {
        true
    }

    open spec fn eq_spec(&self, other: &SoftAsciiStr) -> bool {
        self@ == other@
    }
}

impl PartialEq for SoftAsciiString {
    fn eq(&self, other: &SoftAsciiString) -> (r: bool) {
        str_content_eq(self.as_str(), other.as_str())
    }
}

impl PartialEqSpecImpl for SoftAsciiString {
    open spec fn obeys_eq_spec() -> bool {
        true
    }

    open spec fn eq_spec(&self, other: &SoftAsciiString) -> bool {
        self@ == other@
    }
}

impl PartialEq<SoftAsciiString> for SoftAsciiStr {
    fn eq(&self, other: &SoftAsciiString) -> (r: bool) {
        str_content_eq(self.as_str(), other.as_str())
    }
}

impl PartialEqSpecImpl<SoftAsciiString> for SoftAsciiStr {
    open spec fn obeys_eq_spec() -> bool {
        true
    }

    open spec fn eq_spec(&self, other: &SoftAsciiString) -> bool {
        self@ == other@
    }
}

impl PartialEq<SoftAsciiStr> for SoftAsciiString {
    fn eq(&self, other: &SoftAsciiStr) -> (r: bool) {
        str_content_eq(self.as_str(), other.as_str())
    }
}

impl PartialEqSpecImpl<SoftAsciiStr> for SoftAsciiString {
    open spec fn obeys_eq_spec() -> bool {
        true
    }

    open spec fn eq_spec(&self, other: &SoftAsciiStr) -> bool {
        self@ == other@
    }
}

impl PartialEq<str> for SoftAsciiStr {
    fn eq(&self, other: &str) -> (r: bool) {
        str_content_eq(self.as_str(), other)
    }
}

impl PartialEqSpecImpl<str> for SoftAsciiStr {
    open spec fn obeys_eq_spec() -> bool {
        true
    }

    open spec fn eq_spec(&self, other: &str) -> bool {
        self@ == other@
    }
}

impl PartialEq<SoftAsciiStr> for str {
    fn eq(&self, other: &SoftAsciiStr) -> (r: bool) {
        str_content_eq(self, other.as_str())
    }
}

impl PartialEqSpecImpl<SoftAsciiStr> for str {
    open spec fn obeys_eq_spec() -> bool {
        true
    }

    open spec fn eq_spec(&self, other: &SoftAsciiStr) -> bool {
        self@ == other@
    }
}

impl PartialEq<String> for SoftAsciiStr {
    fn eq(&self, other: &String) -> (r: bool) {
        str_content_eq(self.as_str(), other.as_str())
    }
}

impl PartialEqSpecImpl<String> for SoftAsciiStr {
    open spec fn obeys_eq_spec() -> bool {
        true
    }

    open spec fn eq_spec(&self, other: &String) -> bool {
        self@ == other@
    }
}

impl PartialEq<SoftAsciiStr> for String {
    fn eq(&self, other: &SoftAsciiStr) -> (r: bool) {
        str_content_eq(self.as_str(), other.as_str())
    }
}

impl PartialEqSpecImpl<SoftAsciiStr> for String {
    open spec fn obeys_eq_spec() -> bool {
        true
    }

    open spec fn eq_spec(&self, other: &SoftAsciiStr) -> bool {
        self@ == other@
    }
}

impl PartialEq<String> for SoftAsciiString {
    fn eq(&self, other: &String) -> (r: bool) {
        str_content_eq(self.as_str(), other.as_str())
    }
}

impl PartialEqSpecImpl<String> for SoftAsciiString {
    open spec fn obeys_eq_spec() -> bool {
        true
    }

    open spec fn eq_spec(&self, other: &String) -> bool {
        self@ == other@
    }
}

impl PartialEq<SoftAsciiString> for String {
    fn eq(&self, other: &SoftAsciiString) -> (r: bool) {
        str_content_eq(self.as_str(), other.as_str())
    }
}

impl PartialEqSpecImpl<SoftAsciiString> for String {
    open spec fn obeys_eq_spec() -> bool {
        true
    }

    open spec fn eq_spec(&self, other: &SoftAsciiString) -> bool {
        self@ == other@
    }
}

/// The characters a copy-on-write soft-constrained text exposes, whichever
/// side it currently holds.
pub open spec fn cow_soft_chars(c: Cow<'_, SoftAsciiStr>) -> Seq<char> {
    match c {
        Cow::Borrowed(b) => b@,
        Cow::Owned(o) => o@,
    }
}

impl<'a> PartialEq<Cow<'a, SoftAsciiStr>> for SoftAsciiStr {
    fn eq(&self, other: &Cow<'a, SoftAsciiStr>) -> (r: bool) {
        match other {
            Cow::Borrowed(b) => str_content_eq(self.as_str(), b.as_str()),
            Cow::Owned(o) => str_content_eq(self.as_str(), o.as_str()),
        }
    }
}

impl<'a> PartialEqSpecImpl<Cow<'a, SoftAsciiStr>> for SoftAsciiStr {
    open spec fn obeys_eq_spec() -> bool {
        true
    }

    open spec fn eq_spec(&self, other: &Cow<'a, SoftAsciiStr>) -> bool {
        self@ == cow_soft_chars(*other)
    }
}

impl<'a> PartialEq<SoftAsciiStr> for Cow<'a, SoftAsciiStr> {
    fn eq(&self, other: &SoftAsciiStr) -> (r: bool) {
        match self {
            Cow::Borrowed(b) => str_content_eq(b.as_str(), other.as_str()),
            Cow::Owned(o) => str_content_eq(o.as_str(), other.as_str()),
        }
    }
}

impl<'a> PartialEqSpecImpl<SoftAsciiStr> for Cow<'a, SoftAsciiStr> {
    open spec fn obeys_eq_spec() -> bool {
        true
    }

    open spec fn eq_spec(&self, other: &SoftAsciiStr) -> bool {
        cow_soft_chars(*self) == other@
    }
}

impl<'a> PartialEq<Cow<'a, str>> for SoftAsciiStr {
    fn eq(&self, other: &Cow<'a, str>) -> (r: bool) {
        match other {
            Cow::Borrowed(b) => str_content_eq(self.as_str(), b),
            Cow::Owned(o) => str_content_eq(self.as_str(), o.as_str()),
        }
    }
}

impl<'a> PartialEqSpecImpl<Cow<'a, str>> for SoftAsciiStr {
    open spec fn obeys_eq_spec() -> bool {
        true
    }

    open spec fn eq_spec(&self, other: &Cow<'a, str>) -> bool {
        self@ == cow_str_chars(*other)
    }
}

impl<'a> PartialEq<SoftAsciiStr> for Cow<'a, str> {
    fn eq(&self, other: &SoftAsciiStr) -> (r: bool) {
        match self {
            Cow::Borrowed(b) => str_content_eq(b, other.as_str()),
            Cow::Owned(o) => str_content_eq(o.as_str(), other.as_str()),
        }
    }
}

impl<'a> PartialEqSpecImpl<SoftAsciiStr> for Cow<'a, str> {
    open spec fn obeys_eq_spec() -> bool {
        true
    }

    open spec fn eq_spec(&self, other: &SoftAsciiStr) -> bool {
        cow_str_chars(*self) == other@
    }
}

} // verus!
