use vstd::prelude::*;
use vstd::string::StringSliceAdditionalSpecFns;
use vstd::utf8::{encode_utf8, is_ascii_chars};
use crate::error::FromSourceError;
use crate::soft_string::SoftAsciiString;

verus! {

/// A text wrapper adding an "is us-ascii" soft constraint.
///
/// The wrapped text should be ASCII but is not guaranteed to be ASCII: a
/// non-ASCII code point is not a safety issue, only a potential bug. The
/// constraint is checked once, by the checked constructor [`SoftAsciiStr::from_str`],
/// and on demand by [`SoftAsciiStr::revalidate_soft_constraint`]; no other
/// operation re-checks it.
///
/// The wrapper holds the native string by value and every borrowing operation
/// of the native slice type is mirrored here as an operation that re-wraps its
/// result. Its view is the sequence of characters of the wrapped text;
/// [`SoftAsciiStr::spec_bytes`] gives the corresponding UTF-8 bytes.
#[derive(Debug, Clone)]
pub struct SoftAsciiStr {
    inner: String,
}

impl View for SoftAsciiStr {
    type V = Seq<char>;

    closed spec fn view(&self) -> Seq<char> {
        self.inner@
    }
}

impl SoftAsciiStr {
    /// The UTF-8 bytes of the wrapped text.
    pub open spec fn spec_bytes(&self) -> Seq<u8> {
        encode_utf8(self@)
    }

    /// Wraps existing UTF-8 text as soft-constrained text without scanning it.
    ///
    /// The caller asserts that the text is ASCII; a mismatch is not detected
    /// here and only surfaces through [`SoftAsciiStr::revalidate_soft_constraint`].
    pub fn from_unchecked(s: &str) -> (r: SoftAsciiStr)
        ensures
            r@ == s@,
    {
        SoftAsciiStr { inner: s.to_owned() }
    }

    /// Equivalent to [`SoftAsciiStr::from_unchecked`], kept under its older name.
    pub fn from_str_unchecked(s: &str) -> (r: SoftAsciiStr)
        ensures
            r@ == s@,
    {
        SoftAsciiStr::from_unchecked(s)
    }

    /// Checked construction: scans the input and accepts it exactly when every
    /// code point is ASCII; a rejected input is handed back inside the error.
    pub fn from_str(source: &str) -> (r: Result<SoftAsciiStr, FromSourceError>)
        ensures
            r is Ok <==> is_ascii_chars(source@),
            r matches Ok(s) ==> s@ == source@,
            r matches Err(e) ==> e@ == source@,
    {
        if source.is_ascii() {
            Ok(SoftAsciiStr::from_unchecked(source))
        } else {
            Err(FromSourceError::new(source.to_owned()))
        }
    }

    /// Re-runs the check that the "is us-ascii" soft constraint still holds.
    ///
    /// Succeeds, returning the view itself, exactly when the current content
    /// is all ASCII; fails carrying the current content otherwise.
    pub fn revalidate_soft_constraint(&self) -> (r: Result<&SoftAsciiStr, FromSourceError>)
        ensures
            r is Ok <==> is_ascii_chars(self@),
            r matches Ok(s) ==> s@ == self@,
            r matches Err(e) ==> e@ == self@,
    {
        if self.inner.as_str().is_ascii() {
            Ok(self)
        } else {
            Err(FromSourceError::new(self.inner.clone()))
        }
    }

    /// Exposes the underlying native string slice.
    pub fn as_str(&self) -> (r: &str)
        ensures
            r@ == self@,
    {
        self.inner.as_str()
    }

    /// Converts this value into its owned counterpart without rescanning.
    pub fn into_soft_ascii_string(self) -> (r: SoftAsciiString)
        ensures
            r@ == self@,
    {
        SoftAsciiString::from_unchecked(self.inner)
    }

    /// Copies this text into its owned counterpart without rescanning.
    pub fn to_soft_ascii_string(&self) -> (r: SoftAsciiString)
        ensures
            r@ == self@,
    {
        SoftAsciiString::from_unchecked(self.inner.clone())
    }

    /// Exposes the underlying native string for in-place mutation.
    ///
    /// It is easy to break the soft constraint through this path; that is not
    /// a safety issue, and [`SoftAsciiStr::revalidate_soft_constraint`] exists
    /// to detect it afterwards.
    pub fn inner_str_mut(&mut self) -> (r: &mut String)
        ensures
            (*r)@ == old(self)@,
            final(self)@ == (*final(r))@,
    {
        &mut self.inner
    }

    /// The length of the wrapped text, in bytes.
    pub fn len(&self) -> (r: usize)
        ensures
            r == self.spec_bytes().len(),
    {
        proof {
            broadcast use vstd::slice::group_slice_axioms;
        }
        self.inner.as_str().as_bytes().len()
    }

    /// Reports whether the wrapped text is empty.
    pub fn is_empty(&self) -> (r: bool)
        ensures
            r == (self@.len() == 0),
    {
        self.inner.as_str().is_empty()
    }

    /// Reports whether the wrapped text actually is all ASCII, without
    /// mutating or rejecting anything.
    pub fn is_ascii(&self) -> (r: bool)
        ensures
            r == is_ascii_chars(self@),
    {
        self.inner.as_str().is_ascii()
    }

    /// Exposes the UTF-8 bytes of the wrapped text.
    pub fn as_bytes(&self) -> (r: &[u8])
        ensures
            r@ == self.spec_bytes(),
    {
        self.inner.as_str().as_bytes()
    }

    /// Returns the UTF-16 code units of the text, in order.
    pub fn encode_utf16(&self) -> (r: Vec<u16>)
        ensures
            r@ == crate::text::spec_encode_utf16(self@),
    {
        let s = self.inner.as_str();
        let n = s.unicode_len();
        let mut out: Vec<u16> = Vec::new();
        let mut i: usize = 0;
        while i < n
            invariant
                n == s@.len(),
                s@ == self@,
                0 <= i <= n,
                out@ == crate::text::spec_encode_utf16(self@.take(i as int)),
            decreases n - i,
        {
            let c = s.get_char(i);
            let ghost prev = out@;
            let u = c as u32;
            if u < 0x10000 {
                out.push(u as u16);
            } else {
                let v = u - 0x10000;
                assert(v / 0x400 < 0x400 && v % 0x400 < 0x400) by (nonlinear_arith)
                    requires
                        v < 0x100000,
                ;
                out.push((0xd800 + v / 0x400) as u16);
                out.push((0xdc00 + v % 0x400) as u16);
            }
            proof {
                crate::text::lemma_encode_utf16_snoc(self@.take(i as int), self@[i as int]);
                assert(self@.take(i + 1) =~= self@.take(i as int).push(self@[i as int]));
                assert(out@ =~= prev + crate::text::utf16_units(self@[i as int]));
            }
            i += 1;
        }
        proof {
            assert(self@.take(n as int) =~= self@);
        }
        out
    }

    /// Reports whether the byte offset `index` falls on a code-point boundary
    /// of the wrapped text.
    pub fn is_char_boundary(&self, index: usize) -> (r: bool)
        ensures
            r == vstd::utf8::is_char_boundary(self.spec_bytes(), index as int),
    {
        self.inner.as_str().is_char_boundary(index)
    }
}

impl SoftAsciiStr {
    /// Returns an iterator over the characters of the text, each re-tagged
    /// as soft-constrained.
    pub fn chars<'a>(&'a self) -> (r: crate::iter::SoftAsciiChars<'a>)
        ensures
            r.wf(),
            r@ == self@,
    {
        let byte_len = self.len();
        crate::iter::SoftAsciiChars::new(self.inner.as_str(), byte_len)
    }

    /// Returns an iterator over byte offsets and re-tagged characters.
    pub fn char_indices<'a>(&'a self) -> (r: crate::iter::SoftAsciiCharIndices<'a>)
        ensures
            r.wf(),
            r@ == self@,
            r.underlying() == self@,
            r.front() == 0,
    {
        let byte_len = self.len();
        crate::iter::SoftAsciiCharIndices::new(self.inner.as_str(), byte_len)
    }

    /// Returns an iterator over the lines of the text, each line re-wrapped.
    pub fn lines<'a>(&'a self) -> (r: crate::iter::SoftAsciiLines<'a>)
        ensures
            r.wf(),
            r@ == self@,
    {
        crate::iter::SoftAsciiLines::new(self.inner.as_str())
    }

    /// Returns an iterator over the white-space-separated words of the
    /// text, each word re-wrapped.
    pub fn split_whitespace<'a>(&'a self) -> (r: crate::iter::SoftAsciiSplitWhitespace<'a>)
        ensures
            r.wf(),
            r@ == self@,
    {
        crate::iter::SoftAsciiSplitWhitespace::new(self.inner.as_str())
    }

    /// Splits the text at the byte offset `mid`, which must fall on a
    /// code-point boundary, into two re-wrapped views; their contents
    /// concatenated give back the original text.
    pub fn split_at(&self, mid: usize) -> (r: (SoftAsciiStr, SoftAsciiStr))
        requires
            vstd::utf8::is_char_boundary(self.spec_bytes(), mid as int),
        ensures
            r.0.spec_bytes() == self.spec_bytes().subrange(0, mid as int),
            r.1.spec_bytes() == self.spec_bytes().subrange(
                mid as int,
                self.spec_bytes().len() as int,
            ),
            r.0.spec_bytes() + r.1.spec_bytes() == self.spec_bytes(),
            r.0@ + r.1@ == self@,
    {
        proof {
            broadcast use vstd::utf8::encode_utf8_valid_utf8;
            broadcast use vstd::utf8::encode_utf8_decode_utf8;

            vstd::utf8::decode_utf8_split(self.spec_bytes(), mid as int);
        }
        let (l, rt) = self.inner.as_str().split_at(mid);
        let left = SoftAsciiStr::from_unchecked(l);
        let right = SoftAsciiStr::from_unchecked(rt);
        proof {
            assert(left.spec_bytes() + right.spec_bytes() =~= self.spec_bytes());
        }
        (left, right)
    }

    /// Ranged access at byte offsets: returns a re-wrapped view over the
    /// sub-slice the range resolves to. Both resolved bounds must fall on
    /// code-point boundaries, as with native slicing.
    pub fn get_unchecked<I: crate::slice_index::TempSliceIndexHelper>(&self, index: I) -> (r:
        SoftAsciiStr)
        requires
            0 <= index.start_spec(self.spec_bytes().len()) <= index.end_spec(
                self.spec_bytes().len(),
            ) <= self.spec_bytes().len(),
            vstd::utf8::is_char_boundary(
                self.spec_bytes(),
                index.start_spec(self.spec_bytes().len()),
            ),
            vstd::utf8::is_char_boundary(
                self.spec_bytes(),
                index.end_spec(self.spec_bytes().len()),
            ),
        ensures
            r.spec_bytes() == self.spec_bytes().subrange(
                index.start_spec(self.spec_bytes().len()),
                index.end_spec(self.spec_bytes().len()),
            ),
    {
        let len = self.len();
        let (a, b) = index.resolve(len);
        let (head, _) = self.inner.as_str().split_at(b);
        proof {
            let bytes = self.spec_bytes();
            let hb = bytes.subrange(0, b as int);
            vstd::utf8::encode_utf8_valid_utf8(self@);
            vstd::utf8::valid_utf8_split(bytes, b as int);
            if a < b {
                vstd::utf8::is_char_boundary_iff_not_is_continuation_byte(bytes, a as int);
                vstd::utf8::is_char_boundary_iff_not_is_continuation_byte(hb, a as int);
                assert(hb[a as int] == bytes[a as int]);
            } else {
                vstd::utf8::is_char_boundary_start_end_of_seq(hb);
                assert(a as int == hb.len());
            }
            assert(head.spec_bytes() == hb);
            assert(vstd::utf8::is_char_boundary(head.spec_bytes(), a as int));
        }
        let (_, mid) = head.split_at(a);
        proof {
            assert(mid.spec_bytes() =~= self.spec_bytes().subrange(a as int, b as int));
        }
        SoftAsciiStr::from_unchecked(mid)
    }

    /// Returns a re-wrapped copy with leading white space removed.
    pub fn trim_start(&self) -> (r: SoftAsciiStr)
        ensures
            r@ == self@.skip(crate::text::leading_run(self@, true)),
    {
        let s = self.inner.as_str();
        let n = s.unicode_len();
        let mut i: usize = 0;
        while i < n && crate::text::char_is_whitespace(s.get_char(i))
            invariant
                n == s@.len(),
                s@ == self@,
                0 <= i <= n,
                forall|j: int| 0 <= j < i ==> crate::text::is_text_whitespace(s@[j]),
            decreases n - i,
        {
            i += 1;
        }
        proof {
            crate::text::lemma_leading_run_unique(self@, true, i as int);
        }
        let piece = s.substring_char(i, n);
        proof {
            assert(piece@ =~= self@.skip(i as int));
        }
        SoftAsciiStr::from_unchecked(piece)
    }

    /// Returns a re-wrapped copy with trailing white space removed.
    pub fn trim_end(&self) -> (r: SoftAsciiStr)
        ensures
            r@ == self@.take(self@.len() - crate::text::trailing_ws_run(self@)),
    {
        let s = self.inner.as_str();
        let n = s.unicode_len();
        let mut e: usize = n;
        while e > 0 && crate::text::char_is_whitespace(s.get_char(e - 1))
            invariant
                n == s@.len(),
                s@ == self@,
                0 <= e <= n,
                forall|j: int| e <= j < n ==> crate::text::is_text_whitespace(s@[j]),
            decreases e,
        {
            e -= 1;
        }
        proof {
            crate::text::lemma_trailing_ws_run_unique(self@, n - e);
        }
        let piece = s.substring_char(0, e);
        proof {
            assert(piece@ =~= self@.take(e as int));
        }
        SoftAsciiStr::from_unchecked(piece)
    }

    /// Returns a re-wrapped copy with white space removed from both ends.
    pub fn trim(&self) -> (r: SoftAsciiStr)
        ensures
            r@ == crate::text::spec_trim(self@),
    {
        let s = self.inner.as_str();
        let n = s.unicode_len();
        let mut i: usize = 0;
        while i < n && crate::text::char_is_whitespace(s.get_char(i))
            invariant
                n == s@.len(),
                s@ == self@,
                0 <= i <= n,
                forall|j: int| 0 <= j < i ==> crate::text::is_text_whitespace(s@[j]),
            decreases n - i,
        {
            i += 1;
        }
        proof {
            crate::text::lemma_leading_run_unique(self@, true, i as int);
        }
        let mut e: usize = n;
        while e > i && crate::text::char_is_whitespace(s.get_char(e - 1))
            invariant
                n == s@.len(),
                s@ == self@,
                i <= e <= n,
                forall|j: int| e <= j < n ==> crate::text::is_text_whitespace(s@[j]),
            decreases e,
        {
            e -= 1;
        }
        let piece = s.substring_char(i, e);
        proof {
            let t = self@.skip(i as int);
            assert forall|j: int| t.len() - (n - e) <= j < t.len() implies
                crate::text::is_text_whitespace(t[j]) by {
                assert(t[j] == self@[i + j]);
            }
            if t.len() - (n - e) - 1 >= 0 {
                assert(t[e - i - 1] == self@[e - 1]);
            }
            crate::text::lemma_trailing_ws_run_unique(t, n - e);
            assert(piece@ =~= t.take(e - i));
        }
        SoftAsciiStr::from_unchecked(piece)
    }

    /// Returns the text repeated `n` times, as an owned soft-constrained
    /// buffer built without rescanning.
    pub fn repeat(&self, n: usize) -> (r: SoftAsciiString)
        ensures
            r@ == crate::text::spec_repeat(self@, n as nat),
    {
        let mut out = String::new();
        let mut i: usize = 0;
        while i < n
            invariant
                0 <= i <= n,
                out@ == crate::text::spec_repeat(self@, i as nat),
            decreases n - i,
        {
            out.append(self.inner.as_str());
            i += 1;
        }
        SoftAsciiString::from_unchecked(out)
    }

    /// Returns the lowercase conversion of the text, as an owned
    /// soft-constrained buffer built without rescanning. On all-ASCII input
    /// the conversion cannot introduce a non-ASCII character, so the
    /// unchecked re-wrap preserves the soft constraint.
    pub fn to_lowercase(&self) -> (r: SoftAsciiString)
        ensures
            r@ == crate::text::lower_chars_of(self@),
            is_ascii_chars(self@) ==> is_ascii_chars(r@),
    {
        SoftAsciiString::from_unchecked(str_to_lowercase(self.inner.as_str()))
    }

    /// Returns the uppercase conversion of the text, as an owned
    /// soft-constrained buffer built without rescanning. On all-ASCII input
    /// the conversion cannot introduce a non-ASCII character, so the
    /// unchecked re-wrap preserves the soft constraint.
    pub fn to_uppercase(&self) -> (r: SoftAsciiString)
        ensures
            r@ == crate::text::upper_chars_of(self@),
            is_ascii_chars(self@) ==> is_ascii_chars(r@),
    {
        SoftAsciiString::from_unchecked(str_to_uppercase(self.inner.as_str()))
    }
}

/// Relies on str::to_lowercase: the result is determined by the input
/// characters alone, and lowercasing maps ASCII characters (`A`-`Z` to
/// `a`-`z`, the rest unchanged) to ASCII characters.
#[verifier::external_body]
fn str_to_lowercase(s: &str) -> (r: String)
    ensures
        r@ == crate::text::lower_chars_of(s@),
        is_ascii_chars(s@) ==> is_ascii_chars(r@),
{
    s.to_lowercase()
}

/// Relies on str::to_uppercase: the result is determined by the input
/// characters alone, and uppercasing maps ASCII characters (`a`-`z` to
/// `A`-`Z`, the rest unchanged) to ASCII characters.
#[verifier::external_body]
fn str_to_uppercase(s: &str) -> (r: String)
    ensures
        r@ == crate::text::upper_chars_of(s@),
        is_ascii_chars(s@) ==> is_ascii_chars(r@),
{
    s.to_uppercase()
}

impl Default for SoftAsciiStr {
    /// The empty soft-constrained text.
    fn default() -> (r: SoftAsciiStr)
        ensures
            r@ == Seq::<char>::empty(),
    {
        SoftAsciiStr { inner: String::new() }
    }
}

} // verus!
