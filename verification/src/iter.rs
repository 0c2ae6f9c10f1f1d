//! The iterator adapters: each walks the underlying text of a
//! [`crate::soft_str::SoftAsciiStr`] and re-tags every item it yields as
//! soft-constrained on the way out.
//!
//! Each adapter borrows the underlying slice and keeps explicit cursor
//! positions; its view is the part of the text it has not yet yielded.

use vstd::prelude::*;
use vstd::utf8::encode_utf8;
use crate::soft_char::SoftAsciiChar;
use crate::soft_str::SoftAsciiStr;
use crate::text::char_is_whitespace;
use crate::text::char_utf8_len;
use crate::text::is_text_whitespace;
use crate::text::spec_lines;
use crate::text::spec_split_whitespace;

verus! {

/// Yields the characters of the text, each re-tagged as a
/// [`SoftAsciiChar`]. Supports traversal from both ends.
#[derive(Debug, Clone)]
pub struct SoftAsciiChars<'a> {
    s: &'a str,
    pos: usize,
    end: usize,
    front_off: usize,
    back_off: usize,
}

impl<'a> View for SoftAsciiChars<'a> {
    type V = Seq<char>;

    closed spec fn view(&self) -> Seq<char> {
        self.s@.subrange(self.pos as int, self.end as int)
    }
}

impl<'a> SoftAsciiChars<'a> {
    /// The cursors lie within the text and the byte offsets are those of the
    /// cursors' characters.
    pub closed spec fn wf(&self) -> bool {
        &&& 0 <= self.pos <= self.end <= self.s@.len()
        &&& self.front_off == encode_utf8(self.s@.take(self.pos as int)).len()
        &&& self.back_off == encode_utf8(self.s@.take(self.end as int)).len()
    }

    pub(crate) fn new(s: &'a str, byte_len: usize) -> (r: SoftAsciiChars<'a>)
        requires
            byte_len == encode_utf8(s@).len(),
        ensures
            r.wf(),
            r@ == s@,
    {
        let n = s.unicode_len();
        let r = SoftAsciiChars { s, pos: 0, end: n, front_off: 0, back_off: byte_len };
        proof {
            assert(r@ =~= s@);
            assert(s@.take(0) =~= Seq::<char>::empty());
            assert(encode_utf8(Seq::<char>::empty()) =~= Seq::<u8>::empty());
            assert(s@.take(n as int) =~= s@);
        }
        r
    }

    /// Yields the next character from the front, re-tagged, or nothing when
    /// the traversal is exhausted.
    pub fn next(&mut self) -> (r: Option<SoftAsciiChar>)
        requires
            old(self).wf(),
        ensures
            final(self).wf(),
            old(self)@.len() == 0 ==> r is None && final(self)@ == old(self)@,
            old(self)@.len() > 0 ==> (r matches Some(c) && c@ == old(self)@[0] && final(self)@
                == old(self)@.drop_first()),
    {
        if self.pos < self.end {
            let c = self.s.get_char(self.pos);
            let l = char_utf8_len(c);
            proof {
                let u = self.s@;
                crate::text::lemma_encode_utf8_take_step(u, self.pos as int);
                crate::text::lemma_encode_utf8_take_mono(u, self.pos + 1, self.end as int);
            }
            self.front_off = self.front_off + l;
            self.pos = self.pos + 1;
            proof {
                assert(final(self)@ =~= old(self)@.drop_first());
            }
            Some(SoftAsciiChar::from_unchecked(c))
        } else {
            None
        }
    }

    /// Yields the next character from the back, re-tagged.
    pub fn next_back(&mut self) -> (r: Option<SoftAsciiChar>)
        requires
            old(self).wf(),
        ensures
            final(self).wf(),
            old(self)@.len() == 0 ==> r is None && final(self)@ == old(self)@,
            old(self)@.len() > 0 ==> (r matches Some(c) && c@ == old(self)@.last() && final(self)@ == old(self)@.drop_last()),
    {
        if self.pos < self.end {
            let c = self.s.get_char(self.end - 1);
            let l = char_utf8_len(c);
            proof {
                let u = self.s@;
                crate::text::lemma_encode_utf8_take_step(u, self.end - 1);
            }
            self.back_off = self.back_off - l;
            self.end = self.end - 1;
            proof {
                assert(final(self)@ =~= old(self)@.drop_last());
            }
            Some(SoftAsciiChar::from_unchecked(c))
        } else {
            None
        }
    }

    /// The number of characters left.
    pub fn count(self) -> (r: usize)
        requires
            self.wf(),
        ensures
            r == self@.len(),
    {
        self.end - self.pos
    }

    /// Lower and upper bound on the number of characters left, forwarded as
    /// the wrapped native character iterator gives them: the remaining byte
    /// count divided by the longest encoding, and the byte count itself.
    pub fn size_hint(&self) -> (r: (usize, Option<usize>))
        requires
            self.wf(),
        ensures
            r.0 == (encode_utf8(self@).len() + 3) / 4,
            r.1 matches Some(h) && h == encode_utf8(self@).len(),
    {
        proof {
            crate::text::lemma_encode_utf8_concat(self.s@.take(self.pos as int), self@);
            assert(self.s@.take(self.end as int) =~= self.s@.take(self.pos as int) + self@);
        }
        let rem = self.back_off - self.front_off;
        let lower = if rem % 4 == 0 {
            rem / 4
        } else {
            rem / 4 + 1
        };
        proof {
            assert(rem / 4 <= rem && (rem % 4 == 0 ==> (rem + 3) / 4 == rem / 4) && (rem % 4 != 0
                ==> (rem + 3) / 4 == rem / 4 + 1)) by (nonlinear_arith)
                requires
                    rem >= 0,
            ;
        }
        (lower, Some(rem))
    }

    /// The last remaining character, re-tagged, or nothing when exhausted.
    pub fn last(self) -> (r: Option<SoftAsciiChar>)
        requires
            self.wf(),
        ensures
            self@.len() == 0 ==> r is None,
            self@.len() > 0 ==> (r matches Some(c) && c@ == self@.last()),
    {
        if self.pos < self.end {
            Some(SoftAsciiChar::from_unchecked(self.s.get_char(self.end - 1)))
        } else {
            None
        }
    }
}

/// Yields pairs of byte offset and re-tagged character, as the native
/// indexed character iterator does. Supports traversal from both ends.
#[derive(Debug, Clone)]
pub struct SoftAsciiCharIndices<'a> {
    s: &'a str,
    pos: usize,
    end: usize,
    front_off: usize,
    back_off: usize,
}

impl<'a> View for SoftAsciiCharIndices<'a> {
    type V = Seq<char>;

    closed spec fn view(&self) -> Seq<char> {
        self.s@.subrange(self.pos as int, self.end as int)
    }
}

impl<'a> SoftAsciiCharIndices<'a> {
    /// The whole text being walked.
    pub closed spec fn underlying(&self) -> Seq<char> {
        self.s@
    }

    /// Character index of the front cursor.
    pub closed spec fn front(&self) -> int {
        self.pos as int
    }

    /// Character index past the back cursor.
    pub closed spec fn back(&self) -> int {
        self.end as int
    }

    /// The cursors lie within the text and the byte offsets are those of the
    /// cursors' characters.
    pub open spec fn wf(&self) -> bool {
        &&& 0 <= self.front() <= self.back() <= self.underlying().len()
        &&& self.spec_front_off() == encode_utf8(self.underlying().take(self.front())).len()
        &&& self.spec_back_off() == encode_utf8(self.underlying().take(self.back())).len()
    }

    /// Byte offset of the front cursor.
    pub closed spec fn spec_front_off(&self) -> int {
        self.front_off as int
    }

    /// Byte offset past the last byte of the back cursor's character.
    pub closed spec fn spec_back_off(&self) -> int {
        self.back_off as int
    }

    pub(crate) fn new(s: &'a str, byte_len: usize) -> (r: SoftAsciiCharIndices<'a>)
        requires
            byte_len == encode_utf8(s@).len(),
        ensures
            r.wf(),
            r@ == s@,
            r.underlying() == s@,
            r.front() == 0,
    {
        let n = s.unicode_len();
        let r = SoftAsciiCharIndices { s, pos: 0, end: n, front_off: 0, back_off: byte_len };
        proof {
            assert(r@ =~= s@);
            assert(s@.take(0) =~= Seq::<char>::empty());
            assert(encode_utf8(Seq::<char>::empty()) =~= Seq::<u8>::empty());
            assert(s@.take(n as int) =~= s@);
        }
        r
    }

    /// Yields the next character from the front together with its byte
    /// offset in the underlying text.
    pub fn next(&mut self) -> (r: Option<(usize, SoftAsciiChar)>)
        requires
            old(self).wf(),
        ensures
            final(self).wf(),
            final(self).underlying() == old(self).underlying(),
            final(self).back() == old(self).back(),
            old(self)@.len() == 0 ==> r is None && final(self)@ == old(self)@ && final(self).front() == old(self).front(),
            old(self)@.len() > 0 ==> (r matches Some(p) && p.1@ == old(self)@[0] && p.0 == old(self).spec_front_off() && final(self).front() == old(self).front() + 1 && final(self)@
                == old(self)@.drop_first()),
    {
        if self.pos < self.end {
            let c = self.s.get_char(self.pos);
            let off = self.front_off;
            let l = char_utf8_len(c);
            proof {
                let u = self.s@;
                crate::text::lemma_encode_utf8_take_step(u, self.pos as int);
                crate::text::lemma_encode_utf8_take_mono(u, self.pos + 1, self.back());
            }
            self.front_off = self.front_off + l;
            self.pos = self.pos + 1;
            proof {
                assert(final(self)@ =~= old(self)@.drop_first());
            }
            Some((off, SoftAsciiChar::from_unchecked(c)))
        } else {
            None
        }
    }

    /// Yields the next character from the back together with its byte
    /// offset in the underlying text.
    pub fn next_back(&mut self) -> (r: Option<(usize, SoftAsciiChar)>)
        requires
            old(self).wf(),
        ensures
            final(self).wf(),
            final(self).underlying() == old(self).underlying(),
            final(self).front() == old(self).front(),
            old(self)@.len() == 0 ==> r is None && final(self)@ == old(self)@ && final(self).back() == old(self).back(),
            old(self)@.len() > 0 ==> (r matches Some(p) && p.1@ == old(self)@.last() && p.0
                == encode_utf8(old(self).underlying().take(old(self).back() - 1)).len() && final(self).back() == old(self).back() - 1 && final(self)@ == old(self)@.drop_last()),
    {
        if self.pos < self.end {
            let c = self.s.get_char(self.end - 1);
            let l = char_utf8_len(c);
            proof {
                let u = self.s@;
                crate::text::lemma_encode_utf8_take_step(u, self.end - 1);
            }
            self.back_off = self.back_off - l;
            self.end = self.end - 1;
            let off = self.back_off;
            proof {
                assert(final(self)@ =~= old(self)@.drop_last());
            }
            Some((off, SoftAsciiChar::from_unchecked(c)))
        } else {
            None
        }
    }

    /// The number of characters left.
    pub fn count(self) -> (r: usize)
        requires
            self.wf(),
        ensures
            r == self@.len(),
    {
        self.end - self.pos
    }

    /// Lower and upper bound on the number of characters left, forwarded as
    /// the wrapped native indexed iterator gives them: the remaining byte
    /// count divided by the longest encoding, and the byte count itself.
    pub fn size_hint(&self) -> (r: (usize, Option<usize>))
        requires
            self.wf(),
        ensures
            r.0 == (encode_utf8(self@).len() + 3) / 4,
            r.1 matches Some(h) && h == encode_utf8(self@).len(),
    {
        proof {
            crate::text::lemma_encode_utf8_concat(self.s@.take(self.pos as int), self@);
            assert(self.s@.take(self.end as int) =~= self.s@.take(self.pos as int) + self@);
        }
        let rem = self.back_off - self.front_off;
        let lower = if rem % 4 == 0 {
            rem / 4
        } else {
            rem / 4 + 1
        };
        proof {
            assert(rem / 4 <= rem && (rem % 4 == 0 ==> (rem + 3) / 4 == rem / 4) && (rem % 4 != 0
                ==> (rem + 3) / 4 == rem / 4 + 1)) by (nonlinear_arith)
                requires
                    rem >= 0,
            ;
        }
        (lower, Some(rem))
    }

    /// The last remaining character with its byte offset, or nothing.
    pub fn last(self) -> (r: Option<(usize, SoftAsciiChar)>)
        requires
            self.wf(),
        ensures
            self@.len() == 0 ==> r is None,
            self@.len() > 0 ==> (r matches Some(p) && p.1@ == self@.last() && p.0 == encode_utf8(
                self.underlying().take(self.back() - 1),
            ).len()),
    {
        let mut it = self;
        it.next_back()
    }
}

/// Yields the lines of the text, one re-wrapped view per line, under the
/// native definition of line boundaries (see [`spec_lines`]).
#[derive(Debug, Clone)]
pub struct SoftAsciiLines<'a> {
    s: &'a str,
    pos: usize,
    back: usize,
}

impl<'a> View for SoftAsciiLines<'a> {
    type V = Seq<char>;

    closed spec fn view(&self) -> Seq<char> {
        self.s@.subrange(self.pos as int, self.back as int)
    }
}

impl<'a> SoftAsciiLines<'a> {
    /// The cursors lie within the text.
    pub closed spec fn wf(&self) -> bool {
        0 <= self.pos <= self.back <= self.s@.len()
    }

    pub(crate) fn new(s: &'a str) -> (r: SoftAsciiLines<'a>)
        ensures
            r.wf(),
            r@ == s@,
    {
        let n = s.unicode_len();
        let r = SoftAsciiLines { s, pos: 0, back: n };
        proof {
            assert(r@ =~= s@);
        }
        r
    }

    /// Yields the next line as a re-wrapped view, or nothing when no line
    /// is left. The line separator is consumed but never yielded, and a
    /// final line ending opens no further, empty line.
    pub fn next(&mut self) -> (r: Option<SoftAsciiStr>)
        requires
            old(self).wf(),
        ensures
            final(self).wf(),
            spec_lines(old(self)@).len() == 0 ==> r is None && final(self)@ == old(self)@,
            spec_lines(old(self)@).len() > 0 ==> (r matches Some(l) && l@ == spec_lines(
                old(self)@,
            )[0] && spec_lines(final(self)@) == spec_lines(old(self)@).drop_first()),
    {
        let ghost rem = self@;
        if self.pos == self.back {
            return None;
        }
        let s = self.s;
        let mut i: usize = self.pos;
        while i < self.back && s.get_char(i) != '\n'
            invariant
                self.back <= s@.len(),
                self.pos <= i <= self.back,
                forall|j: int| self.pos <= j < i ==> s@[j] != '\n',
            decreases self.back - i,
        {
            i += 1;
        }
        proof {
            assert forall|j: int| 0 <= j < i - self.pos implies rem[j] != '\n' by {
                assert(rem[j] == s@[self.pos + j]);
            }
            if i < self.back {
                assert(rem[i - self.pos] == s@[i as int]);
            }
            crate::text::lemma_line_break_at_unique(rem, i - self.pos);
            crate::text::lemma_spec_lines_step(rem);
        }
        let content_end = if i < self.back && i > self.pos && s.get_char(i - 1) == '\r' {
            i - 1
        } else {
            i
        };
        let piece = s.substring_char(self.pos, content_end);
        proof {
            let k = i - self.pos;
            let raw = rem.take(k);
            assert(raw =~= s@.subrange(self.pos as int, i as int));
            if i < self.back && i > self.pos && s@[i - 1] == '\r' {
                assert(raw.last() == s@[i - 1]);
                assert(piece@ =~= raw.drop_last());
            } else {
                if k < rem.len() && raw.len() > 0 {
                    assert(raw.last() == s@[i - 1]);
                }
                assert(piece@ =~= raw);
            }
        }
        let old_pos: Ghost<int> = Ghost(self.pos as int);
        self.pos = if i < self.back {
            i + 1
        } else {
            self.back
        };
        proof {
            let k = i - old_pos@;
            if i < self.back {
                assert(final(self)@ =~= rem.skip(k + 1));
            } else {
                assert(final(self)@ =~= Seq::<char>::empty());
                assert(spec_lines(final(self)@) =~= Seq::<Seq<char>>::empty());
            }
        }
        Some(SoftAsciiStr::from_unchecked(piece))
    }

    /// Lower and upper bound on the number of lines left, forwarded as the
    /// wrapped native line iterator gives them: it commits to nothing.
    pub fn size_hint(&self) -> (r: (usize, Option<usize>))
        ensures
            r.0 == 0,
            r.1 is None,
    {
        (0, None)
    }

    /// Yields the last remaining line as a re-wrapped view, or nothing when
    /// no line is left.
    pub fn next_back(&mut self) -> (r: Option<SoftAsciiStr>)
        requires
            old(self).wf(),
        ensures
            final(self).wf(),
            spec_lines(old(self)@).len() == 0 ==> r is None && final(self)@ == old(self)@,
            spec_lines(old(self)@).len() > 0 ==> (r matches Some(l) && l@ == spec_lines(
                old(self)@,
            ).last() && spec_lines(final(self)@) == spec_lines(old(self)@).drop_last()),
    {
        let ghost rem = self@;
        let ghost old_pos: int = self.pos as int;
        if self.pos == self.back {
            return None;
        }
        let s = self.s;
        let terminated = s.get_char(self.back - 1) == '\n';
        let scan_end = if terminated {
            self.back - 1
        } else {
            self.back
        };
        let mut a: usize = scan_end;
        while a > self.pos && s.get_char(a - 1) != '\n'
            invariant
                self.pos <= a <= scan_end <= self.back <= s@.len(),
                forall|j: int| a <= j < scan_end ==> s@[j] != '\n',
            decreases a,
        {
            a -= 1;
        }
        let content_end = if terminated && scan_end > a && s.get_char(scan_end - 1) == '\r' {
            scan_end - 1
        } else {
            scan_end
        };
        let piece = s.substring_char(a, content_end);
        self.back = a;
        proof {
            let ra = a - old_pos;
            assert(rem.last() == s@[old_pos + rem.len() - 1]);
            if terminated {
                assert forall|j: int| ra <= j < rem.len() - 1 implies rem[j] != '\n' by {
                    assert(rem[j] == s@[old_pos + j]);
                }
            } else {
                assert forall|j: int| ra <= j < rem.len() implies rem[j] != '\n' by {
                    assert(rem[j] == s@[old_pos + j]);
                }
            }
            if ra > 0 {
                assert(rem[ra - 1] == s@[a - 1]);
            }
            crate::text::lemma_spec_lines_last(rem, ra);
            let w = rem.skip(ra);
            let kw = scan_end - a;
            assert forall|j: int| 0 <= j < kw implies w[j] != '\n' by {
                assert(w[j] == s@[a + j]);
            }
            if kw < w.len() {
                assert(w[kw] == s@[scan_end as int]);
            }
            crate::text::lemma_line_break_at_unique(w, kw);
            let raw = w.take(kw);
            assert(raw =~= s@.subrange(a as int, scan_end as int));
            if terminated && scan_end > a && s@[scan_end - 1] == '\r' {
                assert(raw.last() == s@[scan_end - 1]);
                assert(piece@ =~= raw.drop_last());
            } else {
                if kw < w.len() && raw.len() > 0 {
                    assert(raw.last() == s@[scan_end - 1]);
                }
                assert(piece@ =~= raw);
            }
            assert(piece@ == crate::text::line_content(w));
            assert(final(self)@ =~= rem.take(ra));
            assert(spec_lines(rem).drop_last() =~= spec_lines(rem.take(ra)));
        }
        Some(SoftAsciiStr::from_unchecked(piece))
    }
}

/// Yields the white-space-separated words of the text, one re-wrapped view
/// per maximal non-white-space run (see [`spec_split_whitespace`]).
#[derive(Clone)]
pub struct SoftAsciiSplitWhitespace<'a> {
    s: &'a str,
    pos: usize,
    back: usize,
}

impl<'a> View for SoftAsciiSplitWhitespace<'a> {
    type V = Seq<char>;

    closed spec fn view(&self) -> Seq<char> {
        self.s@.subrange(self.pos as int, self.back as int)
    }
}

impl<'a> SoftAsciiSplitWhitespace<'a> {
    /// The cursors lie within the text.
    pub closed spec fn wf(&self) -> bool {
        0 <= self.pos <= self.back <= self.s@.len()
    }

    pub(crate) fn new(s: &'a str) -> (r: SoftAsciiSplitWhitespace<'a>)
        ensures
            r.wf(),
            r@ == s@,
    {
        let n = s.unicode_len();
        let r = SoftAsciiSplitWhitespace { s, pos: 0, back: n };
        proof {
            assert(r@ =~= s@);
        }
        r
    }

    /// Yields the next word as a re-wrapped view, or nothing when only white
    /// space is left; the surrounding white space is consumed, not yielded.
    pub fn next(&mut self) -> (r: Option<SoftAsciiStr>)
        requires
            old(self).wf(),
        ensures
            final(self).wf(),
            spec_split_whitespace(old(self)@).len() == 0 ==> r is None && final(self)@
                == Seq::<char>::empty(),
            spec_split_whitespace(old(self)@).len() > 0 ==> (r matches Some(w) && w@
                == spec_split_whitespace(old(self)@)[0] && spec_split_whitespace(final(self)@)
                == spec_split_whitespace(old(self)@).drop_first()),
    {
        let ghost rem = self@;
        let ghost old_pos: int = self.pos as int;
        let s = self.s;
        let mut i: usize = self.pos;
        while i < self.back && char_is_whitespace(s.get_char(i))
            invariant
                self.back <= s@.len(),
                self.pos <= i <= self.back,
                forall|j: int| self.pos <= j < i ==> is_text_whitespace(s@[j]),
            decreases self.back - i,
        {
            i += 1;
        }
        let a = i;
        if a == self.back {
            self.pos = self.back;
            proof {
                assert forall|j: int| 0 <= j < rem.len() implies is_text_whitespace(rem[j]) by {
                    assert(rem[j] == s@[old_pos + j]);
                }
                crate::text::lemma_split_whitespace_step(rem, rem.len() as int, rem.len() as int);
                assert(final(self)@ =~= Seq::<char>::empty());
            }
            return None;
        }
        let mut i: usize = a;
        while i < self.back && !char_is_whitespace(s.get_char(i))
            invariant
                self.back <= s@.len(),
                a <= i <= self.back,
                forall|j: int| a <= j < i ==> !is_text_whitespace(s@[j]),
            decreases self.back - i,
        {
            i += 1;
        }
        let b = i;
        let piece = s.substring_char(a, b);
        self.pos = b;
        proof {
            let ra = a - old_pos;
            let rb = b - old_pos;
            assert forall|j: int| 0 <= j < ra implies is_text_whitespace(rem[j]) by {
                assert(rem[j] == s@[old_pos + j]);
            }
            assert(rem[ra] == s@[a as int]);
            assert forall|j: int| ra <= j < rb implies !is_text_whitespace(rem[j]) by {
                assert(rem[j] == s@[old_pos + j]);
            }
            if rb < rem.len() {
                assert(rem[rb] == s@[b as int]);
            }
            crate::text::lemma_split_whitespace_step(rem, ra, rb);
            assert(piece@ =~= rem.subrange(ra, rb));
            assert(final(self)@ =~= rem.skip(rb));
        }
        Some(SoftAsciiStr::from_unchecked(piece))
    }

    /// Yields the last remaining word as a re-wrapped view, or nothing when
    /// only white space is left.
    pub fn next_back(&mut self) -> (r: Option<SoftAsciiStr>)
        requires
            old(self).wf(),
        ensures
            final(self).wf(),
            spec_split_whitespace(old(self)@).len() == 0 ==> r is None && final(self)@
                == Seq::<char>::empty(),
            spec_split_whitespace(old(self)@).len() > 0 ==> (r matches Some(w) && w@
                == spec_split_whitespace(old(self)@).last() && spec_split_whitespace(
                final(self)@,
            ) == spec_split_whitespace(old(self)@).drop_last()),
    {
        let ghost rem = self@;
        let ghost old_pos: int = self.pos as int;
        let s = self.s;
        let mut e: usize = self.back;
        while e > self.pos && char_is_whitespace(s.get_char(e - 1))
            invariant
                self.pos <= e <= self.back <= s@.len(),
                forall|j: int| e <= j < self.back ==> is_text_whitespace(s@[j]),
            decreases e,
        {
            e -= 1;
        }
        if e == self.pos {
            self.back = self.pos;
            proof {
                assert forall|j: int| 0 <= j < rem.len() implies is_text_whitespace(rem[j]) by {
                    assert(rem[j] == s@[old_pos + j]);
                }
                crate::text::lemma_split_whitespace_last(rem, 0, 0);
                assert(final(self)@ =~= Seq::<char>::empty());
            }
            return None;
        }
        let b = e;
        let mut a: usize = e;
        while a > self.pos && !char_is_whitespace(s.get_char(a - 1))
            invariant
                self.pos <= a <= b <= self.back <= s@.len(),
                forall|j: int| a <= j < b ==> !is_text_whitespace(s@[j]),
            decreases a,
        {
            a -= 1;
        }
        proof {
            if a == b {
                assert(is_text_whitespace(s@[b - 1]));
                assert(false);
            }
        }
        let piece = s.substring_char(a, b);
        self.back = a;
        proof {
            let ra = a - old_pos;
            let rb = b - old_pos;
            assert forall|j: int| rb <= j < rem.len() implies is_text_whitespace(rem[j]) by {
                assert(rem[j] == s@[old_pos + j]);
            }
            assert forall|j: int| ra <= j < rb implies !is_text_whitespace(rem[j]) by {
                assert(rem[j] == s@[old_pos + j]);
            }
            if ra > 0 {
                assert(rem[ra - 1] == s@[a - 1]);
            }
            crate::text::lemma_split_whitespace_last(rem, ra, rb);
            assert(piece@ =~= rem.subrange(ra, rb));
            assert(final(self)@ =~= rem.take(ra));
            assert(spec_split_whitespace(rem).drop_last() =~= spec_split_whitespace(
                rem.take(ra),
            ));
        }
        Some(SoftAsciiStr::from_unchecked(piece))
    }
}

} // verus!
