//! The character-level model of the wrapped text: content equality, the
//! white-space character set, and the splitting of text into lines and into
//! white-space-separated words, together with the lemmas the iterator
//! adapters are proved against.

use vstd::prelude::*;
use vstd::utf8::{encode_scalar, encode_utf8};

verus! {

/// Compares two native string slices by content, character for character.
pub fn str_content_eq(a: &str, b: &str) -> (r: bool)
    ensures
        r == (a@ == b@),
{
    let an = a.unicode_len();
    let bn = b.unicode_len();
    if an != bn {
        return false;
    }
    let mut i: usize = 0;
    while i < an
        invariant
            an == a@.len(),
            bn == b@.len(),
            an == bn,
            0 <= i <= an,
            forall|j: int| 0 <= j < i ==> a@[j] == b@[j],
        decreases an - i,
    {
        if a.get_char(i) != b.get_char(i) {
            return false;
        }
        i += 1;
    }
    proof {
        assert(a@ =~= b@);
    }
    true
}

/// The white-space characters: the Unicode `White_Space` set, which is the
/// set the native trim and whitespace-splitting operations use.
pub open spec fn is_text_whitespace(c: char) -> bool {
    let u = c as u32;
    ||| u == 0x20
    ||| 0x09 <= u <= 0x0d
    ||| u == 0x85
    ||| u == 0xa0
    ||| u == 0x1680
    ||| 0x2000 <= u <= 0x200a
    ||| u == 0x2028
    ||| u == 0x2029
    ||| u == 0x202f
    ||| u == 0x205f
    ||| u == 0x3000
}

/// Decides [`is_text_whitespace`].
pub fn char_is_whitespace(c: char) -> (r: bool)
    ensures
        r == is_text_whitespace(c),
{
    let u = c as u32;
    u == 0x20 || (0x09 <= u && u <= 0x0d) || u == 0x85 || u == 0xa0 || u == 0x1680 || (0x2000
        <= u && u <= 0x200a) || u == 0x2028 || u == 0x2029 || u == 0x202f || u == 0x205f || u
        == 0x3000
}

/// Index of the first line feed in `s`, or `s.len()` when there is none.
pub open spec fn line_break_at(s: Seq<char>) -> int
    decreases s.len(),
{
    if s.len() == 0 {
        0
    } else if s[0] == '\n' {
        0
    } else {
        1 + line_break_at(s.drop_first())
    }
}

/// The break index is the first line feed: nothing before it is a line feed,
/// and it is a line feed itself unless it is the end of the text.
pub proof fn lemma_line_break_at(s: Seq<char>)
    ensures
        0 <= line_break_at(s) <= s.len(),
        forall|j: int| 0 <= j < line_break_at(s) ==> s[j] != '\n',
        line_break_at(s) < s.len() ==> s[line_break_at(s)] == '\n',
    decreases s.len(),
{
    if s.len() != 0 && s[0] != '\n' {
        lemma_line_break_at(s.drop_first());
        assert forall|j: int| 0 <= j < line_break_at(s) implies s[j] != '\n' by {
            if j > 0 {
                assert(s.drop_first()[j - 1] != '\n');
            }
        }
    }
}

/// Any index with the properties of [`lemma_line_break_at`] is the break index.
pub proof fn lemma_line_break_at_unique(s: Seq<char>, m: int)
    requires
        0 <= m <= s.len(),
        forall|j: int| 0 <= j < m ==> s[j] != '\n',
        m < s.len() ==> s[m] == '\n',
    ensures
        m == line_break_at(s),
{
    lemma_line_break_at(s);
    let k = line_break_at(s);
    if m < k {
        assert(s[m] != '\n');
    } else if k < m {
        assert(s[k] != '\n');
    }
}

/// The content of the first line of `s`: the text up to the first line feed,
/// with one carriage return stripped when the line feed terminates it.
pub open spec fn line_content(s: Seq<char>) -> Seq<char> {
    let k = line_break_at(s);
    let raw = s.take(k);
    if k < s.len() && raw.len() > 0 && raw.last() == '\r' {
        raw.drop_last()
    } else {
        raw
    }
}

/// The lines of `s`, under the native definition of line boundaries: lines
/// are separated by a line feed or a carriage return followed by a line
/// feed, the separators are not part of any line, and a final line ending
/// does not open a further, empty line.
pub open spec fn spec_lines(s: Seq<char>) -> Seq<Seq<char>>
    decreases s.len(),
{
    if s.len() == 0 {
        Seq::empty()
    } else {
        let k = line_break_at(s);
        if 0 <= k < s.len() {
            seq![line_content(s)] + spec_lines(s.skip(k + 1))
        } else {
            seq![line_content(s)]
        }
    }
}

/// Unfolds [`spec_lines`] one step on a non-empty text.
pub proof fn lemma_spec_lines_step(s: Seq<char>)
    requires
        s.len() > 0,
    ensures
        spec_lines(s).len() >= 1,
        spec_lines(s)[0] == line_content(s),
        line_break_at(s) < s.len() ==> spec_lines(s).drop_first() == spec_lines(
            s.skip(line_break_at(s) + 1),
        ),
        line_break_at(s) == s.len() ==> spec_lines(s).drop_first() == Seq::<Seq<char>>::empty(),
{
    lemma_line_break_at(s);
    let k = line_break_at(s);
    if k < s.len() {
        assert(spec_lines(s).drop_first() =~= spec_lines(s.skip(k + 1)));
    } else {
        assert(spec_lines(s).drop_first() =~= Seq::<Seq<char>>::empty());
    }
}

/// Unfolds [`spec_lines`] one step from the back: `a` is the start of the
/// last line, that is, the first index after the last line feed that is not
/// the text's final character.
pub proof fn lemma_spec_lines_last(s: Seq<char>, a: int)
    requires
        s.len() > 0,
        0 <= a < s.len(),
        a > 0 ==> s[a - 1] == '\n',
        s.last() == '\n' ==> forall|j: int| a <= j < s.len() - 1 ==> s[j] != '\n',
        s.last() != '\n' ==> forall|j: int| a <= j < s.len() ==> s[j] != '\n',
    ensures
        spec_lines(s).len() >= 1,
        spec_lines(s) == spec_lines(s.take(a)) + seq![line_content(s.skip(a))],
    decreases s.len(),
{
    lemma_line_break_at(s);
    let k = line_break_at(s);
    if a == 0 {
        assert(s.take(0) =~= Seq::<char>::empty());
        assert(spec_lines(s.take(0)) =~= Seq::<Seq<char>>::empty());
        assert(s.skip(0) =~= s);
        if k == s.len() {
            assert(spec_lines(s) =~= spec_lines(s.take(0)) + seq![line_content(s.skip(0))]);
        } else {
            assert(k == s.len() - 1) by {
                if k < s.len() - 1 {
                    assert(s[k] != '\n');
                }
            }
            assert(s.last() == '\n');
            assert(s.skip(k + 1) =~= Seq::<char>::empty());
            assert(spec_lines(s.skip(k + 1)) =~= Seq::<Seq<char>>::empty());
            lemma_spec_lines_step(s);
            assert(spec_lines(s) =~= spec_lines(s.take(0)) + seq![line_content(s.skip(0))]);
        }
    } else {
        assert(k <= a - 1) by {
            if a - 1 < k {
                assert(s[a - 1] != '\n');
            }
        }
        let u = s.skip(k + 1);
        assert(u.len() == s.len() - k - 1);
        assert(u.len() > 0);
        lemma_spec_lines_step(s);
        assert(u.last() == s.last());
        assert(a - k - 1 > 0 ==> u[a - k - 2] == s[a - 1]);
        if s.last() == '\n' {
            assert forall|j: int| a - k - 1 <= j < u.len() - 1 implies u[j] != '\n' by {
                assert(u[j] == s[k + 1 + j]);
            }
        } else {
            assert forall|j: int| a - k - 1 <= j < u.len() implies u[j] != '\n' by {
                assert(u[j] == s[k + 1 + j]);
            }
        }
        lemma_spec_lines_last(u, a - k - 1);
        assert(u.skip(a - k - 1) =~= s.skip(a));
        let v = s.take(a);
        assert forall|j: int| 0 <= j < k implies v[j] != '\n' by {
            assert(v[j] == s[j]);
        }
        assert(v[k] == s[k]);
        lemma_line_break_at_unique(v, k);
        lemma_spec_lines_step(v);
        assert(v.take(k) =~= s.take(k));
        assert(line_content(v) == line_content(s)) by {
            let raw = s.take(k);
            if k > 0 {
                assert(v.take(k)[k - 1] == s[k - 1]);
            }
        }
        assert(v.skip(k + 1) =~= u.take(a - k - 1));
        assert(spec_lines(v) =~= seq![line_content(v)] + spec_lines(v.skip(k + 1)));
        assert(spec_lines(s) =~= spec_lines(s.take(a)) + seq![line_content(s.skip(a))]);
    }
}

/// Length of the maximal prefix of `s` whose characters all are, or all are
/// not, white space, as `ws` asks.
pub open spec fn leading_run(s: Seq<char>, ws: bool) -> int
    decreases s.len(),
{
    if s.len() == 0 {
        0
    } else if is_text_whitespace(s[0]) == ws {
        1 + leading_run(s.drop_first(), ws)
    } else {
        0
    }
}

/// The leading run is maximal: everything before its end matches `ws`, and
/// the character after it, if any, does not.
pub proof fn lemma_leading_run(s: Seq<char>, ws: bool)
    ensures
        0 <= leading_run(s, ws) <= s.len(),
        forall|j: int| 0 <= j < leading_run(s, ws) ==> is_text_whitespace(s[j]) == ws,
        leading_run(s, ws) < s.len() ==> is_text_whitespace(s[leading_run(s, ws)]) != ws,
    decreases s.len(),
{
    if s.len() != 0 && is_text_whitespace(s[0]) == ws {
        lemma_leading_run(s.drop_first(), ws);
        assert forall|j: int| 0 <= j < leading_run(s, ws) implies is_text_whitespace(s[j])
            == ws by {
            if j > 0 {
                assert(is_text_whitespace(s.drop_first()[j - 1]) == ws);
            }
        }
    }
}

/// Any index with the properties of [`lemma_leading_run`] is the run length.
pub proof fn lemma_leading_run_unique(s: Seq<char>, ws: bool, m: int)
    requires
        0 <= m <= s.len(),
        forall|j: int| 0 <= j < m ==> is_text_whitespace(s[j]) == ws,
        m < s.len() ==> is_text_whitespace(s[m]) != ws,
    ensures
        m == leading_run(s, ws),
{
    lemma_leading_run(s, ws);
    let k = leading_run(s, ws);
    if m < k {
        assert(is_text_whitespace(s[m]) == ws);
    } else if k < m {
        assert(is_text_whitespace(s[k]) == ws);
    }
}

/// The white-space-separated words of `s`: one entry for each maximal run of
/// non-white-space characters, in order.
pub open spec fn spec_split_whitespace(s: Seq<char>) -> Seq<Seq<char>>
    decreases s.len(),
{
    if s.len() == 0 {
        Seq::empty()
    } else if is_text_whitespace(s[0]) {
        let k = leading_run(s, true);
        if 0 < k <= s.len() {
            spec_split_whitespace(s.skip(k))
        } else {
            Seq::empty()
        }
    } else {
        let k = leading_run(s, false);
        if 0 < k <= s.len() {
            seq![s.take(k)] + spec_split_whitespace(s.skip(k))
        } else {
            Seq::empty()
        }
    }
}

/// Unfolds [`spec_split_whitespace`] one step: `a` is the end of the leading
/// white-space run and `b` the end of the word that follows it.
pub proof fn lemma_split_whitespace_step(s: Seq<char>, a: int, b: int)
    requires
        0 <= a <= b <= s.len(),
        forall|j: int| 0 <= j < a ==> is_text_whitespace(s[j]),
        a < s.len() ==> !is_text_whitespace(s[a]),
        forall|j: int| a <= j < b ==> !is_text_whitespace(s[j]),
        b < s.len() ==> is_text_whitespace(s[b]),
        a == s.len() ==> b == s.len(),
    ensures
        a == s.len() ==> spec_split_whitespace(s) == Seq::<Seq<char>>::empty(),
        a < s.len() ==> b > a && spec_split_whitespace(s) == seq![s.subrange(a, b)]
            + spec_split_whitespace(s.skip(b)),
{
    let t = s.skip(a);
    if a == 0 {
        assert(t =~= s);
    } else {
        lemma_leading_run_unique(s, true, a);
        assert(spec_split_whitespace(s) == spec_split_whitespace(t));
    }
    if a == s.len() {
        assert(t =~= Seq::<char>::empty());
    } else {
        if b == a {
            assert(is_text_whitespace(s[b]));
            assert(false);
        }
        assert(t[0] == s[a]);
        assert forall|j: int| 0 <= j < b - a implies !is_text_whitespace(t[j]) by {
            assert(t[j] == s[a + j]);
        }
        if b - a < t.len() {
            assert(t[b - a] == s[b]);
        }
        lemma_leading_run_unique(t, false, b - a);
        assert(t.take(b - a) =~= s.subrange(a, b));
        assert(t.skip(b - a) =~= s.skip(b));
        assert(spec_split_whitespace(t) == seq![s.subrange(a, b)] + spec_split_whitespace(
            s.skip(b),
        ));
    }
}

/// Unfolds [`spec_split_whitespace`] one step from the back: `a` is the
/// start and `b` the end of the last word, and only white space follows it;
/// `a == b == 0` says the whole text is white space.
pub proof fn lemma_split_whitespace_last(s: Seq<char>, a: int, b: int)
    requires
        0 <= a <= b <= s.len(),
        forall|j: int| b <= j < s.len() ==> is_text_whitespace(s[j]),
        forall|j: int| a <= j < b ==> !is_text_whitespace(s[j]),
        a < b && a > 0 ==> is_text_whitespace(s[a - 1]),
        a == b ==> a == 0,
    ensures
        a == b ==> spec_split_whitespace(s) == Seq::<Seq<char>>::empty(),
        a < b ==> spec_split_whitespace(s) == spec_split_whitespace(s.take(a)) + seq![
            s.subrange(a, b),
        ],
    decreases s.len(),
{
    if a == b {
        lemma_split_whitespace_step(s, s.len() as int, s.len() as int);
    } else {
        lemma_leading_run(s, true);
        let a0 = leading_run(s, true);
        assert(a0 < s.len()) by {
            if a0 == s.len() {
                assert(is_text_whitespace(s[a]));
            }
        }
        let t0 = s.skip(a0);
        lemma_leading_run(t0, false);
        let b0 = a0 + leading_run(t0, false);
        assert forall|j: int| a0 <= j < b0 implies !is_text_whitespace(s[j]) by {
            assert(t0[j - a0] == s[j]);
        }
        assert(t0[0] == s[a0]);
        assert(b0 > a0);
        if b0 < s.len() {
            assert(t0[b0 - a0] == s[b0]);
        }
        lemma_split_whitespace_step(s, a0, b0);
        assert(a0 <= a) by {
            if a < a0 {
                assert(is_text_whitespace(s[a]));
            }
        }
        if a == a0 {
            assert(b == b0) by {
                if b < b0 {
                    assert(is_text_whitespace(s[b]));
                } else if b0 < b {
                    assert(!is_text_whitespace(s[b0]));
                }
            }
            assert(spec_split_whitespace(s.skip(b)) == Seq::<Seq<char>>::empty()) by {
                let u = s.skip(b);
                assert forall|j: int| 0 <= j < u.len() implies is_text_whitespace(u[j]) by {
                    assert(u[j] == s[b + j]);
                }
                lemma_split_whitespace_step(u, u.len() as int, u.len() as int);
            }
            assert(spec_split_whitespace(s.take(a)) == Seq::<Seq<char>>::empty()) by {
                let v = s.take(a);
                assert forall|j: int| 0 <= j < v.len() implies is_text_whitespace(v[j]) by {
                    assert(v[j] == s[j]);
                }
                lemma_split_whitespace_step(v, v.len() as int, v.len() as int);
            }
            assert(spec_split_whitespace(s) =~= spec_split_whitespace(s.take(a)) + seq![
                s.subrange(a, b),
            ]);
        } else {
            assert(a > b0) by {
                if a <= b0 {
                    assert(!is_text_whitespace(s[a - 1]));
                }
            }
            let u = s.skip(b0);
            assert forall|j: int| b - b0 <= j < u.len() implies is_text_whitespace(u[j]) by {
                assert(u[j] == s[b0 + j]);
            }
            assert forall|j: int| a - b0 <= j < b - b0 implies !is_text_whitespace(u[j]) by {
                assert(u[j] == s[b0 + j]);
            }
            assert(u[a - b0 - 1] == s[a - 1]);
            lemma_split_whitespace_last(u, a - b0, b - b0);
            let v = s.take(a);
            assert forall|j: int| 0 <= j < a0 implies is_text_whitespace(v[j]) by {
                assert(v[j] == s[j]);
            }
            assert(v[a0] == s[a0]);
            assert forall|j: int| a0 <= j < b0 implies !is_text_whitespace(v[j]) by {
                assert(v[j] == s[j]);
            }
            assert(v[b0] == s[b0]);
            lemma_split_whitespace_step(v, a0, b0);
            assert(v.subrange(a0, b0) =~= s.subrange(a0, b0));
            assert(v.skip(b0) =~= u.take(a - b0));
            assert(u.subrange(a - b0, b - b0) =~= s.subrange(a, b));
            assert(spec_split_whitespace(s) =~= spec_split_whitespace(s.take(a)) + seq![
                s.subrange(a, b),
            ]);
        }
    }
}

/// Length of the maximal all-white-space suffix of `s`.
pub open spec fn trailing_ws_run(s: Seq<char>) -> int
    decreases s.len(),
{
    if s.len() > 0 && is_text_whitespace(s.last()) {
        1 + trailing_ws_run(s.drop_last())
    } else {
        0
    }
}

/// The trailing run is maximal: everything in it is white space, and the
/// character before it, if any, is not.
pub proof fn lemma_trailing_ws_run(s: Seq<char>)
    ensures
        0 <= trailing_ws_run(s) <= s.len(),
        forall|j: int| s.len() - trailing_ws_run(s) <= j < s.len() ==> is_text_whitespace(s[j]),
        s.len() - trailing_ws_run(s) - 1 >= 0 ==> !is_text_whitespace(
            s[s.len() - trailing_ws_run(s) - 1],
        ),
    decreases s.len(),
{
    if s.len() > 0 && is_text_whitespace(s.last()) {
        lemma_trailing_ws_run(s.drop_last());
        assert forall|j: int| s.len() - trailing_ws_run(s) <= j < s.len() implies
            is_text_whitespace(s[j]) by {
            if j < s.len() - 1 {
                assert(is_text_whitespace(s.drop_last()[j]));
            }
        }
    }
}

/// Any index with the properties of [`lemma_trailing_ws_run`] marks the run.
pub proof fn lemma_trailing_ws_run_unique(s: Seq<char>, m: int)
    requires
        0 <= m <= s.len(),
        forall|j: int| s.len() - m <= j < s.len() ==> is_text_whitespace(s[j]),
        s.len() - m - 1 >= 0 ==> !is_text_whitespace(s[s.len() - m - 1]),
    ensures
        m == trailing_ws_run(s),
{
    lemma_trailing_ws_run(s);
    let k = trailing_ws_run(s);
    if m < k {
        assert(is_text_whitespace(s[s.len() - m - 1]));
    } else if k < m {
        assert(is_text_whitespace(s[s.len() - k - 1]));
    }
}

/// The text trimmed of white space at both ends.
pub open spec fn spec_trim(s: Seq<char>) -> Seq<char> {
    let t = s.skip(leading_run(s, true));
    t.take(t.len() - trailing_ws_run(t))
}

/// The text repeated `n` times.
pub open spec fn spec_repeat(s: Seq<char>, n: nat) -> Seq<char>
    decreases n,
{
    if n == 0 {
        Seq::empty()
    } else {
        spec_repeat(s, (n - 1) as nat) + s
    }
}

/// The characters that the native lowercase conversion returns for the given
/// characters; a function of the characters alone.
pub uninterp spec fn lower_chars_of(s: Seq<char>) -> Seq<char>;

/// The characters that the native uppercase conversion returns for the given
/// characters; a function of the characters alone.
pub uninterp spec fn upper_chars_of(s: Seq<char>) -> Seq<char>;

/// Number of bytes in the UTF-8 encoding of one character.
pub fn char_utf8_len(c: char) -> (r: usize)
    ensures
        r == encode_scalar(c as u32).len(),
{
    let u = c as u32;
    if u < 0x80 {
        1
    } else if u < 0x800 {
        2
    } else if u < 0x10000 {
        3
    } else {
        4
    }
}

/// Appending one character appends its scalar encoding.
pub proof fn lemma_encode_utf8_snoc(s: Seq<char>, c: char)
    ensures
        encode_utf8(s.push(c)) == encode_utf8(s) + encode_scalar(c as u32),
    decreases s.len(),
{
    if s.len() == 0 {
        let p = s.push(c);
        assert(p.len() == 1);
        assert(p[0] == c);
        assert(p.drop_first() =~= Seq::<char>::empty());
        assert(encode_utf8(p.drop_first()) =~= Seq::<u8>::empty());
        assert(encode_utf8(p) == encode_scalar(p[0] as u32) + encode_utf8(p.drop_first()));
        assert(encode_scalar(c as u32) + Seq::<u8>::empty() =~= encode_scalar(c as u32));
        assert(encode_utf8(s) =~= Seq::<u8>::empty());
        assert(Seq::<u8>::empty() + encode_scalar(c as u32) =~= encode_scalar(c as u32));
    } else {
        lemma_encode_utf8_snoc(s.drop_first(), c);
        assert(s.push(c).drop_first() =~= s.drop_first().push(c));
        assert(s.push(c)[0] == s[0]);
        assert(encode_scalar(s[0] as u32) + (encode_utf8(s.drop_first()) + encode_scalar(
            c as u32,
        )) =~= (encode_scalar(s[0] as u32) + encode_utf8(s.drop_first())) + encode_scalar(
            c as u32,
        ));
    }
}

/// The UTF-16 code units of one character: one unit below `0x10000`, a
/// surrogate pair above.
pub open spec fn utf16_units(c: char) -> Seq<u16> {
    let u = c as u32;
    if u < 0x10000 {
        seq![u as u16]
    } else {
        seq![
            (0xd800 + (u - 0x10000) / 0x400) as u16,
            (0xdc00 + (u - 0x10000) % 0x400) as u16,
        ]
    }
}

/// The UTF-16 encoding of the text, character by character.
pub open spec fn spec_encode_utf16(s: Seq<char>) -> Seq<u16>
    decreases s.len(),
{
    if s.len() == 0 {
        Seq::empty()
    } else {
        utf16_units(s[0]) + spec_encode_utf16(s.drop_first())
    }
}

/// Appending one character appends its UTF-16 units.
pub proof fn lemma_encode_utf16_snoc(s: Seq<char>, c: char)
    ensures
        spec_encode_utf16(s.push(c)) == spec_encode_utf16(s) + utf16_units(c),
    decreases s.len(),
{
    if s.len() == 0 {
        let p = s.push(c);
        assert(p.len() == 1);
        assert(p[0] == c);
        assert(p.drop_first() =~= Seq::<char>::empty());
        assert(spec_encode_utf16(p.drop_first()) =~= Seq::<u16>::empty());
        assert(utf16_units(c) + Seq::<u16>::empty() =~= utf16_units(c));
        assert(spec_encode_utf16(s) =~= Seq::<u16>::empty());
        assert(Seq::<u16>::empty() + utf16_units(c) =~= utf16_units(c));
    } else {
        lemma_encode_utf16_snoc(s.drop_first(), c);
        assert(s.push(c).drop_first() =~= s.drop_first().push(c));
        assert(s.push(c)[0] == s[0]);
        assert(utf16_units(s[0]) + (spec_encode_utf16(s.drop_first()) + utf16_units(c)) =~= (
        utf16_units(s[0]) + spec_encode_utf16(s.drop_first())) + utf16_units(c));
    }
}

/// The encoding of a concatenation is the concatenation of the encodings.
pub proof fn lemma_encode_utf8_concat(a: Seq<char>, b: Seq<char>)
    ensures
        encode_utf8(a + b) == encode_utf8(a) + encode_utf8(b),
    decreases a.len(),
{
    if a.len() == 0 {
        assert(a + b =~= b);
        assert(encode_utf8(a) =~= Seq::<u8>::empty());
        assert(Seq::<u8>::empty() + encode_utf8(b) =~= encode_utf8(b));
    } else {
        lemma_encode_utf8_concat(a.drop_first(), b);
        assert((a + b)[0] == a[0]);
        assert((a + b).drop_first() =~= a.drop_first() + b);
        assert(encode_scalar(a[0] as u32) + (encode_utf8(a.drop_first()) + encode_utf8(b)) =~= (
        encode_scalar(a[0] as u32) + encode_utf8(a.drop_first())) + encode_utf8(b));
    }
}

/// Taking one more character adds that character's scalar encoding.
pub proof fn lemma_encode_utf8_take_step(s: Seq<char>, i: int)
    requires
        0 <= i < s.len(),
    ensures
        encode_utf8(s.take(i + 1)).len() == encode_utf8(s.take(i)).len() + encode_scalar(
            s[i] as u32,
        ).len(),
{
    lemma_encode_utf8_snoc(s.take(i), s[i]);
    assert(s.take(i + 1) =~= s.take(i).push(s[i]));
}

/// The encoded length of a prefix grows with the prefix.
pub proof fn lemma_encode_utf8_take_mono(s: Seq<char>, i: int, j: int)
    requires
        0 <= i <= j <= s.len(),
    ensures
        encode_utf8(s.take(i)).len() <= encode_utf8(s.take(j)).len(),
    decreases j - i,
{
    if i < j {
        lemma_encode_utf8_take_mono(s, i, j - 1);
        lemma_encode_utf8_take_step(s, j - 1);
    }
}

} // verus!
