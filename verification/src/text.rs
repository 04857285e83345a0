//! Working on text: occurrences of a keyword in bytes, with and without word
//! boundaries, equality of strings, and the changes of case and of single
//! characters that the standard library makes.

use crate::model::MatchPosition;
use vstd::prelude::*;
use vstd::utf8::encode_utf8;

verus! {

/// `needle` stands in `hay` at offset `i`.
pub open spec fn occurs_at(hay: Seq<u8>, needle: Seq<u8>, i: int) -> bool {
    &&& 0 <= i
    &&& i + needle.len() <= hay.len()
    &&& hay.subrange(i, i + needle.len()) == needle
}

/// `needle` stands somewhere in `hay`.
pub open spec fn contains_bytes(hay: Seq<u8>, needle: Seq<u8>) -> bool {
    exists|i: int| occurs_at(hay, needle, i)
}

/// A letter or digit of ASCII, or the underscore.
pub open spec fn is_word_byte(b: u8) -> bool {
    ||| 0x30 <= b <= 0x39
    ||| 0x41 <= b <= 0x5a
    ||| 0x61 <= b <= 0x7a
    ||| b == 0x5f
}

/// The `n` bytes of `hay` at `i` have no word byte directly before or after
/// them.
pub open spec fn word_bounded(hay: Seq<u8>, n: int, i: int) -> bool {
    &&& i == 0 || !is_word_byte(hay[i - 1])
    &&& i + n == hay.len() || !is_word_byte(hay[i + n])
}

/// The span of `n` bytes at offset `i`.
pub open spec fn span_at(i: int, n: int) -> MatchPosition {
    MatchPosition { offset: i as usize, length: n as usize }
}

/// The occurrences of `needle` in `hay` from offset `from` on, left to right,
/// none overlapping the one before it. An empty keyword occurs nowhere.
pub open spec fn scan_positions(hay: Seq<u8>, needle: Seq<u8>, from: int) -> Seq<MatchPosition>
    decreases hay.len() - from,
{
    if needle.len() == 0 || from < 0 || from + needle.len() > hay.len() {
        Seq::empty()
    } else if occurs_at(hay, needle, from) {
        seq![span_at(from, needle.len() as int)] + scan_positions(
            hay,
            needle,
            from + needle.len(),
        )
    } else {
        scan_positions(hay, needle, from + 1)
    }
}

/// The occurrences of `needle` in `hay` from offset `from` on that stand
/// between word boundaries, left to right. An empty keyword occurs nowhere.
pub open spec fn whole_word_positions(hay: Seq<u8>, needle: Seq<u8>, from: int) -> Seq<
    MatchPosition,
>
    decreases hay.len() - from,
{
    if needle.len() == 0 || from < 0 || from + needle.len() > hay.len() {
        Seq::empty()
    } else if occurs_at(hay, needle, from) && word_bounded(hay, needle.len() as int, from) {
        seq![span_at(from, needle.len() as int)] + whole_word_positions(hay, needle, from + 1)
    } else {
        whole_word_positions(hay, needle, from + 1)
    }
}

/// Every span of the sequence ends inside a text of `len` bytes.
pub open spec fn spans_within(spans: Seq<MatchPosition>, len: int) -> bool {
    forall|k: int| 0 <= k < spans.len() ==> (#[trigger] spans[k]).offset + spans[k].length <= len
}

/// Tells whether a byte is a word byte.
pub fn is_word(byte: u8) -> (b: bool)
    ensures
        b == is_word_byte(byte),
{
    (0x30 <= byte && byte <= 0x39) || (0x41 <= byte && byte <= 0x5a) || (0x61 <= byte && byte
        <= 0x7a) || byte == 0x5f
}

/// Tells whether `needle` stands in `hay` at offset `i`.
pub fn matches_at(hay: &[u8], needle: &[u8], i: usize) -> (b: bool)
    requires
        i + needle@.len() <= hay@.len(),
    ensures
        b == occurs_at(hay@, needle@, i as int),
{
    let n: usize = needle.len();
    let len: usize = hay.len();
    let mut k: usize = 0;
    while k < n
        invariant
            n == needle@.len(),
            len == hay@.len(),
            i + n <= len,
            k <= n,
            forall|j: int| 0 <= j < k ==> hay@[i + j] == needle@[j],
        decreases n - k,
    {
        if hay[i + k] != needle[k] {
            proof {
                let window = hay@.subrange(i as int, i + n);
                assert(window[k as int] == hay@[i + k]);
            }
            return false;
        }
        k += 1;
    }
    proof {
        assert(hay@.subrange(i as int, i + n) =~= needle@);
    }
    true
}

/// Two byte strings are the same.
pub fn bytes_eq(a: &[u8], b: &[u8]) -> (same: bool)
    ensures
        same == (a@ == b@),
{
    if a.len() != b.len() {
        return false;
    }
    let same: bool = matches_at(a, b, 0);
    proof {
        assert(a@.subrange(0, a@.len() as int) =~= a@);
    }
    same
}

/// Two strings hold the same characters.
pub fn str_eq(a: &str, b: &str) -> (same: bool)
    ensures
        same == (a@ == b@),
{
    let same: bool = bytes_eq(a.as_bytes(), b.as_bytes());
    proof {
        lemma_utf8_injective(a@, b@);
    }
    same
}

/// Two texts with the same UTF-8 bytes are the same text.
pub proof fn lemma_utf8_injective(a: Seq<char>, b: Seq<char>)
    ensures
        encode_utf8(a) == encode_utf8(b) <==> a == b,
{
    vstd::utf8::encode_utf8_decode_utf8(a);
    vstd::utf8::encode_utf8_decode_utf8(b);
}

/// Tells whether `needle` stands somewhere in `hay`.
pub fn contains(hay: &[u8], needle: &[u8]) -> (b: bool)
    ensures
        b == contains_bytes(hay@, needle@),
{
    let n: usize = needle.len();
    let len: usize = hay.len();
    if n > len {
        return false;
    }
    if n == 0 {
        proof {
            assert(hay@.subrange(0, 0) =~= needle@);
            assert(occurs_at(hay@, needle@, 0));
        }
        return true;
    }
    let last: usize = len - n;
    let mut i: usize = 0;
    while i <= last
        invariant
            n == needle@.len(),
            n > 0,
            len == hay@.len(),
            last + n == len,
            i <= last + 1,
            forall|j: int| 0 <= j < i ==> !occurs_at(hay@, needle@, j),
        decreases last + 1 - i,
    {
        if matches_at(hay, needle, i) {
            return true;
        }
        i += 1;
    }
    false
}

/// Lists the occurrences of `needle` in `hay`, left to right, none
/// overlapping the one before it.
pub fn scan(hay: &[u8], needle: &[u8]) -> (spans: Vec<MatchPosition>)
    ensures
        spans@ == scan_positions(hay@, needle@, 0),
        spans_within(spans@, hay@.len() as int),
{
    let mut spans: Vec<MatchPosition> = Vec::new();
    let n: usize = needle.len();
    let len: usize = hay.len();
    if n == 0 || n > len {
        return spans;
    }
    let last: usize = len - n;
    let mut i: usize = 0;
    while i <= last
        invariant
            n == needle@.len(),
            n > 0,
            len == hay@.len(),
            last + n == len,
            i <= len,
            spans@ + scan_positions(hay@, needle@, i as int) == scan_positions(hay@, needle@, 0),
            spans_within(spans@, hay@.len() as int),
        decreases hay@.len() - i,
    {
        if matches_at(hay, needle, i) {
            proof {
                let rest = scan_positions(hay@, needle@, i + n);
                assert(spans@.push(span_at(i as int, n as int)) + rest =~= spans@ + (seq![
                    span_at(i as int, n as int),
                ] + rest));
            }
            spans.push(MatchPosition { offset: i, length: n });
            i += n;
        } else {
            i += 1;
        }
    }
    proof {
        assert(spans@ + Seq::<MatchPosition>::empty() =~= spans@);
    }
    spans
}

/// Lists the occurrences of `needle` in `hay` that stand between word
/// boundaries, left to right.
pub fn scan_whole_words(hay: &[u8], needle: &[u8]) -> (spans: Vec<MatchPosition>)
    ensures
        spans@ == whole_word_positions(hay@, needle@, 0),
        spans_within(spans@, hay@.len() as int),
{
    let mut spans: Vec<MatchPosition> = Vec::new();
    let n: usize = needle.len();
    let len: usize = hay.len();
    if n == 0 || n > len {
        return spans;
    }
    let last: usize = len - n;
    let mut i: usize = 0;
    while i <= last
        invariant
            n == needle@.len(),
            n > 0,
            len == hay@.len(),
            last + n == len,
            i <= last + 1,
            spans@ + whole_word_positions(hay@, needle@, i as int) == whole_word_positions(
                hay@,
                needle@,
                0,
            ),
            spans_within(spans@, hay@.len() as int),
        decreases last + 1 - i,
    {
        if matches_at(hay, needle, i) {
            let before_ok: bool = i == 0 || !is_word(hay[i - 1]);
            let after_ok: bool = i + n == len || !is_word(hay[i + n]);
            if before_ok && after_ok {
                proof {
                    let rest = whole_word_positions(hay@, needle@, i + 1);
                    assert(spans@.push(span_at(i as int, n as int)) + rest =~= spans@ + (seq![
                        span_at(i as int, n as int),
                    ] + rest));
                }
                spans.push(MatchPosition { offset: i, length: n });
            }
        }
        i += 1;
    }
    proof {
        assert(spans@ + Seq::<MatchPosition>::empty() =~= spans@);
    }
    spans
}


/// Every span that the scan lists is an occurrence of the keyword at or
/// behind the starting offset, and each span begins where the one before it
/// has ended, or later.
pub proof fn law_scan_lists_occurrences(hay: Seq<u8>, needle: Seq<u8>, from: int)
    requires
        0 <= from,
        hay.len() <= usize::MAX,
    ensures
        forall|k: int|
            0 <= k < scan_positions(hay, needle, from).len() ==> {
                let span = #[trigger] scan_positions(hay, needle, from)[k];
                &&& span.length == needle.len()
                &&& from <= span.offset
                &&& occurs_at(hay, needle, span.offset as int)
            },
        forall|k: int|
            1 <= k < scan_positions(hay, needle, from).len() ==> (#[trigger] scan_positions(
                hay,
                needle,
                from,
            )[k]).offset >= scan_positions(hay, needle, from)[k - 1].offset + needle.len(),
    decreases hay.len() - from,
{
    let spans = scan_positions(hay, needle, from);
    if needle.len() == 0 || from + needle.len() > hay.len() {
        assert(spans.len() == 0);
    } else if occurs_at(hay, needle, from) {
        let next = from + needle.len();
        law_scan_lists_occurrences(hay, needle, next);
        let rest = scan_positions(hay, needle, next);
        assert forall|k: int| 0 <= k < spans.len() implies {
            let span = #[trigger] spans[k];
            &&& span.length == needle.len()
            &&& from <= span.offset
            &&& occurs_at(hay, needle, span.offset as int)
        } by {
            if k > 0 {
                assert(spans[k] == rest[k - 1]);
            }
        }
        assert forall|k: int| 1 <= k < spans.len() implies (#[trigger] spans[k]).offset >= spans[k
            - 1].offset + needle.len() by {
            assert(spans[k] == rest[k - 1]);
            if k > 1 {
                assert(spans[k - 1] == rest[k - 2]);
            }
        }
    } else {
        law_scan_lists_occurrences(hay, needle, from + 1);
        let rest = scan_positions(hay, needle, from + 1);
        assert(spans == rest);
        assert forall|k: int| 0 <= k < spans.len() implies {
            let span = #[trigger] spans[k];
            &&& span.length == needle.len()
            &&& from <= span.offset
            &&& occurs_at(hay, needle, span.offset as int)
        } by {
            assert(spans[k] == rest[k]);
        }
        assert forall|k: int| 1 <= k < spans.len() implies (#[trigger] spans[k]).offset >= spans[k
            - 1].offset + needle.len() by {
            assert(spans[k] == rest[k]);
            assert(spans[k - 1] == rest[k - 1]);
        }
    }
}

/// No occurrence is passed over: the first span that the scan lists is the
/// first occurrence of the keyword at or behind the starting offset, and
/// the scan lists nothing only where there is none.
pub proof fn law_scan_finds_first(hay: Seq<u8>, needle: Seq<u8>, from: int, at: int)
    requires
        0 <= from <= at,
        hay.len() <= usize::MAX,
        needle.len() > 0,
        occurs_at(hay, needle, at),
    ensures
        scan_positions(hay, needle, from).len() > 0,
        scan_positions(hay, needle, from)[0].offset <= at,
    decreases at - from,
{
    if !occurs_at(hay, needle, from) {
        law_scan_finds_first(hay, needle, from + 1, at);
    }
}

/// Every span that the scan for whole words lists is an occurrence of the
/// keyword between word boundaries, and the spans are listed from left to
/// right.
pub proof fn law_whole_words_are_bounded(hay: Seq<u8>, needle: Seq<u8>, from: int)
    requires
        0 <= from,
        hay.len() <= usize::MAX,
    ensures
        forall|k: int|
            0 <= k < whole_word_positions(hay, needle, from).len() ==> {
                let span = #[trigger] whole_word_positions(hay, needle, from)[k];
                &&& span.length == needle.len()
                &&& from <= span.offset
                &&& occurs_at(hay, needle, span.offset as int)
                &&& word_bounded(hay, needle.len() as int, span.offset as int)
            },
        forall|k: int|
            1 <= k < whole_word_positions(hay, needle, from).len() ==> (
            #[trigger] whole_word_positions(hay, needle, from)[k]).offset > whole_word_positions(
                hay,
                needle,
                from,
            )[k - 1].offset,
    decreases hay.len() - from,
{
    let spans = whole_word_positions(hay, needle, from);
    if needle.len() == 0 || from + needle.len() > hay.len() {
        assert(spans.len() == 0);
    } else {
        law_whole_words_are_bounded(hay, needle, from + 1);
        let rest = whole_word_positions(hay, needle, from + 1);
        if occurs_at(hay, needle, from) && word_bounded(hay, needle.len() as int, from) {
            assert forall|k: int| 0 <= k < spans.len() implies {
                let span = #[trigger] spans[k];
                &&& span.length == needle.len()
                &&& from <= span.offset
                &&& occurs_at(hay, needle, span.offset as int)
                &&& word_bounded(hay, needle.len() as int, span.offset as int)
            } by {
                if k > 0 {
                    assert(spans[k] == rest[k - 1]);
                }
            }
            assert forall|k: int| 1 <= k < spans.len() implies (#[trigger] spans[k]).offset
                > spans[k - 1].offset by {
                assert(spans[k] == rest[k - 1]);
                if k > 1 {
                    assert(spans[k - 1] == rest[k - 2]);
                }
            }
        } else {
            assert(spans == rest);
            assert forall|k: int| 0 <= k < spans.len() implies {
                let span = #[trigger] spans[k];
                &&& span.length == needle.len()
                &&& from <= span.offset
                &&& occurs_at(hay, needle, span.offset as int)
                &&& word_bounded(hay, needle.len() as int, span.offset as int)
            } by {
                assert(spans[k] == rest[k]);
            }
            assert forall|k: int| 1 <= k < spans.len() implies (#[trigger] spans[k]).offset
                > spans[k - 1].offset by {
                assert(spans[k] == rest[k]);
                assert(spans[k - 1] == rest[k - 1]);
            }
        }
    }
}

/// What `str::to_lowercase` gives for a text.
pub uninterp spec fn lowercase_of(text: Seq<char>) -> Seq<char>;

/// Calls `str::to_lowercase` of the standard library. Trusted: the result is
/// the one that `lowercase_of` names; nothing is claimed of its length.
#[verifier::external_body]
pub(crate) fn to_lowercase(text: &str) -> (r: String)
    ensures
        r@ == lowercase_of(text@),
{
    text.to_lowercase()
}

/// The letter of ASCII in lowercase; any other character as it is.
pub open spec fn ascii_lower(c: char) -> char {
    if 'A' <= c <= 'Z' {
        ((c as u8) + 32) as char
    } else {
        c
    }
}

/// The text with its letters of ASCII in lowercase.
pub open spec fn ascii_lowered(text: Seq<char>) -> Seq<char> {
    text.map_values(|c: char| ascii_lower(c))
}

/// Calls `str::to_ascii_lowercase` of the standard library. Trusted: the
/// letters A to Z are lowered and nothing else changes.
#[verifier::external_body]
pub(crate) fn to_ascii_lowercase(text: &str) -> (r: String)
    ensures
        r@ == ascii_lowered(text@),
{
    text.to_ascii_lowercase()
}

/// The text with every `from` replaced by `to`.
pub open spec fn replaced(text: Seq<char>, from: char, to: Seq<char>) -> Seq<char>
    decreases text.len(),
{
    if text.len() == 0 {
        Seq::empty()
    } else if text[0] == from {
        to + replaced(text.drop_first(), from, to)
    } else {
        seq![text[0]] + replaced(text.drop_first(), from, to)
    }
}

/// Calls `str::replace` of the standard library with a character to look
/// for. Trusted: every such character, and nothing else, is replaced.
#[verifier::external_body]
pub(crate) fn replace_char(text: &str, from: char, to: &str) -> (r: String)
    ensures
        r@ == replaced(text@, from, to@),
{
    text.replace(from, to)
}

} // verus!
