//! Byte offsets and character positions.
//!
//! A match and a mark are kept as offsets into the bytes of a name. To cut
//! the name into segments they are turned into positions counted in
//! characters: an offset becomes the number of characters that begin before
//! it.

use crate::entry::{marks_view, Style};
use vstd::prelude::*;
use vstd::string::StringSliceAdditionalSpecFns;
use vstd::utf8::{
    decode_utf8, encode_scalar, encode_utf8, encode_utf8_decode_utf8, encode_utf8_first_scalar,
    encode_utf8_valid_utf8, is_char_boundary, length_of_first_scalar, pop_first_scalar, valid_utf8,
};

verus! {

/// The number of characters of the text with bytes `bytes` that begin before
/// byte offset `offset`. For an offset at which a character begins, this is
/// the position of that character in the text.
pub open spec fn char_index(bytes: Seq<u8>, offset: int) -> nat
    decreases offset,
{
    if offset <= 0 {
        0
    } else {
        char_index(bytes, offset - 1) + if offset - 1 < bytes.len() && is_char_boundary(
            bytes,
            offset - 1,
        ) {
            1nat
        } else {
            0nat
        }
    }
}

/// The spans `spans` of byte offsets into `text`, with each offset replaced
/// by the number of characters that begin before it.
pub open spec fn char_spans(text: Seq<char>, spans: Seq<(usize, usize)>) -> Seq<(int, int)> {
    Seq::new(
        spans.len(),
        |i: int|
            (
                char_index(encode_utf8(text), spans[i].0 as int) as int,
                char_index(encode_utf8(text), spans[i].1 as int) as int,
            ),
    )
}

/// The marks `marks` at byte offsets into `text`, with each offset replaced
/// by the number of characters that begin before it. A mark at the first
/// byte of a character so becomes a mark at the position of that character.
pub open spec fn char_marks(text: Seq<char>, marks: Seq<(int, Style)>) -> Seq<(int, Style)> {
    Seq::new(
        marks.len(),
        |i: int| (char_index(encode_utf8(text), marks[i].0) as int, marks[i].1),
    )
}

/// No more characters begin before an offset than there are bytes before it.
pub proof fn lemma_char_index_bound(bytes: Seq<u8>, offset: int)
    ensures
        char_index(bytes, offset) <= if offset < 0 {
            0
        } else if offset <= bytes.len() {
            offset
        } else {
            bytes.len() as int
        },
    decreases offset,
{
    if offset > 0 {
        lemma_char_index_bound(bytes, offset - 1);
    }
}

/// Behind the last byte no character begins.
pub proof fn lemma_char_index_past_end(bytes: Seq<u8>, offset: int)
    requires
        offset >= bytes.len(),
    ensures
        char_index(bytes, offset) == char_index(bytes, bytes.len() as int),
    decreases offset,
{
    if offset > bytes.len() {
        lemma_char_index_past_end(bytes, offset - 1);
    }
}

/// For every byte offset into `text`, up to its length, the number of
/// characters that begin before it.
pub fn char_counts(text: &str) -> (counts: Vec<usize>)
    ensures
        counts.len() == encode_utf8(text@).len() + 1,
        forall|j: int|
            0 <= j < counts.len() ==> #[trigger] counts[j] == char_index(encode_utf8(text@), j),
        forall|j: int| 0 <= j < counts.len() ==> #[trigger] counts[j] <= text@.len(),
{
    let ghost bytes = text.spec_bytes();
    let len: usize = text.as_bytes().len();
    let mut counts: Vec<usize> = Vec::new();
    counts.push(0);
    let mut b: usize = 0;
    while b < len
        invariant
            bytes == text.spec_bytes(),
            len == bytes.len(),
            b <= len,
            counts.len() == b + 1,
            forall|j: int| 0 <= j <= b ==> #[trigger] counts[j] == char_index(bytes, j),
        decreases len - b,
    {
        proof {
            lemma_char_index_bound(bytes, b as int);
        }
        let here: usize = counts[b];
        if text.is_char_boundary(b) {
            counts.push(here + 1);
        } else {
            counts.push(here);
        }
        b += 1;
    }
    proof {
        lemma_chars_counted(text@);
        assert forall|j: int| 0 <= j < counts.len() implies #[trigger] counts[j]
            <= text@.len() by {
            lemma_char_index_monotone(bytes, j, len as int);
        }
    }
    counts
}

/// The number of characters that begin before byte offset `offset`, read
/// from the counts for all offsets up to the length of the text.
fn count_before(counts: &Vec<usize>, offset: usize, Ghost(text): Ghost<Seq<char>>) -> (k: usize)
    requires
        counts.len() == encode_utf8(text).len() + 1,
        forall|j: int|
            0 <= j < counts.len() ==> #[trigger] counts[j] == char_index(encode_utf8(text), j),
        forall|j: int| 0 <= j < counts.len() ==> #[trigger] counts[j] <= text.len(),
    ensures
        k == char_index(encode_utf8(text), offset as int),
        k <= text.len(),
{
    let last: usize = counts.len() - 1;
    if offset < last {
        counts[offset]
    } else {
        proof {
            lemma_char_index_past_end(encode_utf8(text), offset as int);
        }
        counts[last]
    }
}

/// Turns spans of byte offsets into `text` into spans of positions counted
/// in characters.
pub fn to_char_spans(text: &str, spans: &Vec<(usize, usize)>) -> (r: Vec<(usize, usize)>)
    ensures
        r.len() == spans.len(),
        forall|i: int|
            0 <= i < r.len() ==> (#[trigger] r[i].0 as int, r[i].1 as int) == char_spans(
                text@,
                spans@,
            )[i],
        forall|i: int| 0 <= i < r.len() ==> (#[trigger] r[i]).0 <= text@.len() && r[i].1 <= text@.len(),
{
    let counts = char_counts(text);
    let mut r: Vec<(usize, usize)> = Vec::new();
    let mut i: usize = 0;
    while i < spans.len()
        invariant
            counts.len() == encode_utf8(text@).len() + 1,
            forall|j: int|
                0 <= j < counts.len() ==> #[trigger] counts[j] == char_index(encode_utf8(text@), j),
            forall|j: int| 0 <= j < counts.len() ==> #[trigger] counts[j] <= text@.len(),
            i <= spans.len(),
            r.len() == i,
            forall|j: int|
                0 <= j < i ==> (#[trigger] r[j].0 as int, r[j].1 as int) == char_spans(
                    text@,
                    spans@,
                )[j],
            forall|j: int| 0 <= j < i ==> (#[trigger] r[j]).0 <= text@.len() && r[j].1 <= text@.len(),
        decreases spans.len() - i,
    {
        let span: (usize, usize) = spans[i];
        let from = count_before(&counts, span.0, Ghost(text@));
        let to = count_before(&counts, span.1, Ghost(text@));
        r.push((from, to));
        i += 1;
    }
    r
}

/// Turns marks at byte offsets into `text` into marks at positions counted
/// in characters. The styles stay.
pub fn to_char_marks(text: &str, marks: &Vec<(usize, Style)>) -> (r: Vec<(usize, Style)>)
    ensures
        marks_view(r@) == char_marks(text@, marks_view(marks@)),
{
    let counts = char_counts(text);
    let mut r: Vec<(usize, Style)> = Vec::new();
    let mut i: usize = 0;
    while i < marks.len()
        invariant
            counts.len() == encode_utf8(text@).len() + 1,
            forall|j: int|
                0 <= j < counts.len() ==> #[trigger] counts[j] == char_index(encode_utf8(text@), j),
            forall|j: int| 0 <= j < counts.len() ==> #[trigger] counts[j] <= text@.len(),
            i <= marks.len(),
            r.len() == i,
            forall|j: int|
                0 <= j < i ==> (#[trigger] r[j].0 as int, r[j].1) == char_marks(
                    text@,
                    marks_view(marks@),
                )[j],
        decreases marks.len() - i,
    {
        let mark: (usize, Style) = marks[i];
        let at = count_before(&counts, mark.0, Ghost(text@));
        r.push((at, mark.1));
        i += 1;
    }
    assert(marks_view(r@) =~= char_marks(text@, marks_view(marks@)));
    r
}

/// Counting the characters that begin before an offset, the first character
/// apart, is counting in the text without its first character.
proof fn lemma_char_index_shift(bytes: Seq<u8>, offset: int)
    requires
        valid_utf8(bytes),
        bytes.len() > 0,
        1 <= offset,
    ensures
        char_index(bytes, offset) == 1 + char_index(
            pop_first_scalar(bytes),
            offset - length_of_first_scalar(bytes),
        ),
    decreases offset,
{
    let width = length_of_first_scalar(bytes);
    let rest = pop_first_scalar(bytes);
    reveal_with_fuel(is_char_boundary, 2);
    reveal_with_fuel(char_index, 2);
    if offset == 1 {
        assert(is_char_boundary(bytes, 0));
        assert(char_index(rest, 1 - width) == 0);
    } else {
        lemma_char_index_shift(bytes, offset - 1);
        if offset - 1 <= bytes.len() {
            assert(is_char_boundary(bytes, offset - 1) == is_char_boundary(
                rest,
                offset - 1 - width,
            ));
        }
    }
}

/// As many characters begin in a valid encoding as it encodes.
proof fn lemma_boundaries_counted(bytes: Seq<u8>)
    requires
        valid_utf8(bytes),
    ensures
        char_index(bytes, bytes.len() as int) == decode_utf8(bytes).len(),
    decreases bytes.len(),
{
    if bytes.len() > 0 {
        lemma_boundaries_counted(pop_first_scalar(bytes));
        lemma_char_index_shift(bytes, bytes.len() as int);
    }
}

/// As many characters begin in the bytes of a text as the text has.
pub proof fn lemma_chars_counted(text: Seq<char>)
    ensures
        char_index(encode_utf8(text), encode_utf8(text).len() as int) == text.len(),
{
    encode_utf8_valid_utf8(text);
    encode_utf8_decode_utf8(text);
    lemma_boundaries_counted(encode_utf8(text));
}

/// The position of a character, counted in characters, is found from the
/// offset of its first byte: before the bytes of the first `k` characters of
/// a text, `k` characters begin.
pub proof fn law_char_index_of_prefix(text: Seq<char>, k: int)
    requires
        0 <= k <= text.len(),
    ensures
        char_index(encode_utf8(text), encode_utf8(text.take(k)).len() as int) == k,
    decreases text.len(),
{
    if k == 0 {
        assert(text.take(0) =~= Seq::empty());
    } else {
        let bytes = encode_utf8(text);
        let rest = text.drop_first();
        let first = encode_scalar(text[0] as u32);
        encode_utf8_valid_utf8(text);
        encode_utf8_first_scalar(text);
        assert(pop_first_scalar(bytes) =~= encode_utf8(rest));
        assert(text.take(k).drop_first() =~= rest.take(k - 1));
        assert(text.take(k)[0] == text[0]);
        assert(encode_utf8(text.take(k)) == first + encode_utf8(rest.take(k - 1)));
        assert(first.len() >= 1);
        law_char_index_of_prefix(rest, k - 1);
        lemma_char_index_shift(bytes, (first.len() + encode_utf8(rest.take(k - 1)).len()) as int);
    }
}

/// The bytes of a text are the bytes of its first `k` characters and then
/// the bytes of the others.
pub proof fn lemma_bytes_split(text: Seq<char>, k: int)
    requires
        0 <= k <= text.len(),
    ensures
        encode_utf8(text) == encode_utf8(text.take(k)) + encode_utf8(text.skip(k)),
    decreases text.len(),
{
    if k == 0 {
        assert(text.take(0) =~= Seq::empty());
        assert(text.skip(0) =~= text);
        assert(encode_utf8(text.take(0)) + encode_utf8(text) =~= encode_utf8(text));
    } else {
        let rest = text.drop_first();
        let first = encode_scalar(text[0] as u32);
        lemma_bytes_split(rest, k - 1);
        assert(text.take(k).drop_first() =~= rest.take(k - 1));
        assert(text.take(k)[0] == text[0]);
        assert(text.skip(k) =~= rest.skip(k - 1));
        assert(first + (encode_utf8(rest.take(k - 1)) + encode_utf8(rest.skip(k - 1))) =~= (first
            + encode_utf8(rest.take(k - 1))) + encode_utf8(rest.skip(k - 1)));
    }
}

/// The byte at which a `/` of a text begins is the byte `/`: where the
/// character at position `k` is a `/`, the byte behind the bytes of the
/// first `k` characters is 47.
pub proof fn law_slash_byte(text: Seq<char>, k: int)
    requires
        0 <= k < text.len(),
        text[k] == '/',
    ensures
        encode_utf8(text.take(k)).len() < encode_utf8(text).len(),
        encode_utf8(text)[encode_utf8(text.take(k)).len() as int] == 47u8,
{
    let tail = text.skip(k);
    lemma_bytes_split(text, k);
    assert(tail[0] == '/');
    assert('/' as u32 == 47u32);
    assert((47u32 & 0x7F) as u8 == 47u8) by (bit_vector);
    assert(encode_scalar(47u32) =~= seq![47u8]);
    assert(encode_utf8(tail)[0] == 47u8);
}

/// The further the offset, the more characters begin before it.
pub proof fn lemma_char_index_monotone(bytes: Seq<u8>, a: int, b: int)
    requires
        a <= b,
    ensures
        char_index(bytes, a) <= char_index(bytes, b),
    decreases b - a,
{
    if a < b {
        lemma_char_index_monotone(bytes, a, b - 1);
    }
}

} // verus!
