//! Byte offsets into UTF-8 text: which of them fall between characters, the
//! text that lies between two of them, and the splice of a replacement over a
//! span.

use vstd::prelude::*;
use vstd::string::StringSliceAdditionalSpecFns;
use vstd::utf8::*;

verus! {

/// `offset` is a byte offset at which `text` can be cut: the start of one of
/// its characters in its UTF-8 encoding, or the end of the text.
pub open spec fn is_boundary(text: Seq<char>, offset: int) -> bool {
    is_char_boundary(encode_utf8(text), offset)
}

/// `[start, end)` is a byte range of `text` that splits no character.
pub open spec fn is_span(text: Seq<char>, start: int, end: int) -> bool {
    &&& start <= end
    &&& is_boundary(text, start)
    &&& is_boundary(text, end)
}

/// The characters of `text` whose encodings lie in the bytes `[start, end)`.
pub open spec fn text_between(text: Seq<char>, start: int, end: int) -> Seq<char> {
    decode_utf8(encode_utf8(text).subrange(start, end))
}

/// The characters of `text` that lie before byte `offset`.
pub open spec fn text_before(text: Seq<char>, offset: int) -> Seq<char> {
    text_between(text, 0, offset)
}

/// The characters of `text` from byte `offset` on.
pub open spec fn text_after(text: Seq<char>, offset: int) -> Seq<char> {
    text_between(text, offset, encode_utf8(text).len() as int)
}

/// `text` with the bytes `[start, end)` replaced by `replacement`.
pub open spec fn spliced(text: Seq<char>, start: int, end: int, replacement: Seq<char>) -> Seq<
    char,
> {
    text_before(text, start) + replacement + text_after(text, end)
}

/// The span filter: `end - 1` indexes a character of `text`, and `[start, end)`
/// is a byte range that splits no character.
pub open spec fn is_safe_span(text: Seq<char>, start: int, end: int) -> bool {
    &&& 0 <= end - 1 < text.len()
    &&& is_span(text, start, end)
}

/// A boundary lies within the encoded text.
pub proof fn lemma_boundary_in_range(text: Seq<char>, offset: int)
    requires
        is_boundary(text, offset),
    ensures
        0 <= offset <= encode_utf8(text).len(),
{
    encode_utf8_valid_utf8(text);
}

/// A string holds the characters that its bytes decode to.
proof fn lemma_decode_bytes(s: &str, bytes: Seq<u8>)
    requires
        s.spec_bytes() == bytes,
    ensures
        s@ == decode_utf8(bytes),
{
    encode_utf8_decode_utf8(s@);
}

/// A boundary of a text is a boundary of each prefix that reaches it.
proof fn lemma_boundary_of_prefix(bytes: Seq<u8>, start: int, end: int)
    requires
        valid_utf8(bytes),
        start <= end,
        is_char_boundary(bytes, start),
        is_char_boundary(bytes, end),
    ensures
        valid_utf8(bytes.subrange(0, end)),
        is_char_boundary(bytes.subrange(0, end), start),
{
    let head = bytes.subrange(0, end);
    valid_utf8_split(bytes, end);
    if start == 0 {
    } else if start == end {
        is_char_boundary_start_end_of_seq(head);
    } else {
        is_char_boundary_iff_not_is_continuation_byte(bytes, start);
        is_char_boundary_iff_not_is_continuation_byte(head, start);
    }
}

/// The part of `source` before byte `offset`.
pub fn prefix<'a>(source: &'a str, offset: usize) -> (head: &'a str)
    requires
        is_boundary(source@, offset as int),
    ensures
        head@ == text_before(source@, offset as int),
{
    let (head, _) = source.split_at(offset);
    proof {
        lemma_decode_bytes(head, source.spec_bytes().subrange(0, offset as int));
    }
    head
}

/// The part of `source` from byte `offset` on.
pub fn suffix<'a>(source: &'a str, offset: usize) -> (tail: &'a str)
    requires
        is_boundary(source@, offset as int),
    ensures
        tail@ == text_after(source@, offset as int),
{
    let (_, tail) = source.split_at(offset);
    proof {
        lemma_decode_bytes(
            tail,
            source.spec_bytes().subrange(offset as int, source.spec_bytes().len() as int),
        );
    }
    tail
}

/// The part of `source` in the bytes `[start, end)`.
pub fn between<'a>(source: &'a str, start: usize, end: usize) -> (part: &'a str)
    requires
        is_span(source@, start as int, end as int),
    ensures
        part@ == text_between(source@, start as int, end as int),
{
    let (head, _) = source.split_at(end);
    proof {
        encode_utf8_valid_utf8(source@);
        lemma_boundary_of_prefix(source.spec_bytes(), start as int, end as int);
    }
    let (_, part) = head.split_at(start);
    proof {
        let bytes = source.spec_bytes();
        assert(bytes.subrange(0, end as int).subrange(start as int, end as int) =~= bytes.subrange(
            start as int,
            end as int,
        ));
        lemma_decode_bytes(part, bytes.subrange(start as int, end as int));
    }
    part
}

/// Whether `[start, end)` is a byte range of `source` that splits no
/// character.
pub fn span_is_whole(source: &str, start: usize, end: usize) -> (whole: bool)
    ensures
        whole == is_span(source@, start as int, end as int),
{
    start <= end && source.is_char_boundary(start) && source.is_char_boundary(end)
}

/// Whether two strings hold the same characters.
pub fn same_text(a: &str, b: &str) -> (same: bool)
    ensures
        same == (a@ == b@),
{
    let left = a.as_bytes();
    let right = b.as_bytes();
    if left.len() != right.len() {
        return false;
    }
    let mut i: usize = 0;
    while i < left.len()
        invariant
            i <= left.len() == right.len(),
            left@ == a.spec_bytes(),
            right@ == b.spec_bytes(),
            forall|k: int| 0 <= k < i ==> left[k] == right[k],
        decreases left.len() - i,
    {
        if left[i] != right[i] {
            return false;
        }
        i += 1;
    }
    proof {
        assert(left@ =~= right@);
        encode_utf8_decode_utf8(a@);
        encode_utf8_decode_utf8(b@);
    }
    true
}

/// Whether the span filter lets `[start, end)` through.
pub fn span_is_safe(source: &str, start: usize, end: usize) -> (safe: bool)
    ensures
        safe == is_safe_span(source@, start as int, end as int),
{
    1 <= end && end - 1 < source.unicode_len() && start <= end && source.is_char_boundary(start)
        && source.is_char_boundary(end)
}

/// A copy of `source` with the bytes `[start, end)` replaced by `replacement`.
pub fn splice(source: &str, start: usize, end: usize, replacement: &str) -> (variant: String)
    requires
        is_span(source@, start as int, end as int),
    ensures
        variant@ == spliced(source@, start as int, end as int, replacement@),
{
    let mut variant = String::from_str(prefix(source, start));
    variant.append(replacement);
    variant.append(suffix(source, end));
    variant
}

/// The encoding of two texts in a row is the encoding of the first, then
/// that of the second.
pub proof fn lemma_encode_concat(a: Seq<char>, b: Seq<char>)
    ensures
        encode_utf8(a + b) == encode_utf8(a) + encode_utf8(b),
    decreases a.len(),
{
    if a.len() == 0 {
        assert(a + b =~= b);
    } else {
        assert((a + b).drop_first() =~= a.drop_first() + b);
        lemma_encode_concat(a.drop_first(), b);
    }
}

/// The bytes between two boundaries are the encoding of the text between
/// them.
pub proof fn lemma_bytes_between(text: Seq<char>, start: int, end: int)
    requires
        is_span(text, start, end),
    ensures
        encode_utf8(text_between(text, start, end)) == encode_utf8(text).subrange(start, end),
{
    let bytes = encode_utf8(text);
    encode_utf8_valid_utf8(text);
    lemma_boundary_of_prefix(bytes, start, end);
    let head = bytes.subrange(0, end);
    valid_utf8_split(head, start);
    assert(head.subrange(start, head.len() as int) =~= bytes.subrange(start, end));
    decode_utf8_encode_utf8(bytes.subrange(start, end));
}

/// The bytes of a variant: those of the source before the span, those of
/// the replacement, and those of the source after the span.
pub proof fn lemma_spliced_bytes(text: Seq<char>, start: int, end: int, replacement: Seq<char>)
    requires
        is_span(text, start, end),
    ensures
        encode_utf8(spliced(text, start, end, replacement)) == encode_utf8(text).subrange(0, start)
            + encode_utf8(replacement) + encode_utf8(text).subrange(
            end,
            encode_utf8(text).len() as int,
        ),
{
    let bytes = encode_utf8(text);
    encode_utf8_valid_utf8(text);
    is_char_boundary_start_end_of_seq(bytes);
    lemma_boundary_in_range(text, start);
    lemma_boundary_in_range(text, end);
    lemma_bytes_between(text, 0, start);
    lemma_bytes_between(text, end, bytes.len() as int);
    lemma_encode_concat(text_before(text, start) + replacement, text_after(text, end));
    lemma_encode_concat(text_before(text, start), replacement);
}

/// A span's own text, spliced over the span, gives the source again: the
/// span holds exactly the text that a variant replaces.
pub proof fn lemma_splice_round_trip(text: Seq<char>, start: int, end: int)
    requires
        is_span(text, start, end),
    ensures
        spliced(text, start, end, text_between(text, start, end)) == text,
{
    let bytes = encode_utf8(text);
    let same = spliced(text, start, end, text_between(text, start, end));
    lemma_boundary_in_range(text, start);
    lemma_boundary_in_range(text, end);
    lemma_spliced_bytes(text, start, end, text_between(text, start, end));
    lemma_bytes_between(text, start, end);
    assert(bytes.subrange(0, start) + bytes.subrange(start, end) + bytes.subrange(
        end,
        bytes.len() as int,
    ) =~= bytes);
    encode_utf8_decode_utf8(same);
    encode_utf8_decode_utf8(text);
}

/// A span whose end byte, less one, is no index of a character does not
/// pass the filter: so one whose end byte lies one past the number of
/// characters, and one that ends at byte 0.
pub proof fn lemma_filter_drops_late_end(text: Seq<char>, start: int, end: int)
    requires
        end > text.len() || end <= 0,
    ensures
        !is_safe_span(text, start, end),
{
}

/// In a text of ASCII characters every byte offset is a character index:
/// each range within the text is a span and holds the characters with those
/// indices, and the filter lets it through unless it ends at byte 0.
pub proof fn lemma_ascii_span(text: Seq<char>, start: int, end: int)
    requires
        is_ascii_chars(text),
        0 <= start <= end <= text.len(),
    ensures
        encode_utf8(text).len() == text.len(),
        is_span(text, start, end),
        text_between(text, start, end) == text.subrange(start, end),
        is_safe_span(text, start, end) == (end >= 1),
{
    let bytes = encode_utf8(text);
    let part = text.subrange(start, end);
    encode_utf8_valid_utf8(text);
    is_ascii_chars_encode_utf8(text);
    is_char_boundary_start_end_of_seq(bytes);
    if start < bytes.len() {
        is_char_boundary_iff_not_is_continuation_byte(bytes, start);
    }
    if end < bytes.len() {
        is_char_boundary_iff_not_is_continuation_byte(bytes, end);
    }
    is_ascii_chars_encode_utf8(part);
    assert(encode_utf8(part) =~= bytes.subrange(start, end));
    encode_utf8_decode_utf8(part);
}

} // verus!
