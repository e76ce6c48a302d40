//! Grapheme segmentation of UTF-8 text, and the byte-offset tables that
//! the rest of the crate uses to address grapheme clusters.

use unicode_segmentation::UnicodeSegmentation;
use vstd::prelude::*;
use vstd::utf8::*;

verus! {

/// The byte offsets at which the extended grapheme clusters of `text`
/// begin, in order, as Unicode text segmentation places them.
pub uninterp spec fn grapheme_starts(text: Seq<char>) -> Seq<usize>;

/// What holds of the start offsets of the clusters of any text whose
/// UTF-8 encoding is `bytes`: the first cluster starts at 0, every
/// cluster is non-empty and starts on a character boundary inside the
/// text, and only the empty text has no cluster.
pub open spec fn starts_well_formed(bytes: Seq<u8>, starts: Seq<usize>) -> bool {
    &&& (starts.len() == 0 <==> bytes.len() == 0)
    &&& (starts.len() > 0 ==> starts[0] == 0)
    &&& forall|i: int, j: int| 0 <= i < j < starts.len() ==> starts[i] < starts[j]
    &&& forall|i: int|
        0 <= i < starts.len() ==> starts[i] < bytes.len() && is_char_boundary(
            bytes,
            #[trigger] starts[i] as int,
        )
}

/// Calls `UnicodeSegmentation::grapheme_indices(content, true)` and keeps
/// the byte offset of each cluster.
///
/// Trusted: the offsets are the named segmentation of the text, and they
/// satisfy [`starts_well_formed`]. The iterator hands out consecutive
/// non-empty slices `content[start..next]` that begin at offset 0 and end
/// at `content.len()`, so each offset is a character boundary below the
/// length and the offsets strictly increase.
#[verifier::external_body]
pub(crate) fn grapheme_start_offsets(content: &str) -> (starts: Vec<usize>)
    ensures
        starts@ == grapheme_starts(content@),
        starts_well_formed(encode_utf8(content@), starts@),
{
    content.grapheme_indices(true).map(|(offset, _)| offset).collect()
}

/// A table of byte offsets that cuts `bytes` into consecutive non-empty
/// pieces, each starting and ending on a character boundary. Entry `k` is
/// where piece `k` begins; the last entry is the length of `bytes`.
pub open spec fn is_boundary_table(bytes: Seq<u8>, table: Seq<usize>) -> bool {
    &&& table.len() >= 1
    &&& table[0] == 0
    &&& table[table.len() - 1] == bytes.len()
    &&& forall|i: int, j: int| 0 <= i < j < table.len() ==> table[i] < table[j]
    &&& forall|i: int|
        0 <= i < table.len() ==> is_char_boundary(bytes, #[trigger] table[i] as int)
}

/// The characters of piece `k` of a table.
pub open spec fn piece(bytes: Seq<u8>, table: Seq<usize>, k: int) -> Seq<char> {
    decode_utf8(bytes.subrange(table[k] as int, table[k + 1] as int))
}

/// Pieces `from..to` of a table, one entry per piece.
pub open spec fn pieces(bytes: Seq<u8>, table: Seq<usize>, from: int, to: int) -> Seq<Seq<char>> {
    Seq::new((to - from) as nat, |k: int| piece(bytes, table, from + k))
}

/// The characters between the start of piece `from` and the start of
/// piece `to`.
pub open spec fn span_text(bytes: Seq<u8>, table: Seq<usize>, from: int, to: int) -> Seq<char> {
    decode_utf8(bytes.subrange(table[from] as int, table[to] as int))
}

/// The boundary table of a text: the starts of its grapheme clusters,
/// closed by the length of its encoding.
pub open spec fn boundary_table(text: Seq<char>) -> Seq<usize> {
    grapheme_starts(text).push(encode_utf8(text).len() as usize)
}

/// The grapheme clusters of a text, each as its characters.
pub open spec fn segments(text: Seq<char>) -> Seq<Seq<char>> {
    pieces(encode_utf8(text), boundary_table(text), 0, grapheme_starts(text).len() as int)
}

/// The number of grapheme clusters of a text.
pub open spec fn grapheme_count(text: Seq<char>) -> nat {
    grapheme_starts(text).len()
}

/// Closing a well-formed list of cluster starts with the length of the
/// encoding gives a boundary table.
pub proof fn lemma_starts_give_table(bytes: Seq<u8>, starts: Seq<usize>)
    requires
        valid_utf8(bytes),
        bytes.len() <= usize::MAX,
        starts_well_formed(bytes, starts),
    ensures
        is_boundary_table(bytes, starts.push(bytes.len() as usize)),
{
    let table = starts.push(bytes.len() as usize);
    is_char_boundary_start_end_of_seq(bytes);
    assert forall|i: int| 0 <= i < table.len() implies is_char_boundary(
        bytes,
        #[trigger] table[i] as int,
    ) by {
        if i < starts.len() {
            assert(table[i] == starts[i]);
        }
    }
    assert forall|i: int, j: int| 0 <= i < j < table.len() implies table[i] < table[j] by {
        if j < starts.len() {
            assert(table[i] == starts[i] && table[j] == starts[j]);
        } else {
            assert(table[i] == starts[i]);
        }
    }
}

/// A boundary of `bytes` that lies at or before another boundary `b` is
/// also a boundary of the prefix that ends at `b`.
pub proof fn lemma_boundary_in_prefix(bytes: Seq<u8>, a: int, b: int)
    requires
        valid_utf8(bytes),
        0 <= a <= b <= bytes.len(),
        is_char_boundary(bytes, a),
        is_char_boundary(bytes, b),
    ensures
        valid_utf8(bytes.subrange(0, b)),
        is_char_boundary(bytes.subrange(0, b), a),
{
    let head = bytes.subrange(0, b);
    valid_utf8_split(bytes, b);
    if a == 0 || a == b {
        is_char_boundary_start_end_of_seq(head);
    } else {
        is_char_boundary_iff_not_is_continuation_byte(bytes, a);
        is_char_boundary_iff_not_is_continuation_byte(head, a);
    }
}

/// A boundary of `bytes` that lies at or after another boundary `a` is
/// also a boundary of the suffix that starts at `a`.
pub proof fn lemma_boundary_in_suffix(bytes: Seq<u8>, a: int, b: int)
    requires
        valid_utf8(bytes),
        0 <= a <= b <= bytes.len(),
        is_char_boundary(bytes, a),
        is_char_boundary(bytes, b),
    ensures
        valid_utf8(bytes.subrange(a, bytes.len() as int)),
        is_char_boundary(bytes.subrange(a, bytes.len() as int), b - a),
{
    let tail = bytes.subrange(a, bytes.len() as int);
    valid_utf8_split(bytes, a);
    if b == a || b == bytes.len() {
        is_char_boundary_start_end_of_seq(tail);
    } else {
        is_char_boundary_iff_not_is_continuation_byte(bytes, b);
        is_char_boundary_iff_not_is_continuation_byte(tail, b - a);
    }
}

/// Between two boundaries the bytes are valid UTF-8, and a boundary in
/// between is a boundary of that range.
pub proof fn lemma_boundary_within(bytes: Seq<u8>, x: int, y: int, z: int)
    requires
        valid_utf8(bytes),
        0 <= x <= y <= z <= bytes.len(),
        is_char_boundary(bytes, x),
        is_char_boundary(bytes, y),
        is_char_boundary(bytes, z),
    ensures
        valid_utf8(bytes.subrange(x, z)),
        is_char_boundary(bytes.subrange(x, z), y - x),
{
    let head = bytes.subrange(0, z);
    lemma_boundary_in_prefix(bytes, x, z);
    lemma_boundary_in_prefix(bytes, y, z);
    lemma_boundary_in_suffix(head, x, y);
    assert(head.subrange(x, head.len() as int) =~= bytes.subrange(x, z));
}

/// Decoding a range of bytes is decoding its two halves, when the range
/// is cut on a character boundary.
pub proof fn lemma_decode_join(bytes: Seq<u8>, x: int, y: int, z: int)
    requires
        valid_utf8(bytes),
        0 <= x <= y <= z <= bytes.len(),
        is_char_boundary(bytes, x),
        is_char_boundary(bytes, y),
        is_char_boundary(bytes, z),
    ensures
        decode_utf8(bytes.subrange(x, z)) == decode_utf8(bytes.subrange(x, y)) + decode_utf8(
            bytes.subrange(y, z),
        ),
{
    lemma_boundary_within(bytes, x, y, z);
    let mid = bytes.subrange(x, z);
    decode_utf8_split(mid, y - x);
    assert(mid.subrange(0, y - x) =~= bytes.subrange(x, y));
    assert(mid.subrange(y - x, mid.len() as int) =~= bytes.subrange(y, z));
}

/// The text of a span of pieces is the pieces laid end to end.
pub proof fn lemma_span_text_flatten(bytes: Seq<u8>, table: Seq<usize>, from: int, to: int)
    requires
        valid_utf8(bytes),
        is_boundary_table(bytes, table),
        0 <= from <= to < table.len(),
    ensures
        span_text(bytes, table, from, to) == pieces(bytes, table, from, to).flatten(),
    decreases to - from,
{
    if from == to {
        assert(bytes.subrange(table[from] as int, table[to] as int) =~= Seq::<u8>::empty());
        assert(pieces(bytes, table, from, to) =~= Seq::<Seq<char>>::empty());
    } else {
        lemma_span_text_flatten(bytes, table, from, to - 1);
        assert(table[from] <= table[to - 1]);
        assert(table[to - 1] < table[to]);
        assert(table[to] <= table[table.len() - 1]);
        lemma_decode_join(bytes, table[from] as int, table[to - 1] as int, table[to] as int);
        let init = pieces(bytes, table, from, to - 1);
        let last = piece(bytes, table, to - 1);
        assert(pieces(bytes, table, from, to) =~= init.push(last));
        init.lemma_flatten_push(last);
    }
}

/// The grapheme clusters of a text, laid end to end, are the text.
pub proof fn lemma_segments_cover(text: Seq<char>)
    requires
        encode_utf8(text).len() <= usize::MAX,
        starts_well_formed(encode_utf8(text), grapheme_starts(text)),
    ensures
        segments(text).flatten() == text,
        is_boundary_table(encode_utf8(text), boundary_table(text)),
{
    let bytes = encode_utf8(text);
    let table = boundary_table(text);
    let n = grapheme_starts(text).len() as int;
    encode_utf8_valid_utf8(text);
    encode_utf8_decode_utf8(text);
    lemma_starts_give_table(bytes, grapheme_starts(text));
    lemma_span_text_flatten(bytes, table, 0, n);
    assert(bytes.subrange(table[0] as int, table[n] as int) =~= bytes);
}

/// Where two valid encodings are joined, every boundary of the first is a
/// boundary of the whole.
pub proof fn lemma_boundary_of_left(left: Seq<u8>, right: Seq<u8>, at: int)
    requires
        valid_utf8(left),
        valid_utf8(right),
        0 <= at <= left.len(),
        is_char_boundary(left, at),
    ensures
        valid_utf8(left + right),
        is_char_boundary(left + right, at),
{
    let whole = left + right;
    valid_utf8_concat(left, right);
    if at == 0 || at == whole.len() {
        is_char_boundary_start_end_of_seq(whole);
    } else if at < left.len() {
        is_char_boundary_iff_not_is_continuation_byte(left, at);
        is_char_boundary_iff_not_is_continuation_byte(whole, at);
    } else {
        is_char_boundary_start_end_of_seq(right);
        is_char_boundary_iff_not_is_continuation_byte(right, 0);
        is_char_boundary_iff_not_is_continuation_byte(whole, at);
    }
}

/// Where two valid encodings are joined, every boundary of the second,
/// moved by the length of the first, is a boundary of the whole.
pub proof fn lemma_boundary_of_right(left: Seq<u8>, right: Seq<u8>, at: int)
    requires
        valid_utf8(left),
        valid_utf8(right),
        0 <= at <= right.len(),
        is_char_boundary(right, at),
    ensures
        valid_utf8(left + right),
        is_char_boundary(left + right, left.len() + at),
{
    let whole = left + right;
    valid_utf8_concat(left, right);
    if at == right.len() {
        is_char_boundary_start_end_of_seq(whole);
    } else if at == 0 {
        is_char_boundary_start_end_of_seq(left);
        lemma_boundary_of_left(left, right, left.len() as int);
    } else {
        is_char_boundary_iff_not_is_continuation_byte(right, at);
        is_char_boundary_iff_not_is_continuation_byte(whole, left.len() + at);
    }
}

/// The encoding of two texts joined is their encodings joined.
pub proof fn lemma_encode_concat(first: Seq<char>, second: Seq<char>)
    ensures
        encode_utf8(first + second) == encode_utf8(first) + encode_utf8(second),
{
    let left = encode_utf8(first);
    let right = encode_utf8(second);
    let whole = left + right;
    encode_utf8_valid_utf8(first);
    encode_utf8_valid_utf8(second);
    encode_utf8_decode_utf8(first);
    encode_utf8_decode_utf8(second);
    is_char_boundary_start_end_of_seq(left);
    lemma_boundary_of_left(left, right, left.len() as int);
    decode_utf8_split(whole, left.len() as int);
    assert(whole.subrange(0, left.len() as int) =~= left);
    assert(whole.subrange(left.len() as int, whole.len() as int) =~= right);
    decode_utf8_encode_utf8(whole);
}

} // verus!
