//! A shared, immutable string together with the table of its grapheme
//! boundaries, and cheap views of a range of its grapheme clusters.

use crate::graphemes::{
    boundary_table, grapheme_start_offsets, is_boundary_table, lemma_boundary_in_prefix,
    lemma_boundary_of_left, lemma_boundary_of_right, lemma_boundary_within, lemma_encode_concat,
    lemma_segments_cover, lemma_span_text_flatten, lemma_starts_give_table, pieces, segments,
    span_text,
};
use std::ops::Range;
use std::rc::Rc;
use vstd::prelude::*;
use vstd::string::*;
use vstd::utf8::*;

verus! {

/// A view of the grapheme clusters `span.start..span.end` of a shared
/// string. Views of one string share the text and the boundary table.
#[derive(Debug)]
pub struct RcSubstr {
    string: Rc<String>,
    span: Range<usize>,
    boundaries: Rc<Vec<usize>>,
}

impl View for RcSubstr {
    type V = Seq<Seq<char>>;

    /// The grapheme clusters in view, each as its characters.
    closed spec fn view(&self) -> Seq<Seq<char>> {
        pieces(
            encode_utf8(self.string@),
            self.boundaries@,
            self.span.start as int,
            self.span.end as int,
        )
    }
}

/// Whether a byte starts a character: it is no UTF-8 continuation byte.
pub open spec fn starts_character(byte: u8) -> bool {
    byte <= 127 || byte >= 192
}

/// The positions below `upto` of the bytes that start a character, in
/// increasing order.
pub open spec fn character_starts(bytes: Seq<u8>, upto: int) -> Seq<usize>
    decreases upto,
{
    if upto <= 0 {
        Seq::empty()
    } else if starts_character(bytes[upto - 1]) {
        character_starts(bytes, upto - 1).push((upto - 1) as usize)
    } else {
        character_starts(bytes, upto - 1)
    }
}

/// The byte offsets at which the characters of `content` start.
pub fn find_byte_indices_range_2(content: &Rc<String>) -> (boundaries: Vec<usize>)
    ensures
        boundaries@ == character_starts(encode_utf8(content@), encode_utf8(content@).len() as int),
{
    let bytes_to_look: &[u8] = content.as_str().as_bytes();
    let mut boundaries: Vec<usize> = Vec::new();
    let mut index: usize = 0;
    while index < bytes_to_look.len()
        invariant
            index <= bytes_to_look@.len(),
            boundaries@ == character_starts(bytes_to_look@, index as int),
        decreases bytes_to_look@.len() - index,
    {
        let byte: u8 = bytes_to_look[index];
        if byte <= 127 {
            boundaries.push(index);
        } else if byte >= 192 {
            boundaries.push(index);
        }
        index = index + 1;
    }
    boundaries
}

/// The boundary table of `content`: the byte offset at which each of its
/// grapheme clusters starts, closed by the length of the text in bytes.
pub fn find_grapheme_boundaries(content: &Rc<String>) -> (boundaries: Rc<Vec<usize>>)
    ensures
        boundaries@ == boundary_table(content@),
        is_boundary_table(encode_utf8(content@), boundaries@),
        segments(content@).flatten() == content@,
{
    let text: &str = content.as_str();
    let mut boundaries: Vec<usize> = grapheme_start_offsets(text);
    let byte_offset: usize = text.as_bytes().len();
    proof {
        lemma_segments_cover(content@);
    }
    boundaries.push(byte_offset);
    Rc::new(boundaries)
}

impl RcSubstr {
    /// The table cuts the text on character boundaries, and the span
    /// lies within the table.
    pub closed spec fn well_formed(&self) -> bool {
        &&& is_boundary_table(encode_utf8(self.string@), self.boundaries@)
        &&& self.span.start <= self.span.end < self.boundaries@.len()
    }

    /// The boundary table of the shared text.
    pub closed spec fn table(&self) -> Seq<usize> {
        self.boundaries@
    }

    /// The first grapheme cluster of the shared text that is in view.
    pub closed spec fn start(&self) -> int {
        self.span.start as int
    }

    /// The grapheme cluster of the shared text before which the view
    /// ends.
    pub closed spec fn end(&self) -> int {
        self.span.end as int
    }

    /// What the invariant says of a view: its table cuts the bytes of the
    /// shared text into pieces, its span lies within the table, and the
    /// grapheme clusters in view are the pieces of the span.
    pub proof fn lemma_view(&self)
        requires
            self.well_formed(),
        ensures
            is_boundary_table(encode_utf8(self.backing()), self.table()),
            0 <= self.start() <= self.end() < self.table().len(),
            self@ == pieces(encode_utf8(self.backing()), self.table(), self.start(), self.end()),
            self@.len() == self.end() - self.start(),
            self@.len() <= usize::MAX,
    {
    }

    /// The whole shared text that this view looks into.
    pub closed spec fn backing(&self) -> Seq<char> {
        self.string@
    }

    /// A view of all the grapheme clusters of `string`.
    pub fn new(string: Rc<String>) -> (sub: Self)
        ensures
            sub.well_formed(),
            sub@ == segments(string@),
            sub@.flatten() == string@,
            sub.backing() == string@,
            sub.table() == boundary_table(string@),
            sub.start() == 0,
            sub.end() == sub.table().len() - 1,
    {
        let boundaries = find_grapheme_boundaries(&string);
        let span = 0..boundaries.len() - 1;
        RcSubstr { string, span, boundaries }
    }

    /// The number of grapheme clusters in view.
    pub fn len(&self) -> (count: usize)
        requires
            self.well_formed(),
        ensures
            count == self@.len(),
    {
        self.span.end - self.span.start
    }

    /// A view of the clusters `span.start..span.end` of this view. It
    /// shares the text and the table; nothing is copied.
    pub fn substr(&self, span: Range<usize>) -> (sub: Self)
        requires
            self.well_formed(),
            span.start <= span.end <= self@.len(),
        ensures
            sub.well_formed(),
            sub@ == self@.subrange(span.start as int, span.end as int),
            sub.backing() == self.backing(),
            sub.table() == self.table(),
            sub.start() == self.start() + span.start,
            sub.end() == self.start() + span.end,
    {
        let sub = RcSubstr {
            string: Rc::clone(&self.string),
            span: (self.span.start + span.start)..(self.span.start + span.end),
            boundaries: Rc::clone(&self.boundaries),
        };
        assert(sub@ =~= self@.subrange(span.start as int, span.end as int));
        sub
    }

    /// The text between the starts of table entries `from` and `to`.
    fn slice(&self, from: usize, to: usize) -> (text: &str)
        requires
            self.well_formed(),
            from <= to < self.boundaries@.len(),
        ensures
            text@ == span_text(encode_utf8(self.string@), self.boundaries@, from as int, to as int),
    {
        let whole: &str = self.string.as_str();
        let low: usize = self.boundaries[from];
        let high: usize = self.boundaries[to];
        proof {
            let bytes = encode_utf8(self.string@);
            encode_utf8_valid_utf8(self.string@);
            assert(self.boundaries@[to as int] <= self.boundaries@[self.boundaries@.len() - 1]);
            assert(low <= high);
            lemma_boundary_in_prefix(bytes, low as int, high as int);
        }
        let (head, _) = whole.split_at(high);
        let (_, text) = head.split_at(low);
        proof {
            let bytes = encode_utf8(self.string@);
            assert(text.spec_bytes() =~= bytes.subrange(low as int, high as int));
            encode_utf8_decode_utf8(text@);
        }
        text
    }

    /// The text in view: its grapheme clusters laid end to end.
    pub fn as_str(&self) -> (text: &str)
        requires
            self.well_formed(),
        ensures
            text@ == self@.flatten(),
    {
        proof {
            encode_utf8_valid_utf8(self.string@);
            lemma_span_text_flatten(
                encode_utf8(self.string@),
                self.boundaries@,
                self.span.start as int,
                self.span.end as int,
            );
        }
        self.slice(self.span.start, self.span.end)
    }

    /// Grapheme cluster `index` of the view.
    pub fn grapheme(&self, index: usize) -> (cluster: &str)
        requires
            self.well_formed(),
            index < self@.len(),
        ensures
            cluster@ == self@[index as int],
    {
        self.slice(self.span.start + index, self.span.start + index + 1)
    }

    /// A view of the clusters of `self` followed by those of `other`,
    /// over a fresh text. The clusters are carried over as they are:
    /// the joined text is not segmented again.
    pub fn concat(&self, other: &RcSubstr) -> (joined: RcSubstr)
        requires
            self.well_formed(),
            other.well_formed(),
        ensures
            joined.well_formed(),
            joined@ == self@ + other@,
            joined.backing() == self@.flatten() + other@.flatten(),
            joined.start() == 0,
            joined.end() == joined.table().len() - 1,
    {
        let left: &str = self.slice(self.span.start, self.span.end);
        proof {
            encode_utf8_valid_utf8(self.string@);
            encode_utf8_valid_utf8(other.string@);
            lemma_span_text_flatten(
                encode_utf8(self.string@),
                self.boundaries@,
                self.span.start as int,
                self.span.end as int,
            );
            lemma_span_text_flatten(
                encode_utf8(other.string@),
                other.boundaries@,
                other.span.start as int,
                other.span.end as int,
            );
        }
        let right: &str = other.slice(other.span.start, other.span.end);
        let mut text: String = String::from_str(left);
        text.append(right);
        let total: usize = text.as_str().as_bytes().len();

        let left_base: usize = self.boundaries[self.span.start];
        let left_count: usize = self.span.end - self.span.start;
        let left_bytes: usize = self.boundaries[self.span.end] - left_base;
        let right_base: usize = other.boundaries[other.span.start];
        let right_count: usize = other.span.end - other.span.start;
        proof {
            encode_utf8_valid_utf8(self.string@);
            encode_utf8_valid_utf8(other.string@);
            lemma_joined_text(
                encode_utf8(self.string@),
                self.boundaries@,
                self.span.start as int,
                self.span.end as int,
                encode_utf8(other.string@),
                other.boundaries@,
                other.span.start as int,
                other.span.end as int,
            );
            lemma_encode_concat(left@, right@);
        }

        let mut table: Vec<usize> = Vec::new();
        table.push(0);
        let mut k: usize = 0;
        while k < left_count
            invariant
                self.well_formed(),
                left_count == self.span.end - self.span.start,
                left_base == self.boundaries@[self.span.start as int],
                k <= left_count,
                table@.len() == k + 1,
                forall|i: int|
                    0 <= i <= k ==> table@[i] == self.boundaries@[self.span.start + i] - left_base,
            decreases left_count - k,
        {
            k = k + 1;
            assert(self.boundaries@[self.span.start as int] <= self.boundaries@[self.span.start
                + k]);
            table.push(self.boundaries[self.span.start + k] - left_base);
        }
        let mut j: usize = 0;
        while j < right_count
            invariant
                self.well_formed(),
                other.well_formed(),
                left_count == self.span.end - self.span.start,
                right_count == other.span.end - other.span.start,
                right_base == other.boundaries@[other.span.start as int],
                left_bytes + (other.boundaries@[other.span.end as int] - right_base) == total,
                j <= right_count,
                table@.len() == left_count + j + 1,
                forall|i: int|
                    0 <= i <= left_count ==> table@[i] == self.boundaries@[self.span.start + i]
                        - left_base,
                forall|i: int|
                    left_count < i <= left_count + j ==> table@[i] == left_bytes + (
                    other.boundaries@[other.span.start + (i - left_count)] - right_base),
            decreases right_count - j,
        {
            j = j + 1;
            assert(other.boundaries@[other.span.start as int] <= other.boundaries@[
                other.span.start + j]);
            assert(other.boundaries@[other.span.start + j] <= other.boundaries@[
                other.span.end as int]);
            table.push(left_bytes + (other.boundaries[other.span.start + j] - right_base));
        }
        proof {
            lemma_joined_table(
                encode_utf8(self.string@),
                self.boundaries@,
                self.span.start as int,
                self.span.end as int,
                encode_utf8(other.string@),
                other.boundaries@,
                other.span.start as int,
                other.span.end as int,
                table@,
            );
            lemma_joined_pieces(
                encode_utf8(self.string@),
                self.boundaries@,
                self.span.start as int,
                self.span.end as int,
                encode_utf8(other.string@),
                other.boundaries@,
                other.span.start as int,
                other.span.end as int,
                table@,
            );
        }
        let count: usize = table.len() - 1;
        RcSubstr { string: Rc::new(text), span: 0..count, boundaries: Rc::new(table) }
    }
}

/// The bytes of a span of one table followed by the bytes of a span of
/// another.
pub open spec fn joined_bytes(
    bytes_a: Seq<u8>,
    ta: Seq<usize>,
    sa: int,
    ea: int,
    bytes_b: Seq<u8>,
    tb: Seq<usize>,
    sb: int,
    eb: int,
) -> Seq<u8> {
    bytes_a.subrange(ta[sa] as int, ta[ea] as int) + bytes_b.subrange(
        tb[sb] as int,
        tb[eb] as int,
    )
}

/// Whether `t` lists the boundaries of span `sa..ea` of `ta`, moved to
/// start at 0, followed by those of span `sb..eb` of `tb`, moved to
/// start where the first span ends.
pub open spec fn is_joined_table(
    ta: Seq<usize>,
    sa: int,
    ea: int,
    tb: Seq<usize>,
    sb: int,
    eb: int,
    t: Seq<usize>,
) -> bool {
    &&& t.len() == (ea - sa) + (eb - sb) + 1
    &&& forall|i: int| 0 <= i <= ea - sa ==> #[trigger] t[i] == ta[sa + i] - ta[sa]
    &&& forall|i: int|
        ea - sa < i < t.len() ==> #[trigger] t[i] == (ta[ea] - ta[sa]) + (tb[sb + (i - (ea - sa))]
            - tb[sb])
}

/// The two spans hold valid UTF-8, and the text of the joined bytes is
/// the two texts joined.
proof fn lemma_joined_text(
    bytes_a: Seq<u8>,
    ta: Seq<usize>,
    sa: int,
    ea: int,
    bytes_b: Seq<u8>,
    tb: Seq<usize>,
    sb: int,
    eb: int,
)
    requires
        valid_utf8(bytes_a),
        valid_utf8(bytes_b),
        is_boundary_table(bytes_a, ta),
        is_boundary_table(bytes_b, tb),
        0 <= sa <= ea < ta.len(),
        0 <= sb <= eb < tb.len(),
    ensures
        ta[sa] <= ta[ea] <= bytes_a.len(),
        tb[sb] <= tb[eb] <= bytes_b.len(),
        valid_utf8(bytes_a.subrange(ta[sa] as int, ta[ea] as int)),
        valid_utf8(bytes_b.subrange(tb[sb] as int, tb[eb] as int)),
        encode_utf8(span_text(bytes_a, ta, sa, ea)) + encode_utf8(span_text(bytes_b, tb, sb, eb))
            == joined_bytes(bytes_a, ta, sa, ea, bytes_b, tb, sb, eb),
        joined_bytes(bytes_a, ta, sa, ea, bytes_b, tb, sb, eb).len() == (ta[ea] - ta[sa]) + (tb[eb]
            - tb[sb]),
{
    assert(ta[ea] <= ta[ta.len() - 1]);
    assert(tb[eb] <= tb[tb.len() - 1]);
    lemma_boundary_within(bytes_a, ta[sa] as int, ta[sa] as int, ta[ea] as int);
    lemma_boundary_within(bytes_b, tb[sb] as int, tb[sb] as int, tb[eb] as int);
    decode_utf8_encode_utf8(bytes_a.subrange(ta[sa] as int, ta[ea] as int));
    decode_utf8_encode_utf8(bytes_b.subrange(tb[sb] as int, tb[eb] as int));
}

/// A joined table is a boundary table of the joined bytes.
proof fn lemma_joined_table(
    bytes_a: Seq<u8>,
    ta: Seq<usize>,
    sa: int,
    ea: int,
    bytes_b: Seq<u8>,
    tb: Seq<usize>,
    sb: int,
    eb: int,
    t: Seq<usize>,
)
    requires
        valid_utf8(bytes_a),
        valid_utf8(bytes_b),
        is_boundary_table(bytes_a, ta),
        is_boundary_table(bytes_b, tb),
        0 <= sa <= ea < ta.len(),
        0 <= sb <= eb < tb.len(),
        is_joined_table(ta, sa, ea, tb, sb, eb, t),
    ensures
        is_boundary_table(joined_bytes(bytes_a, ta, sa, ea, bytes_b, tb, sb, eb), t),
{
    let part_a = bytes_a.subrange(ta[sa] as int, ta[ea] as int);
    let part_b = bytes_b.subrange(tb[sb] as int, tb[eb] as int);
    let whole = part_a + part_b;
    let n = ea - sa;
    lemma_joined_text(bytes_a, ta, sa, ea, bytes_b, tb, sb, eb);
    assert forall|i: int| 0 <= i < t.len() implies is_char_boundary(
        whole,
        #[trigger] t[i] as int,
    ) by {
        if i <= n {
            assert(ta[sa] <= ta[sa + i] <= ta[ea]);
            lemma_boundary_within(bytes_a, ta[sa] as int, ta[sa + i] as int, ta[ea] as int);
            lemma_boundary_of_left(part_a, part_b, t[i] as int);
        } else {
            let m = i - n;
            assert(tb[sb] <= tb[sb + m] <= tb[eb]);
            lemma_boundary_within(bytes_b, tb[sb] as int, tb[sb + m] as int, tb[eb] as int);
            lemma_boundary_of_right(part_a, part_b, tb[sb + m] - tb[sb]);
        }
    }
    assert forall|i: int, m: int| 0 <= i < m < t.len() implies t[i] < t[m] by {
        if m <= n {
            assert(ta[sa + i] < ta[sa + m]);
        } else if i <= n {
            assert(ta[sa + i] <= ta[ea]);
            assert(tb[sb] < tb[sb + (m - n)]);
        } else {
            assert(tb[sb + (i - n)] < tb[sb + (m - n)]);
        }
    }
    if eb == sb {
        assert(t[t.len() - 1] == ta[sa + n] - ta[sa]);
    }
}

/// The pieces of a joined table are the pieces of the first span
/// followed by those of the second.
proof fn lemma_joined_pieces(
    bytes_a: Seq<u8>,
    ta: Seq<usize>,
    sa: int,
    ea: int,
    bytes_b: Seq<u8>,
    tb: Seq<usize>,
    sb: int,
    eb: int,
    t: Seq<usize>,
)
    requires
        valid_utf8(bytes_a),
        valid_utf8(bytes_b),
        is_boundary_table(bytes_a, ta),
        is_boundary_table(bytes_b, tb),
        0 <= sa <= ea < ta.len(),
        0 <= sb <= eb < tb.len(),
        is_joined_table(ta, sa, ea, tb, sb, eb, t),
    ensures
        pieces(joined_bytes(bytes_a, ta, sa, ea, bytes_b, tb, sb, eb), t, 0, t.len() - 1) == pieces(
            bytes_a,
            ta,
            sa,
            ea,
        ) + pieces(bytes_b, tb, sb, eb),
{
    let part_a = bytes_a.subrange(ta[sa] as int, ta[ea] as int);
    let part_b = bytes_b.subrange(tb[sb] as int, tb[eb] as int);
    let whole = part_a + part_b;
    let n = ea - sa;
    let joined = pieces(whole, t, 0, t.len() - 1);
    let both = pieces(bytes_a, ta, sa, ea) + pieces(bytes_b, tb, sb, eb);
    lemma_joined_text(bytes_a, ta, sa, ea, bytes_b, tb, sb, eb);
    assert(joined.len() == both.len());
    assert forall|i: int| 0 <= i < joined.len() implies joined[i] == both[i] by {
        if i < n {
            assert(ta[sa] <= ta[sa + i] < ta[sa + i + 1] <= ta[ea]);
            assert(t[i] == ta[sa + i] - ta[sa]);
            assert(t[i + 1] == ta[sa + (i + 1)] - ta[sa]);
            assert(whole.subrange(t[i] as int, t[i + 1] as int) =~= bytes_a.subrange(
                ta[sa + i] as int,
                ta[sa + i + 1] as int,
            ));
        } else {
            let m = i - n;
            assert(tb[sb] <= tb[sb + m] < tb[sb + m + 1] <= tb[eb]);
            assert(t[i] == (ta[ea] - ta[sa]) + (tb[sb + m] - tb[sb])) by {
                if m == 0 {
                    assert(t[n] == ta[sa + n] - ta[sa]);
                }
            }
            assert(t[i + 1] == (ta[ea] - ta[sa]) + (tb[sb + (i + 1 - n)] - tb[sb]));
            assert(whole.subrange(t[i] as int, t[i + 1] as int) =~= bytes_b.subrange(
                tb[sb + m] as int,
                tb[sb + m + 1] as int,
            ));
        }
    }
    assert(joined =~= both);
}

} // verus!
