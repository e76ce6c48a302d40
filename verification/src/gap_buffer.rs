//! A gap buffer of line widths: one count per logical line, with a run of
//! unused slots that follows the place of the last edit.

use crate::lines::{line_widths, measure_lines};
use vstd::prelude::*;

verus! {

/// The value that unused slots hold.
pub const SENTINEL: usize = 999;

/// The sum of a list of widths.
pub open spec fn total_width(widths: Seq<usize>) -> nat
    decreases widths.len(),
{
    if widths.len() == 0 {
        0
    } else {
        total_width(widths.drop_last()) + widths.last() as nat
    }
}

/// The row and column at which position `remaining` falls when the rows
/// from `row` on are laid end to end with one line break between them.
/// Position `w` of a row of width `w` is the place before its line break.
/// A position past the last row gives `(0, 0)`.
pub open spec fn locate(widths: Seq<usize>, row: int, remaining: int) -> (int, int)
    decreases widths.len() - row,
{
    if row < 0 || row >= widths.len() {
        (0, 0)
    } else if remaining <= widths[row] {
        (row, remaining)
    } else {
        locate(widths, row + 1, remaining - widths[row] - 1)
    }
}

/// The widths after `count` is added to the width of line `line`.
/// Nothing changes where there is no such line, or where the sum of the
/// widths would no longer fit a `usize`.
pub open spec fn widths_increased(widths: Seq<usize>, line: int, count: int) -> Seq<usize> {
    if 0 <= line < widths.len() && total_width(widths) + count <= usize::MAX {
        widths.update(line, (widths[line] + count) as usize)
    } else {
        widths
    }
}

/// The widths after `count` is taken off the width of line `line`,
/// stopping at 0. Nothing changes where there is no such line.
pub open spec fn widths_decreased(widths: Seq<usize>, line: int, count: int) -> Seq<usize> {
    if 0 <= line < widths.len() {
        widths.update(
            line,
            if widths[line] >= count {
                (widths[line] - count) as usize
            } else {
                0
            },
        )
    } else {
        widths
    }
}

/// The widths after a line of width `count` is put in before line `line`.
/// Nothing changes where `line` is above the number of lines, or where
/// the sum of the widths would no longer fit a `usize`.
pub open spec fn widths_added(widths: Seq<usize>, line: int, count: usize) -> Seq<usize> {
    if 0 <= line <= widths.len() && total_width(widths) + count <= usize::MAX {
        widths.insert(line, count)
    } else {
        widths
    }
}

/// The widths after line `line` is taken out. Nothing changes where
/// there is no such line.
pub open spec fn widths_removed(widths: Seq<usize>, line: int) -> Seq<usize> {
    if 0 <= line < widths.len() {
        widths.remove(line)
    } else {
        widths
    }
}

/// The sum of two lists joined is the sum of their sums.
pub proof fn lemma_total_width_concat(first: Seq<usize>, second: Seq<usize>)
    ensures
        total_width(first + second) == total_width(first) + total_width(second),
    decreases second.len(),
{
    if second.len() == 0 {
        assert(first + second =~= first);
    } else {
        assert((first + second).drop_last() =~= first + second.drop_last());
        lemma_total_width_concat(first, second.drop_last());
    }
}

/// The sum of a list of one width is that width.
pub proof fn lemma_total_width_single(width: usize)
    ensures
        total_width(seq![width]) == width,
{
    reveal_with_fuel(total_width, 2);
    assert(seq![width].drop_last() =~= Seq::<usize>::empty());
}

/// Changing one width changes the sum by the difference.
pub proof fn lemma_total_width_update(widths: Seq<usize>, at: int, width: usize)
    requires
        0 <= at < widths.len(),
    ensures
        total_width(widths.update(at, width)) == total_width(widths) - widths[at] + width,
{
    let before = widths.subrange(0, at);
    let after = widths.subrange(at + 1, widths.len() as int);
    assert(widths =~= before + seq![widths[at]] + after);
    assert(widths.update(at, width) =~= before + seq![width] + after);
    lemma_total_width_concat(before + seq![widths[at]], after);
    lemma_total_width_concat(before, seq![widths[at]]);
    lemma_total_width_concat(before + seq![width], after);
    lemma_total_width_concat(before, seq![width]);
    lemma_total_width_single(widths[at]);
    lemma_total_width_single(width);
}

/// Putting in a width adds it to the sum.
pub proof fn lemma_total_width_insert(widths: Seq<usize>, at: int, width: usize)
    requires
        0 <= at <= widths.len(),
    ensures
        total_width(widths.insert(at, width)) == total_width(widths) + width,
{
    let before = widths.subrange(0, at);
    let after = widths.subrange(at, widths.len() as int);
    assert(widths =~= before + after);
    assert(widths.insert(at, width) =~= before + seq![width] + after);
    lemma_total_width_concat(before, after);
    lemma_total_width_concat(before + seq![width], after);
    lemma_total_width_concat(before, seq![width]);
    lemma_total_width_single(width);
}

/// Taking out a width takes it off the sum.
pub proof fn lemma_total_width_remove(widths: Seq<usize>, at: int)
    requires
        0 <= at < widths.len(),
    ensures
        total_width(widths.remove(at)) == total_width(widths) - widths[at],
{
    let before = widths.subrange(0, at);
    let after = widths.subrange(at + 1, widths.len() as int);
    assert(widths =~= before + seq![widths[at]] + after);
    assert(widths.remove(at) =~= before + after);
    lemma_total_width_concat(before + seq![widths[at]], after);
    lemma_total_width_concat(before, seq![widths[at]]);
    lemma_total_width_concat(before, after);
    lemma_total_width_single(widths[at]);
}

/// No width is above the sum of the widths.
pub proof fn lemma_total_width_bound(widths: Seq<usize>, line: int)
    requires
        0 <= line < widths.len(),
    ensures
        widths[line] <= total_width(widths),
{
    lemma_total_width_update(widths, line, 0);
}

/// The sum of the first `upto` widths grows by the next width, and never
/// exceeds the sum of all.
pub proof fn lemma_total_width_prefix(widths: Seq<usize>, upto: int)
    requires
        0 <= upto <= widths.len(),
    ensures
        total_width(widths.subrange(0, upto)) <= total_width(widths),
        upto < widths.len() ==> total_width(widths.subrange(0, upto + 1)) == total_width(
            widths.subrange(0, upto),
        ) + widths[upto],
{
    let head = widths.subrange(0, upto);
    let tail = widths.subrange(upto, widths.len() as int);
    assert(widths =~= head + tail);
    lemma_total_width_concat(head, tail);
    if upto < widths.len() {
        assert(widths.subrange(0, upto + 1).drop_last() =~= head);
    }
}

/// The sum of the widths follows the edits: a line put in adds its width,
/// a line taken out takes its width off, and a width that grows or
/// shrinks changes the sum by as much. An edit that changes nothing
/// leaves the sum as it is.
pub proof fn lemma_total_width_follows(widths: Seq<usize>, line: int, count: usize)
    requires
        total_width(widths) <= usize::MAX,
    ensures
        total_width(widths_added(widths, line, count)) == if 0 <= line <= widths.len()
            && total_width(widths) + count <= usize::MAX {
            total_width(widths) + count
        } else {
            total_width(widths) as int
        },
        total_width(widths_removed(widths, line)) == if 0 <= line < widths.len() {
            total_width(widths) - widths[line]
        } else {
            total_width(widths) as int
        },
        total_width(widths_increased(widths, line, count as int)) == if 0 <= line < widths.len()
            && total_width(widths) + count <= usize::MAX {
            total_width(widths) + count
        } else {
            total_width(widths) as int
        },
        total_width(widths_decreased(widths, line, count as int)) == if 0 <= line < widths.len() {
            if widths[line] >= count {
                total_width(widths) - count
            } else {
                total_width(widths) - widths[line]
            }
        } else {
            total_width(widths) as int
        },
{
    if 0 <= line <= widths.len() {
        lemma_total_width_insert(widths, line, count);
    }
    if 0 <= line < widths.len() {
        lemma_total_width_remove(widths, line);
        lemma_total_width_bound(widths, line);
        lemma_total_width_update(widths, line, (widths[line] + count) as usize);
        lemma_total_width_update(widths, line, (widths[line] - count) as usize);
        lemma_total_width_update(widths, line, 0);
    }
}

/// The room that the rows from `row` on take when they are laid end to
/// end with one line break between them.
pub open spec fn span_from(widths: Seq<usize>, row: int) -> int {
    total_width(widths.subrange(row, widths.len() as int)) + (widths.len() - row - 1)
}

/// A position within the rows from `row` on falls into one of them, at a
/// column within its width or at its end, and the rows before it with
/// their line breaks and the column add up to the position. A position
/// past them gives `(0, 0)`.
pub proof fn lemma_locate(widths: Seq<usize>, row: int, remaining: int)
    requires
        0 <= row < widths.len(),
        0 <= remaining,
    ensures
        remaining <= span_from(widths, row) ==> ({
            let place = locate(widths, row, remaining);
            &&& row <= place.0 < widths.len()
            &&& 0 <= place.1 <= widths[place.0]
            &&& total_width(widths.subrange(row, place.0)) + (place.0 - row) + place.1
                == remaining
        }),
        remaining > span_from(widths, row) ==> locate(widths, row, remaining) == (0int, 0int),
    decreases widths.len() - row,
{
    let rest = widths.subrange(row + 1, widths.len() as int);
    assert(widths.subrange(row, widths.len() as int) =~= seq![widths[row]] + rest);
    lemma_total_width_concat(seq![widths[row]], rest);
    lemma_total_width_single(widths[row]);
    assert(widths.subrange(row, row) =~= Seq::<usize>::empty());
    if remaining > widths[row] {
        if row + 1 < widths.len() {
            let left = remaining - widths[row] - 1;
            lemma_locate(widths, row + 1, left);
            if remaining <= span_from(widths, row) {
                let place = locate(widths, row + 1, left);
                assert(widths.subrange(row, place.0) =~= seq![widths[row]] + widths.subrange(
                    row + 1,
                    place.0,
                ));
                lemma_total_width_concat(seq![widths[row]], widths.subrange(row + 1, place.0));
            }
        } else {
            assert(rest =~= Seq::<usize>::empty());
        }
    }
}

/// The number of lines that stand before the gap when a buffer is laid
/// out over `count` lines: the first half, or the one line there is.
pub open spec fn initial_split(count: nat) -> nat {
    if count == 1 {
        1
    } else {
        count / 2
    }
}

/// The number of unused slots that a buffer over `count` lines starts
/// with: one and a half times the lines, rounded up, and a single slot
/// where there are no lines or where that many slots could not be held.
pub open spec fn initial_gap(count: nat) -> nat {
    if count == 0 || count > usize::MAX / 4 {
        1
    } else {
        (2 * count - count / 2) as nat
    }
}

/// Lays the widths of the lines out as a gap buffer: the widths of the
/// first half of the lines, the gap full of sentinels, and the widths of
/// the rest. Returns the slots with the first and the last slot of the
/// gap.
pub fn layout_line_widths(widths: Vec<usize>) -> (layout: (Vec<usize>, usize, usize))
    ensures
        layout.0@ == widths@.subrange(0, initial_split(widths@.len()) as int) + Seq::new(
            initial_gap(widths@.len()),
            |slot: int| SENTINEL,
        ) + widths@.subrange(initial_split(widths@.len()) as int, widths@.len() as int),
        layout.1 == initial_split(widths@.len()),
        layout.2 == initial_split(widths@.len()) + initial_gap(widths@.len()) - 1,
{
    let lines_counts: usize = widths.len();
    let split: usize = if lines_counts == 1 {
        1
    } else {
        lines_counts / 2
    };
    let gap: usize = if lines_counts == 0 || lines_counts > usize::MAX / 4 {
        1
    } else {
        (lines_counts * 2) - (lines_counts / 2)
    };
    let mut lines_widths: Vec<usize> = Vec::new();
    let mut row: usize = 0;
    while row < split
        invariant
            row <= split <= widths@.len(),
            lines_widths@ == widths@.subrange(0, row as int),
        decreases split - row,
    {
        lines_widths.push(widths[row]);
        row = row + 1;
        assert(lines_widths@ =~= widths@.subrange(0, row as int));
    }
    let mut slot: usize = 0;
    while slot < gap
        invariant
            slot <= gap,
            split <= widths@.len(),
            lines_widths@ == widths@.subrange(0, split as int) + Seq::new(
                slot as nat,
                |slot: int| SENTINEL,
            ),
        decreases gap - slot,
    {
        lines_widths.push(SENTINEL);
        slot = slot + 1;
        assert(lines_widths@ =~= widths@.subrange(0, split as int) + Seq::new(
            slot as nat,
            |slot: int| SENTINEL,
        ));
    }
    let mut row: usize = split;
    while row < lines_counts
        invariant
            split <= row <= lines_counts,
            lines_counts == widths@.len(),
            lines_widths@ == widths@.subrange(0, split as int) + Seq::new(
                gap as nat,
                |slot: int| SENTINEL,
            ) + widths@.subrange(split as int, row as int),
        decreases lines_counts - row,
    {
        lines_widths.push(widths[row]);
        row = row + 1;
        assert(lines_widths@ =~= widths@.subrange(0, split as int) + Seq::new(
            gap as nat,
            |slot: int| SENTINEL,
        ) + widths@.subrange(split as int, row as int));
    }
    (lines_widths, split, split + gap - 1)
}

/// The widths of the lines of `content`, in grapheme clusters, laid out
/// as a gap buffer by [`layout_line_widths`].
pub fn get_line_widths(content: &str) -> (layout: (Vec<usize>, usize, usize))
    ensures
        layout.0@ == line_widths(content@).subrange(
            0,
            initial_split(line_widths(content@).len()) as int,
        ) + Seq::new(initial_gap(line_widths(content@).len()), |slot: int| SENTINEL)
            + line_widths(content@).subrange(
            initial_split(line_widths(content@).len()) as int,
            line_widths(content@).len() as int,
        ),
        layout.1 == initial_split(line_widths(content@).len()),
        layout.2 == initial_split(line_widths(content@).len()) + initial_gap(
            line_widths(content@).len(),
        ) - 1,
{
    layout_line_widths(measure_lines(content))
}

/// A gap buffer over the widths of the logical lines of a document.
///
/// The slots before `starting_of_gap` and after `ending_of_gap` hold the
/// widths, in the order of the lines. The slots from `starting_of_gap` to
/// `ending_of_gap` are unused and hold [`SENTINEL`]. The gap is used up
/// when `ending_of_gap` is one below `starting_of_gap`.
#[derive(Debug)]
pub struct GapBuffer {
    buffer: Vec<usize>,
    starting_of_gap: usize,
    ending_of_gap: usize,
    total: usize,
}

impl View for GapBuffer {
    type V = Seq<usize>;

    /// The widths of the lines, in order.
    closed spec fn view(&self) -> Seq<usize> {
        self.buffer@.subrange(0, self.starting_of_gap as int) + self.buffer@.subrange(
            self.ending_of_gap + 1,
            self.buffer@.len() as int,
        )
    }
}

impl GapBuffer {
    /// The slots of the buffer, used and unused.
    pub closed spec fn spec_buffer(&self) -> Seq<usize> {
        self.buffer@
    }

    /// The first slot of the gap.
    pub closed spec fn spec_starting_of_gap(&self) -> int {
        self.starting_of_gap as int
    }

    /// The last slot of the gap.
    pub closed spec fn spec_ending_of_gap(&self) -> int {
        self.ending_of_gap as int
    }

    /// The number of unused slots.
    pub open spec fn gap_len(&self) -> int {
        self.spec_ending_of_gap() + 1 - self.spec_starting_of_gap()
    }

    /// The invariant of the buffer: the gap lies within the slots, every
    /// slot of the gap holds the sentinel, and the sum of the widths is
    /// kept and fits a `usize`.
    pub closed spec fn well_formed(&self) -> bool {
        &&& self.buffer@.len() <= usize::MAX
        &&& self.ending_of_gap < self.buffer@.len()
        &&& self.starting_of_gap <= self.ending_of_gap + 1
        &&& forall|slot: int|
            self.starting_of_gap <= slot <= self.ending_of_gap ==> self.buffer@[slot] == SENTINEL
        &&& self.total == total_width(self@)
    }

    /// The number of unused slots once the gap is made ready for an edit:
    /// as many as there are, or as many as the buffer has slots where the
    /// gap is used up and the buffer doubles.
    pub open spec fn ready_gap_len(&self) -> int {
        if self.gap_len() == 0 {
            self.spec_buffer().len() as int
        } else {
            self.gap_len()
        }
    }

    /// The first slot of the gap once the gap is made ready for an edit:
    /// where it is, or after the last line where the gap is used up and
    /// the buffer doubles.
    pub open spec fn ready_starting_of_gap(&self) -> int {
        if self.gap_len() == 0 {
            self@.len() as int
        } else {
            self.spec_starting_of_gap()
        }
    }

    /// Whether `self` is `before` with its gap made ready for an edit: the
    /// same buffer where the gap has a slot, and where it has none, the
    /// buffer doubled, with the new slots as the gap.
    pub open spec fn made_ready(&self, before: &Self) -> bool {
        &&& self@ == before@
        &&& before.gap_len() >= 1 ==> *self == *before
        &&& self.spec_starting_of_gap() == before.ready_starting_of_gap()
        &&& self.gap_len() == before.ready_gap_len()
    }

    /// The lines are the used slots, in order.
    proof fn lemma_view(&self)
        requires
            self.well_formed(),
        ensures
            self.buffer@.len() <= usize::MAX,
            self@.len() == self.buffer@.len() - self.gap_len(),
            self.starting_of_gap <= self@.len(),
            self.ending_of_gap < self.buffer@.len(),
            self.gap_len() >= 0,
            forall|line: int|
                0 <= line < self.starting_of_gap ==> #[trigger] self@[line] == self.buffer@[line],
            forall|line: int|
                self.starting_of_gap <= line < self@.len() ==> #[trigger] self@[line]
                    == self.buffer@[line + self.gap_len()],
    {
    }

    /// A buffer over the widths of the lines of `content`, with the gap
    /// after the first half of the lines.
    pub fn new(content: &str) -> (made: Self)
        ensures
            made.well_formed(),
            made@ == line_widths(content@),
            made.spec_starting_of_gap() == initial_split(line_widths(content@).len()),
            made.gap_len() == initial_gap(line_widths(content@).len()),
    {
        let widths: Vec<usize> = measure_lines(content);
        let ghost lines = widths@;
        let mut total: usize = 0;
        let mut row: usize = 0;
        while row < widths.len()
            invariant
                row <= widths@.len(),
                total == total_width(widths@.subrange(0, row as int)),
                total_width(widths@) <= usize::MAX,
            decreases widths@.len() - row,
        {
            proof {
                lemma_total_width_prefix(widths@, row as int);
                lemma_total_width_prefix(widths@, row + 1);
            }
            total = total + widths[row];
            row = row + 1;
        }
        assert(widths@.subrange(0, row as int) =~= widths@);
        let (buffer, starting_of_gap, ending_of_gap) = layout_line_widths(widths);
        assert(buffer@.len() == buffer.len());
        let made = GapBuffer { buffer, starting_of_gap, ending_of_gap, total };
        assert(made@ =~= lines);
        made
    }

    /// A buffer over the widths of the lines of `content`, with the gap
    /// after the last line.
    pub fn new_2(content: String) -> (made: Self)
        ensures
            made.well_formed(),
            made@ == line_widths(content@),
            made.spec_starting_of_gap() == line_widths(content@).len(),
            made.gap_len() == 1,
    {
        let widths: Vec<usize> = measure_lines(content.as_str());
        GapBuffer::from_widths(widths).unwrap()
    }

    /// A buffer over the given widths, with the gap after the last line.
    /// There is none where the sum of the widths does not fit a `usize`.
    pub fn from_widths(widths: Vec<usize>) -> (made: Option<GapBuffer>)
        ensures
            total_width(widths@) <= usize::MAX ==> (made matches Some(buffer)
                && buffer.well_formed() && buffer@ == widths@ && buffer.spec_starting_of_gap()
                == widths@.len() && buffer.gap_len() == 1),
            total_width(widths@) > usize::MAX ==> made is None,
    {
        let mut total: usize = 0;
        let mut row: usize = 0;
        while row < widths.len()
            invariant
                row <= widths@.len(),
                total == total_width(widths@.subrange(0, row as int)),
            decreases widths@.len() - row,
        {
            proof {
                lemma_total_width_prefix(widths@, row as int);
                lemma_total_width_prefix(widths@, row + 1);
            }
            match total.checked_add(widths[row]) {
                Some(sum) => {
                    total = sum;
                },
                None => {
                    return None;
                },
            }
            row = row + 1;
        }
        assert(widths@.subrange(0, row as int) =~= widths@);
        let mut buffer: Vec<usize> = widths;
        let starting_of_gap: usize = buffer.len();
        let ghost lines = buffer@;
        buffer.push(SENTINEL);
        let slots: usize = buffer.len();
        let made = GapBuffer { buffer, starting_of_gap, ending_of_gap: slots - 1, total };
        assert(made@ =~= lines);
        Some(made)
    }

    /// Doubles the buffer once the gap is used up: the new slots are the
    /// new gap.
    fn resize(&mut self)
        requires
            old(self).well_formed(),
            old(self).gap_len() == 0,
        ensures
            final(self).well_formed(),
            final(self).made_ready(old(self)),
            final(self).gap_len() >= 1,
    {
        let previous_len: usize = self.buffer.len();
        let ghost lines = self@;
        assert(lines =~= self.buffer@);
        let mut added: usize = 0;
        while added < previous_len
            invariant
                added <= previous_len,
                self.buffer@.len() == previous_len + added,
                self.buffer@.subrange(0, previous_len as int) == lines,
                forall|slot: int|
                    previous_len <= slot < previous_len + added ==> self.buffer@[slot]
                        == SENTINEL,
                self.total == old(self).total,
            decreases previous_len - added,
        {
            self.buffer.push(SENTINEL);
            added = added + 1;
            assert(self.buffer@.subrange(0, previous_len as int) =~= lines);
        }
        self.starting_of_gap = previous_len;
        self.ending_of_gap = self.buffer.len() - 1;
        assert(self@ =~= lines);
    }

    /// Makes sure that the gap has a slot.
    fn ensure_gap(&mut self)
        requires
            old(self).well_formed(),
        ensures
            final(self).well_formed(),
            final(self).made_ready(old(self)),
            final(self).gap_len() >= 1,
    {
        proof {
            self.lemma_view();
        }
        if self.ending_of_gap < self.starting_of_gap {
            self.resize();
        }
    }

    /// Moves the gap so that it starts at line `line`: the widths between
    /// the gap and `line` are carried across it, one by one.
    fn move_gap_to(&mut self, line: usize)
        requires
            old(self).well_formed(),
            old(self).gap_len() >= 1,
            line <= old(self)@.len(),
        ensures
            final(self).well_formed(),
            final(self)@ == old(self)@,
            final(self).gap_len() == old(self).gap_len(),
            final(self).spec_starting_of_gap() == line,
            final(self).spec_buffer().len() == old(self).spec_buffer().len(),
    {
        let ghost lines = self@;
        while self.starting_of_gap < line
            invariant
                self.well_formed(),
                self@ == lines,
                self.gap_len() == old(self).gap_len(),
                self.gap_len() >= 1,
                line <= lines.len(),
                self.buffer@.len() == old(self).buffer@.len(),
            decreases line - self.starting_of_gap,
        {
            proof {
                self.lemma_view();
            }
            let src_index: usize = self.ending_of_gap + 1;
            let dest_index: usize = self.starting_of_gap;
            let item: usize = self.buffer[src_index];
            self.buffer.set(dest_index, item);
            self.buffer.set(src_index, SENTINEL);
            self.starting_of_gap = self.starting_of_gap + 1;
            self.ending_of_gap = self.ending_of_gap + 1;
            assert(self@ =~= lines);
        }
        while self.starting_of_gap > line
            invariant
                self.well_formed(),
                self@ == lines,
                self.gap_len() == old(self).gap_len(),
                self.gap_len() >= 1,
                line <= lines.len(),
                self.starting_of_gap >= line,
                self.buffer@.len() == old(self).buffer@.len(),
            decreases self.starting_of_gap - line,
        {
            proof {
                self.lemma_view();
            }
            let src_index: usize = self.starting_of_gap - 1;
            let dest_index: usize = self.ending_of_gap;
            let item: usize = self.buffer[src_index];
            self.buffer.set(dest_index, item);
            self.buffer.set(src_index, SENTINEL);
            self.starting_of_gap = self.starting_of_gap - 1;
            self.ending_of_gap = self.ending_of_gap - 1;
            assert(self@ =~= lines);
        }
    }

    /// The slot that holds the width of line `line`.
    fn slot_of(&self, line: usize) -> (slot: usize)
        requires
            self.well_formed(),
            line < self@.len(),
        ensures
            slot < self.spec_buffer().len(),
            self.spec_buffer()[slot as int] == self@[line as int],
            line < self.spec_starting_of_gap() ==> slot == line,
            line >= self.spec_starting_of_gap() ==> slot == line + self.gap_len(),
    {
        proof {
            self.lemma_view();
        }
        if line < self.starting_of_gap {
            line
        } else {
            let offset: usize = line - self.starting_of_gap + 1;
            self.ending_of_gap + offset
        }
    }

    /// The number of lines.
    pub fn length(&mut self) -> (count: usize)
        requires
            old(self).well_formed(),
        ensures
            final(self).well_formed(),
            final(self).made_ready(old(self)),
            count == old(self)@.len(),
    {
        self.ensure_gap();
        self.buffer.len() - ((self.ending_of_gap - self.starting_of_gap) + 1)
    }

    /// The sum of the widths of all lines.
    pub fn total(&self) -> (sum: usize)
        requires
            self.well_formed(),
        ensures
            sum == total_width(self@),
    {
        self.total
    }

    /// The width of line `line`, or nothing where there is no such line.
    pub fn index(&mut self, line: usize) -> (width: Option<usize>)
        requires
            old(self).well_formed(),
        ensures
            final(self).well_formed(),
            final(self).made_ready(old(self)),
            line < old(self)@.len() ==> width == Some(old(self)@[line as int]),
            line >= old(self)@.len() ==> width is None,
    {
        self.ensure_gap();
        if line >= self.buffer.len() - ((self.ending_of_gap - self.starting_of_gap) + 1) {
            return None;
        }
        let slot: usize = self.slot_of(line);
        Some(self.buffer[slot])
    }

    /// The row and column at which position `rope_index` of the document
    /// falls, with one line break counted after each line. A position
    /// past the last line gives `(0, 0)`.
    pub fn find_where_rope_index_fits(&mut self, rope_index: usize) -> (place: (usize, usize))
        requires
            old(self).well_formed(),
        ensures
            final(self).well_formed(),
            final(self).made_ready(old(self)),
            (place.0 as int, place.1 as int) == locate(old(self)@, 0, rope_index as int),
    {
        self.ensure_gap();
        let ghost lines = self@;
        let mut remaining: usize = rope_index;
        let mut i: usize = 0;
        proof {
            self.lemma_view();
        }
        while i < self.starting_of_gap
            invariant
                self.well_formed(),
                self@ == lines,
                lines == old(self)@,
                self.made_ready(old(self)),
                i <= self.starting_of_gap,
                locate(lines, 0, rope_index as int) == locate(lines, i as int, remaining as int),
            decreases self.starting_of_gap - i,
        {
            proof {
                self.lemma_view();
            }
            let width: usize = self.buffer[i];
            assert(width == lines[i as int]);
            if remaining <= width {
                return (i, remaining);
            }
            remaining = remaining - width - 1;
            i = i + 1;
        }
        let before_index: usize = self.starting_of_gap;
        let mut slot: usize = self.ending_of_gap + 1;
        while slot < self.buffer.len()
            invariant
                self.well_formed(),
                self@ == lines,
                lines == old(self)@,
                self.made_ready(old(self)),
                before_index == self.starting_of_gap,
                self.ending_of_gap < slot <= self.buffer@.len(),
                locate(lines, 0, rope_index as int) == locate(
                    lines,
                    before_index + (slot - self.ending_of_gap - 1),
                    remaining as int,
                ),
            decreases self.buffer@.len() - slot,
        {
            proof {
                self.lemma_view();
            }
            let after_index: usize = slot - self.ending_of_gap;
            let final_index: usize = before_index + after_index - 1;
            let width: usize = self.buffer[slot];
            assert(width == lines[final_index as int]);
            if remaining <= width {
                return (final_index, remaining);
            }
            remaining = remaining - width - 1;
            slot = slot + 1;
        }
        (0, 0)
    }

    /// The sum of the widths of the lines before line `line`; of all
    /// lines where `line` is not below their number.
    pub fn length_up_to_non_inclusive_index(&mut self, line: usize) -> (sum: usize)
        requires
            old(self).well_formed(),
        ensures
            final(self).well_formed(),
            final(self).made_ready(old(self)),
            line <= old(self)@.len() ==> sum == total_width(old(self)@.subrange(0, line as int)),
            line >= old(self)@.len() ==> sum == total_width(old(self)@),
    {
        self.ensure_gap();
        let ghost lines = self@;
        let content_len: usize = self.buffer.len() - ((self.ending_of_gap - self.starting_of_gap)
            + 1);
        let upto: usize = if line >= content_len {
            content_len
        } else {
            line
        };
        let mut sum: usize = 0;
        let mut row: usize = 0;
        while row < upto
            invariant
                self.well_formed(),
                self@ == lines,
                row <= upto <= lines.len(),
                sum == total_width(lines.subrange(0, row as int)),
            decreases upto - row,
        {
            proof {
                lemma_total_width_prefix(lines, row as int);
                lemma_total_width_prefix(lines, row + 1);
            }
            let slot: usize = self.slot_of(row);
            sum = sum + self.buffer[slot];
            row = row + 1;
        }
        assert(lines.subrange(0, lines.len() as int) =~= lines);
        sum
    }

    /// Adds `count` to the width of line `line`. Does nothing, and says
    /// so, where there is no such line or the sum of the widths would no
    /// longer fit a `usize`.
    pub fn increase_with_count(&mut self, line: usize, count: usize) -> (done: Option<()>)
        requires
            old(self).well_formed(),
        ensures
            final(self).well_formed(),
            done is Some <==> line < old(self)@.len() && total_width(old(self)@) + count
                <= usize::MAX,
            final(self)@ == widths_increased(old(self)@, line as int, count as int),
            final(self).spec_starting_of_gap() == old(self).ready_starting_of_gap(),
            final(self).gap_len() == old(self).ready_gap_len(),
    {
        self.ensure_gap();
        if line >= self.buffer.len() - ((self.ending_of_gap - self.starting_of_gap) + 1) {
            return None;
        }
        if count > usize::MAX - self.total {
            return None;
        }
        let ghost lines = self@;
        let slot: usize = self.slot_of(line);
        let width: usize = self.buffer[slot];
        proof {
            lemma_total_width_update(lines, line as int, (width + count) as usize);
            lemma_total_width_prefix(lines, line as int);
            lemma_total_width_prefix(lines, line + 1);
            lemma_total_width_prefix(lines, line as int);
        }
        self.buffer.set(slot, width + count);
        self.total = self.total + count;
        assert(self@ =~= lines.update(line as int, (width + count) as usize));
        Some(())
    }

    /// Takes `count` off the width of line `line`, stopping at 0. Does
    /// nothing, and says so, where there is no such line.
    pub fn decrease_with_count(&mut self, line: usize, count: usize) -> (done: Option<()>)
        requires
            old(self).well_formed(),
        ensures
            final(self).well_formed(),
            done is Some <==> line < old(self)@.len(),
            final(self)@ == widths_decreased(old(self)@, line as int, count as int),
            final(self).spec_starting_of_gap() == old(self).ready_starting_of_gap(),
            final(self).gap_len() == old(self).ready_gap_len(),
    {
        self.ensure_gap();
        if line >= self.buffer.len() - ((self.ending_of_gap - self.starting_of_gap) + 1) {
            return None;
        }
        let ghost lines = self@;
        let slot: usize = self.slot_of(line);
        let width: usize = self.buffer[slot];
        let lowered: usize = width.saturating_sub(count);
        proof {
            lemma_total_width_update(lines, line as int, lowered);
            lemma_total_width_prefix(lines, line as int);
            lemma_total_width_prefix(lines, line + 1);
        }
        self.buffer.set(slot, lowered);
        self.total = self.total - (width - lowered);
        assert(self@ =~= lines.update(line as int, lowered));
        Some(())
    }

    /// Adds 1 to the width of line `line`, as `increase_with_count` does.
    pub fn increase(&mut self, line: usize) -> (done: Option<()>)
        requires
            old(self).well_formed(),
        ensures
            final(self).well_formed(),
            done is Some <==> line < old(self)@.len() && total_width(old(self)@) + 1 <= usize::MAX,
            final(self)@ == widths_increased(old(self)@, line as int, 1),
            final(self).spec_starting_of_gap() == old(self).ready_starting_of_gap(),
            final(self).gap_len() == old(self).ready_gap_len(),
    {
        self.increase_with_count(line, 1)
    }

    /// Takes 1 off the width of line `line`, as `decrease_with_count`
    /// does.
    pub fn decrease(&mut self, line: usize) -> (done: Option<()>)
        requires
            old(self).well_formed(),
        ensures
            final(self).well_formed(),
            done is Some <==> line < old(self)@.len(),
            final(self)@ == widths_decreased(old(self)@, line as int, 1),
            final(self).spec_starting_of_gap() == old(self).ready_starting_of_gap(),
            final(self).gap_len() == old(self).ready_gap_len(),
    {
        self.decrease_with_count(line, 1)
    }

    /// Puts a line of width `count` in before line `line`. The gap is
    /// moved to `line`, its first slot takes the width, and the gap then
    /// starts at `line + 1`. Nothing changes where `line` is above the
    /// number of lines, or where the sum of the widths would no longer
    /// fit a `usize`.
    pub fn add_item_with_count(&mut self, line: usize, count: usize)
        requires
            old(self).well_formed(),
        ensures
            final(self).well_formed(),
            final(self)@ == widths_added(old(self)@, line as int, count),
            line <= old(self)@.len() && total_width(old(self)@) + count <= usize::MAX ==> {
                &&& final(self).spec_starting_of_gap() == line + 1
                &&& final(self).gap_len() == old(self).ready_gap_len() - 1
            },
            !(line <= old(self)@.len() && total_width(old(self)@) + count <= usize::MAX)
                ==> final(self).made_ready(old(self)),
    {
        self.ensure_gap();
        if line > self.buffer.len() - ((self.ending_of_gap - self.starting_of_gap) + 1) {
            return ;
        }
        if count > usize::MAX - self.total {
            return ;
        }
        let ghost lines = self@;
        self.move_gap_to(line);
        proof {
            lemma_total_width_insert(lines, line as int, count);
        }
        self.buffer.set(line, count);
        self.starting_of_gap = line + 1;
        self.total = self.total + count;
        assert(self@ =~= lines.insert(line as int, count));
    }

    /// Puts an empty line in before line `line`, as `add_item_with_count`
    /// does with a width of 0.
    pub fn add_item(&mut self, line: usize)
        requires
            old(self).well_formed(),
        ensures
            final(self).well_formed(),
            final(self)@ == widths_added(old(self)@, line as int, 0),
            line <= old(self)@.len() ==> {
                &&& final(self).spec_starting_of_gap() == line + 1
                &&& final(self).gap_len() == old(self).ready_gap_len() - 1
            },
            line > old(self)@.len() ==> final(self).made_ready(old(self)),
    {
        self.add_item_with_count(line, 0)
    }

    /// Takes line `line` out and returns its width, or nothing where
    /// there is no such line. The gap is moved to `line` and grows by the
    /// slot of the line.
    pub fn remove_item(&mut self, line: usize) -> (width: Option<usize>)
        requires
            old(self).well_formed(),
        ensures
            final(self).well_formed(),
            final(self)@ == widths_removed(old(self)@, line as int),
            line < old(self)@.len() ==> {
                &&& width == Some(old(self)@[line as int])
                &&& final(self).spec_starting_of_gap() == line
                &&& final(self).gap_len() == old(self).ready_gap_len() + 1
            },
            line >= old(self)@.len() ==> width is None && final(self).made_ready(old(self)),
    {
        self.ensure_gap();
        if line >= self.buffer.len() - ((self.ending_of_gap - self.starting_of_gap) + 1) {
            return None;
        }
        let ghost lines = self@;
        self.move_gap_to(line);
        proof {
            self.lemma_view();
        }
        let slot: usize = self.ending_of_gap + 1;
        let value_to_be_removed: usize = self.buffer[slot];
        assert(value_to_be_removed == lines[line as int]);
        proof {
            lemma_total_width_remove(lines, line as int);
            lemma_total_width_bound(lines, line as int);
        }
        let ghost slots = self.buffer@;
        self.buffer.set(slot, SENTINEL);
        self.ending_of_gap = slot;
        self.total = self.total - value_to_be_removed;
        assert(self@ =~= lines.remove(line as int)) by {
            assert(self.buffer@.subrange(0, line as int) =~= slots.subrange(0, line as int));
            assert(self.buffer@.subrange(slot + 1, slots.len() as int) =~= slots.subrange(
                slot + 1,
                slots.len() as int,
            ));
        }
        Some(value_to_be_removed)
    }

    /// The slots of the buffer, used and unused.
    pub fn buffer(&self) -> (slots: &[usize])
        ensures
            slots@ == self.spec_buffer(),
    {
        self.buffer.as_slice()
    }

    /// The first slot of the gap.
    pub fn starting_of_gap(&self) -> (slot: usize)
        ensures
            slot == self.spec_starting_of_gap(),
    {
        self.starting_of_gap
    }

    /// The last slot of the gap.
    pub fn ending_of_gap(&self) -> (slot: usize)
        ensures
            slot == self.spec_ending_of_gap(),
    {
        self.ending_of_gap
    }
}

impl Default for GapBuffer {
    /// A buffer without lines, with a gap of one slot.
    fn default() -> (made: Self)
        ensures
            made.well_formed(),
            made@ == Seq::<usize>::empty(),
            made.spec_starting_of_gap() == 0,
            made.gap_len() == 1,
    {
        let mut buffer: Vec<usize> = Vec::new();
        buffer.push(SENTINEL);
        let made = GapBuffer { buffer, starting_of_gap: 0, ending_of_gap: 0, total: 0 };
        assert(made@ =~= Seq::<usize>::empty());
        made
    }
}

/// How the slots of a well-formed buffer are laid out: the widths of the
/// lines before the gap, the gap full of sentinels, and the widths of the
/// lines after it.
pub proof fn lemma_gap_buffer_layout(buffer: GapBuffer)
    requires
        buffer.well_formed(),
    ensures
        0 <= buffer.spec_starting_of_gap() <= buffer@.len(),
        buffer.gap_len() >= 0,
        buffer.spec_buffer().len() == buffer@.len() + buffer.gap_len(),
        1 <= buffer.spec_buffer().len() <= usize::MAX,
        total_width(buffer@) <= usize::MAX,
        buffer.spec_buffer() == buffer@.subrange(0, buffer.spec_starting_of_gap()) + Seq::new(
            buffer.gap_len() as nat,
            |slot: int| SENTINEL,
        ) + buffer@.subrange(buffer.spec_starting_of_gap(), buffer@.len() as int),
{
    assert(buffer.spec_buffer() =~= buffer@.subrange(0, buffer.spec_starting_of_gap()) + Seq::new(
        buffer.gap_len() as nat,
        |slot: int| SENTINEL,
    ) + buffer@.subrange(buffer.spec_starting_of_gap(), buffer@.len() as int));
}

} // verus!
