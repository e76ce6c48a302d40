//! A gap buffer of display lines, with landmarks: lines whose place in
//! the document is kept, so that the place of a line nearby is found
//! without adding up the lines from the first.

use crate::gap_buffer::locate;
use crate::graphemes::segments;
use crate::lines::text_lines;
use crate::rope::extracted;
use crate::text_editor_line::{
    generate_lines, line_models, wrapped_lines, LineModel, TextEditorLine, TypeOfLine,
};
use crate::text_representation::TextRepresentation;
use vstd::prelude::*;
use vstd::string::*;

verus! {

/// The room that a list of lines takes in the document.
pub open spec fn offsets_total(lines: Seq<LineModel>) -> nat
    decreases lines.len(),
{
    if lines.len() == 0 {
        0
    } else {
        offsets_total(lines.drop_last()) + lines.last().offset_width()
    }
}

/// The sum of the widths of a list of lines.
pub open spec fn widths_total(lines: Seq<LineModel>) -> nat
    decreases lines.len(),
{
    if lines.len() == 0 {
        0
    } else {
        widths_total(lines.drop_last()) + lines.last().width()
    }
}

/// The place in the document at which line `line` starts: the room that
/// the lines before it take.
pub open spec fn offset_before(lines: Seq<LineModel>, line: int) -> nat {
    offsets_total(lines.subrange(0, line))
}

/// The widths of a list of lines.
pub open spec fn model_widths(lines: Seq<LineModel>) -> Seq<usize> {
    lines.map_values(|line: LineModel| line.width() as usize)
}

/// Whether the landmarks fit the lines: the positions strictly increase
/// and name lines that exist, and each offset is the place at which the
/// line at its position starts.
pub open spec fn landmarks_match(
    positions: Seq<usize>,
    offsets: Seq<usize>,
    lines: Seq<LineModel>,
) -> bool {
    &&& positions.len() == offsets.len()
    &&& forall|i: int, j: int| 0 <= i < j < positions.len() ==> positions[i] < positions[j]
    &&& forall|k: int|
        0 <= k < positions.len() ==> (#[trigger] positions[k]) < lines.len() && offsets[k]
            == offset_before(lines, positions[k] as int)
}

/// The landmarks after a line is put in before line `index`: a landmark
/// at or after `index` moves one line on.
pub open spec fn positions_after_addition(positions: Seq<usize>, index: int) -> Seq<usize> {
    positions.map_values(
        |position: usize|
            if position >= index {
                (position + 1) as usize
            } else {
                position
            },
    )
}

/// The landmarks after line `index` is taken out and `lines_left` lines
/// are left: a landmark after `index` moves one line back. A landmark at
/// `index` stays, and so passes to the line that followed, unless no line
/// followed. Where that line was a landmark too, one landmark is left.
pub open spec fn positions_after_removal(
    positions: Seq<usize>,
    index: int,
    lines_left: int,
) -> Seq<usize>
    decreases positions.len(),
{
    if positions.len() == 0 {
        Seq::empty()
    } else {
        let kept = positions_after_removal(positions.drop_last(), index, lines_left);
        let position = positions.last();
        if position < index {
            kept.push(position)
        } else if position == index {
            if index < lines_left {
                kept.push(position)
            } else {
                kept
            }
        } else if kept.len() > 0 && kept.last() == position - 1 {
            kept
        } else {
            kept.push((position - 1) as usize)
        }
    }
}

/// The room of two lists joined is the room of each, added.
pub proof fn lemma_offsets_total_concat(first: Seq<LineModel>, second: Seq<LineModel>)
    ensures
        offsets_total(first + second) == offsets_total(first) + offsets_total(second),
    decreases second.len(),
{
    if second.len() == 0 {
        assert(first + second =~= first);
    } else {
        assert((first + second).drop_last() =~= first + second.drop_last());
        lemma_offsets_total_concat(first, second.drop_last());
    }
}

/// The room of a list of one line is the room of that line.
pub proof fn lemma_offsets_total_single(line: LineModel)
    ensures
        offsets_total(seq![line]) == line.offset_width(),
{
    reveal_with_fuel(offsets_total, 2);
    assert(seq![line].drop_last() =~= Seq::<LineModel>::empty());
}

/// The place at which a line starts grows by the room of the line, and
/// the room of the lines before any line is no more than the room of all.
pub proof fn lemma_offset_before_step(lines: Seq<LineModel>, line: int)
    requires
        0 <= line <= lines.len(),
    ensures
        offset_before(lines, line) <= offsets_total(lines),
        offset_before(lines, lines.len() as int) == offsets_total(lines),
        offset_before(lines, 0) == 0,
        line < lines.len() ==> offset_before(lines, line + 1) == offset_before(lines, line)
            + lines[line].offset_width(),
        line < lines.len() ==> offset_before(lines, line) + lines[line].offset_width()
            <= offsets_total(lines),
{
    let head = lines.subrange(0, line);
    let tail = lines.subrange(line, lines.len() as int);
    assert(lines =~= head + tail);
    assert(lines.subrange(0, lines.len() as int) =~= lines);
    assert(lines.subrange(0, 0) =~= Seq::<LineModel>::empty());
    lemma_offsets_total_concat(head, tail);
    if line < lines.len() {
        assert(lines.subrange(0, line + 1).drop_last() =~= head);
        let upto = lines.subrange(0, line + 1);
        let rest = lines.subrange(line + 1, lines.len() as int);
        assert(lines =~= upto + rest);
        lemma_offsets_total_concat(upto, rest);
    }
}

/// The places at which lines start never decrease.
pub proof fn lemma_offset_before_monotonic(lines: Seq<LineModel>, lower: int, upper: int)
    requires
        0 <= lower <= upper <= lines.len(),
    ensures
        offset_before(lines, lower) <= offset_before(lines, upper),
{
    let upto = lines.subrange(0, upper);
    assert(upto.subrange(0, lower) =~= lines.subrange(0, lower));
    lemma_offset_before_step(upto, lower);
    assert(upto.subrange(0, upto.len() as int) =~= upto);
}

/// Putting a line in moves the start of the lines from there on by the
/// room of the new line, and leaves the start of the lines before alone.
pub proof fn lemma_offset_before_insert(
    lines: Seq<LineModel>,
    at: int,
    line: LineModel,
    upto: int,
)
    requires
        0 <= at <= lines.len(),
        0 <= upto <= lines.len(),
    ensures
        offsets_total(lines.insert(at, line)) == offsets_total(lines) + line.offset_width(),
        upto >= at ==> offset_before(lines.insert(at, line), upto + 1) == offset_before(lines, upto)
            + line.offset_width(),
        upto <= at ==> offset_before(lines.insert(at, line), upto) == offset_before(lines, upto),
{
    let before = lines.subrange(0, at);
    let after = lines.subrange(at, lines.len() as int);
    assert(lines =~= before + after);
    assert(lines.insert(at, line) =~= before + seq![line] + after);
    lemma_offsets_total_concat(before, after);
    lemma_offsets_total_concat(before + seq![line], after);
    lemma_offsets_total_concat(before, seq![line]);
    lemma_offsets_total_single(line);
    if upto >= at {
        let middle = lines.subrange(at, upto);
        assert(lines.subrange(0, upto) =~= before + middle);
        assert(lines.insert(at, line).subrange(0, upto + 1) =~= before + seq![line] + middle);
        lemma_offsets_total_concat(before, middle);
        lemma_offsets_total_concat(before + seq![line], middle);
    }
    if upto <= at {
        assert(lines.insert(at, line).subrange(0, upto) =~= lines.subrange(0, upto));
    }
}

/// Taking a line out moves the start of the lines after it back by its
/// room, and leaves the start of the lines up to it alone.
pub proof fn lemma_offset_before_remove(lines: Seq<LineModel>, at: int, upto: int)
    requires
        0 <= at < lines.len(),
        0 <= upto <= lines.len(),
    ensures
        offsets_total(lines.remove(at)) == offsets_total(lines) - lines[at].offset_width(),
        upto > at ==> offset_before(lines.remove(at), upto - 1) == offset_before(lines, upto)
            - lines[at].offset_width(),
        upto <= at ==> offset_before(lines.remove(at), upto) == offset_before(lines, upto),
{
    let before = lines.subrange(0, at);
    let after = lines.subrange(at + 1, lines.len() as int);
    assert(lines =~= before + seq![lines[at]] + after);
    assert(lines.remove(at) =~= before + after);
    lemma_offsets_total_concat(before + seq![lines[at]], after);
    lemma_offsets_total_concat(before, seq![lines[at]]);
    lemma_offsets_total_concat(before, after);
    lemma_offsets_total_single(lines[at]);
    if upto > at {
        let middle = lines.subrange(at + 1, upto);
        assert(lines.subrange(0, upto) =~= before + seq![lines[at]] + middle);
        assert(lines.remove(at).subrange(0, upto - 1) =~= before + middle);
        lemma_offsets_total_concat(before + seq![lines[at]], middle);
        lemma_offsets_total_concat(before, middle);
    }
    if upto <= at {
        assert(lines.remove(at).subrange(0, upto) =~= lines.subrange(0, upto));
    }
}

/// Changing a line moves the start of the lines after it by the change
/// of its room, and leaves the start of the lines up to it alone.
pub proof fn lemma_offset_before_update(
    lines: Seq<LineModel>,
    at: int,
    line: LineModel,
    upto: int,
)
    requires
        0 <= at < lines.len(),
        0 <= upto <= lines.len(),
    ensures
        offsets_total(lines.update(at, line)) == offsets_total(lines) - lines[at].offset_width()
            + line.offset_width(),
        upto > at ==> offset_before(lines.update(at, line), upto) == offset_before(lines, upto)
            - lines[at].offset_width() + line.offset_width(),
        upto > at ==> offset_before(lines, upto) >= lines[at].offset_width(),
        upto <= at ==> offset_before(lines.update(at, line), upto) == offset_before(lines, upto),
{
    let before = lines.subrange(0, at);
    let after = lines.subrange(at + 1, lines.len() as int);
    assert(lines =~= before + seq![lines[at]] + after);
    assert(lines.update(at, line) =~= before + seq![line] + after);
    lemma_offsets_total_concat(before + seq![lines[at]], after);
    lemma_offsets_total_concat(before, seq![lines[at]]);
    lemma_offsets_total_concat(before + seq![line], after);
    lemma_offsets_total_concat(before, seq![line]);
    lemma_offsets_total_single(lines[at]);
    lemma_offsets_total_single(line);
    if upto > at {
        let middle = lines.subrange(at + 1, upto);
        assert(lines.subrange(0, upto) =~= before + seq![lines[at]] + middle);
        assert(lines.update(at, line).subrange(0, upto) =~= before + seq![line] + middle);
        lemma_offsets_total_concat(before + seq![lines[at]], middle);
        lemma_offsets_total_concat(before + seq![line], middle);
    }
    if upto <= at {
        assert(lines.update(at, line).subrange(0, upto) =~= lines.subrange(0, upto));
    }
}

/// The widths of the first lines add up step by step, and to no more
/// than the room that all lines take.
pub proof fn lemma_widths_total_step(lines: Seq<LineModel>, line: int)
    requires
        0 <= line <= lines.len(),
    ensures
        widths_total(lines.subrange(0, line)) <= offset_before(lines, line),
        line < lines.len() ==> widths_total(lines.subrange(0, line + 1)) == widths_total(
            lines.subrange(0, line),
        ) + lines[line].width(),
    decreases line,
{
    if line > 0 {
        lemma_widths_total_step(lines, line - 1);
        assert(lines.subrange(0, line).drop_last() =~= lines.subrange(0, line - 1));
    }
    if line < lines.len() {
        assert(lines.subrange(0, line + 1).drop_last() =~= lines.subrange(0, line));
    }
}

/// Moves the landmarks for a line put in before line `index`: a landmark
/// at or after `index` moves one line on, and its offset grows by the
/// room of the new line.
fn update_landmarks_due_to_addition(
    positions: &mut Vec<usize>,
    offsets: &mut Vec<usize>,
    index: usize,
    added: usize,
    Ghost(before): Ghost<Seq<LineModel>>,
    Ghost(line): Ghost<LineModel>,
)
    requires
        landmarks_match(old(positions)@, old(offsets)@, before),
        index <= before.len(),
        added == line.offset_width(),
        before.len() < usize::MAX,
        offsets_total(before.insert(index as int, line)) <= usize::MAX,
    ensures
        landmarks_match(final(positions)@, final(offsets)@, before.insert(index as int, line)),
        final(positions)@ == positions_after_addition(old(positions)@, index as int),
{
    let ghost after = before.insert(index as int, line);
    let ghost old_positions = positions@;
    let ghost old_offsets = offsets@;
    let mut k: usize = 0;
    while k < positions.len()
        invariant
            k <= positions@.len(),
            positions@.len() == old_positions.len(),
            offsets@.len() == old_positions.len(),
            landmarks_match(old_positions, old_offsets, before),
            after == before.insert(index as int, line),
            index <= before.len(),
            added == line.offset_width(),
            before.len() < usize::MAX,
            offsets_total(after) <= usize::MAX,
            forall|j: int|
                k <= j < positions@.len() ==> positions@[j] == old_positions[j] && offsets@[j]
                    == old_offsets[j],
            forall|j: int|
                0 <= j < k ==> positions@[j] == (if old_positions[j] >= index {
                    old_positions[j] + 1
                } else {
                    old_positions[j] as int
                }),
            forall|j: int|
                0 <= j < k ==> (#[trigger] positions@[j]) < after.len() && offsets@[j]
                    == offset_before(after, positions@[j] as int),
        decreases positions@.len() - k,
    {
        let position: usize = positions[k];
        let offset: usize = offsets[k];
        proof {
            assert(old_positions[k as int] < before.len());
            lemma_offset_before_insert(before, index as int, line, position as int);
            lemma_offset_before_step(after, position + 1);
            lemma_offset_before_step(after, position as int);
        }
        if position >= index {
            positions.set(k, position + 1);
            offsets.set(k, offset + added);
        }
        k = k + 1;
    }
    assert(positions@ =~= positions_after_addition(old_positions, index as int));
}

/// Moves the landmarks for line `index` taken out: a landmark after
/// `index` moves one line back, and its offset shrinks by the room of the
/// line. A landmark at `index` passes to the line that follows, unless
/// there is none or it is a landmark already.
fn update_landmarks_due_to_removal(
    positions: &mut Vec<usize>,
    offsets: &mut Vec<usize>,
    index: usize,
    taken: usize,
    lines_left: usize,
    Ghost(before): Ghost<Seq<LineModel>>,
)
    requires
        landmarks_match(old(positions)@, old(offsets)@, before),
        index < before.len(),
        lines_left == before.len() - 1,
        taken == before[index as int].offset_width(),
    ensures
        landmarks_match(final(positions)@, final(offsets)@, before.remove(index as int)),
        final(positions)@ == positions_after_removal(
            old(positions)@,
            index as int,
            lines_left as int,
        ),
{
    let ghost after = before.remove(index as int);
    let mut new_positions: Vec<usize> = Vec::new();
    let mut new_offsets: Vec<usize> = Vec::new();
    let mut k: usize = 0;
    assert(positions@.subrange(0, 0) =~= Seq::<usize>::empty());
    while k < positions.len()
        invariant
            k <= positions@.len(),
            new_positions@ == positions_after_removal(
                positions@.subrange(0, k as int),
                index as int,
                lines_left as int,
            ),
            landmarks_match(positions@, offsets@, before),
            after == before.remove(index as int),
            index < before.len(),
            lines_left == before.len() - 1,
            taken == before[index as int].offset_width(),
            landmarks_match(new_positions@, new_offsets@, after),
            new_positions@.len() > 0 && k > 0 ==> new_positions@[new_positions@.len() - 1]
                <= positions@[k - 1],
            new_positions@.len() > 0 ==> k > 0,
        decreases positions@.len() - k,
    {
        let position: usize = positions[k];
        let offset: usize = offsets[k];
        let ghost kept = new_positions@;
        let ghost kept_offsets = new_offsets@;
        proof {
            lemma_offset_before_remove(before, index as int, position as int);
            if k > 0 {
                assert(positions@[k - 1] < positions@[k as int]);
            }
            assert(positions@.subrange(0, k + 1).drop_last() =~= positions@.subrange(0, k as int));
        }
        if position < index {
            new_positions.push(position);
            new_offsets.push(offset);
        } else if position == index {
            if index < lines_left {
                new_positions.push(position);
                new_offsets.push(offset);
            }
        } else {
            let moved: usize = position - 1;
            let duplicate: bool = new_positions.len() > 0 && new_positions[new_positions.len() - 1]
                == moved;
            if !duplicate {
                proof {
                    lemma_offset_before_step(before, index as int);
                    lemma_offset_before_monotonic(before, index + 1, position as int);
                }
                new_positions.push(moved);
                new_offsets.push(offset - taken);
            }
        }
        proof {
            assert forall|i: int, j: int|
                0 <= i < j < new_positions@.len() implies new_positions@[i] < new_positions@[j] by {
                if j < kept.len() {
                    assert(new_positions@[i] == kept[i] && new_positions@[j] == kept[j]);
                } else {
                    assert(new_positions@[i] == kept[i]);
                    assert(kept[i] <= kept[kept.len() - 1]);
                }
            }
            assert forall|j: int| 0 <= j < new_positions@.len() implies (
            #[trigger] new_positions@[j]) < after.len() && new_offsets@[j] == offset_before(
                after,
                new_positions@[j] as int,
            ) by {
                if j < kept.len() {
                    assert(new_positions@[j] == kept[j] && new_offsets@[j] == kept_offsets[j]);
                }
            }
        }
        k = k + 1;
    }
    assert(positions@.subrange(0, k as int) =~= positions@);
    *positions = new_positions;
    *offsets = new_offsets;
}

/// Moves the landmarks for line `index` changed: the offset of a landmark
/// after `index` changes as the room of the line did.
fn update_landmarks_due_to_change(
    positions: &Vec<usize>,
    offsets: &mut Vec<usize>,
    index: usize,
    old_room: usize,
    new_room: usize,
    Ghost(before): Ghost<Seq<LineModel>>,
    Ghost(line): Ghost<LineModel>,
)
    requires
        landmarks_match(positions@, old(offsets)@, before),
        index < before.len(),
        old_room == before[index as int].offset_width(),
        new_room == line.offset_width(),
        offsets_total(before.update(index as int, line)) <= usize::MAX,
    ensures
        landmarks_match(positions@, final(offsets)@, before.update(index as int, line)),
{
    let ghost after = before.update(index as int, line);
    let ghost old_offsets = offsets@;
    let mut k: usize = 0;
    while k < positions.len()
        invariant
            k <= positions@.len(),
            offsets@.len() == positions@.len(),
            landmarks_match(positions@, old_offsets, before),
            after == before.update(index as int, line),
            index < before.len(),
            old_room == before[index as int].offset_width(),
            new_room == line.offset_width(),
            offsets_total(after) <= usize::MAX,
            forall|j: int| k <= j < positions@.len() ==> offsets@[j] == old_offsets[j],
            forall|j: int|
                0 <= j < k ==> offsets@[j] == offset_before(
                    after,
                    (#[trigger] positions@[j]) as int,
                ),
        decreases positions@.len() - k,
    {
        let position: usize = positions[k];
        let offset: usize = offsets[k];
        proof {
            assert(positions@[k as int] < before.len());
            lemma_offset_before_update(before, index as int, line, position as int);
            lemma_offset_before_step(after, position as int);
        }
        if position > index {
            offsets.set(k, offset - old_room + new_room);
        }
        k = k + 1;
    }
}

/// The lines of the first `count` that become landmarks when a buffer is
/// made: every line whose number is a multiple of `step`, and none where
/// `step` is 0.
pub open spec fn initial_landmarks(count: nat, step: nat) -> Seq<usize>
    decreases count,
{
    if count == 0 {
        Seq::empty()
    } else if step > 0 && (count - 1) % (step as int) == 0 {
        initial_landmarks((count - 1) as nat, step).push((count - 1) as usize)
    } else {
        initial_landmarks((count - 1) as nat, step)
    }
}

/// The line that is left where a line is cut before grapheme cluster
/// `cut`: the clusters before the cut. It opens its logical line where
/// the line did, and does not close it.
pub open spec fn split_head(line: LineModel, cut: int) -> LineModel {
    let clusters = segments(line.text);
    let place = if cut < clusters.len() {
        cut
    } else {
        clusters.len() as int
    };
    LineModel {
        text: clusters.subrange(0, place).flatten(),
        kind: TypeOfLine::spec_between(line.kind.opens_line(), false),
    }
}

/// The line that is cut off where a line is cut before grapheme cluster
/// `cut`: the clusters from the cut on. It closes its logical line where
/// the line did, and does not open it.
pub open spec fn split_tail(line: LineModel, cut: int) -> LineModel {
    let clusters = segments(line.text);
    let place = if cut < clusters.len() {
        cut
    } else {
        clusters.len() as int
    };
    LineModel {
        text: clusters.subrange(place, clusters.len() as int).flatten(),
        kind: TypeOfLine::spec_between(false, line.kind.closes_line()),
    }
}

/// The line that two lines merge into: the text of the upper followed by
/// that of the lower. It opens its logical line where the upper did and
/// closes it where the lower did.
pub open spec fn merged_line(upper: LineModel, lower: LineModel) -> LineModel {
    LineModel {
        text: upper.text + lower.text,
        kind: TypeOfLine::spec_between(upper.kind.opens_line(), lower.kind.closes_line()),
    }
}

/// An empty line that stands for a whole logical line.
pub open spec fn empty_line() -> LineModel {
    LineModel { text: Seq::<char>::empty(), kind: TypeOfLine::Independent }
}

/// Whether `line` can be put in before line `index`: `index` is not above
/// the number of lines, and the room of the lines still fits a `usize`.
pub open spec fn can_add(lines: Seq<LineModel>, index: int, line: LineModel) -> bool {
    0 <= index <= lines.len() && offsets_total(lines) + line.offset_width() <= usize::MAX
}

/// The lines after `line` is put in before line `index`. Nothing changes
/// where [`can_add`] does not hold.
pub open spec fn lines_added(lines: Seq<LineModel>, index: int, line: LineModel) -> Seq<LineModel> {
    if can_add(lines, index, line) {
        lines.insert(index, line)
    } else {
        lines
    }
}

/// The lines after line `index` is taken out. Nothing changes where
/// there is no such line.
pub open spec fn lines_removed(lines: Seq<LineModel>, index: int) -> Seq<LineModel> {
    if 0 <= index < lines.len() {
        lines.remove(index)
    } else {
        lines
    }
}

/// Whether line `index` can take the place of `line`: there is such a
/// line, and the room of the lines still fits a `usize`.
pub open spec fn can_replace(lines: Seq<LineModel>, index: int, line: LineModel) -> bool {
    0 <= index < lines.len() && offsets_total(lines.update(index, line)) <= usize::MAX
}

/// The lines after line `index` is given the text `text`. Nothing
/// changes where there is no such line, or where the room of the lines
/// would no longer fit a `usize`.
pub open spec fn lines_changed(lines: Seq<LineModel>, index: int, text: Seq<char>) -> Seq<
    LineModel,
> {
    let changed = LineModel { text, kind: lines[index].kind };
    if can_replace(lines, index, changed) {
        lines.update(index, changed)
    } else {
        lines
    }
}

/// Whether line `index` can be cut before grapheme cluster `cut`: there
/// is such a line, and the room of the lines still fits a `usize`.
pub open spec fn can_split(lines: Seq<LineModel>, index: int, cut: int) -> bool {
    0 <= index < lines.len() && offsets_total(
        lines.update(index, split_head(lines[index], cut)).insert(
            index + 1,
            split_tail(lines[index], cut),
        ),
    ) <= usize::MAX
}

/// The lines after line `index` is cut before grapheme cluster `cut`.
/// Nothing changes where [`can_split`] does not hold.
pub open spec fn lines_split(lines: Seq<LineModel>, index: int, cut: int) -> Seq<LineModel> {
    if can_split(lines, index, cut) {
        lines.update(index, split_head(lines[index], cut)).insert(
            index + 1,
            split_tail(lines[index], cut),
        )
    } else {
        lines
    }
}

/// Whether line `index` can be merged into the line before it: there
/// are both, and the room of the lines still fits a `usize`.
pub open spec fn can_merge(lines: Seq<LineModel>, index: int) -> bool {
    1 <= index < lines.len() && offsets_total(
        lines.remove(index).update(index - 1, merged_line(lines[index - 1], lines[index])),
    ) <= usize::MAX
}

/// The lines after line `index` is merged into the line before it.
/// Nothing changes where [`can_merge`] does not hold.
pub open spec fn lines_merged(lines: Seq<LineModel>, index: int) -> Seq<LineModel> {
    if can_merge(lines, index) {
        lines.remove(index).update(index - 1, merged_line(lines[index - 1], lines[index]))
    } else {
        lines
    }
}

/// The room that a line takes in the document, or nothing where it does
/// not fit a `usize`.
fn room_of(line: &TextEditorLine) -> (room: Option<usize>)
    ensures
        line.offset_width() <= usize::MAX ==> room == Some(line.offset_width() as usize),
        line.offset_width() > usize::MAX ==> room is None,
{
    let width: usize = line.get_line_length();
    if line.type_of_line().is_closing() {
        width.checked_add(1)
    } else {
        Some(width)
    }
}

/// A gap buffer over the display lines of a document.
///
/// The slots before `starting_of_gap` and after `ending_of_gap` hold the
/// lines, in order; the slots between are unused. Landmarks are lines
/// whose place in the document is kept up to date.
#[derive(Debug)]
pub struct LinesGapBuffer {
    buffer: Vec<TextEditorLine>,
    starting_of_gap: usize,
    ending_of_gap: usize,
    landmarks_positions: Vec<usize>,
    landmarks_offsets: Vec<usize>,
    landmark_width: usize,
    total: usize,
}

impl View for LinesGapBuffer {
    type V = Seq<LineModel>;

    /// The display lines, in order.
    closed spec fn view(&self) -> Seq<LineModel> {
        line_models(
            self.buffer@.subrange(0, self.starting_of_gap as int) + self.buffer@.subrange(
                self.ending_of_gap + 1,
                self.buffer@.len() as int,
            ),
        )
    }
}

impl LinesGapBuffer {
    /// The slots of the buffer, used and unused.
    pub closed spec fn spec_buffer(&self) -> Seq<TextEditorLine> {
        self.buffer@
    }

    /// The first slot of the gap.
    pub closed spec fn spec_starting_of_gap(&self) -> int {
        self.starting_of_gap as int
    }

    /// The last slot of the gap.
    pub closed spec fn spec_ending_of_gap(&self) -> int {
        self.ending_of_gap as int
    }

    /// The number of unused slots.
    pub open spec fn gap_len(&self) -> int {
        self.spec_ending_of_gap() + 1 - self.spec_starting_of_gap()
    }

    /// The distance between the landmarks that the buffer was made with.
    pub closed spec fn spec_landmark_width(&self) -> usize {
        self.landmark_width
    }

    /// The number of unused slots once the gap is made ready for an edit:
    /// as many as there are, or as many as the buffer has slots where the
    /// gap is used up and the buffer doubles.
    pub open spec fn ready_gap_len(&self) -> int {
        if self.gap_len() == 0 {
            self.spec_buffer().len() as int
        } else {
            self.gap_len()
        }
    }

    /// The lines that are landmarks, in increasing order.
    pub closed spec fn spec_landmarks_positions(&self) -> Seq<usize> {
        self.landmarks_positions@
    }

    /// The place in the document kept for each landmark.
    pub closed spec fn spec_landmarks_offsets(&self) -> Seq<usize> {
        self.landmarks_offsets@
    }

    /// The invariant of the buffer: the gap lies within the slots, the
    /// room that the lines take is kept and fits a `usize`, and the
    /// landmarks fit the lines.
    pub closed spec fn well_formed(&self) -> bool {
        &&& self.buffer@.len() <= usize::MAX
        &&& self.ending_of_gap < self.buffer@.len()
        &&& self.starting_of_gap <= self.ending_of_gap + 1
        &&& self.total == offsets_total(self@)
        &&& landmarks_match(self.landmarks_positions@, self.landmarks_offsets@, self@)
    }

    /// The lines are the used slots, in order.
    proof fn lemma_view(&self)
        requires
            self.buffer@.len() <= usize::MAX,
            self.ending_of_gap < self.buffer@.len(),
            self.starting_of_gap <= self.ending_of_gap + 1,
        ensures
            self@.len() == self.buffer@.len() - self.gap_len(),
            self.starting_of_gap <= self@.len(),
            self.gap_len() >= 0,
            forall|line: int|
                0 <= line < self.starting_of_gap ==> #[trigger] self@[line]
                    == self.buffer@[line].model(),
            forall|line: int|
                self.starting_of_gap <= line < self@.len() ==> #[trigger] self@[line]
                    == self.buffer@[line + self.gap_len()].model(),
    {
    }

    /// What the invariant says of the landmarks and of the room.
    pub proof fn lemma_well_formed(&self)
        requires
            self.well_formed(),
        ensures
            offsets_total(self@) <= usize::MAX,
            landmarks_match(self.spec_landmarks_positions(), self.spec_landmarks_offsets(), self@),
            self.gap_len() >= 0,
            0 <= self.spec_starting_of_gap() <= self@.len(),
            self.spec_buffer().len() == self@.len() + self.gap_len(),
    {
        self.lemma_view();
    }

    /// Doubles the buffer once the gap is used up: the new slots are the
    /// new gap.
    fn resize(&mut self)
        requires
            old(self).well_formed(),
            old(self).gap_len() == 0,
        ensures
            final(self).well_formed(),
            final(self)@ == old(self)@,
            final(self).gap_len() == old(self).ready_gap_len(),
            final(self).gap_len() >= 1,
            final(self).spec_landmarks_positions() == old(self).spec_landmarks_positions(),
    {
        let previous_len: usize = self.buffer.len();
        let ghost slots = self.buffer@;
        let ghost lines = self@;
        assert(lines =~= line_models(slots));
        let mut added: usize = 0;
        while added < previous_len
            invariant
                added <= previous_len,
                previous_len == slots.len(),
                previous_len >= 1,
                self.buffer@.len() == previous_len + added,
                self.buffer@.subrange(0, previous_len as int) == slots,
                self.total == old(self).total,
                self.landmarks_positions == old(self).landmarks_positions,
                self.landmarks_offsets == old(self).landmarks_offsets,
            decreases previous_len - added,
        {
            self.buffer.push(TextEditorLine::default());
            added = added + 1;
            assert(self.buffer@.subrange(0, previous_len as int) =~= slots);
        }
        self.starting_of_gap = previous_len;
        self.ending_of_gap = self.buffer.len() - 1;
        assert(self@ =~= lines);
    }

    /// Makes sure that the gap has a slot.
    fn ensure_gap(&mut self)
        requires
            old(self).well_formed(),
        ensures
            final(self).well_formed(),
            final(self)@ == old(self)@,
            final(self).gap_len() == old(self).ready_gap_len(),
            final(self).gap_len() >= 1,
            final(self).spec_landmarks_positions() == old(self).spec_landmarks_positions(),
    {
        proof {
            self.lemma_view();
        }
        if self.ending_of_gap < self.starting_of_gap {
            self.resize();
        }
    }

    /// Moves the gap so that it starts at line `line`: the lines between
    /// the gap and `line` change places with slots of the gap, one by one.
    fn move_gap_to(&mut self, line: usize)
        requires
            old(self).well_formed(),
            old(self).gap_len() >= 1,
            line <= old(self)@.len(),
        ensures
            final(self).well_formed(),
            final(self)@ == old(self)@,
            final(self).gap_len() == old(self).gap_len(),
            final(self).spec_starting_of_gap() == line,
            final(self).spec_buffer().len() == old(self).spec_buffer().len(),
            final(self).spec_landmarks_positions() == old(self).spec_landmarks_positions(),
    {
        let ghost lines = self@;
        while self.starting_of_gap < line
            invariant
                self.well_formed(),
                self.landmarks_positions == old(self).landmarks_positions,
                self@ == lines,
                self.gap_len() == old(self).gap_len(),
                self.gap_len() >= 1,
                line <= lines.len(),
                self.buffer@.len() == old(self).buffer@.len(),
            decreases line - self.starting_of_gap,
        {
            proof {
                self.lemma_view();
            }
            let src_index: usize = self.ending_of_gap + 1;
            let dest_index: usize = self.starting_of_gap;
            let mut carried = TextEditorLine::default();
            self.buffer.set_and_swap(src_index, &mut carried);
            self.buffer.set_and_swap(dest_index, &mut carried);
            self.starting_of_gap = self.starting_of_gap + 1;
            self.ending_of_gap = self.ending_of_gap + 1;
            assert(self@ =~= lines);
        }
        while self.starting_of_gap > line
            invariant
                self.well_formed(),
                self.landmarks_positions == old(self).landmarks_positions,
                self@ == lines,
                self.gap_len() == old(self).gap_len(),
                self.gap_len() >= 1,
                line <= lines.len(),
                self.starting_of_gap >= line,
                self.buffer@.len() == old(self).buffer@.len(),
            decreases self.starting_of_gap - line,
        {
            proof {
                self.lemma_view();
            }
            let src_index: usize = self.starting_of_gap - 1;
            let dest_index: usize = self.ending_of_gap;
            let mut carried = TextEditorLine::default();
            self.buffer.set_and_swap(src_index, &mut carried);
            self.buffer.set_and_swap(dest_index, &mut carried);
            self.starting_of_gap = self.starting_of_gap - 1;
            self.ending_of_gap = self.ending_of_gap - 1;
            assert(self@ =~= lines);
        }
    }

    /// The slot that holds line `line`.
    fn slot_of(&self, line: usize) -> (slot: usize)
        requires
            self.well_formed(),
            line < self@.len(),
        ensures
            slot < self.spec_buffer().len(),
            self.spec_buffer()[slot as int].model() == self@[line as int],
    {
        proof {
            self.lemma_view();
        }
        if line < self.starting_of_gap {
            line
        } else {
            let offset: usize = line - self.starting_of_gap + 1;
            self.ending_of_gap + offset
        }
    }

    /// The number of lines.
    pub fn length(&self) -> (count: usize)
        requires
            self.well_formed(),
        ensures
            count == self@.len(),
    {
        proof {
            self.lemma_view();
        }
        self.buffer.len() - ((self.ending_of_gap + 1) - self.starting_of_gap)
    }

    /// The room that all lines take in the document.
    pub fn total(&self) -> (room: usize)
        requires
            self.well_formed(),
        ensures
            room == offsets_total(self@),
    {
        self.total
    }

    /// The width of line `line`, or nothing where there is no such line.
    pub fn index(&self, line: usize) -> (width: Option<usize>)
        requires
            self.well_formed(),
        ensures
            line < self@.len() ==> width == Some(self@[line as int].width() as usize),
            line < self@.len() ==> self@[line as int].width() <= usize::MAX,
            line >= self@.len() ==> width is None,
    {
        if line >= self.length() {
            return None;
        }
        let slot: usize = self.slot_of(line);
        Some(self.buffer[slot].get_line_length())
    }

    /// The room that line `line` takes in the document, or nothing where
    /// there is no such line.
    pub fn index_for_offset(&self, line: usize) -> (room: Option<usize>)
        requires
            self.well_formed(),
        ensures
            line < self@.len() ==> room == Some(self@[line as int].offset_width() as usize),
            line < self@.len() ==> self@[line as int].offset_width() <= usize::MAX,
            line >= self@.len() ==> room is None,
    {
        if line >= self.length() {
            return None;
        }
        let slot: usize = self.slot_of(line);
        proof {
            lemma_offset_before_step(self@, line as int);
        }
        Some(self.buffer[slot].get_line_length_for_offset())
    }

    /// The row and column at which position `rope_index` falls when the
    /// lines are laid end to end with one place between them. A position
    /// past the last line gives `(0, 0)`.
    pub fn find_where_rope_index_fits(&self, rope_index: usize) -> (place: (usize, usize))
        requires
            self.well_formed(),
        ensures
            (place.0 as int, place.1 as int) == locate(model_widths(self@), 0, rope_index as int),
    {
        let count: usize = self.length();
        let ghost widths = model_widths(self@);
        let mut remaining: usize = rope_index;
        let mut row: usize = 0;
        while row < count
            invariant
                self.well_formed(),
                count == self@.len(),
                widths == model_widths(self@),
                row <= count,
                locate(widths, 0, rope_index as int) == locate(
                    widths,
                    row as int,
                    remaining as int,
                ),
            decreases count - row,
        {
            let slot: usize = self.slot_of(row);
            let width: usize = self.buffer[slot].get_line_length();
            assert(width == widths[row as int]);
            if remaining <= width {
                return (row, remaining);
            }
            remaining = remaining - width - 1;
            row = row + 1;
        }
        (0, 0)
    }

    /// The sum of the widths of the lines before line `line`; of all
    /// lines where `line` is not below their number.
    pub fn length_up_to_non_inclusive_index(&self, line: usize) -> (sum: usize)
        requires
            self.well_formed(),
        ensures
            line <= self@.len() ==> sum == widths_total(self@.subrange(0, line as int)),
            line >= self@.len() ==> sum == widths_total(self@),
    {
        let content_len: usize = self.length();
        let upto: usize = if line >= content_len {
            content_len
        } else {
            line
        };
        let mut sum: usize = 0;
        let mut row: usize = 0;
        while row < upto
            invariant
                self.well_formed(),
                row <= upto <= self@.len(),
                sum == widths_total(self@.subrange(0, row as int)),
            decreases upto - row,
        {
            proof {
                lemma_widths_total_step(self@, row as int);
                lemma_widths_total_step(self@, row + 1);
                lemma_offset_before_step(self@, row + 1);
            }
            let slot: usize = self.slot_of(row);
            sum = sum + self.buffer[slot].get_line_length();
            row = row + 1;
        }
        assert(self@.subrange(0, self@.len() as int) =~= self@);
        sum
    }

    /// The places in the document of the first and the last grapheme
    /// cluster of line `index`. The place of the first is the room that
    /// the lines before it take; it is found from the nearest landmark at
    /// or before the line. An empty line ends one place before it starts,
    /// but not below 0. Where there is no such line both are 0.
    pub fn find_offsets_for_line(&self, index: usize) -> (bounds: (usize, usize))
        requires
            self.well_formed(),
        ensures
            index >= self@.len() ==> bounds == (0usize, 0usize),
            index < self@.len() ==> bounds.0 == offset_before(self@, index as int),
            index < self@.len() && self@[index as int].width() > 0 ==> bounds.1 == bounds.0
                + self@[index as int].width() - 1,
            index < self@.len() && self@[index as int].width() == 0 && bounds.0 > 0 ==> bounds.1
                == bounds.0 - 1,
            index < self@.len() && self@[index as int].width() == 0 && bounds.0 == 0 ==> bounds.1
                == 0,
    {
        if index >= self.length() {
            return (0, 0);
        }
        let mut starting: usize = 0;
        let mut landmark_offset: usize = 0;
        let mut k: usize = 0;
        proof {
            lemma_offset_before_step(self@, 0);
        }
        while k < self.landmarks_positions.len() && self.landmarks_positions[k] <= index
            invariant
                self.well_formed(),
                index < self@.len(),
                k <= self.landmarks_positions@.len(),
                starting <= index,
                landmark_offset == offset_before(self@, starting as int),
            decreases self.landmarks_positions@.len() - k,
        {
            starting = self.landmarks_positions[k];
            landmark_offset = self.landmarks_offsets[k];
            k = k + 1;
        }
        while starting < index
            invariant
                self.well_formed(),
                index < self@.len(),
                starting <= index,
                landmark_offset == offset_before(self@, starting as int),
            decreases index - starting,
        {
            proof {
                lemma_offset_before_step(self@, starting as int);
                lemma_offset_before_step(self@, starting + 1);
            }
            let slot: usize = self.slot_of(starting);
            landmark_offset = landmark_offset + self.buffer[slot].get_line_length_for_offset();
            starting = starting + 1;
        }
        proof {
            lemma_offset_before_step(self@, index as int);
        }
        let slot: usize = self.slot_of(index);
        let line_length: usize = self.buffer[slot].get_line_length();
        let starting: usize = landmark_offset;
        if line_length == 0 {
            let ending: usize = starting.saturating_sub(1);
            (starting, ending)
        } else {
            let ending: usize = landmark_offset + (line_length - 1);
            (starting, ending)
        }
    }

    /// A buffer over the given lines, with the gap after the last, and
    /// with every `landmark_width`-th line as a landmark, from the first.
    /// There is none where the room of the lines does not fit a `usize`.
    pub fn from_lines(lines: Vec<TextEditorLine>, landmark_width: usize) -> (made: Option<Self>)
        ensures
            offsets_total(line_models(lines@)) <= usize::MAX ==> (made matches Some(buffer)
                && buffer.well_formed() && buffer@ == line_models(lines@)
                && buffer.spec_landmarks_positions() == initial_landmarks(
                lines@.len(),
                landmark_width as nat,
            ) && buffer.spec_starting_of_gap() == lines@.len() && buffer.gap_len() == 1),
            offsets_total(line_models(lines@)) > usize::MAX ==> made is None,
    {
        let mut buffer: Vec<TextEditorLine> = lines;
        let starting_of_gap: usize = buffer.len();
        let ghost given = buffer@;
        buffer.push(TextEditorLine::default());
        let ending_of_gap: usize = buffer.len() - 1;
        assert(buffer@.subrange(0, starting_of_gap as int) =~= given);
        Self::from_layout(buffer, starting_of_gap, ending_of_gap, landmark_width)
    }

    /// A buffer over slots whose lines all stand before the gap.
    fn from_layout(
        buffer: Vec<TextEditorLine>,
        starting_of_gap: usize,
        ending_of_gap: usize,
        landmark_width: usize,
    ) -> (made: Option<Self>)
        requires
            starting_of_gap <= ending_of_gap,
            ending_of_gap + 1 == buffer@.len(),
        ensures
            offsets_total(line_models(buffer@.subrange(0, starting_of_gap as int))) <= usize::MAX
                ==> (made matches Some(made_buffer) && made_buffer.well_formed() && made_buffer@
                == line_models(buffer@.subrange(0, starting_of_gap as int))
                && made_buffer.spec_landmarks_positions() == initial_landmarks(
                starting_of_gap as nat,
                landmark_width as nat,
            ) && made_buffer.spec_starting_of_gap() == starting_of_gap
                && made_buffer.spec_ending_of_gap() == ending_of_gap && made_buffer.spec_buffer()
                == buffer@),
            offsets_total(line_models(buffer@.subrange(0, starting_of_gap as int))) > usize::MAX
                ==> made is None,
    {
        let ghost lines = line_models(buffer@.subrange(0, starting_of_gap as int));
        assert(buffer@.len() == buffer.len());
        let mut landmarks_positions: Vec<usize> = Vec::new();
        let mut landmarks_offsets: Vec<usize> = Vec::new();
        let mut total: usize = 0;
        let mut row: usize = 0;
        proof {
            lemma_offset_before_step(lines, 0);
        }
        while row < starting_of_gap
            invariant
                row <= starting_of_gap < buffer@.len(),
                lines == line_models(buffer@.subrange(0, starting_of_gap as int)),
                total == offset_before(lines, row as int),
                landmarks_positions@ == initial_landmarks(row as nat, landmark_width as nat),
                landmarks_positions@.len() == landmarks_offsets@.len(),
                forall|i: int, j: int|
                    0 <= i < j < landmarks_positions@.len() ==> landmarks_positions@[i]
                        < landmarks_positions@[j],
                forall|k: int|
                    0 <= k < landmarks_positions@.len() ==> (#[trigger] landmarks_positions@[k])
                        < row && landmarks_offsets@[k] == offset_before(
                        lines,
                        landmarks_positions@[k] as int,
                    ),
            decreases starting_of_gap - row,
        {
            proof {
                lemma_offset_before_step(lines, row as int);
                lemma_offset_before_step(lines, row + 1);
            }
            if landmark_width > 0 && row % landmark_width == 0 {
                landmarks_positions.push(row);
                landmarks_offsets.push(total);
            }
            let room: usize = match room_of(&buffer[row]) {
                Some(room) => room,
                None => {
                    return None;
                },
            };
            match total.checked_add(room) {
                Some(sum) => {
                    total = sum;
                },
                None => {
                    return None;
                },
            }
            row = row + 1;
        }
        proof {
            lemma_offset_before_step(lines, row as int);
        }
        let made = LinesGapBuffer {
            buffer,
            starting_of_gap,
            ending_of_gap,
            landmarks_positions,
            landmarks_offsets,
            landmark_width,
            total,
        };
        assert(made@ =~= lines);
        Some(made)
    }

    /// A buffer over the display lines of `content`, wrapped at `width`
    /// grapheme clusters, with every `landmark_width`-th line as a
    /// landmark. A text whose lines take more room than fits a `usize`
    /// gives a buffer without lines.
    pub fn new(content: &str, width: usize, landmark_width: usize) -> (made: Self)
        requires
            width > 0,
        ensures
            made.well_formed(),
            offsets_total(wrapped_lines(text_lines(content@), width as nat)) <= usize::MAX ==> made@
                == wrapped_lines(text_lines(content@), width as nat)
                && made.spec_landmarks_positions() == initial_landmarks(
                made@.len(),
                landmark_width as nat,
            ) && made.spec_starting_of_gap() == made@.len() && made.gap_len() == if text_lines(
                content@,
            ).len() == 0 {
                1
            } else {
                text_lines(content@).len() as int
            },
            offsets_total(wrapped_lines(text_lines(content@), width as nat)) > usize::MAX ==> made@
                == Seq::<LineModel>::empty() && made.spec_landmarks_positions()
                == Seq::<usize>::empty(),
    {
        let (buffer, starting_of_gap, ending_of_gap) = generate_lines(content, width);
        match Self::from_layout(buffer, starting_of_gap, ending_of_gap, landmark_width) {
            Some(made) => made,
            None => LinesGapBuffer::default(),
        }
    }

    /// Puts `line` in before line `index`. Says whether it did: it does
    /// not where `index` is above the number of lines, or where the room
    /// of the lines would no longer fit a `usize`.
    fn insert_line(&mut self, index: usize, line: TextEditorLine) -> (done: bool)
        requires
            old(self).well_formed(),
        ensures
            final(self).well_formed(),
            done == can_add(old(self)@, index as int, line.model()),
            final(self)@ == lines_added(old(self)@, index as int, line.model()),
            done ==> final(self).spec_landmarks_positions() == positions_after_addition(
                old(self).spec_landmarks_positions(),
                index as int,
            ) && final(self).spec_starting_of_gap() == index + 1 && final(self).gap_len()
                == old(self).ready_gap_len() - 1,
            !done ==> final(self).spec_landmarks_positions()
                == old(self).spec_landmarks_positions(),
    {
        self.ensure_gap();
        if index > self.length() {
            return false;
        }
        let room: usize = match room_of(&line) {
            Some(room) => room,
            None => {
                return false;
            },
        };
        if room > usize::MAX - self.total {
            return false;
        }
        let ghost lines = self@;
        let ghost model = line.model();
        self.move_gap_to(index);
        proof {
            self.lemma_view();
            lemma_offset_before_insert(lines, index as int, model, 0);
        }
        self.buffer.set(index, line);
        self.starting_of_gap = index + 1;
        self.total = self.total + room;
        assert(self@ =~= lines.insert(index as int, model));
        update_landmarks_due_to_addition(
            &mut self.landmarks_positions,
            &mut self.landmarks_offsets,
            index,
            room,
            Ghost(lines),
            Ghost(model),
        );
        true
    }

    /// Puts an empty line, which stands for a whole logical line, in
    /// before line `index`. Nothing changes where `index` is above the
    /// number of lines, or where the room of the lines would no longer
    /// fit a `usize`.
    pub fn add_item(&mut self, index: usize)
        requires
            old(self).well_formed(),
        ensures
            final(self).well_formed(),
            final(self)@ == lines_added(old(self)@, index as int, empty_line()),
            final(self).spec_landmarks_positions() == if can_add(
                old(self)@,
                index as int,
                empty_line(),
            ) {
                positions_after_addition(old(self).spec_landmarks_positions(), index as int)
            } else {
                old(self).spec_landmarks_positions()
            },
            can_add(old(self)@, index as int, empty_line()) ==> final(self).spec_starting_of_gap()
                == index + 1 && final(self).gap_len() == old(self).ready_gap_len() - 1,
    {
        let line = TextEditorLine::default();
        let ghost model = line.model();
        assert(model =~= empty_line());
        self.insert_line(index, line);
    }

    /// Puts a line with the text `content`, which stands for a whole
    /// logical line, in before line `index`. Nothing changes where `index`
    /// is above the number of lines, or where the room of the lines would
    /// no longer fit a `usize`.
    pub fn add_item_with_content(&mut self, index: usize, content: String)
        requires
            old(self).well_formed(),
        ensures
            final(self).well_formed(),
            final(self)@ == lines_added(
                old(self)@,
                index as int,
                LineModel { text: content@, kind: TypeOfLine::Independent },
            ),
            final(self).spec_landmarks_positions() == if can_add(
                old(self)@,
                index as int,
                LineModel { text: content@, kind: TypeOfLine::Independent },
            ) {
                positions_after_addition(old(self).spec_landmarks_positions(), index as int)
            } else {
                old(self).spec_landmarks_positions()
            },
            can_add(
                old(self)@,
                index as int,
                LineModel { text: content@, kind: TypeOfLine::Independent },
            ) ==> final(self).spec_starting_of_gap() == index + 1 && final(self).gap_len()
                == old(self).ready_gap_len() - 1,
    {
        let line = TextEditorLine::new(content, TypeOfLine::Independent);
        assert(line.model() =~= LineModel { text: content@, kind: TypeOfLine::Independent });
        self.insert_line(index, line);
    }

    /// Takes line `index` out and returns it, or nothing where there is
    /// no such line.
    pub fn remove_item(&mut self, index: usize) -> (removed: Option<TextEditorLine>)
        requires
            old(self).well_formed(),
        ensures
            final(self).well_formed(),
            index < old(self)@.len() ==> (removed matches Some(line) && line.model()
                == old(self)@[index as int]),
            index >= old(self)@.len() ==> removed is None,
            final(self)@ == lines_removed(old(self)@, index as int),
            final(self).spec_landmarks_positions() == if index < old(self)@.len() {
                positions_after_removal(
                    old(self).spec_landmarks_positions(),
                    index as int,
                    old(self)@.len() - 1,
                )
            } else {
                old(self).spec_landmarks_positions()
            },
            index < old(self)@.len() ==> final(self).spec_starting_of_gap() == index
                && final(self).gap_len() == old(self).ready_gap_len() + 1,
    {
        self.ensure_gap();
        if index >= self.length() {
            return None;
        }
        let ghost lines = self@;
        self.move_gap_to(index);
        proof {
            self.lemma_view();
            lemma_offset_before_step(lines, index as int);
            lemma_offset_before_remove(lines, index as int, 0);
        }
        let slot: usize = self.ending_of_gap + 1;
        let mut value_to_be_removed = TextEditorLine::default();
        self.buffer.set_and_swap(slot, &mut value_to_be_removed);
        self.ending_of_gap = slot;
        let room: usize = value_to_be_removed.get_line_length_for_offset();
        self.total = self.total - room;
        assert(self@ =~= lines.remove(index as int));
        let lines_left: usize = self.buffer.len() - ((self.ending_of_gap + 1)
            - self.starting_of_gap);
        update_landmarks_due_to_removal(
            &mut self.landmarks_positions,
            &mut self.landmarks_offsets,
            index,
            room,
            lines_left,
            Ghost(lines),
        );
        Some(value_to_be_removed)
    }

    /// Whether the gap of `self` lies where the gap of `before` lies.
    pub open spec fn same_gap(&self, before: &Self) -> bool {
        &&& self.spec_starting_of_gap() == before.spec_starting_of_gap()
        &&& self.spec_ending_of_gap() == before.spec_ending_of_gap()
        &&& self.spec_buffer().len() == before.spec_buffer().len()
    }

    /// What holds of the buffer while line `index` is taken out of its
    /// slot: the other lines are those of `lines`, and the room and the
    /// landmarks are still those that fit `lines`.
    spec fn holds_except(&self, lines: Seq<LineModel>, index: int) -> bool {
        &&& self.buffer@.len() <= usize::MAX
        &&& self.ending_of_gap < self.buffer@.len()
        &&& self.starting_of_gap <= self.ending_of_gap + 1
        &&& 0 <= index < lines.len()
        &&& self@.len() == lines.len()
        &&& forall|row: int| 0 <= row < lines.len() && row != index ==> self@[row] == lines[row]
        &&& self.total == offsets_total(lines)
        &&& landmarks_match(self.landmarks_positions@, self.landmarks_offsets@, lines)
    }

    /// Takes line `index` out of its slot and leaves an empty line there.
    fn take_line(&mut self, index: usize) -> (line: TextEditorLine)
        requires
            old(self).well_formed(),
            index < old(self)@.len(),
        ensures
            line.model() == old(self)@[index as int],
            line.offset_width() <= usize::MAX,
            final(self).holds_except(old(self)@, index as int),
            final(self).spec_landmarks_positions() == old(self).spec_landmarks_positions(),
            final(self).same_gap(old(self)),
    {
        let ghost lines = self@;
        let ghost slots = self.buffer@;
        proof {
            self.lemma_view();
            lemma_offset_before_step(self@, index as int);
        }
        let slot: usize = if index < self.starting_of_gap {
            index
        } else {
            self.ending_of_gap + (index - self.starting_of_gap + 1)
        };
        let mut line = TextEditorLine::default();
        self.buffer.set_and_swap(slot, &mut line);
        proof {
            self.lemma_view();
            assert forall|row: int| 0 <= row < lines.len() && row != index implies self@[row]
                == lines[row] by {
                if row < self.starting_of_gap {
                    assert(self.buffer@[row] == slots[row]);
                } else {
                    assert(self.buffer@[row + self.gap_len()] == slots[row + self.gap_len()]);
                }
            }
        }
        line
    }

    /// Puts `line` back into the slot of line `index`, from which the
    /// line of `lines` was taken.
    fn restore_line(&mut self, index: usize, line: TextEditorLine, Ghost(lines): Ghost<
        Seq<LineModel>,
    >)
        requires
            old(self).holds_except(lines, index as int),
            line.model() == lines[index as int],
        ensures
            final(self).well_formed(),
            final(self)@ == lines,
            final(self).spec_landmarks_positions() == old(self).spec_landmarks_positions(),
            final(self).same_gap(old(self)),
    {
        proof {
            self.lemma_view();
        }
        let slot: usize = if index < self.starting_of_gap {
            index
        } else {
            self.ending_of_gap + (index - self.starting_of_gap + 1)
        };
        self.buffer.set(slot, line);
        proof {
            self.lemma_view();
        }
        assert(self@ =~= lines);
    }

    /// Puts `line` into the slot of line `index`, from which a line of
    /// room `old_room` was taken, and brings the room and the landmarks
    /// up to date. Hands the line back instead where the room of the
    /// lines would no longer fit a `usize`.
    fn put_line(
        &mut self,
        index: usize,
        line: TextEditorLine,
        old_room: usize,
        Ghost(lines): Ghost<Seq<LineModel>>,
    ) -> (back: Option<TextEditorLine>)
        requires
            old(self).holds_except(lines, index as int),
            old_room == lines[index as int].offset_width(),
        ensures
            back is None <==> offsets_total(lines.update(index as int, line.model()))
                <= usize::MAX,
            back is None ==> final(self).well_formed() && final(self)@ == lines.update(
                index as int,
                line.model(),
            ),
            back matches Some(same) ==> same == line && final(self).holds_except(
                lines,
                index as int,
            ),
            final(self).spec_landmarks_positions() == old(self).spec_landmarks_positions(),
            final(self).same_gap(old(self)),
    {
        let ghost model = line.model();
        proof {
            self.lemma_view();
            lemma_offset_before_step(lines, index as int);
            lemma_offset_before_update(lines, index as int, model, 0);
        }
        let new_room: usize = match room_of(&line) {
            Some(room) => room,
            None => {
                return Some(line);
            },
        };
        if new_room > usize::MAX - (self.total - old_room) {
            return Some(line);
        }
        let slot: usize = if index < self.starting_of_gap {
            index
        } else {
            self.ending_of_gap + (index - self.starting_of_gap + 1)
        };
        self.buffer.set(slot, line);
        self.total = self.total - old_room + new_room;
        proof {
            self.lemma_view();
        }
        assert(self@ =~= lines.update(index as int, model));
        update_landmarks_due_to_change(
            &self.landmarks_positions,
            &mut self.landmarks_offsets,
            index,
            old_room,
            new_room,
            Ghost(lines),
            Ghost(model),
        );
        None
    }

    /// Gives line `index` the text of the grapheme clusters
    /// `bounds.0..=bounds.1` of the document. Does nothing, and says so,
    /// where there is no such line or the room of the lines would no
    /// longer fit a `usize`.
    pub fn change_line<T: TextRepresentation>(
        &mut self,
        index: usize,
        bounds: (usize, usize),
        text_representation: &T,
    ) -> (done: Option<()>)
        requires
            old(self).well_formed(),
            text_representation.valid(),
        ensures
            final(self).well_formed(),
            done is Some <==> can_replace(
                old(self)@,
                index as int,
                LineModel {
                    text: extracted(
                        text_representation.content(),
                        bounds.0 as int,
                        bounds.1 as int,
                    ).flatten(),
                    kind: old(self)@[index as int].kind,
                },
            ),
            final(self)@ == lines_changed(
                old(self)@,
                index as int,
                extracted(
                    text_representation.content(),
                    bounds.0 as int,
                    bounds.1 as int,
                ).flatten(),
            ),
            final(self).spec_landmarks_positions() == old(self).spec_landmarks_positions(),
            final(self).same_gap(old(self)),
    {
        if index >= self.length() {
            return None;
        }
        let ghost lines = self@;
        let mut line = self.take_line(index);
        let saved: String = String::from_str(line.line());
        let kind: TypeOfLine = *line.type_of_line();
        let old_room: usize = line.get_line_length_for_offset();
        line.change_line(bounds, text_representation);
        assert(line.model() =~= LineModel {
            text: extracted(
                text_representation.content(),
                bounds.0 as int,
                bounds.1 as int,
            ).flatten(),
            kind: lines[index as int].kind,
        });
        match self.put_line(index, line, old_room, Ghost(lines)) {
            None => Some(()),
            Some(_) => {
                let former = TextEditorLine::new(saved, kind);
                assert(former.model() =~= lines[index as int]);
                self.restore_line(index, former, Ghost(lines));
                None
            },
        }
    }

    /// Cuts line `index` before grapheme cluster `cut_position`: the line
    /// keeps the clusters before the cut, and the rest becomes a new line
    /// after it. The first no longer closes the logical line, and the new
    /// line closes it where the line did. Does nothing, and says so,
    /// where there is no such line or the room of the lines would no
    /// longer fit a `usize`.
    pub fn split_a_line(&mut self, index: usize, cut_position: usize) -> (done: Option<()>)
        requires
            old(self).well_formed(),
        ensures
            final(self).well_formed(),
            done is Some <==> can_split(old(self)@, index as int, cut_position as int),
            final(self)@ == lines_split(old(self)@, index as int, cut_position as int),
            final(self).spec_landmarks_positions() == if done is Some {
                positions_after_addition(old(self).spec_landmarks_positions(), index + 1)
            } else {
                old(self).spec_landmarks_positions()
            },
            done is Some ==> final(self).spec_starting_of_gap() == index + 2
                && final(self).gap_len() == old(self).ready_gap_len() - 1,
            done is None ==> final(self).same_gap(old(self)),
    {
        if index >= self.length() {
            return None;
        }
        let ghost lines = self@;
        let mut line = self.take_line(index);
        let kind: TypeOfLine = *line.type_of_line();
        let old_room: usize = line.get_line_length_for_offset();
        let cut_content: String = line.split_line(cut_position);
        line.set_type_of_line(TypeOfLine::between(kind.is_opening(), false));
        let tail = TextEditorLine::new(cut_content, TypeOfLine::between(false, kind.is_closing()));
        let ghost head_model = line.model();
        let ghost tail_model = tail.model();
        proof {
            assert(head_model =~= split_head(lines[index as int], cut_position as int));
            assert(tail_model =~= split_tail(lines[index as int], cut_position as int));
            lemma_offset_before_update(lines, index as int, head_model, 0);
            lemma_offset_before_insert(
                lines.update(index as int, head_model),
                index + 1,
                tail_model,
                0,
            );
            lemma_offset_before_step(lines, index as int);
        }
        let fits: bool = match (room_of(&line), room_of(&tail)) {
            (Some(head_room), Some(tail_room)) => {
                match (self.total - old_room).checked_add(head_room) {
                    Some(sum) => tail_room <= usize::MAX - sum,
                    None => false,
                }
            },
            _ => false,
        };
        if !fits {
            line.add_to_line(tail.line());
            line.set_type_of_line(kind);
            assert(line.model() =~= lines[index as int]);
            self.restore_line(index, line, Ghost(lines));
            return None;
        }
        self.put_line(index, line, old_room, Ghost(lines));
        self.insert_line(index + 1, tail);
        Some(())
    }

    /// Takes line `index` out and appends its text to the line before it.
    /// The merged line closes its logical line where the line taken out
    /// did. Does nothing, and says so, where `index` is 0, where there is
    /// no such line, or where the room of the lines would no longer fit a
    /// `usize`.
    pub fn merge_two_lines(&mut self, index: usize) -> (done: Option<()>)
        requires
            old(self).well_formed(),
        ensures
            final(self).well_formed(),
            done is Some <==> can_merge(old(self)@, index as int),
            final(self)@ == lines_merged(old(self)@, index as int),
            final(self).spec_landmarks_positions() == if done is Some {
                positions_after_removal(
                    old(self).spec_landmarks_positions(),
                    index as int,
                    old(self)@.len() - 1,
                )
            } else {
                old(self).spec_landmarks_positions()
            },
            done is Some ==> final(self).spec_starting_of_gap() == index && final(self).gap_len()
                == old(self).ready_gap_len() + 1,
            done is None ==> final(self).same_gap(old(self)),
    {
        if index == 0 || index >= self.length() {
            return None;
        }
        let ghost lines = self@;
        let upper_slot: usize = self.slot_of(index - 1);
        let lower_slot: usize = self.slot_of(index);
        proof {
            lemma_offset_before_step(lines, index - 1);
            lemma_offset_before_step(lines, index as int);
            lemma_offset_before_remove(lines, index as int, 0);
        }
        let upper = &self.buffer[upper_slot];
        let lower = &self.buffer[lower_slot];
        let upper_room: usize = upper.get_line_length_for_offset();
        let lower_room: usize = lower.get_line_length_for_offset();
        let mut text: String = String::from_str(upper.line());
        text.append(lower.line());
        let kind: TypeOfLine = TypeOfLine::between(
            upper.type_of_line().is_opening(),
            lower.type_of_line().is_closing(),
        );
        let merged = TextEditorLine::new(text, kind);
        let ghost model = merged.model();
        proof {
            assert(model =~= merged_line(lines[index - 1], lines[index as int]));
            lemma_offset_before_update(lines.remove(index as int), index - 1, model, 0);
            lemma_offset_before_step(lines.remove(index as int), index - 1);
        }
        let fits: bool = match room_of(&merged) {
            Some(new_room) => new_room <= usize::MAX - (self.total - lower_room - upper_room),
            None => false,
        };
        if !fits {
            return None;
        }
        self.remove_item(index);
        let ghost left = self@;
        self.take_line(index - 1);
        self.put_line(index - 1, merged, upper_room, Ghost(left));
        Some(())
    }

    /// The distance between the landmarks that the buffer was made with.
    pub fn landmark_width(&self) -> (width: usize)
        ensures
            width == self.spec_landmark_width(),
    {
        self.landmark_width
    }

    /// The lines that are landmarks, in increasing order.
    pub fn landmarks_positions(&self) -> (positions: &[usize])
        ensures
            positions@ == self.spec_landmarks_positions(),
    {
        self.landmarks_positions.as_slice()
    }

    /// The place in the document kept for each landmark.
    pub fn landmarks_offsets(&self) -> (offsets: &[usize])
        ensures
            offsets@ == self.spec_landmarks_offsets(),
    {
        self.landmarks_offsets.as_slice()
    }

    /// The first slot of the gap.
    pub fn starting_of_gap(&self) -> (slot: usize)
        ensures
            slot == self.spec_starting_of_gap(),
    {
        self.starting_of_gap
    }

    /// The last slot of the gap.
    pub fn ending_of_gap(&self) -> (slot: usize)
        ensures
            slot == self.spec_ending_of_gap(),
    {
        self.ending_of_gap
    }

    /// The slots of the buffer, used and unused.
    pub fn buffer(&self) -> (slots: &[TextEditorLine])
        ensures
            slots@ == self.spec_buffer(),
    {
        self.buffer.as_slice()
    }

    /// The texts of the lines, in order.
    pub fn get_lines(&self) -> (lines: Vec<&str>)
        requires
            self.well_formed(),
        ensures
            lines@.len() == self@.len(),
            forall|row: int|
                0 <= row < lines@.len() ==> (#[trigger] lines@[row])@ == self@[row].text,
    {
        let count: usize = self.length();
        let mut lines: Vec<&str> = Vec::new();
        let mut row: usize = 0;
        while row < count
            invariant
                self.well_formed(),
                count == self@.len(),
                row <= count,
                lines@.len() == row,
                forall|i: int| 0 <= i < row ==> (#[trigger] lines@[i])@ == self@[i].text,
            decreases count - row,
        {
            let slot: usize = self.slot_of(row);
            lines.push(self.buffer[slot].line());
            row = row + 1;
        }
        lines
    }
}

impl Default for LinesGapBuffer {
    /// A buffer without lines, with a gap of one slot and no landmarks.
    fn default() -> (made: Self)
        ensures
            made.well_formed(),
            made@ == Seq::<LineModel>::empty(),
            made.spec_landmarks_positions() == Seq::<usize>::empty(),
            made.spec_starting_of_gap() == 0,
            made.gap_len() == 1,
    {
        let mut buffer: Vec<TextEditorLine> = Vec::new();
        buffer.push(TextEditorLine::default());
        let made = LinesGapBuffer {
            buffer,
            starting_of_gap: 0,
            ending_of_gap: 0,
            landmarks_positions: Vec::new(),
            landmarks_offsets: Vec::new(),
            landmark_width: 0,
            total: 0,
        };
        assert(made@ =~= Seq::<LineModel>::empty());
        made
    }
}

} // verus!
