//! The reversible commands: edits of the text, of the widths of the
//! lines, and of the display lines.

use crate::gap_buffer::{
    lemma_total_width_bound, lemma_total_width_insert, lemma_total_width_remove,
    lemma_total_width_update, total_width,
    widths_added, widths_decreased, widths_increased, widths_removed, GapBuffer,
};
use crate::graphemes::segments;
use crate::lines_gap_buffer::{
    empty_line, lines_added, lines_changed, lines_merged, lines_removed, lines_split,
    LinesGapBuffer,
};
use crate::rc_substr::RcSubstr;
use crate::rope::{extracted, insert_rope, inserted, remove, removed, sub_rope, Node};
use crate::text_editor_line::LineModel;
use crate::text_representation::{
    cursor_after_delete, insertion_place, one_past, TextRepresentation,
};
use std::rc::Rc;
use vstd::prelude::*;

verus! {

/// A reversible edit of the text of a document.
pub trait Command {
    /// What the command needs to hold of itself.
    spec fn well_formed(&self) -> bool;

    /// The document after the command is executed on `document`.
    spec fn applied(&self, document: Seq<Seq<char>>) -> Seq<Seq<char>>;

    /// Whether `after` is the command as executing it on `document`
    /// leaves it.
    spec fn executed_on(&self, after: &Self, document: Seq<Seq<char>>) -> bool;

    /// The document after the command is undone on `document`.
    spec fn reverted(&self, document: Seq<Seq<char>>) -> Seq<Seq<char>>;

    /// The cursor after the command is executed on `document`.
    spec fn cursor_after(&self, document: Seq<Seq<char>>) -> int;

    /// The cursor after the command is undone.
    spec fn cursor_before(&self) -> int;

    /// Executes the command on the rope. Returns the rope and the cursor.
    fn execute(&mut self, rope: Box<Node>) -> (outcome: (Box<Node>, usize))
        requires
            old(self).well_formed(),
            rope.well_formed(),
        ensures
            final(self).well_formed(),
            outcome.0.well_formed(),
            outcome.0@ == old(self).applied(rope@),
            old(self).executed_on(final(self), rope@),
            outcome.1 == old(self).cursor_after(rope@),
    ;

    /// Undoes the command on the rope. Returns the rope and the cursor.
    fn undo(&self, rope: Box<Node>) -> (outcome: (Box<Node>, usize))
        requires
            self.well_formed(),
            rope.well_formed(),
        ensures
            outcome.0.well_formed(),
            outcome.0@ == self.reverted(rope@),
            outcome.1 == self.cursor_before(),
    ;
}

/// The insertion of a text before a grapheme cluster.
pub struct InsertCommand {
    content: RcSubstr,
    index: usize,
}

impl InsertCommand {
    /// The grapheme clusters that the command puts in.
    pub closed spec fn clusters(&self) -> Seq<Seq<char>> {
        self.content@
    }

    /// The grapheme cluster before which the command puts them.
    pub closed spec fn place(&self) -> int {
        self.index as int
    }

    /// The insertion of `content`, segmented into grapheme clusters,
    /// before cluster `index`.
    pub fn new(content: String, index: usize) -> (command: Self)
        ensures
            command.well_formed(),
            command.clusters() == segments(content@),
            command.place() == index,
    {
        Self { content: RcSubstr::new(Rc::new(content)), index }
    }
}

impl Command for InsertCommand {
    closed spec fn well_formed(&self) -> bool {
        self.content.well_formed()
    }

    /// The clusters are put in before cluster `place`, or at the end
    /// where it lies past the end. A document without room for them stays
    /// as it is.
    open spec fn applied(&self, document: Seq<Seq<char>>) -> Seq<Seq<char>> {
        if document.len() + self.clusters().len() <= usize::MAX {
            inserted(document, self.place(), self.clusters())
        } else {
            document
        }
    }

    open spec fn executed_on(&self, after: &Self, document: Seq<Seq<char>>) -> bool {
        after.clusters() == self.clusters() && after.place() == self.place()
    }

    /// As many clusters as were put in are taken out again, from where
    /// they were put: from `place`, or from as far before the end as they
    /// reach where `place` lies further on.
    open spec fn reverted(&self, document: Seq<Seq<char>>) -> Seq<Seq<char>> {
        if document.len() >= self.clusters().len() {
            removed(
                document,
                insertion_place((document.len() - self.clusters().len()) as nat, self.place()),
                self.clusters().len() as int,
            )
        } else {
            document
        }
    }

    open spec fn cursor_after(&self, document: Seq<Seq<char>>) -> int {
        if document.len() + self.clusters().len() <= usize::MAX {
            insertion_place(document.len(), self.place()) + self.clusters().len()
        } else {
            insertion_place(document.len(), self.place())
        }
    }

    open spec fn cursor_before(&self) -> int {
        self.place()
    }

    fn execute(&mut self, rope: Box<Node>) -> (outcome: (Box<Node>, usize)) {
        let length: usize = self.content.len();
        let total: usize = rope.len();
        let place: usize = if self.index < total {
            self.index
        } else {
            total
        };
        if length > usize::MAX - total {
            return (rope, place);
        }
        let piece = Node::new(self.content.substr(0..length));
        assert(self.content@.subrange(0, length as int) =~= self.content@);
        (Box::new(insert_rope(self.index, rope, Box::new(piece))), place + length)
    }

    fn undo(&self, rope: Box<Node>) -> (outcome: (Box<Node>, usize)) {
        let content_len: usize = self.content.len();
        let total: usize = rope.len();
        if total < content_len {
            return (rope, self.index);
        }
        let place: usize = if self.index < total - content_len {
            self.index
        } else {
            total - content_len
        };
        (remove(place, rope, content_len), self.index)
    }
}

/// The deletion of a number of grapheme clusters from a cluster on. The
/// command keeps what it took out, to put it back when it is undone.
pub struct DeleteCommand {
    length_cut: usize,
    index: usize,
    cut_content: Node,
}

impl DeleteCommand {
    /// The number of grapheme clusters that the command takes out.
    pub closed spec fn count(&self) -> int {
        self.length_cut as int
    }

    /// The grapheme cluster from which it takes them.
    pub closed spec fn place(&self) -> int {
        self.index as int
    }

    /// The grapheme clusters that the command took out when it was last
    /// executed.
    pub closed spec fn captured(&self) -> Seq<Seq<char>> {
        self.cut_content@
    }

    /// The deletion of `length_cut` grapheme clusters from cluster `index`
    /// on.
    pub fn new(length_cut: usize, index: usize) -> (command: Self)
        ensures
            command.well_formed(),
            command.count() == length_cut,
            command.place() == index,
            command.captured() == Seq::<Seq<char>>::empty(),
    {
        Self { length_cut, index, cut_content: Node::empty() }
    }
}

impl Command for DeleteCommand {
    closed spec fn well_formed(&self) -> bool {
        self.cut_content.well_formed()
    }

    open spec fn applied(&self, document: Seq<Seq<char>>) -> Seq<Seq<char>> {
        removed(document, self.place(), self.count())
    }

    /// Executing the command captures the clusters that it takes out.
    open spec fn executed_on(&self, after: &Self, document: Seq<Seq<char>>) -> bool {
        &&& after.count() == self.count()
        &&& after.place() == self.place()
        &&& after.captured() == if self.count() >= 1 {
            extracted(document, self.place(), self.place() + self.count() - 1)
        } else {
            Seq::<Seq<char>>::empty()
        }
    }

    /// The captured clusters are put back before cluster `place`. A
    /// document without room for them stays as it is.
    open spec fn reverted(&self, document: Seq<Seq<char>>) -> Seq<Seq<char>> {
        if document.len() + self.captured().len() <= usize::MAX {
            inserted(document, self.place(), self.captured())
        } else {
            document
        }
    }

    open spec fn cursor_after(&self, document: Seq<Seq<char>>) -> int {
        cursor_after_delete(self.place(), self.count())
    }

    /// The cursor goes back to one past `place`, as far as a `usize`
    /// reaches.
    open spec fn cursor_before(&self) -> int {
        one_past(self.place())
    }

    fn execute(&mut self, rope: Box<Node>) -> (outcome: (Box<Node>, usize)) {
        let total: usize = rope.len();
        if self.length_cut >= 1 {
            let last: usize = self.index.saturating_add(self.length_cut - 1);
            self.cut_content = sub_rope(&rope, self.index, last);
            assert(extracted(rope@, self.index as int, last as int) =~= extracted(
                rope@,
                self.index as int,
                self.index + self.length_cut - 1,
            ));
        } else {
            self.cut_content = Node::empty();
        }
        let rope = remove(self.index, rope, self.length_cut);
        (rope, self.index.saturating_add(1).saturating_sub(self.length_cut))
    }

    fn undo(&self, rope: Box<Node>) -> (outcome: (Box<Node>, usize)) {
        let cursor: usize = self.index.saturating_add(1);
        let length: usize = self.cut_content.len();
        if length == 0 {
            assert(inserted(rope@, self.index as int, self.cut_content@) =~= rope@);
            return (rope, cursor);
        }
        if length > usize::MAX - rope.len() {
            return (rope, cursor);
        }
        let piece = sub_rope(&self.cut_content, 0, length - 1);
        assert(self.cut_content@.subrange(0, length as int) =~= self.cut_content@);
        (Box::new(insert_rope(self.index, rope, Box::new(piece))), cursor)
    }
}

/// Undoing an insertion that was executed on a document with room for it
/// gives the document back.
pub proof fn lemma_insert_command_undo(
    command: InsertCommand,
    after: InsertCommand,
    document: Seq<Seq<char>>,
)
    requires
        command.executed_on(&after, document),
        command.place() >= 0,
        document.len() + command.clusters().len() <= usize::MAX,
    ensures
        after.reverted(command.applied(document)) == document,
        after.cursor_before() == command.place(),
{
    let changed = command.applied(document);
    let count = command.clusters().len() as int;
    let place = insertion_place(document.len(), command.place());
    assert(changed.len() == document.len() + count);
    assert(removed(changed, place, count) =~= document);
}

/// Undoing a deletion gives the document back on which it was executed.
pub proof fn lemma_delete_command_undo(
    command: DeleteCommand,
    after: DeleteCommand,
    document: Seq<Seq<char>>,
)
    requires
        command.executed_on(&after, document),
        command.place() >= 0,
        command.count() >= 0,
        document.len() <= usize::MAX,
    ensures
        after.reverted(command.applied(document)) == document,
{
    let changed = command.applied(document);
    assert(changed.len() + after.captured().len() == document.len());
    assert(inserted(changed, command.place(), after.captured()) =~= document);
}

/// Executing a command again, after it was executed and undone, changes
/// the document as it did the first time.
pub proof fn lemma_content_command_redo(
    insertion: InsertCommand,
    insertion_after: InsertCommand,
    deletion: DeleteCommand,
    deletion_after: DeleteCommand,
    document: Seq<Seq<char>>,
)
    requires
        insertion.executed_on(&insertion_after, document),
        deletion.executed_on(&deletion_after, document),
    ensures
        insertion_after.applied(document) == insertion.applied(document),
        insertion_after.cursor_after(document) == insertion.cursor_after(document),
        deletion_after.applied(document) == deletion.applied(document),
        deletion_after.cursor_after(document) == deletion.cursor_after(document),
{
}

/// A reversible edit of the widths of the logical lines.
pub trait LineWidthsCommand {
    /// The widths after the command is executed on `widths`.
    spec fn applied(&self, widths: Seq<usize>) -> Seq<usize>;

    /// The widths after the command is undone on `widths`.
    spec fn reverted(&self, widths: Seq<usize>) -> Seq<usize>;

    /// Executes the command on the widths of the lines.
    fn execute(&self, line_widths: &mut GapBuffer)
        requires
            old(line_widths).well_formed(),
        ensures
            final(line_widths).well_formed(),
            final(line_widths)@ == self.applied(old(line_widths)@),
    ;

    /// Undoes the command on the widths of the lines.
    fn undo(&self, line_widths: &mut GapBuffer)
        requires
            old(line_widths).well_formed(),
        ensures
            final(line_widths).well_formed(),
            final(line_widths)@ == self.reverted(old(line_widths)@),
    ;
}

/// The merge of a line into the line above it: the line is taken out and
/// its width is added to the width of the line above.
pub struct LineMergeTopCommand {
    row_number: usize,
    length_of_line_removed: usize,
}

impl LineMergeTopCommand {
    /// The line that is merged into the line above it.
    pub closed spec fn row(&self) -> int {
        self.row_number as int
    }

    /// The width that the line is taken to have when the merge is undone.
    pub closed spec fn length(&self) -> usize {
        self.length_of_line_removed
    }

    /// The merge of line `row_number`, of width `length_of_line_removed`,
    /// into the line above it.
    pub closed spec fn spec_new(row_number: usize, length_of_line_removed: usize) -> Self {
        Self { row_number, length_of_line_removed }
    }

    /// The merge of line `row_number`, of width `length_of_line_removed`,
    /// into the line above it.
    pub fn new(row_number: usize, length_of_line_removed: usize) -> (command: Self)
        ensures
            command == Self::spec_new(row_number, length_of_line_removed),
            command.row() == row_number,
            command.length() == length_of_line_removed,
    {
        Self { row_number, length_of_line_removed }
    }
}

impl LineWidthsCommand for LineMergeTopCommand {
    /// Nothing changes where the line is the first, or where there is no
    /// such line.
    open spec fn applied(&self, widths: Seq<usize>) -> Seq<usize> {
        if 1 <= self.row() < widths.len() {
            widths_increased(
                widths_removed(widths, self.row()),
                self.row() - 1,
                widths[self.row()] as int,
            )
        } else {
            widths
        }
    }

    /// A line of the recorded width is put back, and the width is taken
    /// off the line above. Nothing changes where the line is the first.
    open spec fn reverted(&self, widths: Seq<usize>) -> Seq<usize> {
        if 1 <= self.row() {
            widths_decreased(
                widths_added(widths, self.row(), self.length()),
                self.row() - 1,
                self.length() as int,
            )
        } else {
            widths
        }
    }

    fn execute(&self, lines_widths: &mut GapBuffer) {
        if self.row_number == 0 {
            return ;
        }
        if let Some(length_of_line_removed) = lines_widths.remove_item(self.row_number) {
            lines_widths.increase_with_count(self.row_number - 1, length_of_line_removed);
        }
    }

    fn undo(&self, lines_widths: &mut GapBuffer) {
        if self.row_number == 0 {
            return ;
        }
        lines_widths.add_item_with_count(self.row_number, self.length_of_line_removed);
        lines_widths.decrease_with_count(self.row_number - 1, self.length_of_line_removed);
    }
}

/// The removal of one grapheme cluster from a line.
pub struct DecreaseLineCommand {
    row_number: usize,
}

impl DecreaseLineCommand {
    /// The line that loses a cluster.
    pub closed spec fn row(&self) -> int {
        self.row_number as int
    }

    /// The removal of one grapheme cluster from line `row_number`.
    pub closed spec fn spec_new(row_number: usize) -> Self {
        Self { row_number }
    }

    /// The removal of one grapheme cluster from line `row_number`.
    pub fn new(row_number: usize) -> (command: Self)
        ensures
            command == Self::spec_new(row_number),
            command.row() == row_number,
    {
        Self { row_number }
    }
}

impl LineWidthsCommand for DecreaseLineCommand {
    open spec fn applied(&self, widths: Seq<usize>) -> Seq<usize> {
        widths_decreased(widths, self.row(), 1)
    }

    open spec fn reverted(&self, widths: Seq<usize>) -> Seq<usize> {
        widths_increased(widths, self.row(), 1)
    }

    fn execute(&self, line_widths: &mut GapBuffer) {
        line_widths.decrease(self.row_number);
    }

    fn undo(&self, line_widths: &mut GapBuffer) {
        line_widths.increase(self.row_number);
    }
}

/// The addition of one grapheme cluster to a line.
pub struct IncreaseLineCommand {
    row_number: usize,
}

impl IncreaseLineCommand {
    /// The line that gains a cluster.
    pub closed spec fn row(&self) -> int {
        self.row_number as int
    }

    /// The addition of one grapheme cluster to line `row_number`.
    pub closed spec fn spec_new(row_number: usize) -> Self {
        Self { row_number }
    }

    /// The addition of one grapheme cluster to line `row_number`.
    pub fn new(row_number: usize) -> (command: Self)
        ensures
            command == Self::spec_new(row_number),
            command.row() == row_number,
    {
        Self { row_number }
    }
}

impl LineWidthsCommand for IncreaseLineCommand {
    open spec fn applied(&self, widths: Seq<usize>) -> Seq<usize> {
        widths_increased(widths, self.row(), 1)
    }

    open spec fn reverted(&self, widths: Seq<usize>) -> Seq<usize> {
        widths_decreased(widths, self.row(), 1)
    }

    fn execute(&self, line_widths: &mut GapBuffer) {
        line_widths.increase(self.row_number);
    }

    fn undo(&self, line_widths: &mut GapBuffer) {
        line_widths.decrease(self.row_number);
    }
}

/// The break of a line at a column before its end: what stands from the
/// column on moves to a new line below.
pub struct JumpToNewLineWithContentCommand {
    current_line_length: usize,
    row_number: usize,
    column_number: usize,
}

impl JumpToNewLineWithContentCommand {
    /// The line that is broken.
    pub closed spec fn row(&self) -> int {
        self.row_number as int
    }

    /// The number of grapheme clusters that move to the new line: the
    /// width of the line less the column, and not below 0.
    pub closed spec fn moved(&self) -> usize {
        if self.current_line_length >= self.column_number {
            (self.current_line_length - self.column_number) as usize
        } else {
            0
        }
    }

    /// The break of line `row_number`, of width `current_line_length`, at
    /// column `column_number`.
    pub closed spec fn spec_new(
        current_line_length: usize,
        row_number: usize,
        column_number: usize,
    ) -> Self {
        Self { current_line_length, row_number, column_number }
    }

    /// The break of line `row_number`, of width `current_line_length`, at
    /// column `column_number`.
    pub fn new(current_line_length: usize, row_number: usize, column_number: usize) -> (command:
        Self)
        ensures
            command == Self::spec_new(current_line_length, row_number, column_number),
            command.row() == row_number,
            command.moved() == if current_line_length >= column_number {
                (current_line_length - column_number) as usize
            } else {
                0
            },
    {
        Self { current_line_length, row_number, column_number }
    }
}

impl LineWidthsCommand for JumpToNewLineWithContentCommand {
    /// A line of the width that moves is put in below the line, and that
    /// width is taken off the line. Nothing changes where the number of
    /// the line below does not fit a `usize`.
    open spec fn applied(&self, widths: Seq<usize>) -> Seq<usize> {
        if self.row() < usize::MAX {
            widths_decreased(
                widths_added(widths, self.row() + 1, self.moved()),
                self.row(),
                self.moved() as int,
            )
        } else {
            widths
        }
    }

    open spec fn reverted(&self, widths: Seq<usize>) -> Seq<usize> {
        if self.row() < usize::MAX {
            widths_increased(
                widths_removed(widths, self.row() + 1),
                self.row(),
                self.moved() as int,
            )
        } else {
            widths
        }
    }

    fn execute(&self, lines_widths: &mut GapBuffer) {
        if self.row_number == usize::MAX {
            return ;
        }
        let moved: usize = self.current_line_length.saturating_sub(self.column_number);
        lines_widths.add_item_with_count(self.row_number + 1, moved);
        lines_widths.decrease_with_count(self.row_number, moved);
    }

    fn undo(&self, lines_widths: &mut GapBuffer) {
        if self.row_number == usize::MAX {
            return ;
        }
        let moved: usize = self.current_line_length.saturating_sub(self.column_number);
        lines_widths.remove_item(self.row_number + 1);
        lines_widths.increase_with_count(self.row_number, moved);
    }
}

/// The break of a line at its end: an empty line is put in below it.
pub struct JumpToNewLineWithoutContentCommand {
    row_number: usize,
}

impl JumpToNewLineWithoutContentCommand {
    /// The line below which the empty line is put in.
    pub closed spec fn row(&self) -> int {
        self.row_number as int
    }

    /// The break of line `row_number` at its end.
    pub closed spec fn spec_new(row_number: usize) -> Self {
        Self { row_number }
    }

    /// The break of line `row_number` at its end.
    pub fn new(row_number: usize) -> (command: Self)
        ensures
            command == Self::spec_new(row_number),
            command.row() == row_number,
    {
        Self { row_number }
    }
}

impl LineWidthsCommand for JumpToNewLineWithoutContentCommand {
    /// Nothing changes where the number of the line below does not fit a
    /// `usize`.
    open spec fn applied(&self, widths: Seq<usize>) -> Seq<usize> {
        if self.row() < usize::MAX {
            widths_added(widths, self.row() + 1, 0)
        } else {
            widths
        }
    }

    open spec fn reverted(&self, widths: Seq<usize>) -> Seq<usize> {
        if self.row() < usize::MAX {
            widths_removed(widths, self.row() + 1)
        } else {
            widths
        }
    }

    fn execute(&self, lines_widths: &mut GapBuffer) {
        if self.row_number == usize::MAX {
            return ;
        }
        lines_widths.add_item(self.row_number + 1);
    }

    fn undo(&self, lines_widths: &mut GapBuffer) {
        if self.row_number == usize::MAX {
            return ;
        }
        lines_widths.remove_item(self.row_number + 1);
    }
}

/// The addition of a number of grapheme clusters to a line.
pub struct PasteCommand {
    row_number: usize,
    length_pasted: usize,
}

impl PasteCommand {
    /// The line that gains the clusters.
    pub closed spec fn row(&self) -> int {
        self.row_number as int
    }

    /// The number of clusters that it gains.
    pub closed spec fn length(&self) -> int {
        self.length_pasted as int
    }

    /// The addition of `length_pasted` grapheme clusters to line
    /// `row_number`.
    pub closed spec fn spec_new(row_number: usize, length_pasted: usize) -> Self {
        Self { row_number, length_pasted }
    }

    /// The addition of `length_pasted` grapheme clusters to line
    /// `row_number`.
    pub fn new(row_number: usize, length_pasted: usize) -> (command: Self)
        ensures
            command == Self::spec_new(row_number, length_pasted),
            command.row() == row_number,
            command.length() == length_pasted,
    {
        Self { row_number, length_pasted }
    }
}

impl LineWidthsCommand for PasteCommand {
    open spec fn applied(&self, widths: Seq<usize>) -> Seq<usize> {
        widths_increased(widths, self.row(), self.length())
    }

    open spec fn reverted(&self, widths: Seq<usize>) -> Seq<usize> {
        widths_decreased(widths, self.row(), self.length())
    }

    fn execute(&self, line_widths: &mut GapBuffer) {
        line_widths.increase_with_count(self.row_number, self.length_pasted);
    }

    fn undo(&self, line_widths: &mut GapBuffer) {
        line_widths.decrease_with_count(self.row_number, self.length_pasted);
    }
}

/// Undoing the merge of a line into the line above gives the widths back,
/// where there is such a line below the first, the command records its
/// width, and the sum of the widths has room for the line once more.
pub proof fn lemma_line_merge_top_undo(command: LineMergeTopCommand, widths: Seq<usize>)
    requires
        1 <= command.row() < widths.len(),
        command.length() == widths[command.row()],
        total_width(widths) + widths[command.row()] <= usize::MAX,
    ensures
        command.reverted(command.applied(widths)) == widths,
{
    let row = command.row();
    let taken = widths_removed(widths, row);
    lemma_total_width_remove(widths, row);
    lemma_total_width_bound(taken, row - 1);
    let merged = widths_increased(taken, row - 1, widths[row] as int);
    lemma_total_width_update(taken, row - 1, (taken[row - 1] + widths[row]) as usize);
    lemma_total_width_insert(merged, row, command.length());
    assert(command.reverted(merged) =~= widths);
}

/// Undoing the removal of a cluster from a line gives the widths back,
/// where the line had a cluster to lose or there is no such line.
pub proof fn lemma_decrease_line_undo(command: DecreaseLineCommand, widths: Seq<usize>)
    requires
        total_width(widths) <= usize::MAX,
        0 <= command.row() < widths.len() ==> widths[command.row()] >= 1,
    ensures
        command.reverted(command.applied(widths)) == widths,
{
    let row = command.row();
    if 0 <= row < widths.len() {
        lemma_total_width_update(widths, row, (widths[row] - 1) as usize);
        assert(command.reverted(command.applied(widths)) =~= widths);
    }
}

/// Undoing the addition of a cluster to a line gives the widths back,
/// where the sum of the widths had room for one more or there is no such
/// line.
pub proof fn lemma_increase_line_undo(command: IncreaseLineCommand, widths: Seq<usize>)
    requires
        0 <= command.row() < widths.len() ==> total_width(widths) + 1 <= usize::MAX,
    ensures
        command.reverted(command.applied(widths)) == widths,
{
    let row = command.row();
    if 0 <= row < widths.len() {
        lemma_total_width_bound(widths, row);
        assert(command.reverted(command.applied(widths)) =~= widths);
    }
}

/// Undoing the break of a line before its end gives the widths back,
/// where there is such a line, it is at least as wide as what moves, and
/// the sum of the widths has room for the new line.
pub proof fn lemma_jump_with_content_undo(
    command: JumpToNewLineWithContentCommand,
    widths: Seq<usize>,
)
    requires
        0 <= command.row() < widths.len(),
        widths.len() < usize::MAX,
        command.moved() <= widths[command.row()],
        total_width(widths) + command.moved() <= usize::MAX,
    ensures
        command.reverted(command.applied(widths)) == widths,
{
    let row = command.row();
    let moved = command.moved();
    let added = widths_added(widths, row + 1, moved);
    lemma_total_width_insert(widths, row + 1, moved);
    let lowered = widths_decreased(added, row, moved as int);
    lemma_total_width_update(added, row, (added[row] - moved) as usize);
    lemma_total_width_remove(lowered, row + 1);
    assert(command.reverted(lowered) =~= widths);
}

/// Undoing the break of a line at its end gives the widths back.
pub proof fn lemma_jump_without_content_undo(
    command: JumpToNewLineWithoutContentCommand,
    widths: Seq<usize>,
)
    requires
        total_width(widths) <= usize::MAX,
        0 <= command.row(),
    ensures
        command.reverted(command.applied(widths)) == widths,
{
    let row = command.row();
    if row < usize::MAX && row + 1 <= widths.len() {
        assert(widths.insert(row + 1, 0).remove(row + 1) =~= widths);
    }
}

/// Undoing the addition of clusters to a line gives the widths back,
/// where the sum of the widths had room for them or there is no such
/// line.
pub proof fn lemma_paste_undo(command: PasteCommand, widths: Seq<usize>)
    requires
        0 <= command.length(),
        0 <= command.row() < widths.len() ==> total_width(widths) + command.length() <= usize::MAX,
    ensures
        command.reverted(command.applied(widths)) == widths,
{
    let row = command.row();
    if 0 <= row < widths.len() {
        lemma_total_width_bound(widths, row);
        assert(command.reverted(command.applied(widths)) =~= widths);
    }
}

/// What a command on the display lines works on: the lines, and the text
/// that they show.
pub struct LineCommandContext<'a, T: TextRepresentation> {
    pub text_editor_lines: &'a mut LinesGapBuffer,
    pub text_representation: &'a T,
}

impl<'a, T: TextRepresentation> LineCommandContext<'a, T> {
    /// The context of the given lines and text.
    pub fn new(text_editor_lines: &'a mut LinesGapBuffer, text_representation: &'a T) -> (context:
        Self)
        ensures
            *context.text_editor_lines == *old(text_editor_lines),
            *final(context.text_editor_lines) == *final(text_editor_lines),
            context.text_representation == text_representation,
    {
        Self { text_editor_lines, text_representation }
    }
}

/// A reversible edit of the display lines.
pub trait TextEditorLineCommand {
    /// The lines after the command is executed on `lines`, which show
    /// the text `document`.
    spec fn applied(&self, lines: Seq<LineModel>, document: Seq<Seq<char>>) -> Seq<LineModel>;

    /// The lines after the command is undone on `lines`, which show the
    /// text `document`.
    spec fn reverted(&self, lines: Seq<LineModel>, document: Seq<Seq<char>>) -> Seq<LineModel>;

    /// Executes the command on the lines of the context.
    fn execute<T: TextRepresentation>(&self, line_command_ctx: LineCommandContext<'_, T>)
        requires
            old(line_command_ctx.text_editor_lines).well_formed(),
            line_command_ctx.text_representation.valid(),
        ensures
            final(line_command_ctx.text_editor_lines).well_formed(),
            final(line_command_ctx.text_editor_lines)@ == self.applied(
                old(line_command_ctx.text_editor_lines)@,
                line_command_ctx.text_representation.content(),
            ),
    ;

    /// Undoes the command on the lines of the context.
    fn undo<T: TextRepresentation>(&self, line_command_ctx: LineCommandContext<'_, T>)
        requires
            old(line_command_ctx.text_editor_lines).well_formed(),
            line_command_ctx.text_representation.valid(),
        ensures
            final(line_command_ctx.text_editor_lines).well_formed(),
            final(line_command_ctx.text_editor_lines)@ == self.reverted(
                old(line_command_ctx.text_editor_lines)@,
                line_command_ctx.text_representation.content(),
            ),
    ;
}

/// The addition of an empty line.
pub struct AddLineCommand {
    index: usize,
}

impl AddLineCommand {
    /// The line before which the empty line is put in.
    pub closed spec fn place(&self) -> int {
        self.index as int
    }

    /// The addition of an empty line before line `index`.
    pub fn new(index: usize) -> (command: Self)
        ensures
            command.place() == index,
    {
        Self { index }
    }
}

impl TextEditorLineCommand for AddLineCommand {
    open spec fn applied(&self, lines: Seq<LineModel>, document: Seq<Seq<char>>) -> Seq<LineModel> {
        lines_added(lines, self.place(), empty_line())
    }

    open spec fn reverted(&self, lines: Seq<LineModel>, document: Seq<Seq<char>>) -> Seq<
        LineModel,
    > {
        lines_removed(lines, self.place())
    }

    fn execute<T: TextRepresentation>(&self, line_command_ctx: LineCommandContext<'_, T>) {
        line_command_ctx.text_editor_lines.add_item(self.index);
    }

    fn undo<T: TextRepresentation>(&self, line_command_ctx: LineCommandContext<'_, T>) {
        line_command_ctx.text_editor_lines.remove_item(self.index);
    }
}

/// The removal of a line. Undoing it puts an empty line in its place.
pub struct RemoveLineCommand {
    index: usize,
}

impl RemoveLineCommand {
    /// The line that is taken out.
    pub closed spec fn place(&self) -> int {
        self.index as int
    }

    /// The removal of line `index`.
    pub fn new(index: usize) -> (command: Self)
        ensures
            command.place() == index,
    {
        Self { index }
    }
}

impl TextEditorLineCommand for RemoveLineCommand {
    open spec fn applied(&self, lines: Seq<LineModel>, document: Seq<Seq<char>>) -> Seq<LineModel> {
        lines_removed(lines, self.place())
    }

    open spec fn reverted(&self, lines: Seq<LineModel>, document: Seq<Seq<char>>) -> Seq<
        LineModel,
    > {
        lines_added(lines, self.place(), empty_line())
    }

    fn execute<T: TextRepresentation>(&self, line_command_ctx: LineCommandContext<'_, T>) {
        line_command_ctx.text_editor_lines.remove_item(self.index);
    }

    fn undo<T: TextRepresentation>(&self, line_command_ctx: LineCommandContext<'_, T>) {
        line_command_ctx.text_editor_lines.add_item(self.index);
    }
}

/// The cut of a line in two. Undoing it merges the line that was cut off
/// back into the line.
pub struct SplitLineCommand {
    index: usize,
    cut_position: usize,
}

impl SplitLineCommand {
    /// The line that is cut.
    pub closed spec fn place(&self) -> int {
        self.index as int
    }

    /// The grapheme cluster before which it is cut.
    pub closed spec fn cut(&self) -> int {
        self.cut_position as int
    }

    /// The cut of line `index` before grapheme cluster `cut_position`.
    pub fn new(index: usize, cut_position: usize) -> (command: Self)
        ensures
            command.place() == index,
            command.cut() == cut_position,
    {
        Self { index, cut_position }
    }
}

impl TextEditorLineCommand for SplitLineCommand {
    open spec fn applied(&self, lines: Seq<LineModel>, document: Seq<Seq<char>>) -> Seq<LineModel> {
        lines_split(lines, self.place(), self.cut())
    }

    /// Nothing changes where the number of the line that was cut off
    /// does not fit a `usize`.
    open spec fn reverted(&self, lines: Seq<LineModel>, document: Seq<Seq<char>>) -> Seq<
        LineModel,
    > {
        if self.place() < usize::MAX {
            lines_merged(lines, self.place() + 1)
        } else {
            lines
        }
    }

    fn execute<T: TextRepresentation>(&self, line_command_ctx: LineCommandContext<'_, T>) {
        line_command_ctx.text_editor_lines.split_a_line(self.index, self.cut_position);
    }

    fn undo<T: TextRepresentation>(&self, line_command_ctx: LineCommandContext<'_, T>) {
        if self.index == usize::MAX {
            return ;
        }
        line_command_ctx.text_editor_lines.merge_two_lines(self.index + 1);
    }
}

/// The merge of a line into the line before it. Undoing it cuts line
/// `index` before the grapheme cluster that the command records.
pub struct MergeLineCommand {
    index: usize,
    content_merged_len: usize,
}

impl MergeLineCommand {
    /// The line that is merged into the line before it.
    pub closed spec fn place(&self) -> int {
        self.index as int
    }

    /// The grapheme cluster before which the undoing cuts.
    pub closed spec fn cut(&self) -> int {
        self.content_merged_len as int
    }

    /// The merge of line `index` into the line before it, to be undone
    /// by a cut before grapheme cluster `content_merged_len`.
    pub fn new(index: usize, content_merged_len: usize) -> (command: Self)
        ensures
            command.place() == index,
            command.cut() == content_merged_len,
    {
        Self { index, content_merged_len }
    }
}

impl TextEditorLineCommand for MergeLineCommand {
    open spec fn applied(&self, lines: Seq<LineModel>, document: Seq<Seq<char>>) -> Seq<LineModel> {
        lines_merged(lines, self.place())
    }

    open spec fn reverted(&self, lines: Seq<LineModel>, document: Seq<Seq<char>>) -> Seq<
        LineModel,
    > {
        lines_split(lines, self.place(), self.cut())
    }

    fn execute<T: TextRepresentation>(&self, line_command_ctx: LineCommandContext<'_, T>) {
        line_command_ctx.text_editor_lines.merge_two_lines(self.index);
    }

    fn undo<T: TextRepresentation>(&self, line_command_ctx: LineCommandContext<'_, T>) {
        line_command_ctx.text_editor_lines.split_a_line(self.index, self.content_merged_len);
    }
}

/// The end of a range of grapheme clusters that grows by `count`, as far
/// as a `usize` reaches.
pub open spec fn grown(end: usize, count: usize) -> int {
    if end + count <= usize::MAX {
        end + count
    } else {
        usize::MAX as int
    }
}

/// The end of a range of grapheme clusters that shrinks by `count`, and
/// not below 0.
pub open spec fn shrunk(end: usize, count: usize) -> int {
    if end >= count {
        end - count
    } else {
        0
    }
}

/// The growth of a line by text put into the document: the line takes
/// on the text of the range that it showed, made longer by what was put
/// in. Undoing it gives the line the text of the range that it showed.
pub struct InsertIntoLineCommand {
    index: usize,
    initial_offsets: (usize, usize),
    content_len_added: usize,
}

impl InsertIntoLineCommand {
    /// The line that grows.
    pub closed spec fn place(&self) -> int {
        self.index as int
    }

    /// The range of grapheme clusters that the line showed.
    pub closed spec fn offsets(&self) -> (usize, usize) {
        self.initial_offsets
    }

    /// The number of grapheme clusters put in.
    pub closed spec fn added(&self) -> usize {
        self.content_len_added
    }

    /// The growth of line `index`, which showed the grapheme clusters
    /// `initial_offsets`, by `content_len_added` clusters.
    pub fn new(index: usize, content_len_added: usize, initial_offsets: (usize, usize)) -> (command:
        Self)
        ensures
            command.place() == index,
            command.offsets() == initial_offsets,
            command.added() == content_len_added,
    {
        Self { index, content_len_added, initial_offsets }
    }
}

impl TextEditorLineCommand for InsertIntoLineCommand {
    open spec fn applied(&self, lines: Seq<LineModel>, document: Seq<Seq<char>>) -> Seq<LineModel> {
        lines_changed(
            lines,
            self.place(),
            extracted(
                document,
                self.offsets().0 as int,
                grown(self.offsets().1, self.added()),
            ).flatten(),
        )
    }

    open spec fn reverted(&self, lines: Seq<LineModel>, document: Seq<Seq<char>>) -> Seq<
        LineModel,
    > {
        lines_changed(
            lines,
            self.place(),
            extracted(document, self.offsets().0 as int, self.offsets().1 as int).flatten(),
        )
    }

    fn execute<T: TextRepresentation>(&self, line_command_ctx: LineCommandContext<'_, T>) {
        line_command_ctx.text_editor_lines.change_line(
            self.index,
            (self.initial_offsets.0, self.initial_offsets.1.saturating_add(self.content_len_added)),
            line_command_ctx.text_representation,
        );
    }

    fn undo<T: TextRepresentation>(&self, line_command_ctx: LineCommandContext<'_, T>) {
        line_command_ctx.text_editor_lines.change_line(
            self.index,
            self.initial_offsets,
            line_command_ctx.text_representation,
        );
    }
}

/// The shrinking of a line by text taken out of the document: the line
/// takes on the text of the range that it showed, made shorter by what
/// was taken out. Undoing it gives the line the text of the range that
/// it showed.
pub struct RemoveFromLineCommand {
    index: usize,
    initial_offsets: (usize, usize),
    content_len_removed: usize,
}

impl RemoveFromLineCommand {
    /// The line that shrinks.
    pub closed spec fn place(&self) -> int {
        self.index as int
    }

    /// The range of grapheme clusters that the line showed.
    pub closed spec fn offsets(&self) -> (usize, usize) {
        self.initial_offsets
    }

    /// The number of grapheme clusters taken out.
    pub closed spec fn taken(&self) -> usize {
        self.content_len_removed
    }

    /// The shrinking of line `index`, which showed the grapheme clusters
    /// `initial_offsets`, by `content_len_removed` clusters.
    pub fn new(
        index: usize,
        content_len_removed: usize,
        initial_offsets: (usize, usize),
    ) -> (command: Self)
        ensures
            command.place() == index,
            command.offsets() == initial_offsets,
            command.taken() == content_len_removed,
    {
        Self { index, content_len_removed, initial_offsets }
    }
}

impl TextEditorLineCommand for RemoveFromLineCommand {
    open spec fn applied(&self, lines: Seq<LineModel>, document: Seq<Seq<char>>) -> Seq<LineModel> {
        lines_changed(
            lines,
            self.place(),
            extracted(
                document,
                self.offsets().0 as int,
                shrunk(self.offsets().1, self.taken()),
            ).flatten(),
        )
    }

    open spec fn reverted(&self, lines: Seq<LineModel>, document: Seq<Seq<char>>) -> Seq<
        LineModel,
    > {
        lines_changed(
            lines,
            self.place(),
            extracted(document, self.offsets().0 as int, self.offsets().1 as int).flatten(),
        )
    }

    fn execute<T: TextRepresentation>(&self, line_command_ctx: LineCommandContext<'_, T>) {
        line_command_ctx.text_editor_lines.change_line(
            self.index,
            (
                self.initial_offsets.0,
                self.initial_offsets.1.saturating_sub(self.content_len_removed),
            ),
            line_command_ctx.text_representation,
        );
    }

    fn undo<T: TextRepresentation>(&self, line_command_ctx: LineCommandContext<'_, T>) {
        line_command_ctx.text_editor_lines.change_line(
            self.index,
            self.initial_offsets,
            line_command_ctx.text_representation,
        );
    }
}

} // verus!
