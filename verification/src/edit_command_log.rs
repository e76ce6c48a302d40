//! The history of edits: the text with its stacks of commands to undo and
//! to redo, and the log that edits the text and the widths of the lines
//! together.

use crate::command::{
    lemma_decrease_line_undo, lemma_delete_command_undo, lemma_increase_line_undo,
    lemma_insert_command_undo, lemma_jump_with_content_undo, lemma_jump_without_content_undo,
    lemma_line_merge_top_undo, lemma_paste_undo, Command, DecreaseLineCommand, DeleteCommand,
    IncreaseLineCommand, InsertCommand, JumpToNewLineWithContentCommand,
    JumpToNewLineWithoutContentCommand, LineMergeTopCommand, LineWidthsCommand, PasteCommand,
};
use crate::gap_buffer::{locate, total_width, GapBuffer};
use crate::graphemes::segments;
use crate::lines::line_widths;
use crate::rope::{collect_string, extracted, from_text, index, inserted, removed, sub_str, Node};
use crate::text_representation::{cursor_after_delete, insertion_place, TextRepresentation};
use vstd::prelude::*;

verus! {

/// An edit of the text: an insertion or a deletion.
pub enum ContentCommand {
    Insert(InsertCommand),
    Delete(DeleteCommand),
}

impl Command for ContentCommand {
    open spec fn well_formed(&self) -> bool {
        match self {
            ContentCommand::Insert(command) => command.well_formed(),
            ContentCommand::Delete(command) => command.well_formed(),
        }
    }

    open spec fn applied(&self, document: Seq<Seq<char>>) -> Seq<Seq<char>> {
        match self {
            ContentCommand::Insert(command) => command.applied(document),
            ContentCommand::Delete(command) => command.applied(document),
        }
    }

    open spec fn executed_on(&self, after: &Self, document: Seq<Seq<char>>) -> bool {
        match (self, after) {
            (ContentCommand::Insert(command), ContentCommand::Insert(same)) => command.executed_on(
                same,
                document,
            ),
            (ContentCommand::Delete(command), ContentCommand::Delete(same)) => command.executed_on(
                same,
                document,
            ),
            _ => false,
        }
    }

    open spec fn reverted(&self, document: Seq<Seq<char>>) -> Seq<Seq<char>> {
        match self {
            ContentCommand::Insert(command) => command.reverted(document),
            ContentCommand::Delete(command) => command.reverted(document),
        }
    }

    open spec fn cursor_after(&self, document: Seq<Seq<char>>) -> int {
        match self {
            ContentCommand::Insert(command) => command.cursor_after(document),
            ContentCommand::Delete(command) => command.cursor_after(document),
        }
    }

    open spec fn cursor_before(&self) -> int {
        match self {
            ContentCommand::Insert(command) => command.cursor_before(),
            ContentCommand::Delete(command) => command.cursor_before(),
        }
    }

    fn execute(&mut self, rope: Box<Node>) -> (outcome: (Box<Node>, usize)) {
        match self {
            ContentCommand::Insert(command) => command.execute(rope),
            ContentCommand::Delete(command) => command.execute(rope),
        }
    }

    fn undo(&self, rope: Box<Node>) -> (outcome: (Box<Node>, usize)) {
        match self {
            ContentCommand::Insert(command) => command.undo(rope),
            ContentCommand::Delete(command) => command.undo(rope),
        }
    }
}

/// Undoing an edit of the text gives the document back on which it was
/// executed, where the document had room for what an insertion put in.
/// Executing the edit again after that gives the document that it gave
/// the first time.
pub proof fn lemma_content_command_undo(
    command: ContentCommand,
    after: ContentCommand,
    document: Seq<Seq<char>>,
)
    requires
        command.executed_on(&after, document),
        document.len() <= usize::MAX,
        command matches ContentCommand::Insert(insertion) ==> insertion.place() >= 0
            && document.len() + insertion.clusters().len() <= usize::MAX,
        command matches ContentCommand::Delete(deletion) ==> deletion.place() >= 0
            && deletion.count() >= 0,
    ensures
        after.reverted(command.applied(document)) == document,
        after.applied(after.reverted(command.applied(document))) == command.applied(document),
{
    match (command, after) {
        (ContentCommand::Insert(insertion), ContentCommand::Insert(same)) => {
            lemma_insert_command_undo(insertion, same, document);
        },
        (ContentCommand::Delete(deletion), ContentCommand::Delete(same)) => {
            lemma_delete_command_undo(deletion, same, document);
        },
        _ => {},
    }
}

/// An edit of the widths of the lines.
pub enum LineEdit {
    MergeTop(LineMergeTopCommand),
    Decrease(DecreaseLineCommand),
    Increase(IncreaseLineCommand),
    JumpWithContent(JumpToNewLineWithContentCommand),
    JumpWithoutContent(JumpToNewLineWithoutContentCommand),
    Paste(PasteCommand),
}

impl LineWidthsCommand for LineEdit {
    open spec fn applied(&self, widths: Seq<usize>) -> Seq<usize> {
        match self {
            LineEdit::MergeTop(command) => command.applied(widths),
            LineEdit::Decrease(command) => command.applied(widths),
            LineEdit::Increase(command) => command.applied(widths),
            LineEdit::JumpWithContent(command) => command.applied(widths),
            LineEdit::JumpWithoutContent(command) => command.applied(widths),
            LineEdit::Paste(command) => command.applied(widths),
        }
    }

    open spec fn reverted(&self, widths: Seq<usize>) -> Seq<usize> {
        match self {
            LineEdit::MergeTop(command) => command.reverted(widths),
            LineEdit::Decrease(command) => command.reverted(widths),
            LineEdit::Increase(command) => command.reverted(widths),
            LineEdit::JumpWithContent(command) => command.reverted(widths),
            LineEdit::JumpWithoutContent(command) => command.reverted(widths),
            LineEdit::Paste(command) => command.reverted(widths),
        }
    }

    fn execute(&self, line_widths: &mut GapBuffer) {
        match self {
            LineEdit::MergeTop(command) => command.execute(line_widths),
            LineEdit::Decrease(command) => command.execute(line_widths),
            LineEdit::Increase(command) => command.execute(line_widths),
            LineEdit::JumpWithContent(command) => command.execute(line_widths),
            LineEdit::JumpWithoutContent(command) => command.execute(line_widths),
            LineEdit::Paste(command) => command.execute(line_widths),
        }
    }

    fn undo(&self, line_widths: &mut GapBuffer) {
        match self {
            LineEdit::MergeTop(command) => command.undo(line_widths),
            LineEdit::Decrease(command) => command.undo(line_widths),
            LineEdit::Increase(command) => command.undo(line_widths),
            LineEdit::JumpWithContent(command) => command.undo(line_widths),
            LineEdit::JumpWithoutContent(command) => command.undo(line_widths),
            LineEdit::Paste(command) => command.undo(line_widths),
        }
    }
}

/// Whether undoing an edit of the widths gives back the widths on which
/// it was executed. A merge needs a line below the first whose width the
/// command records, and room for that width once more. The removal of a
/// cluster needs a line that is not empty, or no such line. An addition
/// of clusters needs room for them, or no such line. The break of a line
/// before its end needs the line, at least as wide as what moves, and
/// room for the new line.
pub open spec fn line_edit_reversible(edit: LineEdit, widths: Seq<usize>) -> bool {
    &&& total_width(widths) <= usize::MAX
    &&& widths.len() < usize::MAX
    &&& match edit {
        LineEdit::MergeTop(command) => {
            &&& 1 <= command.row() < widths.len()
            &&& command.length() == widths[command.row()]
            &&& total_width(widths) + widths[command.row()] <= usize::MAX
        },
        LineEdit::Decrease(command) => 0 <= command.row() < widths.len() ==> widths[command.row()]
            >= 1,
        LineEdit::Increase(command) => 0 <= command.row() < widths.len() ==> total_width(widths)
            + 1 <= usize::MAX,
        LineEdit::JumpWithContent(command) => {
            &&& 0 <= command.row() < widths.len()
            &&& command.moved() <= widths[command.row()]
            &&& total_width(widths) + command.moved() <= usize::MAX
        },
        LineEdit::JumpWithoutContent(command) => 0 <= command.row(),
        LineEdit::Paste(command) => {
            &&& 0 <= command.length()
            &&& 0 <= command.row() < widths.len() ==> total_width(widths) + command.length()
                <= usize::MAX
        },
    }
}

/// Undoing an edit of the widths gives back the widths on which it was
/// executed, where [`line_edit_reversible`] holds. Executing the edit
/// again after that gives the widths that it gave the first time.
pub proof fn lemma_line_edit_undo(edit: LineEdit, widths: Seq<usize>)
    requires
        line_edit_reversible(edit, widths),
    ensures
        edit.reverted(edit.applied(widths)) == widths,
        edit.applied(edit.reverted(edit.applied(widths))) == edit.applied(widths),
{
    match edit {
        LineEdit::MergeTop(command) => lemma_line_merge_top_undo(command, widths),
        LineEdit::Decrease(command) => lemma_decrease_line_undo(command, widths),
        LineEdit::Increase(command) => lemma_increase_line_undo(command, widths),
        LineEdit::JumpWithContent(command) => lemma_jump_with_content_undo(command, widths),
        LineEdit::JumpWithoutContent(command) => lemma_jump_without_content_undo(command, widths),
        LineEdit::Paste(command) => lemma_paste_undo(command, widths),
    }
}

/// Every command of the list is well formed.
pub open spec fn commands_well_formed(commands: Seq<ContentCommand>) -> bool {
    forall|i: int| 0 <= i < commands.len() ==> (#[trigger] commands[i]).well_formed()
}

/// The text of a document, kept in a rope, with the commands that were
/// executed on it and can be undone, and those that were undone and can
/// be executed again.
pub struct Rope {
    root: Box<Node>,
    undo_commands: Vec<ContentCommand>,
    redo_commands: Vec<ContentCommand>,
}

impl Rope {
    /// The commands that can be undone, the last executed at the end.
    pub closed spec fn undo_stack(&self) -> Seq<ContentCommand> {
        self.undo_commands@
    }

    /// The commands that can be executed again, the last undone at the
    /// end.
    pub closed spec fn redo_stack(&self) -> Seq<ContentCommand> {
        self.redo_commands@
    }

    /// The grapheme clusters of the document, in order.
    pub closed spec fn clusters(&self) -> Seq<Seq<char>> {
        self.root@
    }

    /// The invariant: the rope and the commands are well formed.
    pub closed spec fn well_formed(&self) -> bool {
        &&& self.root.well_formed()
        &&& commands_well_formed(self.undo_commands@)
        &&& commands_well_formed(self.redo_commands@)
    }

    /// The text `content`, segmented into grapheme clusters, with no
    /// command to undo or to execute again.
    pub fn new(content: String) -> (rope: Self)
        ensures
            rope.well_formed(),
            rope.clusters() == segments(content@),
            rope.clusters().flatten() == content@,
            rope.undo_stack().len() == 0,
            rope.redo_stack().len() == 0,
    {
        Rope { root: from_text(content), undo_commands: Vec::new(), redo_commands: Vec::new() }
    }

    /// The number of grapheme clusters in the document.
    pub fn len(&self) -> (length: usize)
        requires
            self.well_formed(),
        ensures
            length == self.clusters().len(),
    {
        self.root.len()
    }

    /// Grapheme cluster `at` of the document, or nothing where it has no
    /// such cluster.
    pub fn index(&self, at: usize) -> (grapheme: Option<&str>)
        requires
            self.well_formed(),
        ensures
            at < self.clusters().len() ==> (grapheme matches Some(cluster) && cluster@
                == self.clusters()[at as int]),
            at >= self.clusters().len() ==> grapheme is None,
    {
        index(&self.root, at)
    }

    /// Executes `command` on the text and keeps it to be undone. The
    /// commands that could be executed again are forgotten. Returns the
    /// cursor.
    pub fn execute(&mut self, command: ContentCommand) -> (cursor: usize)
        requires
            old(self).well_formed(),
            command.well_formed(),
        ensures
            final(self).well_formed(),
            final(self).clusters() == command.applied(old(self).clusters()),
            cursor == command.cursor_after(old(self).clusters()),
            final(self).undo_stack().len() == old(self).undo_stack().len() + 1,
            final(self).undo_stack().drop_last() == old(self).undo_stack(),
            command.executed_on(&final(self).undo_stack().last(), old(self).clusters()),
            final(self).redo_stack().len() == 0,
    {
        let mut command = command;
        let mut root: Box<Node> = Box::new(Node::empty());
        std::mem::swap(&mut self.root, &mut root);
        let (root, cursor) = command.execute(root);
        self.root = root;
        let ghost stack = self.undo_commands@;
        self.undo_commands.push(command);
        self.redo_commands = Vec::new();
        assert(self.undo_commands@.drop_last() =~= stack);
        cursor
    }
}

impl TextRepresentation for Rope {
    open spec fn content(&self) -> Seq<Seq<char>> {
        self.clusters()
    }

    open spec fn valid(&self) -> bool {
        self.well_formed()
    }

    /// The insertion is kept as the last command to be undone.
    fn insert(&mut self, content: String, index: usize) -> (cursor: usize)
        ensures
            final(self).undo_stack().len() == old(self).undo_stack().len() + 1,
            final(self).undo_stack().drop_last() == old(self).undo_stack(),
            final(self).undo_stack().last() matches ContentCommand::Insert(command)
                && command.clusters() == segments(content@) && command.place() == index,
            final(self).redo_stack().len() == 0,
    {
        self.execute(ContentCommand::Insert(InsertCommand::new(content, index)))
    }

    /// The deletion is kept as the last command to be undone, with the
    /// grapheme clusters that it took out.
    fn delete(&mut self, length_to_cut: usize, index: usize) -> (cursor: usize)
        ensures
            final(self).undo_stack().len() == old(self).undo_stack().len() + 1,
            final(self).undo_stack().drop_last() == old(self).undo_stack(),
            final(self).undo_stack().last() matches ContentCommand::Delete(command)
                && command.count() == length_to_cut && command.place() == index
                && command.captured() == if length_to_cut >= 1 {
                extracted(old(self).content(), index as int, index + length_to_cut - 1)
            } else {
                Seq::<Seq<char>>::empty()
            },
            final(self).redo_stack().len() == 0,
    {
        self.execute(ContentCommand::Delete(DeleteCommand::new(length_to_cut, index)))
    }

    /// The last command executed is undone and kept to be executed
    /// again.
    fn undo(&mut self) -> (cursor: Option<usize>)
        ensures
            old(self).undo_stack().len() == 0 ==> {
                &&& cursor is None
                &&& final(self).undo_stack() == old(self).undo_stack()
                &&& final(self).redo_stack() == old(self).redo_stack()
            },
            old(self).undo_stack().len() > 0 ==> {
                &&& cursor == Some(old(self).undo_stack().last().cursor_before() as usize)
                &&& final(self).content() == old(self).undo_stack().last().reverted(
                    old(self).content(),
                )
                &&& final(self).undo_stack() == old(self).undo_stack().drop_last()
                &&& final(self).redo_stack() == old(self).redo_stack().push(
                    old(self).undo_stack().last(),
                )
            },
    {
        match self.undo_commands.pop() {
            Some(command) => {
                let mut root: Box<Node> = Box::new(Node::empty());
                std::mem::swap(&mut self.root, &mut root);
                let (root, cursor) = command.undo(root);
                self.root = root;
                self.redo_commands.push(command);
                Some(cursor)
            },
            None => None,
        }
    }

    /// The last command undone is executed again and kept to be undone.
    fn redo(&mut self) -> (cursor: Option<usize>)
        ensures
            old(self).redo_stack().len() == 0 ==> {
                &&& cursor is None
                &&& final(self).undo_stack() == old(self).undo_stack()
                &&& final(self).redo_stack() == old(self).redo_stack()
            },
            old(self).redo_stack().len() > 0 ==> {
                &&& cursor == Some(
                    old(self).redo_stack().last().cursor_after(old(self).content()) as usize,
                )
                &&& final(self).content() == old(self).redo_stack().last().applied(
                    old(self).content(),
                )
                &&& final(self).redo_stack() == old(self).redo_stack().drop_last()
                &&& final(self).undo_stack().len() == old(self).undo_stack().len() + 1
                &&& final(self).undo_stack().drop_last() == old(self).undo_stack()
                &&& old(self).redo_stack().last().executed_on(
                    &final(self).undo_stack().last(),
                    old(self).content(),
                )
            },
    {
        match self.redo_commands.pop() {
            Some(command) => {
                let mut command = command;
                let mut root: Box<Node> = Box::new(Node::empty());
                std::mem::swap(&mut self.root, &mut root);
                let (root, cursor) = command.execute(root);
                self.root = root;
                let ghost stack = self.undo_commands@;
                self.undo_commands.push(command);
                assert(self.undo_commands@.drop_last() =~= stack);
                Some(cursor)
            },
            None => None,
        }
    }

    fn collect_string(&self, text: &mut String) {
        collect_string(&self.root, text);
    }

    fn collect_substring(&self, text: &mut String, bounds: (usize, usize)) {
        sub_str(&self.root, bounds.0, bounds.1, text);
    }
}

/// The log of the edits of a document: its text, the widths of its
/// lines, and for each the commands to undo and to execute again. An
/// edit is a command on the text together with a command on the widths.
pub struct EditCommandLog {
    text: Rope,
    lines_widths: GapBuffer,
    undo_line_commands: Vec<LineEdit>,
    redo_line_commands: Vec<LineEdit>,
}

impl EditCommandLog {
    /// The grapheme clusters of the document, in order.
    pub closed spec fn content(&self) -> Seq<Seq<char>> {
        self.text.clusters()
    }

    /// The widths of the lines of the document, in order.
    pub closed spec fn widths(&self) -> Seq<usize> {
        self.lines_widths@
    }

    /// The commands on the text that can be undone.
    pub closed spec fn undo_stack(&self) -> Seq<ContentCommand> {
        self.text.undo_stack()
    }

    /// The commands on the text that can be executed again.
    pub closed spec fn redo_stack(&self) -> Seq<ContentCommand> {
        self.text.redo_stack()
    }

    /// The commands on the widths that can be undone.
    pub closed spec fn undo_line_stack(&self) -> Seq<LineEdit> {
        self.undo_line_commands@
    }

    /// The commands on the widths that can be executed again.
    pub closed spec fn redo_line_stack(&self) -> Seq<LineEdit> {
        self.redo_line_commands@
    }

    /// The invariant: the text and the widths are well formed, and the
    /// commands on the text and those on the widths go in pairs.
    pub closed spec fn well_formed(&self) -> bool {
        &&& self.text.well_formed()
        &&& self.lines_widths.well_formed()
        &&& self.undo_line_commands@.len() == self.text.undo_stack().len()
        &&& self.redo_line_commands@.len() == self.text.redo_stack().len()
    }

    /// The log of a document with the text `content`, with nothing to
    /// undo.
    pub fn new(content: String) -> (log: Self)
        ensures
            log.well_formed(),
            log.content() == segments(content@),
            log.content().flatten() == content@,
            log.widths() == line_widths(content@),
            log.undo_stack().len() == 0,
            log.redo_stack().len() == 0,
    {
        let lines_widths = GapBuffer::new(content.as_str());
        EditCommandLog {
            text: Rope::new(content),
            lines_widths,
            undo_line_commands: Vec::new(),
            redo_line_commands: Vec::new(),
        }
    }

    /// Executes an edit: `command` on the text and `line_command` on the
    /// widths of the lines. Both are kept to be undone, and what could be
    /// executed again is forgotten. Returns the cursor.
    pub fn execute(&mut self, command: ContentCommand, line_command: LineEdit) -> (cursor: usize)
        requires
            old(self).well_formed(),
            command.well_formed(),
        ensures
            final(self).well_formed(),
            final(self).content() == command.applied(old(self).content()),
            final(self).widths() == line_command.applied(old(self).widths()),
            cursor == command.cursor_after(old(self).content()),
            final(self).undo_stack().len() == old(self).undo_stack().len() + 1,
            final(self).undo_stack().drop_last() == old(self).undo_stack(),
            command.executed_on(&final(self).undo_stack().last(), old(self).content()),
            final(self).undo_line_stack() == old(self).undo_line_stack().push(line_command),
            final(self).redo_stack().len() == 0,
            final(self).redo_line_stack().len() == 0,
    {
        let cursor: usize = self.text.execute(command);
        line_command.execute(&mut self.lines_widths);
        self.undo_line_commands.push(line_command);
        self.redo_line_commands = Vec::new();
        cursor
    }

    /// Undoes the last edit: its command on the text and its command on
    /// the widths of the lines, and keeps both to be executed again.
    /// Returns the cursor to restore, or nothing where there is no edit
    /// to undo.
    pub fn undo(&mut self) -> (cursor: Option<usize>)
        requires
            old(self).well_formed(),
        ensures
            final(self).well_formed(),
            old(self).undo_stack().len() == 0 ==> {
                &&& cursor is None
                &&& final(self).content() == old(self).content()
                &&& final(self).widths() == old(self).widths()
            },
            old(self).undo_stack().len() > 0 ==> {
                &&& cursor == Some(old(self).undo_stack().last().cursor_before() as usize)
                &&& final(self).content() == old(self).undo_stack().last().reverted(
                    old(self).content(),
                )
                &&& final(self).widths() == old(self).undo_line_stack().last().reverted(
                    old(self).widths(),
                )
                &&& final(self).undo_stack() == old(self).undo_stack().drop_last()
                &&& final(self).undo_line_stack() == old(self).undo_line_stack().drop_last()
                &&& final(self).redo_stack() == old(self).redo_stack().push(
                    old(self).undo_stack().last(),
                )
                &&& final(self).redo_line_stack() == old(self).redo_line_stack().push(
                    old(self).undo_line_stack().last(),
                )
            },
    {
        let cursor: Option<usize> = self.text.undo();
        match self.undo_line_commands.pop() {
            Some(last_line_command) => {
                last_line_command.undo(&mut self.lines_widths);
                self.redo_line_commands.push(last_line_command);
            },
            None => {},
        }
        cursor
    }

    /// Executes the last undone edit again and keeps it to be undone.
    /// Returns the cursor to restore, or nothing where there is no such
    /// edit.
    pub fn redo(&mut self) -> (cursor: Option<usize>)
        requires
            old(self).well_formed(),
        ensures
            final(self).well_formed(),
            old(self).redo_stack().len() == 0 ==> {
                &&& cursor is None
                &&& final(self).content() == old(self).content()
                &&& final(self).widths() == old(self).widths()
            },
            old(self).redo_stack().len() > 0 ==> {
                &&& cursor == Some(
                    old(self).redo_stack().last().cursor_after(old(self).content()) as usize,
                )
                &&& final(self).content() == old(self).redo_stack().last().applied(
                    old(self).content(),
                )
                &&& final(self).widths() == old(self).redo_line_stack().last().applied(
                    old(self).widths(),
                )
                &&& final(self).redo_stack() == old(self).redo_stack().drop_last()
                &&& final(self).redo_line_stack() == old(self).redo_line_stack().drop_last()
                &&& final(self).undo_line_stack() == old(self).undo_line_stack().push(
                    old(self).redo_line_stack().last(),
                )
            },
    {
        let cursor: Option<usize> = self.text.redo();
        match self.redo_line_commands.pop() {
            Some(last_line_command) => {
                last_line_command.execute(&mut self.lines_widths);
                self.undo_line_commands.push(last_line_command);
            },
            None => {},
        }
        cursor
    }

    /// Appends the text of the document to `text`.
    pub fn collect_string(&self, text: &mut String)
        requires
            self.well_formed(),
        ensures
            final(text)@ == old(text)@ + self.content().flatten(),
    {
        self.text.collect_string(text);
    }

    /// Appends the text of the grapheme clusters `bounds.0..=bounds.1` to
    /// `text`.
    pub fn collect_substring(&self, text: &mut String, bounds: (usize, usize))
        requires
            self.well_formed(),
        ensures
            final(text)@ == old(text)@ + extracted(
                self.content(),
                bounds.0 as int,
                bounds.1 as int,
            ).flatten(),
    {
        self.text.collect_substring(text, bounds);
    }

    /// The width of line `row`, or nothing where there is no such line.
    pub fn line_width(&mut self, row: usize) -> (width: Option<usize>)
        requires
            old(self).well_formed(),
        ensures
            final(self).well_formed(),
            final(self).content() == old(self).content(),
            final(self).widths() == old(self).widths(),
            row < old(self).widths().len() ==> width == Some(old(self).widths()[row as int]),
            row >= old(self).widths().len() ==> width is None,
    {
        self.lines_widths.index(row)
    }

    /// The number of lines.
    pub fn line_count(&mut self) -> (count: usize)
        requires
            old(self).well_formed(),
        ensures
            final(self).well_formed(),
            final(self).content() == old(self).content(),
            final(self).widths() == old(self).widths(),
            count == old(self).widths().len(),
    {
        self.lines_widths.length()
    }

    /// The row and column at which position `global_index` of the
    /// document falls, with one line break counted after each line.
    pub fn row_column_for_index(&mut self, global_index: usize) -> (place: (usize, usize))
        requires
            old(self).well_formed(),
        ensures
            final(self).well_formed(),
            final(self).content() == old(self).content(),
            final(self).widths() == old(self).widths(),
            (place.0 as int, place.1 as int) == locate(old(self).widths(), 0, global_index as int),
    {
        self.lines_widths.find_where_rope_index_fits(global_index)
    }
}

} // verus!
