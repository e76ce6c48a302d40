//! The state of the editor: the text, the widths of its lines, the cursor,
//! and what each key does to them.

use crate::command::{
    DecreaseLineCommand, IncreaseLineCommand, JumpToNewLineWithContentCommand,
    JumpToNewLineWithoutContentCommand, LineMergeTopCommand, LineWidthsCommand, PasteCommand,
};
use crate::edit_command_log::LineEdit;
use crate::gap_buffer::{lemma_gap_buffer_layout, locate, total_width, GapBuffer};
use crate::graphemes::{grapheme_count, grapheme_start_offsets, segments};
use crate::lines::line_widths;
use crate::rope::{inserted, removed};
use crate::text_representation::{cursor_after_delete, insertion_place, TextRepresentation};
use vstd::prelude::*;
use vstd::string::*;

verus! {

/// What the editor is doing.
#[derive(Clone, Copy, Debug, PartialEq, Eq, Structural)]
pub enum Mode {
    /// Waiting for a command.
    Normal,
    /// Taking keys as edits.
    Editing,
    /// Asking whether to leave.
    Exiting,
}

/// A key, as far as the editor tells keys apart.
#[derive(Clone, Copy, Debug, PartialEq, Eq, Structural)]
pub enum Key {
    Char(char),
    Enter,
    Backspace,
    Esc,
    Tab,
    Left,
    Right,
    Up,
    Down,
    Other,
}

/// What happened to a key.
#[derive(Clone, Copy, Debug, PartialEq, Eq, Structural)]
pub enum KeyKind {
    Press,
    Repeat,
    Release,
}

/// Where the cursor is: its row and column, its place in the document,
/// and the column that it keeps to while it moves up and down.
#[derive(Clone, Copy, Debug, PartialEq, Eq, Structural)]
pub struct Cursor {
    pub row: usize,
    pub column: usize,
    pub index: usize,
    pub locked: bool,
    pub wanted_column: usize,
}

/// The width of line `row`, and 0 where there is no such line.
pub open spec fn width_or_zero(widths: Seq<usize>, row: int) -> usize {
    if 0 <= row < widths.len() {
        widths[row]
    } else {
        0
    }
}

/// A sum of two numbers, as far as a `usize` reaches.
pub open spec fn capped_sum(first: int, second: int) -> usize {
    if first + second <= usize::MAX {
        (first + second) as usize
    } else {
        usize::MAX
    }
}

/// The cursor without its hold of a column for moving up and down.
pub open spec fn unlocked(cursor: Cursor) -> Cursor {
    Cursor { locked: false, ..cursor }
}

/// The cursor at the start of the row below.
pub open spec fn moved_down(cursor: Cursor) -> Cursor {
    Cursor { column: 0, row: capped_sum(cursor.row as int, 1), ..cursor }
}

/// The cursor one place to the left, at place `final_index` of the
/// document. From the start of a row it goes to the row above, to the end
/// of that row less `offset`; from the start of the first row it does not
/// move.
pub open spec fn moved_left(
    cursor: Cursor,
    widths: Seq<usize>,
    offset: usize,
    final_index: usize,
) -> Cursor {
    if cursor.column == 0 {
        if cursor.row > 0 {
            let width = width_or_zero(widths, cursor.row - 1);
            Cursor {
                index: final_index,
                column: if width >= offset {
                    (width - offset) as usize
                } else {
                    0
                },
                row: (cursor.row - 1) as usize,
                ..cursor
            }
        } else {
            Cursor { index: final_index, ..cursor }
        }
    } else {
        Cursor { index: final_index, column: (cursor.column - 1) as usize, ..cursor }
    }
}

/// Whether a cursor that moves right from the end of its row has to break
/// the line: there is no row below, and the row is not empty.
pub open spec fn breaks_line(cursor: Cursor, widths: Seq<usize>) -> bool {
    &&& cursor.column == width_or_zero(widths, cursor.row as int)
    &&& !(cursor.row + 1 < widths.len())
    &&& width_or_zero(widths, cursor.row as int) != 0
}

/// The cursor one place to the right, at place `final_index` of the
/// document, where it does not have to break the line. From the end of a
/// row it goes to the start of the row below; at the end of an empty last
/// row it does not move.
pub open spec fn moved_right(cursor: Cursor, widths: Seq<usize>, final_index: usize) -> Cursor {
    if cursor.column == width_or_zero(widths, cursor.row as int) {
        if cursor.row + 1 < widths.len() {
            Cursor { index: final_index, row: (cursor.row + 1) as usize, column: 0, ..cursor }
        } else {
            cursor
        }
    } else {
        Cursor { index: final_index, column: capped_sum(cursor.column as int, 1), ..cursor }
    }
}

/// The cursor at place `new_index` of the document: at the row and column
/// at which the place falls, and at the origin where that is the origin
/// or the place lies past the last row.
pub open spec fn placed(cursor: Cursor, widths: Seq<usize>, new_index: usize) -> Cursor {
    let place = locate(widths, 0, new_index as int);
    if place.0 == 0 && place.1 == 0 {
        Cursor { index: 0, row: 0, column: 0, ..cursor }
    } else {
        Cursor { index: new_index, row: place.0 as usize, column: place.1 as usize, ..cursor }
    }
}

/// The cursor moved to row `row`, which has `next` as its width or does
/// not exist: it keeps to the column that it held when it began to move
/// up and down, as far as the row reaches, and stands at the place of the
/// document that the widths of the rows before it give.
pub open spec fn moved_to_row(
    cursor: Cursor,
    widths: Seq<usize>,
    row: usize,
    next: Option<usize>,
) -> Cursor {
    let wanted = if cursor.locked {
        cursor.wanted_column
    } else {
        cursor.column
    };
    let column = match next {
        Some(width) => if width <= wanted {
            width
        } else {
            wanted
        },
        None => 0,
    };
    let before = if row <= widths.len() {
        total_width(widths.subrange(0, row as int))
    } else {
        total_width(widths)
    };
    Cursor {
        row,
        column,
        index: capped_sum(capped_sum(before as int, column as int) as int, row as int),
        locked: true,
        wanted_column: wanted,
    }
}

/// The row below `row`, and the row after the last where `row` is the
/// last or further down.
pub open spec fn row_below(widths: Seq<usize>, row: usize) -> usize {
    if row + 1 <= widths.len() {
        (row + 1) as usize
    } else {
        widths.len() as usize
    }
}

/// The row above `row`, and the first where `row` is the first.
pub open spec fn row_above(row: usize) -> usize {
    if row >= 1 {
        (row - 1) as usize
    } else {
        0
    }
}

/// The width of row `row` as a query of the widths gives it.
pub open spec fn width_at(widths: Seq<usize>, row: int) -> Option<usize> {
    if 0 <= row < widths.len() {
        Some(widths[row])
    } else {
        None
    }
}

/// What the editor is to a specification.
#[verifier::ext_equal]
pub struct AppModel {
    /// The grapheme clusters of the document.
    pub content: Seq<Seq<char>>,
    /// The widths of the lines.
    pub widths: Seq<usize>,
    /// The text kept for drawing.
    pub shown: Seq<char>,
    /// The cursor.
    pub cursor: Cursor,
    /// What the editor is doing.
    pub mode: Mode,
    /// Whether the editor is to be left.
    pub exit: bool,
    /// The commands on the widths that can be undone.
    pub undo_lines: Seq<LineEdit>,
    /// The commands on the widths that can be executed again.
    pub redo_lines: Seq<LineEdit>,
}

/// The document after `text` is put in before cluster `at`, as a store
/// of text does it.
pub open spec fn text_inserted(content: Seq<Seq<char>>, text: Seq<char>, at: usize) -> Seq<
    Seq<char>,
> {
    if content.len() + segments(text).len() <= usize::MAX {
        inserted(content, at as int, segments(text))
    } else {
        content
    }
}

/// The cursor that a store of text gives after `text` is put in before
/// cluster `at`.
pub open spec fn index_after_insert(content: Seq<Seq<char>>, text: Seq<char>, at: usize) -> int {
    if content.len() + segments(text).len() <= usize::MAX {
        insertion_place(content.len(), at as int) + segments(text).len()
    } else {
        insertion_place(content.len(), at as int)
    }
}

/// The editor after a command on the widths of the lines is executed and
/// kept to be undone.
pub open spec fn with_line_command(app: AppModel, command: LineEdit) -> AppModel {
    AppModel {
        widths: command.applied(app.widths),
        undo_lines: app.undo_lines.push(command),
        redo_lines: Seq::empty(),
        ..app
    }
}

/// The editor with the cursor at place `new_index` of the document.
pub open spec fn with_cursor_at(app: AppModel, new_index: usize) -> AppModel {
    AppModel { cursor: placed(app.cursor, app.widths, new_index), ..app }
}

/// The editor after the line is broken at the cursor. A line break is
/// put into the text at the cursor. Where the cursor stands before the
/// end of its row, what follows it moves to a new row below; else an
/// empty row is put in below. The cursor goes to the start of the row
/// below.
pub open spec fn after_new_line(app: AppModel) -> AppModel {
    let final_index = index_after_insert(app.content, seq!['\n'], app.cursor.index);
    let content = text_inserted(app.content, seq!['\n'], app.cursor.index);
    let current_line_length = width_or_zero(app.widths, app.cursor.row as int);
    let command = if app.cursor.column < current_line_length {
        LineEdit::JumpWithContent(
            JumpToNewLineWithContentCommand::spec_new(
                current_line_length,
                app.cursor.row,
                app.cursor.column,
            ),
        )
    } else {
        LineEdit::JumpWithoutContent(JumpToNewLineWithoutContentCommand::spec_new(app.cursor.row))
    };
    let edited = with_line_command(
        AppModel { content, shown: content.flatten(), ..app },
        command,
    );
    AppModel {
        cursor: moved_down(Cursor { index: final_index as usize, ..app.cursor }),
        ..edited
    }
}

/// The editor after the cursor moves one place to the right, to place
/// `final_index` of the document. At the end of the last row, where that
/// row is not empty, the line is broken instead.
pub open spec fn after_move_right(app: AppModel, final_index: usize) -> AppModel {
    if breaks_line(app.cursor, app.widths) {
        after_new_line(app)
    } else {
        AppModel { cursor: moved_right(app.cursor, app.widths, final_index), ..app }
    }
}

/// The editor after a character is typed: it is put into the text at the
/// cursor, the row of the cursor grows by one, and the cursor moves to
/// the right.
pub open spec fn after_char(app: AppModel, value: char) -> AppModel {
    let final_index = index_after_insert(app.content, seq![value], app.cursor.index);
    let content = text_inserted(app.content, seq![value], app.cursor.index);
    let edited = with_line_command(
        AppModel { content, shown: content.flatten(), ..app },
        LineEdit::Increase(IncreaseLineCommand::spec_new(app.cursor.row)),
    );
    after_move_right(edited, final_index as usize)
}

/// The place before `index`, and 0 where `index` is 0.
pub open spec fn place_before(index: usize) -> usize {
    if index >= 1 {
        (index - 1) as usize
    } else {
        0
    }
}

/// The editor after the grapheme cluster before the cursor is deleted.
/// At the start of a row below the first, the row is merged into the row
/// above; at the start of the first row nothing happens; elsewhere the
/// row of the cursor shrinks by one. The cursor moves to the left.
pub open spec fn after_delete(app: AppModel) -> AppModel {
    if app.cursor.column == 0 && app.cursor.row == 0 {
        app
    } else {
        let count_to_offset = if app.cursor.column == 0 {
            width_or_zero(app.widths, app.cursor.row as int)
        } else {
            0
        };
        let command = if app.cursor.column == 0 {
            LineEdit::MergeTop(LineMergeTopCommand::spec_new(app.cursor.row, count_to_offset))
        } else {
            LineEdit::Decrease(DecreaseLineCommand::spec_new(app.cursor.row))
        };
        let edited = with_line_command(app, command);
        let content = removed(app.content, place_before(app.cursor.index) as int, 1);
        let final_index = cursor_after_delete(place_before(app.cursor.index) as int, 1);
        AppModel {
            content,
            shown: content.flatten(),
            cursor: moved_left(app.cursor, edited.widths, count_to_offset, final_index as usize),
            ..edited
        }
    }
}

/// The editor after a text is pasted: it is put into the text at the
/// cursor, the cursor moves right by its grapheme clusters, and the row
/// of the cursor grows by as many.
pub open spec fn after_paste(app: AppModel, value: Seq<char>) -> AppModel {
    let length = grapheme_count(value) as usize;
    let final_index = index_after_insert(app.content, value, app.cursor.index);
    let content = text_inserted(app.content, value, app.cursor.index);
    let moved = AppModel {
        content,
        shown: content.flatten(),
        cursor: Cursor {
            index: final_index as usize,
            column: capped_sum(app.cursor.column as int, length as int),
            ..app.cursor
        },
        ..app
    };
    with_line_command(moved, LineEdit::Paste(PasteCommand::spec_new(app.cursor.row, length)))
}

/// The editor after the cursor moves to the row below.
pub open spec fn after_line_down(app: AppModel) -> AppModel {
    AppModel {
        cursor: moved_to_row(
            app.cursor,
            app.widths,
            row_below(app.widths, app.cursor.row),
            width_at(app.widths, app.cursor.row + 1),
        ),
        ..app
    }
}

/// The editor after the cursor moves to the row above.
pub open spec fn after_line_up(app: AppModel) -> AppModel {
    AppModel {
        cursor: moved_to_row(
            app.cursor,
            app.widths,
            row_above(app.cursor.row),
            width_at(app.widths, row_above(app.cursor.row) as int),
        ),
        ..app
    }
}

/// Whether `after` is the editor `before` with its last edit undone,
/// where the store of text gave `place` as the cursor to restore. The
/// last command on the widths of the lines is undone and kept to be
/// executed again. Where there is a place, the text for drawing is that
/// of the store and the cursor is put at the place; where there is none,
/// the text and the cursor are as before.
pub open spec fn is_undone(before: AppModel, after: AppModel, place: Option<usize>) -> bool {
    &&& after.mode == before.mode
    &&& after.exit == before.exit
    &&& if before.undo_lines.len() > 0 {
        &&& after.widths == before.undo_lines.last().reverted(before.widths)
        &&& after.undo_lines == before.undo_lines.drop_last()
        &&& after.redo_lines == before.redo_lines.push(before.undo_lines.last())
    } else {
        &&& after.widths == before.widths
        &&& after.undo_lines == before.undo_lines
        &&& after.redo_lines == before.redo_lines
    }
    &&& match place {
        Some(new_index) => {
            &&& after.shown == after.content.flatten()
            &&& after.cursor == placed(before.cursor, after.widths, new_index)
        },
        None => {
            &&& after.content == before.content
            &&& after.shown == before.shown
            &&& after.cursor == before.cursor
        },
    }
}

/// Whether `after` is the editor `before` with its last undone edit
/// executed again, where the store of text gave `place` as the cursor to
/// restore. As [`is_undone`], with the command on the widths executed and
/// kept to be undone.
pub open spec fn is_redone(before: AppModel, after: AppModel, place: Option<usize>) -> bool {
    &&& after.mode == before.mode
    &&& after.exit == before.exit
    &&& if before.redo_lines.len() > 0 {
        &&& after.widths == before.redo_lines.last().applied(before.widths)
        &&& after.redo_lines == before.redo_lines.drop_last()
        &&& after.undo_lines == before.undo_lines.push(before.redo_lines.last())
    } else {
        &&& after.widths == before.widths
        &&& after.undo_lines == before.undo_lines
        &&& after.redo_lines == before.redo_lines
    }
    &&& match place {
        Some(new_index) => {
            &&& after.shown == after.content.flatten()
            &&& after.cursor == placed(before.cursor, after.widths, new_index)
        },
        None => {
            &&& after.content == before.content
            &&& after.shown == before.shown
            &&& after.cursor == before.cursor
        },
    }
}

/// Whether a key undoes the last edit: `z` with the control key, pressed
/// while editing.
pub open spec fn is_undo_key(app: AppModel, key: Key, control: bool, kind: KeyKind) -> bool {
    app.mode == Mode::Editing && kind == KeyKind::Press && key == Key::Char('z') && control
}

/// Whether a key executes the last undone edit again: `y` with the
/// control key, pressed while editing.
pub open spec fn is_redo_key(app: AppModel, key: Key, control: bool, kind: KeyKind) -> bool {
    app.mode == Mode::Editing && kind == KeyKind::Press && key == Key::Char('y') && control
}

/// The editor after a key that neither undoes nor redoes. A released key
/// does nothing. In normal mode `e` starts editing and `q` asks whether
/// to leave. While that is asked, `y`, `n` and `q` leave. While editing,
/// a pressed key edits the text or moves the cursor, and all but the
/// keys that move up and down let go of the column that the cursor held.
pub open spec fn after_key(app: AppModel, key: Key, control: bool, kind: KeyKind) -> AppModel {
    if kind == KeyKind::Release {
        app
    } else {
        match app.mode {
            Mode::Normal => match key {
                Key::Char('e') => AppModel { mode: Mode::Editing, ..app },
                Key::Char('q') => AppModel { mode: Mode::Exiting, ..app },
                _ => app,
            },
            Mode::Exiting => match key {
                Key::Char('y') => AppModel { exit: true, ..app },
                Key::Char('n') => AppModel { exit: true, ..app },
                Key::Char('q') => AppModel { exit: true, ..app },
                _ => app,
            },
            Mode::Editing => if kind == KeyKind::Press {
                let free = AppModel { cursor: unlocked(app.cursor), ..app };
                match key {
                    Key::Enter => after_new_line(free),
                    Key::Backspace => after_delete(free),
                    Key::Esc => AppModel { mode: Mode::Normal, ..free },
                    Key::Tab => app,
                    Key::Char(value) => after_char(free, value),
                    Key::Left => AppModel {
                        cursor: moved_left(
                            free.cursor,
                            free.widths,
                            0,
                            place_before(free.cursor.index),
                        ),
                        ..free
                    },
                    Key::Right => after_move_right(free, capped_sum(free.cursor.index as int, 1)),
                    Key::Up => after_line_up(app),
                    Key::Down => after_line_down(app),
                    Key::Other => app,
                }
            } else {
                app
            },
        }
    }
}

/// Calls `char::to_string`.
///
/// Trusted: the string holds the character and nothing else.
#[verifier::external_body]
fn char_to_string(value: char) -> (text: String)
    ensures
        text@ == seq![value],
{
    value.to_string()
}

/// The editor over a store of text `T`.
pub struct App<T: TextRepresentation> {
    text: String,
    exit: bool,
    mode: Mode,
    cursor: Cursor,
    text_representation: T,
    lines_widths: GapBuffer,
    undo_line_commands: Vec<LineEdit>,
    redo_line_commands: Vec<LineEdit>,
}

impl<T: TextRepresentation> App<T> {
    /// What the editor is to a specification.
    pub closed spec fn model(&self) -> AppModel {
        AppModel {
            content: self.text_representation.content(),
            widths: self.lines_widths@,
            shown: self.text@,
            cursor: self.cursor,
            mode: self.mode,
            exit: self.exit,
            undo_lines: self.undo_line_commands@,
            redo_lines: self.redo_line_commands@,
        }
    }

    /// The invariant: the store of text and the widths are valid.
    pub closed spec fn well_formed(&self) -> bool {
        &&& self.text_representation.valid()
        &&& self.lines_widths.well_formed()
    }

    /// The editor of a document with the text `starting_string`, which
    /// `text_representation` holds, with the cursor at the origin. A text
    /// without lines is taken to have one empty line.
    pub fn new(starting_string: String, text_representation: T) -> (app: Self)
        requires
            text_representation.valid(),
        ensures
            app.well_formed(),
            app.model() == (AppModel {
                content: text_representation.content(),
                widths: if line_widths(starting_string@).len() == 0 {
                    seq![0usize]
                } else {
                    line_widths(starting_string@)
                },
                shown: starting_string@,
                cursor: Cursor { row: 0, column: 0, index: 0, locked: false, wanted_column: 0 },
                mode: Mode::Normal,
                exit: false,
                undo_lines: Seq::empty(),
                redo_lines: Seq::empty(),
            }),
    {
        let mut lines_widths = GapBuffer::new(starting_string.as_str());
        if lines_widths.length() == 0 {
            lines_widths.add_item(0);
            assert(lines_widths@ =~= seq![0usize]);
        }
        Self {
            text_representation,
            text: starting_string,
            lines_widths,
            exit: false,
            mode: Mode::Normal,
            cursor: Cursor { row: 0, column: 0, index: 0, locked: false, wanted_column: 0 },
            undo_line_commands: Vec::new(),
            redo_line_commands: Vec::new(),
        }
    }

    /// The text kept for drawing.
    pub fn text(&self) -> (text: &str)
        ensures
            text@ == self.model().shown,
    {
        self.text.as_str()
    }

    /// The cursor.
    pub fn cursor(&self) -> (cursor: Cursor)
        ensures
            cursor == self.model().cursor,
    {
        self.cursor
    }

    /// What the editor is doing.
    pub fn mode(&self) -> (mode: Mode)
        ensures
            mode == self.model().mode,
    {
        self.mode
    }

    /// Whether the editor is to be left.
    pub fn exit(&self) -> (exit: bool)
        ensures
            exit == self.model().exit,
    {
        self.exit
    }

    /// The store of text.
    pub fn text_representation(&self) -> (store: &T)
        ensures
            store.content() == self.model().content,
            self.well_formed() ==> store.valid(),
    {
        &self.text_representation
    }

    /// The width of line `row`, or nothing where there is no such line.
    pub fn line_width(&mut self, row: usize) -> (width: Option<usize>)
        requires
            old(self).well_formed(),
        ensures
            final(self).well_formed(),
            final(self).model() == old(self).model(),
            width == width_at(old(self).model().widths, row as int),
    {
        self.lines_widths.index(row)
    }

    /// The number of lines.
    pub fn line_count(&mut self) -> (count: usize)
        requires
            old(self).well_formed(),
        ensures
            final(self).well_formed(),
            final(self).model() == old(self).model(),
            count == old(self).model().widths.len(),
    {
        self.lines_widths.length()
    }

    /// Executes a command on the widths of the lines and keeps it to be
    /// undone. The commands that could be executed again are forgotten.
    pub fn execute_line_command(&mut self, command: LineEdit)
        requires
            old(self).well_formed(),
        ensures
            final(self).well_formed(),
            final(self).model() == with_line_command(old(self).model(), command),
    {
        command.execute(&mut self.lines_widths);
        self.undo_line_commands.push(command);
        self.redo_line_commands = Vec::new();
    }

    /// Takes the text for drawing from the store of text again.
    pub fn refresh_string(&mut self)
        requires
            old(self).well_formed(),
        ensures
            final(self).well_formed(),
            final(self).model() == (AppModel {
                shown: old(self).model().content.flatten(),
                ..old(self).model()
            }),
    {
        self.text = String::new();
        self.text_representation.collect_string(&mut self.text);
        assert(Seq::<char>::empty() + self.text_representation.content().flatten()
            =~= self.text_representation.content().flatten());
    }

    /// Puts the cursor at place `new_index` of the document: at the row
    /// and column at which the place falls, and at the origin where that
    /// is the origin or the place lies past the last row.
    pub fn restore_cursor(&mut self, new_index: usize)
        requires
            old(self).well_formed(),
        ensures
            final(self).well_formed(),
            final(self).model() == with_cursor_at(old(self).model(), new_index),
    {
        let (row, column) = self.lines_widths.find_where_rope_index_fits(new_index);
        if row == 0 && column == 0 {
            self.cursor.row = 0;
            self.cursor.column = 0;
            self.cursor.index = 0;
        } else {
            self.cursor.index = new_index;
            self.cursor.row = row;
            self.cursor.column = column;
        }
    }

    /// Undoes the last edit: the last command on the text and the last
    /// command on the widths of the lines. Where the store of text had a
    /// command to undo, the text for drawing is taken again and the
    /// cursor is put at the place that the store gives. Returns that
    /// place.
    pub fn undo(&mut self) -> (place: Option<usize>)
        requires
            old(self).well_formed(),
        ensures
            final(self).well_formed(),
            is_undone(old(self).model(), final(self).model(), place),
    {
        let place: Option<usize> = self.text_representation.undo();
        match self.undo_line_commands.pop() {
            Some(last_line_command) => {
                last_line_command.undo(&mut self.lines_widths);
                self.redo_line_commands.push(last_line_command);
            },
            None => {},
        }
        if let Some(new_index) = place {
            self.refresh_string();
            self.restore_cursor(new_index);
        }
        place
    }

    /// Executes the last undone edit again: the command on the text and
    /// the command on the widths of the lines. Where the store of text
    /// had such a command, the text for drawing is taken again and the
    /// cursor is put at the place that the store gives. Returns that
    /// place.
    pub fn redo(&mut self) -> (place: Option<usize>)
        requires
            old(self).well_formed(),
        ensures
            final(self).well_formed(),
            is_redone(old(self).model(), final(self).model(), place),
    {
        let place: Option<usize> = self.text_representation.redo();
        match self.redo_line_commands.pop() {
            Some(last_line_command) => {
                last_line_command.execute(&mut self.lines_widths);
                self.undo_line_commands.push(last_line_command);
            },
            None => {},
        }
        if let Some(new_index) = place {
            self.refresh_string();
            self.restore_cursor(new_index);
        }
        place
    }

    /// Moves the cursor to the start of the row below.
    pub fn move_cursor_down(&mut self)
        requires
            old(self).well_formed(),
        ensures
            final(self).well_formed(),
            final(self).model() == (AppModel {
                cursor: moved_down(old(self).model().cursor),
                ..old(self).model()
            }),
    {
        self.cursor.column = 0;
        let cursor_moved_down: usize = self.cursor.row.saturating_add(1);
        self.cursor.row = cursor_moved_down;
    }

    /// Moves the cursor one place to the left, to place `final_index` of
    /// the document. From the start of a row it goes to the row above, to
    /// the end of that row less `offset`.
    pub fn move_cursor_left(&mut self, offset: usize, final_index: usize)
        requires
            old(self).well_formed(),
        ensures
            final(self).well_formed(),
            final(self).model() == (AppModel {
                cursor: moved_left(
                    old(self).model().cursor,
                    old(self).model().widths,
                    offset,
                    final_index,
                ),
                ..old(self).model()
            }),
    {
        self.cursor.index = final_index;
        if self.cursor.column == 0 {
            if self.cursor.row > 0 {
                let width: usize = match self.lines_widths.index(self.cursor.row - 1) {
                    Some(width) => width,
                    None => 0,
                };
                self.cursor.column = width.saturating_sub(offset);
                self.cursor.row = self.cursor.row - 1;
            }
        } else {
            let cursor_moved_left: usize = self.cursor.column - 1;
            self.cursor.column = cursor_moved_left;
        }
    }

    /// Breaks the line at the cursor, as [`after_new_line`] says.
    pub fn jump_to_new_line(&mut self)
        requires
            old(self).well_formed(),
        ensures
            final(self).well_formed(),
            final(self).model() == after_new_line(old(self).model()),
    {
        let final_index: usize = self.text_representation.insert(
            char_to_string('\n'),
            self.cursor.index,
        );
        self.refresh_string();
        let current_line_length: usize = match self.lines_widths.index(self.cursor.row) {
            Some(width) => width,
            None => 0,
        };
        if self.cursor.column < current_line_length {
            self.execute_line_command(
                LineEdit::JumpWithContent(
                    JumpToNewLineWithContentCommand::new(
                        current_line_length,
                        self.cursor.row,
                        self.cursor.column,
                    ),
                ),
            );
            self.cursor.index = final_index;
        } else {
            self.cursor.index = final_index;
            self.execute_line_command(
                LineEdit::JumpWithoutContent(
                    JumpToNewLineWithoutContentCommand::new(self.cursor.row),
                ),
            );
        }
        self.move_cursor_down();
    }

    /// Moves the cursor one place to the right, to place `final_index` of
    /// the document, as [`after_move_right`] says.
    pub fn move_cursor_right(&mut self, final_index: usize)
        requires
            old(self).well_formed(),
        ensures
            final(self).well_formed(),
            final(self).model() == after_move_right(old(self).model(), final_index),
    {
        proof {
            lemma_gap_buffer_layout(self.lines_widths);
        }
        let width: usize = match self.lines_widths.index(self.cursor.row) {
            Some(width) => width,
            None => 0,
        };
        if self.cursor.column == width {
            let next: Option<usize> = if self.cursor.row < usize::MAX {
                self.lines_widths.index(self.cursor.row + 1)
            } else {
                None
            };
            if next.is_some() {
                self.cursor.index = final_index;
                self.cursor.row = self.cursor.row + 1;
                self.cursor.column = 0;
            } else {
                if width == 0 {
                    return ;
                }
                self.jump_to_new_line();
            }
        } else {
            self.cursor.index = final_index;
            let cursor_moved_right: usize = self.cursor.column.saturating_add(1);
            self.cursor.column = cursor_moved_right;
        }
    }

    /// Types a character, as [`after_char`] says.
    pub fn add_char(&mut self, value: char)
        requires
            old(self).well_formed(),
        ensures
            final(self).well_formed(),
            final(self).model() == after_char(old(self).model(), value),
    {
        let final_index: usize = self.text_representation.insert(
            char_to_string(value),
            self.cursor.index,
        );
        self.refresh_string();
        self.execute_line_command(LineEdit::Increase(IncreaseLineCommand::new(self.cursor.row)));
        self.move_cursor_right(final_index);
    }

    /// Deletes the grapheme cluster before the cursor, as [`after_delete`]
    /// says.
    pub fn delete_char(&mut self)
        requires
            old(self).well_formed(),
        ensures
            final(self).well_formed(),
            final(self).model() == after_delete(old(self).model()),
    {
        let mut count_to_offset: usize = 0;
        if self.cursor.column == 0 && self.cursor.row > 0 {
            count_to_offset = match self.lines_widths.index(self.cursor.row) {
                Some(width) => width,
                None => 0,
            };
            self.execute_line_command(
                LineEdit::MergeTop(LineMergeTopCommand::new(self.cursor.row, count_to_offset)),
            );
        } else if self.cursor.column == 0 && self.cursor.row == 0 {
            return ;
        } else {
            self.execute_line_command(
                LineEdit::Decrease(DecreaseLineCommand::new(self.cursor.row)),
            );
        }
        let final_index: usize = self.text_representation.delete(
            1,
            self.cursor.index.saturating_sub(1),
        );
        self.refresh_string();
        self.move_cursor_left(count_to_offset, final_index);
    }

    /// Moves the cursor right by `length` places in its row, to place
    /// `final_index` of the document, and lets the row grow by as many.
    pub fn move_right_due_to_paste(&mut self, length: usize, final_index: usize)
        requires
            old(self).well_formed(),
        ensures
            final(self).well_formed(),
            final(self).model() == with_line_command(
                AppModel {
                    cursor: Cursor {
                        index: final_index,
                        column: capped_sum(old(self).model().cursor.column as int, length as int),
                        ..old(self).model().cursor
                    },
                    ..old(self).model()
                },
                LineEdit::Paste(PasteCommand::spec_new(old(self).model().cursor.row, length)),
            ),
    {
        self.cursor.index = final_index;
        self.cursor.column = self.cursor.column.saturating_add(length);
        self.execute_line_command(LineEdit::Paste(PasteCommand::new(self.cursor.row, length)));
    }

    /// Pastes a text, as [`after_paste`] says.
    pub fn paste(&mut self, value: String)
        requires
            old(self).well_formed(),
        ensures
            final(self).well_formed(),
            final(self).model() == after_paste(old(self).model(), value@),
    {
        let length_of_paste_content: usize = grapheme_start_offsets(value.as_str()).len();
        let final_index: usize = self.text_representation.insert(value, self.cursor.index);
        self.refresh_string();
        self.move_right_due_to_paste(length_of_paste_content, final_index);
    }

    /// Puts the cursor into row `row`, which has `next` as its width or
    /// does not exist, as [`moved_to_row`] says.
    fn move_to_row(&mut self, row: usize, next: Option<usize>)
        requires
            old(self).well_formed(),
        ensures
            final(self).well_formed(),
            final(self).model() == (AppModel {
                cursor: moved_to_row(
                    old(self).model().cursor,
                    old(self).model().widths,
                    row,
                    next,
                ),
                ..old(self).model()
            }),
    {
        if !self.cursor.locked {
            self.cursor.wanted_column = self.cursor.column;
            self.cursor.locked = true;
        }
        match next {
            Some(next_line_length) => {
                self.cursor.column = if next_line_length <= self.cursor.wanted_column {
                    next_line_length
                } else {
                    self.cursor.wanted_column
                };
            },
            None => {
                self.cursor.column = 0;
            },
        }
        self.cursor.row = row;
        let length_upto_non_inclusive_current_row: usize =
            self.lines_widths.length_up_to_non_inclusive_index(row);
        self.cursor.index = length_upto_non_inclusive_current_row.saturating_add(
            self.cursor.column,
        ).saturating_add(row);
    }

    /// Moves the cursor to the row below, as [`after_line_down`] says.
    pub fn move_line_down(&mut self)
        requires
            old(self).well_formed(),
        ensures
            final(self).well_formed(),
            final(self).model() == after_line_down(old(self).model()),
    {
        let count: usize = self.lines_widths.length();
        let next: Option<usize> = if self.cursor.row < usize::MAX {
            self.lines_widths.index(self.cursor.row + 1)
        } else {
            None
        };
        let row: usize = if self.cursor.row < count {
            self.cursor.row + 1
        } else {
            count
        };
        self.move_to_row(row, next);
    }

    /// Moves the cursor to the row above, as [`after_line_up`] says.
    pub fn move_line_up(&mut self)
        requires
            old(self).well_formed(),
        ensures
            final(self).well_formed(),
            final(self).model() == after_line_up(old(self).model()),
    {
        let row: usize = self.cursor.row.saturating_sub(1);
        let next: Option<usize> = self.lines_widths.index(row);
        self.move_to_row(row, next);
    }

    /// Takes a key. A key that undoes or redoes does so, as [`is_undone`]
    /// and [`is_redone`] say; any other changes the editor as
    /// [`after_key`] says.
    pub fn handle_key(&mut self, key: Key, control: bool, kind: KeyKind)
        requires
            old(self).well_formed(),
        ensures
            final(self).well_formed(),
            is_undo_key(old(self).model(), key, control, kind) ==> exists|place: Option<usize>|
                is_undone(old(self).model(), final(self).model(), place),
            is_redo_key(old(self).model(), key, control, kind) ==> exists|place: Option<usize>|
                is_redone(old(self).model(), final(self).model(), place),
            !is_undo_key(old(self).model(), key, control, kind) && !is_redo_key(
                old(self).model(),
                key,
                control,
                kind,
            ) ==> final(self).model() == after_key(old(self).model(), key, control, kind),
    {
        match kind {
            KeyKind::Release => {
                return ;
            },
            _ => {},
        }
        match self.mode {
            Mode::Normal => match key {
                Key::Char(value) => {
                    if value == 'e' {
                        self.mode = Mode::Editing;
                    } else if value == 'q' {
                        self.mode = Mode::Exiting;
                    }
                },
                _ => {},
            },
            Mode::Exiting => match key {
                Key::Char(value) => {
                    if value == 'y' || value == 'n' || value == 'q' {
                        self.exit = true;
                    }
                },
                _ => {},
            },
            Mode::Editing => {
                match kind {
                    KeyKind::Press => {},
                    _ => {
                        return ;
                    },
                }
                match key {
                    Key::Enter => {
                        self.cursor.locked = false;
                        self.jump_to_new_line();
                    },
                    Key::Backspace => {
                        self.cursor.locked = false;
                        self.delete_char();
                    },
                    Key::Esc => {
                        self.cursor.locked = false;
                        self.mode = Mode::Normal;
                    },
                    Key::Tab => {},
                    Key::Char(value) => {
                        if value == 'z' && control {
                            let ghost before = self.model();
                            let place = self.undo();
                            assert(is_undone(before, self.model(), place));
                        } else if value == 'y' && control {
                            let ghost before = self.model();
                            let place = self.redo();
                            assert(is_redone(before, self.model(), place));
                        } else {
                            self.cursor.locked = false;
                            self.add_char(value);
                        }
                    },
                    Key::Left => {
                        self.cursor.locked = false;
                        let place: usize = self.cursor.index.saturating_sub(1);
                        self.move_cursor_left(0, place);
                    },
                    Key::Right => {
                        self.cursor.locked = false;
                        let place: usize = self.cursor.index.saturating_add(1);
                        self.move_cursor_right(place);
                    },
                    Key::Up => {
                        self.move_line_up();
                    },
                    Key::Down => {
                        self.move_line_down();
                    },
                    Key::Other => {},
                }
            },
        }
    }

    /// Takes a pasted text: while editing it is pasted, as [`after_paste`]
    /// says; else nothing happens.
    pub fn handle_paste(&mut self, pasted_string: String)
        requires
            old(self).well_formed(),
        ensures
            final(self).well_formed(),
            final(self).model() == if old(self).model().mode == Mode::Editing {
                after_paste(old(self).model(), pasted_string@)
            } else {
                old(self).model()
            },
    {
        match self.mode {
            Mode::Editing => {
                self.paste(pasted_string);
            },
            _ => {},
        }
    }
}

} // verus!
