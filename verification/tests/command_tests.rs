use text_editor::command::{
    AddLineCommand, Command, DecreaseLineCommand, DeleteCommand, IncreaseLineCommand,
    InsertCommand, InsertIntoLineCommand, JumpToNewLineWithContentCommand,
    JumpToNewLineWithoutContentCommand, LineCommandContext, LineMergeTopCommand,
    LineWidthsCommand, MergeLineCommand, PasteCommand, RemoveFromLineCommand, RemoveLineCommand,
    SplitLineCommand, TextEditorLineCommand,
};
use text_editor::edit_command_log::{ContentCommand, EditCommandLog, LineEdit, Rope};
use text_editor::gap_buffer::GapBuffer;
use text_editor::lines_gap_buffer::LinesGapBuffer;
use text_editor::rope::{collect_string, find_length, from_text, index, Node};
use text_editor::text_representation::TextRepresentation;

fn text_of(node: &Node) -> String {
    let mut collected = String::new();
    collect_string(node, &mut collected);
    collected
}

fn shown(document: &Rope) -> String {
    let mut collected = String::new();
    document.collect_string(&mut collected);
    collected
}

fn logged(log: &EditCommandLog) -> String {
    let mut collected = String::new();
    log.collect_string(&mut collected);
    collected
}

fn widths_of(buffer: &mut GapBuffer) -> Vec<usize> {
    let count = buffer.length();
    (0..count).map(|line| buffer.index(line).unwrap()).collect()
}

fn log_widths(log: &mut EditCommandLog) -> Vec<usize> {
    let count = log.line_count();
    (0..count).map(|line| log.line_width(line).unwrap()).collect()
}

fn texts(buffer: &LinesGapBuffer) -> Vec<String> {
    buffer.get_lines().into_iter().map(String::from).collect()
}

#[test]
fn an_insertion_is_executed_and_undone() {
    let mut command = InsertCommand::new("people ".to_string(), 6);
    let rope = from_text("Hello my name".to_string());
    let (rope, cursor) = command.execute(rope);
    assert_eq!(text_of(&rope), "Hello people my name");
    assert_eq!(cursor, 13);
    let (rope, cursor) = command.undo(rope);
    assert_eq!(text_of(&rope), "Hello my name");
    assert_eq!(cursor, 6);
    let (rope, cursor) = command.execute(rope);
    assert_eq!(text_of(&rope), "Hello people my name");
    assert_eq!(cursor, 13);
}

#[test]
fn an_insertion_past_the_end_is_undone_at_the_end() {
    let mut command = InsertCommand::new("xyz".to_string(), 40);
    let (rope, cursor) = command.execute(from_text("abc".to_string()));
    assert_eq!(text_of(&rope), "abcxyz");
    assert_eq!(cursor, 6);
    let (rope, cursor) = command.undo(rope);
    assert_eq!(text_of(&rope), "abc");
    assert_eq!(cursor, 40);
}

#[test]
fn the_cursor_after_an_insertion_counts_clusters() {
    let mut command = InsertCommand::new("e\u{301}e\u{301}".to_string(), 1);
    let (rope, cursor) = command.execute(from_text("ab".to_string()));
    assert_eq!(cursor, 3);
    assert_eq!(find_length(&rope), 4);
    let (rope, _) = command.undo(rope);
    assert_eq!(text_of(&rope), "ab");
}

#[test]
fn a_deletion_is_executed_and_undone() {
    let mut command = DeleteCommand::new(7, 5);
    let (rope, cursor) = command.execute(from_text("Hello people my name".to_string()));
    assert_eq!(text_of(&rope), "Hello my name");
    assert_eq!(cursor, 0);
    let (rope, cursor) = command.undo(rope);
    assert_eq!(text_of(&rope), "Hello people my name");
    assert_eq!(cursor, 6);
}

#[test]
fn a_deletion_of_one_cluster_moves_the_cursor_onto_it() {
    let mut command = DeleteCommand::new(1, 4);
    let (rope, cursor) = command.execute(from_text("Hello".to_string()));
    assert_eq!(text_of(&rope), "Hell");
    assert_eq!(cursor, 4);
    let (rope, cursor) = command.undo(rope);
    assert_eq!(text_of(&rope), "Hello");
    assert_eq!(cursor, 5);
}

#[test]
fn a_deletion_puts_back_the_clusters_that_it_took() {
    let rope = from_text("e".to_string());
    let (rope, _) = InsertCommand::new("\u{301}".to_string(), 1).execute(rope);
    let (rope, _) = InsertCommand::new("x".to_string(), 2).execute(rope);
    assert_eq!(find_length(&rope), 3);
    let mut command = DeleteCommand::new(2, 0);
    let (rope, _) = command.execute(rope);
    assert_eq!(text_of(&rope), "x");
    let (rope, _) = command.undo(rope);
    assert_eq!(text_of(&rope), "e\u{301}x");
    assert_eq!(find_length(&rope), 3);
    assert_eq!(index(&rope, 0), Some("e"));
    assert_eq!(index(&rope, 1), Some("\u{301}"));
}

#[test]
fn a_deletion_beyond_the_text_changes_nothing() {
    let mut command = DeleteCommand::new(3, 9);
    let (rope, cursor) = command.execute(from_text("Hello".to_string()));
    assert_eq!(text_of(&rope), "Hello");
    assert_eq!(cursor, 7);
    let (rope, cursor) = command.undo(rope);
    assert_eq!(text_of(&rope), "Hello");
    assert_eq!(cursor, 10);
}

#[test]
fn a_deletion_can_be_undone_more_than_once() {
    let mut command = DeleteCommand::new(2, 1);
    let (rope, _) = command.execute(from_text("abcd".to_string()));
    assert_eq!(text_of(&rope), "ad");
    let (rope, _) = command.undo(rope);
    let (rope, _) = command.execute(rope);
    let (rope, _) = command.undo(rope);
    assert_eq!(text_of(&rope), "abcd");
}

#[test]
fn the_text_takes_its_edits_back() {
    let mut document = Rope::new("Hello my name is Simon".to_string());
    assert_eq!(document.len(), 22);
    assert_eq!(document.insert("people ".to_string(), 6), 13);
    assert_eq!(shown(&document), "Hello people my name is Simon");
    assert_eq!(document.index(9), Some("p"));
    assert_eq!(document.delete(1, 28), 28);
    assert_eq!(shown(&document), "Hello people my name is Simo");
    assert_eq!(document.undo(), Some(29));
    assert_eq!(shown(&document), "Hello people my name is Simon");
    assert_eq!(document.undo(), Some(6));
    assert_eq!(shown(&document), "Hello my name is Simon");
    assert_eq!(document.undo(), None);
    assert_eq!(shown(&document), "Hello my name is Simon");
    assert_eq!(document.redo(), Some(13));
    assert_eq!(document.redo(), Some(28));
    assert_eq!(shown(&document), "Hello people my name is Simo");
    assert_eq!(document.redo(), None);
    assert_eq!(document.len(), 28);
}

#[test]
fn a_new_edit_forgets_what_was_undone() {
    let mut document = Rope::new("abc".to_string());
    document.insert("d".to_string(), 3);
    assert_eq!(document.undo(), Some(3));
    document.insert("x".to_string(), 0);
    assert_eq!(document.redo(), None);
    assert_eq!(shown(&document), "xabc");
    assert_eq!(document.undo(), Some(0));
    assert_eq!(document.undo(), None);
    assert_eq!(shown(&document), "abc");
}

#[test]
fn undo_and_redo_on_an_empty_history_do_nothing() {
    let mut document = Rope::new(String::new());
    assert_eq!(document.undo(), None);
    assert_eq!(document.redo(), None);
    assert_eq!(document.delete(3, 0), 0);
    assert_eq!(shown(&document), "");
    assert_eq!(document.len(), 0);
    assert_eq!(document.index(0), None);
}

#[test]
fn ranges_of_the_text_are_collected() {
    let document = Rope::new("Hello people".to_string());
    let mut part = String::new();
    document.collect_substring(&mut part, (6, 8));
    document.collect_substring(&mut part, (0, 0));
    document.collect_substring(&mut part, (11, 400));
    document.collect_substring(&mut part, (12, 400));
    document.collect_substring(&mut part, (5, 4));
    assert_eq!(part, "peoHe");
}

#[test]
fn merging_a_line_into_the_line_above() {
    let mut widths = GapBuffer::from_widths(vec![5, 3, 8]).unwrap();
    let command = LineMergeTopCommand::new(1, 3);
    command.execute(&mut widths);
    assert_eq!(widths_of(&mut widths), vec![8, 8]);
    command.undo(&mut widths);
    assert_eq!(widths_of(&mut widths), vec![5, 3, 8]);
}

#[test]
fn merging_the_first_line_or_a_missing_line_does_nothing() {
    let mut widths = GapBuffer::from_widths(vec![5, 3, 8]).unwrap();
    let first = LineMergeTopCommand::new(0, 5);
    first.execute(&mut widths);
    first.undo(&mut widths);
    let missing = LineMergeTopCommand::new(3, 1);
    missing.execute(&mut widths);
    assert_eq!(widths_of(&mut widths), vec![5, 3, 8]);
}

#[test]
fn a_line_loses_and_gains_a_cluster() {
    let mut widths = GapBuffer::from_widths(vec![5, 3, 8]).unwrap();
    let decrease = DecreaseLineCommand::new(2);
    decrease.execute(&mut widths);
    assert_eq!(widths_of(&mut widths), vec![5, 3, 7]);
    decrease.undo(&mut widths);
    assert_eq!(widths_of(&mut widths), vec![5, 3, 8]);
    let increase = IncreaseLineCommand::new(0);
    increase.execute(&mut widths);
    assert_eq!(widths_of(&mut widths), vec![6, 3, 8]);
    increase.undo(&mut widths);
    assert_eq!(widths_of(&mut widths), vec![5, 3, 8]);
    let paste = PasteCommand::new(1, 40);
    paste.execute(&mut widths);
    assert_eq!(widths_of(&mut widths), vec![5, 43, 8]);
    paste.undo(&mut widths);
    assert_eq!(widths_of(&mut widths), vec![5, 3, 8]);
}

#[test]
fn undoing_the_decrease_of_an_empty_line_leaves_a_cluster() {
    let mut widths = GapBuffer::from_widths(vec![0]).unwrap();
    let decrease = DecreaseLineCommand::new(0);
    decrease.execute(&mut widths);
    assert_eq!(widths_of(&mut widths), vec![0]);
    decrease.undo(&mut widths);
    assert_eq!(widths_of(&mut widths), vec![1]);
}

#[test]
fn breaking_a_line_before_its_end() {
    let mut widths = GapBuffer::from_widths(vec![5, 10, 8]).unwrap();
    let command = JumpToNewLineWithContentCommand::new(10, 1, 4);
    command.execute(&mut widths);
    assert_eq!(widths_of(&mut widths), vec![5, 4, 6, 8]);
    command.undo(&mut widths);
    assert_eq!(widths_of(&mut widths), vec![5, 10, 8]);
}

#[test]
fn breaking_a_line_at_its_end() {
    let mut widths = GapBuffer::from_widths(vec![5, 10, 8]).unwrap();
    let command = JumpToNewLineWithoutContentCommand::new(2);
    command.execute(&mut widths);
    assert_eq!(widths_of(&mut widths), vec![5, 10, 8, 0]);
    command.undo(&mut widths);
    assert_eq!(widths_of(&mut widths), vec![5, 10, 8]);
    let middle = JumpToNewLineWithoutContentCommand::new(0);
    middle.execute(&mut widths);
    assert_eq!(widths_of(&mut widths), vec![5, 0, 10, 8]);
    middle.undo(&mut widths);
    assert_eq!(widths_of(&mut widths), vec![5, 10, 8]);
}

#[test]
fn commands_on_the_last_possible_row_do_nothing() {
    let mut widths = GapBuffer::from_widths(vec![5]).unwrap();
    JumpToNewLineWithoutContentCommand::new(usize::MAX).execute(&mut widths);
    JumpToNewLineWithoutContentCommand::new(usize::MAX).undo(&mut widths);
    JumpToNewLineWithContentCommand::new(3, usize::MAX, 1).execute(&mut widths);
    JumpToNewLineWithContentCommand::new(3, usize::MAX, 1).undo(&mut widths);
    assert_eq!(widths_of(&mut widths), vec![5]);
}

#[test]
fn display_lines_are_added_and_removed_by_commands() {
    let document = Rope::new("ab\ncd".to_string());
    let mut lines = LinesGapBuffer::new("ab\ncd", 10, 2);
    let add = AddLineCommand::new(1);
    add.execute(LineCommandContext::new(&mut lines, &document));
    assert_eq!(texts(&lines), vec!["ab", "", "cd"]);
    add.undo(LineCommandContext::new(&mut lines, &document));
    assert_eq!(texts(&lines), vec!["ab", "cd"]);
    let remove = RemoveLineCommand::new(0);
    remove.execute(LineCommandContext::new(&mut lines, &document));
    assert_eq!(texts(&lines), vec!["cd"]);
    remove.undo(LineCommandContext::new(&mut lines, &document));
    assert_eq!(texts(&lines), vec!["", "cd"]);
}

#[test]
fn display_lines_are_split_and_merged_by_commands() {
    let document = Rope::new("abcdef\nxy".to_string());
    let mut lines = LinesGapBuffer::new("abcdef\nxy", 10, 2);
    let split = SplitLineCommand::new(0, 4);
    split.execute(LineCommandContext::new(&mut lines, &document));
    assert_eq!(texts(&lines), vec!["abcd", "ef", "xy"]);
    split.undo(LineCommandContext::new(&mut lines, &document));
    assert_eq!(texts(&lines), vec!["abcdef", "xy"]);
    let merge = MergeLineCommand::new(1, 2);
    merge.execute(LineCommandContext::new(&mut lines, &document));
    assert_eq!(texts(&lines), vec!["abcdefxy"]);
    merge.undo(LineCommandContext::new(&mut lines, &document));
    assert_eq!(texts(&lines), vec!["abcdefxy"]);
    let back = MergeLineCommand::new(0, 6);
    back.undo(LineCommandContext::new(&mut lines, &document));
    assert_eq!(texts(&lines), vec!["abcdef", "xy"]);
}

#[test]
fn display_lines_take_on_ranges_of_the_document() {
    let document = Rope::new("Hello people".to_string());
    let mut lines = LinesGapBuffer::new("Hello", 20, 2);
    let grow = InsertIntoLineCommand::new(0, 3, (0, 4));
    grow.execute(LineCommandContext::new(&mut lines, &document));
    assert_eq!(texts(&lines), vec!["Hello pe"]);
    assert_eq!(lines.total(), 9);
    grow.undo(LineCommandContext::new(&mut lines, &document));
    assert_eq!(texts(&lines), vec!["Hello"]);
    let shrink = RemoveFromLineCommand::new(0, 2, (6, 11));
    shrink.execute(LineCommandContext::new(&mut lines, &document));
    assert_eq!(texts(&lines), vec!["peop"]);
    shrink.undo(LineCommandContext::new(&mut lines, &document));
    assert_eq!(texts(&lines), vec!["people"]);
    assert_eq!(lines.total(), 7);
    let missing = InsertIntoLineCommand::new(3, 1, (0, 4));
    missing.execute(LineCommandContext::new(&mut lines, &document));
    assert_eq!(texts(&lines), vec!["people"]);
}

#[test]
fn the_log_edits_text_and_widths_together() {
    let mut log = EditCommandLog::new("ab\ncde".to_string());
    assert_eq!(log_widths(&mut log), vec![2, 3]);
    let cursor = log.execute(
        ContentCommand::Insert(InsertCommand::new("x".to_string(), 1)),
        LineEdit::Increase(IncreaseLineCommand::new(0)),
    );
    assert_eq!(cursor, 2);
    assert_eq!(logged(&log), "axb\ncde");
    assert_eq!(log_widths(&mut log), vec![3, 3]);
    assert_eq!(log.row_column_for_index(cursor), (0, 2));
    let cursor = log.execute(
        ContentCommand::Insert(InsertCommand::new("\n".to_string(), 5)),
        LineEdit::JumpWithContent(JumpToNewLineWithContentCommand::new(3, 1, 1)),
    );
    assert_eq!(cursor, 6);
    assert_eq!(logged(&log), "axb\nc\nde");
    assert_eq!(log_widths(&mut log), vec![3, 1, 2]);
    assert_eq!(log.row_column_for_index(cursor), (2, 0));
    let cursor = log.execute(
        ContentCommand::Delete(DeleteCommand::new(1, 3)),
        LineEdit::MergeTop(LineMergeTopCommand::new(1, 1)),
    );
    assert_eq!(cursor, 3);
    assert_eq!(logged(&log), "axbc\nde");
    assert_eq!(log_widths(&mut log), vec![4, 2]);

    assert_eq!(log.undo(), Some(4));
    assert_eq!(logged(&log), "axb\nc\nde");
    assert_eq!(log_widths(&mut log), vec![3, 1, 2]);
    assert_eq!(log.undo(), Some(5));
    assert_eq!(logged(&log), "axb\ncde");
    assert_eq!(log_widths(&mut log), vec![3, 3]);
    assert_eq!(log.undo(), Some(1));
    assert_eq!(logged(&log), "ab\ncde");
    assert_eq!(log_widths(&mut log), vec![2, 3]);
    assert_eq!(log.undo(), None);

    assert_eq!(log.redo(), Some(2));
    assert_eq!(log.redo(), Some(6));
    assert_eq!(log.redo(), Some(3));
    assert_eq!(log.redo(), None);
    assert_eq!(logged(&log), "axbc\nde");
    assert_eq!(log_widths(&mut log), vec![4, 2]);
    let count = log.line_count();
    assert_eq!(count, 2);
    assert_eq!(log.line_width(2), None);
}

#[test]
fn the_log_collects_ranges() {
    let mut log = EditCommandLog::new("Hello\nworld".to_string());
    log.execute(
        ContentCommand::Insert(InsertCommand::new("!".to_string(), 11)),
        LineEdit::Paste(PasteCommand::new(1, 1)),
    );
    let mut part = String::new();
    log.collect_substring(&mut part, (6, 11));
    assert_eq!(part, "world!");
    assert_eq!(log_widths(&mut log), vec![5, 6]);
    assert_eq!(log.row_column_for_index(12), (1, 6));
    assert_eq!(log.row_column_for_index(13), (0, 0));
}

#[test]
fn a_new_edit_in_the_log_forgets_what_was_undone() {
    let mut log = EditCommandLog::new("ab".to_string());
    log.execute(
        ContentCommand::Insert(InsertCommand::new("c".to_string(), 2)),
        LineEdit::Increase(IncreaseLineCommand::new(0)),
    );
    assert_eq!(log.undo(), Some(2));
    log.execute(
        ContentCommand::Delete(DeleteCommand::new(1, 0)),
        LineEdit::Decrease(DecreaseLineCommand::new(0)),
    );
    assert_eq!(log.redo(), None);
    assert_eq!(logged(&log), "b");
    assert_eq!(log_widths(&mut log), vec![1]);
    assert_eq!(log.undo(), Some(1));
    assert_eq!(logged(&log), "ab");
    assert_eq!(log_widths(&mut log), vec![2]);
}
