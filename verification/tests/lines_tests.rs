use text_editor::edit_command_log::Rope;
use text_editor::lines_gap_buffer::LinesGapBuffer;
use text_editor::rc_substr::RcSubstr;
use text_editor::text_editor_line::{generate_lines, wrap_line, TextEditorLine, TypeOfLine};
use text_editor::text_representation::TextRepresentation;
use std::rc::Rc;

fn kinds_and_texts(buffer: &LinesGapBuffer) -> Vec<(TypeOfLine, String)> {
    let count = buffer.length();
    let before = buffer.starting_of_gap();
    let after = buffer.ending_of_gap() + 1;
    let slots = buffer.buffer();
    (0..count)
        .map(|row| {
            let slot = if row < before { row } else { after + (row - before) };
            (*slots[slot].type_of_line(), slots[slot].line().to_string())
        })
        .collect()
}

fn texts(buffer: &LinesGapBuffer) -> Vec<String> {
    buffer.get_lines().into_iter().map(String::from).collect()
}

fn line(text: &str, kind: TypeOfLine) -> TextEditorLine {
    TextEditorLine::new(text.to_string(), kind)
}

fn pair(kind: TypeOfLine, text: &str) -> (TypeOfLine, String) {
    (kind, text.to_string())
}

#[test]
fn a_line_knows_its_width_in_clusters() {
    let plain = line("hello", TypeOfLine::Independent);
    assert_eq!(plain.get_line_length(), 5);
    assert_eq!(plain.get_line_length_for_offset(), 6);
    assert_eq!(plain.line(), "hello");
    assert!(plain.is_independent());
    let accented = line("e\u{301}e\u{301}", TypeOfLine::Parent);
    assert_eq!(accented.get_line_length(), 2);
    assert_eq!(accented.get_line_length_for_offset(), 2);
    assert!(!accented.is_independent());
}

#[test]
fn only_a_line_that_closes_its_logical_line_counts_the_break() {
    assert_eq!(line("abc", TypeOfLine::Independent).get_line_length_for_offset(), 4);
    assert_eq!(line("abc", TypeOfLine::Terminator).get_line_length_for_offset(), 4);
    assert_eq!(line("abc", TypeOfLine::Parent).get_line_length_for_offset(), 3);
    assert_eq!(line("abc", TypeOfLine::Child).get_line_length_for_offset(), 3);
    assert_eq!(line("", TypeOfLine::Terminator).get_line_length_for_offset(), 1);
}

#[test]
fn the_default_line_is_empty_and_independent() {
    let empty = TextEditorLine::default();
    assert_eq!(empty.line(), "");
    assert_eq!(*empty.type_of_line(), TypeOfLine::Independent);
    assert_eq!(TypeOfLine::default(), TypeOfLine::Independent);
    assert_eq!(empty.get_line_length(), 0);
}

#[test]
fn kinds_open_and_close_logical_lines() {
    assert!(TypeOfLine::Independent.is_opening() && TypeOfLine::Independent.is_closing());
    assert!(TypeOfLine::Parent.is_opening() && !TypeOfLine::Parent.is_closing());
    assert!(!TypeOfLine::Child.is_opening() && !TypeOfLine::Child.is_closing());
    assert!(!TypeOfLine::Terminator.is_opening() && TypeOfLine::Terminator.is_closing());
    assert_eq!(TypeOfLine::between(true, true), TypeOfLine::Independent);
    assert_eq!(TypeOfLine::between(true, false), TypeOfLine::Parent);
    assert_eq!(TypeOfLine::between(false, true), TypeOfLine::Terminator);
    assert_eq!(TypeOfLine::between(false, false), TypeOfLine::Child);
}

#[test]
fn a_line_is_changed_in_place() {
    let mut changed = line("abc", TypeOfLine::Child);
    changed.add_to_line("de");
    assert_eq!(changed.line(), "abcde");
    changed.set_type_of_line(TypeOfLine::Terminator);
    assert_eq!(*changed.type_of_line(), TypeOfLine::Terminator);
    changed.clear_line();
    assert_eq!(changed.line(), "");
    assert_eq!(*changed.type_of_line(), TypeOfLine::Terminator);
}

#[test]
fn change_line_shows_a_range_of_the_document() {
    let document = Rope::new("Hello people".to_string());
    let mut shown = line("> ", TypeOfLine::Child);
    shown.change_line((6, 11), &document);
    assert_eq!(shown.line(), "people");
    shown.change_line((0, 4), &document);
    assert_eq!(shown.line(), "Hello");
    assert_eq!(*shown.type_of_line(), TypeOfLine::Child);
    shown.change_line((12, 20), &document);
    assert_eq!(shown.line(), "");
}

#[test]
fn split_line_cuts_between_clusters() {
    let mut cut = line("a\u{310}e\u{301}o\u{308}\u{332}", TypeOfLine::Independent);
    let rest = cut.split_line(1);
    assert_eq!(cut.line(), "a\u{310}");
    assert_eq!(rest, "e\u{301}o\u{308}\u{332}");
    assert_eq!(*cut.type_of_line(), TypeOfLine::Independent);
}

#[test]
fn split_line_at_the_ends() {
    let mut cut = line("hello", TypeOfLine::Parent);
    assert_eq!(cut.split_line(0), "hello");
    assert_eq!(cut.line(), "");
    let mut cut = line("hello", TypeOfLine::Parent);
    assert_eq!(cut.split_line(5), "");
    assert_eq!(cut.line(), "hello");
    assert_eq!(cut.split_line(77), "");
    assert_eq!(cut.line(), "hello");
}

#[test]
fn a_line_that_fits_is_not_wrapped() {
    let mut lines = Vec::new();
    wrap_line(&RcSubstr::new(Rc::new("hello".to_string())), 5, &mut lines);
    wrap_line(&RcSubstr::new(Rc::new(String::new())), 5, &mut lines);
    assert_eq!(lines.len(), 2);
    assert_eq!(lines[0].line(), "hello");
    assert_eq!(*lines[0].type_of_line(), TypeOfLine::Independent);
    assert_eq!(lines[1].line(), "");
    assert_eq!(*lines[1].type_of_line(), TypeOfLine::Independent);
}

#[test]
fn a_long_line_is_wrapped_into_segments() {
    let mut lines = Vec::new();
    wrap_line(&RcSubstr::new(Rc::new("abcdefghijk".to_string())), 4, &mut lines);
    let got: Vec<(TypeOfLine, &str)> =
        lines.iter().map(|line| (*line.type_of_line(), line.line())).collect();
    assert_eq!(
        got,
        vec![
            (TypeOfLine::Parent, "abcd"),
            (TypeOfLine::Child, "efgh"),
            (TypeOfLine::Terminator, "ijk"),
        ]
    );
}

#[test]
fn a_line_of_a_multiple_of_the_width_ends_with_an_empty_segment() {
    let mut lines = Vec::new();
    wrap_line(&RcSubstr::new(Rc::new("abcdefgh".to_string())), 4, &mut lines);
    let got: Vec<(TypeOfLine, &str)> =
        lines.iter().map(|line| (*line.type_of_line(), line.line())).collect();
    assert_eq!(
        got,
        vec![
            (TypeOfLine::Parent, "abcd"),
            (TypeOfLine::Child, "efgh"),
            (TypeOfLine::Terminator, ""),
        ]
    );
}

#[test]
fn wrapping_counts_clusters() {
    let mut lines = Vec::new();
    wrap_line(&RcSubstr::new(Rc::new("e\u{301}e\u{301}e\u{301}".to_string())), 2, &mut lines);
    assert_eq!(lines.len(), 2);
    assert_eq!(lines[0].line(), "e\u{301}e\u{301}");
    assert_eq!(lines[1].line(), "e\u{301}");
    assert_eq!(*lines[1].type_of_line(), TypeOfLine::Terminator);
}

#[test]
fn generated_lines_end_with_a_gap() {
    let (slots, start, end) = generate_lines("ab\nabcdefg\n\nxyz", 3);
    assert_eq!(start, 6);
    assert_eq!(end, 9);
    assert_eq!(slots.len(), 10);
    let got: Vec<(TypeOfLine, &str)> =
        slots[..start].iter().map(|line| (*line.type_of_line(), line.line())).collect();
    assert_eq!(
        got,
        vec![
            (TypeOfLine::Independent, "ab"),
            (TypeOfLine::Parent, "abc"),
            (TypeOfLine::Child, "def"),
            (TypeOfLine::Terminator, "g"),
            (TypeOfLine::Independent, ""),
            (TypeOfLine::Independent, "xyz"),
        ]
    );
    assert!(slots[start..].iter().all(|line| line.line().is_empty()));
}

#[test]
fn generated_lines_of_an_empty_text() {
    let (slots, start, end) = generate_lines("", 10);
    assert_eq!((start, end), (0, 0));
    assert_eq!(slots.len(), 1);
}

#[test]
fn a_new_buffer_wraps_the_text() {
    let buffer = LinesGapBuffer::new("ab\nabcdefg\n\nxyz", 3, 2);
    assert_eq!(buffer.length(), 6);
    assert_eq!(texts(&buffer), vec!["ab", "abc", "def", "g", "", "xyz"]);
    assert_eq!(buffer.index(1), Some(3));
    assert_eq!(buffer.index(3), Some(1));
    assert_eq!(buffer.index(4), Some(0));
    assert_eq!(buffer.index(6), None);
    assert_eq!(buffer.index_for_offset(0), Some(3));
    assert_eq!(buffer.index_for_offset(1), Some(3));
    assert_eq!(buffer.index_for_offset(3), Some(2));
    assert_eq!(buffer.index_for_offset(4), Some(1));
    assert_eq!(buffer.index_for_offset(6), None);
    assert_eq!(buffer.total(), 3 + 3 + 3 + 2 + 1 + 4);
    assert_eq!(buffer.starting_of_gap(), 6);
    assert_eq!(buffer.ending_of_gap(), 9);
}

#[test]
fn offsets_of_lines_are_their_places_in_the_document() {
    let text = "ab\nabcdefg\n\nxyz";
    for landmark_width in [0, 1, 2, 3, 100] {
        let buffer = LinesGapBuffer::new(text, 3, landmark_width);
        assert_eq!(buffer.find_offsets_for_line(0), (0, 1));
        assert_eq!(buffer.find_offsets_for_line(1), (3, 5));
        assert_eq!(buffer.find_offsets_for_line(2), (6, 8));
        assert_eq!(buffer.find_offsets_for_line(3), (9, 9));
        assert_eq!(buffer.find_offsets_for_line(4), (11, 10));
        assert_eq!(buffer.find_offsets_for_line(5), (12, 14));
        assert_eq!(buffer.find_offsets_for_line(6), (0, 0));
    }
}

#[test]
fn offsets_name_the_text_of_each_line_in_the_document() {
    let text = "ab\nabcdefg\n\nxyz";
    let document = Rope::new(text.to_string());
    let buffer = LinesGapBuffer::new(text, 3, 2);
    for (row, shown) in texts(&buffer).into_iter().enumerate() {
        if shown.is_empty() {
            continue;
        }
        let bounds = buffer.find_offsets_for_line(row);
        let mut part = String::new();
        document.collect_substring(&mut part, bounds);
        assert_eq!(part, shown);
    }
}

#[test]
fn an_empty_first_line_ends_where_it_starts() {
    let buffer = LinesGapBuffer::new("\nab", 5, 1);
    assert_eq!(buffer.find_offsets_for_line(0), (0, 0));
    assert_eq!(buffer.find_offsets_for_line(1), (1, 2));
}

#[test]
fn a_line_that_grows_past_the_width_is_split_in_two() {
    let mut buffer = LinesGapBuffer::new("ab\nabcde\nxyz", 5, 2);
    assert_eq!(
        kinds_and_texts(&buffer),
        vec![
            pair(TypeOfLine::Independent, "ab"),
            pair(TypeOfLine::Independent, "abcde"),
            pair(TypeOfLine::Independent, "xyz"),
        ]
    );
    let mut document = Rope::new("ab\nabcde\nxyz".to_string());
    let (start, end) = buffer.find_offsets_for_line(1);
    assert_eq!((start, end), (3, 7));
    document.insert("f".to_string(), end + 1);
    assert_eq!(buffer.change_line(1, (start, end + 1), &document), Some(()));
    assert_eq!(texts(&buffer), vec!["ab", "abcdef", "xyz"]);
    assert_eq!(buffer.split_a_line(1, 5), Some(()));
    assert_eq!(
        kinds_and_texts(&buffer),
        vec![
            pair(TypeOfLine::Independent, "ab"),
            pair(TypeOfLine::Parent, "abcde"),
            pair(TypeOfLine::Terminator, "f"),
            pair(TypeOfLine::Independent, "xyz"),
        ]
    );
    assert_eq!(buffer.find_offsets_for_line(0), (0, 1));
    assert_eq!(buffer.find_offsets_for_line(1), (3, 7));
    assert_eq!(buffer.find_offsets_for_line(2), (8, 8));
    assert_eq!(buffer.find_offsets_for_line(3), (10, 12));
    let mut part = String::new();
    document.collect_substring(&mut part, buffer.find_offsets_for_line(1));
    part.push('|');
    document.collect_substring(&mut part, buffer.find_offsets_for_line(2));
    part.push('|');
    document.collect_substring(&mut part, buffer.find_offsets_for_line(3));
    assert_eq!(part, "abcde|f|xyz");
}

#[test]
fn split_tags_the_parts_by_the_kind_of_the_line() {
    let lines = vec![
        line("abcd", TypeOfLine::Parent),
        line("efgh", TypeOfLine::Child),
        line("ijkl", TypeOfLine::Terminator),
    ];
    let mut buffer = LinesGapBuffer::from_lines(lines, 0).unwrap();
    assert_eq!(buffer.split_a_line(2, 1), Some(()));
    assert_eq!(buffer.split_a_line(1, 2), Some(()));
    assert_eq!(buffer.split_a_line(0, 3), Some(()));
    assert_eq!(
        kinds_and_texts(&buffer),
        vec![
            pair(TypeOfLine::Parent, "abc"),
            pair(TypeOfLine::Child, "d"),
            pair(TypeOfLine::Child, "ef"),
            pair(TypeOfLine::Child, "gh"),
            pair(TypeOfLine::Child, "i"),
            pair(TypeOfLine::Terminator, "jkl"),
        ]
    );
    assert_eq!(buffer.total(), 13);
    assert_eq!(buffer.split_a_line(6, 0), None);
}

#[test]
fn merge_is_the_reverse_of_split() {
    let mut buffer = LinesGapBuffer::new("ab\nabcdef\nxyz", 10, 1);
    assert_eq!(buffer.split_a_line(1, 4), Some(()));
    assert_eq!(texts(&buffer), vec!["ab", "abcd", "ef", "xyz"]);
    assert_eq!(buffer.find_offsets_for_line(3), (10, 12));
    assert_eq!(buffer.merge_two_lines(2), Some(()));
    assert_eq!(
        kinds_and_texts(&buffer),
        vec![
            pair(TypeOfLine::Independent, "ab"),
            pair(TypeOfLine::Independent, "abcdef"),
            pair(TypeOfLine::Independent, "xyz"),
        ]
    );
    assert_eq!(buffer.find_offsets_for_line(1), (3, 8));
    assert_eq!(buffer.find_offsets_for_line(2), (10, 12));
    assert_eq!(buffer.total(), 14);
}

#[test]
fn merge_of_two_logical_lines_drops_a_break() {
    let mut buffer = LinesGapBuffer::new("ab\ncd\nef", 10, 2);
    assert_eq!(buffer.total(), 9);
    assert_eq!(buffer.merge_two_lines(1), Some(()));
    assert_eq!(
        kinds_and_texts(&buffer),
        vec![pair(TypeOfLine::Independent, "abcd"), pair(TypeOfLine::Independent, "ef")]
    );
    assert_eq!(buffer.total(), 8);
    assert_eq!(buffer.find_offsets_for_line(1), (5, 6));
}

#[test]
fn merge_without_two_lines_does_nothing() {
    let mut buffer = LinesGapBuffer::new("ab\ncd", 10, 2);
    assert_eq!(buffer.merge_two_lines(0), None);
    assert_eq!(buffer.merge_two_lines(2), None);
    assert_eq!(texts(&buffer), vec!["ab", "cd"]);
}

#[test]
fn lines_are_added_and_removed() {
    let mut buffer = LinesGapBuffer::new("ab\ncd\nef", 10, 2);
    buffer.add_item_with_content(1, "xyz".to_string());
    assert_eq!(texts(&buffer), vec!["ab", "xyz", "cd", "ef"]);
    buffer.add_item(4);
    buffer.add_item(0);
    assert_eq!(texts(&buffer), vec!["", "ab", "xyz", "cd", "ef", ""]);
    assert_eq!(buffer.total(), 1 + 3 + 4 + 3 + 3 + 1);
    assert_eq!(buffer.remove_item(2).unwrap().line(), "xyz");
    assert_eq!(buffer.remove_item(0).unwrap().line(), "");
    assert!(buffer.remove_item(4).is_none());
    assert_eq!(texts(&buffer), vec!["ab", "cd", "ef", ""]);
    buffer.add_item(9);
    assert_eq!(buffer.length(), 4);
}

#[test]
fn landmarks_follow_the_lines() {
    let text = "a\nbb\nccc\ndddd\neeeee\nffffff\nggggggg";
    for landmark_width in [0, 1, 2, 3, 4] {
        let mut buffer = LinesGapBuffer::new(text, 20, landmark_width);
        buffer.add_item_with_content(2, "12345".to_string());
        assert_eq!(buffer.find_offsets_for_line(2), (5, 9));
        assert_eq!(buffer.find_offsets_for_line(3), (11, 13));
        assert_eq!(buffer.find_offsets_for_line(7), (33, 39));
        assert_eq!(buffer.remove_item(0).unwrap().line(), "a");
        assert_eq!(buffer.find_offsets_for_line(0), (0, 1));
        assert_eq!(buffer.find_offsets_for_line(1), (3, 7));
        assert_eq!(buffer.find_offsets_for_line(6), (31, 37));
        assert_eq!(buffer.remove_item(6).unwrap().line(), "ggggggg");
        assert_eq!(buffer.remove_item(4).unwrap().line(), "eeeee");
        assert_eq!(buffer.find_offsets_for_line(4), (18, 23));
        assert_eq!(buffer.split_a_line(2, 1), Some(()));
        assert_eq!(buffer.find_offsets_for_line(3), (10, 11));
        assert_eq!(buffer.find_offsets_for_line(5), (18, 23));
        assert_eq!(buffer.merge_two_lines(2), Some(()));
        assert_eq!(
            kinds_and_texts(&buffer),
            vec![
                pair(TypeOfLine::Independent, "bb"),
                pair(TypeOfLine::Parent, "12345c"),
                pair(TypeOfLine::Terminator, "cc"),
                pair(TypeOfLine::Independent, "dddd"),
                pair(TypeOfLine::Independent, "ffffff"),
            ]
        );
        assert_eq!(buffer.find_offsets_for_line(2), (9, 10));
        assert_eq!(buffer.find_offsets_for_line(4), (17, 22));
        assert_eq!(buffer.total(), 24);
    }
}

#[test]
fn the_lines_buffer_doubles_when_the_gap_is_used_up() {
    let lines = vec![line("a", TypeOfLine::Independent)];
    let mut buffer = LinesGapBuffer::from_lines(lines, 1).unwrap();
    assert_eq!(buffer.buffer().len(), 2);
    for round in 0..9 {
        buffer.add_item_with_content(round % 2, round.to_string());
    }
    assert_eq!(texts(&buffer), vec!["8", "6", "7", "4", "5", "2", "3", "0", "1", "a"]);
    assert_eq!(buffer.length(), 10);
    assert!(buffer.buffer().len() >= 10);
    assert_eq!(buffer.find_offsets_for_line(9), (18, 18));
}

#[test]
fn widths_add_up_before_a_line() {
    let buffer = LinesGapBuffer::new("ab\nabcdefg\n\nxyz", 3, 2);
    assert_eq!(buffer.length_up_to_non_inclusive_index(0), 0);
    assert_eq!(buffer.length_up_to_non_inclusive_index(1), 2);
    assert_eq!(buffer.length_up_to_non_inclusive_index(4), 9);
    assert_eq!(buffer.length_up_to_non_inclusive_index(6), 12);
    assert_eq!(buffer.length_up_to_non_inclusive_index(60), 12);
}

#[test]
fn positions_in_display_lines() {
    let buffer = LinesGapBuffer::new("ab\ncde", 10, 2);
    assert_eq!(buffer.find_where_rope_index_fits(0), (0, 0));
    assert_eq!(buffer.find_where_rope_index_fits(2), (0, 2));
    assert_eq!(buffer.find_where_rope_index_fits(3), (1, 0));
    assert_eq!(buffer.find_where_rope_index_fits(6), (1, 3));
    assert_eq!(buffer.find_where_rope_index_fits(7), (0, 0));
}

#[test]
fn the_default_lines_buffer_has_no_lines() {
    let buffer = LinesGapBuffer::default();
    assert_eq!(buffer.length(), 0);
    assert_eq!(buffer.total(), 0);
    assert!(buffer.get_lines().is_empty());
    assert_eq!(buffer.find_offsets_for_line(0), (0, 0));
}

#[test]
fn landmarks_are_set_at_every_few_lines() {
    let text = "a\nbb\nccc\ndddd\neeeee\nffffff\nggggggg";
    let buffer = LinesGapBuffer::new(text, 20, 3);
    assert_eq!(buffer.landmark_width(), 3);
    assert_eq!(buffer.landmarks_positions(), &[0, 3, 6]);
    assert_eq!(buffer.landmarks_offsets(), &[0, 9, 27]);
    let none = LinesGapBuffer::new(text, 20, 0);
    assert!(none.landmarks_positions().is_empty());
}

#[test]
fn landmarks_move_with_the_lines_after_them() {
    let text = "a\nbb\nccc\ndddd\neeeee\nffffff\nggggggg";
    let mut buffer = LinesGapBuffer::new(text, 20, 3);
    buffer.add_item_with_content(3, "xy".to_string());
    assert_eq!(buffer.landmarks_positions(), &[0, 4, 7]);
    assert_eq!(buffer.landmarks_offsets(), &[0, 12, 30]);
    buffer.add_item_with_content(8, "z".to_string());
    assert_eq!(buffer.landmarks_positions(), &[0, 4, 7]);
    assert_eq!(buffer.remove_item(4).unwrap().line(), "dddd");
    assert_eq!(buffer.landmarks_positions(), &[0, 4, 6]);
    assert_eq!(buffer.landmarks_offsets(), &[0, 12, 25]);
    assert_eq!(buffer.remove_item(5).unwrap().line(), "ffffff");
    assert_eq!(buffer.landmarks_positions(), &[0, 4, 5]);
    assert_eq!(buffer.landmarks_offsets(), &[0, 12, 18]);
    assert_eq!(buffer.remove_item(4).unwrap().line(), "eeeee");
    assert_eq!(buffer.landmarks_positions(), &[0, 4]);
    assert_eq!(buffer.landmarks_offsets(), &[0, 12]);
    assert_eq!(buffer.remove_item(5).unwrap().line(), "z");
    assert_eq!(buffer.remove_item(4).unwrap().line(), "ggggggg");
    assert_eq!(buffer.landmarks_positions(), &[0]);
    assert_eq!(texts(&buffer), vec!["a", "bb", "ccc", "xy"]);
    assert_eq!(buffer.split_a_line(2, 1), Some(()));
    assert_eq!(buffer.change_line(0, (0, 2), &Rope::new("hello".to_string())), Some(()));
    assert_eq!(buffer.landmarks_positions(), &[0]);
    assert_eq!(buffer.landmarks_offsets(), &[0]);
    assert_eq!(buffer.find_offsets_for_line(1), (4, 5));
}
