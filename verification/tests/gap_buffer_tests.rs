use text_editor::gap_buffer::{get_line_widths, layout_line_widths, GapBuffer, SENTINEL};
use text_editor::lines::measure_lines;

fn widths_of(buffer: &mut GapBuffer) -> Vec<usize> {
    let count = buffer.length();
    (0..count).map(|line| buffer.index(line).unwrap()).collect()
}

fn sample() -> GapBuffer {
    GapBuffer::from_widths(vec![5, 0, 12, 7]).unwrap()
}

#[test]
fn lines_are_measured_in_clusters() {
    assert_eq!(measure_lines("hello\nwonderful world\n\nend"), vec![5, 15, 0, 3]);
    assert_eq!(measure_lines("e\u{301}e\u{301}\r\nab"), vec![2, 2]);
    assert_eq!(measure_lines(""), Vec::<usize>::new());
    assert_eq!(measure_lines("\n"), vec![0]);
    assert_eq!(measure_lines("one line"), vec![8]);
    assert_eq!(measure_lines("ends with a break\n"), vec![17]);
}

#[test]
fn a_carriage_return_without_a_line_feed_stays_in_the_line() {
    assert_eq!(measure_lines("ab\rcd"), vec![5]);
    assert_eq!(measure_lines("ab\r"), vec![3]);
    assert_eq!(measure_lines("ab\r\n"), vec![2]);
    assert_eq!(measure_lines("ab\r\r\n"), vec![3]);
}

#[test]
fn layout_puts_the_gap_after_the_first_half() {
    let (buffer, start, end) = layout_line_widths(vec![1, 2, 3, 4]);
    assert_eq!(
        buffer,
        vec![1, 2, SENTINEL, SENTINEL, SENTINEL, SENTINEL, SENTINEL, SENTINEL, 3, 4]
    );
    assert_eq!((start, end), (2, 7));
}

#[test]
fn layout_of_an_odd_number_of_lines() {
    let (buffer, start, end) = layout_line_widths(vec![7, 8, 9]);
    assert_eq!(buffer, vec![7, SENTINEL, SENTINEL, SENTINEL, SENTINEL, SENTINEL, 8, 9]);
    assert_eq!((start, end), (1, 5));
}

#[test]
fn layout_of_one_line() {
    let (buffer, start, end) = layout_line_widths(vec![11]);
    assert_eq!(buffer, vec![11, SENTINEL, SENTINEL]);
    assert_eq!((start, end), (1, 2));
}

#[test]
fn layout_of_no_lines_has_a_gap_of_one_slot() {
    let (buffer, start, end) = layout_line_widths(Vec::new());
    assert_eq!(buffer, vec![SENTINEL]);
    assert_eq!((start, end), (0, 0));
}

#[test]
fn line_widths_of_a_text() {
    let (buffer, start, end) = get_line_widths("ab\ncde\nf");
    assert_eq!(buffer, vec![2, SENTINEL, SENTINEL, SENTINEL, SENTINEL, SENTINEL, 3, 1]);
    assert_eq!((start, end), (1, 5));
    let (buffer, start, end) = get_line_widths("e\u{301}");
    assert_eq!(buffer, vec![1, 999, 999]);
    assert_eq!((start, end), (1, 2));
}

#[test]
fn a_new_buffer_holds_the_widths_of_the_lines() {
    let mut buffer = GapBuffer::new("hello\nwonderful world\n\nend");
    assert_eq!(buffer.length(), 4);
    assert_eq!(widths_of(&mut buffer), vec![5, 15, 0, 3]);
    assert_eq!(buffer.starting_of_gap(), 2);
    assert_eq!(buffer.ending_of_gap(), 7);
    assert_eq!(buffer.buffer().len(), 10);
    assert_eq!(buffer.total(), 23);
}

#[test]
fn a_new_buffer_over_an_empty_text_has_no_lines() {
    let mut buffer = GapBuffer::new("");
    assert_eq!(buffer.length(), 0);
    assert_eq!(buffer.index(0), None);
    assert_eq!(buffer.total(), 0);
    buffer.add_item_with_count(0, 4);
    assert_eq!(widths_of(&mut buffer), vec![4]);
}

#[test]
fn the_second_constructor_puts_the_gap_at_the_end() {
    let mut buffer = GapBuffer::new_2("ab\ncde\nf".to_string());
    assert_eq!(widths_of(&mut buffer), vec![2, 3, 1]);
    assert_eq!(buffer.starting_of_gap(), 3);
    assert_eq!(buffer.ending_of_gap(), 3);
    assert_eq!(buffer.buffer(), &[2, 3, 1, SENTINEL]);
}

#[test]
fn the_default_buffer_has_no_lines() {
    let mut buffer = GapBuffer::default();
    assert_eq!(buffer.length(), 0);
    assert_eq!(buffer.buffer(), &[SENTINEL]);
    assert_eq!(buffer.find_where_rope_index_fits(0), (0, 0));
    assert_eq!(buffer.length_up_to_non_inclusive_index(3), 0);
}

#[test]
fn from_widths_refuses_a_sum_that_does_not_fit() {
    assert!(GapBuffer::from_widths(vec![usize::MAX, 1]).is_none());
    assert!(GapBuffer::from_widths(vec![usize::MAX - 1, 1]).is_some());
    assert!(GapBuffer::from_widths(Vec::new()).is_some());
}

#[test]
fn index_reads_on_both_sides_of_the_gap() {
    let mut buffer = GapBuffer::new("a\nbb\nccc\ndddd");
    assert_eq!(buffer.starting_of_gap(), 2);
    assert_eq!(buffer.index(0), Some(1));
    assert_eq!(buffer.index(1), Some(2));
    assert_eq!(buffer.index(2), Some(3));
    assert_eq!(buffer.index(3), Some(4));
    assert_eq!(buffer.index(4), None);
    assert_eq!(buffer.index(usize::MAX), None);
}

#[test]
fn add_item_moves_the_gap_forward() {
    let mut buffer = sample();
    buffer.add_item_with_count(1, 9);
    assert_eq!(buffer.starting_of_gap(), 2);
    assert_eq!(buffer.ending_of_gap(), 1);
    assert_eq!(buffer.buffer(), &[5, 9, 0, 12, 7]);
    assert_eq!(widths_of(&mut buffer), vec![5, 9, 0, 12, 7]);
    assert_eq!(buffer.total(), 33);
}

#[test]
fn add_item_at_the_gap() {
    let mut buffer = sample();
    assert_eq!(buffer.starting_of_gap(), 4);
    buffer.add_item(4);
    assert_eq!(buffer.starting_of_gap(), 5);
    assert_eq!(widths_of(&mut buffer), vec![5, 0, 12, 7, 0]);
}

#[test]
fn add_item_after_the_gap() {
    let mut buffer = GapBuffer::new("a\nbb\nccc\ndddd");
    assert_eq!(buffer.starting_of_gap(), 2);
    buffer.add_item_with_count(3, 8);
    assert_eq!(widths_of(&mut buffer), vec![1, 2, 3, 8, 4]);
    assert_eq!(buffer.starting_of_gap(), 4);
    assert_eq!(buffer.buffer().len(), 10);
    assert_eq!(buffer.ending_of_gap(), 8);
    assert_eq!(buffer.buffer(), &[1, 2, 3, 8, 999, 999, 999, 999, 999, 4]);
}

#[test]
fn add_item_before_the_gap() {
    let mut buffer = GapBuffer::new("a\nbb\nccc\ndddd");
    buffer.add_item_with_count(0, 8);
    assert_eq!(widths_of(&mut buffer), vec![8, 1, 2, 3, 4]);
    assert_eq!(buffer.starting_of_gap(), 1);
    assert_eq!(buffer.ending_of_gap(), 5);
    assert_eq!(buffer.buffer(), &[8, 999, 999, 999, 999, 999, 1, 2, 3, 4]);
}

#[test]
fn add_item_above_the_number_of_lines_changes_nothing() {
    let mut buffer = sample();
    buffer.add_item_with_count(5, 3);
    buffer.add_item(99);
    assert_eq!(widths_of(&mut buffer), vec![5, 0, 12, 7]);
}

#[test]
fn add_item_without_room_for_the_sum_changes_nothing() {
    let mut buffer = GapBuffer::from_widths(vec![usize::MAX - 2]).unwrap();
    buffer.add_item_with_count(1, 3);
    assert_eq!(widths_of(&mut buffer), vec![usize::MAX - 2]);
    buffer.add_item_with_count(1, 2);
    assert_eq!(widths_of(&mut buffer), vec![usize::MAX - 2, 2]);
}

#[test]
fn the_buffer_doubles_when_the_gap_is_used_up() {
    let mut buffer = GapBuffer::from_widths(vec![1, 2]).unwrap();
    assert_eq!(buffer.buffer().len(), 3);
    buffer.add_item_with_count(2, 3);
    assert_eq!(buffer.buffer(), &[1, 2, 3]);
    assert_eq!(buffer.starting_of_gap(), 3);
    assert_eq!(buffer.ending_of_gap(), 2);
    assert_eq!(buffer.length(), 3);
    assert_eq!(buffer.buffer(), &[1, 2, 3, 999, 999, 999]);
    assert_eq!(buffer.starting_of_gap(), 3);
    assert_eq!(buffer.ending_of_gap(), 5);
    buffer.add_item_with_count(0, 4);
    assert_eq!(widths_of(&mut buffer), vec![4, 1, 2, 3]);
}

#[test]
fn remove_item_returns_the_width() {
    let mut buffer = sample();
    assert_eq!(buffer.remove_item(2), Some(12));
    assert_eq!(widths_of(&mut buffer), vec![5, 0, 7]);
    assert_eq!(buffer.starting_of_gap(), 2);
    assert_eq!(buffer.remove_item(0), Some(5));
    assert_eq!(widths_of(&mut buffer), vec![0, 7]);
    assert_eq!(buffer.remove_item(1), Some(7));
    assert_eq!(buffer.remove_item(0), Some(0));
    assert_eq!(buffer.length(), 0);
    assert_eq!(buffer.total(), 0);
}

#[test]
fn remove_item_folds_the_slot_into_the_gap() {
    let mut buffer = GapBuffer::new("a\nbb\nccc\ndddd");
    assert_eq!(buffer.remove_item(3), Some(4));
    assert_eq!(buffer.buffer(), &[1, 2, 3, 999, 999, 999, 999, 999, 999, 999]);
    assert_eq!((buffer.starting_of_gap(), buffer.ending_of_gap()), (3, 9));
    assert_eq!(buffer.remove_item(0), Some(1));
    assert_eq!(buffer.buffer(), &[999, 999, 999, 999, 999, 999, 999, 999, 2, 3]);
    assert_eq!((buffer.starting_of_gap(), buffer.ending_of_gap()), (0, 7));
}

#[test]
fn remove_item_without_such_a_line() {
    let mut buffer = sample();
    assert_eq!(buffer.remove_item(4), None);
    assert_eq!(buffer.remove_item(usize::MAX), None);
    assert_eq!(widths_of(&mut buffer), vec![5, 0, 12, 7]);
}

#[test]
fn increase_and_decrease_change_one_line() {
    let mut buffer = sample();
    assert_eq!(buffer.increase(1), Some(()));
    assert_eq!(buffer.increase_with_count(3, 10), Some(()));
    assert_eq!(buffer.decrease(0), Some(()));
    assert_eq!(buffer.decrease_with_count(2, 5), Some(()));
    assert_eq!(widths_of(&mut buffer), vec![4, 1, 7, 17]);
    assert_eq!(buffer.total(), 29);
}

#[test]
fn decrease_stops_at_zero() {
    let mut buffer = sample();
    assert_eq!(buffer.decrease(1), Some(()));
    assert_eq!(buffer.decrease_with_count(0, 9), Some(()));
    assert_eq!(widths_of(&mut buffer), vec![0, 0, 12, 7]);
    assert_eq!(buffer.total(), 19);
}

#[test]
fn increase_and_decrease_without_such_a_line() {
    let mut buffer = sample();
    assert_eq!(buffer.increase(4), None);
    assert_eq!(buffer.increase_with_count(9, 2), None);
    assert_eq!(buffer.decrease(4), None);
    assert_eq!(buffer.decrease_with_count(7, 1), None);
    assert_eq!(widths_of(&mut buffer), vec![5, 0, 12, 7]);
}

#[test]
fn increase_without_room_for_the_sum() {
    let mut buffer = GapBuffer::from_widths(vec![usize::MAX - 1, 0]).unwrap();
    assert_eq!(buffer.increase_with_count(1, 2), None);
    assert_eq!(buffer.increase(1), Some(()));
    assert_eq!(buffer.increase(0), None);
    assert_eq!(widths_of(&mut buffer), vec![usize::MAX - 1, 1]);
}

#[test]
fn prefix_sums_of_the_widths() {
    let mut buffer = GapBuffer::new("a\nbb\nccc\ndddd");
    assert_eq!(buffer.length_up_to_non_inclusive_index(0), 0);
    assert_eq!(buffer.length_up_to_non_inclusive_index(1), 1);
    assert_eq!(buffer.length_up_to_non_inclusive_index(2), 3);
    assert_eq!(buffer.length_up_to_non_inclusive_index(3), 6);
    assert_eq!(buffer.length_up_to_non_inclusive_index(4), 10);
    assert_eq!(buffer.length_up_to_non_inclusive_index(400), 10);
}

#[test]
fn the_sum_up_to_the_line_count_is_the_size_of_the_document() {
    let text = "Hello\nwonderful world\n\nend";
    let mut buffer = GapBuffer::new(text);
    let mut characters = text.chars().filter(|&letter| letter != '\n').count();
    let count = buffer.length();
    assert_eq!(buffer.length_up_to_non_inclusive_index(count), characters);
    buffer.increase(0);
    buffer.increase_with_count(2, 4);
    characters += 5;
    buffer.add_item_with_count(1, 6);
    characters += 6;
    buffer.decrease(4);
    characters -= 1;
    buffer.decrease_with_count(2, 100);
    characters -= 15;
    assert_eq!(buffer.remove_item(1), Some(6));
    characters -= 6;
    buffer.add_item(0);
    let count = buffer.length();
    assert_eq!(count, 5);
    assert_eq!(buffer.length_up_to_non_inclusive_index(count), characters);
    assert_eq!(buffer.total(), characters);
    assert_eq!(widths_of(&mut buffer), vec![0, 6, 0, 4, 2]);
}

#[test]
fn positions_are_found_by_row_and_column() {
    let mut buffer = GapBuffer::new("ab\ncde\n\nf");
    assert_eq!(buffer.find_where_rope_index_fits(0), (0, 0));
    assert_eq!(buffer.find_where_rope_index_fits(1), (0, 1));
    assert_eq!(buffer.find_where_rope_index_fits(2), (0, 2));
    assert_eq!(buffer.find_where_rope_index_fits(3), (1, 0));
    assert_eq!(buffer.find_where_rope_index_fits(5), (1, 2));
    assert_eq!(buffer.find_where_rope_index_fits(6), (1, 3));
    assert_eq!(buffer.find_where_rope_index_fits(7), (2, 0));
    assert_eq!(buffer.find_where_rope_index_fits(8), (3, 0));
    assert_eq!(buffer.find_where_rope_index_fits(9), (3, 1));
}

#[test]
fn a_position_past_the_last_line_gives_the_origin() {
    let mut buffer = GapBuffer::new("ab\ncde\n\nf");
    assert_eq!(buffer.find_where_rope_index_fits(10), (0, 0));
    assert_eq!(buffer.find_where_rope_index_fits(usize::MAX), (0, 0));
}

#[test]
fn queries_give_the_same_after_the_gap_moves() {
    let mut buffer = GapBuffer::new("ab\ncde\n\nf");
    buffer.add_item(4);
    assert_eq!(buffer.remove_item(4), Some(0));
    assert_eq!(buffer.starting_of_gap(), 4);
    assert_eq!(buffer.find_where_rope_index_fits(6), (1, 3));
    assert_eq!(buffer.find_where_rope_index_fits(9), (3, 1));
    assert_eq!(buffer.length_up_to_non_inclusive_index(3), 5);
    buffer.add_item(0);
    assert_eq!(buffer.remove_item(0), Some(0));
    assert_eq!(buffer.starting_of_gap(), 0);
    assert_eq!(buffer.find_where_rope_index_fits(6), (1, 3));
    assert_eq!(buffer.length_up_to_non_inclusive_index(3), 5);
    assert_eq!(widths_of(&mut buffer), vec![2, 3, 0, 1]);
}
