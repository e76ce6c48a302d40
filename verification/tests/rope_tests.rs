use std::rc::Rc;
use text_editor::rc_substr::RcSubstr;
use text_editor::rope::{
    assemble, build_rope, collect_string, concatenate, fibonacci_bucket, find_length,
    flatten_leaves, from_text, index, insert, insert_graphemes, insert_rope, join, rebalance,
    remove, split, sub_rope, sub_str, Node, LEAF_LEN,
};

fn text_of(node: &Node) -> String {
    let mut collected = String::new();
    collect_string(node, &mut collected);
    collected
}

fn leaf(text: &str) -> Box<Node> {
    Box::new(Node::new(RcSubstr::new(Rc::new(text.to_string()))))
}

fn skewed_chain() -> Node {
    let tail = assemble(Some(leaf("d")), Some(leaf("e")));
    let third = assemble(Some(leaf("c")), Some(Box::new(tail)));
    let second = assemble(Some(leaf("b")), Some(Box::new(third)));
    assemble(Some(leaf("a")), Some(Box::new(second)))
}

fn clusters_of(node: &Node) -> Vec<String> {
    let mut clusters = Vec::new();
    let mut at = 0;
    while let Some(cluster) = index(node, at) {
        clusters.push(cluster.to_string());
        at += 1;
    }
    clusters
}

#[test]
fn hello_gets_a_letter_at_its_end() {
    let rope = from_text("hello".to_string());
    assert_eq!(find_length(&rope), 5);
    let rope = insert(5, rope, "p".to_string());
    assert_eq!(find_length(&rope), 6);
    assert_eq!(rope.len(), 6);
    assert_eq!(text_of(&rope), "hellop");
}

#[test]
fn hello_is_built_over_two_leaves() {
    let rope = from_text("hello".to_string());
    let mut leaves = Vec::new();
    flatten_leaves(&rope, &mut leaves);
    assert_eq!(leaves.len(), 2);
    assert_eq!(leaves[0].as_str(), "hel");
    assert_eq!(leaves[1].as_str(), "lo");
    assert_eq!(rope.depth(), 1);
    assert!(leaves.iter().all(|leaf| leaf.len() <= LEAF_LEN));
}

#[test]
fn insert_in_the_middle_of_a_sentence() {
    let rope = from_text("Hello my name is Simon".to_string());
    assert_eq!(find_length(&rope), 22);
    let rope = insert(6, rope, "people ".to_string());
    assert_eq!(text_of(&rope), "Hello people my name is Simon");
    assert_eq!(index(&rope, 9), Some("p"));
    assert_eq!(index(&rope, 0), Some("H"));
    assert_eq!(index(&rope, 28), Some("n"));
    assert_eq!(index(&rope, 29), None);
}

#[test]
fn remove_the_last_letter_of_a_sentence() {
    let rope = from_text("Hello my name is Simon".to_string());
    let rope = Box::new(insert(6, rope, "people ".to_string()));
    assert_eq!(index(&rope, 28), Some("n"));
    let rope = remove(28, rope, 1);
    assert_eq!(text_of(&rope), "Hello people my name is Simo");
    assert_eq!(find_length(&rope), 28);
}

#[test]
fn remove_the_letter_before_the_last_of_a_sentence() {
    let rope = from_text("Hello my name is Simon".to_string());
    let rope = Box::new(insert(6, rope, "people ".to_string()));
    assert_eq!(index(&rope, 27), Some("o"));
    let rope = remove(27, rope, 1);
    assert_eq!(text_of(&rope), "Hello people my name is Simn");
    assert_eq!(find_length(&rope), 28);
}

#[test]
fn skewed_chain_is_rebalanced() {
    let chain = skewed_chain();
    assert_eq!(chain.depth(), 4);
    assert_eq!(chain.len(), 5);
    assert!(!chain.is_balanced());
    assert_eq!(text_of(&chain), "abcde");
    let balanced = rebalance(chain);
    assert!(balanced.is_balanced());
    assert!(balanced.is_all_balanced());
    assert_eq!(text_of(&balanced), "abcde");
    assert_eq!(balanced.len(), 5);
    assert!(balanced.depth() <= 2);
}

#[test]
fn rebalance_leaves_a_balanced_rope_alone() {
    let rope = from_text("hello world".to_string());
    let depth = rope.depth();
    assert!(rope.is_balanced());
    let same = rebalance(*rope);
    assert_eq!(same.depth(), depth);
    assert_eq!(text_of(&same), "hello world");
}

#[test]
fn rebalance_leaves_an_empty_rope_alone() {
    let empty = Node::empty();
    assert!(!empty.is_balanced());
    let same = rebalance(empty);
    assert_eq!(same.len(), 0);
    assert_eq!(same.depth(), 0);
    assert_eq!(text_of(&same), "");
}

#[test]
fn rebalance_of_a_long_chain_is_balanced_at_every_node() {
    let mut chain = *leaf("z");
    let letters = "abcdefghijklmnopqrstuvwxy";
    for letter in letters.chars().rev() {
        chain = assemble(Some(leaf(&letter.to_string())), Some(Box::new(chain)));
    }
    assert_eq!(chain.depth(), 25);
    assert_eq!(chain.len(), 26);
    assert!(!chain.is_balanced());
    let balanced = rebalance(chain);
    assert!(balanced.is_all_balanced());
    assert_eq!(text_of(&balanced), "abcdefghijklmnopqrstuvwxyz");
    assert!(balanced.depth() <= 7);
}

#[test]
fn weights_are_the_lengths_of_the_left_children() {
    let rope = from_text("Hello my name is Simon".to_string());
    let whole = find_length(&rope);
    let right = rope.right().expect("a rope of 22 clusters has a right child");
    let right_length = find_length(right);
    assert_eq!(whole, 22);
    assert_eq!(right_length, 11);
    assert_eq!(right.len(), 11);
}

#[test]
fn point_query_agrees_with_the_text() {
    let text = "Hello people my name is Simon";
    let rope = from_text(text.to_string());
    for (at, letter) in text.chars().enumerate() {
        assert_eq!(index(&rope, at), Some(letter.to_string().as_str()));
    }
    assert_eq!(index(&rope, text.len()), None);
    assert_eq!(index(&rope, usize::MAX), None);
}

#[test]
fn clusters_of_several_characters_are_kept_whole() {
    let text = "a\u{310}e\u{301}o\u{308}\u{332}";
    let rope = from_text(text.to_string());
    assert_eq!(find_length(&rope), 3);
    assert_eq!(index(&rope, 0), Some("a\u{310}"));
    assert_eq!(index(&rope, 1), Some("e\u{301}"));
    assert_eq!(index(&rope, 2), Some("o\u{308}\u{332}"));
    assert_eq!(text_of(&rope), text);
    let rope = remove(1, rope, 1);
    assert_eq!(text_of(&rope), "a\u{310}o\u{308}\u{332}");
    assert_eq!(find_length(&rope), 2);
}

#[test]
fn flags_and_line_ends_are_single_clusters() {
    let rope = from_text("a\r\nb🇷🇺🇸🇹".to_string());
    assert_eq!(clusters_of(&rope), vec!["a", "\r\n", "b", "🇷🇺", "🇸🇹"]);
}

#[test]
fn clusters_put_in_apart_stay_apart() {
    let rope = from_text("e".to_string());
    let rope = insert(1, rope, "\u{301}".to_string());
    assert_eq!(find_length(&rope), 2);
    assert_eq!(text_of(&rope), "e\u{301}");
    assert_eq!(index(&rope, 0), Some("e"));
    assert_eq!(index(&rope, 1), Some("\u{301}"));
    let rope = remove(0, Box::new(rope), 1);
    assert_eq!(text_of(&rope), "\u{301}");
}

#[test]
fn insert_at_the_start() {
    let rope = from_text("world".to_string());
    let rope = insert(0, rope, "hello ".to_string());
    assert_eq!(text_of(&rope), "hello world");
    assert_eq!(find_length(&rope), 11);
}

#[test]
fn insert_past_the_end_counts_as_the_end() {
    let rope = from_text("abc".to_string());
    let rope = insert(100, rope, "def".to_string());
    assert_eq!(text_of(&rope), "abcdef");
}

#[test]
fn insert_into_an_empty_rope() {
    let rope = from_text(String::new());
    assert_eq!(find_length(&rope), 0);
    let rope = insert(0, rope, "abc".to_string());
    assert_eq!(text_of(&rope), "abc");
    let other = insert(7, Box::new(Node::empty()), "xyz".to_string());
    assert_eq!(text_of(&other), "xyz");
}

#[test]
fn insert_of_nothing_changes_nothing() {
    let rope = from_text("abcdef".to_string());
    let rope = insert(3, rope, String::new());
    assert_eq!(text_of(&rope), "abcdef");
    assert_eq!(find_length(&rope), 6);
}

#[test]
fn insert_graphemes_shares_the_clusters_of_a_view() {
    let shared = RcSubstr::new(Rc::new("0123456789".to_string()));
    let digits = shared.substr(2..5);
    let rope = from_text("abcdef".to_string());
    let rope = insert_graphemes(3, rope, &digits);
    assert_eq!(text_of(&rope), "abc234def");
    assert_eq!(find_length(&rope), 9);
}

#[test]
fn insert_rope_puts_a_rope_into_a_rope() {
    let rope = from_text("abcdefgh".to_string());
    let piece = from_text("12345".to_string());
    let joined = insert_rope(4, rope, piece);
    assert_eq!(text_of(&joined), "abcd12345efgh");
    assert_eq!(find_length(&joined), 13);
}

#[test]
fn remove_within_one_leaf() {
    let rope = from_text("abcdefgh".to_string());
    let rope = remove(1, rope, 1);
    assert_eq!(text_of(&rope), "acdefgh");
    assert_eq!(find_length(&rope), 7);
}

#[test]
fn remove_across_leaves() {
    let rope = from_text("Hello people my name is Simon".to_string());
    let rope = remove(5, rope, 7);
    assert_eq!(text_of(&rope), "Hello my name is Simon");
    assert_eq!(find_length(&rope), 22);
}

#[test]
fn remove_from_the_start() {
    let rope = from_text("Hello people".to_string());
    let rope = remove(0, rope, 6);
    assert_eq!(text_of(&rope), "people");
}

#[test]
fn remove_everything_gives_an_empty_rope() {
    let rope = from_text("Hello".to_string());
    let rope = remove(0, rope, 5);
    assert_eq!(find_length(&rope), 0);
    assert_eq!(text_of(&rope), "");
    assert_eq!(rope.depth(), 0);
}

#[test]
fn remove_past_the_end_stops_at_the_end() {
    let rope = from_text("Hello people".to_string());
    let rope = remove(5, rope, 1000);
    assert_eq!(text_of(&rope), "Hello");
    let rope = remove(3, rope, usize::MAX);
    assert_eq!(text_of(&rope), "Hel");
}

#[test]
fn remove_beyond_the_length_changes_nothing() {
    let rope = from_text("Hello".to_string());
    let rope = remove(5, rope, 1);
    assert_eq!(text_of(&rope), "Hello");
    let rope = remove(99, rope, 3);
    assert_eq!(text_of(&rope), "Hello");
    let rope = remove(2, rope, 0);
    assert_eq!(text_of(&rope), "Hello");
}

#[test]
fn split_in_the_middle_of_a_leaf() {
    let mut rope = *leaf("abc");
    let mut cut = Vec::new();
    let outcome = split(&mut rope, 1, &mut cut);
    assert_eq!(outcome, (2, false, true));
    assert_eq!(text_of(&rope), "a");
    assert_eq!(rope.depth(), 1);
    assert_eq!(cut.len(), 1);
    assert_eq!(text_of(&cut[0]), "bc");
}

#[test]
fn split_at_zero_cuts_the_whole_rope() {
    let mut rope = *from_text("hello".to_string());
    let mut cut = Vec::new();
    let outcome = split(&mut rope, 0, &mut cut);
    assert_eq!(outcome, (5, true, false));
    assert_eq!(rope.len(), 0);
    assert_eq!(text_of(&rope), "");
    assert_eq!(cut.len(), 1);
    assert_eq!(text_of(&cut[0]), "hello");
}

#[test]
fn split_beyond_the_length_changes_nothing() {
    let mut rope = *from_text("hello".to_string());
    let mut cut = Vec::new();
    assert_eq!(split(&mut rope, 5, &mut cut), (0, false, false));
    assert_eq!(split(&mut rope, 50, &mut cut), (0, false, false));
    assert_eq!(text_of(&rope), "hello");
    assert!(cut.is_empty());
}

#[test]
fn split_keeps_the_pieces_in_order() {
    let text = "Hello my name is Simon";
    for at in 1..text.len() {
        let mut rope = *from_text(text.to_string());
        let mut cut = vec![leaf("#")];
        let outcome = split(&mut rope, at, &mut cut);
        assert_eq!(outcome.0, text.len() - at);
        assert!(!outcome.1);
        assert_eq!(text_of(&rope), &text[..at]);
        assert_eq!(rope.len(), at);
        let rest: String = cut.iter().map(|piece| text_of(piece)).collect();
        assert_eq!(rest, format!("#{}", &text[at..]));
    }
}

#[test]
fn join_merges_small_leaves() {
    let joined = join(leaf("a"), leaf("bc"));
    assert_eq!(joined.depth(), 0);
    assert_eq!(joined.len(), 3);
    assert_eq!(text_of(&joined), "abc");
}

#[test]
fn join_keeps_large_leaves_apart() {
    let joined = join(leaf("ab"), leaf("cd"));
    assert_eq!(joined.depth(), 1);
    assert_eq!(joined.len(), 4);
    assert_eq!(text_of(&joined), "abcd");
    assert_eq!(find_length(joined.right().unwrap()), 2);
}

#[test]
fn join_merges_into_the_right_leaf_of_the_left_rope() {
    let left = join(leaf("abc"), leaf("d"));
    assert_eq!(left.depth(), 1);
    let joined = join(Box::new(left), leaf("ef"));
    assert_eq!(joined.depth(), 1);
    assert_eq!(text_of(&joined), "abcdef");
    assert_eq!(text_of(joined.right().unwrap()), "def");
}

#[test]
fn join_drops_an_empty_side() {
    let joined = join(Box::new(Node::empty()), leaf("abcd"));
    assert_eq!(joined.depth(), 0);
    assert_eq!(text_of(&joined), "abcd");
    let joined = join(leaf("abcd"), Box::new(Node::empty()));
    assert_eq!(joined.depth(), 0);
    assert_eq!(text_of(&joined), "abcd");
}

#[test]
fn concatenate_joins_and_rebalances() {
    let chain = skewed_chain();
    let joined = concatenate(Box::new(chain), leaf("fghi"));
    assert_eq!(text_of(&joined), "abcdefghi");
    assert_eq!(joined.len(), 9);
    assert!(joined.is_all_balanced());
}

#[test]
fn build_rope_halves_the_range() {
    let shared = RcSubstr::new(Rc::new("0123456789".to_string()));
    let (rope, depth) = build_rope(&shared, 0, 9);
    assert_eq!(depth, 2);
    assert_eq!(rope.depth(), 2);
    assert_eq!(text_of(&rope), "0123456789");
    assert!(rope.is_all_balanced());
    let (part, depth) = build_rope(&shared, 3, 5);
    assert_eq!(depth, 0);
    assert_eq!(text_of(&part), "345");
    let (part, depth) = build_rope(&shared, 2, 5);
    assert_eq!(depth, 1);
    assert_eq!(text_of(&part), "2345");
    assert_eq!(find_length(&part), 4);
}

#[test]
fn fibonacci_buckets() {
    assert_eq!(fibonacci_bucket(1), 2);
    assert_eq!(fibonacci_bucket(2), 3);
    assert_eq!(fibonacci_bucket(3), 4);
    assert_eq!(fibonacci_bucket(4), 4);
    assert_eq!(fibonacci_bucket(5), 5);
    assert_eq!(fibonacci_bucket(7), 5);
    assert_eq!(fibonacci_bucket(8), 6);
    assert_eq!(fibonacci_bucket(12), 6);
    assert_eq!(fibonacci_bucket(13), 7);
    assert_eq!(fibonacci_bucket(514229), 29);
    assert!(fibonacci_bucket(usize::MAX) >= 46);
}

#[test]
fn balance_criterion_follows_the_fibonacci_numbers() {
    let two = assemble(Some(leaf("a")), Some(leaf("b")));
    assert_eq!(two.depth(), 1);
    assert!(two.is_balanced());
    let deep = assemble(Some(Box::new(two)), None);
    assert_eq!(deep.depth(), 2);
    assert_eq!(deep.len(), 2);
    assert!(!deep.is_balanced());
    let three = assemble(Some(Box::new(deep)), Some(leaf("c")));
    assert_eq!(three.depth(), 3);
    assert_eq!(three.len(), 3);
    assert!(!three.is_balanced());
    assert!(!three.is_all_balanced());
    assert!(leaf("a").is_balanced());
    assert!(!Node::empty().is_balanced());
}

#[test]
fn sub_str_takes_an_inclusive_range() {
    let rope = from_text("Hello people my name is Simon".to_string());
    let mut part = String::from(">");
    sub_str(&rope, 6, 11, &mut part);
    assert_eq!(part, ">people");
    let mut part = String::new();
    sub_str(&rope, 0, 0, &mut part);
    assert_eq!(part, "H");
    let mut part = String::new();
    sub_str(&rope, 24, 1000, &mut part);
    assert_eq!(part, "Simon");
    let mut part = String::new();
    sub_str(&rope, 0, usize::MAX, &mut part);
    assert_eq!(part, "Hello people my name is Simon");
}

#[test]
fn sub_str_of_an_empty_range_appends_nothing() {
    let rope = from_text("Hello".to_string());
    let mut part = String::from("x");
    sub_str(&rope, 5, 9, &mut part);
    sub_str(&rope, 3, 2, &mut part);
    sub_str(&Node::empty(), 0, 0, &mut part);
    assert_eq!(part, "x");
}

#[test]
fn sub_rope_takes_an_inclusive_range() {
    let rope = from_text("Hello people my name is Simon".to_string());
    let part = sub_rope(&rope, 6, 11);
    assert_eq!(text_of(&part), "people");
    assert_eq!(find_length(&part), 6);
    let part = sub_rope(&rope, 13, 99);
    assert_eq!(text_of(&part), "my name is Simon");
    let part = sub_rope(&rope, 29, 30);
    assert_eq!(find_length(&part), 0);
    let part = sub_rope(&rope, 4, 3);
    assert_eq!(find_length(&part), 0);
    assert_eq!(text_of(&rope), "Hello people my name is Simon");
}

#[test]
fn flatten_leaves_lists_the_text_in_order() {
    let chain = skewed_chain();
    let mut leaves = Vec::new();
    flatten_leaves(&chain, &mut leaves);
    let texts: Vec<&str> = leaves.iter().map(|leaf| leaf.as_str()).collect();
    assert_eq!(texts, vec!["a", "b", "c", "d", "e"]);
}

#[test]
fn edits_agree_with_the_same_edits_on_a_list_of_clusters() {
    let mut expected: Vec<String> = "The quick brown fox".chars().map(String::from).collect();
    let mut rope = from_text("The quick brown fox".to_string());
    let edits: [(bool, usize, &str, usize); 12] = [
        (true, 4, "very ", 0),
        (false, 0, "", 4),
        (true, 0, "A ", 0),
        (true, 1000, " jumps", 0),
        (false, 7, "", 6),
        (false, 3, "", 1),
        (true, 9, "e\u{301}", 0),
        (false, 9, "", 1),
        (false, 15, "", 100),
        (true, 15, "!", 0),
        (false, 50, "", 2),
        (true, 5, "\r\n", 0),
    ];
    for (is_insert, at, text, count) in edits {
        if is_insert {
            let place = at.min(expected.len());
            let clusters: Vec<String> = clusters_of(&from_text(text.to_string()));
            for (offset, cluster) in clusters.into_iter().enumerate() {
                expected.insert(place + offset, cluster);
            }
            rope = Box::new(insert(at, rope, text.to_string()));
        } else {
            if at < expected.len() {
                let stop = at.saturating_add(count).min(expected.len());
                expected.drain(at..stop);
            }
            rope = remove(at, rope, count);
        }
        assert_eq!(text_of(&rope), expected.concat());
        assert_eq!(find_length(&rope), expected.len());
        assert_eq!(clusters_of(&rope), expected);
    }
}

#[test]
fn many_single_letters_keep_the_rope_shallow() {
    let mut rope = from_text(String::new());
    let mut expected = String::new();
    for round in 0..200 {
        let letter = char::from(b'a' + (round % 26) as u8);
        let at = (round * 7) % (find_length(&rope) + 1);
        rope = Box::new(insert(at, rope, letter.to_string()));
        expected.insert(at, letter);
    }
    assert_eq!(text_of(&rope), expected);
    assert_eq!(find_length(&rope), 200);
    assert!(rope.depth() <= 14);
}
