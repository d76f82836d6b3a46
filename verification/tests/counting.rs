use loglens::order::largest_first_positions;
use loglens::tally::Tally;
use loglens::text::{
    contains, ends_with, left_column, repeat, right_column, same_text, to_decimal, trim_end,
};

#[test]
fn counts_by_name() {
    let mut t = Tally::new();
    assert_eq!(t.len(), 0);
    assert_eq!(t.get("a"), 0);
    t.add("a", 1);
    t.add("b", 5);
    t.add("a", 2);
    assert_eq!(t.len(), 2);
    assert_eq!((t.name(0), t.count(0)), ("a", 3));
    assert_eq!((t.name(1), t.count(1)), ("b", 5));
    assert_eq!((t.get("a"), t.get("b"), t.get("A")), (3, 5, 0));
}

#[test]
fn the_most_frequent_come_first() {
    let mut t = Tally::new();
    for (name, n) in [("x", 2), ("y", 9), ("z", 2), ("w", 4)] {
        t.add(name, n);
    }
    assert_eq!(t.most_frequent(), [1, 3, 0, 2]);
}

#[test]
fn equal_counts_keep_their_order() {
    assert_eq!(largest_first_positions(&vec![3, 1, 3, 2, 1]), [0, 2, 3, 1, 4]);
    assert_eq!(largest_first_positions(&Vec::new()), Vec::<usize>::new());
}

#[test]
fn many_counts_are_ordered() {
    let counts: Vec<usize> = (0..500).map(|i| (i * 7919) % 101).collect();
    let order = largest_first_positions(&counts);
    let mut seen = vec![false; counts.len()];
    for w in order.windows(2) {
        assert!(
            counts[w[0]] > counts[w[1]] || (counts[w[0]] == counts[w[1]] && w[0] < w[1])
        );
    }
    for i in order {
        assert!(!seen[i]);
        seen[i] = true;
    }
    assert!(seen.iter().all(|s| *s));
}

#[test]
fn decimals() {
    assert_eq!(to_decimal(0), "0");
    assert_eq!(to_decimal(9), "9");
    assert_eq!(to_decimal(10), "10");
    assert_eq!(to_decimal(1024), "1024");
    assert_eq!(to_decimal(usize::MAX), format!("{}", usize::MAX));
}

#[test]
fn columns() {
    assert_eq!(left_column("ab", 4), "ab  ");
    assert_eq!(right_column("ab", 4), "  ab");
    assert_eq!(left_column("abcde", 4), "abcde");
    assert_eq!(right_column("\u{e9}", 3), "  \u{e9}");
    assert_eq!(repeat("-=", 3), "-=-=-=");
    assert_eq!(repeat("x", 0), "");
}

#[test]
fn texts_are_compared_as_written() {
    assert!(same_text("", ""));
    assert!(same_text("abc", "abc"));
    assert!(!same_text("abc", "abC"));
    assert!(!same_text("abc", "ab"));
}

#[test]
fn pieces_and_ends_of_texts() {
    for (s, piece) in [("abcabd", "abd"), ("abc", ""), ("", ""), ("abc", "abc"), ("a\u{e9}b", "\u{e9}")] {
        assert!(contains(s, piece));
    }
    for (s, piece) in [("abc", "abcd"), ("", "a"), ("abab", "ba b"), ("abc", "B")] {
        assert!(!contains(s, piece));
    }
    assert!(ends_with("a.log", ".log"));
    assert!(ends_with("a", ""));
    assert!(!ends_with("log", ".log"));
    assert!(!ends_with("a.log ", ".log"));
    assert_eq!(trim_end(" a b\u{3000}\t\r\n"), " a b");
    assert_eq!(trim_end(" \u{a0}"), "");
    assert_eq!(trim_end("x\u{200b}"), "x\u{200b}");
}
