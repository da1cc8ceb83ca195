use std::cmp::Ordering;

use files_sorter::file::{File, SizeTable};
use files_sorter::init;
use files_sorter::natural::natural_compare;
use files_sorter::sorter::{FilesSorter, SortBy};

fn entry(url: &str, is_dir: bool) -> File {
    File {
        url: url.to_string(),
        created: None,
        modified: None,
        length: 0,
        is_dir,
        is_link: false,
        link_to: None,
        is_hidden: false,
    }
}

fn sized(url: &str, is_dir: bool, length: u64) -> File {
    File { length, ..entry(url, is_dir) }
}

fn stamped(url: &str, is_dir: bool, created: Option<i128>, modified: Option<i128>) -> File {
    File { created, modified, ..entry(url, is_dir) }
}

fn sorter(by: SortBy, sensitive: bool, reverse: bool, dir_first: bool) -> FilesSorter {
    FilesSorter { by, sensitive, reverse, dir_first }
}

fn urls(items: &[File]) -> Vec<String> {
    items.iter().map(|f| f.url.clone()).collect()
}

fn sorted_urls(items: &[File]) -> Vec<String> {
    let mut v = urls(items);
    v.sort();
    v
}

#[test]
fn init_runs() {
    init();
}

#[test]
fn empty_input_is_left_alone() {
    for by in [SortBy::Alphabetical, SortBy::Created, SortBy::Modified, SortBy::Natural, SortBy::Size] {
        let mut items: Vec<File> = Vec::new();
        assert!(!sorter(by, true, false, true).sort(&mut items, &SizeTable::new()));
        assert!(items.is_empty());
    }
}

#[test]
fn single_entry_reports_a_sort() {
    let mut items = vec![entry("only", false)];
    assert!(sorter(SortBy::Natural, false, false, false).sort(&mut items, &SizeTable::new()));
    assert_eq!(urls(&items), vec!["only"]);
}

#[test]
fn output_is_a_permutation_in_every_mode() {
    let input = vec![
        stamped("b", true, Some(5), Some(1)),
        stamped("a", false, None, Some(3)),
        stamped("c", false, Some(2), None),
        stamped("a2", true, Some(9), Some(9)),
        stamped("A10", false, Some(5), Some(5)),
    ];
    for by in [SortBy::Alphabetical, SortBy::Created, SortBy::Modified, SortBy::Natural, SortBy::Size] {
        for flags in 0..8u8 {
            let s = sorter(by, flags & 1 != 0, flags & 2 != 0, flags & 4 != 0);
            let mut items = input.clone();
            assert!(s.sort(&mut items, &SizeTable::new()));
            assert_eq!(items.len(), input.len());
            assert_eq!(sorted_urls(&items), sorted_urls(&input));
        }
    }
}

#[test]
fn natural_order_reads_digit_runs_as_numbers() {
    for sensitive in [true, false] {
        let mut items = vec![entry("file2", false), entry("file10", false), entry("file1", false)];
        sorter(SortBy::Natural, sensitive, false, false).sort(&mut items, &SizeTable::new());
        assert_eq!(urls(&items), vec!["file1", "file2", "file10"]);
    }
}

#[test]
fn natural_order_reversed() {
    let mut items = vec![entry("file2", false), entry("file10", false), entry("file1", false)];
    sorter(SortBy::Natural, true, true, false).sort(&mut items, &SizeTable::new());
    assert_eq!(urls(&items), vec!["file10", "file2", "file1"]);
}

#[test]
fn natural_compare_skips_zero_width_characters() {
    assert_eq!(natural_compare("a\u{200b}b", "ab", true), Ordering::Equal);
    assert_eq!(natural_compare("a\u{200b}b", "ab", false), Ordering::Equal);
    assert_eq!(natural_compare("a\u{feff}b c", "abc", true), Ordering::Equal);
    assert_eq!(natural_compare("a\tb", "ab", true), Ordering::Equal);
}

#[test]
fn natural_compare_by_magnitude() {
    assert_eq!(natural_compare("x9", "x10", true), Ordering::Less);
    assert_eq!(natural_compare("x10", "x9", true), Ordering::Greater);
    assert_eq!(natural_compare("rfc822.txt", "rfc2086.txt", true), Ordering::Less);
}

#[test]
fn natural_compare_folds_case() {
    assert_eq!(natural_compare("ABC", "abc", false), Ordering::Equal);
    assert_eq!(natural_compare("ABC", "abc", true), Ordering::Less);
    // U+0130 lowercases to two characters: 'i' and a combining dot above.
    assert_eq!(natural_compare("\u{130}", "i\u{307}", false), Ordering::Equal);
    assert_eq!(natural_compare("\u{130}", "i\u{307}", true), Ordering::Greater);
}

#[test]
fn alphabetical_insensitive_folds_case() {
    let mut items = vec![entry("Banana", false), entry("apple", false)];
    sorter(SortBy::Alphabetical, false, false, false).sort(&mut items, &SizeTable::new());
    assert_eq!(urls(&items), vec!["apple", "Banana"]);
}

#[test]
fn alphabetical_sensitive_uses_code_points() {
    let mut items = vec![entry("apple", false), entry("Banana", false)];
    sorter(SortBy::Alphabetical, true, false, false).sort(&mut items, &SizeTable::new());
    assert_eq!(urls(&items), vec!["Banana", "apple"]);
}

#[test]
fn alphabetical_insensitive_uses_full_lowercase() {
    // 'Ä' lowercases to 'ä', which comes after 'b'; byte-wise ASCII folding would keep 'Ä'.
    let mut items = vec![entry("\u{c4}x", false), entry("bx", false), entry("\u{e4}a", false)];
    sorter(SortBy::Alphabetical, false, false, false).sort(&mut items, &SizeTable::new());
    assert_eq!(urls(&items), vec!["bx", "\u{e4}a", "\u{c4}x"]);
}

#[test]
fn alphabetical_prefix_comes_first() {
    let mut items = vec![entry("abc", false), entry("ab", false), entry("b", false)];
    sorter(SortBy::Alphabetical, true, false, false).sort(&mut items, &SizeTable::new());
    assert_eq!(urls(&items), vec!["ab", "abc", "b"]);
    sorter(SortBy::Alphabetical, true, true, false).sort(&mut items, &SizeTable::new());
    assert_eq!(urls(&items), vec!["b", "abc", "ab"]);
}

#[test]
fn size_mode_uses_aggregate_for_directories_only() {
    let mut sizes = SizeTable::new();
    sizes.insert("dir".to_string(), 500);
    sizes.insert("plain".to_string(), 1000);
    let mut items = vec![sized("dir", true, 0), sized("plain", false, 10), sized("mid", false, 300)];
    sorter(SortBy::Size, true, false, false).sort(&mut items, &sizes);
    assert_eq!(urls(&items), vec!["plain", "mid", "dir"]);
}

#[test]
fn size_mode_falls_back_to_own_length() {
    let mut items = vec![sized("d1", true, 50), sized("f", false, 20), sized("d2", true, 5)];
    sorter(SortBy::Size, true, false, false).sort(&mut items, &SizeTable::new());
    assert_eq!(urls(&items), vec!["d2", "f", "d1"]);
}

#[test]
fn size_mode_reversed() {
    let mut items = vec![sized("a", false, 1), sized("b", false, 3), sized("c", false, 2)];
    sorter(SortBy::Size, true, true, false).sort(&mut items, &SizeTable::new());
    assert_eq!(urls(&items), vec!["b", "c", "a"]);
}

#[test]
fn created_and_modified_order_by_their_stamp() {
    let input = vec![
        stamped("a", false, Some(30), Some(1)),
        stamped("b", false, Some(10), Some(3)),
        stamped("c", false, Some(20), Some(2)),
    ];
    let mut items = input.clone();
    sorter(SortBy::Created, true, false, false).sort(&mut items, &SizeTable::new());
    assert_eq!(urls(&items), vec!["b", "c", "a"]);
    let mut items = input.clone();
    sorter(SortBy::Modified, true, false, false).sort(&mut items, &SizeTable::new());
    assert_eq!(urls(&items), vec!["a", "c", "b"]);
    let mut items = input;
    sorter(SortBy::Modified, true, true, false).sort(&mut items, &SizeTable::new());
    assert_eq!(urls(&items), vec!["b", "c", "a"]);
}

#[test]
fn missing_timestamp_keeps_every_entry() {
    let input = vec![
        stamped("a", false, Some(3), None),
        stamped("b", false, None, None),
        stamped("c", false, Some(1), Some(1)),
        stamped("d", true, None, Some(2)),
    ];
    for by in [SortBy::Created, SortBy::Modified] {
        for dir_first in [false, true] {
            let mut items = input.clone();
            assert!(sorter(by, true, false, dir_first).sort(&mut items, &SizeTable::new()));
            assert_eq!(sorted_urls(&items), sorted_urls(&input));
            if dir_first {
                assert_eq!(items[0].url, "d");
            }
        }
    }
}

#[test]
fn directories_lead_in_every_mode() {
    let input = vec![
        stamped("f1", false, Some(1), Some(1)),
        stamped("d9", true, Some(9), None),
        stamped("f0", false, None, Some(0)),
        stamped("d1", true, Some(2), Some(7)),
        stamped("f5", false, Some(5), Some(5)),
    ];
    for by in [SortBy::Alphabetical, SortBy::Created, SortBy::Modified, SortBy::Natural, SortBy::Size] {
        for reverse in [false, true] {
            let mut items = input.clone();
            sorter(by, true, reverse, true).sort(&mut items, &SizeTable::new());
            let dirs: Vec<bool> = items.iter().map(|f| f.is_dir).collect();
            assert_eq!(dirs, vec![true, true, false, false, false]);
        }
    }
}

#[test]
fn reverse_flips_only_inside_each_part() {
    let input = vec![
        entry("b", false),
        entry("y", true),
        entry("a", false),
        entry("x", true),
        entry("c", false),
    ];
    let mut forward = input.clone();
    sorter(SortBy::Alphabetical, true, false, true).sort(&mut forward, &SizeTable::new());
    let mut backward = input;
    sorter(SortBy::Alphabetical, true, true, true).sort(&mut backward, &SizeTable::new());
    assert_eq!(urls(&forward), vec!["x", "y", "a", "b", "c"]);
    assert_eq!(urls(&backward), vec!["y", "x", "c", "b", "a"]);
}

#[test]
fn without_dir_first_directories_mix_in() {
    let mut items = vec![entry("b", true), entry("a", false), entry("c", true)];
    sorter(SortBy::Alphabetical, true, false, false).sort(&mut items, &SizeTable::new());
    assert_eq!(urls(&items), vec!["a", "b", "c"]);
}

#[test]
fn equal_keys_are_all_kept() {
    let mut items = vec![sized("a", false, 7), sized("b", false, 7), sized("c", false, 7)];
    sorter(SortBy::Size, true, false, false).sort(&mut items, &SizeTable::new());
    assert_eq!(sorted_urls(&items), vec!["a", "b", "c"]);
}

#[test]
fn promote_and_cmp() {
    let s = sorter(SortBy::Size, true, true, true);
    assert_eq!(s.promote(true, false), Ordering::Less);
    assert_eq!(s.promote(false, true), Ordering::Greater);
    assert_eq!(s.promote(true, true), Ordering::Equal);
    assert_eq!(sorter(SortBy::Size, true, true, false).promote(true, false), Ordering::Equal);
    assert_eq!(s.cmp(Ordering::Less, Ordering::Equal), Ordering::Greater);
    assert_eq!(s.cmp(Ordering::Less, Ordering::Greater), Ordering::Greater);
    assert_eq!(sorter(SortBy::Size, true, false, true).cmp(Ordering::Less, Ordering::Equal), Ordering::Less);
}

#[test]
fn size_table_lookup() {
    let mut t = SizeTable::new();
    assert_eq!(t.get(&"a".to_string()), None);
    t.insert("a".to_string(), 1);
    t.insert("b".to_string(), 2);
    t.insert("a".to_string(), 3);
    assert_eq!(t.get(&"a".to_string()), Some(3));
    assert_eq!(t.get(&"b".to_string()), Some(2));
    assert_eq!(t.get(&"c".to_string()), None);
}
