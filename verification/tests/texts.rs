use btram::table::Table;
use btram::text::{
    before, blank, contains, is_white_space, lines, same_text, split_once, split_text, trim,
};

const SAMPLES: [&str; 14] = [
    "",
    "a",
    ",",
    "a,b",
    ",a,,b,",
    " a\t",
    "\n",
    "a\r\nb\r",
    "a\n\nb\n",
    "\r\n",
    "a\rb\r\n\r",
    "\u{e9}=\u{10000}",
    "\u{3000}x y\u{85}",
    "key = value = x",
];

#[test]
fn white_space_is_that_of_std() {
    let mut u: u32 = 0;
    while u <= 0x10ffff {
        if let Some(c) = char::from_u32(u) {
            assert_eq!(is_white_space(c), c.is_whitespace());
        }
        u += 1;
    }
}

#[test]
fn text_functions_agree_with_std() {
    for s in SAMPLES {
        assert_eq!(trim(s), s.trim());
        assert_eq!(blank(s), s.trim().is_empty());
        assert_eq!(lines(s), s.lines().collect::<Vec<&str>>());
        for sep in [',', '\n', '=', ' '] {
            assert_eq!(split_text(s, sep), s.split(sep).collect::<Vec<&str>>());
            assert_eq!(split_once(s, sep), s.split_once(sep));
        }
        for t in SAMPLES {
            assert_eq!(same_text(s, t), s == t);
            assert_eq!(before(s, t), s < t);
            assert_eq!(contains(s, t), s.contains(t));
        }
    }
}

#[test]
fn order_is_that_of_code_points() {
    assert!(before("a.2", "a.20"));
    assert!(before("a.20230101", "a.20230101_1"));
    assert!(before("a.9", "a._"));
    assert!(before("\u{ffff}", "\u{10000}"));
    assert!(!before("b", "a"));
    assert!(!before("a", "a"));
}

#[test]
fn occurrences_are_found_anywhere() {
    assert!(contains("\tSnapshot(s):", "Snapshot(s):"));
    assert!(contains("aab", "ab"));
    assert!(contains("x", ""));
    assert!(!contains("Snapshot(s)", "Snapshot(s):"));
}

#[test]
fn a_table_keeps_one_value_for_each_key() {
    let mut table: Table<String> = Table::new();
    assert_eq!(table.len(), 0);
    table.insert("b".to_string(), "1".to_string());
    table.insert("a".to_string(), "2".to_string());
    table.insert("b".to_string(), "3".to_string());
    assert_eq!(table.len(), 2);
    assert_eq!(table.get("b"), Some(&"3".to_string()));
    assert_eq!(table.get("c"), None);
    assert!(table.contains_key("a"));
    assert!(!table.contains_key("c"));
    assert_eq!(table.entry(0), ("b", &"3".to_string()));
    assert_eq!(table.entry(1), ("a", &"2".to_string()));
}
