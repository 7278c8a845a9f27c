use todo::listing::{since_string, time_diff};
use todo::record::TodoItem;
use todo::store::TodoDatabase;
use todo::text::parse_id;

fn args(words: &[&str]) -> Vec<String> {
    words.iter().map(|w| w.to_string()).collect()
}

fn ids(db: &TodoDatabase) -> Vec<u32> {
    (0..db.len()).map(|i| db.item(i).index).collect()
}

fn texts(db: &TodoDatabase) -> Vec<String> {
    (0..db.len()).map(|i| db.item(i).task.clone()).collect()
}

#[test]
fn adds_number_from_one() {
    let mut db = TodoDatabase::new();
    for (n, text) in ["a", "", "x;y", "  spaced  "].iter().enumerate() {
        let id = db.add(&args(&[text]), 100);
        assert_eq!(id, n as u32 + 1);
    }
    assert_eq!(ids(&db), vec![1, 2, 3, 4]);
}

#[test]
fn add_buy_milk() {
    let mut db = TodoDatabase::new();
    let id = db.add(&args(&["Buy", "milk"]), 1_700_000_000);
    assert_eq!(id, 1);
    assert_eq!(db.len(), 1);
    let t = db.item(0);
    assert_eq!(t.index, 1);
    assert_eq!(t.task, "Buy milk");
    assert_eq!(t.start, 1_700_000_000);
    assert!(!t.is_done);
}

#[test]
fn add_trims_trailing_whitespace_only() {
    let mut db = TodoDatabase::new();
    db.add(&args(&[" lead", "tab\t"]), 0);
    db.add(&args(&[]), 0);
    assert_eq!(texts(&db), vec![" lead tab".to_string(), String::new()]);
}

#[test]
fn add_after_gap_uses_highest_id() {
    let mut db = TodoDatabase::from_items(vec![
        TodoItem::from(7, "a".to_string(), 0, false),
        TodoItem::from(3, "b".to_string(), 0, true),
    ]);
    assert_eq!(db.get_highest_id(), 7);
    assert_eq!(db.add(&args(&["c"]), 0), 8);
}

#[test]
fn remove_middle_renumbers() {
    let mut db = TodoDatabase::new();
    for t in ["A", "B", "C"] {
        db.add(&args(&[t]), 5);
    }
    assert!(db.remove(&args(&["2"]), true));
    assert_eq!(ids(&db), vec![1, 2]);
    assert_eq!(texts(&db), vec!["A".to_string(), "C".to_string()]);
}

#[test]
fn remove_declined_or_unknown_keeps_store() {
    let mut db = TodoDatabase::new();
    db.add(&args(&["A"]), 5);
    db.add(&args(&["B"]), 5);
    assert!(!db.remove(&args(&["1"]), false));
    assert!(!db.remove(&args(&["9"]), true));
    assert!(!db.remove(&args(&["x"]), true));
    assert_eq!(ids(&db), vec![1, 2]);
    assert_eq!(texts(&db), vec!["A".to_string(), "B".to_string()]);
}

#[test]
fn add_then_remove_leaves_empty() {
    let mut db = TodoDatabase::new();
    let id = db.add(&args(&["once"]), 1);
    assert!(db.remove(&args(&[&id.to_string()]), true));
    assert_eq!(db.len(), 0);
}

#[test]
fn done_twice_stays_done() {
    let mut db = TodoDatabase::new();
    db.add(&args(&["A"]), 1);
    db.add(&args(&["B"]), 1);
    assert!(db.done(&args(&["2"])));
    assert!(db.done(&args(&["2"])));
    assert!(db.item(1).is_done);
    assert!(!db.item(0).is_done);
}

#[test]
fn done_unknown_id_changes_nothing() {
    let mut db = TodoDatabase::new();
    db.add(&args(&["A"]), 1);
    let before = db.save();
    assert!(!db.done(&args(&["5"])));
    assert!(!db.done(&args(&["0"])));
    assert!(!db.done(&args(&["one"])));
    assert_eq!(db.save(), before);
}

#[test]
fn edit_replaces_text_with_trailing_space() {
    let mut db = TodoDatabase::new();
    db.add(&args(&["old"]), 3);
    assert!(db.edit(&args(&["1", "new", "text"])));
    assert_eq!(db.item(0).task, "new text ");
    assert_eq!(db.item(0).start, 3);
    assert!(!db.edit(&args(&["2", "nothing"])));
}

#[test]
fn reset_empties() {
    let mut db = TodoDatabase::new();
    db.add(&args(&["A"]), 1);
    db.reset();
    assert_eq!(db.len(), 0);
}

#[test]
fn parse_id_follows_u32_parsing() {
    assert_eq!(parse_id("42"), 42);
    assert_eq!(parse_id("+7"), 7);
    assert_eq!(parse_id("007"), 7);
    assert_eq!(parse_id("4294967295"), 4294967295);
    assert_eq!(parse_id("4294967296"), 0);
    assert_eq!(parse_id("-1"), 0);
    assert_eq!(parse_id("+"), 0);
    assert_eq!(parse_id(""), 0);
    assert_eq!(parse_id("1x"), 0);
}

#[test]
fn item_new_and_set() {
    let mut t = TodoItem::new();
    assert_eq!((t.index, t.task.as_str(), t.start, t.is_done), (0, "", 0, false));
    t._set(3, "x".to_string(), 9, true);
    assert_eq!((t.index, t.task.as_str(), t.start, t.is_done), (3, "x", 9, true));
}

#[test]
fn time_since_units() {
    assert_eq!(time_diff(100, 160), 60);
    assert_eq!(time_diff(200, 100), 0);
    assert_eq!(since_string(0, 59), "(since 59 second(s))");
    assert_eq!(since_string(0, 60), "(since 1 minute(s))");
    assert_eq!(since_string(0, 3_599), "(since 59 minute(s))");
    assert_eq!(since_string(0, 7_200), "(since 2 hour(s))");
    assert_eq!(since_string(0, 86_400 * 3 + 5), "(since 3 day(s))");
}

#[test]
fn list_empty_store() {
    let db = TodoDatabase::new();
    assert_eq!(db.list(0, false), vec!["There are no tasks in the list.".to_string(), String::new()]);
}

#[test]
fn list_plain_lines() {
    let mut db = TodoDatabase::new();
    db.add(&args(&["A"]), 0);
    db.add(&args(&["B"]), 0);
    db.done(&args(&["2"]));
    let lines = db.list(120, false);
    assert_eq!(
        lines,
        vec![
            "\nTask List:\n----------\n".to_string(),
            "[ ]  1. A(since 2 minute(s))".to_string(),
            "[X]  2. B".to_string(),
            "\nFound 1 open task(s) and 1 is finished.".to_string(),
            String::new(),
        ]
    );
}

#[test]
fn list_decorated_done_line() {
    let mut db = TodoDatabase::new();
    db.add(&args(&["A"]), 0);
    db.done(&args(&["1"]));
    let lines = db.list(0, true);
    assert_eq!(lines[1], "[\x1B[93mX\x1B[39m] \x1B[92m 1.\x1B[39m \x1B[9mA\x1B[0m");
    assert_eq!(lines[2], "\nFound \x1B[92m0\x1B[39m open task(s) and \x1B[93m1\x1B[39m is finished.");
}

#[test]
fn save_text_format() {
    let mut db = TodoDatabase::new();
    db.add(&args(&["Buy", "milk"]), 1_700_000_000);
    db.add(&args(&["B"]), 5);
    db.done(&args(&["2"]));
    assert_eq!(db.save(), "# ToDo list database\n\n1;Buy milk;1700000000;false\n2;B;5;true\n");
}
