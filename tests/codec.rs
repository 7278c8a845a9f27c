use todo::codec::parse_item;
use todo::record::TodoItem;
use todo::store::TodoDatabase;

fn fields(db: &TodoDatabase) -> Vec<(u32, String, u64, bool)> {
    (0..db.len())
        .map(|i| {
            let t = db.item(i);
            (t.index, t.task.clone(), t.start, t.is_done)
        })
        .collect()
}

#[test]
fn save_then_load_round_trip() {
    let db = TodoDatabase::from_items(vec![
        TodoItem::from(1, "Buy milk".to_string(), 1_700_000_000, false),
        TodoItem::from(2, " lead, ünïcode".to_string(), 0, true),
        TodoItem::from(3, String::new(), u64::MAX, false),
    ]);
    let back = TodoDatabase::load(&db.save());
    assert_eq!(fields(&back), fields(&db));
}

#[test]
fn load_skips_non_numeric_id_line() {
    let text = "# ToDo list database\n\n1;A;5;false\nx;text;0;true\n2;B;6;true\n";
    let db = TodoDatabase::load(text);
    assert_eq!(
        fields(&db),
        vec![(1, "A".to_string(), 5, false), (2, "B".to_string(), 6, true)]
    );
}

#[test]
fn load_skips_comments_blank_and_malformed() {
    let text = "; note\n# head\n 1;A;5;false\n\n1;a;b;c;d\n1;A;5\n3;C;7;yes\n4;D;-1;true\n5;E;8;false";
    let db = TodoDatabase::load(text);
    assert_eq!(fields(&db), vec![(5, "E".to_string(), 8, false)]);
}

#[test]
fn load_empty_text() {
    assert_eq!(TodoDatabase::load("").len(), 0);
}

#[test]
fn parse_item_reads_fields() {
    let t = parse_item("+12;task text;0099;true").unwrap();
    assert_eq!((t.index, t.task.as_str(), t.start, t.is_done), (12, "task text", 99, true));
    assert!(parse_item("4294967296;a;1;true").is_none());
    assert!(parse_item("1;a;1;True").is_none());
}
