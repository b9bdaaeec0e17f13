use tjipe_showcase::json::{
    decode, encode, load_achievement_meta, meta_from_item, save_achievement_meta, JsonItem, ACHIEVEMENT_META_FILE,
};
use tjipe_showcase::meta::{AchievementMeta, MetaStore};

fn meta(title: &str, created_at: &str) -> AchievementMeta {
    AchievementMeta {
        title: title.to_string(),
        owner: "所有者".to_string(),
        patent_no: "ZL \"1\"".to_string(),
        description: "line\nline\u{2028}\\".to_string(),
        created_at: created_at.to_string(),
    }
}

fn fields(meta: &AchievementMeta) -> [&str; 5] {
    [&meta.title, &meta.owner, &meta.patent_no, &meta.description, &meta.created_at]
}

#[test]
fn store_keeps_descriptions_by_name() {
    let mut store = MetaStore::new();
    assert!(store.get("a").is_none());
    assert_eq!(fields(&store.get_or_default("a")), ["", "", "", "", ""]);
    store.insert("a".to_string(), meta("A", "1"));
    store.insert("b".to_string(), meta("B", "2"));
    store.insert("a".to_string(), meta("A2", "3"));
    assert_eq!(store.entries().len(), 2);
    assert_eq!(store.get("a").unwrap().title, "A2");
    assert_eq!(store.get("b").unwrap().title, "B");
    assert!(store.remove("a"));
    assert!(!store.remove("a"));
    assert!(!store.contains_key("a"));
    assert!(store.contains_key("b"));
}

#[test]
fn saved_descriptions_are_loaded_again() {
    let mut store = MetaStore::new();
    store.insert("a.mp4".to_string(), meta("视频 A", "1"));
    store.insert("b \"x\".png".to_string(), meta("", ""));
    store.insert("$serde_json::private::RawValue".to_string(), meta("x", "y"));
    let text = save_achievement_meta(&store).unwrap();
    let loaded = load_achievement_meta(Some(&text));
    assert_eq!(loaded.entries().len(), 3);
    for (name, description) in store.entries() {
        assert_eq!(fields(&loaded.get(name).unwrap()), fields(description));
    }
}

#[test]
fn saved_text_is_pretty_json() {
    let mut store = MetaStore::new();
    store.insert(
        "a".to_string(),
        AchievementMeta {
            title: "t".to_string(),
            owner: "o".to_string(),
            patent_no: "p".to_string(),
            description: "d".to_string(),
            created_at: "c".to_string(),
        },
    );
    let expected = "{\n  \"a\": {\n    \"title\": \"t\",\n    \"owner\": \"o\",\n    \"patentNo\": \"p\",\n    \
                    \"description\": \"d\",\n    \"createdAt\": \"c\"\n  }\n}";
    assert_eq!(save_achievement_meta(&store).unwrap(), expected);
    assert_eq!(save_achievement_meta(&MetaStore::new()).unwrap(), "{}");
    assert_eq!(ACHIEVEMENT_META_FILE, "achievement_meta.json");
}

#[test]
fn unreadable_files_hold_no_descriptions() {
    for content in [None, Some(""), Some("nonsense"), Some("[]"), Some("\"x\""), Some("null"), Some("{} x")] {
        assert_eq!(load_achievement_meta(content).entries().len(), 0);
    }
}

#[test]
fn records_that_are_no_descriptions_are_left_out() {
    let text = r#"{
        "whole": {"title": "t", "owner": "o", "patentNo": "p", "description": "d", "createdAt": "c", "more": 1},
        "short": {"title": "t", "owner": "o", "patentNo": "p", "description": "d"},
        "typed": {"title": 1, "owner": "o", "patentNo": "p", "description": "d", "createdAt": "c"},
        "snake": {"title": "t", "owner": "o", "patent_no": "p", "description": "d", "created_at": "c"},
        "list": ["t", "o", "p", "d", "c"],
        "long": ["t", "o", "p", "d", "c", "x"],
        "mixed": ["t", "o", "p", "d", 5],
        "text": "t",
        "null": null
    }"#;
    let store = load_achievement_meta(Some(text));
    let names: Vec<&str> = store.entries().iter().map(|entry| entry.0.as_str()).collect();
    assert_eq!(names, vec!["whole", "list"]);
    assert_eq!(fields(&store.get("whole").unwrap()), ["t", "o", "p", "d", "c"]);
    assert_eq!(fields(&store.get("list").unwrap()), ["t", "o", "p", "d", "c"]);
}

#[test]
fn the_last_record_of_a_name_counts() {
    let text = r#"{"a": ["1", "", "", "", ""], "a": ["2", "", "", "", ""]}"#;
    assert_eq!(load_achievement_meta(Some(text)).get("a").unwrap().title, "2");
}

#[test]
fn items_are_decoded_and_encoded() {
    let texts = || vec![Some("t".to_string()), Some("o".to_string()), Some("p".to_string()), Some("d".to_string())];
    let mut five = texts();
    five.push(Some("c".to_string()));
    assert!(meta_from_item(&JsonItem::Items(texts())).is_none());
    assert!(meta_from_item(&JsonItem::Other).is_none());
    let store = decode(&vec![
        ("x".to_string(), JsonItem::Items(five)),
        ("y".to_string(), JsonItem::Fields(vec![("title".to_string(), None)])),
    ]);
    let records = encode(&store);
    assert_eq!(records.len(), 1);
    assert_eq!(records[0].0, "x");
    assert_eq!(records[0].1[2], ("patentNo".to_string(), "p".to_string()));
    assert_eq!(records[0].1[4], ("createdAt".to_string(), "c".to_string()));
}
