use sidepar::history::{
    capture, clear_clipboard_history, delete_content, delete_history_item, get_clipboard_history,
    observe_clipboard, record_clipboard_item, toggle_pin_item, ClipboardHistory, HISTORY_LIMIT,
    PREVIEW_CHARS,
};
use sidepar::models::ClipboardItem;

fn item(id: &str, content: &str, timestamp: u64, pinned: bool) -> ClipboardItem {
    ClipboardItem {
        id: id.to_string(),
        content: content.to_string(),
        preview: content.to_string(),
        timestamp,
        pinned,
    }
}

fn ids(items: &[ClipboardItem]) -> Vec<String> {
    items.iter().map(|i| i.id.clone()).collect()
}

fn is_v4(id: &str) -> bool {
    let chars: Vec<char> = id.chars().collect();
    chars.len() == 36
        && chars.iter().enumerate().all(|(i, c)| {
            if [8, 13, 18, 23].contains(&i) {
                *c == '-'
            } else {
                c.is_ascii_hexdigit() && !c.is_ascii_uppercase()
            }
        })
        && chars[14] == '4'
        && "89ab".contains(chars[19])
}

#[test]
fn history_lists_pinned_first_then_newest() {
    let mut h = ClipboardHistory::new();
    assert!(h.insert(item("a", "one", 10, false)));
    assert!(h.insert(item("b", "two", 30, false)));
    assert!(h.insert(item("c", "three", 5, true)));
    assert!(h.insert(item("d", "four", 20, true)));
    let listed = get_clipboard_history(&h);
    assert_eq!(ids(&listed), vec!["d", "c", "b", "a"]);
}

#[test]
fn insert_refuses_taken_id() {
    let mut h = ClipboardHistory::new();
    assert!(h.insert(item("a", "one", 10, false)));
    assert!(!h.insert(item("a", "other", 11, false)));
    assert_eq!(h.len(), 1);
    assert_eq!(h.rows()[0].content, "one");
}

#[test]
fn recording_removes_same_text() {
    let mut h = ClipboardHistory::new();
    record_clipboard_item(&mut h, item("a", "same", 1, false));
    record_clipboard_item(&mut h, item("b", "other", 2, false));
    record_clipboard_item(&mut h, item("c", "same", 3, false));
    let listed = get_clipboard_history(&h);
    assert_eq!(ids(&listed), vec!["c", "b"]);
}

#[test]
fn recording_removes_same_text_even_when_pinned() {
    let mut h = ClipboardHistory::new();
    record_clipboard_item(&mut h, item("a", "same", 1, false));
    toggle_pin_item(&mut h, &"a".to_string());
    record_clipboard_item(&mut h, item("b", "same", 2, false));
    let listed = get_clipboard_history(&h);
    assert_eq!(ids(&listed), vec!["b"]);
    assert!(!listed[0].pinned);
}

#[test]
fn history_keeps_at_most_the_limit() {
    let mut h = ClipboardHistory::new();
    for i in 0..(HISTORY_LIMIT as u64 + 5) {
        record_clipboard_item(&mut h, item(&format!("id{i}"), &format!("text{i}"), i, false));
    }
    assert_eq!(h.len(), HISTORY_LIMIT);
    let listed = get_clipboard_history(&h);
    assert_eq!(listed.len(), HISTORY_LIMIT);
    assert_eq!(listed[0].id, "id54");
    assert_eq!(listed[HISTORY_LIMIT - 1].id, "id5");
}

#[test]
fn pruning_keeps_pinned_entries() {
    let mut h = ClipboardHistory::new();
    record_clipboard_item(&mut h, item("old", "pinned text", 0, false));
    toggle_pin_item(&mut h, &"old".to_string());
    for i in 1..(HISTORY_LIMIT as u64 + 10) {
        record_clipboard_item(&mut h, item(&format!("id{i}"), &format!("text{i}"), i, false));
    }
    let listed = get_clipboard_history(&h);
    assert_eq!(listed.len(), HISTORY_LIMIT);
    assert_eq!(listed[0].id, "old");
    assert!(listed[0].pinned);
}

#[test]
fn listing_shows_at_most_the_limit_of_a_larger_table() {
    let mut h = ClipboardHistory::new();
    for i in 0..60u64 {
        assert!(h.insert(item(&format!("id{i}"), &format!("t{i}"), i, false)));
    }
    assert_eq!(h.len(), 60);
    let listed = get_clipboard_history(&h);
    assert_eq!(listed.len(), HISTORY_LIMIT);
    assert_eq!(listed[0].id, "id59");
    assert_eq!(listed[49].id, "id10");
}

#[test]
fn toggling_twice_restores_pin() {
    let mut h = ClipboardHistory::new();
    h.insert(item("a", "one", 1, false));
    h.insert(item("b", "two", 2, false));
    toggle_pin_item(&mut h, &"a".to_string());
    assert!(h.rows().iter().find(|i| i.id == "a").unwrap().pinned);
    assert!(!h.rows().iter().find(|i| i.id == "b").unwrap().pinned);
    toggle_pin_item(&mut h, &"a".to_string());
    assert!(h.rows().iter().all(|i| !i.pinned));
}

#[test]
fn toggling_unknown_id_changes_nothing() {
    let mut h = ClipboardHistory::new();
    h.insert(item("a", "one", 1, false));
    toggle_pin_item(&mut h, &"zzz".to_string());
    assert!(!h.rows()[0].pinned);
}

#[test]
fn deleting_and_clearing() {
    let mut h = ClipboardHistory::new();
    h.insert(item("a", "one", 1, false));
    h.insert(item("b", "two", 2, false));
    delete_history_item(&mut h, &"a".to_string());
    assert_eq!(ids(h.rows()), vec!["b"]);
    delete_history_item(&mut h, &"missing".to_string());
    assert_eq!(h.len(), 1);
    clear_clipboard_history(&mut h);
    assert_eq!(h.len(), 0);
    assert!(get_clipboard_history(&h).is_empty());
}

#[test]
fn delete_content_removes_every_match() {
    let mut h = ClipboardHistory::new();
    h.insert(item("a", "dup", 1, false));
    h.insert(item("b", "keep", 2, false));
    h.insert(item("c", "dup", 3, true));
    delete_content(&mut h, &"dup".to_string());
    assert_eq!(ids(h.rows()), vec!["b"]);
}

#[test]
fn capture_builds_a_fresh_unpinned_entry() {
    let text = "   some copied text   ".to_string();
    let a = capture(text.clone(), 1_700_000_000_000);
    let b = capture(text.clone(), 1_700_000_000_001);
    assert_eq!(a.content, text);
    assert_eq!(a.preview, "some copied text");
    assert!(!a.pinned);
    assert!(is_v4(&a.id));
    assert!(is_v4(&b.id));
    assert_ne!(a.id, b.id);
    assert_eq!(a.timestamp, 1_700_000_000_000);
    assert_eq!(b.timestamp, 1_700_000_000_001);
}

#[test]
fn capture_previews_long_text() {
    let text: String = std::iter::repeat('y').take(100).collect();
    let a = capture(text, 7);
    assert_eq!(a.preview.chars().count(), PREVIEW_CHARS + 3);
}

#[test]
fn observe_records_new_text_once() {
    let mut last = String::from("start");
    let first = observe_clipboard(&mut last, "copied".to_string(), 123);
    assert_eq!(last, "copied");
    let entry = first.expect("new text gives an entry");
    assert_eq!(entry.content, "copied");
    assert_eq!(entry.timestamp, 123);
    assert!(observe_clipboard(&mut last, "copied".to_string(), 124).is_none());
    assert_eq!(last, "copied");
}

#[test]
fn observe_ignores_empty_text() {
    let mut last = String::from("x");
    assert!(observe_clipboard(&mut last, String::new(), 5).is_none());
    assert_eq!(last, "x");
}

#[test]
fn entry_with_oversized_timestamp_is_not_stored() {
    let mut h = ClipboardHistory::new();
    record_clipboard_item(&mut h, item("a", "same", 1, false));
    record_clipboard_item(&mut h, item("b", "same", u64::MAX, false));
    assert_eq!(h.len(), 0);
    record_clipboard_item(&mut h, item("c", "x", i64::MAX as u64, false));
    assert_eq!(ids(h.rows()), vec!["c"]);
}
