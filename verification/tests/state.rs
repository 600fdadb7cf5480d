use pastel::backend::WatchEvent;
use pastel::models::{AppTheme, ClipItem, CloseAction, Settings};
use pastel::state::{AppState, MAX_ITEM_BYTES};

fn clip(text: &str, pinned: bool, ts: u64) -> ClipItem {
    ClipItem {
        text: text.to_string(),
        pinned,
        ts,
    }
}

fn state(items: Vec<ClipItem>, max_items: usize) -> AppState {
    AppState {
        items,
        query: String::new(),
        settings: Settings {
            max_items,
            ..Settings::default()
        },
        last_clip: String::new(),
    }
}

fn texts(st: &AppState) -> Vec<&str> {
    st.items.iter().map(|i| i.text.as_str()).collect()
}

#[test]
fn default_settings() {
    let s = Settings::default();
    assert_eq!(s.max_items, 100);
    assert!(s.hide_after_copy);
    assert_eq!(s.close_action, CloseAction::Hide);
    assert!(!s.autostart);
    assert_eq!(s.theme, AppTheme::SoftDark);
    assert_eq!(AppTheme::default(), AppTheme::SoftDark);
    assert!(!s.quits_on_close());
}

#[test]
fn new_clips_are_appended() {
    let mut st = state(vec![], 10);
    st.add_clip("a".to_string(), 1);
    st.add_clip("b".to_string(), 2);
    assert_eq!(texts(&st), ["a", "b"]);
    assert_eq!(st.items[1].ts, 2);
    assert!(!st.items[1].pinned);
}

#[test]
fn recopied_clip_moves_to_newest() {
    let mut st = state(vec![clip("a", false, 1), clip("b", false, 2)], 10);
    st.add_clip("a".to_string(), 5);
    assert_eq!(texts(&st), ["b", "a"]);
    assert_eq!(st.items[1].ts, 5);
}

#[test]
fn recopied_pinned_clip_stays_in_place() {
    let mut st = state(vec![clip("a", true, 1), clip("b", false, 2)], 10);
    st.add_clip("a".to_string(), 7);
    assert_eq!(texts(&st), ["a", "b"]);
    assert!(st.items[0].pinned);
    assert_eq!(st.items[0].ts, 7);
}

#[test]
fn trim_drops_oldest_unpinned_only() {
    let mut st = state(
        vec![
            clip("p1", true, 1),
            clip("u1", false, 2),
            clip("u2", false, 3),
            clip("p2", true, 4),
            clip("u3", false, 5),
        ],
        2,
    );
    st.trim();
    assert_eq!(texts(&st), ["p1", "u2", "p2", "u3"]);
    st.trim();
    assert_eq!(texts(&st), ["p1", "u2", "p2", "u3"]);
    st.settings.max_items = 0;
    st.trim();
    assert_eq!(texts(&st), ["p1", "p2"]);
}

#[test]
fn adding_over_the_limit_drops_the_oldest() {
    let mut st = state(vec![clip("a", false, 1), clip("b", false, 2)], 2);
    st.add_clip("c".to_string(), 3);
    assert_eq!(texts(&st), ["b", "c"]);
    let mut zero = state(vec![], 0);
    zero.add_clip("a".to_string(), 1);
    assert!(zero.items.is_empty());
}

#[test]
fn ingest_skips_blank_repeated_and_oversized() {
    let mut st = state(vec![], 10);
    st.ingest("   \n\t".to_string(), 1);
    assert!(st.items.is_empty());
    assert_eq!(st.last_clip, "");
    st.ingest("hello".to_string(), 2);
    assert_eq!(texts(&st), ["hello"]);
    assert_eq!(st.last_clip, "hello");
    st.ingest("hello".to_string(), 3);
    assert_eq!(st.items.len(), 1);
    assert_eq!(st.items[0].ts, 2);
    let big = "x".repeat(MAX_ITEM_BYTES + 1);
    st.ingest(big.clone(), 4);
    assert_eq!(texts(&st), ["hello"]);
    assert_eq!(st.last_clip, big);
    let edge = "y".repeat(MAX_ITEM_BYTES);
    st.ingest(edge.clone(), 5);
    assert_eq!(st.items.len(), 2);
    assert_eq!(st.items[1].text, edge);
}

#[test]
fn ingest_counts_bytes_not_characters() {
    let mut st = state(vec![], 10);
    // 100_001 characters of two bytes each: over the limit in bytes.
    let wide = "é".repeat(MAX_ITEM_BYTES / 2 + 1);
    st.ingest(wide.clone(), 1);
    assert!(st.items.is_empty());
    assert_eq!(st.last_clip, wide);
}

#[test]
fn ingesting_twice_records_once() {
    let mut once = state(vec![clip("a", false, 1)], 10);
    once.ingest("b".to_string(), 2);
    let mut twice = state(vec![clip("a", false, 1)], 10);
    twice.ingest("b".to_string(), 2);
    twice.ingest("b".to_string(), 9);
    assert_eq!(texts(&once), texts(&twice));
    assert_eq!(once.items[1].ts, twice.items[1].ts);
    assert_eq!(once.last_clip, twice.last_clip);
}

#[test]
fn copy_moves_unpinned_clip_to_newest() {
    let mut st = state(vec![clip("a", false, 1), clip("b", false, 2), clip("p", true, 3)], 10);
    assert_eq!(st.clip_text(0), Some("a".to_string()));
    assert!(st.copy(0, true, 10));
    assert_eq!(texts(&st), ["b", "p", "a"]);
    assert_eq!(st.items[2].ts, 10);
    assert_eq!(st.last_clip, "a");
    assert!(st.copy(1, true, 11));
    assert_eq!(texts(&st), ["b", "p", "a"]);
    assert_eq!(st.items[1].ts, 11);
    assert_eq!(st.last_clip, "p");
}

#[test]
fn failed_copy_changes_nothing() {
    let mut st = state(vec![clip("a", false, 1), clip("b", false, 2)], 10);
    assert!(!st.copy(0, false, 10));
    assert!(!st.copy(5, true, 10));
    assert_eq!(st.clip_text(5), None);
    assert_eq!(texts(&st), ["a", "b"]);
    assert_eq!(st.items[0].ts, 1);
    assert_eq!(st.last_clip, "");
}

#[test]
fn display_order_is_pinned_then_newest() {
    let st = state(
        vec![
            clip("old", false, 1),
            clip("pin-old", true, 2),
            clip("new", false, 9),
            clip("pin-new", true, 8),
            clip("same-a", false, 5),
            clip("same-b", false, 5),
        ],
        10,
    );
    assert_eq!(st.display_indices(), [3, 1, 2, 4, 5, 0]);
}

#[test]
fn display_filters_by_query_ignoring_case() {
    let mut st = state(
        vec![
            clip("Hello World", false, 1),
            clip("goodbye", false, 2),
            clip("ÉCOLE", false, 3),
        ],
        10,
    );
    st.query = "  WORLD ".to_string();
    assert_eq!(st.display_indices(), [0]);
    st.query = "o".to_string();
    assert_eq!(st.display_indices(), [2, 1, 0]);
    st.query = "école".to_string();
    assert_eq!(st.display_indices(), [2]);
    st.query = "   ".to_string();
    assert_eq!(st.display_indices(), [2, 1, 0]);
    st.query = "zzz".to_string();
    assert!(st.display_indices().is_empty());
}

#[test]
fn pin_delete_and_clear() {
    let mut st = state(vec![clip("a", false, 1), clip("b", false, 2), clip("c", true, 3)], 10);
    st.toggle_pin(0);
    assert!(st.items[0].pinned);
    st.toggle_pin(7);
    st.delete(1);
    assert_eq!(texts(&st), ["a", "c"]);
    st.delete(9);
    assert_eq!(texts(&st), ["a", "c"]);
    st.items.push(clip("d", false, 4));
    st.clear_unpinned();
    assert_eq!(texts(&st), ["a", "c"]);
    st.toggle_pin(1);
    st.clear_unpinned();
    assert_eq!(texts(&st), ["a"]);
}

#[test]
fn subtitle_and_window_rules() {
    let mut st = state(vec![clip("a", false, 1), clip("b", true, 2), clip("c", true, 3)], 10);
    assert_eq!(st.subtitle(), "3 clips · 2 pinned");
    assert!(st.hides_after_copy(true));
    assert!(!st.hides_after_copy(false));
    st.settings.hide_after_copy = false;
    assert!(!st.hides_after_copy(true));
    assert!(st.escape_hides());
    st.query = "x".to_string();
    assert!(!st.escape_hides());
    st.settings.close_action = CloseAction::Quit;
    assert!(st.settings.quits_on_close());
    let empty = state(vec![], 10);
    assert_eq!(empty.subtitle(), "0 clips · 0 pinned");
}

#[test]
fn copied_clip_is_not_captured_again() {
    let mut st = state(vec![clip("a", false, 1), clip("b", false, 2)], 10);
    assert!(st.copy(0, true, 10));
    st.ingest("a".to_string(), 11);
    assert_eq!(texts(&st), ["b", "a"]);
    assert_eq!(st.items[1].ts, 10);
}

#[test]
fn recording_keeps_texts_distinct() {
    let mut st = state(vec![clip("a", false, 1), clip("b", true, 2)], 10);
    st.add_clip("b".to_string(), 3);
    st.add_clip("a".to_string(), 4);
    st.add_clip("c".to_string(), 5);
    st.add_clip("a".to_string(), 6);
    assert_eq!(texts(&st), ["b", "c", "a"]);
}

#[test]
fn watcher_events() {
    let mut st = state(vec![], 10);
    assert_eq!(st.take_watch_event(WatchEvent::Clip("a".to_string()), 1), (true, true));
    assert_eq!(texts(&st), ["a"]);
    assert_eq!(st.take_watch_event(WatchEvent::Image(vec![1, 2]), 2), (false, true));
    assert_eq!(texts(&st), ["a"]);
    assert_eq!(st.take_watch_event(WatchEvent::Dead, 3), (false, false));
    assert_eq!(texts(&st), ["a"]);
}
