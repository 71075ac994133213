use ai_translate::history::{history_lines, HistoryEntry, HistoryStore};
use ai_translate::lang::SourceLanguage;
use ai_translate::translate::TranslationTriple;

fn triple(s: &str) -> TranslationTriple {
    TranslationTriple { ru: format!("ru:{s}"), en: format!("en:{s}"), kk: format!("kk:{s}") }
}

fn entry(id: u64, ts_ms: i64, session: &str, started: i64) -> HistoryEntry {
    HistoryEntry {
        id,
        ts_ms,
        session_id: session.to_string(),
        session_started_ms: started,
        source_lang: "kazakh".to_string(),
        original: format!("text {id}"),
        ru: String::new(),
        en: String::new(),
        kk: String::new(),
    }
}

#[test]
fn append_then_list_gives_back_the_entry() {
    let mut store = HistoryStore::new(10);
    let e = store.append_at(1000, SourceLanguage::Russian, "привет".to_string(), &triple("a"), "s1", 900);
    assert_eq!(e.id, 1);
    assert_eq!(e.ts_ms, 1000);
    assert_eq!(e.source_lang, "russian");
    assert_eq!(e.session_id, "s1");
    assert_eq!(e.session_started_ms, 900);
    assert_eq!(e.ru, "ru:a");
    let listed = store.list(1, None);
    assert_eq!(listed.len(), 1);
    assert_eq!(listed[0].original, "привет");
    let listed = store.list(5, Some("s1"));
    assert_eq!(listed.len(), 1);
    assert_eq!(store.list(5, Some("other")).len(), 0);
    let e2 = store.append_at(1001, SourceLanguage::English, "hi".to_string(), &triple("b"), "s2", 1001);
    assert_eq!(e2.id, 2);
}

#[test]
fn oldest_entries_are_evicted() {
    let mut store = HistoryStore::new(2);
    for i in 0..5 {
        store.append_at(i, SourceLanguage::English, format!("m{i}"), &triple("x"), "s", 0);
    }
    let listed = store.list(10, None);
    let originals: Vec<&str> = listed.iter().map(|e| e.original.as_str()).collect();
    assert_eq!(originals, vec!["m3", "m4"]);
}

#[test]
fn history_that_keeps_nothing_lists_nothing() {
    let mut store = HistoryStore::new(0);
    let e = store.append_at(5, SourceLanguage::English, "gone".to_string(), &triple("x"), "s", 0);
    assert_eq!(e.id, 1);
    assert!(store.list(10, None).is_empty());
}

#[test]
fn list_returns_the_last_entries_oldest_first() {
    let mut store = HistoryStore::new(100);
    for i in 0..6 {
        let sid = if i % 2 == 0 { "even" } else { "odd" };
        store.append_at(i, SourceLanguage::English, format!("m{i}"), &triple("x"), sid, 0);
    }
    let listed: Vec<String> = store.list(2, Some("even")).into_iter().map(|e| e.original).collect();
    assert_eq!(listed, vec!["m2", "m4"]);
    let listed: Vec<String> = store.list(3, None).into_iter().map(|e| e.original).collect();
    assert_eq!(listed, vec!["m3", "m4", "m5"]);
}

#[test]
fn clear_forgets_and_restarts_ids() {
    let mut store = HistoryStore::new(10);
    store.append_at(1, SourceLanguage::English, "a".to_string(), &triple("x"), "s", 0);
    store.append_at(2, SourceLanguage::English, "b".to_string(), &triple("x"), "s", 0);
    store.clear();
    assert!(store.list(10, None).is_empty());
    let e = store.append_at(3, SourceLanguage::English, "c".to_string(), &triple("x"), "s", 0);
    assert_eq!(e.id, 1);
}

#[test]
fn load_fills_in_legacy_sessions_and_next_id() {
    let parsed = vec![entry(7, 100, "  ", 0), entry(3, 200, "s", -5), entry(4, 300, "s", 250)];
    let mut store = HistoryStore::load(10, parsed);
    let listed = store.list(10, None);
    assert_eq!(listed[0].session_id, "legacy-7");
    assert_eq!(listed[0].session_started_ms, 100);
    assert_eq!(listed[1].session_started_ms, 200);
    assert_eq!(listed[2].session_started_ms, 250);
    let e = store.append_at(400, SourceLanguage::English, "n".to_string(), &triple("x"), "s", 0);
    assert_eq!(e.id, 8);
}

#[test]
fn load_keeps_only_the_latest_entries() {
    let parsed = (1..=5).map(|i| entry(i, i as i64, "s", 1)).collect();
    let store = HistoryStore::load(3, parsed);
    let ids: Vec<u64> = store.list(10, None).iter().map(|e| e.id).collect();
    assert_eq!(ids, vec![3, 4, 5]);
}

#[test]
fn empty_load_starts_ids_at_one() {
    let mut store = HistoryStore::load(10, Vec::new());
    let e = store.append_at(1, SourceLanguage::English, "a".to_string(), &triple("x"), "s", 0);
    assert_eq!(e.id, 1);
}

#[test]
fn sessions_are_summarized_newest_first() {
    let parsed = vec![
        entry(1, 100, "a", 90),
        entry(2, 110, "b", 105),
        entry(3, 120, "a", 90),
        entry(4, 95, "a", 80),
        entry(5, 130, "", 0),
    ];
    let store = HistoryStore::load(100, parsed);
    let sessions = store.sessions(10);
    let ids: Vec<&str> = sessions.iter().map(|s| s.session_id.as_str()).collect();
    assert_eq!(ids, vec!["legacy-5", "b", "a"]);
    let a = &sessions[2];
    assert_eq!(a.messages, 3);
    assert_eq!(a.first_ts_ms, 95);
    assert_eq!(a.last_ts_ms, 120);
    assert_eq!(a.session_started_ms, 80);
    assert_eq!(sessions[0].session_started_ms, 130);
    let total: usize = sessions.iter().map(|s| s.messages).sum();
    assert_eq!(total, 5);
    assert_eq!(store.sessions(1).len(), 1);
    assert_eq!(store.sessions(1)[0].session_id, "legacy-5");
}

#[test]
fn sessions_with_equal_start_are_ordered_by_last_message() {
    let parsed = vec![entry(1, 100, "x", 50), entry(2, 200, "y", 50), entry(3, 150, "x", 50)];
    let store = HistoryStore::load(100, parsed);
    let ids: Vec<String> = store.sessions(10).into_iter().map(|s| s.session_id).collect();
    assert_eq!(ids, vec!["y", "x"]);
}

#[test]
fn append_uses_the_clock() {
    let mut store = HistoryStore::new(10);
    let e = store.append(SourceLanguage::Kazakh, "сәлем".to_string(), &triple("x"), "s", 1);
    assert!(e.ts_ms > 1_600_000_000_000);
    assert_eq!(e.source_lang, "kazakh");
}

#[test]
fn stored_text_is_read_line_by_line() {
    let raw = "{\"a\":1}\r\n\n   \n{\"b\":2}\n{\"c\":3}\r";
    let expected: Vec<String> = raw.lines().filter(|l| !l.trim().is_empty()).map(String::from).collect();
    assert_eq!(history_lines(raw), expected);
    assert!(history_lines("").is_empty());
    assert_eq!(history_lines("x\n"), vec!["x".to_string()]);
}
