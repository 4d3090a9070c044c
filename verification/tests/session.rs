use pavi::paths::is_same_path;
use pavi::session::{
    bounded_text, recovered, GridLayoutPreference, Preferences, SessionState, MAX_HISTORY_BYTES,
    MAX_HISTORY_ENTRIES, MAX_QUERY_BYTES, MAX_RECENT_FILES,
};
use std::path::Path;

#[test]
fn keeps_history_order_deduplicated_and_bounded() {
    let mut state = SessionState::default();
    for index in 0..=MAX_HISTORY_ENTRIES {
        state.record_query(&format!("SELECT {index}"), 7, 0, true, None);
    }
    assert_eq!(state.query_history.len(), MAX_HISTORY_ENTRIES);
    assert_eq!(
        state.query_history[0].sql,
        format!("SELECT {MAX_HISTORY_ENTRIES}")
    );
    state.record_query("SELECT 5", 8, 1, false, None);
    assert_eq!(state.query_history[0].sql, "SELECT 5");
    assert_eq!(state.query_history.len(), MAX_HISTORY_ENTRIES);
    assert_eq!(state.query_history[0].timestamp_unix_secs, 8);
    assert!(!state.query_history[0].success);
}

#[test]
fn clears_history_and_deduplicates_recent_files() {
    let file = "/tmp/data.parquet".to_string();
    let mut state = SessionState::default();
    state.record_recent_file(file.clone());
    state.record_recent_file(file);
    state.record_query("SELECT 1", 0, 0, true, Some(1));
    assert_eq!(state.recent_files.len(), 1);
    state.clear_history();
    assert!(state.query_history.is_empty());
}

#[test]
fn ignores_missing_corrupt_and_wrong_version_state() {
    assert_eq!(recovered(None, None), SessionState::default());
    let mut wrong_version = SessionState {
        version: 99,
        sql_input: "x".to_string(),
        preferences: Preferences {
            inspector_visible: false,
            chart_visible: false,
        },
        ..SessionState::default()
    };
    wrong_version.normalize(&vec![], true);
    assert_eq!(wrong_version, SessionState::default());
}

#[test]
fn recovers_a_complete_temporary_file_after_an_interrupted_replace() {
    let state = || SessionState {
        sql_input: "SELECT recovered FROM dataset".to_string(),
        ..SessionState::default()
    };
    assert_eq!(recovered(None, Some(state())), state());
    assert_eq!(
        recovered(Some(SessionState::default()), Some(state())),
        SessionState::default()
    );
}

#[test]
fn removes_unavailable_recent_files_and_never_serializes_runtime_data() {
    let mut state = SessionState::default();
    state.recent_files.push("/tmp/missing.parquet".to_string());
    state.normalize(&vec![false], true);
    assert!(state.recent_files.is_empty());
    state.record_query("SELECT id FROM dataset", 0, 0, true, Some(2));
    let kept = format!("{state:?}");
    assert!(kept.contains("SELECT id FROM dataset"));
    assert!(!kept.contains("task_id"));
    assert!(!kept.contains("generation"));
    assert!(!kept.contains("RecordBatch"));
}

#[test]
fn recent_files_are_few_and_newest_first() {
    let mut state = SessionState::default();
    for index in 0..20 {
        state.record_recent_file(format!("/tmp/{index}"));
    }
    assert_eq!(state.recent_files.len(), MAX_RECENT_FILES);
    assert_eq!(state.recent_files[0], "/tmp/19");
    assert_eq!(state.last_opened_file.as_deref(), Some("/tmp/19"));
    state.remove_recent_file("/tmp/19");
    assert_eq!(state.last_opened_file.as_deref(), Some("/tmp/18"));
    assert_eq!(state.recent_files.len(), MAX_RECENT_FILES - 1);
    state.remove_recent_file("/tmp/10");
    assert_eq!(state.last_opened_file.as_deref(), Some("/tmp/18"));
    assert!(!state.recent_files.contains(&"/tmp/10".to_string()));
}

#[test]
fn paths_are_compared_by_their_names() {
    for (a, b) in [
        ("a/b", "a//b"),
        ("a/b", "a/./b"),
        ("a/b", "a/b/"),
        ("a/b", "a/b/."),
        ("/a/b", "//a/b"),
        ("/a/b", "/./a/b"),
        ("./a", ".//a/./"),
        ("", ""),
        ("/", "//"),
        (".", "./"),
    ] {
        assert!(is_same_path(a, b), "{a} {b}");
        assert!(is_same_path(b, a), "{b} {a}");
        assert_eq!(Path::new(a), Path::new(b));
    }
    for (a, b) in [
        ("a/b", "./a/b"),
        ("a/b", "/a/b"),
        ("a/c", "a/b/../c"),
        ("a/b", "a/b/c"),
        ("a/b", "a/B"),
        ("a/b", "ab"),
        ("a.", "a"),
        ("", "/"),
        ("", "."),
        ("..", "."),
    ] {
        assert!(!is_same_path(a, b), "{a} {b}");
        assert!(!is_same_path(b, a), "{b} {a}");
        assert_ne!(Path::new(a), Path::new(b));
    }
}

#[test]
fn recent_files_are_known_by_other_spellings() {
    let mut state = SessionState::default();
    for path in ["/tmp/a", "/tmp//a", "/tmp/b", "/tmp/./a/"] {
        state.record_recent_file(path.to_string());
    }
    assert_eq!(state.recent_files, vec!["/tmp/./a/", "/tmp/b"]);
    state.remove_recent_file("/tmp/a");
    assert_eq!(state.recent_files, vec!["/tmp/b"]);
    assert_eq!(state.last_opened_file.as_deref(), Some("/tmp/b"));
    state.recent_files = vec!["/x//y".to_string(), "/x/y".to_string(), "x/y".to_string()];
    state.normalize(&vec![true, true, true], true);
    assert_eq!(state.recent_files, vec!["/x//y", "x/y"]);
}

#[test]
fn history_entries_can_be_removed() {
    let mut state = SessionState::default();
    state.record_query("a", 0, 0, true, None);
    state.record_query("b", 0, 0, true, None);
    state.record_query("   ", 0, 0, true, None);
    assert_eq!(state.query_history.len(), 2);
    state.remove_history(7);
    state.remove_history(0);
    assert_eq!(state.query_history.len(), 1);
    assert_eq!(state.query_history[0].sql, "a");
}

#[test]
fn long_queries_are_cut_and_old_ones_leave() {
    assert_eq!(bounded_text("abc", 3), "abc");
    assert_eq!(bounded_text("abcd", 3), "abc");
    assert_eq!(bounded_text("aöö", 2), "aö");
    assert_eq!(bounded_text("abc", 0), "");
    let mut state = SessionState::default();
    for index in 0..40 {
        let sql = format!("{index:02}{}", "x".repeat(MAX_QUERY_BYTES));
        state.record_query(&sql, 0, 0, true, None);
    }
    let bytes: usize = state.query_history.iter().map(|entry| entry.sql.len()).sum();
    assert!(bytes <= MAX_HISTORY_BYTES);
    assert_eq!(state.query_history.len(), 16);
    assert!(state.query_history[0].sql.starts_with("39"));
}

#[test]
fn a_usable_session_stays_as_it_is() {
    let mut state = SessionState::default();
    for path in ["/a", "/b", "/a", "/c"] {
        state.recent_files.push(path.to_string());
    }
    state.last_opened_file = Some("/gone".to_string());
    state.sql_input = "y".repeat(MAX_QUERY_BYTES + 9);
    state.record_query("SELECT 1", 0, 0, true, None);
    state.normalize(&vec![true, false, true, true], false);
    assert_eq!(state.recent_files, vec!["/a", "/c"]);
    assert_eq!(state.last_opened_file, None);
    assert_eq!(state.sql_input.len(), MAX_QUERY_BYTES);
    let sql = state.sql_input.clone();
    state.normalize(&vec![true, true], true);
    assert_eq!(state.recent_files, vec!["/a", "/c"]);
    assert_eq!(state.sql_input, sql);
    assert_eq!(state.query_history.len(), 1);
}

#[test]
fn one_layout_is_kept_for_each_schema() {
    let layout = |key: &str, hidden: &str| GridLayoutPreference {
        schema_key: key.to_string(),
        order: vec![],
        hidden: vec![hidden.to_string()],
        widths: vec![],
    };
    let mut state = SessionState::default();
    state.save_grid_layout(layout("x", "1"));
    state.save_grid_layout(layout("y", "2"));
    state.save_grid_layout(layout("x", "3"));
    assert_eq!(state.grid_layouts.len(), 2);
    assert_eq!(state.grid_layout("x").unwrap().hidden, vec!["3"]);
    assert_eq!(state.grid_layout("y").unwrap().hidden, vec!["2"]);
    assert!(state.grid_layout("z").is_none());
}
