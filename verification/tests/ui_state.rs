use svn_desktop_tool::favorites::{favorites_after_add, favorites_after_remove, Favorite, MAX_FAVS};
use svn_desktop_tool::history::{history_after_add, HistoryEntry, MAX_ENTRIES};
use svn_desktop_tool::settings::{external_diff_setting, Settings};
use svn_desktop_tool::task::{RetrySpec, TaskManager, TaskState, MAX_TASKS};
use svn_desktop_tool::watch::{is_interesting, FsEventKind, WatchRegistry};

fn favs(values: &[(&str, &str)]) -> Vec<Favorite> {
    values
        .iter()
        .enumerate()
        .map(|(i, (name, url))| Favorite {
            name: name.to_string(),
            url: url.to_string(),
            created_at: 1000 + i as i64,
        })
        .collect()
}

#[test]
fn dedup_moves_to_front_and_updates_name() {
    let list = favs(&[("a", "u1"), ("b", "u2"), ("c", "u3")]);
    let list = favorites_after_add(&list, "b2", "u2", 9999).unwrap();
    assert_eq!(list[0].url, "u2");
    assert_eq!(list[0].name, "b2");
    assert_eq!(list.len(), 3);
}

#[test]
fn favorites_truncate_keeps_latest() {
    let list = favs(&[("a", "u1"), ("b", "u2")]);
    assert!(list.len() <= MAX_FAVS);
    assert_eq!(list.len(), 2);
    let list = favorites_after_add(&list, "c", "u3", 0).unwrap();
    assert_eq!(list.len(), 3);
}

#[test]
fn remove_missing_is_noop() {
    let list = favs(&[("a", "u1")]);
    let after = favorites_after_remove(&list, &"not-exist".to_string());
    let list = after.unwrap_or(list);
    assert_eq!(list.len(), 1);
}

fn entries(kind: &str, values: &[&str]) -> Vec<HistoryEntry> {
    values
        .iter()
        .enumerate()
        .map(|(i, v)| HistoryEntry {
            kind: kind.to_string(),
            value: v.to_string(),
            last_used: 1000 + i as i64,
        })
        .collect()
}

#[test]
fn dedup_moves_to_front() {
    let list = entries("remote", &["a", "b", "c"]);
    let list = history_after_add(&list, "remote", "b", 9999).unwrap();
    assert_eq!(list.iter().map(|e| e.value.as_str()).collect::<Vec<_>>(), vec!["b", "a", "c"]);
}

#[test]
fn history_truncate_keeps_latest() {
    let list = entries("local", &["a", "b"]);
    assert!(list.len() <= MAX_ENTRIES);
    assert_eq!(list.len(), 2);
    let list = history_after_add(&list, "local", "c", 0).unwrap();
    assert_eq!(list.len(), 3);
}

#[test]
fn task_lifecycle_works() {
    let mut tm = TaskManager::new();
    let id = tm.create_task("测试任务".into(), 1);
    assert!(!tm.cancel_requested(id));
    let list = tm.list_tasks();
    assert_eq!(list.iter().find(|t| t.id == id).unwrap().state, TaskState::Running);
    assert!(tm.cancel_task(id));
    assert!(tm.cancel_requested(id));
    tm.finish_task(id, TaskState::Cancelled, String::new(), None, 2);
    let list = tm.list_tasks();
    let t = list.iter().find(|t| t.id == id).unwrap();
    assert_eq!(t.state, TaskState::Cancelled);
    assert!(t.finished_at.is_some());
    assert!(!tm.cancel_task(id));
}

#[test]
fn task_list_keeps_history_and_trims() {
    let mut tm = TaskManager::new();
    for i in 0..(MAX_TASKS + 5) {
        let id = tm.create_task(format!("任务 {i}"), i as u64);
        tm.finish_task(id, TaskState::Done, String::new(), Some("ok".into()), i as u64);
    }
    let list = tm.list_tasks();
    assert_eq!(list.len(), MAX_TASKS);
    assert_eq!(list[0].desc, format!("任务 {}", MAX_TASKS + 4));
}

#[test]
fn get_retry_only_for_failed_or_cancelled() {
    let mut tm = TaskManager::new();
    let id1 = tm.create_task_with_retry(
        "导入".into(),
        Some(RetrySpec::Import { local: "/tmp/x".into(), url: "svn://h/r".into(), message: "m".into() }),
        1,
    );
    tm.finish_task(id1, TaskState::Failed, "err".into(), None, 2);
    match tm.get_retry(id1) {
        Some(RetrySpec::Import { local, url, message }) => {
            assert_eq!(local, "/tmp/x");
            assert_eq!(url, "svn://h/r");
            assert_eq!(message, "m");
        }
        other => panic!("应返回 Import 参数: {:?}", other.is_some()),
    }
    let id2 = tm.create_task_with_retry("更新".into(), Some(RetrySpec::Update { path: "/wc".into() }), 3);
    assert!(tm.get_retry(id2).is_none(), "Running 任务不可重试");
    let id3 = tm.create_task("普通任务".into(), 4);
    tm.finish_task(id3, TaskState::Failed, "err".into(), None, 5);
    assert!(tm.get_retry(id3).is_none());
}

// ---------------------------------------------------------------------------
// further cases
// ---------------------------------------------------------------------------

#[test]
fn favorite_input_is_trimmed_and_checked() {
    let list = favs(&[("a", "u1")]);
    let out = favorites_after_add(&list, "  n  ", "  u9 ", 5).unwrap();
    assert_eq!(out[0].name, "n");
    assert_eq!(out[0].url, "u9");
    assert_eq!(out[0].created_at, 5);
    assert_eq!(out[1].url, "u1");
    assert_eq!(favorites_after_add(&list, "n", "   ", 5).unwrap_err(), "收藏 URL 不能为空");
    assert_eq!(favorites_after_add(&list, " ", "u", 5).unwrap_err(), "收藏名称不能为空");
}

#[test]
fn favorites_are_bounded() {
    let many: Vec<(String, String)> = (0..MAX_FAVS).map(|i| (format!("n{i}"), format!("u{i}"))).collect();
    let refs: Vec<(&str, &str)> = many.iter().map(|(a, b)| (a.as_str(), b.as_str())).collect();
    let list = favs(&refs);
    let out = favorites_after_add(&list, "new", "fresh", 1).unwrap();
    assert_eq!(out.len(), MAX_FAVS);
    assert_eq!(out[0].url, "fresh");
    assert_eq!(out[MAX_FAVS - 1].url, format!("u{}", MAX_FAVS - 2));
}

#[test]
fn favorite_removed_and_again_noop() {
    let list = favs(&[("a", "u1"), ("b", "u2")]);
    let once = favorites_after_remove(&list, &"u1".to_string()).unwrap();
    assert_eq!(once.len(), 1);
    assert_eq!(once[0].url, "u2");
    assert!(favorites_after_remove(&once, &"u1".to_string()).is_none());
}

#[test]
fn history_keeps_kinds_apart_and_bounded() {
    let list = entries("remote", &["a"]);
    let out = history_after_add(&list, "local", "a", 7).unwrap();
    assert_eq!(out.len(), 2);
    assert_eq!(out[0].kind, "local");
    assert!(history_after_add(&list, "local", "   ", 7).is_none());
    let many: Vec<String> = (0..MAX_ENTRIES).map(|i| format!("v{i}")).collect();
    let refs: Vec<&str> = many.iter().map(|s| s.as_str()).collect();
    let out = history_after_add(&entries("local", &refs), "local", "new", 1).unwrap();
    assert_eq!(out.len(), MAX_ENTRIES);
    assert_eq!(out[0].value, "new");
}

#[test]
fn new_task_is_listed_first_and_ids_count_up() {
    let mut tm = TaskManager::new();
    let a = tm.create_task("a".into(), 10);
    let b = tm.create_task("b".into(), 11);
    assert_eq!(a, 1);
    assert_eq!(b, 2);
    let list = tm.list_tasks();
    assert_eq!(list[0].id, b);
    assert_eq!(list[0].state, TaskState::Running);
    assert_eq!(list[0].started_at, 11);
    assert!(list[0].finished_at.is_none());
    tm.finish_task(a, TaskState::Done, String::new(), Some("ok".into()), 12);
    let list = tm.list_tasks();
    assert_eq!(list[1].finished_at, Some(12));
    assert_eq!(list[1].result.as_deref(), Some("ok"));
    // unknown ids change nothing
    assert!(!tm.cancel_task(99));
    tm.finish_task(99, TaskState::Failed, String::new(), None, 13);
    assert_eq!(tm.list_tasks().len(), 2);
}

#[test]
fn cancelled_task_can_be_retried() {
    let mut tm = TaskManager::new();
    let id = tm.create_task_with_retry(
        "导出".into(),
        Some(RetrySpec::Export { url: "u".into(), dest: "d".into(), rev: Some(3) }),
        1,
    );
    assert!(tm.cancel_task(id));
    tm.finish_task(id, TaskState::Cancelled, String::new(), None, 2);
    match tm.get_retry(id) {
        Some(RetrySpec::Export { url, dest, rev }) => {
            assert_eq!(url, "u");
            assert_eq!(dest, "d");
            assert_eq!(rev, Some(3));
        }
        _ => panic!("export retry expected"),
    }
}

#[test]
fn watch_registry_reuses_ids() {
    let mut w = WatchRegistry::new();
    let (a, fresh) = w.start(&"/wc".to_string());
    assert!(fresh);
    assert_eq!(a, 1);
    assert_eq!(w.start(&"/wc".to_string()), (1, false));
    let (b, fresh) = w.start(&"/other".to_string());
    assert!(fresh);
    assert_eq!(b, 2);
    assert_eq!(w.stop(a), Some("/wc".to_string()));
    assert_eq!(w.stop(a), None);
    assert_eq!(w.start(&"/wc".to_string()), (3, true));
}

#[test]
fn only_changes_are_interesting() {
    assert!(is_interesting(FsEventKind::Create));
    assert!(is_interesting(FsEventKind::Modify));
    assert!(is_interesting(FsEventKind::Remove));
    assert!(!is_interesting(FsEventKind::Access));
    assert!(!is_interesting(FsEventKind::Other));
}

#[test]
fn diff_tool_setting() {
    assert_eq!(Settings::default().external_diff, "/usr/bin/opendiff");
    assert_eq!(external_diff_setting("  "), "/usr/bin/opendiff");
    assert_eq!(external_diff_setting(" /opt/bin/meld "), "/opt/bin/meld");
}
