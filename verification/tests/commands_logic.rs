use svn_desktop_tool::commands::{
    auth_remove_args, auth_remove_outcome, changelist_args, changelist_summary, commit_args,
    commit_changelist_args, conflict_info, count_summary, delete_args, diff_result, diff_rev_args,
    diff_retry_peg, dir_names, export_args, export_result, extract_committed_revision, file_content, file_pair,
    has_unversioned, is_big_file, is_blank, is_junk, last_line, last_nonblank_line, layout_url,
    list_args, lock_args, log_args, merge_args, move_args, open_result, parse_choice,
    parse_failure_error, patch_args, paths_args, peg_url, propset_args, props_list,
    relocate_args, remote_msg_args, require_message, resolve_args, resolve_conflict, set_log_args,
    switch_args, task_outcome, task_summary, trusted_args, unlock_args, unversioned_diff,
    update_summary,
};
use svn_desktop_tool::conflict::Choice;
use svn_desktop_tool::models::{StatusEntry, SvnError};
use svn_desktop_tool::task::TaskState;

fn v(items: &[&str]) -> Vec<String> {
    items.iter().map(|s| s.to_string()).collect()
}

#[test]
fn peg_url_works() {
    assert_eq!(peg_url("https://h/svn/trunk", None), "https://h/svn/trunk");
    assert_eq!(peg_url("https://h/svn/trunk", Some(5)), "https://h/svn/trunk@5");
}

#[test]
fn extract_revision_works() {
    assert_eq!(extract_committed_revision("Committed revision 42.\n", ""), "提交成功（revision 42）");
    assert_eq!(extract_committed_revision("", ""), "提交成功");
}

// ---------------------------------------------------------------------------
// further cases
// ---------------------------------------------------------------------------

#[test]
fn committed_revision_found_in_stderr_and_after_spaces() {
    assert_eq!(
        extract_committed_revision("Sending a.txt\n", "x Committed revision   7.\n"),
        "提交成功（revision 7）"
    );
    assert_eq!(extract_committed_revision("Committed revision .\n", ""), "提交成功");
    assert_eq!(extract_committed_revision("Committed revision 3\r\n", ""), "提交成功（revision 3）");
}

#[test]
fn peg_url_negative_revision() {
    assert_eq!(peg_url("u", Some(-1)), "u@-1");
}

#[test]
fn read_command_arguments() {
    assert_eq!(list_args("u", Some(3)), v(&["list", "--xml", "-r", "3", "u@3"]));
    assert_eq!(list_args("u", None), v(&["list", "--xml", "u"]));
    assert_eq!(diff_rev_args("u", 2, 5, 5), v(&["diff", "-r", "2:5", "u@5"]));
    assert_eq!(
        export_args("u", "/d", Some(4)).unwrap(),
        v(&["export", "--force", "-r", "4", "u@4", "/d"])
    );
    let e = export_args("u", "  ", None).unwrap_err();
    assert_eq!(e.category, "io");
    assert_eq!(e.summary, "目标路径为空");
}

#[test]
fn log_arguments() {
    assert_eq!(
        log_args("u", Some(10), None, &None, &None, &None),
        v(&["log", "--xml", "-v", "-l", "10", "u"])
    );
    assert_eq!(
        log_args("u", None, Some(9), &Some("fix".into()), &None, &None),
        v(&["log", "--xml", "-v", "-r", "9:1", "--search", "fix", "u"])
    );
    assert_eq!(
        log_args("u", None, Some(9), &Some("  ".into()), &Some("2026-01-01".into()), &None),
        v(&["log", "--xml", "-v", "-r", "{2026-01-01}:HEAD", "u"])
    );
    assert_eq!(
        log_args("u", None, None, &None, &Some(" ".into()), &Some("2026-01-02".into())),
        v(&["log", "--xml", "-v", "-r", "1:{2026-01-02T23:59:59}", "u"])
    );
    assert_eq!(
        log_args("u", None, None, &None, &None, &Some("2026-01-02T10:00".into())),
        v(&["log", "--xml", "-v", "-r", "1:{2026-01-02T10:00}", "u"])
    );
}

#[test]
fn write_command_arguments() {
    assert_eq!(
        switch_args("/wc", "u", &Some("infinity".into())).unwrap(),
        v(&["switch", "--depth", "infinity", "u", "/wc"])
    );
    assert_eq!(switch_args("/wc", "u", &Some(" ".into())).unwrap(), v(&["switch", "u", "/wc"]));
    assert_eq!(switch_args("/wc", " ", &None).unwrap_err().summary, "目标 URL 不能为空");
    assert_eq!(
        relocate_args("/wc", "new", &Some("old".into())).unwrap(),
        v(&["relocate", "old", "new", "/wc"])
    );
    assert_eq!(relocate_args("/wc", "", &None).unwrap_err().summary, "新仓库地址不能为空");
    assert_eq!(
        merge_args("/wc", "src", Some(3), None, true).unwrap(),
        v(&["merge", "--dry-run", "-r", "3:HEAD", "src", "/wc"])
    );
    assert_eq!(merge_args("/wc", "src", None, Some(8), false).unwrap(), v(&["merge", "-r", "1:8", "src", "/wc"]));
    assert_eq!(merge_args("/wc", "src", None, None, false).unwrap(), v(&["merge", "src", "/wc"]));
    assert_eq!(merge_args("/wc", "  ", None, None, false).unwrap_err().summary, "源 URL 不能为空");
    assert_eq!(
        changelist_args("cl", &v(&["a", "b"]), false).unwrap(),
        v(&["changelist", "cl", "a", "b"])
    );
    assert_eq!(
        changelist_args("", &v(&["a"]), true).unwrap(),
        v(&["changelist", "--remove", "a"])
    );
    assert_eq!(changelist_args("cl", &v(&[]), false).unwrap_err().summary, "未选择要加入变更集的路径");
    assert_eq!(changelist_args(" ", &v(&["a"]), false).unwrap_err().summary, "变更集名称不能为空");
    assert_eq!(changelist_summary("cl", 2, false), "已加入变更集 cl（2 个路径）");
    assert_eq!(changelist_summary("cl", 3, true), "已从变更集移除 3 个路径");
    assert_eq!(
        commit_args("/tmp/m", &v(&["a"])),
        v(&["commit", "-F", "/tmp/m", "--encoding", "utf-8", "a"])
    );
    assert_eq!(
        commit_changelist_args("cl", "/tmp/m").unwrap(),
        v(&["commit", "--changelist", "cl", "--encoding", "utf-8", "-F", "/tmp/m"])
    );
    assert!(commit_changelist_args(" ", "/tmp/m").is_err());
    assert_eq!(
        propset_args("/wc", "svn:ignore", "/tmp/v").unwrap(),
        v(&["propset", "svn:ignore", "-F", "/tmp/v", "/wc"])
    );
    let e = propset_args("/wc", " ", "/tmp/v").unwrap_err();
    assert_eq!(e.recovery_hint, "请输入要设置的属性名（如 svn:ignore）。");
    assert_eq!(lock_args(&v(&["a"]), "why", "/tmp/c").unwrap(), v(&["lock", "-F", "/tmp/c", "a"]));
    assert_eq!(lock_args(&v(&["a"]), "  ", "/tmp/c").unwrap(), v(&["lock", "a"]));
    assert_eq!(lock_args(&v(&[]), "", "/tmp/c").unwrap_err().summary, "未选择要锁定的路径");
    assert_eq!(unlock_args(&v(&["a"]), true).unwrap(), v(&["unlock", "--force", "a"]));
    assert_eq!(unlock_args(&v(&[]), false).unwrap_err().summary, "未选择要解锁的路径");
    assert_eq!(move_args("a", "b").unwrap(), v(&["move", "a", "b"]));
    assert_eq!(move_args("a", " ").unwrap_err().summary, "源路径与目标路径不能为空");
    assert_eq!(
        set_log_args("u", 12, "/tmp/m"),
        v(&["propset", "--revprop", "-r", "12", "svn:log", "-F", "/tmp/m", "u"])
    );
    assert_eq!(patch_args("/wc", "diff", "/tmp/p").unwrap(), v(&["patch", "/tmp/p", "/wc"]));
    assert_eq!(patch_args("/wc", "\n", "/tmp/p").unwrap_err().summary, "补丁内容为空");
    assert_eq!(delete_args(&v(&["a"])).unwrap(), v(&["delete", "--force", "a"]));
    assert_eq!(delete_args(&v(&[])).unwrap_err().category, "io");
    assert_eq!(
        resolve_args(&v(&["a"]), "working").unwrap(),
        v(&["resolve", "--accept", "working", "a"])
    );
    assert_eq!(resolve_args(&v(&[]), "working").unwrap_err().summary, "未选择要解决的路径");
    assert_eq!(paths_args(&["add", "--parents"], &v(&["x"])), v(&["add", "--parents", "x"]));
    assert_eq!(count_summary("已添加 ", 2, " 个路径"), "已添加 2 个路径");
}

#[test]
fn commit_message_rules() {
    assert!(require_message("msg", "hint").is_ok());
    let e = require_message(" \n", "请填写提交说明后重试。").unwrap_err();
    assert_eq!(e.category, "usage");
    assert_eq!(e.summary, "提交说明不能为空");
    assert_eq!(e.recovery_hint, "请填写提交说明后重试。");
    assert_eq!(
        remote_msg_args("m", "/tmp/f").unwrap(),
        v(&["-F", "/tmp/f", "--encoding", "utf-8"])
    );
    assert_eq!(remote_msg_args("  ", "/tmp/f").unwrap_err().recovery_hint, "远程写操作必须填写提交说明。");
    assert!(is_blank(" \t"));
    assert!(!is_blank(" x "));
}

#[test]
fn output_summaries() {
    assert_eq!(last_line("a\nb \n"), "b");
    assert_eq!(last_line(""), "");
    assert_eq!(update_summary("Updating '.':\nAt revision 12.\n"), "更新完成，已更新到 revision At revision 12.");
    assert_eq!(last_nonblank_line("x\nExport complete.\n\n  \n", "d"), "Export complete.");
    assert_eq!(last_nonblank_line(" \n", "d"), "d");
    assert_eq!(task_summary(b"A  x\nChecked out revision 3.\n"), "Checked out revision 3.");
    assert_eq!(task_summary(b""), "完成");
    let r = export_result(b"A x\nExported revision 4.\n", b"");
    assert!(r.ok);
    assert_eq!(r.summary, "Exported revision 4.");
    assert_eq!(export_result(b"", b"warn").summary, "导出完成");
}

#[test]
fn task_outcomes() {
    let done = task_outcome(&Ok(b"line\nlast\n".to_vec()));
    assert_eq!(done.0, TaskState::Done);
    assert_eq!(done.1, "");
    assert_eq!(done.2.as_deref(), Some("last"));
    let cancelled = task_outcome(&Err(SvnError::new("cancelled", "s", "d", "")));
    assert_eq!(cancelled.0, TaskState::Cancelled);
    assert!(cancelled.2.is_none());
    let failed = task_outcome(&Err(SvnError::new("network", "检出失败", "E170013", "")));
    assert_eq!(failed.0, TaskState::Failed);
    assert_eq!(failed.1, "检出失败：E170013");
}

#[test]
fn diff_results() {
    let d = diff_result(b"Index: a\n(Binary files differ)\n");
    assert!(d.is_binary);
    assert!(!d.is_empty);
    assert!(!d.unversioned);
    let d = diff_result(b"Cannot display: file marked as a binary type.\n");
    assert!(d.is_binary);
    let d = diff_result(b"  \n");
    assert!(d.is_empty);
    assert!(!d.is_binary);
    let d = diff_result(b"a\x00b");
    assert!(d.is_binary);
    let u = unversioned_diff(b"one\ntwo\n");
    assert_eq!(u.text, "+ one\n+ two\n");
    assert!(u.unversioned);
    assert!(!u.is_empty);
    assert!(unversioned_diff(b"").is_empty);
}

#[test]
fn file_contents() {
    let f = file_content(b"hi");
    assert_eq!(f.data_base64, "aGk=");
    assert_eq!(f.size, 2);
    assert!(f.is_utf8);
    assert!(!f.is_binary);
    let f = file_content(b"\xff\x00a");
    assert_eq!(f.data_base64, "/wBh");
    assert!(!f.is_utf8);
    assert!(f.is_binary);
    assert_eq!(file_content(b"").data_base64, "");
    assert_eq!(file_content(b"a").data_base64, "YQ==");
    assert_eq!(file_content(b"\xfb\xef").data_base64, "++8=");
}

#[test]
fn file_pairs() {
    let p = file_pair(Some(b"old\n"), b"new\n");
    assert_eq!(p.old_text, "old\n");
    assert_eq!(p.new_text, "new\n");
    assert!(!p.is_binary);
    assert!(!p.is_unversioned);
    let p = file_pair(None, b"a\x00");
    assert_eq!(p.old_text, "");
    assert!(p.is_binary);
    assert!(p.is_unversioned);
    assert_eq!(file_pair(Some(b"\xff"), b"x").old_text, "\u{FFFD}");
}

fn entry(item: &str) -> StatusEntry {
    StatusEntry {
        path: "p".into(),
        item: item.into(),
        props: String::new(),
        wc_revision: None,
        commit_revision: None,
        commit_author: String::new(),
        wc_locked: false,
        lock_owner: String::new(),
        lock_comment: String::new(),
        repos_item: String::new(),
    }
}

#[test]
fn unversioned_detection() {
    assert!(has_unversioned(&vec![entry("modified"), entry("unversioned")]));
    assert!(!has_unversioned(&vec![entry("modified")]));
    assert!(!has_unversioned(&vec![]));
}

#[test]
fn conflict_merge_view_and_resolution() {
    let text = b"line1\n<<<<<<< .mine\nLOCAL\n||||||| .r3\nbase\n=======\nREMOTE\n>>>>>>> .r4\nend\n";
    let info = conflict_info(text).unwrap();
    assert!(info.has_markers);
    assert_eq!(info.line_ending, "\n");
    assert_eq!(info.blocks.len(), 1);
    assert_eq!(info.blocks[0].mine, vec!["LOCAL".to_string()]);
    assert_eq!(resolve_conflict(text, &v(&["theirs"])).unwrap(), b"line1\nREMOTE\nend\n".to_vec());
    assert_eq!(resolve_conflict(text, &v(&["both"])).unwrap(), b"line1\nLOCAL\nREMOTE\nend\n".to_vec());
    assert_eq!(resolve_conflict(text, &v(&["none"])).unwrap(), b"line1\nend\n".to_vec());
    let e = resolve_conflict(text, &v(&["mine", "mine"])).unwrap_err();
    assert_eq!(e.category, "io");
    assert_eq!(e.summary, "冲突块数量已变化");
    assert_eq!(e.detail, "原 2 块，现在 1 块");
    let e = resolve_conflict(text, &v(&["ours"])).unwrap_err();
    assert_eq!(e.category, "usage");
    assert_eq!(e.summary, "无效的块选择");
    assert_eq!(e.detail, "ours");
    let e = resolve_conflict(b"plain\n", &v(&[])).unwrap_err();
    assert_eq!(e.summary, "该文件没有文本冲突标记");
    let e = resolve_conflict(b"a\n<<<<<<< .mine\nM\n", &v(&["mine"])).unwrap_err();
    assert_eq!(e.category, "internal");
    assert_eq!(e.summary, "冲突标记解析失败");
    assert!(e.detail.contains("未闭合"));
    let e = conflict_info(b"<<<<<<< .mine\n").unwrap_err();
    assert_eq!(e.recovery_hint, "文件可能被外部工具修改，请重新打开三方合并。");
    let crlf = conflict_info(b"a\r\n<<<<<<< .mine\r\nM\r\n=======\r\nT\r\n>>>>>>> .r2\r\n").unwrap();
    assert_eq!(crlf.line_ending, "\r\n");
    assert_eq!(parse_choice("mine"), Some(Choice::Mine));
    assert_eq!(parse_choice("none"), Some(Choice::Neither));
    assert_eq!(parse_choice("Mine"), None);
}

#[test]
fn credentials_removal() {
    assert_eq!(auth_remove_args(&v(&["*"])).unwrap(), v(&["auth", "--remove", "*"]));
    let e = auth_remove_args(&v(&[])).unwrap_err();
    assert_eq!(e.summary, "未指定要清除的凭据");
    let ok = auth_remove_outcome(2, true, "out".into(), String::new()).unwrap();
    assert_eq!(ok.summary, "已清除 2 条模式匹配的凭据");
    assert_eq!(ok.stdout, "out");
    let none = auth_remove_outcome(1, false, String::new(), "svn: E200009: nothing".into()).unwrap();
    assert_eq!(none.summary, "凭据缓存已清除（或原本不存在匹配项）");
    let e = auth_remove_outcome(1, false, String::new(), "svn: E170001: Authorization failed\n".into()).unwrap_err();
    assert_eq!(e.summary, "清除认证缓存失败");
    assert_eq!(e.detail, "svn: E170001: Authorization failed");
    assert_eq!(e.category, "auth");
}

#[test]
fn opening_a_repository() {
    let info = br#"<info><entry kind="dir" path="r" revision="5"><url>svn://h/r/typed</url><repository><root>svn://h/r</root><uuid>x</uuid></repository></entry></info>"#;
    let list = br#"<lists><list path="u"><entry kind="file"><name>a</name></entry><entry kind="dir"><name>b</name></entry></list></lists>"#;
    let r = open_result("svn://h/r/", info, Some(list)).unwrap();
    assert_eq!(r.url, "svn://h/r/");
    assert_eq!(r.entry_count, 2);
    assert_eq!(r.revision, Some(5));
    let r = open_result("svn://h/r", info, Some(b"<lists><list></lists>")).unwrap();
    assert_eq!(r.entry_count, 0);
    let r = open_result("svn://h/r", info, None).unwrap();
    assert_eq!(r.entry_count, 0);
    let e = open_result("svn://h/r", b"<info><entry></info>", None).unwrap_err();
    assert_eq!(e.category, "internal");
    assert_eq!(e.summary, "解析 svn info 失败");
    assert_eq!(e.recovery_hint, "请报告此问题并附带诊断日志。");
    let e = parse_failure_error("svn list", "bad", "请报告此问题。");
    assert_eq!(e.summary, "解析 svn list 失败");
    assert_eq!(
        trusted_args(&v(&["info", "--xml", "u"])),
        v(&[
            "--non-interactive",
            "--trust-server-cert-failures",
            "unknown-ca,cn-mismatch,expired,not-yet-valid,other",
            "info",
            "--xml",
            "u"
        ])
    );
}

#[test]
fn property_listing() {
    let props = props_list(br#"<properties><target path="x"><property name="a">1</property></target></properties>"#).unwrap();
    assert_eq!(props.len(), 1);
    assert_eq!(props[0].value, "1");
    let e = props_list(b"<properties><target></properties>").unwrap_err();
    assert_eq!(e.category, "parse");
    assert_eq!(e.summary, "属性解析失败");
    assert!(e.detail.starts_with("属性 XML 解析失败："));
}

#[test]
fn import_checks() {
    assert!(is_junk(".DS_Store"));
    assert!(is_junk("Thumbs.db"));
    assert!(is_junk("b.pyc"));
    assert!(is_junk("X.ERR"));
    assert!(is_junk("notes.txt~"));
    assert!(is_junk("a.SWP"));
    assert!(!is_junk("a.txt"));
    assert!(!is_junk("pyc"));
    assert!(is_big_file(6 * 1024 * 1024));
    assert!(!is_big_file(5 * 1024 * 1024));
}

#[test]
fn repository_layout() {
    assert_eq!(layout_url("svn://h/r//", "trunk"), "svn://h/r/trunk");
    assert_eq!(layout_url("svn://h/r", "tags"), "svn://h/r/tags");
    assert_eq!(dir_names("b1/\nb2/\n\n/\nfile.txt\n"), v(&["b1", "b2", "file.txt"]));
    assert!(dir_names("").is_empty());
}

#[test]
fn diff_falls_back_to_earlier_peg() {
    assert_eq!(diff_retry_peg(&SvnError::new("not-found", "s", "d", "h"), 3), Some(3));
    assert_eq!(diff_retry_peg(&SvnError::new("network", "s", "d", "h"), 3), None);
}
