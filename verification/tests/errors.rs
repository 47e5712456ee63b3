use svn_desktop_tool::models::{extract_codes, SvnError};

#[test]
fn new_error_keeps_fields() {
    let e = SvnError::new("io", "s", "d", "h");
    assert_eq!((e.category.as_str(), e.summary.as_str(), e.detail.as_str(), e.recovery_hint.as_str()), ("io", "s", "d", "h"));
}

#[test]
fn classified_from_svn_output() {
    let e = SvnError::from_svn("  svn: E170013: Unable to connect\n", "连接仓库");
    assert_eq!(e.summary, "连接仓库失败");
    assert_eq!(e.detail, "svn: E170013: Unable to connect");
    assert_eq!(e.category, "network");
    let e = SvnError::from_svn("svn: warning: W160013: path not found", "读取目录");
    assert_eq!(e.category, "not-found");
    let e = SvnError::from_svn("svn: E155007: '/x' is not a working copy", "读取状态");
    assert_eq!(e.category, "not-working-copy");
    let e = SvnError::from_svn("something odd", "x");
    assert_eq!(e.summary, "x失败");
}

#[test]
fn codes_in_order_without_repeats() {
    assert_eq!(
        extract_codes("svn: E170013: x\nsvn: W160013: y E170013 E17001 E1234567"),
        vec!["E170013".to_string(), "W160013".to_string(), "E123456".to_string()]
    );
    assert!(extract_codes("no codes here").is_empty());
}
