use svn_desktop_tool::ignore::{
    group_by_parent, ignore_groups, ignore_propset_args, ignore_summary, ignore_value, merge_ignore,
};

fn v(items: &[&str]) -> Vec<String> {
    items.iter().map(|s| s.to_string()).collect()
}

fn pairs(items: &[(&str, &str)]) -> Vec<(String, String)> {
    items.iter().map(|(a, b)| (a.to_string(), b.to_string())).collect()
}

#[test]
fn grouped_by_parent_in_order() {
    let g = group_by_parent(&pairs(&[("/wc/b", "x"), ("/wc/a", "y"), ("/wc/b", "z"), ("/wc/a", ""), ("", "top")]));
    assert_eq!(
        g,
        vec![
            ("".to_string(), v(&["top"])),
            ("/wc/a".to_string(), v(&["y"])),
            ("/wc/b".to_string(), v(&["x", "z"])),
        ]
    );
    assert!(group_by_parent(&pairs(&[])).is_empty());
}

#[test]
fn chosen_paths_grouped() {
    let g = ignore_groups(&v(&["/wc/dir/target", "/wc/dir/dist", "/wc/other/log.txt"])).unwrap();
    assert_eq!(
        g,
        vec![
            ("/wc/dir".to_string(), v(&["target", "dist"])),
            ("/wc/other".to_string(), v(&["log.txt"])),
        ]
    );
    let e = ignore_groups(&v(&[])).unwrap_err();
    assert_eq!(e.summary, "未选择要忽略的路径");
    assert_eq!(e.recovery_hint, "请先勾选未版本化的文件或目录。");
}

#[test]
fn merged_into_current_list() {
    let (m, added) = merge_ignore(&Some(" target \n\ndist\n".into()), &v(&["dist", "out", "out"]));
    assert_eq!(m, v(&["target", "dist", "out"]));
    assert_eq!(added, 1);
    let (m, added) = merge_ignore(&None, &v(&["a", "b"]));
    assert_eq!(m, v(&["a", "b"]));
    assert_eq!(added, 2);
    assert_eq!(ignore_value(&m), "a\nb");
    assert_eq!(ignore_value(&v(&[])), "");
    assert_eq!(
        ignore_propset_args("/tmp/v", "/wc/dir"),
        v(&["propset", "svn:ignore", "-F", "/tmp/v", "/wc/dir"])
    );
    assert_eq!(ignore_summary(3, 2), "已将 3 个路径加入 svn:ignore（2 个目录）");
}

#[test]
fn simple_paths_split_into_directory_and_name() {
    let g = ignore_groups(&v(&["build/out.log", "build/tmp", "docs/x.md"])).unwrap();
    assert_eq!(
        g,
        vec![
            ("build".to_string(), v(&["out.log", "tmp"])),
            ("docs".to_string(), v(&["x.md"])),
        ]
    );
    let g = ignore_groups(&v(&["lonely"])).unwrap();
    assert_eq!(g, vec![("".to_string(), v(&["lonely"]))]);
}

#[test]
fn absolute_and_bare_paths_grouped() {
    let g = ignore_groups(&v(&["/Users/u/wc/new.txt", "build"])).unwrap();
    assert_eq!(
        g,
        vec![
            ("".to_string(), v(&["build"])),
            ("/Users/u/wc".to_string(), v(&["new.txt"])),
        ]
    );
    let g = ignore_groups(&v(&["/top"])).unwrap();
    assert_eq!(g, vec![("/".to_string(), v(&["top"]))]);
}
