use svn_desktop_tool::parser::{
    assemble_wc, is_binary, parse_auth_creds, parse_blame, parse_info, parse_list, parse_log,
    parse_proplist, parse_status, unescape_u_escapes,
};

const INFO_XML: &str = r#"<?xml version="1.0" encoding="UTF-8"?>
<info>
<entry kind="dir" path="." revision="9">
<url>https://example.com/svn/trunk</url>
<relative-url>^/trunk</relative-url>
<repository><root>https://example.com/svn</root><uuid>aaaa-bbbb</uuid></repository>
<wc-info><wcroot-abspath>/Users/u/wc</wcroot-abspath><schedule>normal</schedule><depth>infinity</depth></wc-info>
<commit revision="9"><author>zhou</author><date>2026-01-02T03:04:05.000000Z</date></commit>
</entry>
</info>"#;

const LIST_XML: &str = r#"<?xml version="1.0" encoding="UTF-8"?>
<lists>
<list path="/trunk">
<entry kind="dir"><name>src</name><commit revision="8"><author>zhou</author><date>2026-01-01T00:00:00.000000Z</date></commit></entry>
<entry kind="file"><name>a.txt</name><size>123</size><commit revision="9"><author>li</author><date>2026-01-02T00:00:00.000000Z</date></commit></entry>
</list>
</lists>"#;

const LOG_XML: &str = r#"<?xml version="1.0" encoding="UTF-8"?>
<log>
<logentry revision="9">
<author>zhou</author><date>2026-01-02T00:00:00.000000Z</date>
<msg>修复问题</msg>
<paths>
<path kind="file" action="M">/trunk/a.txt</path>
<path kind="dir" action="A" copyfrom-path="/branches/v1" copyfrom-rev="7">/trunk</path>
</paths>
</logentry>
<logentry revision="8"><author>li</author><date>2026-01-01T00:00:00.000000Z</date><msg/></logentry>
</log>"#;

const STATUS_XML: &str = r#"<?xml version="1.0" encoding="UTF-8"?>
<status>
<target path="/Users/u/wc">
<entry path="/Users/u/wc/a.txt">
<wc-status item="modified" props="none" revision="9">
<commit revision="8"><author>li</author></commit>
</wc-status>
</entry>
<entry path="/Users/u/wc/new.txt">
<wc-status item="unversioned" props="none" revision="0"/>
</entry>
</target>
</status>"#;

#[test]
fn parse_info_works() {
    let info = parse_info(INFO_XML.as_bytes()).unwrap();
    assert_eq!(info.root_url, "https://example.com/svn");
    assert_eq!(info.url, "https://example.com/svn/trunk");
    assert_eq!(info.relative_url, "^/trunk");
    assert_eq!(info.uuid, "aaaa-bbbb");
    assert_eq!(info.revision, Some(9));
    // The input's <author> is "zhou"; the author of the last commit is
    // what the parser reports.
    assert_eq!(info.last_author, "zhou");
    assert!(info.is_wc);
    assert_eq!(info.wc_root, "/Users/u/wc");
}

#[test]
fn parse_list_works() {
    let entries = parse_list(LIST_XML.as_bytes()).unwrap();
    assert_eq!(entries.len(), 2);
    assert_eq!(entries[0].name, "src");
    assert_eq!(entries[0].kind, "dir");
    assert_eq!(entries[0].revision, Some(8));
    assert_eq!(entries[1].name, "a.txt");
    assert_eq!(entries[1].size, Some(123));
    assert_eq!(entries[1].author, "li");
}

#[test]
fn parse_log_works() {
    let logs = parse_log(LOG_XML.as_bytes()).unwrap();
    assert_eq!(logs.len(), 2);
    assert_eq!(logs[0].revision, 9);
    assert_eq!(logs[0].msg, "修复问题");
    assert_eq!(logs[0].changed_paths.len(), 2);
    assert_eq!(logs[0].changed_paths[0].action, "M");
    assert_eq!(logs[0].changed_paths[1].copyfrom_path, "/branches/v1");
    assert_eq!(logs[0].changed_paths[1].copyfrom_rev, Some(7));
    assert_eq!(logs[1].msg, "");
}

#[test]
fn parse_status_works() {
    let (status, against) = parse_status(STATUS_XML.as_bytes()).unwrap();
    assert_eq!(against, None);
    assert_eq!(status.len(), 2);
    assert_eq!(status[0].path, "/Users/u/wc/a.txt");
    assert_eq!(status[0].item, "modified");
    assert_eq!(status[0].wc_revision, Some(9));
    assert_eq!(status[0].commit_revision, Some(8));
    assert_eq!(status[0].commit_author, "li");
    assert_eq!(status[1].item, "unversioned");
}

#[test]
fn binary_detect() {
    assert!(!is_binary(b"hello world"));
    assert!(is_binary(b"a\x00b"));
}

const AUTH_XML: &str = "------------------------------------------------------------------------\nCredential kind: svn.simple\nAuthentication realm: <https://svn.example.com:443> My Repo\nPassword cache: keychain\nUsername: zhangsan\n\n------------------------------------------------------------------------\nCredential kind: svn.ssl.server\nAuthentication realm: https://svn.example.com:443\nSubject: CN=MY-SERVER\nFingerprint: abc123def456\n\nCredentials cache in '/Users/x/.subversion' contains 2 credentials\n";

#[test]
fn parse_auth_creds_works() {
    let creds = parse_auth_creds(AUTH_XML);
    assert_eq!(creds.len(), 2);
    assert_eq!(creds[0].kind, "svn.simple");
    assert_eq!(creds[0].realm, "<https://svn.example.com:443> My Repo");
    assert_eq!(creds[0].username, "zhangsan");
    assert_eq!(creds[0].password_cache, "keychain");
    assert!(creds[0].raw.contains("Credential kind"));
    assert_eq!(creds[1].kind, "svn.ssl.server");
    assert_eq!(creds[1].subject, "CN=MY-SERVER");
    assert_eq!(creds[1].fingerprint, "abc123def456");
    assert!(creds[1].username.is_empty());
}

#[test]
fn parse_auth_creds_raw_is_own_block() {
    let creds = parse_auth_creds("Credential kind: A\nUsername: u\nCredential kind: B\n");
    assert_eq!(creds.len(), 2);
    assert_eq!(creds[0].kind, "A");
    assert_eq!(creds[0].username, "u");
    assert_eq!(creds[0].raw, "Credential kind: A\nUsername: u");
    assert_eq!(creds[1].kind, "B");
    assert_eq!(creds[1].raw, "Credential kind: B");
}

#[test]
fn parse_auth_creds_empty() {
    assert!(parse_auth_creds("Credentials cache in '/x' contains 0 credentials\n").is_empty());
    assert!(parse_auth_creds("").is_empty());
}

#[test]
fn unescape_u_escapes_works() {
    assert_eq!(unescape_u_escapes("{U+8BA4}{U+8BC1}{U+9886}{U+57DF}"), "认证领域");
    assert_eq!(unescape_u_escapes("plain ascii"), "plain ascii");
    assert_eq!(unescape_u_escapes("{not-escape}"), "{not-escape}");
    assert_eq!(unescape_u_escapes("{U+41}"), "A");
}

// ---------------------------------------------------------------------------
// further cases
// ---------------------------------------------------------------------------

#[test]
fn unescape_edge_cases() {
    // a surrogate is no character: the text stays as it is
    assert_eq!(unescape_u_escapes("{U+D800}"), "{U+D800}");
    // at most six hex digits are read
    assert_eq!(unescape_u_escapes("{U+0000041}"), "{U+0000041}");
    assert_eq!(unescape_u_escapes("{U+}"), "{U+}");
    assert_eq!(unescape_u_escapes("x{U+42}y"), "xBy");
    // text outside escapes stays as it is, non-ASCII included
    assert_eq!(unescape_u_escapes("认证"), "认证");
    assert_eq!(unescape_u_escapes("认{U+8BC1}领域"), "认证领域");
    assert_eq!(unescape_u_escapes("é{U+}"), "é{U+}");
}

#[test]
fn info_of_remote_url() {
    let xml = r#"<?xml version="1.0"?>
<info><entry kind="dir" path="trunk" revision="12">
<url>svn://h/r/trunk</url><repository><root>svn://h/r</root><uuid>u-1</uuid></repository>
<commit revision="10"><author>amy</author><date>d</date></commit></entry></info>"#;
    let info = parse_info(xml.as_bytes()).unwrap();
    assert!(!info.is_wc);
    assert_eq!(info.revision, Some(10));
    assert_eq!(info.last_author, "amy");
    assert_eq!(info.root_url, "svn://h/r");
    assert_eq!(info.wc_root, "");
    assert_eq!(info.entry_count, 0);
}

#[test]
fn malformed_xml_is_an_error() {
    let err = parse_info(b"<info><entry></info>").unwrap_err();
    assert!(err.starts_with("info XML 解析失败："), "{err}");
    assert!(err.contains("原始输出："));
    assert!(parse_list(b"<lists><list></lists>").is_err());
    assert!(parse_log(b"<log><logentry></log>").is_err());
    assert!(parse_status(b"<status><target></status>").is_err());
}

#[test]
fn status_against_revision() {
    let xml = r#"<status><target path="."><entry path="a"><wc-status item="normal" props="none" revision="3"/><repos-status item="modified" props="none"></repos-status></entry><against revision="7"/></target></status>"#;
    let (status, against) = parse_status(xml.as_bytes()).unwrap();
    assert_eq!(against, Some(7));
    assert_eq!(status.len(), 1);
    assert_eq!(status[0].repos_item, "modified");
    // a self-closing repos-status is not read
    let xml = r#"<status><target path="."><entry path="a"><repos-status item="added" props="none"/></entry></target></status>"#;
    let (status, against) = parse_status(xml.as_bytes()).unwrap();
    assert_eq!(against, None);
    assert_eq!(status[0].repos_item, "");
}

#[test]
fn proplist_values() {
    let xml = r#"<?xml version="1.0"?><properties><target path="wc"><property name="svn:ignore">target
dist

</property><property name="owner">me</property></target></properties>"#;
    let props = parse_proplist(xml.as_bytes()).unwrap();
    assert_eq!(props.len(), 2);
    assert_eq!(props[0].name, "svn:ignore");
    assert_eq!(props[0].value, "target\ndist");
    assert_eq!(props[1].name, "owner");
    assert_eq!(props[1].value, "me");
}

#[test]
fn blame_lines() {
    let text = b"     3      zhou line  one\nsvn: note\n\n   r12 li x\n";
    let lines = parse_blame(text).unwrap();
    assert_eq!(lines.len(), 2);
    assert_eq!(lines[0].line_no, 1);
    assert_eq!(lines[0].revision, 3);
    assert_eq!(lines[0].author, "zhou");
    assert_eq!(lines[0].text, "line one");
    assert_eq!(lines[1].line_no, 4);
    assert_eq!(lines[1].revision, 12);
    assert_eq!(lines[1].author, "li");
    assert_eq!(lines[1].text, "x");
}

#[test]
fn blame_bad_revision() {
    let err = parse_blame(b"  -   zhou added\n").unwrap_err();
    assert_eq!(err, "无法解析 blame revision：-   zhou added");
}

#[test]
fn working_copy_info() {
    let info = parse_info(INFO_XML.as_bytes()).unwrap();
    let (status, _) = parse_status(STATUS_XML.as_bytes()).unwrap();
    let wc = assemble_wc(info, status);
    assert_eq!(wc.wc_root, "/Users/u/wc");
    assert_eq!(wc.revision, Some(9));
    assert_eq!(wc.status.len(), 2);
    assert_eq!(wc.schedule, "");
}
