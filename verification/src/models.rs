//! Data model of the client and its mathematical counterparts.
//!
//! Each record has a `*Model` twin over `Seq<char>`; `deep_view` maps a
//! record to it, so that contracts speak of contents, not of `String`s.

use vstd::prelude::*;

use crate::text::{
    chars_of, contains, contains_exec, eq_chars, is_digit, lit, push_chars, push_str, string_of,
    trim, trim_chars,
};

verus! {

/// Unified error shown to the user: a machine-readable category
/// (auth / network / certificate / wc-locked / conflict / wc-too-old /
/// not-working-copy / not-found / permission / wc-error / usage / io /
/// internal / unknown), a summary, the raw detail and a recovery hint.
#[derive(Debug, Clone)]
pub struct SvnError {
    pub category: String,
    pub summary: String,
    pub detail: String,
    pub recovery_hint: String,
}

pub struct SvnErrorModel {
    pub category: Seq<char>,
    pub summary: Seq<char>,
    pub detail: Seq<char>,
    pub recovery_hint: Seq<char>,
}

impl DeepView for SvnError {
    type V = SvnErrorModel;

    open spec fn deep_view(&self) -> SvnErrorModel {
        SvnErrorModel {
            category: self.category@,
            summary: self.summary@,
            detail: self.detail@,
            recovery_hint: self.recovery_hint@,
        }
    }
}

// ---------------------------------------------------------------------------
// error classification
// ---------------------------------------------------------------------------

/// An svn error code starts at `i`: `E` or `W` followed by six digits.
pub open spec fn is_code_at(s: Seq<char>, i: int) -> bool {
    &&& 0 <= i
    &&& i + 7 <= s.len()
    &&& (s[i] == 'E' || s[i] == 'W')
    &&& forall|k: int| 1 <= k < 7 ==> is_digit(#[trigger] s[i + k])
}

/// Codes found from position `i` on, appended to `acc` when new; a code
/// is skipped over as a whole.
pub open spec fn scan_codes(s: Seq<char>, i: int, acc: Seq<Seq<char>>) -> Seq<Seq<char>>
    decreases s.len() - i,
{
    if i < 0 || i + 7 > s.len() {
        acc
    } else if is_code_at(s, i) {
        let c = s.subrange(i, i + 7);
        scan_codes(s, i + 7, if acc.contains(c) { acc } else { acc.push(c) })
    } else {
        scan_codes(s, i + 1, acc)
    }
}

/// All error codes of an svn message (`E` or `W` and six digits), in order
/// of first appearance, without repetitions.  (The message is scanned by
/// characters; as the codes are ASCII this finds what a byte scan finds.)
pub open spec fn extract_codes_spec(s: Seq<char>) -> Seq<Seq<char>> {
    scan_codes(s, 0, seq![])
}

/// An svn error code: `E` or `W` and six digits.
pub open spec fn is_code(c: Seq<char>) -> bool {
    &&& c.len() == 7
    &&& (c[0] == 'E' || c[0] == 'W')
    &&& forall|k: int| 1 <= k < 7 ==> is_digit(#[trigger] c[k])
}

proof fn lemma_scan_codes(s: Seq<char>, i: int, acc: Seq<Seq<char>>)
    requires
        forall|a: int, b: int| 0 <= a < b < acc.len() ==> acc[a] != acc[b],
        forall|a: int| 0 <= a < acc.len() ==> is_code(#[trigger] acc[a]),
    ensures
        ({
            let r = scan_codes(s, i, acc);
            &&& forall|a: int, b: int| 0 <= a < b < r.len() ==> r[a] != r[b]
            &&& forall|a: int| 0 <= a < r.len() ==> is_code(#[trigger] r[a])
        }),
    decreases s.len() - i,
{
    if i < 0 || i + 7 > s.len() {
    } else if is_code_at(s, i) {
        let c = s.subrange(i, i + 7);
        assert(is_code(c)) by {
            assert forall|k: int| 1 <= k < 7 implies is_digit(#[trigger] c[k]) by {
                assert(c[k] == s[i + k]);
            }
        }
        let next = if acc.contains(c) {
            acc
        } else {
            acc.push(c)
        };
        assert forall|a: int, b: int| 0 <= a < b < next.len() implies next[a] != next[b] by {
            if !acc.contains(c) && b == acc.len() {
                assert(next[a] == acc[a]);
            }
        }
        assert forall|a: int| 0 <= a < next.len() implies is_code(#[trigger] next[a]) by {
            if a < acc.len() {
                assert(next[a] == acc[a]);
            }
        }
        lemma_scan_codes(s, i + 7, next);
        assert(scan_codes(s, i, acc) == scan_codes(s, i + 7, next));
    } else {
        lemma_scan_codes(s, i + 1, acc);
        assert(scan_codes(s, i, acc) == scan_codes(s, i + 1, acc));
    }
}

/// The codes found in a message are codes, each listed once.
pub proof fn law_codes_are_distinct(s: Seq<char>)
    ensures
        forall|a: int, b: int|
            0 <= a < b < extract_codes_spec(s).len() ==> extract_codes_spec(s)[a]
                != extract_codes_spec(s)[b],
        forall|a: int|
            0 <= a < extract_codes_spec(s).len() ==> is_code(#[trigger] extract_codes_spec(s)[a]),
{
    lemma_scan_codes(s, 0, seq![]);
}

fn seq_in(v: &Vec<Vec<char>>, c: &[char]) -> (res: bool)
    ensures
        res == v.deep_view().contains(c@),
{
    let mut i: usize = 0;
    while i < v.len()
        invariant
            i <= v@.len(),
            forall|j: int| 0 <= j < i ==> v.deep_view()[j] != c@,
        decreases v@.len() - i,
    {
        proof {
            assert(v.deep_view()[i as int] =~= v@[i as int]@);
        }
        if eq_chars(v[i].as_slice(), c) {
            return true;
        }
        i = i + 1;
    }
    false
}

fn is_code_at_exec(s: &[char], i: usize) -> (res: bool)
    requires
        i + 7 <= s@.len(),
    ensures
        res == is_code_at(s@, i as int),
{
    if !(s[i] == 'E' || s[i] == 'W') {
        return false;
    }
    let mut k: usize = 1;
    while k < 7
        invariant
            i + 7 <= s@.len(),
            i + 7 <= s.len(),
            1 <= k <= 7,
            forall|j: int| 1 <= j < k ==> is_digit(#[trigger] s@[i + j]),
        decreases 7 - k,
    {
        let c = s[i + k];
        if !('0' <= c && c <= '9') {
            return false;
        }
        k = k + 1;
    }
    true
}

fn extract_code_chars(s: &[char]) -> (res: Vec<Vec<char>>)
    ensures
        res.deep_view() == extract_codes_spec(s@),
{
    let mut codes: Vec<Vec<char>> = Vec::new();
    let mut i: usize = 0;
    assert(codes.deep_view() =~= Seq::<Seq<char>>::empty());
    while i < s.len() && s.len() - i >= 7
        invariant
            i <= s@.len(),
            scan_codes(s@, i as int, codes.deep_view()) == extract_codes_spec(s@),
        decreases s@.len() - i,
    {
        if is_code_at_exec(s, i) {
            let code = crate::text::slice_to_vec(s, i, i + 7);
            if !seq_in(&codes, code.as_slice()) {
                let ghost before = codes.deep_view();
                proof {
                    crate::text::lemma_chars_deep_view(code);
                }
                codes.push(code);
                assert(codes.deep_view() =~= before.push(code@));
            }
            i = i + 7;
        } else {
            i = i + 1;
        }
    }
    codes
}

/// The error codes of an svn message, in order, without repetitions.
pub fn extract_codes(s: &str) -> (res: Vec<String>)
    ensures
        res.deep_view() == extract_codes_spec(s@),
{
    let cs = chars_of(s);
    let codes = extract_code_chars(cs.as_slice());
    let mut res: Vec<String> = Vec::new();
    let mut i: usize = 0;
    while i < codes.len()
        invariant
            i <= codes@.len(),
            res.deep_view() == codes.deep_view().take(i as int),
        decreases codes@.len() - i,
    {
        let ghost before = res.deep_view();
        proof {
            crate::text::lemma_chars_deep_view(codes@[i as int]);
        }
        let st = string_of(codes[i].as_slice());
        res.push(st);
        assert(res.deep_view() =~= before.push(st@));
        i = i + 1;
        assert(res.deep_view() =~= codes.deep_view().take(i as int));
    }
    assert(codes.deep_view().take(codes@.len() as int) =~= codes.deep_view());
    res
}

/// A code was reported, as error or as the warning with the same number.
pub open spec fn has_code(codes: Seq<Seq<char>>, c: Seq<char>) -> bool {
    codes.contains(c) || (c.len() > 0 && c[0] == 'E' && codes.contains(
        seq!['W'] + c.drop_first(),
    ))
}

fn has_code_exec(codes: &Vec<Vec<char>>, c: &str) -> (res: bool)
    ensures
        res == has_code(codes.deep_view(), c@),
{
    let cc = chars_of(c);
    if seq_in(codes, cc.as_slice()) {
        return true;
    }
    if cc.len() > 0 && cc[0] == 'E' {
        let mut w: Vec<char> = Vec::new();
        w.push('W');
        let mut k: usize = 1;
        while k < cc.len()
            invariant
                1 <= k <= cc@.len(),
                w@ == seq!['W'] + cc@.subrange(1, k as int),
            decreases cc@.len() - k,
        {
            w.push(cc[k]);
            k = k + 1;
            assert(w@ =~= seq!['W'] + cc@.subrange(1, k as int));
        }
        assert(cc@.subrange(1, cc@.len() as int) =~= cc@.drop_first());
        return seq_in(codes, w.as_slice());
    }
    false
}

/// Category and recovery hint for an svn message `e` with codes `codes`.
/// Codes are stable across message languages; besides them only stable
/// phrases of the output are matched.
pub open spec fn classify(e: Seq<char>, codes: Seq<Seq<char>>) -> (Seq<char>, Seq<char>) {
    if has_code(codes, "E170001"@) {
        ("auth"@, "认证失败。请检查用户名/密码、访问权限，或先在终端用 svn 命令验证凭据。"@)
    } else if has_code(codes, "E170106"@) || contains(e, "SSL certificate"@) || contains(
        e,
        "Server certificate"@,
    ) || contains(e, "certificate has expired"@) || contains(e, "certificate is not yet valid"@)
        || contains(e, "hostname mismatch"@) {
        ("certificate"@, "服务器证书不受信任。请按应用设置中的“证书信任”指引处理（见计划 8.1），
                或先用命令行 svn 访问一次以接受证书。"@)
    } else if has_code(codes, "E170013"@) || has_code(codes, "E170012"@) || has_code(
        codes,
        "E000111"@,
    ) || has_code(codes, "E000061"@) || has_code(codes, "E000002"@) {
        ("network"@, "无法连接服务器。请检查网络连接、仓库地址和代理配置。"@)
    } else if has_code(codes, "E155004"@) {
        ("wc-locked"@, "工作副本被其他 SVN 进程锁定。请先执行 cleanup 清理管理锁。"@)
    } else if has_code(codes, "E155037"@) {
        ("conflict"@, "操作与当前状态冲突。请先处理冲突或未完成的操作（update/merge/switch）。"@)
    } else if has_code(codes, "E155036"@) {
        ("wc-too-old"@, "工作副本格式过旧。请先执行 upgrade 升级工作副本。"@)
    } else if has_code(codes, "E155007"@) {
        ("not-working-copy"@, "该目录不是 SVN 工作副本（或不在工作副本内）。"@)
    } else if has_code(codes, "E160013"@) || has_code(codes, "E160020"@) || has_code(
        codes,
        "E155010"@,
    ) {
        ("not-found"@, "路径在指定 revision 不存在。请检查路径拼写或 revision 是否正确。"@)
    } else if has_code(codes, "E175002"@) || contains(e, "Forbidden"@) || contains(
        e,
        "Access denied"@,
    ) {
        ("permission"@, "没有访问权限。请联系仓库管理员确认账号权限。"@)
    } else if has_code(codes, "E155000"@) || has_code(codes, "E200009"@) || has_code(
        codes,
        "E200012"@,
    ) {
        ("wc-error"@, "工作副本状态异常。可尝试 cleanup，必要时重做 checkout。"@)
    } else if has_code(codes, "E205000"@) || has_code(codes, "E205001"@) || has_code(
        codes,
        "E200004"@,
    ) {
        ("usage"@, "参数或 URL 格式有误。请检查输入内容。"@)
    } else {
        ("unknown"@, ""@)
    }
}

fn classify_exec(e: &[char], codes: &Vec<Vec<char>>) -> (res: (String, String))
    ensures
        (res.0@, res.1@) == classify(e@, codes.deep_view()),
{
    if has_code_exec(codes, "E170001") {
        (lit("auth"), lit("认证失败。请检查用户名/密码、访问权限，或先在终端用 svn 命令验证凭据。"))
    } else if has_code_exec(codes, "E170106") || contains_exec(e, "SSL certificate")
        || contains_exec(e, "Server certificate") || contains_exec(e, "certificate has expired")
        || contains_exec(e, "certificate is not yet valid") || contains_exec(
        e,
        "hostname mismatch",
    ) {
        (lit("certificate"), lit("服务器证书不受信任。请按应用设置中的“证书信任”指引处理（见计划 8.1），
                或先用命令行 svn 访问一次以接受证书。"))
    } else if has_code_exec(codes, "E170013") || has_code_exec(codes, "E170012")
        || has_code_exec(codes, "E000111") || has_code_exec(codes, "E000061") || has_code_exec(
        codes,
        "E000002",
    ) {
        (lit("network"), lit("无法连接服务器。请检查网络连接、仓库地址和代理配置。"))
    } else if has_code_exec(codes, "E155004") {
        (lit("wc-locked"), lit("工作副本被其他 SVN 进程锁定。请先执行 cleanup 清理管理锁。"))
    } else if has_code_exec(codes, "E155037") {
        (
            lit("conflict"),
            lit("操作与当前状态冲突。请先处理冲突或未完成的操作（update/merge/switch）。"),
        )
    } else if has_code_exec(codes, "E155036") {
        (lit("wc-too-old"), lit("工作副本格式过旧。请先执行 upgrade 升级工作副本。"))
    } else if has_code_exec(codes, "E155007") {
        (lit("not-working-copy"), lit("该目录不是 SVN 工作副本（或不在工作副本内）。"))
    } else if has_code_exec(codes, "E160013") || has_code_exec(codes, "E160020")
        || has_code_exec(codes, "E155010") {
        (
            lit("not-found"),
            lit("路径在指定 revision 不存在。请检查路径拼写或 revision 是否正确。"),
        )
    } else if has_code_exec(codes, "E175002") || contains_exec(e, "Forbidden") || contains_exec(
        e,
        "Access denied",
    ) {
        (lit("permission"), lit("没有访问权限。请联系仓库管理员确认账号权限。"))
    } else if has_code_exec(codes, "E155000") || has_code_exec(codes, "E200009")
        || has_code_exec(codes, "E200012") {
        (lit("wc-error"), lit("工作副本状态异常。可尝试 cleanup，必要时重做 checkout。"))
    } else if has_code_exec(codes, "E205000") || has_code_exec(codes, "E205001")
        || has_code_exec(codes, "E200004") {
        (lit("usage"), lit("参数或 URL 格式有误。请检查输入内容。"))
    } else {
        (lit("unknown"), lit(""))
    }
}

/// The error `SvnError::from_svn` makes of a failed command's stderr.
pub open spec fn from_svn_spec(stderr: Seq<char>, command_desc: Seq<char>) -> SvnErrorModel {
    let e = trim(stderr);
    let (category, hint) = classify(e, extract_codes_spec(e));
    SvnErrorModel {
        category,
        summary: command_desc + "失败"@,
        detail: e,
        recovery_hint: hint,
    }
}

impl SvnError {
    /// An error with the given fields.
    pub fn new(category: &str, summary: &str, detail: &str, recovery_hint: &str) -> (res: Self)
        ensures
            res.category@ == category@,
            res.summary@ == summary@,
            res.detail@ == detail@,
            res.recovery_hint@ == recovery_hint@,
    {
        SvnError {
            category: lit(category),
            summary: lit(summary),
            detail: lit(detail),
            recovery_hint: lit(recovery_hint),
        }
    }

    /// Classifies the stderr of a failed `svn` command: the detail is the
    /// trimmed message, the summary "<command>失败", and the category and
    /// hint follow from the error codes (warnings count as the error with
    /// the same number) and a few stable phrases of the output.
    pub fn from_svn(stderr: &str, command_desc: &str) -> (res: Self)
        ensures
            res.detail@ == trim(stderr@),
            res.summary@ == command_desc@ + "失败"@,
            (res.category@, res.recovery_hint@) == classify(
                trim(stderr@),
                extract_codes_spec(trim(stderr@)),
            ),
            res.deep_view() == from_svn_spec(stderr@, command_desc@),
    {
        let cs = chars_of(stderr);
        let e = trim_chars(cs.as_slice());
        let codes = extract_code_chars(e.as_slice());
        let (category, hint) = classify_exec(e.as_slice(), &codes);
        let mut summary = String::new();
        push_str(&mut summary, command_desc);
        push_str(&mut summary, "失败");
        SvnError { category, summary, detail: string_of(e.as_slice()), recovery_hint: hint }
    }
}

/// Result of `svn info --xml` on a URL or a working copy.
#[derive(Debug, Clone)]
pub struct RepoInfo {
    pub root_url: String,
    pub url: String,
    pub relative_url: String,
    pub uuid: String,
    pub revision: Option<i64>,
    pub last_author: String,
    pub last_date: String,
    pub is_wc: bool,
    pub wc_root: String,
    pub entry_count: usize,
}

pub struct RepoInfoModel {
    pub root_url: Seq<char>,
    pub url: Seq<char>,
    pub relative_url: Seq<char>,
    pub uuid: Seq<char>,
    pub revision: Option<i64>,
    pub last_author: Seq<char>,
    pub last_date: Seq<char>,
    pub is_wc: bool,
    pub wc_root: Seq<char>,
    pub entry_count: usize,
}

impl DeepView for RepoInfo {
    type V = RepoInfoModel;

    open spec fn deep_view(&self) -> RepoInfoModel {
        RepoInfoModel {
            root_url: self.root_url@,
            url: self.url@,
            relative_url: self.relative_url@,
            uuid: self.uuid@,
            revision: self.revision,
            last_author: self.last_author@,
            last_date: self.last_date@,
            is_wc: self.is_wc,
            wc_root: self.wc_root@,
            entry_count: self.entry_count,
        }
    }
}

/// A directory entry of `svn list --xml`.
#[derive(Debug, Clone)]
pub struct ListEntry {
    pub name: String,
    pub kind: String,
    pub size: Option<i64>,
    pub revision: Option<i64>,
    pub author: String,
    pub date: String,
}

pub struct ListEntryModel {
    pub name: Seq<char>,
    pub kind: Seq<char>,
    pub size: Option<i64>,
    pub revision: Option<i64>,
    pub author: Seq<char>,
    pub date: Seq<char>,
}

impl DeepView for ListEntry {
    type V = ListEntryModel;

    open spec fn deep_view(&self) -> ListEntryModel {
        ListEntryModel {
            name: self.name@,
            kind: self.kind@,
            size: self.size,
            revision: self.revision,
            author: self.author@,
            date: self.date@,
        }
    }
}

/// A changed path of `svn log -v`.
#[derive(Debug, Clone)]
pub struct ChangePath {
    pub path: String,
    pub kind: String,
    pub action: String,
    pub copyfrom_path: String,
    pub copyfrom_rev: Option<i64>,
}

pub struct ChangePathModel {
    pub path: Seq<char>,
    pub kind: Seq<char>,
    pub action: Seq<char>,
    pub copyfrom_path: Seq<char>,
    pub copyfrom_rev: Option<i64>,
}

impl DeepView for ChangePath {
    type V = ChangePathModel;

    open spec fn deep_view(&self) -> ChangePathModel {
        ChangePathModel {
            path: self.path@,
            kind: self.kind@,
            action: self.action@,
            copyfrom_path: self.copyfrom_path@,
            copyfrom_rev: self.copyfrom_rev,
        }
    }
}

/// A log entry of `svn log --xml -v`.
#[derive(Debug, Clone)]
pub struct LogEntry {
    pub revision: i64,
    pub author: String,
    pub date: String,
    pub msg: String,
    pub changed_paths: Vec<ChangePath>,
}

pub struct LogEntryModel {
    pub revision: i64,
    pub author: Seq<char>,
    pub date: Seq<char>,
    pub msg: Seq<char>,
    pub changed_paths: Seq<ChangePathModel>,
}

impl DeepView for LogEntry {
    type V = LogEntryModel;

    open spec fn deep_view(&self) -> LogEntryModel {
        LogEntryModel {
            revision: self.revision,
            author: self.author@,
            date: self.date@,
            msg: self.msg@,
            changed_paths: self.changed_paths.deep_view(),
        }
    }
}

/// File content (`svn cat`): raw bytes in base64 for transport.
#[derive(Debug, Clone)]
pub struct FileContent {
    pub data_base64: String,
    pub size: usize,
    pub is_utf8: bool,
    pub is_binary: bool,
}

/// A working-copy status entry of `svn status --xml`.
#[derive(Debug, Clone)]
pub struct StatusEntry {
    pub path: String,
    pub item: String,
    pub props: String,
    pub wc_revision: Option<i64>,
    pub commit_revision: Option<i64>,
    pub commit_author: String,
    pub wc_locked: bool,
    pub lock_owner: String,
    pub lock_comment: String,
    pub repos_item: String,
}

pub struct StatusEntryModel {
    pub path: Seq<char>,
    pub item: Seq<char>,
    pub props: Seq<char>,
    pub wc_revision: Option<i64>,
    pub commit_revision: Option<i64>,
    pub commit_author: Seq<char>,
    pub wc_locked: bool,
    pub lock_owner: Seq<char>,
    pub lock_comment: Seq<char>,
    pub repos_item: Seq<char>,
}

impl DeepView for StatusEntry {
    type V = StatusEntryModel;

    open spec fn deep_view(&self) -> StatusEntryModel {
        StatusEntryModel {
            path: self.path@,
            item: self.item@,
            props: self.props@,
            wc_revision: self.wc_revision,
            commit_revision: self.commit_revision,
            commit_author: self.commit_author@,
            wc_locked: self.wc_locked,
            lock_owner: self.lock_owner@,
            lock_comment: self.lock_comment@,
            repos_item: self.repos_item@,
        }
    }
}

/// One line of `svn blame`.
#[derive(Clone, Debug)]
pub struct BlameLine {
    pub line_no: usize,
    pub revision: i64,
    pub author: String,
    pub text: String,
}

pub struct BlameLineModel {
    pub line_no: usize,
    pub revision: i64,
    pub author: Seq<char>,
    pub text: Seq<char>,
}

impl DeepView for BlameLine {
    type V = BlameLineModel;

    open spec fn deep_view(&self) -> BlameLineModel {
        BlameLineModel {
            line_no: self.line_no,
            revision: self.revision,
            author: self.author@,
            text: self.text@,
        }
    }
}

/// `svn status -u`: entries and the latest revision of the server.
#[derive(Clone, Debug)]
pub struct StatusU {
    pub entries: Vec<StatusEntry>,
    pub against: Option<i64>,
}

/// A property of `svn proplist -v --xml`.
#[derive(Debug, Clone)]
pub struct PropEntry {
    pub name: String,
    pub value: String,
}

pub struct PropEntryModel {
    pub name: Seq<char>,
    pub value: Seq<char>,
}

impl DeepView for PropEntry {
    type V = PropEntryModel;

    open spec fn deep_view(&self) -> PropEntryModel {
        PropEntryModel { name: self.name@, value: self.value@ }
    }
}

/// Result of opening a working copy.
#[derive(Debug, Clone)]
pub struct WcInfo {
    pub root_url: String,
    pub url: String,
    pub uuid: String,
    pub revision: Option<i64>,
    pub wc_root: String,
    pub schedule: String,
    pub depth: String,
    pub status: Vec<StatusEntry>,
}

/// A textual diff.
#[derive(Debug, Clone)]
pub struct DiffResult {
    pub text: String,
    pub is_binary: bool,
    pub is_empty: bool,
    pub unversioned: bool,
}

/// Both sides of a working-copy file, for a side-by-side diff.
#[derive(Debug, Clone)]
pub struct FilePair {
    pub old_text: String,
    pub new_text: String,
    pub is_binary: bool,
    pub is_unversioned: bool,
}

/// A change chunk: byte ranges of the lines on both sides.
#[derive(Debug, Clone, Copy, PartialEq, Eq, Structural)]
pub struct DiffChunk {
    pub from_a: usize,
    pub to_a: usize,
    pub from_b: usize,
    pub to_b: usize,
}

/// One conflict block for display (lines as text).
#[derive(Debug, Clone, PartialEq)]
pub struct ConflictBlock {
    pub mine: Vec<String>,
    pub base: Vec<String>,
    pub theirs: Vec<String>,
}

pub struct ConflictBlockModel {
    pub mine: Seq<Seq<char>>,
    pub base: Seq<Seq<char>>,
    pub theirs: Seq<Seq<char>>,
}

impl DeepView for ConflictBlock {
    type V = ConflictBlockModel;

    open spec fn deep_view(&self) -> ConflictBlockModel {
        ConflictBlockModel {
            mine: self.mine.deep_view(),
            base: self.base.deep_view(),
            theirs: self.theirs.deep_view(),
        }
    }
}

/// Result of parsing a conflicted file for display.
#[derive(Debug, Clone)]
pub struct ConflictInfo {
    pub blocks: Vec<ConflictBlock>,
    pub has_markers: bool,
    pub line_ending: String,
}

/// One credential of the authentication cache (`svn auth`).
#[derive(Debug, Clone)]
pub struct AuthCred {
    pub kind: String,
    pub realm: String,
    pub username: String,
    pub subject: String,
    pub fingerprint: String,
    pub password_cache: String,
    pub raw: String,
}

pub struct AuthCredModel {
    pub kind: Seq<char>,
    pub realm: Seq<char>,
    pub username: Seq<char>,
    pub subject: Seq<char>,
    pub fingerprint: Seq<char>,
    pub password_cache: Seq<char>,
    pub raw: Seq<char>,
}

impl DeepView for AuthCred {
    type V = AuthCredModel;

    open spec fn deep_view(&self) -> AuthCredModel {
        AuthCredModel {
            kind: self.kind@,
            realm: self.realm@,
            username: self.username@,
            subject: self.subject@,
            fingerprint: self.fingerprint@,
            password_cache: self.password_cache@,
            raw: self.raw@,
        }
    }
}

/// Pre-import check of a directory.
#[derive(Debug, Clone)]
pub struct DirStats {
    pub file_count: usize,
    pub total_size: u64,
    pub big_files: Vec<String>,
    pub junk_files: Vec<String>,
}

/// Standard repository layout (trunk / branches / tags).
#[derive(Debug, Clone)]
pub struct RepoLayout {
    pub trunk: Option<String>,
    pub branches_dir: Option<String>,
    pub tags_dir: Option<String>,
    pub branches: Vec<String>,
    pub tags: Vec<String>,
}

/// Merge information: merged and eligible revisions.
#[derive(Debug, Clone)]
pub struct MergeInfo {
    pub merged: Vec<i64>,
    pub eligible: Vec<i64>,
}

/// Result of a write operation.
#[derive(Debug, Clone)]
pub struct TaskResult {
    pub ok: bool,
    pub summary: String,
    pub stdout: String,
    pub stderr: String,
}

pub struct TaskResultModel {
    pub ok: bool,
    pub summary: Seq<char>,
    pub stdout: Seq<char>,
    pub stderr: Seq<char>,
}

impl DeepView for TaskResult {
    type V = TaskResultModel;

    open spec fn deep_view(&self) -> TaskResultModel {
        TaskResultModel {
            ok: self.ok,
            summary: self.summary@,
            stdout: self.stdout@,
            stderr: self.stderr@,
        }
    }
}

/// Path and version of the `svn` program in use.
#[derive(Debug, Clone)]
pub struct SvnVersion {
    pub bin: String,
    pub version: String,
}

} // verus!
