//! What the svn commands decide and compute: argument lists, validation
//! of user input, summaries, and the shaping of results.  Running `svn`,
//! files and threads belong to the application around this library.

use base64::Engine;
use vstd::prelude::*;

use crate::conflict::{
    assemble_conflict, assemble_spec, parse_conflict, parse_conflict_bytes, ui_blocks_spec, Choice,
    LineEnding,
};
use crate::models::{
    ConflictBlockModel, ConflictInfo, DiffResult, FileContent, SvnError, SvnErrorModel, TaskResult,
};
use crate::task::TaskState;
use crate::text::{
    chars_of, decimal, decimal_int, find_char, i64_string, is_digit, lines, lines_of, lit,
    push_chars, push_i64, push_str, push_u64, starts_with, string_of, trim, trim_chars,
    trim_start, trim_start_chars, trim_string, u64_string, views,
};

verus! {

// ---------------------------------------------------------------------------
// building argument lists
// ---------------------------------------------------------------------------

/// The character sequences of a list of strings.
pub open spec fn strs(v: Seq<String>) -> Seq<Seq<char>> {
    Seq::new(v.len(), |i: int| v[i]@)
}

fn push_arg(args: &mut Vec<String>, s: String)
    ensures
        strs(final(args)@) == strs(old(args)@).push(s@),
{
    args.push(s);
    assert(strs(args@) =~= strs(old(args)@).push(s@));
}

fn push_lit(args: &mut Vec<String>, s: &str)
    ensures
        strs(final(args)@) == strs(old(args)@).push(s@),
{
    push_arg(args, lit(s));
}

fn args_of(parts: &[&str]) -> (res: Vec<String>)
    ensures
        strs(res@) == Seq::new(parts@.len(), |i: int| parts@[i]@),
{
    let mut res: Vec<String> = Vec::new();
    let mut i: usize = 0;
    while i < parts.len()
        invariant
            i <= parts@.len(),
            strs(res@) == Seq::new(i as nat, |k: int| parts@[k]@),
        decreases parts@.len() - i,
    {
        push_lit(&mut res, parts[i]);
        i = i + 1;
        assert(strs(res@) =~= Seq::new(i as nat, |k: int| parts@[k]@));
    }
    res
}

/// `URL@REV` when a revision is given (a peg revision), else the URL.
pub open spec fn peg_url_spec(url: Seq<char>, rev: Option<i64>) -> Seq<char> {
    match rev {
        Some(r) => url + "@"@ + decimal_int(r as int),
        None => url,
    }
}

/// `URL@REV` when a revision is given, else the URL as it is (HEAD).
pub fn peg_url(url: &str, rev: Option<i64>) -> (res: String)
    ensures
        res@ == peg_url_spec(url@, rev),
{
    let mut s = lit(url);
    match rev {
        Some(r) => {
            push_str(&mut s, "@");
            push_i64(&mut s, r);
            assert(s@ =~= url@ + "@"@ + decimal_int(r as int));
        },
        None => {},
    }
    s
}

/// `-r REV` when a revision is given.
pub open spec fn rev_args(rev: Option<i64>) -> Seq<Seq<char>> {
    match rev {
        Some(r) => seq!["-r"@, decimal_int(r as int)],
        None => seq![],
    }
}

fn push_rev_args(args: &mut Vec<String>, rev: Option<i64>)
    ensures
        strs(final(args)@) == strs(old(args)@) + rev_args(rev),
{
    match rev {
        Some(r) => {
            push_lit(args, "-r");
            push_arg(args, i64_string(r));
        },
        None => {},
    }
    assert(strs(args@) =~= strs(old(args)@) + rev_args(rev));
}

/// Arguments of `svn list` for one directory, pegged at the revision.
pub fn list_args(url: &str, rev: Option<i64>) -> (res: Vec<String>)
    ensures
        strs(res@) == seq!["list"@, "--xml"@] + rev_args(rev) + seq![peg_url_spec(url@, rev)],
{
    let mut args = args_of(&["list", "--xml"]);
    push_rev_args(&mut args, rev);
    push_arg(&mut args, peg_url(url, rev));
    args
}

/// Arguments of `svn cat` for a file, pegged at the revision.
pub fn cat_args(url: &str, rev: Option<i64>) -> (res: Vec<String>)
    ensures
        strs(res@) == seq!["cat"@] + rev_args(rev) + seq![peg_url_spec(url@, rev)],
{
    let mut args = args_of(&["cat"]);
    push_rev_args(&mut args, rev);
    push_arg(&mut args, peg_url(url, rev));
    args
}

/// Arguments of `svn blame` for a path.
pub fn blame_args(path: &str, rev: Option<i64>) -> (res: Vec<String>)
    ensures
        strs(res@) == seq!["blame"@] + rev_args(rev) + seq![path@],
{
    let mut args = args_of(&["blame"]);
    push_rev_args(&mut args, rev);
    push_arg(&mut args, lit(path));
    args
}

/// An error with literal fields.
pub open spec fn error_model(cat: Seq<char>, summary: Seq<char>, detail: Seq<char>, hint: Seq<char>) -> SvnErrorModel {
    SvnErrorModel { category: cat, summary, detail, recovery_hint: hint }
}

/// Arguments of `svn export --force` to a local destination; an empty
/// destination is refused.
pub fn export_args(url: &str, dest: &str, rev: Option<i64>) -> (res: Result<Vec<String>, SvnError>)
    ensures
        trim(dest@).len() == 0 <==> res is Err,
        res matches Ok(a) ==> strs(a@) == seq!["export"@, "--force"@] + rev_args(rev) + seq![
            peg_url_spec(url@, rev),
            dest@,
        ],
        res matches Err(e) ==> e.deep_view() == error_model(
            "io"@,
            "目标路径为空"@,
            ""@,
            "请选择要保存到的本地路径。"@,
        ),
{
    let d = trim_string(dest);
    if d.as_str().is_empty() {
        return Err(SvnError::new("io", "目标路径为空", "", "请选择要保存到的本地路径。"));
    }
    let mut args = args_of(&["export", "--force"]);
    push_rev_args(&mut args, rev);
    push_arg(&mut args, peg_url(url, rev));
    push_arg(&mut args, lit(dest));
    Ok(args)
}

/// Arguments of `svn diff -r R1:R2` for a URL pegged at `peg`.
pub fn diff_rev_args(url: &str, rev1: i64, rev2: i64, peg: i64) -> (res: Vec<String>)
    ensures
        strs(res@) == seq![
            "diff"@,
            "-r"@,
            decimal_int(rev1 as int) + ":"@ + decimal_int(rev2 as int),
            peg_url_spec(url@, Some(peg)),
        ],
{
    let mut args = args_of(&["diff", "-r"]);
    let mut range = i64_string(rev1);
    push_str(&mut range, ":");
    push_i64(&mut range, rev2);
    push_arg(&mut args, range);
    push_arg(&mut args, peg_url(url, Some(peg)));
    args
}

/// A diff between revisions is pegged at the later one first; when the
/// path does not exist there ("not-found"), it is tried again pegged at
/// the earlier revision.  Any other error stands.
pub fn diff_retry_peg(err: &SvnError, rev1: i64) -> (res: Option<i64>)
    ensures
        res == (if err.category@ == "not-found"@ {
            Some(rev1)
        } else {
            None
        }),
{
    let cat = chars_of(err.category.as_str());
    if crate::text::eq_str(cat.as_slice(), "not-found") {
        Some(rev1)
    } else {
        None
    }
}

// ---------------------------------------------------------------------------
// svn log
// ---------------------------------------------------------------------------

/// A trimmed optional input, `None` when empty.
pub open spec fn nonempty_trimmed(s: Option<Seq<char>>) -> Option<Seq<char>> {
    match s {
        Some(x) => if trim(x).len() > 0 {
            Some(trim(x))
        } else {
            None
        },
        None => None,
    }
}

/// The revision range of a log query: a date range (`{from}:{to}`, a
/// missing end being `1` or `HEAD`, a bare date meaning the whole day),
/// else `REV:1`, else none.
pub open spec fn log_range(
    rev: Option<i64>,
    date_from: Option<Seq<char>>,
    date_to: Option<Seq<char>>,
) -> Seq<Seq<char>> {
    if date_from is Some || date_to is Some {
        let from = match nonempty_trimmed(date_from) {
            Some(s) => "{"@ + s + "}"@,
            None => "1"@,
        };
        let to = match nonempty_trimmed(date_to) {
            Some(s) => if find_char(s, 'T') < s.len() {
                "{"@ + s + "}"@
            } else {
                "{"@ + s + "T23:59:59}"@
            },
            None => "HEAD"@,
        };
        seq!["-r"@, from + ":"@ + to]
    } else {
        match rev {
            Some(r) => seq!["-r"@, decimal_int(r as int) + ":1"@],
            None => seq![],
        }
    }
}

/// Arguments of `svn log --xml -v`: range, `--search` (when the search
/// text is not blank; it is passed as typed), `-l LIMIT`, then the URL.
pub open spec fn log_args_spec(
    url: Seq<char>,
    limit: Option<u32>,
    rev: Option<i64>,
    search: Option<Seq<char>>,
    date_from: Option<Seq<char>>,
    date_to: Option<Seq<char>>,
) -> Seq<Seq<char>> {
    seq!["log"@, "--xml"@, "-v"@] + log_range(rev, date_from, date_to) + (match search {
        Some(s) => if trim(s).len() > 0 {
            seq!["--search"@, s]
        } else {
            seq![]
        },
        None => seq![],
    }) + (match limit {
        Some(l) => seq!["-l"@, decimal(l as nat)],
        None => seq![],
    }) + seq![url]
}

fn nonempty_trimmed_exec(s: &Option<String>) -> (res: Option<String>)
    ensures
        res.deep_view() == nonempty_trimmed(s.deep_view()),
{
    match s {
        Some(x) => {
            let t = trim_string(x.as_str());
            if t.as_str().is_empty() {
                None
            } else {
                Some(t)
            }
        },
        None => None,
    }
}

fn braced(s: &String, suffix: &str) -> (res: String)
    ensures
        res@ == "{"@ + s@ + suffix@,
{
    let mut r = lit("{");
    push_str(&mut r, s.as_str());
    push_str(&mut r, suffix);
    r
}

/// The arguments of a log query (see `log_args_spec`).
pub fn log_args(
    url: &str,
    limit: Option<u32>,
    rev: Option<i64>,
    search: &Option<String>,
    date_from: &Option<String>,
    date_to: &Option<String>,
) -> (res: Vec<String>)
    ensures
        strs(res@) == log_args_spec(
            url@,
            limit,
            rev,
            search.deep_view(),
            date_from.deep_view(),
            date_to.deep_view(),
        ),
{
    let mut args = args_of(&["log", "--xml", "-v"]);
    let ghost a0 = strs(args@);
    if date_from.is_some() || date_to.is_some() {
        let from = match nonempty_trimmed_exec(date_from) {
            Some(s) => braced(&s, "}"),
            None => lit("1"),
        };
        let to = match nonempty_trimmed_exec(date_to) {
            Some(s) => {
                let cs = chars_of(s.as_str());
                let mut k: usize = 0;
                while k < cs.len() && cs[k] != 'T'
                    invariant
                        k <= cs@.len(),
                        forall|j: int| 0 <= j < k ==> cs@[j] != 'T',
                    decreases cs@.len() - k,
                {
                    k = k + 1;
                }
                proof {
                    crate::text::lemma_find_char(cs@, 'T', k as int);
                }
                if k < cs.len() {
                    braced(&s, "}")
                } else {
                    braced(&s, "T23:59:59}")
                }
            },
            None => lit("HEAD"),
        };
        push_lit(&mut args, "-r");
        let mut range = from;
        push_str(&mut range, ":");
        push_str(&mut range, to.as_str());
        push_arg(&mut args, range);
    } else {
        match rev {
            Some(r) => {
                push_lit(&mut args, "-r");
                let mut range = i64_string(r);
                push_str(&mut range, ":1");
                push_arg(&mut args, range);
            },
            None => {},
        }
    }
    assert(strs(args@) =~= a0 + log_range(rev, date_from.deep_view(), date_to.deep_view()));
    let ghost a1 = strs(args@);
    match search {
        Some(s) => {
            let t = trim_string(s.as_str());
            if !t.as_str().is_empty() {
                push_lit(&mut args, "--search");
                push_arg(&mut args, s.clone());
            }
        },
        None => {},
    }
    let ghost a2 = strs(args@);
    match limit {
        Some(l) => {
            push_lit(&mut args, "-l");
            push_arg(&mut args, u64_string(l as u64));
        },
        None => {},
    }
    let ghost a3 = strs(args@);
    push_arg(&mut args, lit(url));
    assert(strs(args@) =~= log_args_spec(
        url@,
        limit,
        rev,
        search.deep_view(),
        date_from.deep_view(),
        date_to.deep_view(),
    ));
    args
}

// ---------------------------------------------------------------------------
// switch, relocate, merge, changelist
// ---------------------------------------------------------------------------

/// A `usage` error without detail or hint.
pub open spec fn usage_error(summary: Seq<char>) -> SvnErrorModel {
    error_model("usage"@, summary, ""@, ""@)
}

/// An optional input that is present and not blank.
pub open spec fn given(s: Option<Seq<char>>) -> bool {
    s matches Some(x) && trim(x).len() > 0
}

fn given_exec(s: &Option<String>) -> (res: bool)
    ensures
        res == given(s.deep_view()),
{
    match s {
        Some(x) => {
            let t = trim_string(x.as_str());
            !t.as_str().is_empty()
        },
        None => false,
    }
}

/// Arguments of `svn switch [--depth D] URL PATH`; a blank URL is refused.
pub fn switch_args(path: &str, target_url: &str, depth: &Option<String>) -> (res: Result<
    Vec<String>,
    SvnError,
>)
    ensures
        trim(target_url@).len() == 0 <==> res is Err,
        res matches Err(e) ==> e.deep_view() == usage_error("目标 URL 不能为空"@),
        res matches Ok(a) ==> strs(a@) == seq!["switch"@] + (if given(depth.deep_view()) {
            seq!["--depth"@, depth.deep_view()->Some_0]
        } else {
            seq![]
        }) + seq![target_url@, path@],
{
    let t = trim_string(target_url);
    if t.as_str().is_empty() {
        return Err(SvnError::new("usage", "目标 URL 不能为空", "", ""));
    }
    let mut args = args_of(&["switch"]);
    let ghost a0 = strs(args@);
    if given_exec(depth) {
        push_lit(&mut args, "--depth");
        match depth {
            Some(d) => push_arg(&mut args, d.clone()),
            None => {},
        }
    }
    push_arg(&mut args, lit(target_url));
    push_arg(&mut args, lit(path));
    Ok(args)
}

/// Arguments of `svn relocate [FROM] TO PATH`; a blank new URL is refused.
pub fn relocate_args(path: &str, new_url: &str, from_url: &Option<String>) -> (res: Result<
    Vec<String>,
    SvnError,
>)
    ensures
        trim(new_url@).len() == 0 <==> res is Err,
        res matches Err(e) ==> e.deep_view() == usage_error("新仓库地址不能为空"@),
        res matches Ok(a) ==> strs(a@) == seq!["relocate"@] + (if given(from_url.deep_view()) {
            seq![from_url.deep_view()->Some_0]
        } else {
            seq![]
        }) + seq![new_url@, path@],
{
    let t = trim_string(new_url);
    if t.as_str().is_empty() {
        return Err(SvnError::new("usage", "新仓库地址不能为空", "", ""));
    }
    let mut args = args_of(&["relocate"]);
    if given_exec(from_url) {
        match from_url {
            Some(f) => push_arg(&mut args, f.clone()),
            None => {},
        }
    }
    push_arg(&mut args, lit(new_url));
    push_arg(&mut args, lit(path));
    Ok(args)
}

/// The `-r FROM:TO` of a merge: a missing start is 1, a missing end HEAD.
pub open spec fn merge_range(rev_from: Option<i64>, rev_to: Option<i64>) -> Seq<Seq<char>> {
    if rev_from is Some || rev_to is Some {
        let f = match rev_from {
            Some(v) => decimal_int(v as int),
            None => "1"@,
        };
        let t = match rev_to {
            Some(v) => decimal_int(v as int),
            None => "HEAD"@,
        };
        seq!["-r"@, f + ":"@ + t]
    } else {
        seq![]
    }
}

/// Arguments of `svn merge [--dry-run] [-r F:T] SOURCE TARGET`; a blank
/// source URL is refused.  Without a range svn merges what is eligible.
pub fn merge_args(
    target: &str,
    source_url: &str,
    rev_from: Option<i64>,
    rev_to: Option<i64>,
    dry_run: bool,
) -> (res: Result<Vec<String>, SvnError>)
    ensures
        trim(source_url@).len() == 0 <==> res is Err,
        res matches Err(e) ==> e.deep_view() == usage_error("源 URL 不能为空"@),
        res matches Ok(a) ==> strs(a@) == seq!["merge"@] + (if dry_run {
            seq!["--dry-run"@]
        } else {
            seq![]
        }) + merge_range(rev_from, rev_to) + seq![source_url@, target@],
{
    let t = trim_string(source_url);
    if t.as_str().is_empty() {
        return Err(SvnError::new("usage", "源 URL 不能为空", "", ""));
    }
    let mut args = args_of(&["merge"]);
    if dry_run {
        push_lit(&mut args, "--dry-run");
    }
    if rev_from.is_some() || rev_to.is_some() {
        let mut range = match rev_from {
            Some(v) => i64_string(v),
            None => lit("1"),
        };
        push_str(&mut range, ":");
        match rev_to {
            Some(v) => push_i64(&mut range, v),
            None => push_str(&mut range, "HEAD"),
        }
        push_lit(&mut args, "-r");
        push_arg(&mut args, range);
    }
    push_arg(&mut args, lit(source_url));
    push_arg(&mut args, lit(target));
    Ok(args)
}

fn extend_args(args: &mut Vec<String>, more: &Vec<String>)
    ensures
        strs(final(args)@) == strs(old(args)@) + strs(more@),
{
    let mut i: usize = 0;
    while i < more.len()
        invariant
            i <= more@.len(),
            strs(args@) == strs(old(args)@) + strs(more@).take(i as int),
        decreases more@.len() - i,
    {
        push_arg(args, more[i].clone());
        i = i + 1;
        assert(strs(args@) =~= strs(old(args)@) + strs(more@).take(i as int));
    }
    assert(strs(more@).take(more@.len() as int) =~= strs(more@));
}

/// Arguments of `svn changelist`: `--remove PATHS` or `NAME PATHS`.  No
/// paths, or a blank name when adding, is refused.
pub fn changelist_args(name: &str, paths: &Vec<String>, remove: bool) -> (res: Result<
    Vec<String>,
    SvnError,
>)
    ensures
        paths@.len() == 0 ==> (res matches Err(e) && e.deep_view() == usage_error(
            "未选择要加入变更集的路径"@,
        )),
        paths@.len() > 0 && !remove && trim(name@).len() == 0 ==> (res matches Err(e)
            && e.deep_view() == usage_error("变更集名称不能为空"@)),
        paths@.len() > 0 && remove ==> (res matches Ok(a) && strs(a@) == seq![
            "changelist"@,
            "--remove"@,
        ] + strs(paths@)),
        paths@.len() > 0 && !remove && trim(name@).len() > 0 ==> (res matches Ok(a) && strs(a@)
            == seq!["changelist"@, name@] + strs(paths@)),
{
    if paths.len() == 0 {
        return Err(SvnError::new("usage", "未选择要加入变更集的路径", "", ""));
    }
    let mut args = args_of(&["changelist"]);
    if remove {
        push_lit(&mut args, "--remove");
    } else {
        let t = trim_string(name);
        if t.as_str().is_empty() {
            return Err(SvnError::new("usage", "变更集名称不能为空", "", ""));
        }
        push_arg(&mut args, lit(name));
    }
    extend_args(&mut args, paths);
    Ok(args)
}

/// Summary of a changelist change.
pub fn changelist_summary(name: &str, count: usize, remove: bool) -> (res: String)
    ensures
        res@ == (if remove {
            "已从变更集移除 "@ + decimal(count as nat) + " 个路径"@
        } else {
            "已加入变更集 "@ + name@ + "（"@ + decimal(count as nat) + " 个路径）"@
        }),
{
    if remove {
        count_summary("已从变更集移除 ", count, " 个路径")
    } else {
        let mut s = lit("已加入变更集 ");
        push_str(&mut s, name);
        push_str(&mut s, "（");
        push_u64(&mut s, count as u64);
        push_str(&mut s, " 个路径）");
        s
    }
}

/// `prefix`, the count in decimal, `suffix`.
pub fn count_summary(prefix: &str, count: usize, suffix: &str) -> (res: String)
    ensures
        res@ == prefix@ + decimal(count as nat) + suffix@,
{
    let mut s = lit(prefix);
    push_u64(&mut s, count as u64);
    push_str(&mut s, suffix);
    s
}

/// A commit message must not be blank; the hint differs by command.
pub fn require_message(message: &str, hint: &str) -> (res: Result<(), SvnError>)
    ensures
        res is Err <==> trim(message@).len() == 0,
        res matches Err(e) ==> e.deep_view() == error_model(
            "usage"@,
            "提交说明不能为空"@,
            ""@,
            hint@,
        ),
{
    let t = trim_string(message);
    if t.as_str().is_empty() {
        Err(SvnError::new("usage", "提交说明不能为空", "", hint))
    } else {
        Ok(())
    }
}

/// The arguments that pass a commit message through a UTF-8 file.
pub fn message_file_args(file: &str) -> (res: Vec<String>)
    ensures
        strs(res@) == seq!["-F"@, file@, "--encoding"@, "utf-8"@],
{
    let mut args = args_of(&["-F"]);
    push_arg(&mut args, lit(file));
    push_lit(&mut args, "--encoding");
    push_lit(&mut args, "utf-8");
    args
}

// ---------------------------------------------------------------------------
// reading command output
// ---------------------------------------------------------------------------

/// The digits at the start of `s`.
pub open spec fn digit_prefix(s: Seq<char>) -> Seq<char>
    decreases s.len(),
{
    if s.len() > 0 && is_digit(s[0]) {
        seq![s[0]] + digit_prefix(s.drop_first())
    } else {
        seq![]
    }
}

/// The first position at or after `i` where `p` occurs, or -1.
pub open spec fn find_from(s: Seq<char>, p: Seq<char>, i: int) -> int
    decreases s.len() + 1 - i,
{
    if i < 0 || i > s.len() {
        -1
    } else if crate::text::occurs_at(s, p, i) {
        i
    } else {
        find_from(s, p, i + 1)
    }
}

/// The revision number after the first "Committed revision" of a line.
pub open spec fn committed_digits(line: Seq<char>) -> Seq<char> {
    let idx = find_from(line, "Committed revision"@, 0);
    if idx < 0 {
        seq![]
    } else {
        digit_prefix(trim_start(line.skip(idx + 18)))
    }
}

/// The summary of a commit: the first line that reports the revision.
pub open spec fn commit_summary(ls: Seq<Seq<char>>) -> Seq<char>
    decreases ls.len(),
{
    if ls.len() == 0 {
        "提交成功"@
    } else if committed_digits(ls[0]).len() > 0 {
        "提交成功（revision "@ + committed_digits(ls[0]) + "）"@
    } else {
        commit_summary(ls.drop_first())
    }
}

fn digit_prefix_exec(s: &[char]) -> (res: Vec<char>)
    ensures
        res@ == digit_prefix(s@),
{
    let mut k: usize = 0;
    assert(s@.skip(0) =~= s@);
    assert(s@.take(0) =~= Seq::<char>::empty());
    while k < s.len() && '0' <= s[k] && s[k] <= '9'
        invariant
            k <= s@.len(),
            digit_prefix(s@) == s@.take(k as int) + digit_prefix(s@.skip(k as int)),
        decreases s@.len() - k,
    {
        assert(s@.skip(k as int).drop_first() =~= s@.skip(k + 1));
        assert(s@.take(k + 1) =~= s@.take(k as int) + seq![s@[k as int]]);
        assert(s@.take(k as int) + seq![s@[k as int]] + digit_prefix(s@.skip(k + 1)) =~= s@.take(
            k as int,
        ) + (seq![s@[k as int]] + digit_prefix(s@.skip(k + 1))));
        k = k + 1;
    }
    assert(digit_prefix(s@.skip(k as int)) =~= Seq::<char>::empty());
    assert(s@.take(k as int) + Seq::<char>::empty() =~= s@.take(k as int));
    crate::text::slice_to_vec(s, 0, k)
}

fn committed_digits_exec(line: &[char]) -> (res: Vec<char>)
    ensures
        res@ == committed_digits(line@),
{
    let pat = chars_of("Committed revision");
    let mut i: usize = 0;
    assert(pat@.len() == 18) by {
        reveal_strlit("Committed revision");
    }
    while i < line.len()
        invariant
            pat@ == "Committed revision"@,
            pat@.len() == 18,
            i <= line@.len(),
            find_from(line@, pat@, 0) == find_from(line@, pat@, i as int),
        decreases line@.len() - i,
    {
        if crate::text::occurs_at_exec(line, pat.as_slice(), i) {
            let rest = crate::text::slice_to_vec(line, i + 18, line.len());
            assert(rest@ =~= line@.skip(i + 18));
            let t = trim_start_chars(rest.as_slice());
            return digit_prefix_exec(t.as_slice());
        }
        i = i + 1;
    }
    assert(!crate::text::occurs_at(line@, pat@, i as int));
    assert(find_from(line@, pat@, i + 1) == -1);
    Vec::new()
}

/// The commit summary from the outputs of `svn commit`: "提交成功（revision
/// N）" for the first line (stdout, then stderr) with "Committed revision
/// N", else "提交成功".
pub fn extract_committed_revision(stdout: &str, stderr: &str) -> (res: String)
    ensures
        res@ == commit_summary(lines(stdout@) + lines(stderr@)),
{
    let a = chars_of(stdout);
    let b = chars_of(stderr);
    let la = lines_of(a.as_slice());
    let lb = lines_of(b.as_slice());
    let ghost all = views(la@) + views(lb@);
    assert(all.skip(0) =~= all);
    let mut k: usize = 0;
    while k < la.len()
        invariant
            all == views(la@) + views(lb@),
            all == lines(stdout@) + lines(stderr@),
            k <= la@.len(),
            commit_summary(all) == commit_summary(all.skip(k as int)),
        decreases la@.len() - k,
    {
        assert(all.skip(k as int)[0] == la@[k as int]@);
        assert(all.skip(k as int).drop_first() =~= all.skip(k + 1));
        let d = committed_digits_exec(la[k].as_slice());
        if d.len() > 0 {
            let mut s = lit("提交成功（revision ");
            push_chars(&mut s, d.as_slice());
            push_str(&mut s, "）");
            assert(commit_summary(all.skip(k as int)) == "提交成功（revision "@ + d@ + "）"@);
            return s;
        }
        k = k + 1;
    }
    let mut j: usize = 0;
    while j < lb.len()
        invariant
            all == views(la@) + views(lb@),
            all == lines(stdout@) + lines(stderr@),
            j <= lb@.len(),
            commit_summary(all) == commit_summary(all.skip(la@.len() + j)),
        decreases lb@.len() - j,
    {
        assert(all.skip(la@.len() + j)[0] == lb@[j as int]@);
        assert(all.skip(la@.len() + j).drop_first() =~= all.skip(la@.len() + j + 1));
        let d = committed_digits_exec(lb[j].as_slice());
        if d.len() > 0 {
            let mut s = lit("提交成功（revision ");
            push_chars(&mut s, d.as_slice());
            push_str(&mut s, "）");
            assert(commit_summary(all.skip(la@.len() + j)) == "提交成功（revision "@ + d@ + "）"@);
            return s;
        }
        j = j + 1;
    }
    assert(all.skip(la@.len() + j) =~= Seq::<Seq<char>>::empty());
    lit("提交成功")
}

/// The last line, trimmed (empty for empty output).
pub open spec fn last_line_spec(s: Seq<char>) -> Seq<char> {
    if lines(s).len() > 0 {
        trim(lines(s).last())
    } else {
        seq![]
    }
}

/// The last line of the output, trimmed.
pub fn last_line(s: &str) -> (res: String)
    ensures
        res@ == last_line_spec(s@),
{
    let cs = chars_of(s);
    let ls = lines_of(cs.as_slice());
    if ls.len() > 0 {
        let t = trim_chars(ls[ls.len() - 1].as_slice());
        string_of(t.as_slice())
    } else {
        String::new()
    }
}

/// The last non-blank line, trimmed, or `default`.
pub open spec fn last_nonblank(ls: Seq<Seq<char>>, default: Seq<char>) -> Seq<char>
    decreases ls.len(),
{
    if ls.len() == 0 {
        default
    } else if trim(ls.last()).len() > 0 {
        trim(ls.last())
    } else {
        last_nonblank(ls.drop_last(), default)
    }
}

/// The last non-blank line of the output, trimmed, or `default` (the
/// summary of an export or of a background task).
pub fn last_nonblank_line(s: &str, default: &str) -> (res: String)
    ensures
        res@ == last_nonblank(lines(s@), default@),
{
    let cs = chars_of(s);
    let ls = lines_of(cs.as_slice());
    let ghost lv = views(ls@);
    let mut k: usize = ls.len();
    assert(lv.take(lv.len() as int) =~= lv);
    while k > 0
        invariant
            lv == views(ls@),
            lv == lines(s@),
            k <= ls@.len(),
            last_nonblank(lv, default@) == last_nonblank(lv.take(k as int), default@),
        decreases k,
    {
        let t = trim_chars(ls[k - 1].as_slice());
        assert(lv.take(k as int).last() == ls@[k - 1]@);
        assert(t@ == trim(lv.take(k as int).last()));
        if t.len() > 0 {
            assert(last_nonblank(lv.take(k as int), default@) == t@);
            return string_of(t.as_slice());
        }
        assert(lv.take(k as int).drop_last() =~= lv.take(k - 1));
        k = k - 1;
    }
    lit(default)
}

/// The result of `svn export`: its last non-blank output line ("Export
/// complete." or "Exported revision N.") as the summary, else "导出完成".
pub fn export_result(stdout_bytes: &[u8], stderr_bytes: &[u8]) -> (res: TaskResult)
    ensures
        res.ok,
        res.stdout@ == crate::text::lossy_text(stdout_bytes@),
        res.stderr@ == crate::text::lossy_text(stderr_bytes@),
        res.summary@ == last_nonblank(lines(res.stdout@), "导出完成"@),
{
    let stdout = crate::text::lossy_string(stdout_bytes);
    let stderr = crate::text::lossy_string(stderr_bytes);
    let summary = last_nonblank_line(stdout.as_str(), "导出完成");
    TaskResult { ok: true, summary, stdout, stderr }
}

/// The summary of an update: the last line of svn's output.
pub fn update_summary(stdout: &str) -> (res: String)
    ensures
        res@ == "更新完成，已更新到 revision "@ + last_line_spec(stdout@),
{
    let mut s = lit("更新完成，已更新到 revision ");
    let l = last_line(stdout);
    push_str(&mut s, l.as_str());
    s
}

// ---------------------------------------------------------------------------
// diffs and file content
// ---------------------------------------------------------------------------

/// The diff shown for svn's diff output (decoded leniently): binary when
/// svn says so (either wording) or the output holds a NUL byte; empty
/// when blank.
pub fn diff_result(stdout_bytes: &[u8]) -> (res: DiffResult)
    ensures
        res.text@ == crate::text::lossy_text(stdout_bytes@),
        res.is_binary == (crate::text::contains(res.text@, "(Binary files differ)"@)
            || crate::text::contains(res.text@, "Cannot display: file marked as a binary type"@)
            || stdout_bytes@.contains(0u8)),
        res.is_empty == (trim(res.text@).len() == 0),
        !res.unversioned,
{
    let text = crate::text::lossy_string(stdout_bytes);
    let cs = chars_of(text.as_str());
    let is_binary = crate::text::contains_exec(cs.as_slice(), "(Binary files differ)")
        || crate::text::contains_exec(
        cs.as_slice(),
        "Cannot display: file marked as a binary type",
    ) || crate::parser::is_binary(stdout_bytes);
    let t = trim_chars(cs.as_slice());
    DiffResult { is_empty: t.len() == 0, is_binary, unversioned: false, text }
}

/// Every line prefixed with `+ ` and ended with a newline.
pub open spec fn added_lines(ls: Seq<Seq<char>>) -> Seq<char>
    decreases ls.len(),
{
    if ls.len() == 0 {
        seq![]
    } else {
        added_lines(ls.drop_last()) + "+ "@ + ls.last() + "\n"@
    }
}

/// The diff of an unversioned file (decoded leniently): every line added.
pub fn unversioned_diff(bytes: &[u8]) -> (res: DiffResult)
    ensures
        res.text@ == added_lines(lines(crate::text::lossy_text(bytes@))),
        res.is_empty == (trim(res.text@).len() == 0),
        res.is_binary == bytes@.contains(0u8),
        res.unversioned,
{
    let content = crate::text::lossy_string(bytes);
    let cs = chars_of(content.as_str());
    let ls = lines_of(cs.as_slice());
    let ghost lv = views(ls@);
    let mut text = String::new();
    let mut i: usize = 0;
    while i < ls.len()
        invariant
            lv == views(ls@),
            i <= ls@.len(),
            text@ == added_lines(lv.take(i as int)),
        decreases ls@.len() - i,
    {
        push_str(&mut text, "+ ");
        push_chars(&mut text, ls[i].as_slice());
        push_str(&mut text, "\n");
        assert(lv.take(i + 1).drop_last() =~= lv.take(i as int));
        assert(lv.take(i + 1).last() == ls@[i as int]@);
        i = i + 1;
    }
    assert(lv.take(ls@.len() as int) =~= lv);
    let tc = chars_of(text.as_str());
    let t = trim_chars(tc.as_slice());
    DiffResult {
        is_empty: t.len() == 0,
        is_binary: crate::parser::is_binary(bytes),
        unversioned: true,
        text,
    }
}

/// The standard base64 alphabet (RFC 4648).
pub open spec fn b64_char(v: int) -> char {
    if v < 26 {
        (('A' as u32) + v) as char
    } else if v < 52 {
        (('a' as u32) + (v - 26)) as char
    } else if v < 62 {
        (('0' as u32) + (v - 52)) as char
    } else if v == 62 {
        '+'
    } else {
        '/'
    }
}

/// Standard base64 with padding: each group of three bytes becomes four
/// characters; a final group of one or two bytes is padded with `=`.
pub open spec fn base64_spec(b: Seq<u8>) -> Seq<char>
    decreases b.len(),
{
    if b.len() == 0 {
        seq![]
    } else {
        let x: int = b[0] as int;
        let y: int = if b.len() > 1 { b[1] as int } else { 0 };
        let z: int = if b.len() > 2 { b[2] as int } else { 0 };
        let c0 = b64_char(x / 4);
        let c1 = b64_char((x % 4) * 16 + y / 16);
        let c2 = b64_char((y % 16) * 4 + z / 64);
        let c3 = b64_char(z % 64);
        if b.len() == 1 {
            seq![c0, c1, '=', '=']
        } else if b.len() == 2 {
            seq![c0, c1, c2, '=']
        } else {
            seq![c0, c1, c2, c3] + base64_spec(b.skip(3))
        }
    }
}

/// `base64::engine::general_purpose::STANDARD.encode`: standard alphabet,
/// with padding.  (The crate panics when the length of the encoding does
/// not fit in `usize`, hence the bound.)
#[verifier::external_body]
fn base64_encode(bytes: &[u8]) -> (res: String)
    requires
        (bytes@.len() + 2) / 3 * 4 <= usize::MAX,
    ensures
        res@ == base64_spec(bytes@),
{
    base64::engine::general_purpose::STANDARD.encode(bytes)
}

/// File content for transport: base64 of the bytes, their number, whether
/// they are valid UTF-8 and whether they look binary (a NUL byte).
pub fn file_content(bytes: &[u8]) -> (res: FileContent)
    requires
        (bytes@.len() + 2) / 3 * 4 <= usize::MAX,
    ensures
        res.data_base64@ == base64_spec(bytes@),
        res.size == bytes@.len(),
        res.is_utf8 == vstd::utf8::valid_utf8(bytes@),
        res.is_binary == bytes@.contains(0u8),
{
    FileContent {
        data_base64: base64_encode(bytes),
        size: bytes.len(),
        is_utf8: crate::text::is_valid_utf8(bytes),
        is_binary: crate::parser::is_binary(bytes),
    }
}

// ---------------------------------------------------------------------------
// three-way merge of a conflicted file
// ---------------------------------------------------------------------------

/// The error for a conflicted file whose markers do not parse.
pub open spec fn conflict_parse_error(e: Seq<char>) -> SvnErrorModel {
    error_model(
        "internal"@,
        "冲突标记解析失败"@,
        e,
        "文件可能被外部工具修改，请重新打开三方合并。"@,
    )
}

/// The line ending shown for a conflicted file.
pub open spec fn line_ending_text(le: LineEnding) -> Seq<char> {
    match le {
        LineEnding::Crlf => "\r\n"@,
        LineEnding::Lf => "\n"@,
    }
}

/// What the three-way merge view shows of a conflicted file: its blocks
/// as text, whether it has markers, and its line ending.
pub fn conflict_info(bytes: &[u8]) -> (res: Result<ConflictInfo, SvnError>)
    ensures
        parse_conflict(bytes@) is None <==> res is Err,
        res matches Err(e) ==> e.deep_view() == conflict_parse_error(
            "冲突标记未闭合：文件以冲突块结尾，缺少 >>>>>>> 结束行（文件可能被外部工具损坏）"@,
        ),
        res matches Ok(info) ==> {
            let doc = parse_conflict(bytes@).unwrap();
            &&& info.blocks.deep_view() == ui_blocks_spec(doc.parts)
            &&& info.has_markers == doc.has_markers
            &&& info.line_ending@ == line_ending_text(doc.line_ending)
        },
{
    match parse_conflict_bytes(bytes) {
        Err(e) => Err(SvnError::new(
            "internal",
            "冲突标记解析失败",
            e.as_str(),
            "文件可能被外部工具修改，请重新打开三方合并。",
        )),
        Ok(doc) => {
            let line_ending = match doc.line_ending {
                LineEnding::Crlf => lit("\r\n"),
                LineEnding::Lf => lit("\n"),
            };
            Ok(ConflictInfo { blocks: doc.ui_blocks(), has_markers: doc.has_markers, line_ending })
        },
    }
}

/// The choice a word names: "mine", "theirs", "both" or "none".
pub open spec fn choice_of(s: Seq<char>) -> Option<Choice> {
    if s == "mine"@ {
        Some(Choice::Mine)
    } else if s == "theirs"@ {
        Some(Choice::Theirs)
    } else if s == "both"@ {
        Some(Choice::Both)
    } else if s == "none"@ {
        Some(Choice::Neither)
    } else {
        None
    }
}

/// Reads a block choice.
pub fn parse_choice(s: &str) -> (res: Option<Choice>)
    ensures
        res == choice_of(s@),
{
    let cs = chars_of(s);
    if crate::text::eq_str(cs.as_slice(), "mine") {
        Some(Choice::Mine)
    } else if crate::text::eq_str(cs.as_slice(), "theirs") {
        Some(Choice::Theirs)
    } else if crate::text::eq_str(cs.as_slice(), "both") {
        Some(Choice::Both)
    } else if crate::text::eq_str(cs.as_slice(), "none") {
        Some(Choice::Neither)
    } else {
        None
    }
}

/// The choices the words name, or the first word that names none.
pub open spec fn choices_of(ws: Seq<Seq<char>>) -> Result<Seq<Choice>, Seq<char>>
    decreases ws.len(),
{
    if ws.len() == 0 {
        Ok(seq![])
    } else {
        match choice_of(ws[0]) {
            None => Err(ws[0]),
            Some(c) => match choices_of(ws.drop_first()) {
                Ok(rest) => Ok(seq![c] + rest),
                Err(w) => Err(w),
            },
        }
    }
}

/// The error for a file without text conflict markers.
pub open spec fn no_markers_error() -> SvnErrorModel {
    error_model(
        "io"@,
        "该文件没有文本冲突标记"@,
        ""@,
        "此冲突可能是属性冲突或二进制冲突，请使用「解决冲突」策略（mine-full / theirs-full / working / base）。"@,
    )
}

/// The error for a number of choices that is not the number of blocks.
pub open spec fn block_count_error(choices: nat, blocks: nat) -> SvnErrorModel {
    error_model(
        "io"@,
        "冲突块数量已变化"@,
        "原 "@ + decimal(choices) + " 块，现在 "@ + decimal(blocks) + " 块"@,
        "文件可能在编辑期间被修改，请重新打开三方合并。"@,
    )
}

/// The error for a word that names no choice.
pub open spec fn invalid_choice_error(w: Seq<char>) -> SvnErrorModel {
    error_model("usage"@, "无效的块选择"@, w, "只支持 mine / theirs / both / none。"@)
}

/// The bytes that resolve a conflicted file by one choice per block, or
/// why that cannot be done.
pub open spec fn resolve_spec(raw: Seq<u8>, words: Seq<Seq<char>>) -> Result<
    Seq<u8>,
    SvnErrorModel,
> {
    match parse_conflict(raw) {
        None => Err(
            conflict_parse_error(
                "冲突标记未闭合：文件以冲突块结尾，缺少 >>>>>>> 结束行（文件可能被外部工具损坏）"@,
            ),
        ),
        Some(doc) => if !doc.has_markers {
            Err(no_markers_error())
        } else if words.len() != ui_blocks_spec(doc.parts).len() {
            Err(block_count_error(words.len(), ui_blocks_spec(doc.parts).len()))
        } else {
            match choices_of(words) {
                Err(w) => Err(invalid_choice_error(w)),
                Ok(cs) => Ok(assemble_spec(doc, cs)),
            }
        },
    }
}

fn choices_exec(words: &Vec<String>) -> (res: Result<Vec<Choice>, String>)
    ensures
        match (res, choices_of(strs(words@))) {
            (Ok(v), Ok(m)) => v@ == m,
            (Err(e), Err(m)) => e@ == m,
            _ => false,
        },
{
    let ghost ws = strs(words@);
    let mut out: Vec<Choice> = Vec::new();
    let mut i: usize = 0;
    assert(ws.skip(0) =~= ws);
    while i < words.len()
        invariant
            ws == strs(words@),
            i <= words@.len(),
            match choices_of(ws) {
                Ok(all) => match choices_of(ws.skip(i as int)) {
                    Ok(rest) => all == out@ + rest,
                    Err(_) => false,
                },
                Err(w) => choices_of(ws.skip(i as int)) == Err::<Seq<Choice>, Seq<char>>(w),
            },
        decreases words@.len() - i,
    {
        assert(ws.skip(i as int)[0] == words@[i as int]@);
        assert(ws.skip(i as int).drop_first() =~= ws.skip(i + 1));
        match parse_choice(words[i].as_str()) {
            None => {
                return Err(words[i].clone());
            },
            Some(c) => {
                proof {
                    match choices_of(ws.skip(i + 1)) {
                        Ok(rest) => {
                            assert(out@.push(c) + rest =~= out@ + (seq![c] + rest));
                        },
                        Err(_) => {},
                    }
                }
                out.push(c);
            },
        }
        i = i + 1;
    }
    assert(ws.skip(i as int) =~= Seq::<Seq<char>>::empty());
    assert(out@ + Seq::<Choice>::empty() =~= out@);
    Ok(out)
}

/// Resolves a conflicted file by one choice ("mine", "theirs", "both",
/// "none") per block, in the order of `conflict_info`'s blocks: the bytes
/// to write back, or why the choices do not fit the file.
pub fn resolve_conflict(bytes: &[u8], choices: &Vec<String>) -> (res: Result<Vec<u8>, SvnError>)
    ensures
        match (res, resolve_spec(bytes@, strs(choices@))) {
            (Ok(v), Ok(m)) => v@ == m,
            (Err(e), Err(m)) => e.deep_view() == m,
            _ => false,
        },
{
    let doc = match parse_conflict_bytes(bytes) {
        Err(e) => {
            return Err(
                SvnError::new(
                    "internal",
                    "冲突标记解析失败",
                    e.as_str(),
                    "文件可能被外部工具修改，请重新打开三方合并。",
                ),
            );
        },
        Ok(d) => d,
    };
    if !doc.has_markers {
        return Err(
            SvnError::new(
                "io",
                "该文件没有文本冲突标记",
                "",
                "此冲突可能是属性冲突或二进制冲突，请使用「解决冲突」策略（mine-full / theirs-full / working / base）。",
            ),
        );
    }
    let blocks = doc.ui_blocks().len();
    if choices.len() != blocks {
        let mut detail = lit("原 ");
        push_u64(&mut detail, choices.len() as u64);
        push_str(&mut detail, " 块，现在 ");
        push_u64(&mut detail, blocks as u64);
        push_str(&mut detail, " 块");
        return Err(
            SvnError::new(
                "io",
                "冲突块数量已变化",
                detail.as_str(),
                "文件可能在编辑期间被修改，请重新打开三方合并。",
            ),
        );
    }
    match choices_exec(choices) {
        Err(w) => Err(
            SvnError::new("usage", "无效的块选择", w.as_str(), "只支持 mine / theirs / both / none。"),
        ),
        Ok(cs) => Ok(assemble_conflict(&doc, cs.as_slice())),
    }
}

// ---------------------------------------------------------------------------
// remote write commands, properties, repository probes
// ---------------------------------------------------------------------------

/// The message arguments of a remote write (mkdir, delete, copy, move,
/// import): the message must not be blank, and it travels through the
/// file `file` as UTF-8.
pub fn remote_msg_args(message: &str, file: &str) -> (res: Result<Vec<String>, SvnError>)
    ensures
        res is Err <==> trim(message@).len() == 0,
        res matches Err(e) ==> e.deep_view() == error_model(
            "usage"@,
            "提交说明不能为空"@,
            ""@,
            "远程写操作必须填写提交说明。"@,
        ),
        res matches Ok(a) ==> strs(a@) == seq!["-F"@, file@, "--encoding"@, "utf-8"@],
{
    match require_message(message, "远程写操作必须填写提交说明。") {
        Err(e) => Err(e),
        Ok(()) => Ok(message_file_args(file)),
    }
}

/// The properties in the output of `svn proplist -v --xml`; output that
/// does not parse is a "parse" error.
pub fn props_list(xml: &[u8]) -> (res: Result<Vec<crate::models::PropEntry>, SvnError>)
    ensures
        match (res, crate::parser::prop_result(crate::xml::xml_events(xml@))) {
            (Ok(v), Ok(m)) => v.deep_view() == m,
            (Err(e), Err(m)) => e.deep_view() == error_model(
                "parse"@,
                "属性解析失败"@,
                "属性 XML 解析失败："@ + m,
                ""@,
            ),
            _ => false,
        },
{
    match crate::parser::parse_proplist(xml) {
        Ok(v) => Ok(v),
        Err(e) => Err(SvnError::new("parse", "属性解析失败", e.as_str(), "")),
    }
}

/// The error for svn output that does not parse.
pub open spec fn parse_failure(what: Seq<char>, detail: Seq<char>, hint: Seq<char>) -> SvnErrorModel {
    error_model("internal"@, "解析 "@ + what + " 失败"@, detail, hint)
}

/// The error for svn output that does not parse: "解析 <what> 失败".
pub fn parse_failure_error(what: &str, detail: &str, hint: &str) -> (res: SvnError)
    ensures
        res.deep_view() == parse_failure(what@, detail@, hint@),
{
    let mut summary = lit("解析 ");
    push_str(&mut summary, what);
    push_str(&mut summary, " 失败");
    SvnError { category: lit("internal"), summary, detail: lit(detail), recovery_hint: lit(hint) }
}

/// The repository shown when a URL is opened: `svn info --xml` of the URL
/// with the URL as typed, and the number of entries that `svn list --xml`
/// gave, when it ran and its output parsed.
pub open spec fn opened_repo(
    url: Seq<char>,
    info: crate::models::RepoInfoModel,
    list_xml: Option<Seq<u8>>,
) -> crate::models::RepoInfoModel {
    let count = match list_xml {
        Some(l) => match crate::parser::list_result(crate::xml::xml_events(l)) {
            Ok(es) => es.len() as usize,
            Err(_) => info.entry_count,
        },
        None => info.entry_count,
    };
    crate::models::RepoInfoModel { url, entry_count: count, ..info }
}

/// Opens a repository URL from the outputs of `svn info --xml` and, when
/// it ran, `svn list --xml`: info that does not parse is an error; a list
/// that did not run or does not parse leaves the entry count alone.
pub fn open_result(url: &str, info_xml: &[u8], list_xml: Option<&[u8]>) -> (res: Result<
    crate::models::RepoInfo,
    SvnError,
>)
    ensures
        match (res, crate::parser::info_result(crate::xml::xml_events(info_xml@))) {
            (Ok(i), Ok(m)) => i.deep_view() == opened_repo(
                url@,
                m,
                match list_xml {
                    Some(l) => Some(l@),
                    None => None,
                },
            ),
            (Err(e), Err(m)) => e.deep_view() == parse_failure(
                "svn info"@,
                crate::parser::xml_error("info"@, m, info_xml@),
                "请报告此问题并附带诊断日志。"@,
            ),
            _ => false,
        },
{
    let mut info = match crate::parser::parse_info(info_xml) {
        Ok(i) => i,
        Err(e) => {
            return Err(parse_failure_error("svn info", e.as_str(), "请报告此问题并附带诊断日志。"));
        },
    };
    info.url = lit(url);
    match list_xml {
        Some(l) => match crate::parser::parse_list(l) {
            Ok(entries) => {
                info.entry_count = entries.len();
            },
            Err(_) => {},
        },
        None => {},
    }
    Ok(info)
}

/// The options that accept an untrusted server certificate for one call.
pub open spec fn trust_options() -> Seq<Seq<char>> {
    seq![
        "--non-interactive"@,
        "--trust-server-cert-failures"@,
        "unknown-ca,cn-mismatch,expired,not-yet-valid,other"@,
    ]
}

/// `args` run with a temporarily trusted server certificate.
pub fn trusted_args(args: &Vec<String>) -> (res: Vec<String>)
    ensures
        strs(res@) == trust_options() + strs(args@),
{
    let mut res = args_of(
        &["--non-interactive", "--trust-server-cert-failures", "unknown-ca,cn-mismatch,expired,not-yet-valid,other"],
    );
    extend_args(&mut res, args);
    res
}

// ---------------------------------------------------------------------------
// credentials
// ---------------------------------------------------------------------------

/// Arguments of `svn auth --remove PATTERN...`; no pattern is refused.
pub fn auth_remove_args(patterns: &Vec<String>) -> (res: Result<Vec<String>, SvnError>)
    ensures
        res is Err <==> patterns@.len() == 0,
        res matches Err(e) ==> e.deep_view() == error_model(
            "usage"@,
            "未指定要清除的凭据"@,
            ""@,
            "请选择一条凭据或「全部清除」。"@,
        ),
        res matches Ok(a) ==> strs(a@) == seq!["auth"@, "--remove"@] + strs(patterns@),
{
    if patterns.len() == 0 {
        return Err(SvnError::new("usage", "未指定要清除的凭据", "", "请选择一条凭据或「全部清除」。"));
    }
    let mut args = args_of(&["auth", "--remove"]);
    extend_args(&mut args, patterns);
    Ok(args)
}

/// The result of `svn auth --remove`: success, or a failure that only
/// says nothing matched (E200009), is done; another failure is an error.
pub fn auth_remove_outcome(count: usize, success: bool, stdout: String, stderr: String) -> (res:
    Result<TaskResult, SvnError>)
    ensures
        success ==> (res matches Ok(t) && t.deep_view() == crate::models::TaskResultModel {
            ok: true,
            summary: "已清除 "@ + decimal(count as nat) + " 条模式匹配的凭据"@,
            stdout: stdout@,
            stderr: stderr@,
        }),
        !success && crate::text::contains(stderr@, "E200009"@) ==> (res matches Ok(t)
            && t.deep_view() == crate::models::TaskResultModel {
            ok: true,
            summary: "凭据缓存已清除（或原本不存在匹配项）"@,
            stdout: stdout@,
            stderr: stderr@,
        }),
        !success && !crate::text::contains(stderr@, "E200009"@) ==> (res matches Err(e)
            && e.deep_view() == crate::models::from_svn_spec(stderr@, "清除认证缓存"@)),
{
    if !success {
        let cs = chars_of(stderr.as_str());
        if crate::text::contains_exec(cs.as_slice(), "E200009") {
            return Ok(
                TaskResult {
                    ok: true,
                    summary: lit("凭据缓存已清除（或原本不存在匹配项）"),
                    stdout,
                    stderr,
                },
            );
        }
        return Err(SvnError::from_svn(stderr.as_str(), "清除认证缓存"));
    }
    Ok(
        TaskResult {
            ok: true,
            summary: count_summary("已清除 ", count, " 条模式匹配的凭据"),
            stdout,
            stderr,
        },
    )
}

// ---------------------------------------------------------------------------
// background tasks
// ---------------------------------------------------------------------------

/// The summary of a finished background task: the last non-blank line of
/// its output, trimmed, or "完成".
pub fn task_summary(stdout_bytes: &[u8]) -> (res: String)
    ensures
        res@ == last_nonblank(lines(crate::text::lossy_text(stdout_bytes@)), "完成"@),
{
    let s = crate::text::lossy_string(stdout_bytes);
    last_nonblank_line(s.as_str(), "完成")
}

/// How a background task ends: done with its summary when the command
/// succeeded; cancelled when it was cancelled; otherwise failed, with the
/// error's summary and detail as output.
pub fn task_outcome(r: &Result<Vec<u8>, SvnError>) -> (res: (TaskState, String, Option<String>))
    ensures
        match r {
            Ok(b) => res.0 == TaskState::Done && res.1@ == Seq::<char>::empty() && (res.2 matches Some(
                t,
            ) && t@ == last_nonblank(lines(crate::text::lossy_text(b@)), "完成"@)),
            Err(e) => if e.category@ == "cancelled"@ {
                res.0 == TaskState::Cancelled && res.1@ == Seq::<char>::empty() && res.2 is None
            } else {
                res.0 == TaskState::Failed && res.1@ == e.summary@ + "："@ + e.detail@ && res.2 is None
            },
        },
{
    match r {
        Ok(b) => (TaskState::Done, String::new(), Some(task_summary(b.as_slice()))),
        Err(e) => {
            let cat = chars_of(e.category.as_str());
            if crate::text::eq_str(cat.as_slice(), "cancelled") {
                (TaskState::Cancelled, String::new(), None)
            } else {
                let mut out = lit(e.summary.as_str());
                push_str(&mut out, "：");
                push_str(&mut out, e.detail.as_str());
                (TaskState::Failed, out, None)
            }
        },
    }
}

// ---------------------------------------------------------------------------
// working copy files
// ---------------------------------------------------------------------------

/// Whether svn's status lists the path as unversioned.
pub fn has_unversioned(status: &Vec<crate::models::StatusEntry>) -> (res: bool)
    ensures
        res == exists|i: int| 0 <= i < status@.len() && #[trigger] status@[i].item@ == "unversioned"@,
{
    let mut i: usize = 0;
    while i < status.len()
        invariant
            i <= status@.len(),
            forall|j: int| 0 <= j < i ==> #[trigger] status@[j].item@ != "unversioned"@,
        decreases status@.len() - i,
    {
        let cs = chars_of(status[i].item.as_str());
        if crate::text::eq_str(cs.as_slice(), "unversioned") {
            return true;
        }
        i = i + 1;
    }
    false
}

/// The two sides of a side-by-side diff: the base text (none for an
/// unversioned file) and the working file, decoded leniently; binary when
/// either side holds a NUL byte.
pub fn file_pair(base: Option<&[u8]>, working: &[u8]) -> (res: crate::models::FilePair)
    ensures
        res.old_text@ == match base {
            Some(b) => crate::text::lossy_text(b@),
            None => Seq::<char>::empty(),
        },
        res.new_text@ == crate::text::lossy_text(working@),
        res.is_binary == (match base {
            Some(b) => b@.contains(0u8),
            None => false,
        } || working@.contains(0u8)),
        res.is_unversioned == base is None,
{
    let (old_text, old_is_binary) = match base {
        Some(b) => (crate::text::lossy_string(b), crate::parser::is_binary(b)),
        None => (String::new(), false),
    };
    let new_is_binary = crate::parser::is_binary(working);
    crate::models::FilePair {
        old_text,
        new_text: crate::text::lossy_string(working),
        is_binary: old_is_binary || new_is_binary,
        is_unversioned: base.is_none(),
    }
}

// ---------------------------------------------------------------------------
// local directories before an import
// ---------------------------------------------------------------------------

/// ASCII lower case of a character.
pub open spec fn ascii_lower(c: char) -> char {
    if 'A' <= c && c <= 'Z' {
        ((c as u32) + 32) as char
    } else {
        c
    }
}

/// ASCII lower case of a name (`str::to_ascii_lowercase`).
pub open spec fn lower_name(s: Seq<char>) -> Seq<char> {
    Seq::new(s.len(), |i: int| ascii_lower(s[i]))
}

/// `s` ends with `t`.
pub open spec fn ends_with(s: Seq<char>, t: Seq<char>) -> bool {
    t.len() <= s.len() && s.skip(s.len() - t.len()) == t
}

/// A file that usually should not be imported: `.DS_Store`, `Thumbs.db`,
/// or a name ending in `.pyc`, `.err`, `.tmp`, `.swp` or `~` (in any case).
pub open spec fn is_junk_name(name: Seq<char>) -> bool {
    let n = lower_name(name);
    n == ".ds_store"@ || n == "thumbs.db"@ || ends_with(n, ".pyc"@) || ends_with(n, ".err"@)
        || ends_with(n, ".tmp"@) || ends_with(n, ".swp"@) || ends_with(n, "~"@)
}

fn lower_chars(s: &str) -> (res: Vec<char>)
    ensures
        res@ == lower_name(s@),
{
    let cs = chars_of(s);
    let mut out: Vec<char> = Vec::new();
    let mut i: usize = 0;
    while i < cs.len()
        invariant
            cs@ == s@,
            i <= cs@.len(),
            out@ == Seq::new(i as nat, |k: int| ascii_lower(cs@[k])),
        decreases cs@.len() - i,
    {
        let c = cs[i];
        let l = if 'A' <= c && c <= 'Z' {
            crate::text::ascii_lower_exec(c)
        } else {
            c
        };
        out.push(l);
        i = i + 1;
        assert(out@ =~= Seq::new(i as nat, |k: int| ascii_lower(cs@[k])));
    }
    out
}

fn ends_with_exec(s: &[char], t: &str) -> (res: bool)
    ensures
        res == ends_with(s@, t@),
{
    let tc = chars_of(t);
    if tc.len() > s.len() {
        return false;
    }
    let r = crate::text::occurs_at_exec(s, tc.as_slice(), s.len() - tc.len());
    assert(s@.subrange(s@.len() - tc@.len(), s@.len() as int) =~= s@.skip(s@.len() - tc@.len()));
    r
}

/// Whether a file name looks like junk that should not be imported.
pub fn is_junk(name: &str) -> (res: bool)
    ensures
        res == is_junk_name(name@),
{
    let n = lower_chars(name);
    let a = n.as_slice();
    crate::text::eq_str(a, ".ds_store") || crate::text::eq_str(a, "thumbs.db") || ends_with_exec(
        a,
        ".pyc",
    ) || ends_with_exec(a, ".err") || ends_with_exec(a, ".tmp") || ends_with_exec(a, ".swp")
        || ends_with_exec(a, "~")
}

/// Files above 5 MiB are reported as big.
pub const BIG_FILE_BYTES: u64 = 5242880;

/// Whether a file of `size` bytes is reported as big.
pub fn is_big_file(size: u64) -> (res: bool)
    ensures
        res == (size > 5 * 1024 * 1024),
{
    size > BIG_FILE_BYTES
}

/// A directory to import must exist as a directory.
pub open spec fn not_a_directory(path: Seq<char>) -> SvnErrorModel {
    error_model("usage"@, "不是有效的目录"@, path, "请选择要导入的本地目录。"@)
}

/// The error for a path that is not a directory.
pub fn not_a_directory_error(path: &str) -> (res: SvnError)
    ensures
        res.deep_view() == not_a_directory(path@),
{
    SvnError::new("usage", "不是有效的目录", path, "请选择要导入的本地目录。")
}

// ---------------------------------------------------------------------------
// repository layout
// ---------------------------------------------------------------------------

/// `s` without the trailing `c`s (`str::trim_end_matches`).
pub open spec fn trim_end_char(s: Seq<char>, c: char) -> Seq<char>
    decreases s.len(),
{
    if s.len() > 0 && s.last() == c {
        trim_end_char(s.drop_last(), c)
    } else {
        s
    }
}

fn trim_end_char_exec(s: &[char], c: char) -> (res: Vec<char>)
    ensures
        res@ == trim_end_char(s@, c),
{
    let mut n: usize = s.len();
    assert(s@.take(n as int) =~= s@);
    while n > 0 && s[n - 1] == c
        invariant
            n <= s@.len(),
            trim_end_char(s@, c) == trim_end_char(s@.take(n as int), c),
        decreases n,
    {
        assert(s@.take(n as int).drop_last() =~= s@.take(n - 1));
        n = n - 1;
    }
    crate::text::slice_to_vec(s, 0, n)
}

/// The URL of a standard directory (`trunk`, `branches`, `tags`) under
/// the repository root, whatever slashes the root ends with.
pub fn layout_url(root_url: &str, sub: &str) -> (res: String)
    ensures
        res@ == trim_end_char(root_url@, '/') + "/"@ + sub@,
{
    let cs = chars_of(root_url);
    let t = trim_end_char_exec(cs.as_slice(), '/');
    let mut s = string_of(t.as_slice());
    push_str(&mut s, "/");
    push_str(&mut s, sub);
    s
}

/// The directory names of a plain `svn list`: each line without its
/// trailing slashes, blank ones left out.
pub open spec fn dir_names_spec(ls: Seq<Seq<char>>) -> Seq<Seq<char>>
    decreases ls.len(),
{
    if ls.len() == 0 {
        seq![]
    } else {
        let rest = dir_names_spec(ls.drop_last());
        let n = trim_end_char(ls.last(), '/');
        if n.len() > 0 {
            rest.push(n)
        } else {
            rest
        }
    }
}

/// The names listed by `svn list` of a directory.
pub fn dir_names(listing: &str) -> (res: Vec<String>)
    ensures
        strs(res@) == dir_names_spec(lines(listing@)),
{
    let cs = chars_of(listing);
    let ls = lines_of(cs.as_slice());
    let ghost lv = views(ls@);
    let mut res: Vec<String> = Vec::new();
    let mut i: usize = 0;
    assert(strs(res@) =~= dir_names_spec(lv.take(0)));
    while i < ls.len()
        invariant
            lv == views(ls@),
            i <= ls@.len(),
            strs(res@) == dir_names_spec(lv.take(i as int)),
        decreases ls@.len() - i,
    {
        let t = trim_end_char_exec(ls[i].as_slice(), '/');
        assert(lv.take(i + 1).drop_last() =~= lv.take(i as int));
        assert(lv.take(i + 1).last() == ls@[i as int]@);
        if t.len() > 0 {
            let ghost before = strs(res@);
            res.push(string_of(t.as_slice()));
            assert(strs(res@) =~= before.push(t@));
        }
        i = i + 1;
    }
    assert(lv.take(ls@.len() as int) =~= lv);
    res
}

// ---------------------------------------------------------------------------
// working copy commands
// ---------------------------------------------------------------------------

/// Whether an input is blank (empty or white space only).
pub fn is_blank(s: &str) -> (res: bool)
    ensures
        res == (trim(s@).len() == 0),
{
    let t = trim_string(s);
    t.as_str().is_empty()
}

/// Arguments of `svn commit -F FILE --encoding utf-8 PATHS`.  The message
/// is declared UTF-8: under `LC_ALL=C` svn would not convert it otherwise.
pub fn commit_args(file: &str, paths: &Vec<String>) -> (res: Vec<String>)
    ensures
        strs(res@) == seq!["commit"@, "-F"@, file@, "--encoding"@, "utf-8"@] + strs(paths@),
{
    let mut args = args_of(&["commit", "-F"]);
    push_arg(&mut args, lit(file));
    push_lit(&mut args, "--encoding");
    push_lit(&mut args, "utf-8");
    extend_args(&mut args, paths);
    args
}

/// Arguments of `svn commit --changelist NAME`; a blank name is refused.
pub fn commit_changelist_args(name: &str, file: &str) -> (res: Result<Vec<String>, SvnError>)
    ensures
        res is Err <==> trim(name@).len() == 0,
        res matches Err(e) ==> e.deep_view() == usage_error("变更集名称不能为空"@),
        res matches Ok(a) ==> strs(a@) == seq![
            "commit"@,
            "--changelist"@,
            name@,
            "--encoding"@,
            "utf-8"@,
            "-F"@,
            file@,
        ],
{
    if is_blank(name) {
        return Err(SvnError::new("usage", "变更集名称不能为空", "", ""));
    }
    let mut args = args_of(&["commit", "--changelist"]);
    push_arg(&mut args, lit(name));
    push_lit(&mut args, "--encoding");
    push_lit(&mut args, "utf-8");
    push_lit(&mut args, "-F");
    push_arg(&mut args, lit(file));
    Ok(args)
}

/// Arguments of `svn propset NAME -F FILE PATH`; a blank property name
/// is refused.
pub fn propset_args(path: &str, name: &str, file: &str) -> (res: Result<Vec<String>, SvnError>)
    ensures
        res is Err <==> trim(name@).len() == 0,
        res matches Err(e) ==> e.deep_view() == error_model(
            "usage"@,
            "属性名不能为空"@,
            ""@,
            "请输入要设置的属性名（如 svn:ignore）。"@,
        ),
        res matches Ok(a) ==> strs(a@) == seq!["propset"@, name@, "-F"@, file@, path@],
{
    if is_blank(name) {
        return Err(
            SvnError::new("usage", "属性名不能为空", "", "请输入要设置的属性名（如 svn:ignore）。"),
        );
    }
    let mut args = args_of(&["propset"]);
    push_arg(&mut args, lit(name));
    push_lit(&mut args, "-F");
    push_arg(&mut args, lit(file));
    push_arg(&mut args, lit(path));
    Ok(args)
}

/// Arguments of `svn lock [-F FILE] PATHS`: the comment file only for a
/// comment that is not blank.  No path is refused.
pub fn lock_args(paths: &Vec<String>, comment: &str, file: &str) -> (res: Result<
    Vec<String>,
    SvnError,
>)
    ensures
        res is Err <==> paths@.len() == 0,
        res matches Err(e) ==> e.deep_view() == usage_error("未选择要锁定的路径"@),
        res matches Ok(a) ==> strs(a@) == seq!["lock"@] + (if trim(comment@).len() > 0 {
            seq!["-F"@, file@]
        } else {
            seq![]
        }) + strs(paths@),
{
    if paths.len() == 0 {
        return Err(SvnError::new("usage", "未选择要锁定的路径", "", ""));
    }
    let mut args = args_of(&["lock"]);
    if !is_blank(comment) {
        push_lit(&mut args, "-F");
        push_arg(&mut args, lit(file));
    }
    extend_args(&mut args, paths);
    Ok(args)
}

/// Arguments of `svn unlock [--force] PATHS`; no path is refused.
pub fn unlock_args(paths: &Vec<String>, force: bool) -> (res: Result<Vec<String>, SvnError>)
    ensures
        res is Err <==> paths@.len() == 0,
        res matches Err(e) ==> e.deep_view() == usage_error("未选择要解锁的路径"@),
        res matches Ok(a) ==> strs(a@) == seq!["unlock"@] + (if force {
            seq!["--force"@]
        } else {
            seq![]
        }) + strs(paths@),
{
    if paths.len() == 0 {
        return Err(SvnError::new("usage", "未选择要解锁的路径", "", ""));
    }
    let mut args = args_of(&["unlock"]);
    if force {
        push_lit(&mut args, "--force");
    }
    extend_args(&mut args, paths);
    Ok(args)
}

/// Arguments of `svn move SRC DST`; a blank source or destination is
/// refused.
pub fn move_args(src: &str, dst: &str) -> (res: Result<Vec<String>, SvnError>)
    ensures
        res is Err <==> (trim(src@).len() == 0 || trim(dst@).len() == 0),
        res matches Err(e) ==> e.deep_view() == usage_error("源路径与目标路径不能为空"@),
        res matches Ok(a) ==> strs(a@) == seq!["move"@, src@, dst@],
{
    if is_blank(src) || is_blank(dst) {
        return Err(SvnError::new("usage", "源路径与目标路径不能为空", "", ""));
    }
    let mut args = args_of(&["move"]);
    push_arg(&mut args, lit(src));
    push_arg(&mut args, lit(dst));
    Ok(args)
}

/// Arguments of `svn propset --revprop -r REV svn:log -F FILE URL`, which
/// edits the message of a commit.
pub fn set_log_args(url: &str, rev: i64, file: &str) -> (res: Vec<String>)
    ensures
        strs(res@) == seq![
            "propset"@,
            "--revprop"@,
            "-r"@,
            decimal_int(rev as int),
            "svn:log"@,
            "-F"@,
            file@,
            url@,
        ],
{
    let mut args = args_of(&["propset", "--revprop", "-r"]);
    push_arg(&mut args, i64_string(rev));
    push_lit(&mut args, "svn:log");
    push_lit(&mut args, "-F");
    push_arg(&mut args, lit(file));
    push_arg(&mut args, lit(url));
    args
}

/// Arguments of `svn patch FILE PATH`; a blank patch is refused.
pub fn patch_args(path: &str, patch_text: &str, file: &str) -> (res: Result<Vec<String>, SvnError>)
    ensures
        res is Err <==> trim(patch_text@).len() == 0,
        res matches Err(e) ==> e.deep_view() == usage_error("补丁内容为空"@),
        res matches Ok(a) ==> strs(a@) == seq!["patch"@, file@, path@],
{
    if is_blank(patch_text) {
        return Err(SvnError::new("usage", "补丁内容为空", "", ""));
    }
    let mut args = args_of(&["patch"]);
    push_arg(&mut args, lit(file));
    push_arg(&mut args, lit(path));
    Ok(args)
}

/// Arguments of `svn delete --force PATHS`; no path is refused.
pub fn delete_args(paths: &Vec<String>) -> (res: Result<Vec<String>, SvnError>)
    ensures
        res is Err <==> paths@.len() == 0,
        res matches Err(e) ==> e.deep_view() == error_model(
            "io"@,
            "未选择要删除的路径"@,
            ""@,
            "请先勾选要删除的文件或文件夹。"@,
        ),
        res matches Ok(a) ==> strs(a@) == seq!["delete"@, "--force"@] + strs(paths@),
{
    if paths.len() == 0 {
        return Err(
            SvnError::new("io", "未选择要删除的路径", "", "请先勾选要删除的文件或文件夹。"),
        );
    }
    let mut args = args_of(&["delete", "--force"]);
    extend_args(&mut args, paths);
    Ok(args)
}

/// Arguments of `svn resolve --accept POLICY PATHS`; no path is refused.
pub fn resolve_args(paths: &Vec<String>, accept: &str) -> (res: Result<Vec<String>, SvnError>)
    ensures
        res is Err <==> paths@.len() == 0,
        res matches Err(e) ==> e.deep_view() == error_model(
            "io"@,
            "未选择要解决的路径"@,
            ""@,
            "请先勾选 conflicted 状态的路径。"@,
        ),
        res matches Ok(a) ==> strs(a@) == seq!["resolve"@, "--accept"@, accept@] + strs(paths@),
{
    if paths.len() == 0 {
        return Err(
            SvnError::new("io", "未选择要解决的路径", "", "请先勾选 conflicted 状态的路径。"),
        );
    }
    let mut args = args_of(&["resolve", "--accept"]);
    push_arg(&mut args, lit(accept));
    extend_args(&mut args, paths);
    Ok(args)
}

/// Arguments of a command on several paths: `svn add --parents PATHS`,
/// `svn revert PATHS` and the like.
pub fn paths_args(head: &[&str], paths: &Vec<String>) -> (res: Vec<String>)
    ensures
        strs(res@) == Seq::new(head@.len(), |i: int| head@[i]@) + strs(paths@),
{
    let mut args = args_of(head);
    extend_args(&mut args, paths);
    args
}

} // verus!
