//! Parsers of svn output: `info`, `list`, `log`, `status` and `proplist`
//! in XML form, `blame` and `auth` as text.
//!
//! The XML parsers are tolerant: unknown elements are skipped and missing
//! fields keep their defaults; only an XML error fails the whole parse.
//! Each keeps a stack of open element names so that text is attached to
//! the field of the innermost element.

use vstd::prelude::*;

use crate::models::{
    AuthCred, AuthCredModel, BlameLine, BlameLineModel, ChangePath, ChangePathModel, ListEntry, ListEntryModel, LogEntry, LogEntryModel, PropEntry,
    PropEntryModel, RepoInfo, RepoInfoModel, StatusEntry, StatusEntryModel, WcInfo,
};
use crate::text::{
    char_from_u32, chars_of, find_char, is_scalar_value, join, join_chars, lines, lines_of, lit,
    lossy_string, parse_i64, parse_i64_exec, push_char, push_chars, push_str, starts_with,
    starts_with_exec, string_of, trim, trim_chars, lossy_text, views, ws_tokens, ws_tokens_of,
};
use crate::xml::{attr, attr_of, str_is, xml_events, xml_tokenize, EventModel, XmlEvent};

verus! {

// ---------------------------------------------------------------------------
// shared pieces
// ---------------------------------------------------------------------------

/// The innermost open element, or the empty name.
pub open spec fn top(stack: Seq<Seq<char>>) -> Seq<char> {
    if stack.len() > 0 {
        stack.last()
    } else {
        seq![]
    }
}

/// The stack after an end tag (popping an empty stack does nothing).
pub open spec fn popped(stack: Seq<Seq<char>>) -> Seq<Seq<char>> {
    if stack.len() > 0 {
        stack.drop_last()
    } else {
        stack
    }
}

/// An optional attribute read as an integer (`None` when absent or not a
/// number).
pub open spec fn int_attr(a: Option<Seq<char>>) -> Option<i64> {
    match a {
        Some(s) => parse_i64(s),
        None => None,
    }
}

/// An optional attribute, empty when absent.
pub open spec fn or_empty(a: Option<Seq<char>>) -> Seq<char> {
    match a {
        Some(s) => s,
        None => seq![],
    }
}

fn top_is(stack: &Vec<String>, name: &str) -> (res: bool)
    ensures
        res == (top(stack.deep_view()) == name@),
{
    if stack.len() > 0 {
        str_is(stack[stack.len() - 1].as_str(), name)
    } else {
        let e = String::new();
        str_is(e.as_str(), name)
    }
}

fn pop_stack(stack: &mut Vec<String>)
    ensures
        final(stack).deep_view() == popped(old(stack).deep_view()),
{
    if stack.len() > 0 {
        stack.pop();
        assert(stack.deep_view() =~= old(stack).deep_view().drop_last());
    }
}

fn push_stack(stack: &mut Vec<String>, name: &String)
    ensures
        final(stack).deep_view() == old(stack).deep_view().push(name@),
{
    stack.push(name.clone());
    assert(stack.deep_view() =~= old(stack).deep_view().push(name@));
}

fn int_attr_exec(a: &Option<String>) -> (res: Option<i64>)
    ensures
        res == int_attr(a.deep_view()),
{
    match a {
        Some(s) => {
            let cs = chars_of(s.as_str());
            parse_i64_exec(cs.as_slice())
        },
        None => None,
    }
}

fn or_empty_exec(a: Option<String>) -> (res: String)
    ensures
        res@ == or_empty(a.deep_view()),
{
    match a {
        Some(s) => s,
        None => String::new(),
    }
}

/// The error text of a failed XML parse: what went wrong, then the raw
/// output for diagnosis.
pub open spec fn xml_error(what: Seq<char>, msg: Seq<char>, raw: Seq<u8>) -> Seq<char> {
    what + " XML 解析失败："@ + msg + "\n原始输出：\n"@ + lossy_text(raw)
}

fn xml_error_exec(what: &str, msg: &String, raw: &[u8]) -> (res: String)
    ensures
        res@ == xml_error(what@, msg@, raw@),
{
    let mut s = String::new();
    push_str(&mut s, what);
    push_str(&mut s, " XML 解析失败：");
    push_str(&mut s, msg.as_str());
    push_str(&mut s, "\n原始输出：\n");
    let r = lossy_string(raw);
    push_str(&mut s, r.as_str());
    assert(s@ =~= xml_error(what@, msg@, raw@));
    s
}

// ---------------------------------------------------------------------------
// svn info --xml
// ---------------------------------------------------------------------------

pub struct InfoScan {
    pub info: RepoInfoModel,
    pub stack: Seq<Seq<char>>,
    pub in_commit: bool,
    pub in_wcinfo: bool,
}

pub open spec fn empty_info() -> RepoInfoModel {
    RepoInfoModel {
        root_url: seq![],
        url: seq![],
        relative_url: seq![],
        uuid: seq![],
        revision: None,
        last_author: seq![],
        last_date: seq![],
        is_wc: false,
        wc_root: seq![],
        entry_count: 0,
    }
}

/// One event of `svn info --xml`.  `<entry revision>` sets the revision,
/// `<commit revision>` overrides it when it is a number, `<wc-info>` marks
/// a working copy; text goes to the field of the innermost element.
pub open spec fn info_step(st: InfoScan, ev: EventModel) -> InfoScan {
    match ev {
        EventModel::Start(t) => {
            let info = st.info;
            let st1 = if t.name == "entry"@ {
                InfoScan {
                    info: RepoInfoModel { revision: int_attr(attr_of(t, "revision"@)), ..info },
                    ..st
                }
            } else if t.name == "commit"@ {
                let rev = match attr_of(t, "revision"@) {
                    Some(r) => match parse_i64(r) {
                        Some(v) => Some(v),
                        None => info.revision,
                    },
                    None => info.revision,
                };
                InfoScan { in_commit: true, info: RepoInfoModel { revision: rev, ..info }, ..st }
            } else if t.name == "wc-info"@ {
                InfoScan { in_wcinfo: true, info: RepoInfoModel { is_wc: true, ..info }, ..st }
            } else {
                st
            };
            InfoScan { stack: st1.stack.push(t.name), ..st1 }
        },
        EventModel::Text(x) => {
            let info = st.info;
            let cur = top(st.stack);
            let info1 = if cur == "root"@ && st.stack.len() >= 2 {
                RepoInfoModel { root_url: x, ..info }
            } else if cur == "uuid"@ {
                RepoInfoModel { uuid: x, ..info }
            } else if cur == "url"@ {
                RepoInfoModel { url: x, ..info }
            } else if cur == "relative-url"@ {
                RepoInfoModel { relative_url: x, ..info }
            } else if cur == "wcroot-abspath"@ && st.in_wcinfo {
                RepoInfoModel { wc_root: x, ..info }
            } else if cur == "author"@ && st.in_commit {
                RepoInfoModel { last_author: x, ..info }
            } else if cur == "date"@ && st.in_commit {
                RepoInfoModel { last_date: x, ..info }
            } else {
                info
            };
            InfoScan { info: info1, ..st }
        },
        EventModel::End(n) => {
            let st1 = if n == "commit"@ {
                InfoScan { in_commit: false, ..st }
            } else if n == "wc-info"@ {
                InfoScan { in_wcinfo: false, ..st }
            } else {
                st
            };
            InfoScan { stack: popped(st1.stack), ..st1 }
        },
        _ => st,
    }
}

/// The events up to `Eof` (or their end); the first error fails.
pub open spec fn info_run(evs: Seq<EventModel>, st: InfoScan) -> Result<InfoScan, Seq<char>>
    decreases evs.len(),
{
    if evs.len() == 0 {
        Ok(st)
    } else {
        match evs[0] {
            EventModel::Eof => Ok(st),
            EventModel::Error(m) => Err(m),
            _ => info_run(evs.drop_first(), info_step(st, evs[0])),
        }
    }
}

/// What `svn info --xml` events give: the info, or the reader's error.
pub open spec fn info_result(evs: Seq<EventModel>) -> Result<RepoInfoModel, Seq<char>> {
    match info_run(
        evs,
        InfoScan { info: empty_info(), stack: seq![], in_commit: false, in_wcinfo: false },
    ) {
        Ok(st) => Ok(st.info),
        Err(m) => Err(m),
    }
}

struct InfoState {
    info: RepoInfo,
    stack: Vec<String>,
    in_commit: bool,
    in_wcinfo: bool,
}

impl InfoState {
    spec fn model(&self) -> InfoScan {
        InfoScan {
            info: self.info.deep_view(),
            stack: self.stack.deep_view(),
            in_commit: self.in_commit,
            in_wcinfo: self.in_wcinfo,
        }
    }
}

fn info_step_exec(st: &mut InfoState, ev: &XmlEvent)
    ensures
        final(st).model() == info_step(old(st).model(), ev.deep_view()),
{
    match ev {
        XmlEvent::Start(t) => {
            if str_is(t.name.as_str(), "entry") {
                let a = attr(t, "revision");
                st.info.revision = int_attr_exec(&a);
            } else if str_is(t.name.as_str(), "commit") {
                st.in_commit = true;
                let a = attr(t, "revision");
                match a {
                    Some(r) => {
                        let cs = chars_of(r.as_str());
                        match parse_i64_exec(cs.as_slice()) {
                            Some(v) => {
                                st.info.revision = Some(v);
                            },
                            None => {},
                        }
                    },
                    None => {},
                }
            } else if str_is(t.name.as_str(), "wc-info") {
                st.in_wcinfo = true;
                st.info.is_wc = true;
            }
            push_stack(&mut st.stack, &t.name);
        },
        XmlEvent::Text(x) => {
            let n = st.stack.len();
            if top_is(&st.stack, "root") && n >= 2 {
                st.info.root_url = x.clone();
            } else if top_is(&st.stack, "uuid") {
                st.info.uuid = x.clone();
            } else if top_is(&st.stack, "url") {
                st.info.url = x.clone();
            } else if top_is(&st.stack, "relative-url") {
                st.info.relative_url = x.clone();
            } else if top_is(&st.stack, "wcroot-abspath") && st.in_wcinfo {
                st.info.wc_root = x.clone();
            } else if top_is(&st.stack, "author") && st.in_commit {
                st.info.last_author = x.clone();
            } else if top_is(&st.stack, "date") && st.in_commit {
                st.info.last_date = x.clone();
            }
        },
        XmlEvent::End(n) => {
            if str_is(n.as_str(), "commit") {
                st.in_commit = false;
            } else if str_is(n.as_str(), "wc-info") {
                st.in_wcinfo = false;
            }
            pop_stack(&mut st.stack);
        },
        _ => {},
    }
}

/// Builds the info from the events of `svn info --xml`; `raw` is the
/// output the events were read from, quoted in the error.
pub fn info_from_events(events: &Vec<XmlEvent>, raw: &[u8]) -> (res: Result<RepoInfo, String>)
    ensures
        match (res, info_result(events.deep_view())) {
            (Ok(i), Ok(m)) => i.deep_view() == m,
            (Err(e), Err(m)) => e@ == xml_error("info"@, m, raw@),
            _ => false,
        },
{
    let ghost evs = events.deep_view();
    let mut st = InfoState {
        info: RepoInfo {
            root_url: String::new(),
            url: String::new(),
            relative_url: String::new(),
            uuid: String::new(),
            revision: None,
            last_author: String::new(),
            last_date: String::new(),
            is_wc: false,
            wc_root: String::new(),
            entry_count: 0,
        },
        stack: Vec::new(),
        in_commit: false,
        in_wcinfo: false,
    };
    assert(st.model().stack =~= Seq::<Seq<char>>::empty());
    assert(st.model() == InfoScan {
        info: empty_info(),
        stack: seq![],
        in_commit: false,
        in_wcinfo: false,
    });
    let mut i: usize = 0;
    assert(evs.skip(0) =~= evs);
    while i < events.len()
        invariant
            evs == events.deep_view(),
            i <= events@.len(),
            info_run(evs.skip(i as int), st.model()) == info_run(
                evs,
                InfoScan { info: empty_info(), stack: seq![], in_commit: false, in_wcinfo: false },
            ),
        decreases events@.len() - i,
    {
        assert(evs.skip(i as int).drop_first() =~= evs.skip(i + 1));
        assert(evs.skip(i as int)[0] == events@[i as int].deep_view());
        match &events[i] {
            XmlEvent::Eof => {
                return Ok(st.info);
            },
            XmlEvent::Error(m) => {
                return Err(xml_error_exec("info", m, raw));
            },
            _ => {},
        }
        info_step_exec(&mut st, &events[i]);
        i = i + 1;
    }
    assert(evs.skip(i as int) =~= Seq::<EventModel>::empty());
    Ok(st.info)
}

/// Parses `svn info --xml` (a URL or a working-copy directory).
pub fn parse_info(xml: &[u8]) -> (res: Result<RepoInfo, String>)
    ensures
        match (res, info_result(xml_events(xml@))) {
            (Ok(i), Ok(m)) => i.deep_view() == m,
            (Err(e), Err(m)) => e@ == xml_error("info"@, m, xml@),
            _ => false,
        },
{
    let events = xml_tokenize(xml);
    info_from_events(&events, xml)
}

// ---------------------------------------------------------------------------
// svn list --xml -v
// ---------------------------------------------------------------------------

pub struct ListScan {
    pub entries: Seq<ListEntryModel>,
    pub stack: Seq<Seq<char>>,
    pub cur: Option<ListEntryModel>,
    pub in_commit: bool,
}

/// One event of `svn list --xml -v`: `<entry kind>` opens an entry, whose
/// `<commit revision>`, name, size, author and date are collected until
/// `</entry>` appends it.
pub open spec fn list_step(st: ListScan, ev: EventModel) -> ListScan {
    match ev {
        EventModel::Start(t) => {
            let st1 = if t.name == "entry"@ {
                ListScan {
                    cur: Some(
                        ListEntryModel {
                            name: seq![],
                            kind: or_empty(attr_of(t, "kind"@)),
                            size: None,
                            revision: None,
                            author: seq![],
                            date: seq![],
                        },
                    ),
                    ..st
                }
            } else if t.name == "commit"@ {
                let cur = match (attr_of(t, "revision"@), st.cur) {
                    (Some(r), Some(c)) => Some(ListEntryModel { revision: parse_i64(r), ..c }),
                    _ => st.cur,
                };
                ListScan { in_commit: true, cur, ..st }
            } else {
                st
            };
            ListScan { stack: st1.stack.push(t.name), ..st1 }
        },
        EventModel::Text(x) => {
            let cur_name = top(st.stack);
            match st.cur {
                Some(c) => {
                    let c1 = if cur_name == "name"@ {
                        ListEntryModel { name: x, ..c }
                    } else if cur_name == "size"@ {
                        ListEntryModel { size: parse_i64(x), ..c }
                    } else if cur_name == "author"@ && st.in_commit {
                        ListEntryModel { author: x, ..c }
                    } else if cur_name == "date"@ && st.in_commit {
                        ListEntryModel { date: x, ..c }
                    } else {
                        c
                    };
                    ListScan { cur: Some(c1), ..st }
                },
                None => st,
            }
        },
        EventModel::End(n) => {
            let st1 = if n == "commit"@ {
                ListScan { in_commit: false, ..st }
            } else if n == "entry"@ {
                match st.cur {
                    Some(c) => ListScan { entries: st.entries.push(c), cur: None, ..st },
                    None => st,
                }
            } else {
                st
            };
            ListScan { stack: popped(st1.stack), ..st1 }
        },
        _ => st,
    }
}

pub open spec fn list_run(evs: Seq<EventModel>, st: ListScan) -> Result<ListScan, Seq<char>>
    decreases evs.len(),
{
    if evs.len() == 0 {
        Ok(st)
    } else {
        match evs[0] {
            EventModel::Eof => Ok(st),
            EventModel::Error(m) => Err(m),
            _ => list_run(evs.drop_first(), list_step(st, evs[0])),
        }
    }
}

pub open spec fn list_init() -> ListScan {
    ListScan { entries: seq![], stack: seq![], cur: None, in_commit: false }
}

/// What `svn list --xml -v` events give: the entries, or the reader's error.
pub open spec fn list_result(evs: Seq<EventModel>) -> Result<Seq<ListEntryModel>, Seq<char>> {
    match list_run(evs, list_init()) {
        Ok(st) => Ok(st.entries),
        Err(m) => Err(m),
    }
}

struct ListState {
    entries: Vec<ListEntry>,
    stack: Vec<String>,
    cur: Option<ListEntry>,
    in_commit: bool,
}

impl ListState {
    spec fn model(&self) -> ListScan {
        ListScan {
            entries: self.entries.deep_view(),
            stack: self.stack.deep_view(),
            cur: match self.cur {
                Some(c) => Some(c.deep_view()),
                None => None,
            },
            in_commit: self.in_commit,
        }
    }
}

fn list_step_exec(st: &mut ListState, ev: &XmlEvent)
    ensures
        final(st).model() == list_step(old(st).model(), ev.deep_view()),
{
    match ev {
        XmlEvent::Start(t) => {
            if str_is(t.name.as_str(), "entry") {
                st.cur = Some(
                    ListEntry {
                        name: String::new(),
                        kind: or_empty_exec(attr(t, "kind")),
                        size: None,
                        revision: None,
                        author: String::new(),
                        date: String::new(),
                    },
                );
            } else if str_is(t.name.as_str(), "commit") {
                st.in_commit = true;
                let a = attr(t, "revision");
                match a {
                    Some(r) => match st.cur.take() {
                        Some(mut c) => {
                            let cs = chars_of(r.as_str());
                            c.revision = parse_i64_exec(cs.as_slice());
                            st.cur = Some(c);
                        },
                        None => {},
                    },
                    None => {},
                }
            }
            push_stack(&mut st.stack, &t.name);
        },
        XmlEvent::Text(x) => {
            let is_name = top_is(&st.stack, "name");
            let is_size = top_is(&st.stack, "size");
            let is_author = top_is(&st.stack, "author");
            let is_date = top_is(&st.stack, "date");
            match st.cur.take() {
                Some(mut c) => {
                    if is_name {
                        c.name = x.clone();
                    } else if is_size {
                        let cs = chars_of(x.as_str());
                        c.size = parse_i64_exec(cs.as_slice());
                    } else if is_author && st.in_commit {
                        c.author = x.clone();
                    } else if is_date && st.in_commit {
                        c.date = x.clone();
                    }
                    st.cur = Some(c);
                },
                None => {},
            }
        },
        XmlEvent::End(n) => {
            if str_is(n.as_str(), "commit") {
                st.in_commit = false;
            } else if str_is(n.as_str(), "entry") {
                match st.cur.take() {
                    Some(c) => {
                        let ghost before = st.entries.deep_view();
                        let ghost cm = c.deep_view();
                        st.entries.push(c);
                        assert(st.entries.deep_view() =~= before.push(cm));
                    },
                    None => {},
                }
            }
            pop_stack(&mut st.stack);
        },
        _ => {},
    }
}

/// Builds the entries from the events of `svn list --xml -v`.
pub fn list_from_events(events: &Vec<XmlEvent>, raw: &[u8]) -> (res: Result<Vec<ListEntry>, String>)
    ensures
        match (res, list_result(events.deep_view())) {
            (Ok(v), Ok(m)) => v.deep_view() == m,
            (Err(e), Err(m)) => e@ == xml_error("list"@, m, raw@),
            _ => false,
        },
{
    let ghost evs = events.deep_view();
    let mut st = ListState {
        entries: Vec::new(),
        stack: Vec::new(),
        cur: None,
        in_commit: false,
    };
    assert(st.model() == list_init()) by {
        assert(st.entries.deep_view() =~= Seq::<ListEntryModel>::empty());
        assert(st.stack.deep_view() =~= Seq::<Seq<char>>::empty());
    }
    let mut i: usize = 0;
    assert(evs.skip(0) =~= evs);
    while i < events.len()
        invariant
            evs == events.deep_view(),
            i <= events@.len(),
            list_run(evs.skip(i as int), st.model()) == list_run(evs, list_init()),
        decreases events@.len() - i,
    {
        assert(evs.skip(i as int).drop_first() =~= evs.skip(i + 1));
        assert(evs.skip(i as int)[0] == events@[i as int].deep_view());
        match &events[i] {
            XmlEvent::Eof => {
                return Ok(st.entries);
            },
            XmlEvent::Error(m) => {
                return Err(xml_error_exec("list", m, raw));
            },
            _ => {},
        }
        list_step_exec(&mut st, &events[i]);
        i = i + 1;
    }
    assert(evs.skip(i as int) =~= Seq::<EventModel>::empty());
    Ok(st.entries)
}

/// Parses `svn list --xml -v`.
pub fn parse_list(xml: &[u8]) -> (res: Result<Vec<ListEntry>, String>)
    ensures
        match (res, list_result(xml_events(xml@))) {
            (Ok(v), Ok(m)) => v.deep_view() == m,
            (Err(e), Err(m)) => e@ == xml_error("list"@, m, xml@),
            _ => false,
        },
{
    let events = xml_tokenize(xml);
    list_from_events(&events, xml)
}

// ---------------------------------------------------------------------------
// svn log --xml -v
// ---------------------------------------------------------------------------

pub struct LogScan {
    pub entries: Seq<LogEntryModel>,
    pub stack: Seq<Seq<char>>,
    pub cur: Option<LogEntryModel>,
    pub cur_path: Option<ChangePathModel>,
}

/// One event of `svn log --xml -v`: `<logentry revision>` opens an entry
/// (revision 0 when missing), `<path kind action copyfrom-path
/// copyfrom-rev>` a changed path whose text is the path; `</path>` adds it
/// to the open entry, `</logentry>` appends the entry.
pub open spec fn log_step(st: LogScan, ev: EventModel) -> LogScan {
    match ev {
        EventModel::Start(t) => {
            let st1 = if t.name == "logentry"@ {
                LogScan {
                    cur: Some(
                        LogEntryModel {
                            revision: match int_attr(attr_of(t, "revision"@)) {
                                Some(v) => v,
                                None => 0,
                            },
                            author: seq![],
                            date: seq![],
                            msg: seq![],
                            changed_paths: seq![],
                        },
                    ),
                    ..st
                }
            } else if t.name == "path"@ {
                LogScan {
                    cur_path: Some(
                        ChangePathModel {
                            path: seq![],
                            kind: or_empty(attr_of(t, "kind"@)),
                            action: or_empty(attr_of(t, "action"@)),
                            copyfrom_path: or_empty(attr_of(t, "copyfrom-path"@)),
                            copyfrom_rev: int_attr(attr_of(t, "copyfrom-rev"@)),
                        },
                    ),
                    ..st
                }
            } else {
                st
            };
            LogScan { stack: st1.stack.push(t.name), ..st1 }
        },
        EventModel::Text(x) => {
            let cur_name = top(st.stack);
            if st.cur_path is Some && cur_name == "path"@ {
                LogScan { cur_path: Some(ChangePathModel { path: x, ..st.cur_path.unwrap() }), ..st }
            } else {
                match st.cur {
                    Some(c) => {
                        let c1 = if cur_name == "author"@ {
                            LogEntryModel { author: x, ..c }
                        } else if cur_name == "date"@ {
                            LogEntryModel { date: x, ..c }
                        } else if cur_name == "msg"@ {
                            LogEntryModel { msg: x, ..c }
                        } else {
                            c
                        };
                        LogScan { cur: Some(c1), ..st }
                    },
                    None => st,
                }
            }
        },
        EventModel::End(n) => {
            let st1 = if n == "path"@ {
                match (st.cur_path, st.cur) {
                    (Some(p), Some(c)) => LogScan {
                        cur_path: None,
                        cur: Some(LogEntryModel { changed_paths: c.changed_paths.push(p), ..c }),
                        ..st
                    },
                    _ => LogScan { cur_path: None, ..st },
                }
            } else if n == "logentry"@ {
                match st.cur {
                    Some(c) => LogScan { entries: st.entries.push(c), cur: None, ..st },
                    None => st,
                }
            } else {
                st
            };
            LogScan { stack: popped(st1.stack), ..st1 }
        },
        _ => st,
    }
}

pub open spec fn log_run(evs: Seq<EventModel>, st: LogScan) -> Result<LogScan, Seq<char>>
    decreases evs.len(),
{
    if evs.len() == 0 {
        Ok(st)
    } else {
        match evs[0] {
            EventModel::Eof => Ok(st),
            EventModel::Error(m) => Err(m),
            _ => log_run(evs.drop_first(), log_step(st, evs[0])),
        }
    }
}

pub open spec fn log_init() -> LogScan {
    LogScan { entries: seq![], stack: seq![], cur: None, cur_path: None }
}

/// What `svn log --xml -v` events give: the entries, or the reader's error.
pub open spec fn log_result(evs: Seq<EventModel>) -> Result<Seq<LogEntryModel>, Seq<char>> {
    match log_run(evs, log_init()) {
        Ok(st) => Ok(st.entries),
        Err(m) => Err(m),
    }
}

struct LogState {
    entries: Vec<LogEntry>,
    stack: Vec<String>,
    cur: Option<LogEntry>,
    cur_path: Option<ChangePath>,
}

impl LogState {
    spec fn model(&self) -> LogScan {
        LogScan {
            entries: self.entries.deep_view(),
            stack: self.stack.deep_view(),
            cur: match self.cur {
                Some(c) => Some(c.deep_view()),
                None => None,
            },
            cur_path: match self.cur_path {
                Some(p) => Some(p.deep_view()),
                None => None,
            },
        }
    }
}

fn log_step_exec(st: &mut LogState, ev: &XmlEvent)
    ensures
        final(st).model() == log_step(old(st).model(), ev.deep_view()),
{
    match ev {
        XmlEvent::Start(t) => {
            if str_is(t.name.as_str(), "logentry") {
                let rev = match int_attr_exec(&attr(t, "revision")) {
                    Some(v) => v,
                    None => 0,
                };
                st.cur = Some(
                    LogEntry {
                        revision: rev,
                        author: String::new(),
                        date: String::new(),
                        msg: String::new(),
                        changed_paths: Vec::new(),
                    },
                );
                assert(st.cur.unwrap().changed_paths.deep_view() =~= Seq::<ChangePathModel>::empty());
            } else if str_is(t.name.as_str(), "path") {
                st.cur_path = Some(
                    ChangePath {
                        path: String::new(),
                        kind: or_empty_exec(attr(t, "kind")),
                        action: or_empty_exec(attr(t, "action")),
                        copyfrom_path: or_empty_exec(attr(t, "copyfrom-path")),
                        copyfrom_rev: int_attr_exec(&attr(t, "copyfrom-rev")),
                    },
                );
            }
            push_stack(&mut st.stack, &t.name);
        },
        XmlEvent::Text(x) => {
            let is_path = top_is(&st.stack, "path");
            if st.cur_path.is_some() && is_path {
                match st.cur_path.take() {
                    Some(mut p) => {
                        p.path = x.clone();
                        st.cur_path = Some(p);
                    },
                    None => {},
                }
            } else {
                let is_author = top_is(&st.stack, "author");
                let is_date = top_is(&st.stack, "date");
                let is_msg = top_is(&st.stack, "msg");
                match st.cur.take() {
                    Some(mut c) => {
                        if is_author {
                            c.author = x.clone();
                        } else if is_date {
                            c.date = x.clone();
                        } else if is_msg {
                            c.msg = x.clone();
                        }
                        st.cur = Some(c);
                    },
                    None => {},
                }
            }
        },
        XmlEvent::End(n) => {
            if str_is(n.as_str(), "path") {
                let p = st.cur_path.take();
                match p {
                    Some(p) => match st.cur.take() {
                        Some(mut c) => {
                            let ghost before = c.changed_paths.deep_view();
                            let ghost pm = p.deep_view();
                            c.changed_paths.push(p);
                            assert(c.changed_paths.deep_view() =~= before.push(pm));
                            st.cur = Some(c);
                        },
                        None => {},
                    },
                    None => {},
                }
            } else if str_is(n.as_str(), "logentry") {
                match st.cur.take() {
                    Some(c) => {
                        let ghost before = st.entries.deep_view();
                        let ghost cm = c.deep_view();
                        st.entries.push(c);
                        assert(st.entries.deep_view() =~= before.push(cm));
                    },
                    None => {},
                }
            }
            pop_stack(&mut st.stack);
        },
        _ => {},
    }
}

/// Builds the entries from the events of `svn log --xml -v`.
pub fn log_from_events(events: &Vec<XmlEvent>, raw: &[u8]) -> (res: Result<Vec<LogEntry>, String>)
    ensures
        match (res, log_result(events.deep_view())) {
            (Ok(v), Ok(m)) => v.deep_view() == m,
            (Err(e), Err(m)) => e@ == xml_error("log"@, m, raw@),
            _ => false,
        },
{
    let ghost evs = events.deep_view();
    let mut st = LogState { entries: Vec::new(), stack: Vec::new(), cur: None, cur_path: None };
    assert(st.model() == log_init()) by {
        assert(st.entries.deep_view() =~= Seq::<LogEntryModel>::empty());
        assert(st.stack.deep_view() =~= Seq::<Seq<char>>::empty());
    }
    let mut i: usize = 0;
    assert(evs.skip(0) =~= evs);
    while i < events.len()
        invariant
            evs == events.deep_view(),
            i <= events@.len(),
            log_run(evs.skip(i as int), st.model()) == log_run(evs, log_init()),
        decreases events@.len() - i,
    {
        assert(evs.skip(i as int).drop_first() =~= evs.skip(i + 1));
        assert(evs.skip(i as int)[0] == events@[i as int].deep_view());
        match &events[i] {
            XmlEvent::Eof => {
                return Ok(st.entries);
            },
            XmlEvent::Error(m) => {
                return Err(xml_error_exec("log", m, raw));
            },
            _ => {},
        }
        log_step_exec(&mut st, &events[i]);
        i = i + 1;
    }
    assert(evs.skip(i as int) =~= Seq::<EventModel>::empty());
    Ok(st.entries)
}

/// Parses `svn log --xml -v`.
pub fn parse_log(xml: &[u8]) -> (res: Result<Vec<LogEntry>, String>)
    ensures
        match (res, log_result(xml_events(xml@))) {
            (Ok(v), Ok(m)) => v.deep_view() == m,
            (Err(e), Err(m)) => e@ == xml_error("log"@, m, xml@),
            _ => false,
        },
{
    let events = xml_tokenize(xml);
    log_from_events(&events, xml)
}

// ---------------------------------------------------------------------------
// svn status --xml
// ---------------------------------------------------------------------------

pub struct StatusScan {
    pub entries: Seq<StatusEntryModel>,
    pub stack: Seq<Seq<char>>,
    pub cur: Option<StatusEntryModel>,
    pub in_commit: bool,
    pub against: Option<i64>,
}

/// The attributes of `<wc-status>`: item, props, revision and whether the
/// working copy is locked (`wc-locked="true"`).
pub open spec fn with_wc_status(cur: Option<StatusEntryModel>, t: crate::xml::TagModel) -> Option<
    StatusEntryModel,
> {
    match cur {
        Some(c) => Some(
            StatusEntryModel {
                item: or_empty(attr_of(t, "item"@)),
                props: or_empty(attr_of(t, "props"@)),
                wc_revision: int_attr(attr_of(t, "revision"@)),
                wc_locked: attr_of(t, "wc-locked"@) == Some("true"@),
                ..c
            },
        ),
        None => None,
    }
}

/// One event of `svn status --xml`: `<entry path>` opens an entry;
/// `<wc-status>` (also self-closing), `<repos-status item>`, `<commit
/// revision>` with its author, and the owner and comment of a `<lock>`
/// fill it; `</entry>` appends it; `<against revision/>` is the latest
/// revision of the server (`status -u`).
pub open spec fn status_step(st: StatusScan, ev: EventModel) -> StatusScan {
    match ev {
        EventModel::Start(t) => {
            let st1 = if t.name == "entry"@ {
                StatusScan {
                    cur: Some(
                        StatusEntryModel {
                            path: or_empty(attr_of(t, "path"@)),
                            item: seq![],
                            props: seq![],
                            wc_revision: None,
                            commit_revision: None,
                            commit_author: seq![],
                            wc_locked: false,
                            lock_owner: seq![],
                            lock_comment: seq![],
                            repos_item: seq![],
                        },
                    ),
                    ..st
                }
            } else if t.name == "wc-status"@ {
                StatusScan { cur: with_wc_status(st.cur, t), ..st }
            } else if t.name == "repos-status"@ {
                match st.cur {
                    Some(c) => StatusScan {
                        cur: Some(
                            StatusEntryModel { repos_item: or_empty(attr_of(t, "item"@)), ..c },
                        ),
                        ..st
                    },
                    None => st,
                }
            } else if t.name == "commit"@ {
                match st.cur {
                    Some(c) => StatusScan {
                        in_commit: true,
                        cur: Some(
                            StatusEntryModel {
                                commit_revision: int_attr(attr_of(t, "revision"@)),
                                ..c
                            },
                        ),
                        ..st
                    },
                    None => StatusScan { in_commit: true, ..st },
                }
            } else {
                st
            };
            StatusScan { stack: st1.stack.push(t.name), ..st1 }
        },
        EventModel::Empty(t) => {
            let st1 = if t.name == "wc-status"@ {
                StatusScan { cur: with_wc_status(st.cur, t), ..st }
            } else {
                st
            };
            if t.name == "against"@ {
                StatusScan { against: int_attr(attr_of(t, "revision"@)), ..st1 }
            } else {
                st1
            }
        },
        EventModel::Text(x) => {
            let cur_el = top(st.stack);
            let cur1 = match st.cur {
                Some(c) => if st.in_commit && cur_el == "author"@ {
                    Some(StatusEntryModel { commit_author: x, ..c })
                } else {
                    Some(c)
                },
                None => None,
            };
            let cur2 = match cur1 {
                Some(c) => if cur_el == "owner"@ {
                    Some(StatusEntryModel { lock_owner: x, ..c })
                } else if cur_el == "comment"@ {
                    Some(StatusEntryModel { lock_comment: x, ..c })
                } else {
                    Some(c)
                },
                None => None,
            };
            StatusScan { cur: cur2, ..st }
        },
        EventModel::End(n) => {
            let st1 = if n == "commit"@ {
                StatusScan { in_commit: false, ..st }
            } else if n == "entry"@ {
                match st.cur {
                    Some(c) => StatusScan { entries: st.entries.push(c), cur: None, ..st },
                    None => st,
                }
            } else {
                st
            };
            StatusScan { stack: popped(st1.stack), ..st1 }
        },
        _ => st,
    }
}

pub open spec fn status_run(evs: Seq<EventModel>, st: StatusScan) -> Result<StatusScan, Seq<char>>
    decreases evs.len(),
{
    if evs.len() == 0 {
        Ok(st)
    } else {
        match evs[0] {
            EventModel::Eof => Ok(st),
            EventModel::Error(m) => Err(m),
            _ => status_run(evs.drop_first(), status_step(st, evs[0])),
        }
    }
}

pub open spec fn status_init() -> StatusScan {
    StatusScan { entries: seq![], stack: seq![], cur: None, in_commit: false, against: None }
}

/// What `svn status --xml` events give: the entries and the server's
/// latest revision, or the reader's error.
pub open spec fn status_result(evs: Seq<EventModel>) -> Result<
    (Seq<StatusEntryModel>, Option<i64>),
    Seq<char>,
> {
    match status_run(evs, status_init()) {
        Ok(st) => Ok((st.entries, st.against)),
        Err(m) => Err(m),
    }
}

struct StatusState {
    entries: Vec<StatusEntry>,
    stack: Vec<String>,
    cur: Option<StatusEntry>,
    in_commit: bool,
    against: Option<i64>,
}

impl StatusState {
    spec fn model(&self) -> StatusScan {
        StatusScan {
            entries: self.entries.deep_view(),
            stack: self.stack.deep_view(),
            cur: match self.cur {
                Some(c) => Some(c.deep_view()),
                None => None,
            },
            in_commit: self.in_commit,
            against: self.against,
        }
    }
}

fn read_wc_status(t: &crate::xml::XmlTag, cur: &mut Option<StatusEntry>)
    ensures
        (match *final(cur) {
            Some(c) => Some(c.deep_view()),
            None => None,
        }) == with_wc_status(
            match *old(cur) {
                Some(c) => Some(c.deep_view()),
                None => None,
            },
            t.deep_view(),
        ),
{
    match cur.take() {
        Some(mut c) => {
            c.item = or_empty_exec(attr(t, "item"));
            c.props = or_empty_exec(attr(t, "props"));
            c.wc_revision = int_attr_exec(&attr(t, "revision"));
            let locked = attr(t, "wc-locked");
            c.wc_locked = match &locked {
                Some(v) => str_is(v.as_str(), "true"),
                None => false,
            };
            *cur = Some(c);
        },
        None => {},
    }
}

fn status_step_exec(st: &mut StatusState, ev: &XmlEvent)
    ensures
        final(st).model() == status_step(old(st).model(), ev.deep_view()),
{
    match ev {
        XmlEvent::Start(t) => {
            if str_is(t.name.as_str(), "entry") {
                st.cur = Some(
                    StatusEntry {
                        path: or_empty_exec(attr(t, "path")),
                        item: String::new(),
                        props: String::new(),
                        wc_revision: None,
                        commit_revision: None,
                        commit_author: String::new(),
                        wc_locked: false,
                        lock_owner: String::new(),
                        lock_comment: String::new(),
                        repos_item: String::new(),
                    },
                );
            } else if str_is(t.name.as_str(), "wc-status") {
                read_wc_status(t, &mut st.cur);
            } else if str_is(t.name.as_str(), "repos-status") {
                match st.cur.take() {
                    Some(mut c) => {
                        c.repos_item = or_empty_exec(attr(t, "item"));
                        st.cur = Some(c);
                    },
                    None => {},
                }
            } else if str_is(t.name.as_str(), "commit") {
                st.in_commit = true;
                match st.cur.take() {
                    Some(mut c) => {
                        c.commit_revision = int_attr_exec(&attr(t, "revision"));
                        st.cur = Some(c);
                    },
                    None => {},
                }
            }
            push_stack(&mut st.stack, &t.name);
        },
        XmlEvent::Empty(t) => {
            if str_is(t.name.as_str(), "wc-status") {
                read_wc_status(t, &mut st.cur);
            }
            if str_is(t.name.as_str(), "against") {
                st.against = int_attr_exec(&attr(t, "revision"));
            }
        },
        XmlEvent::Text(x) => {
            let is_author = top_is(&st.stack, "author");
            let is_owner = top_is(&st.stack, "owner");
            let is_comment = top_is(&st.stack, "comment");
            match st.cur.take() {
                Some(mut c) => {
                    if st.in_commit && is_author {
                        c.commit_author = x.clone();
                    }
                    if is_owner {
                        c.lock_owner = x.clone();
                    } else if is_comment {
                        c.lock_comment = x.clone();
                    }
                    st.cur = Some(c);
                },
                None => {},
            }
        },
        XmlEvent::End(n) => {
            if str_is(n.as_str(), "commit") {
                st.in_commit = false;
            } else if str_is(n.as_str(), "entry") {
                match st.cur.take() {
                    Some(c) => {
                        let ghost before = st.entries.deep_view();
                        let ghost cm = c.deep_view();
                        st.entries.push(c);
                        assert(st.entries.deep_view() =~= before.push(cm));
                    },
                    None => {},
                }
            }
            pop_stack(&mut st.stack);
        },
        _ => {},
    }
}

/// Builds the entries and the server's latest revision from the events of
/// `svn status --xml` (with or without `-u`).
pub fn status_from_events(events: &Vec<XmlEvent>, raw: &[u8]) -> (res: Result<
    (Vec<StatusEntry>, Option<i64>),
    String,
>)
    ensures
        match (res, status_result(events.deep_view())) {
            (Ok((v, a)), Ok((m, ma))) => v.deep_view() == m && a == ma,
            (Err(e), Err(m)) => e@ == xml_error("status"@, m, raw@),
            _ => false,
        },
{
    let ghost evs = events.deep_view();
    let mut st = StatusState {
        entries: Vec::new(),
        stack: Vec::new(),
        cur: None,
        in_commit: false,
        against: None,
    };
    assert(st.model() == status_init()) by {
        assert(st.entries.deep_view() =~= Seq::<StatusEntryModel>::empty());
        assert(st.stack.deep_view() =~= Seq::<Seq<char>>::empty());
    }
    let mut i: usize = 0;
    assert(evs.skip(0) =~= evs);
    while i < events.len()
        invariant
            evs == events.deep_view(),
            i <= events@.len(),
            status_run(evs.skip(i as int), st.model()) == status_run(evs, status_init()),
        decreases events@.len() - i,
    {
        assert(evs.skip(i as int).drop_first() =~= evs.skip(i + 1));
        assert(evs.skip(i as int)[0] == events@[i as int].deep_view());
        match &events[i] {
            XmlEvent::Eof => {
                return Ok((st.entries, st.against));
            },
            XmlEvent::Error(m) => {
                return Err(xml_error_exec("status", m, raw));
            },
            _ => {},
        }
        status_step_exec(&mut st, &events[i]);
        i = i + 1;
    }
    assert(evs.skip(i as int) =~= Seq::<EventModel>::empty());
    Ok((st.entries, st.against))
}

/// Parses `svn status --xml`: the entries and, for `status -u`, the
/// latest revision of the server.
pub fn parse_status(xml: &[u8]) -> (res: Result<(Vec<StatusEntry>, Option<i64>), String>)
    ensures
        match (res, status_result(xml_events(xml@))) {
            (Ok((v, a)), Ok((m, ma))) => v.deep_view() == m && a == ma,
            (Err(e), Err(m)) => e@ == xml_error("status"@, m, xml@),
            _ => false,
        },
{
    let events = xml_tokenize(xml);
    status_from_events(&events, xml)
}

// ---------------------------------------------------------------------------
// svn proplist -v --xml
// ---------------------------------------------------------------------------

pub struct PropScan {
    pub props: Seq<PropEntryModel>,
    pub cur_name: Option<Seq<char>>,
    pub cur_value: Seq<char>,
}

/// `str::trim_end_matches('\n')`.
pub open spec fn trim_newlines_end(s: Seq<char>) -> Seq<char>
    decreases s.len(),
{
    if s.len() > 0 && s.last() == '\n' {
        trim_newlines_end(s.drop_last())
    } else {
        s
    }
}

/// One event of `svn proplist -v --xml`: `<property name>` starts a value
/// that collects text until `</property>` (trailing newlines dropped); a
/// self-closing `<property name/>` has an empty value.
pub open spec fn prop_step(st: PropScan, ev: EventModel) -> PropScan {
    match ev {
        EventModel::Start(t) => if t.name == "property"@ {
            PropScan { cur_name: attr_of(t, "name"@), cur_value: seq![], ..st }
        } else {
            st
        },
        EventModel::Text(x) => if st.cur_name is Some {
            PropScan { cur_value: st.cur_value + x, ..st }
        } else {
            st
        },
        EventModel::End(n) => if n == "property"@ {
            match st.cur_name {
                Some(nm) => PropScan {
                    props: st.props.push(
                        PropEntryModel { name: nm, value: trim_newlines_end(st.cur_value) },
                    ),
                    cur_name: None,
                    ..st
                },
                None => st,
            }
        } else {
            st
        },
        EventModel::Empty(t) => if t.name == "property"@ {
            PropScan {
                props: st.props.push(
                    PropEntryModel { name: or_empty(attr_of(t, "name"@)), value: seq![] },
                ),
                ..st
            }
        } else {
            st
        },
        _ => st,
    }
}

pub open spec fn prop_run(evs: Seq<EventModel>, st: PropScan) -> Result<PropScan, Seq<char>>
    decreases evs.len(),
{
    if evs.len() == 0 {
        Ok(st)
    } else {
        match evs[0] {
            EventModel::Eof => Ok(st),
            EventModel::Error(m) => Err(m),
            _ => prop_run(evs.drop_first(), prop_step(st, evs[0])),
        }
    }
}

pub open spec fn prop_init() -> PropScan {
    PropScan { props: seq![], cur_name: None, cur_value: seq![] }
}

/// What `svn proplist -v --xml` events give: the properties, or the
/// reader's error.
pub open spec fn prop_result(evs: Seq<EventModel>) -> Result<Seq<PropEntryModel>, Seq<char>> {
    match prop_run(evs, prop_init()) {
        Ok(st) => Ok(st.props),
        Err(m) => Err(m),
    }
}

fn trim_newlines_end_exec(s: &String) -> (res: String)
    ensures
        res@ == trim_newlines_end(s@),
{
    let cs = chars_of(s.as_str());
    let mut j: usize = cs.len();
    assert(cs@.take(cs@.len() as int) =~= cs@);
    while j > 0 && cs[j - 1] == '\n'
        invariant
            j <= cs@.len(),
            trim_newlines_end(cs@) == trim_newlines_end(cs@.take(j as int)),
        decreases j,
    {
        assert(cs@.take(j as int).drop_last() =~= cs@.take(j - 1));
        j = j - 1;
    }
    let t = crate::text::slice_to_vec(cs.as_slice(), 0, j);
    assert(t@ =~= cs@.take(j as int));
    crate::text::string_of(t.as_slice())
}

/// Builds the properties from the events of `svn proplist -v --xml`.
pub fn props_from_events(events: &Vec<XmlEvent>) -> (res: Result<Vec<PropEntry>, String>)
    ensures
        match (res, prop_result(events.deep_view())) {
            (Ok(v), Ok(m)) => v.deep_view() == m,
            (Err(e), Err(m)) => e@ == "属性 XML 解析失败："@ + m,
            _ => false,
        },
{
    let ghost evs = events.deep_view();
    let mut props: Vec<PropEntry> = Vec::new();
    let mut cur_name: Option<String> = None;
    let mut cur_value = String::new();
    let mut i: usize = 0;
    assert(evs.skip(0) =~= evs);
    assert(props.deep_view() =~= Seq::<PropEntryModel>::empty());
    while i < events.len()
        invariant
            evs == events.deep_view(),
            i <= events@.len(),
            prop_run(
                evs.skip(i as int),
                PropScan {
                    props: props.deep_view(),
                    cur_name: cur_name.deep_view(),
                    cur_value: cur_value@,
                },
            ) == prop_run(evs, prop_init()),
        decreases events@.len() - i,
    {
        assert(evs.skip(i as int).drop_first() =~= evs.skip(i + 1));
        assert(evs.skip(i as int)[0] == events@[i as int].deep_view());
        match &events[i] {
            XmlEvent::Eof => {
                return Ok(props);
            },
            XmlEvent::Error(m) => {
                let mut e = lit("属性 XML 解析失败：");
                push_str(&mut e, m.as_str());
                return Err(e);
            },
            XmlEvent::Start(t) => {
                if str_is(t.name.as_str(), "property") {
                    cur_name = attr(t, "name");
                    cur_value = String::new();
                }
            },
            XmlEvent::Text(x) => {
                if cur_name.is_some() {
                    push_str(&mut cur_value, x.as_str());
                }
            },
            XmlEvent::End(n) => {
                if str_is(n.as_str(), "property") {
                    match cur_name.take() {
                        Some(nm) => {
                            let ghost before = props.deep_view();
                            let p = PropEntry { name: nm, value: trim_newlines_end_exec(&cur_value) };
                            let ghost pm = p.deep_view();
                            props.push(p);
                            assert(props.deep_view() =~= before.push(pm));
                        },
                        None => {},
                    }
                }
            },
            XmlEvent::Empty(t) => {
                if str_is(t.name.as_str(), "property") {
                    let ghost before = props.deep_view();
                    let p = PropEntry { name: or_empty_exec(attr(t, "name")), value: String::new() };
                    let ghost pm = p.deep_view();
                    props.push(p);
                    assert(props.deep_view() =~= before.push(pm));
                }
            },
            XmlEvent::Other => {},
        }
        i = i + 1;
    }
    assert(evs.skip(i as int) =~= Seq::<EventModel>::empty());
    Ok(props)
}

/// Parses `svn proplist -v --xml`.
pub fn parse_proplist(xml: &[u8]) -> (res: Result<Vec<PropEntry>, String>)
    ensures
        match (res, prop_result(xml_events(xml@))) {
            (Ok(v), Ok(m)) => v.deep_view() == m,
            (Err(e), Err(m)) => e@ == "属性 XML 解析失败："@ + m,
            _ => false,
        },
{
    let events = xml_tokenize(xml);
    props_from_events(&events)
}

// ---------------------------------------------------------------------------
// svn blame
// ---------------------------------------------------------------------------

/// One line of `svn blame` (`r<rev> <author> <text>`): `None` for an empty
/// line or an `svn:` notice, otherwise the parsed line or the error.
pub open spec fn blame_line(raw: Seq<char>, line_no: int) -> Option<
    Result<BlameLineModel, Seq<char>>,
> {
    let line = trim(raw);
    if line.len() == 0 || starts_with(line, "svn:"@) {
        None
    } else {
        let toks = ws_tokens(line);
        if toks.len() == 0 {
            Some(Err("无法解析 blame 行："@ + line))
        } else {
            let tok = toks[0];
            let rev_tok = if tok.len() > 0 && tok[0] == 'r' {
                tok.drop_first()
            } else {
                tok
            };
            match parse_i64(rev_tok) {
                None => Some(Err("无法解析 blame revision："@ + line)),
                Some(revision) => Some(
                    Ok(
                        BlameLineModel {
                            line_no: line_no as usize,
                            revision,
                            author: if toks.len() > 1 {
                                toks[1]
                            } else {
                                seq![]
                            },
                            text: if toks.len() > 2 {
                                join(toks.skip(2), " "@)
                            } else {
                                seq![]
                            },
                        },
                    ),
                ),
            }
        }
    }
}

/// The blame lines from line index `i` on (numbered from 1), or the first
/// error.
pub open spec fn blame_from(ls: Seq<Seq<char>>, i: int) -> Result<Seq<BlameLineModel>, Seq<char>>
    decreases ls.len() - i,
{
    if i < 0 || i >= ls.len() {
        Ok(seq![])
    } else {
        match blame_line(ls[i], i + 1) {
            None => blame_from(ls, i + 1),
            Some(Err(e)) => Err(e),
            Some(Ok(b)) => match blame_from(ls, i + 1) {
                Ok(rest) => Ok(seq![b] + rest),
                Err(e) => Err(e),
            },
        }
    }
}

fn message_with(prefix: &str, line: &[char]) -> (res: String)
    ensures
        res@ == prefix@ + line@,
{
    let mut s = lit(prefix);
    push_chars(&mut s, line);
    s
}

fn blame_line_exec(raw: &[char], line_no: usize) -> (res: Option<Result<BlameLine, String>>)
    ensures
        match (res, blame_line(raw@, line_no as int)) {
            (None, None) => true,
            (Some(Ok(b)), Some(Ok(m))) => b.deep_view() == m,
            (Some(Err(e)), Some(Err(m))) => e@ == m,
            _ => false,
        },
{
    let line = trim_chars(raw);
    let svn = chars_of("svn:");
    if line.len() == 0 || starts_with_exec(line.as_slice(), svn.as_slice()) {
        return None;
    }
    let toks = ws_tokens_of(line.as_slice());
    if toks.len() == 0 {
        return Some(Err(message_with("无法解析 blame 行：", line.as_slice())));
    }
    let tok = &toks[0];
    let rev_tok = if tok.len() > 0 && tok[0] == 'r' {
        let v = crate::text::slice_to_vec(tok.as_slice(), 1, tok.len());
        assert(v@ =~= tok@.drop_first());
        v
    } else {
        crate::text::slice_to_vec(tok.as_slice(), 0, tok.len())
    };
    assert(tok@ =~= tok@.subrange(0, tok@.len() as int));
    match parse_i64_exec(rev_tok.as_slice()) {
        None => Some(Err(message_with("无法解析 blame revision：", line.as_slice()))),
        Some(revision) => {
            let author = if toks.len() > 1 {
                string_of(toks[1].as_slice())
            } else {
                String::new()
            };
            let mut rest: Vec<Vec<char>> = Vec::new();
            let mut k: usize = 2;
            assert(views(rest@) =~= views(toks@).skip(2).take(0));
            while k < toks.len()
                invariant
                    2 <= k <= toks@.len() || (toks@.len() < 2 && k == 2),
                    views(rest@) == views(toks@).skip(2).take(k - 2),
                decreases toks@.len() - k,
            {
                let t = crate::text::slice_to_vec(toks[k].as_slice(), 0, toks[k].len());
                assert(t@ =~= toks@[k as int]@);
                let ghost before = views(rest@);
                rest.push(t);
                assert(views(rest@) =~= before.push(t@));
                k = k + 1;
                assert(views(rest@) =~= views(toks@).skip(2).take(k - 2));
            }
            if toks.len() > 2 {
                assert(views(toks@).skip(2).take(toks@.len() - 2) =~= views(toks@).skip(2));
            } else {
                assert(views(rest@) =~= Seq::<Seq<char>>::empty());
            }
            let text = join_chars(&rest, " ");
            Some(Ok(BlameLine { line_no, revision, author, text }))
        },
    }
}

/// Parses the plain-text output of `svn blame`: one `r<rev> <author>
/// <text>` per line, numbered from 1; empty lines and `svn:` notices are
/// skipped (their numbers too), and a line whose revision is not a number
/// fails the parse.
pub fn parse_blame(text: &[u8]) -> (res: Result<Vec<BlameLine>, String>)
    ensures
        match (res, blame_from(lines(lossy_text(text@)), 0)) {
            (Ok(v), Ok(m)) => v.deep_view() == m,
            (Err(e), Err(m)) => e@ == m,
            _ => false,
        },
{
    let s = lossy_string(text);
    let cs = chars_of(s.as_str());
    let ls = lines_of(cs.as_slice());
    let ghost lsv = views(ls@);
    let mut out: Vec<BlameLine> = Vec::new();
    let mut i: usize = 0;
    assert(out.deep_view() =~= Seq::<BlameLineModel>::empty());
    while i < ls.len()
        invariant
            lsv == views(ls@),
            lsv == lines(lossy_text(text@)),
            i <= ls@.len(),
            match blame_from(lsv, 0) {
                Ok(all) => blame_from(lsv, i as int) matches Ok(rest) && all == out.deep_view()
                    + rest,
                Err(e) => blame_from(lsv, i as int) == Err::<Seq<BlameLineModel>, Seq<char>>(e),
            },
        decreases ls@.len() - i,
    {
        assert(lsv[i as int] == ls@[i as int]@);
        match blame_line_exec(ls[i].as_slice(), i + 1) {
            None => {},
            Some(Err(e)) => {
                return Err(e);
            },
            Some(Ok(b)) => {
                let ghost before = out.deep_view();
                let ghost bm = b.deep_view();
                out.push(b);
                assert(out.deep_view() =~= before.push(bm));
                proof {
                    if let Ok(rest) = blame_from(lsv, i + 1) {
                        assert(before + (seq![bm] + rest) =~= out.deep_view() + rest);
                    }
                }
            },
        }
        i = i + 1;
    }
    Ok(out)
}

// ---------------------------------------------------------------------------
// {U+XXXX} escapes
// ---------------------------------------------------------------------------

/// An ASCII hex digit.
pub open spec fn is_hex_char(c: char) -> bool {
    ('0' <= c && c <= '9') || ('a' <= c && c <= 'f') || ('A' <= c && c <= 'F')
}

/// The value of a hex digit.
pub open spec fn hex_char_value(c: char) -> int {
    if '0' <= c && c <= '9' {
        c as int - 48
    } else if 'a' <= c && c <= 'f' {
        c as int - 87
    } else {
        c as int - 55
    }
}

/// The number of hex digits at position `j`, at most `cap`.
pub open spec fn hex_count(s: Seq<char>, j: int, cap: nat) -> nat
    decreases cap,
{
    if cap == 0 || j < 0 || j >= s.len() || !is_hex_char(s[j]) {
        0
    } else {
        1 + hex_count(s, j + 1, (cap - 1) as nat)
    }
}

/// The value of hex digits.
pub open spec fn hex_value(h: Seq<char>) -> int
    decreases h.len(),
{
    if h.len() == 0 {
        0
    } else {
        16 * hex_value(h.drop_last()) + hex_char_value(h.last())
    }
}

/// The text of `s` from position `i` on, each `{U+X..X}` (one to six hex
/// digits naming a Unicode scalar value) replaced by that character; all
/// other characters stay as they are.
pub open spec fn unescape_from(s: Seq<char>, i: int) -> Seq<char>
    decreases s.len() - i,
{
    if i < 0 || i >= s.len() {
        seq![]
    } else {
        let n = hex_count(s, i + 3, 6);
        let j = i + 3 + n;
        if s[i] == '{' && i + 3 <= s.len() && s[i + 1] == 'U' && s[i + 2] == '+' && n > 0 && j
            < s.len() && s[j] == '}' && is_scalar_value(hex_value(s.subrange(i + 3, j)) as u32) {
            seq![(hex_value(s.subrange(i + 3, j)) as u32) as char] + unescape_from(s, j + 1)
        } else {
            seq![s[i]] + unescape_from(s, i + 1)
        }
    }
}

/// What `{U+XXXX}` unescaping makes of a string (svn writes these for
/// characters that a non-UTF-8 locale cannot show).
pub open spec fn unescape_spec(s: Seq<char>) -> Seq<char> {
    unescape_from(s, 0)
}

proof fn lemma_unescape_plain(s: Seq<char>, i: int)
    requires
        0 <= i <= s.len(),
        !crate::text::contains(s, "{U+"@),
    ensures
        unescape_from(s, i) == s.skip(i),
    decreases s.len() - i,
{
    reveal_strlit("{U+");
    if i < s.len() {
        if s[i] == '{' && i + 3 <= s.len() && s[i + 1] == 'U' && s[i + 2] == '+' {
            assert(s.subrange(i, i + 3) =~= "{U+"@);
            assert(crate::text::occurs_at(s, "{U+"@, i));
        }
        lemma_unescape_plain(s, i + 1);
        assert(s.skip(i) =~= seq![s[i]] + s.skip(i + 1));
    } else {
        assert(s.skip(i) =~= Seq::<char>::empty());
    }
}

/// Text without any `{U+` comes back unchanged.
pub proof fn law_unescape_keeps_plain_text(s: Seq<char>)
    requires
        !crate::text::contains(s, "{U+"@),
    ensures
        unescape_spec(s) == s,
{
    lemma_unescape_plain(s, 0);
    assert(s.skip(0) =~= s);
}

proof fn lemma_hex_value_bound(h: Seq<char>)
    requires
        forall|k: int| 0 <= k < h.len() ==> is_hex_char(#[trigger] h[k]),
    ensures
        0 <= hex_value(h) < pow16(h.len()),
    decreases h.len(),
{
    if h.len() > 0 {
        assert forall|k: int| 0 <= k < h.drop_last().len() implies is_hex_char(
            #[trigger] h.drop_last()[k],
        ) by {
            assert(h.drop_last()[k] == h[k]);
        }
        lemma_hex_value_bound(h.drop_last());
        assert(is_hex_char(h[h.len() - 1]));
        assert(pow16(h.len()) == 16 * pow16((h.len() - 1) as nat));
    }
}

pub open spec fn pow16(n: nat) -> int
    decreases n,
{
    if n == 0 {
        1
    } else {
        16 * pow16((n - 1) as nat)
    }
}

fn is_hex_exec(c: char) -> (res: bool)
    ensures
        res == is_hex_char(c),
{
    ('0' <= c && c <= '9') || ('a' <= c && c <= 'f') || ('A' <= c && c <= 'F')
}

fn hex_char_value_exec(c: char) -> (res: u32)
    requires
        is_hex_char(c),
    ensures
        res as int == hex_char_value(c),
        res < 16,
{
    let v = c as u32;
    assert(v as int == c as int);
    if '0' <= c && c <= '9' {
        v - 48
    } else if 'a' <= c && c <= 'f' {
        v - 87
    } else {
        v - 55
    }
}

/// Restores the `{U+XXXX}` escapes that svn writes under a non-UTF-8
/// locale (`{U+8BA4}` becomes `认`); all other text stays as it is.
pub fn unescape_u_escapes(s: &str) -> (res: String)
    ensures
        res@ == unescape_spec(s@),
        !crate::text::contains(s@, "{U+"@) ==> res@ == s@,
{
    let cs = chars_of(s);
    let ghost b = cs@;
    let mut out = String::new();
    let mut i: usize = 0;
    assert(out@ + unescape_from(b, 0) == unescape_from(b, 0));
    while i < cs.len()
        invariant
            b == cs@,
            b == s@,
            i <= b.len(),
            out@ + unescape_from(b, i as int) == unescape_from(b, 0),
        decreases b.len() - i,
    {
        let mut decoded: Option<(char, usize)> = None;
        if cs[i] == '{' && cs.len() - i >= 3 && cs[i + 1] == 'U' && cs[i + 2] == '+' {
            let mut j: usize = i + 3;
            let mut v: u32 = 0;
            while j < cs.len() && is_hex_exec(cs[j]) && j - (i + 3) < 6
                invariant
                    b == cs@,
                    i + 3 <= j <= b.len(),
                    j - (i + 3) <= 6,
                    forall|k: int| i + 3 <= k < j ==> is_hex_char(#[trigger] b[k]),
                    hex_count(b, i + 3, 6) == (j - (i + 3)) + hex_count(
                        b,
                        j as int,
                        (6 - (j - (i + 3))) as nat,
                    ),
                    v as int == hex_value(b.subrange(i + 3, j as int)),
                    v < pow16((j - (i + 3)) as nat),
                decreases b.len() - j,
            {
                let d = hex_char_value_exec(cs[j]);
                proof {
                    let h = b.subrange(i + 3, j + 1);
                    assert(h.drop_last() =~= b.subrange(i + 3, j as int));
                    assert(h.last() == b[j as int]);
                    assert(pow16((j + 1 - (i + 3)) as nat) == 16 * pow16((j - (i + 3)) as nat));
                    lemma_pow16_6();
                    lemma_pow16_mono((j - (i + 3)) as nat, 5);
                }
                v = v * 16 + d;
                j = j + 1;
            }
            proof {
                assert(hex_count(b, j as int, (6 - (j - (i + 3))) as nat) == 0);
            }
            if j > i + 3 && j < cs.len() && cs[j] == '}' {
                match char_from_u32(v) {
                    Some(c) => {
                        decoded = Some((c, j));
                    },
                    None => {},
                }
            }
        }
        match decoded {
            Some((c, j)) => {
                push_char(&mut out, c);
                assert(out@ + unescape_from(b, j + 1) =~= unescape_from(b, 0));
                i = j + 1;
            },
            None => {
                push_char(&mut out, cs[i]);
                assert(out@ + unescape_from(b, i + 1) =~= unescape_from(b, 0));
                i = i + 1;
            },
        }
    }
    assert(unescape_from(b, i as int) =~= Seq::<char>::empty());
    proof {
        if !crate::text::contains(s@, "{U+"@) {
            law_unescape_keeps_plain_text(s@);
        }
    }
    out
}

// ---------------------------------------------------------------------------
// working copy info, binary detection
// ---------------------------------------------------------------------------

/// The working-copy view of `svn info` together with its status entries;
/// schedule and depth are left empty.
pub fn assemble_wc(info: RepoInfo, status: Vec<StatusEntry>) -> (res: WcInfo)
    ensures
        res.root_url == info.root_url,
        res.url == info.url,
        res.uuid == info.uuid,
        res.revision == info.revision,
        res.wc_root == info.wc_root,
        res.schedule@ == Seq::<char>::empty(),
        res.depth@ == Seq::<char>::empty(),
        res.status == status,
{
    WcInfo {
        root_url: info.root_url,
        url: info.url,
        uuid: info.uuid,
        revision: info.revision,
        wc_root: info.wc_root,
        schedule: String::new(),
        depth: String::new(),
        status,
    }
}

/// Byte-level binary detection: content with a NUL byte is binary.
pub fn is_binary(bytes: &[u8]) -> (res: bool)
    ensures
        res == bytes@.contains(0u8),
{
    let mut i: usize = 0;
    while i < bytes.len()
        invariant
            i <= bytes@.len(),
            forall|j: int| 0 <= j < i ==> bytes@[j] != 0u8,
        decreases bytes@.len() - i,
    {
        if bytes[i] == 0u8 {
            assert(bytes@[i as int] == 0u8);
            return true;
        }
        i = i + 1;
    }
    false
}

// ---------------------------------------------------------------------------
// svn auth
// ---------------------------------------------------------------------------

pub struct AuthScan {
    pub creds: Seq<AuthCredModel>,
    pub cur: Option<AuthCredModel>,
    pub raw_lines: Seq<Seq<char>>,
}

/// A separator line: at least ten dashes and nothing else.
pub open spec fn is_rule(t: Seq<char>) -> bool {
    t.len() >= 10 && forall|i: int| 0 <= i < t.len() ==> #[trigger] t[i] == '-'
}

/// The open credential is complete: its raw text is the lines collected
/// since its header.
pub open spec fn auth_finish(st: AuthScan) -> AuthScan {
    match st.cur {
        Some(c) => AuthScan {
            creds: st.creds.push(AuthCredModel { raw: join(st.raw_lines, "\n"@), ..c }),
            cur: None,
            ..st
        },
        None => st,
    }
}

pub open spec fn new_cred(kind: Seq<char>) -> AuthCredModel {
    AuthCredModel {
        kind,
        realm: seq![],
        username: seq![],
        subject: seq![],
        fingerprint: seq![],
        password_cache: seq![],
        raw: seq![],
    }
}

/// A `Key: value` line applied to the open credential.
pub open spec fn with_field(cur: Option<AuthCredModel>, key: Seq<char>, v: Seq<char>) -> Option<
    AuthCredModel,
> {
    match cur {
        Some(c) => Some(
            if key == "Authentication realm"@ {
                AuthCredModel { realm: v, ..c }
            } else if key == "Password cache"@ {
                AuthCredModel { password_cache: v, ..c }
            } else if key == "Username"@ {
                AuthCredModel { username: v, ..c }
            } else if key == "Subject"@ {
                AuthCredModel { subject: v, ..c }
            } else if key == "Fingerprint"@ {
                AuthCredModel { fingerprint: v, ..c }
            } else {
                c
            },
        ),
        None => None,
    }
}

/// One line of `svn auth` (English key names): the line is unescaped; a
/// separator completes the open credential and starts a new raw text;
/// `Credential kind: ...` completes the open credential and opens a new
/// one whose raw text starts with this line; other lines join the raw
/// text.  So each credential's raw text is its own block: from its header
/// up to the line before the next header, separator or end.
pub open spec fn auth_step(st: AuthScan, raw_line: Seq<char>) -> AuthScan {
    let line = unescape_spec(raw_line);
    if is_rule(trim(line)) {
        AuthScan { raw_lines: seq![], ..auth_finish(st) }
    } else {
        let st1 = AuthScan { raw_lines: st.raw_lines.push(line), ..st };
        let k = find_char(line, ':');
        if k >= line.len() {
            st1
        } else {
            let key = trim(line.take(k));
            let v = trim(line.skip(k + 1));
            if key == "Credential kind"@ {
                AuthScan { cur: Some(new_cred(v)), raw_lines: seq![line], ..auth_finish(st) }
            } else {
                AuthScan { cur: with_field(st1.cur, key, v), ..st1 }
            }
        }
    }
}

pub open spec fn auth_scan(ls: Seq<Seq<char>>) -> AuthScan
    decreases ls.len(),
{
    if ls.len() == 0 {
        AuthScan { creds: seq![], cur: None, raw_lines: seq![] }
    } else {
        auth_step(auth_scan(ls.drop_last()), ls.last())
    }
}

/// The credentials listed by `svn auth`.
pub open spec fn auth_creds_spec(text: Seq<char>) -> Seq<AuthCredModel> {
    auth_finish(auth_scan(lines(text))).creds
}

struct AuthState {
    creds: Vec<AuthCred>,
    cur: Option<AuthCred>,
    raw_lines: Vec<Vec<char>>,
}

impl AuthState {
    spec fn model(&self) -> AuthScan {
        AuthScan {
            creds: self.creds.deep_view(),
            cur: match self.cur {
                Some(c) => Some(c.deep_view()),
                None => None,
            },
            raw_lines: views(self.raw_lines@),
        }
    }
}

fn auth_finish_exec(st: &mut AuthState)
    ensures
        final(st).model() == auth_finish(old(st).model()),
        final(st).raw_lines@ == old(st).raw_lines@,
{
    match st.cur.take() {
        Some(mut c) => {
            c.raw = join_chars(&st.raw_lines, "\n");
            let ghost before = st.creds.deep_view();
            let ghost cm = c.deep_view();
            st.creds.push(c);
            assert(st.creds.deep_view() =~= before.push(cm));
        },
        None => {},
    }
}

fn is_rule_exec(t: &[char]) -> (res: bool)
    ensures
        res == is_rule(t@),
{
    if t.len() < 10 {
        return false;
    }
    let mut i: usize = 0;
    while i < t.len()
        invariant
            i <= t@.len(),
            forall|j: int| 0 <= j < i ==> #[trigger] t@[j] == '-',
        decreases t@.len() - i,
    {
        if t[i] != '-' {
            return false;
        }
        i = i + 1;
    }
    true
}

fn auth_step_exec(st: &mut AuthState, raw_line: &[char])
    ensures
        final(st).model() == auth_step(old(st).model(), raw_line@),
{
    let ls = string_of(raw_line);
    let u = unescape_u_escapes(ls.as_str());
    let line = chars_of(u.as_str());
    let t = trim_chars(line.as_slice());
    if is_rule_exec(t.as_slice()) {
        auth_finish_exec(st);
        st.raw_lines = Vec::new();
        assert(views(st.raw_lines@) =~= Seq::<Seq<char>>::empty());
        return;
    }
    let copy = crate::text::slice_to_vec(line.as_slice(), 0, line.len());
    assert(copy@ =~= line@);
    let mut k: usize = 0;
    while k < line.len() && line[k] != ':'
        invariant
            k <= line@.len(),
            forall|j: int| 0 <= j < k ==> line@[j] != ':',
        decreases line@.len() - k,
    {
        k = k + 1;
    }
    proof {
        crate::text::lemma_find_char(line@, ':', k as int);
    }
    if k >= line.len() {
        let ghost before = views(st.raw_lines@);
        st.raw_lines.push(copy);
        assert(views(st.raw_lines@) =~= before.push(line@));
        return;
    }
    let key_raw = crate::text::slice_to_vec(line.as_slice(), 0, k);
    let val_raw = crate::text::slice_to_vec(line.as_slice(), k + 1, line.len());
    assert(key_raw@ =~= line@.take(k as int));
    assert(val_raw@ =~= line@.skip(k + 1));
    let key = trim_chars(key_raw.as_slice());
    let v = string_of(trim_chars(val_raw.as_slice()).as_slice());
    if crate::text::eq_str(key.as_slice(), "Credential kind") {
        auth_finish_exec(st);
        let mut fresh: Vec<Vec<char>> = Vec::new();
        fresh.push(copy);
        st.raw_lines = fresh;
        assert(views(st.raw_lines@) =~= seq![line@]);
        st.cur = Some(
            AuthCred {
                kind: v,
                realm: String::new(),
                username: String::new(),
                subject: String::new(),
                fingerprint: String::new(),
                password_cache: String::new(),
                raw: String::new(),
            },
        );
    } else {
        let ghost before = views(st.raw_lines@);
        st.raw_lines.push(copy);
        assert(views(st.raw_lines@) =~= before.push(line@));
        let is_realm = crate::text::eq_str(key.as_slice(), "Authentication realm");
        let is_cache = crate::text::eq_str(key.as_slice(), "Password cache");
        let is_user = crate::text::eq_str(key.as_slice(), "Username");
        let is_subject = crate::text::eq_str(key.as_slice(), "Subject");
        let is_fp = crate::text::eq_str(key.as_slice(), "Fingerprint");
        match st.cur.take() {
            Some(mut c) => {
                if is_realm {
                    c.realm = v;
                } else if is_cache {
                    c.password_cache = v;
                } else if is_user {
                    c.username = v;
                } else if is_subject {
                    c.subject = v;
                } else if is_fp {
                    c.fingerprint = v;
                }
                st.cur = Some(c);
            },
            None => {},
        }
    }
}

/// Parses the output of `svn auth` (with English key names): blocks
/// separated by lines of dashes, each starting with `Credential kind:`;
/// `{U+XXXX}` escapes are restored line by line.
pub fn parse_auth_creds(text: &str) -> (res: Vec<AuthCred>)
    ensures
        res.deep_view() == auth_creds_spec(text@),
{
    let cs = chars_of(text);
    let ls = lines_of(cs.as_slice());
    let ghost lsv = views(ls@);
    let mut st = AuthState { creds: Vec::new(), cur: None, raw_lines: Vec::new() };
    assert(st.model() == auth_scan(lsv.take(0))) by {
        assert(st.creds.deep_view() =~= Seq::<AuthCredModel>::empty());
        assert(views(st.raw_lines@) =~= Seq::<Seq<char>>::empty());
        assert(lsv.take(0) =~= Seq::<Seq<char>>::empty());
    }
    let mut i: usize = 0;
    while i < ls.len()
        invariant
            lsv == views(ls@),
            lsv == lines(text@),
            i <= ls@.len(),
            st.model() == auth_scan(lsv.take(i as int)),
        decreases ls@.len() - i,
    {
        assert(lsv.take(i + 1).drop_last() =~= lsv.take(i as int));
        assert(lsv.take(i + 1).last() == ls@[i as int]@);
        auth_step_exec(&mut st, ls[i].as_slice());
        i = i + 1;
    }
    assert(lsv.take(ls@.len() as int) =~= lsv);
    auth_finish_exec(&mut st);
    st.creds
}

proof fn lemma_pow16_6()
    ensures
        pow16(6) == 16777216,
{
    assert(pow16(0) == 1);
    assert(pow16(1) == 16);
    assert(pow16(2) == 256);
    assert(pow16(3) == 4096);
    assert(pow16(4) == 65536);
    assert(pow16(5) == 1048576);
}

proof fn lemma_pow16_mono(a: nat, b: nat)
    requires
        a <= b,
    ensures
        pow16(a) <= pow16(b),
        pow16(a) >= 1,
    decreases b,
{
    if a < b {
        lemma_pow16_mono(a, (b - 1) as nat);
    } else if a > 0 {
        lemma_pow16_mono((a - 1) as nat, (a - 1) as nat);
    }
}

} // verus!
