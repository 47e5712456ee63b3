//! Laws of the parsers of svn's output, stated over the events or lines
//! they read.
//!
//! For the `--xml` parsers, each law reads an element (`<n>text</n>`, an
//! opening or closing tag, or a whole entry) from any scanner state that
//! meets its conditions, followed by any further events, and says what the
//! scanner holds afterwards; the laws compose element by element.  The
//! `svn auth` and `svn blame` laws say what one line gives.

use vstd::prelude::*;

use crate::models::{AuthCredModel, BlameLineModel, ChangePathModel, ListEntryModel, PropEntryModel, RepoInfoModel, LogEntryModel, StatusEntryModel};
use crate::text::{find_char, join, parse_i64, starts_with, trim, ws_tokens};
use crate::parser::{blame_line, auth_finish, auth_step, is_rule, new_cred, unescape_spec, AuthScan, prop_run, prop_step, trim_newlines_end, PropScan, info_run, info_step, InfoScan, int_attr, or_empty, popped, 
    list_run, list_step, log_run, log_step, status_run, status_step, ListScan, LogScan, StatusScan,
};
use crate::xml::{attr_of, EventModel, TagModel};

verus! {

/// Neither the end of the input nor a reader error.
pub open spec fn plain_event(e: EventModel) -> bool {
    !(e is Eof) && !(e is Error)
}

/// The element `<name>text</name>` as events.
pub open spec fn element(t: TagModel, text: Seq<char>) -> Seq<EventModel> {
    seq![EventModel::Start(t), EventModel::Text(text), EventModel::End(t.name)]
}

proof fn lemma_three(e: Seq<EventModel>, rest: Seq<EventModel>)
    requires
        e.len() == 3,
    ensures
        (e + rest)[0] == e[0],
        (e + rest).drop_first()[0] == e[1],
        (e + rest).drop_first().drop_first()[0] == e[2],
        (e + rest).drop_first().drop_first().drop_first() == rest,
        (e + rest).len() > 0,
        (e + rest).drop_first().len() > 0,
        (e + rest).drop_first().drop_first().len() > 0,
{
    assert((e + rest).drop_first().drop_first().drop_first() =~= rest);
}

proof fn lemma_list_run3(st: ListScan, e: Seq<EventModel>, rest: Seq<EventModel>)
    requires
        e.len() == 3,
        plain_event(e[0]),
        plain_event(e[1]),
        plain_event(e[2]),
    ensures
        list_run(e + rest, st) == list_run(
            rest,
            list_step(list_step(list_step(st, e[0]), e[1]), e[2]),
        ),
{
    lemma_three(e, rest);
    let s = e + rest;
    assert(list_run(s, st) == list_run(s.drop_first(), list_step(st, e[0])));
    assert(list_run(s.drop_first(), list_step(st, e[0])) == list_run(
        s.drop_first().drop_first(),
        list_step(list_step(st, e[0]), e[1]),
    ));
}

proof fn lemma_log_run3(st: LogScan, e: Seq<EventModel>, rest: Seq<EventModel>)
    requires
        e.len() == 3,
        plain_event(e[0]),
        plain_event(e[1]),
        plain_event(e[2]),
    ensures
        log_run(e + rest, st) == log_run(
            rest,
            log_step(log_step(log_step(st, e[0]), e[1]), e[2]),
        ),
{
    lemma_three(e, rest);
    let s = e + rest;
    assert(log_run(s, st) == log_run(s.drop_first(), log_step(st, e[0])));
    assert(log_run(s.drop_first(), log_step(st, e[0])) == log_run(
        s.drop_first().drop_first(),
        log_step(log_step(st, e[0]), e[1]),
    ));
}

proof fn lemma_status_run3(st: StatusScan, e: Seq<EventModel>, rest: Seq<EventModel>)
    requires
        e.len() == 3,
        plain_event(e[0]),
        plain_event(e[1]),
        plain_event(e[2]),
    ensures
        status_run(e + rest, st) == status_run(
            rest,
            status_step(status_step(status_step(st, e[0]), e[1]), e[2]),
        ),
{
    lemma_three(e, rest);
    let s = e + rest;
    assert(status_run(s, st) == status_run(s.drop_first(), status_step(st, e[0])));
    assert(status_run(s.drop_first(), status_step(st, e[0])) == status_run(
        s.drop_first().drop_first(),
        status_step(status_step(st, e[0]), e[1]),
    ));
}

/// In `svn list`, the text of `<name>` in an open entry is its name.
pub proof fn law_list_name(st: ListScan, t: TagModel, x: Seq<char>, rest: Seq<EventModel>)
    requires
        st.cur is Some,
        t.name == "name"@,
    ensures
        list_run(element(t, x) + rest, st) == list_run(
            rest,
            ListScan { cur: Some(ListEntryModel { name: x, ..st.cur.unwrap() }), ..st },
        ),
{
    reveal_strlit("entry");
    reveal_strlit("commit");
    reveal_strlit("name");
    reveal_strlit("size");
    reveal_strlit("author");
    reveal_strlit("date");
    assert(t.name.len() != "entry"@.len());
    assert(t.name != "entry"@);
    assert(t.name.len() != "commit"@.len());
    assert(t.name != "commit"@);
    assert(t.name[0] != "size"@[0]);
    assert(t.name != "size"@);
    assert(t.name.len() != "author"@.len());
    assert(t.name != "author"@);
    assert(t.name[0] != "date"@[0]);
    assert(t.name != "date"@);
    let e = element(t, x);
    assert(e[0] == EventModel::Start(t));
    assert(e[1] == EventModel::Text(x));
    assert(e[2] == EventModel::End(t.name));
    lemma_list_run3(st, e, rest);
    let s1 = list_step(st, EventModel::Start(t));
    assert(s1 == ListScan { stack: st.stack.push(t.name), ..st });
    let s2 = list_step(s1, EventModel::Text(x));
    assert(s2 == ListScan {
        stack: st.stack.push(t.name),
        cur: Some(ListEntryModel { name: x, ..st.cur.unwrap() }),
        ..st
    });
    assert(st.stack.push(t.name).drop_last() =~= st.stack);
}

/// In `svn list`, the text of `<author>` inside the `<commit>` of an open
/// entry is its author.
pub proof fn law_list_commit_author(st: ListScan, t: TagModel, x: Seq<char>, rest: Seq<EventModel>)
    requires
        st.cur is Some,
        st.in_commit,
        t.name == "author"@,
    ensures
        list_run(element(t, x) + rest, st) == list_run(
            rest,
            ListScan { cur: Some(ListEntryModel { author: x, ..st.cur.unwrap() }), ..st },
        ),
{
    reveal_strlit("entry");
    reveal_strlit("commit");
    reveal_strlit("name");
    reveal_strlit("size");
    reveal_strlit("author");
    reveal_strlit("date");
    assert(t.name.len() != "entry"@.len());
    assert(t.name != "entry"@);
    assert(t.name[0] != "commit"@[0]);
    assert(t.name != "commit"@);
    assert(t.name.len() != "name"@.len());
    assert(t.name != "name"@);
    assert(t.name.len() != "size"@.len());
    assert(t.name != "size"@);
    assert(t.name.len() != "date"@.len());
    assert(t.name != "date"@);
    let e = element(t, x);
    assert(e[0] == EventModel::Start(t));
    assert(e[1] == EventModel::Text(x));
    assert(e[2] == EventModel::End(t.name));
    lemma_list_run3(st, e, rest);
    let s1 = list_step(st, EventModel::Start(t));
    assert(s1 == ListScan { stack: st.stack.push(t.name), ..st });
    let s2 = list_step(s1, EventModel::Text(x));
    assert(s2 == ListScan {
        stack: st.stack.push(t.name),
        cur: Some(ListEntryModel { author: x, ..st.cur.unwrap() }),
        ..st
    });
    assert(st.stack.push(t.name).drop_last() =~= st.stack);
}

/// In `svn list`, the text of `<date>` inside the `<commit>` of an open
/// entry is its date.
pub proof fn law_list_commit_date(st: ListScan, t: TagModel, x: Seq<char>, rest: Seq<EventModel>)
    requires
        st.cur is Some,
        st.in_commit,
        t.name == "date"@,
    ensures
        list_run(element(t, x) + rest, st) == list_run(
            rest,
            ListScan { cur: Some(ListEntryModel { date: x, ..st.cur.unwrap() }), ..st },
        ),
{
    reveal_strlit("entry");
    reveal_strlit("commit");
    reveal_strlit("name");
    reveal_strlit("size");
    reveal_strlit("author");
    reveal_strlit("date");
    assert(t.name.len() != "entry"@.len());
    assert(t.name != "entry"@);
    assert(t.name.len() != "commit"@.len());
    assert(t.name != "commit"@);
    assert(t.name[0] != "name"@[0]);
    assert(t.name != "name"@);
    assert(t.name[0] != "size"@[0]);
    assert(t.name != "size"@);
    assert(t.name.len() != "author"@.len());
    assert(t.name != "author"@);
    let e = element(t, x);
    assert(e[0] == EventModel::Start(t));
    assert(e[1] == EventModel::Text(x));
    assert(e[2] == EventModel::End(t.name));
    lemma_list_run3(st, e, rest);
    let s1 = list_step(st, EventModel::Start(t));
    assert(s1 == ListScan { stack: st.stack.push(t.name), ..st });
    let s2 = list_step(s1, EventModel::Text(x));
    assert(s2 == ListScan {
        stack: st.stack.push(t.name),
        cur: Some(ListEntryModel { date: x, ..st.cur.unwrap() }),
        ..st
    });
    assert(st.stack.push(t.name).drop_last() =~= st.stack);
}

/// In `svn log`, the text of `<author>` in an open log entry is its author.
pub proof fn law_log_author(st: LogScan, t: TagModel, x: Seq<char>, rest: Seq<EventModel>)
    requires
        st.cur is Some,
        t.name == "author"@,
    ensures
        log_run(element(t, x) + rest, st) == log_run(
            rest,
            LogScan { cur: Some(LogEntryModel { author: x, ..st.cur.unwrap() }), ..st },
        ),
{
    reveal_strlit("logentry");
    reveal_strlit("path");
    reveal_strlit("author");
    reveal_strlit("date");
    reveal_strlit("msg");
    assert(t.name.len() != "logentry"@.len());
    assert(t.name != "logentry"@);
    assert(t.name.len() != "path"@.len());
    assert(t.name != "path"@);
    assert(t.name.len() != "date"@.len());
    assert(t.name != "date"@);
    assert(t.name.len() != "msg"@.len());
    assert(t.name != "msg"@);
    let e = element(t, x);
    assert(e[0] == EventModel::Start(t));
    assert(e[1] == EventModel::Text(x));
    assert(e[2] == EventModel::End(t.name));
    lemma_log_run3(st, e, rest);
    let s1 = log_step(st, EventModel::Start(t));
    assert(s1 == LogScan { stack: st.stack.push(t.name), ..st });
    let s2 = log_step(s1, EventModel::Text(x));
    assert(s2 == LogScan {
        stack: st.stack.push(t.name),
        cur: Some(LogEntryModel { author: x, ..st.cur.unwrap() }),
        ..st
    });
    assert(st.stack.push(t.name).drop_last() =~= st.stack);
}

/// In `svn log`, the text of `<date>` in an open log entry is its date.
pub proof fn law_log_date(st: LogScan, t: TagModel, x: Seq<char>, rest: Seq<EventModel>)
    requires
        st.cur is Some,
        t.name == "date"@,
    ensures
        log_run(element(t, x) + rest, st) == log_run(
            rest,
            LogScan { cur: Some(LogEntryModel { date: x, ..st.cur.unwrap() }), ..st },
        ),
{
    reveal_strlit("logentry");
    reveal_strlit("path");
    reveal_strlit("author");
    reveal_strlit("date");
    reveal_strlit("msg");
    assert(t.name.len() != "logentry"@.len());
    assert(t.name != "logentry"@);
    assert(t.name[0] != "path"@[0]);
    assert(t.name != "path"@);
    assert(t.name.len() != "author"@.len());
    assert(t.name != "author"@);
    assert(t.name.len() != "msg"@.len());
    assert(t.name != "msg"@);
    let e = element(t, x);
    assert(e[0] == EventModel::Start(t));
    assert(e[1] == EventModel::Text(x));
    assert(e[2] == EventModel::End(t.name));
    lemma_log_run3(st, e, rest);
    let s1 = log_step(st, EventModel::Start(t));
    assert(s1 == LogScan { stack: st.stack.push(t.name), ..st });
    let s2 = log_step(s1, EventModel::Text(x));
    assert(s2 == LogScan {
        stack: st.stack.push(t.name),
        cur: Some(LogEntryModel { date: x, ..st.cur.unwrap() }),
        ..st
    });
    assert(st.stack.push(t.name).drop_last() =~= st.stack);
}

/// In `svn log`, the text of `<msg>` in an open log entry is its message.
pub proof fn law_log_msg(st: LogScan, t: TagModel, x: Seq<char>, rest: Seq<EventModel>)
    requires
        st.cur is Some,
        t.name == "msg"@,
    ensures
        log_run(element(t, x) + rest, st) == log_run(
            rest,
            LogScan { cur: Some(LogEntryModel { msg: x, ..st.cur.unwrap() }), ..st },
        ),
{
    reveal_strlit("logentry");
    reveal_strlit("path");
    reveal_strlit("author");
    reveal_strlit("date");
    reveal_strlit("msg");
    assert(t.name.len() != "logentry"@.len());
    assert(t.name != "logentry"@);
    assert(t.name.len() != "path"@.len());
    assert(t.name != "path"@);
    assert(t.name.len() != "author"@.len());
    assert(t.name != "author"@);
    assert(t.name.len() != "date"@.len());
    assert(t.name != "date"@);
    let e = element(t, x);
    assert(e[0] == EventModel::Start(t));
    assert(e[1] == EventModel::Text(x));
    assert(e[2] == EventModel::End(t.name));
    lemma_log_run3(st, e, rest);
    let s1 = log_step(st, EventModel::Start(t));
    assert(s1 == LogScan { stack: st.stack.push(t.name), ..st });
    let s2 = log_step(s1, EventModel::Text(x));
    assert(s2 == LogScan {
        stack: st.stack.push(t.name),
        cur: Some(LogEntryModel { msg: x, ..st.cur.unwrap() }),
        ..st
    });
    assert(st.stack.push(t.name).drop_last() =~= st.stack);
}

/// In `svn status`, the text of `<owner>` (of the `<lock>`) in an open
/// entry is its lock owner.
pub proof fn law_status_lock_owner(st: StatusScan, t: TagModel, x: Seq<char>, rest: Seq<EventModel>)
    requires
        st.cur is Some,
        t.name == "owner"@,
    ensures
        status_run(element(t, x) + rest, st) == status_run(
            rest,
            StatusScan { cur: Some(StatusEntryModel { lock_owner: x, ..st.cur.unwrap() }), ..st },
        ),
{
    reveal_strlit("entry");
    reveal_strlit("wc-status");
    reveal_strlit("repos-status");
    reveal_strlit("commit");
    reveal_strlit("against");
    reveal_strlit("author");
    reveal_strlit("owner");
    reveal_strlit("comment");
    assert(t.name[0] != "entry"@[0]);
    assert(t.name != "entry"@);
    assert(t.name.len() != "wc-status"@.len());
    assert(t.name != "wc-status"@);
    assert(t.name.len() != "repos-status"@.len());
    assert(t.name != "repos-status"@);
    assert(t.name.len() != "commit"@.len());
    assert(t.name != "commit"@);
    assert(t.name.len() != "against"@.len());
    assert(t.name != "against"@);
    assert(t.name.len() != "author"@.len());
    assert(t.name != "author"@);
    assert(t.name.len() != "comment"@.len());
    assert(t.name != "comment"@);
    let e = element(t, x);
    assert(e[0] == EventModel::Start(t));
    assert(e[1] == EventModel::Text(x));
    assert(e[2] == EventModel::End(t.name));
    lemma_status_run3(st, e, rest);
    let s1 = status_step(st, EventModel::Start(t));
    assert(s1 == StatusScan { stack: st.stack.push(t.name), ..st });
    let s2 = status_step(s1, EventModel::Text(x));
    assert(s2 == StatusScan {
        stack: st.stack.push(t.name),
        cur: Some(StatusEntryModel { lock_owner: x, ..st.cur.unwrap() }),
        ..st
    });
    assert(st.stack.push(t.name).drop_last() =~= st.stack);
}

/// In `svn status`, the text of `<comment>` (of the `<lock>`) in an open
/// entry is its lock comment.
pub proof fn law_status_lock_comment(st: StatusScan, t: TagModel, x: Seq<char>, rest: Seq<EventModel>)
    requires
        st.cur is Some,
        t.name == "comment"@,
    ensures
        status_run(element(t, x) + rest, st) == status_run(
            rest,
            StatusScan { cur: Some(StatusEntryModel { lock_comment: x, ..st.cur.unwrap() }), ..st },
        ),
{
    reveal_strlit("entry");
    reveal_strlit("wc-status");
    reveal_strlit("repos-status");
    reveal_strlit("commit");
    reveal_strlit("against");
    reveal_strlit("author");
    reveal_strlit("owner");
    reveal_strlit("comment");
    assert(t.name.len() != "entry"@.len());
    assert(t.name != "entry"@);
    assert(t.name.len() != "wc-status"@.len());
    assert(t.name != "wc-status"@);
    assert(t.name.len() != "repos-status"@.len());
    assert(t.name != "repos-status"@);
    assert(t.name.len() != "commit"@.len());
    assert(t.name != "commit"@);
    assert(t.name[0] != "against"@[0]);
    assert(t.name != "against"@);
    assert(t.name.len() != "author"@.len());
    assert(t.name != "author"@);
    assert(t.name.len() != "owner"@.len());
    assert(t.name != "owner"@);
    let e = element(t, x);
    assert(e[0] == EventModel::Start(t));
    assert(e[1] == EventModel::Text(x));
    assert(e[2] == EventModel::End(t.name));
    lemma_status_run3(st, e, rest);
    let s1 = status_step(st, EventModel::Start(t));
    assert(s1 == StatusScan { stack: st.stack.push(t.name), ..st });
    let s2 = status_step(s1, EventModel::Text(x));
    assert(s2 == StatusScan {
        stack: st.stack.push(t.name),
        cur: Some(StatusEntryModel { lock_comment: x, ..st.cur.unwrap() }),
        ..st
    });
    assert(st.stack.push(t.name).drop_last() =~= st.stack);
}

/// In `svn status`, the text of `<author>` inside the `<commit>` of an
/// open entry is its commit author.
pub proof fn law_status_commit_author(st: StatusScan, t: TagModel, x: Seq<char>, rest: Seq<EventModel>)
    requires
        st.cur is Some,
        st.in_commit,
        t.name == "author"@,
    ensures
        status_run(element(t, x) + rest, st) == status_run(
            rest,
            StatusScan { cur: Some(StatusEntryModel { commit_author: x, ..st.cur.unwrap() }), ..st },
        ),
{
    reveal_strlit("entry");
    reveal_strlit("wc-status");
    reveal_strlit("repos-status");
    reveal_strlit("commit");
    reveal_strlit("against");
    reveal_strlit("author");
    reveal_strlit("owner");
    reveal_strlit("comment");
    assert(t.name.len() != "entry"@.len());
    assert(t.name != "entry"@);
    assert(t.name.len() != "wc-status"@.len());
    assert(t.name != "wc-status"@);
    assert(t.name.len() != "repos-status"@.len());
    assert(t.name != "repos-status"@);
    assert(t.name[0] != "commit"@[0]);
    assert(t.name != "commit"@);
    assert(t.name.len() != "against"@.len());
    assert(t.name != "against"@);
    assert(t.name.len() != "owner"@.len());
    assert(t.name != "owner"@);
    assert(t.name.len() != "comment"@.len());
    assert(t.name != "comment"@);
    let e = element(t, x);
    assert(e[0] == EventModel::Start(t));
    assert(e[1] == EventModel::Text(x));
    assert(e[2] == EventModel::End(t.name));
    lemma_status_run3(st, e, rest);
    let s1 = status_step(st, EventModel::Start(t));
    assert(s1 == StatusScan { stack: st.stack.push(t.name), ..st });
    let s2 = status_step(s1, EventModel::Text(x));
    assert(s2 == StatusScan {
        stack: st.stack.push(t.name),
        cur: Some(StatusEntryModel { commit_author: x, ..st.cur.unwrap() }),
        ..st
    });
    assert(st.stack.push(t.name).drop_last() =~= st.stack);
}


/// In `svn list`, the text of `<size>` in an open entry, read as a
/// number, is its size.
pub proof fn law_list_size(st: ListScan, t: TagModel, x: Seq<char>, rest: Seq<EventModel>)
    requires
        st.cur is Some,
        t.name == "size"@,
    ensures
        list_run(element(t, x) + rest, st) == list_run(
            rest,
            ListScan { cur: Some(ListEntryModel { size: parse_i64(x), ..st.cur.unwrap() }), ..st },
        ),
{
    reveal_strlit("entry");
    reveal_strlit("commit");
    reveal_strlit("name");
    reveal_strlit("size");
    assert(t.name.len() != "entry"@.len());
    assert(t.name != "entry"@);
    assert(t.name.len() != "commit"@.len());
    assert(t.name != "commit"@);
    assert(t.name[0] != "name"@[0]);
    assert(t.name != "name"@);
    let e = element(t, x);
    assert(e[0] == EventModel::Start(t));
    assert(e[1] == EventModel::Text(x));
    assert(e[2] == EventModel::End(t.name));
    lemma_list_run3(st, e, rest);
    let s1 = list_step(st, EventModel::Start(t));
    assert(s1 == ListScan { stack: st.stack.push(t.name), ..st });
    let s2 = list_step(s1, EventModel::Text(x));
    assert(s2 == ListScan {
        stack: st.stack.push(t.name),
        cur: Some(ListEntryModel { size: parse_i64(x), ..st.cur.unwrap() }),
        ..st
    });
    assert(st.stack.push(t.name).drop_last() =~= st.stack);
}

proof fn lemma_list_run1(st: ListScan, e: EventModel, rest: Seq<EventModel>)
    requires
        plain_event(e),
    ensures
        list_run(seq![e] + rest, st) == list_run(rest, list_step(st, e)),
{
    assert((seq![e] + rest)[0] == e);
    assert((seq![e] + rest).drop_first() =~= rest);
}

/// In `svn list`, `<entry kind>` opens a new entry: of that kind (empty
/// when the attribute is missing), with nothing else known yet.
pub proof fn law_list_entry_opens(st: ListScan, t: TagModel, rest: Seq<EventModel>)
    requires
        t.name == "entry"@,
    ensures
        list_run(seq![EventModel::Start(t)] + rest, st) == list_run(
            rest,
            ListScan {
                cur: Some(
                    ListEntryModel {
                        name: seq![],
                        kind: or_empty(attr_of(t, "kind"@)),
                        size: None,
                        revision: None,
                        author: seq![],
                        date: seq![],
                    },
                ),
                stack: st.stack.push(t.name),
                ..st
            },
        ),
{
    lemma_list_run1(st, EventModel::Start(t), rest);
}

/// In `svn list`, `<commit revision>` in an open entry starts its commit
/// and sets its revision from the attribute (when there is one).
pub proof fn law_list_commit_opens(st: ListScan, t: TagModel, rest: Seq<EventModel>)
    requires
        st.cur is Some,
        t.name == "commit"@,
    ensures
        list_run(seq![EventModel::Start(t)] + rest, st) == list_run(
            rest,
            ListScan {
                in_commit: true,
                cur: Some(
                    ListEntryModel {
                        revision: match attr_of(t, "revision"@) {
                            Some(r) => parse_i64(r),
                            None => st.cur.unwrap().revision,
                        },
                        ..st.cur.unwrap()
                    },
                ),
                stack: st.stack.push(t.name),
                ..st
            },
        ),
{
    reveal_strlit("entry");
    reveal_strlit("commit");
    assert(t.name.len() != "entry"@.len());
    lemma_list_run1(st, EventModel::Start(t), rest);
}

/// In `svn list`, `</commit>` ends the commit.
pub proof fn law_list_commit_closes(st: ListScan, rest: Seq<EventModel>)
    ensures
        list_run(seq![EventModel::End("commit"@)] + rest, st) == list_run(
            rest,
            ListScan { in_commit: false, stack: popped(st.stack), ..st },
        ),
{
    lemma_list_run1(st, EventModel::End("commit"@), rest);
}

/// In `svn list`, `</entry>` appends the open entry to the entries.
pub proof fn law_list_entry_closes(st: ListScan, rest: Seq<EventModel>)
    requires
        st.cur is Some,
    ensures
        list_run(seq![EventModel::End("entry"@)] + rest, st) == list_run(
            rest,
            ListScan {
                entries: st.entries.push(st.cur.unwrap()),
                cur: None,
                stack: popped(st.stack),
                ..st
            },
        ),
{
    reveal_strlit("entry");
    reveal_strlit("commit");
    assert("entry"@.len() != "commit"@.len());
    lemma_list_run1(st, EventModel::End("entry"@), rest);
}

/// The events of one entry of `svn list --xml -v`:
/// `<entry kind><name>n</name><size>s</size><commit revision><author>a</author><date>d</date></commit></entry>`.
pub open spec fn list_entry_events(
    te: TagModel,
    tn: TagModel,
    n: Seq<char>,
    ts: TagModel,
    sz: Seq<char>,
    tc: TagModel,
    ta: TagModel,
    a: Seq<char>,
    td: TagModel,
    d: Seq<char>,
) -> Seq<EventModel> {
    seq![EventModel::Start(te)] + element(tn, n) + element(ts, sz) + seq![EventModel::Start(tc)]
        + element(ta, a) + element(td, d) + seq![EventModel::End("commit"@), EventModel::End("entry"@)]
}

/// One entry of `svn list --xml -v`, read from outside any entry, adds
/// one entry to the list: its name, kind, size, revision, author and date
/// are the texts and attributes of the matching elements.
pub proof fn law_list_entry(
    st: ListScan,
    te: TagModel,
    tn: TagModel,
    n: Seq<char>,
    ts: TagModel,
    sz: Seq<char>,
    tc: TagModel,
    ta: TagModel,
    a: Seq<char>,
    td: TagModel,
    d: Seq<char>,
    rest: Seq<EventModel>,
)
    requires
        te.name == "entry"@,
        tn.name == "name"@,
        ts.name == "size"@,
        tc.name == "commit"@,
        ta.name == "author"@,
        td.name == "date"@,
    ensures
        list_run(list_entry_events(te, tn, n, ts, sz, tc, ta, a, td, d) + rest, st) == list_run(
            rest,
            ListScan {
                entries: st.entries.push(
                    ListEntryModel {
                        name: n,
                        kind: or_empty(attr_of(te, "kind"@)),
                        size: parse_i64(sz),
                        revision: int_attr(attr_of(tc, "revision"@)),
                        author: a,
                        date: d,
                    },
                ),
                cur: None,
                in_commit: false,
                ..st
            },
        ),
{
    let r9 = seq![EventModel::End("entry"@)] + rest;
    let r8 = seq![EventModel::End("commit"@)] + r9;
    let r7 = element(td, d) + r8;
    let r6 = element(ta, a) + r7;
    let r5 = seq![EventModel::Start(tc)] + r6;
    let r4 = element(ts, sz) + r5;
    let r3 = element(tn, n) + r4;
    let all = seq![EventModel::Start(te)] + r3;
    assert(list_entry_events(te, tn, n, ts, sz, tc, ta, a, td, d) + rest =~= all);
    law_list_entry_opens(st, te, r3);
    let e0 = ListEntryModel {
        name: seq![],
        kind: or_empty(attr_of(te, "kind"@)),
        size: None,
        revision: None,
        author: seq![],
        date: seq![],
    };
    let s1 = ListScan { cur: Some(e0), stack: st.stack.push(te.name), ..st };
    law_list_name(s1, tn, n, r4);
    let s2 = ListScan { cur: Some(ListEntryModel { name: n, ..e0 }), ..s1 };
    law_list_size(s2, ts, sz, r5);
    let e3 = ListEntryModel { name: n, size: parse_i64(sz), ..e0 };
    let s3 = ListScan { cur: Some(e3), ..s1 };
    law_list_commit_opens(s3, tc, r6);
    let e4 = ListEntryModel { revision: int_attr(attr_of(tc, "revision"@)), ..e3 };
    let s4 = ListScan { in_commit: true, cur: Some(e4), stack: s1.stack.push(tc.name), ..s1 };
    law_list_commit_author(s4, ta, a, r7);
    let s5 = ListScan { cur: Some(ListEntryModel { author: a, ..e4 }), ..s4 };
    law_list_commit_date(s5, td, d, r8);
    let e6 = ListEntryModel { author: a, date: d, ..e4 };
    let s6 = ListScan { cur: Some(e6), ..s4 };
    law_list_commit_closes(s6, r9);
    assert(popped(s6.stack) =~= s1.stack);
    let s7 = ListScan { in_commit: false, stack: s1.stack, ..s6 };
    law_list_entry_closes(s7, rest);
    assert(popped(s7.stack) =~= st.stack);
}


proof fn lemma_log_run1(st: LogScan, e: EventModel, rest: Seq<EventModel>)
    requires
        plain_event(e),
    ensures
        log_run(seq![e] + rest, st) == log_run(rest, log_step(st, e)),
{
    assert((seq![e] + rest)[0] == e);
    assert((seq![e] + rest).drop_first() =~= rest);
}

/// In `svn log`, `<logentry revision>` opens a new entry with that
/// revision (0 when it is missing or not a number) and nothing else yet.
pub proof fn law_log_entry_opens(st: LogScan, t: TagModel, rest: Seq<EventModel>)
    requires
        t.name == "logentry"@,
    ensures
        log_run(seq![EventModel::Start(t)] + rest, st) == log_run(
            rest,
            LogScan {
                cur: Some(
                    LogEntryModel {
                        revision: match int_attr(attr_of(t, "revision"@)) {
                            Some(v) => v,
                            None => 0,
                        },
                        author: seq![],
                        date: seq![],
                        msg: seq![],
                        changed_paths: seq![],
                    },
                ),
                stack: st.stack.push(t.name),
                ..st
            },
        ),
{
    lemma_log_run1(st, EventModel::Start(t), rest);
}

/// In `svn log`, a `<path kind action copyfrom-path copyfrom-rev>` element
/// in an open entry adds one changed path to it: the element's text, with
/// the attributes (empty or none when missing).
pub proof fn law_log_changed_path(st: LogScan, t: TagModel, x: Seq<char>, rest: Seq<EventModel>)
    requires
        st.cur is Some,
        t.name == "path"@,
    ensures
        log_run(element(t, x) + rest, st) == log_run(
            rest,
            LogScan {
                cur: Some(
                    LogEntryModel {
                        changed_paths: st.cur.unwrap().changed_paths.push(
                            ChangePathModel {
                                path: x,
                                kind: or_empty(attr_of(t, "kind"@)),
                                action: or_empty(attr_of(t, "action"@)),
                                copyfrom_path: or_empty(attr_of(t, "copyfrom-path"@)),
                                copyfrom_rev: int_attr(attr_of(t, "copyfrom-rev"@)),
                            },
                        ),
                        ..st.cur.unwrap()
                    },
                ),
                cur_path: None,
                ..st
            },
        ),
{
    reveal_strlit("logentry");
    reveal_strlit("path");
    assert(t.name.len() != "logentry"@.len());
    assert(t.name != "logentry"@);
    let e = element(t, x);
    assert(e[0] == EventModel::Start(t));
    assert(e[1] == EventModel::Text(x));
    assert(e[2] == EventModel::End(t.name));
    lemma_log_run3(st, e, rest);
    assert(st.stack.push(t.name).drop_last() =~= st.stack);
}

/// In `svn log`, `</logentry>` appends the open entry to the entries.
pub proof fn law_log_entry_closes(st: LogScan, rest: Seq<EventModel>)
    requires
        st.cur is Some,
    ensures
        log_run(seq![EventModel::End("logentry"@)] + rest, st) == log_run(
            rest,
            LogScan {
                entries: st.entries.push(st.cur.unwrap()),
                cur: None,
                stack: popped(st.stack),
                ..st
            },
        ),
{
    reveal_strlit("logentry");
    reveal_strlit("path");
    assert("logentry"@.len() != "path"@.len());
    lemma_log_run1(st, EventModel::End("logentry"@), rest);
}

/// The events of one entry of `svn log --xml -v` with one changed path:
/// `<logentry revision><author>a</author><date>d</date><paths><path ...>p</path></paths><msg>m</msg></logentry>`.
pub open spec fn log_entry_events(
    tl: TagModel,
    ta: TagModel,
    a: Seq<char>,
    td: TagModel,
    d: Seq<char>,
    tps: TagModel,
    tp: TagModel,
    p: Seq<char>,
    tm: TagModel,
    m: Seq<char>,
) -> Seq<EventModel> {
    seq![EventModel::Start(tl)] + element(ta, a) + element(td, d) + seq![EventModel::Start(tps)]
        + element(tp, p) + seq![EventModel::End("paths"@)] + element(tm, m) + seq![
        EventModel::End("logentry"@),
    ]
}

/// One entry of `svn log --xml -v`, read from outside any entry, adds one
/// entry to the log: its revision, author, date, message and changed path
/// are the attributes and texts of the matching elements.
pub proof fn law_log_entry(
    st: LogScan,
    tl: TagModel,
    ta: TagModel,
    a: Seq<char>,
    td: TagModel,
    d: Seq<char>,
    tps: TagModel,
    tp: TagModel,
    p: Seq<char>,
    tm: TagModel,
    m: Seq<char>,
    rest: Seq<EventModel>,
)
    requires
        tl.name == "logentry"@,
        ta.name == "author"@,
        td.name == "date"@,
        tps.name == "paths"@,
        tp.name == "path"@,
        tm.name == "msg"@,
    ensures
        log_run(log_entry_events(tl, ta, a, td, d, tps, tp, p, tm, m) + rest, st) == log_run(
            rest,
            LogScan {
                entries: st.entries.push(
                    LogEntryModel {
                        revision: match int_attr(attr_of(tl, "revision"@)) {
                            Some(v) => v,
                            None => 0,
                        },
                        author: a,
                        date: d,
                        msg: m,
                        changed_paths: seq![
                            ChangePathModel {
                                path: p,
                                kind: or_empty(attr_of(tp, "kind"@)),
                                action: or_empty(attr_of(tp, "action"@)),
                                copyfrom_path: or_empty(attr_of(tp, "copyfrom-path"@)),
                                copyfrom_rev: int_attr(attr_of(tp, "copyfrom-rev"@)),
                            },
                        ],
                    },
                ),
                cur: None,
                cur_path: None,
                ..st
            },
        ),
{
    reveal_strlit("logentry");
    reveal_strlit("path");
    reveal_strlit("paths");
    assert(tps.name.len() != "logentry"@.len());
    assert(tps.name != "logentry"@);
    assert(tps.name.len() != "path"@.len());
    assert(tps.name != "path"@);
    let r8 = seq![EventModel::End("logentry"@)] + rest;
    let r7 = element(tm, m) + r8;
    let r6 = seq![EventModel::End("paths"@)] + r7;
    let r5 = element(tp, p) + r6;
    let r4 = seq![EventModel::Start(tps)] + r5;
    let r3 = element(td, d) + r4;
    let r2 = element(ta, a) + r3;
    let all = seq![EventModel::Start(tl)] + r2;
    assert(log_entry_events(tl, ta, a, td, d, tps, tp, p, tm, m) + rest =~= all);
    law_log_entry_opens(st, tl, r2);
    let e0 = LogEntryModel {
        revision: match int_attr(attr_of(tl, "revision"@)) {
            Some(v) => v,
            None => 0,
        },
        author: seq![],
        date: seq![],
        msg: seq![],
        changed_paths: seq![],
    };
    let s1 = LogScan { cur: Some(e0), stack: st.stack.push(tl.name), ..st };
    law_log_author(s1, ta, a, r3);
    let s2 = LogScan { cur: Some(LogEntryModel { author: a, ..e0 }), ..s1 };
    law_log_date(s2, td, d, r4);
    let e3 = LogEntryModel { author: a, date: d, ..e0 };
    let s3 = LogScan { cur: Some(e3), ..s1 };
    lemma_log_run1(s3, EventModel::Start(tps), r5);
    let s4 = LogScan { stack: s1.stack.push(tps.name), ..s3 };
    assert(log_step(s3, EventModel::Start(tps)) == s4);
    law_log_changed_path(s4, tp, p, r6);
    let cp = ChangePathModel {
        path: p,
        kind: or_empty(attr_of(tp, "kind"@)),
        action: or_empty(attr_of(tp, "action"@)),
        copyfrom_path: or_empty(attr_of(tp, "copyfrom-path"@)),
        copyfrom_rev: int_attr(attr_of(tp, "copyfrom-rev"@)),
    };
    let e5 = LogEntryModel { changed_paths: e3.changed_paths.push(cp), ..e3 };
    let s5 = LogScan { cur: Some(e5), cur_path: None, ..s4 };
    lemma_log_run1(s5, EventModel::End("paths"@), r7);
    assert("paths"@.len() != "path"@.len());
    assert("paths"@.len() != "logentry"@.len());
    let s6 = LogScan { stack: s1.stack, ..s5 };
    assert(s4.stack.drop_last() =~= s1.stack);
    assert(log_step(s5, EventModel::End("paths"@)) == s6);
    law_log_msg(s6, tm, m, r8);
    let e7 = LogEntryModel { msg: m, ..e5 };
    let s7 = LogScan { cur: Some(e7), ..s6 };
    law_log_entry_closes(s7, rest);
    assert(popped(s7.stack) =~= st.stack);
    assert(e3.changed_paths.push(cp) =~= seq![cp]);
}


proof fn lemma_status_run1(st: StatusScan, e: EventModel, rest: Seq<EventModel>)
    requires
        plain_event(e),
    ensures
        status_run(seq![e] + rest, st) == status_run(rest, status_step(st, e)),
{
    assert((seq![e] + rest)[0] == e);
    assert((seq![e] + rest).drop_first() =~= rest);
}

/// In `svn status`, `<entry path>` opens a new entry for that path (empty
/// when the attribute is missing) with nothing else known yet.
pub proof fn law_status_entry_opens(st: StatusScan, t: TagModel, rest: Seq<EventModel>)
    requires
        t.name == "entry"@,
    ensures
        status_run(seq![EventModel::Start(t)] + rest, st) == status_run(
            rest,
            StatusScan {
                cur: Some(
                    StatusEntryModel {
                        path: or_empty(attr_of(t, "path"@)),
                        item: seq![],
                        props: seq![],
                        wc_revision: None,
                        commit_revision: None,
                        commit_author: seq![],
                        wc_locked: false,
                        lock_owner: seq![],
                        lock_comment: seq![],
                        repos_item: seq![],
                    },
                ),
                stack: st.stack.push(t.name),
                ..st
            },
        ),
{
    lemma_status_run1(st, EventModel::Start(t), rest);
}

/// In `svn status`, `<wc-status item props revision wc-locked>` in an open
/// entry gives its item, properties, working revision and whether the
/// working copy is locked (`wc-locked="true"`).
pub proof fn law_status_wc_status_opens(st: StatusScan, t: TagModel, rest: Seq<EventModel>)
    requires
        st.cur is Some,
        t.name == "wc-status"@,
    ensures
        status_run(seq![EventModel::Start(t)] + rest, st) == status_run(
            rest,
            StatusScan {
                cur: Some(
                    StatusEntryModel {
                        item: or_empty(attr_of(t, "item"@)),
                        props: or_empty(attr_of(t, "props"@)),
                        wc_revision: int_attr(attr_of(t, "revision"@)),
                        wc_locked: attr_of(t, "wc-locked"@) == Some("true"@),
                        ..st.cur.unwrap()
                    },
                ),
                stack: st.stack.push(t.name),
                ..st
            },
        ),
{
    reveal_strlit("entry");
    reveal_strlit("wc-status");
    assert(t.name.len() != "entry"@.len());
    lemma_status_run1(st, EventModel::Start(t), rest);
}

/// In `svn status`, `<commit revision>` in an open entry starts its
/// commit and gives its commit revision.
pub proof fn law_status_commit_opens(st: StatusScan, t: TagModel, rest: Seq<EventModel>)
    requires
        st.cur is Some,
        t.name == "commit"@,
    ensures
        status_run(seq![EventModel::Start(t)] + rest, st) == status_run(
            rest,
            StatusScan {
                in_commit: true,
                cur: Some(
                    StatusEntryModel {
                        commit_revision: int_attr(attr_of(t, "revision"@)),
                        ..st.cur.unwrap()
                    },
                ),
                stack: st.stack.push(t.name),
                ..st
            },
        ),
{
    reveal_strlit("entry");
    reveal_strlit("wc-status");
    reveal_strlit("repos-status");
    reveal_strlit("commit");
    assert(t.name.len() != "entry"@.len());
    assert(t.name.len() != "wc-status"@.len());
    assert(t.name.len() != "repos-status"@.len());
    lemma_status_run1(st, EventModel::Start(t), rest);
}

/// In `svn status`, `</commit>` ends the commit.
pub proof fn law_status_commit_closes(st: StatusScan, rest: Seq<EventModel>)
    ensures
        status_run(seq![EventModel::End("commit"@)] + rest, st) == status_run(
            rest,
            StatusScan { in_commit: false, stack: popped(st.stack), ..st },
        ),
{
    lemma_status_run1(st, EventModel::End("commit"@), rest);
}

/// In `svn status`, `</entry>` appends the open entry to the entries.
pub proof fn law_status_entry_closes(st: StatusScan, rest: Seq<EventModel>)
    requires
        st.cur is Some,
    ensures
        status_run(seq![EventModel::End("entry"@)] + rest, st) == status_run(
            rest,
            StatusScan {
                entries: st.entries.push(st.cur.unwrap()),
                cur: None,
                stack: popped(st.stack),
                ..st
            },
        ),
{
    reveal_strlit("entry");
    reveal_strlit("commit");
    assert("entry"@.len() != "commit"@.len());
    lemma_status_run1(st, EventModel::End("entry"@), rest);
}

/// The end of an element that neither ends a commit nor an entry only
/// closes the element.
proof fn lemma_status_other_closes(st: StatusScan, n: Seq<char>, rest: Seq<EventModel>)
    requires
        n != "commit"@,
        n != "entry"@,
    ensures
        status_run(seq![EventModel::End(n)] + rest, st) == status_run(
            rest,
            StatusScan { stack: popped(st.stack), ..st },
        ),
{
    lemma_status_run1(st, EventModel::End(n), rest);
}

/// The events of one entry of `svn status --xml`:
/// `<entry path><wc-status ...><commit revision><author>a</author></commit><lock><owner>o</owner><comment>c</comment></lock></wc-status></entry>`.
pub open spec fn status_entry_events(
    te: TagModel,
    tw: TagModel,
    tc: TagModel,
    ta: TagModel,
    a: Seq<char>,
    tl: TagModel,
    to: TagModel,
    o: Seq<char>,
    tm: TagModel,
    c: Seq<char>,
) -> Seq<EventModel> {
    seq![EventModel::Start(te), EventModel::Start(tw), EventModel::Start(tc)] + element(ta, a)
        + seq![EventModel::End("commit"@), EventModel::Start(tl)] + element(to, o) + element(tm, c)
        + seq![EventModel::End("lock"@), EventModel::End("wc-status"@), EventModel::End("entry"@)]
}

/// One entry of `svn status --xml`, read from outside any entry, adds one
/// entry: its path, item, properties, working revision and lock flag come
/// from the attributes of `<entry>` and `<wc-status>`, its commit revision
/// and author from `<commit>`, and its lock owner and comment from the
/// `<owner>` and `<comment>` of its `<lock>`.
pub proof fn law_status_entry(
    st: StatusScan,
    te: TagModel,
    tw: TagModel,
    tc: TagModel,
    ta: TagModel,
    a: Seq<char>,
    tl: TagModel,
    to: TagModel,
    o: Seq<char>,
    tm: TagModel,
    c: Seq<char>,
    rest: Seq<EventModel>,
)
    requires
        te.name == "entry"@,
        tw.name == "wc-status"@,
        tc.name == "commit"@,
        ta.name == "author"@,
        tl.name == "lock"@,
        to.name == "owner"@,
        tm.name == "comment"@,
    ensures
        status_run(status_entry_events(te, tw, tc, ta, a, tl, to, o, tm, c) + rest, st)
            == status_run(
            rest,
            StatusScan {
                entries: st.entries.push(
                    StatusEntryModel {
                        path: or_empty(attr_of(te, "path"@)),
                        item: or_empty(attr_of(tw, "item"@)),
                        props: or_empty(attr_of(tw, "props"@)),
                        wc_revision: int_attr(attr_of(tw, "revision"@)),
                        commit_revision: int_attr(attr_of(tc, "revision"@)),
                        commit_author: a,
                        wc_locked: attr_of(tw, "wc-locked"@) == Some("true"@),
                        lock_owner: o,
                        lock_comment: c,
                        repos_item: seq![],
                    },
                ),
                cur: None,
                in_commit: false,
                ..st
            },
        ),
{
    reveal_strlit("entry");
    reveal_strlit("wc-status");
    reveal_strlit("repos-status");
    reveal_strlit("commit");
    reveal_strlit("against");
    reveal_strlit("lock");
    assert(tl.name.len() != "entry"@.len());
    assert(tl.name != "entry"@);
    assert(tl.name.len() != "wc-status"@.len());
    assert(tl.name != "wc-status"@);
    assert(tl.name.len() != "repos-status"@.len());
    assert(tl.name != "repos-status"@);
    assert(tl.name.len() != "commit"@.len());
    assert(tl.name != "commit"@);
    assert("lock"@.len() != "commit"@.len());
    assert("lock"@.len() != "entry"@.len());
    assert("wc-status"@.len() != "commit"@.len());
    assert("wc-status"@.len() != "entry"@.len());
    let r9 = seq![EventModel::End("wc-status"@), EventModel::End("entry"@)] + rest;
    let r8 = seq![EventModel::End("lock"@)] + r9;
    let r7 = element(tm, c) + r8;
    let r6 = element(to, o) + r7;
    let r5 = seq![EventModel::Start(tl)] + r6;
    let r4 = seq![EventModel::End("commit"@)] + r5;
    let r3 = element(ta, a) + r4;
    let r2 = seq![EventModel::Start(tc)] + r3;
    let r1 = seq![EventModel::Start(tw)] + r2;
    let all = seq![EventModel::Start(te)] + r1;
    assert(status_entry_events(te, tw, tc, ta, a, tl, to, o, tm, c) + rest =~= all);
    law_status_entry_opens(st, te, r1);
    let e0 = StatusEntryModel {
        path: or_empty(attr_of(te, "path"@)),
        item: seq![],
        props: seq![],
        wc_revision: None,
        commit_revision: None,
        commit_author: seq![],
        wc_locked: false,
        lock_owner: seq![],
        lock_comment: seq![],
        repos_item: seq![],
    };
    let s1 = StatusScan { cur: Some(e0), stack: st.stack.push(te.name), ..st };
    law_status_wc_status_opens(s1, tw, r2);
    let e2 = StatusEntryModel {
        item: or_empty(attr_of(tw, "item"@)),
        props: or_empty(attr_of(tw, "props"@)),
        wc_revision: int_attr(attr_of(tw, "revision"@)),
        wc_locked: attr_of(tw, "wc-locked"@) == Some("true"@),
        ..e0
    };
    let s2 = StatusScan { cur: Some(e2), stack: s1.stack.push(tw.name), ..s1 };
    law_status_commit_opens(s2, tc, r3);
    let e3 = StatusEntryModel { commit_revision: int_attr(attr_of(tc, "revision"@)), ..e2 };
    let s3 = StatusScan { in_commit: true, cur: Some(e3), stack: s2.stack.push(tc.name), ..s2 };
    law_status_commit_author(s3, ta, a, r4);
    let e4 = StatusEntryModel { commit_author: a, ..e3 };
    let s4 = StatusScan { cur: Some(e4), ..s3 };
    law_status_commit_closes(s4, r5);
    assert(popped(s4.stack) =~= s2.stack);
    let s5 = StatusScan { in_commit: false, stack: s2.stack, ..s4 };
    lemma_status_run1(s5, EventModel::Start(tl), r6);
    let s6 = StatusScan { stack: s2.stack.push(tl.name), ..s5 };
    assert(status_step(s5, EventModel::Start(tl)) == s6);
    law_status_lock_owner(s6, to, o, r7);
    let s7 = StatusScan { cur: Some(StatusEntryModel { lock_owner: o, ..e4 }), ..s6 };
    law_status_lock_comment(s7, tm, c, r8);
    let e8 = StatusEntryModel { lock_owner: o, lock_comment: c, ..e4 };
    let s8 = StatusScan { cur: Some(e8), ..s6 };
    lemma_status_other_closes(s8, "lock"@, r9);
    assert(popped(s8.stack) =~= s2.stack);
    let s9 = StatusScan { stack: s2.stack, ..s8 };
    assert(r9 =~= seq![EventModel::End("wc-status"@)] + (seq![EventModel::End("entry"@)] + rest));
    lemma_status_other_closes(s9, "wc-status"@, seq![EventModel::End("entry"@)] + rest);
    assert(popped(s9.stack) =~= s1.stack);
    let s10 = StatusScan { stack: s1.stack, ..s9 };
    law_status_entry_closes(s10, rest);
    assert(popped(s10.stack) =~= st.stack);
}


proof fn lemma_info_run1(st: InfoScan, e: EventModel, rest: Seq<EventModel>)
    requires
        plain_event(e),
    ensures
        info_run(seq![e] + rest, st) == info_run(rest, info_step(st, e)),
{
    assert((seq![e] + rest)[0] == e);
    assert((seq![e] + rest).drop_first() =~= rest);
}

proof fn lemma_info_run3(st: InfoScan, e: Seq<EventModel>, rest: Seq<EventModel>)
    requires
        e.len() == 3,
        plain_event(e[0]),
        plain_event(e[1]),
        plain_event(e[2]),
    ensures
        info_run(e + rest, st) == info_run(
            rest,
            info_step(info_step(info_step(st, e[0]), e[1]), e[2]),
        ),
{
    lemma_three(e, rest);
    let s = e + rest;
    assert(info_run(s, st) == info_run(s.drop_first(), info_step(st, e[0])));
    assert(info_run(s.drop_first(), info_step(st, e[0])) == info_run(
        s.drop_first().drop_first(),
        info_step(info_step(st, e[0]), e[1]),
    ));
}

/// In `svn info`, the text of `<root>` (inside `<repository>`) is the
/// repository root URL.
pub proof fn law_info_root_url(st: InfoScan, t: TagModel, x: Seq<char>, rest: Seq<EventModel>)
    requires
        st.stack.len() >= 1,
        t.name == "root"@,
    ensures
        info_run(element(t, x) + rest, st) == info_run(
            rest,
            InfoScan { info: RepoInfoModel { root_url: x, ..st.info }, ..st },
        ),
{
    reveal_strlit("entry");
    reveal_strlit("commit");
    reveal_strlit("wc-info");
    reveal_strlit("root");
    reveal_strlit("uuid");
    reveal_strlit("url");
    reveal_strlit("relative-url");
    reveal_strlit("wcroot-abspath");
    reveal_strlit("author");
    reveal_strlit("date");
    assert(t.name.len() != "entry"@.len());
    assert(t.name != "entry"@);
    assert(t.name.len() != "commit"@.len());
    assert(t.name != "commit"@);
    assert(t.name.len() != "wc-info"@.len());
    assert(t.name != "wc-info"@);
    let e = element(t, x);
    assert(e[0] == EventModel::Start(t));
    assert(e[1] == EventModel::Text(x));
    assert(e[2] == EventModel::End(t.name));
    lemma_info_run3(st, e, rest);
    let s1 = info_step(st, EventModel::Start(t));
    assert(s1 == InfoScan { stack: st.stack.push(t.name), ..st });
    let s2 = info_step(s1, EventModel::Text(x));
    assert(s2 == InfoScan {
        stack: st.stack.push(t.name),
        info: RepoInfoModel { root_url: x, ..st.info },
        ..st
    });
    assert(st.stack.push(t.name).drop_last() =~= st.stack);
}

/// In `svn info`, the text of `<uuid>` is the repository UUID.
pub proof fn law_info_uuid(st: InfoScan, t: TagModel, x: Seq<char>, rest: Seq<EventModel>)
    requires
        t.name == "uuid"@,
    ensures
        info_run(element(t, x) + rest, st) == info_run(
            rest,
            InfoScan { info: RepoInfoModel { uuid: x, ..st.info }, ..st },
        ),
{
    reveal_strlit("entry");
    reveal_strlit("commit");
    reveal_strlit("wc-info");
    reveal_strlit("root");
    reveal_strlit("uuid");
    reveal_strlit("url");
    reveal_strlit("relative-url");
    reveal_strlit("wcroot-abspath");
    reveal_strlit("author");
    reveal_strlit("date");
    assert(t.name.len() != "entry"@.len());
    assert(t.name != "entry"@);
    assert(t.name.len() != "commit"@.len());
    assert(t.name != "commit"@);
    assert(t.name.len() != "wc-info"@.len());
    assert(t.name != "wc-info"@);
    assert(t.name[0] != "root"@[0]);
    assert(t.name != "root"@);
    let e = element(t, x);
    assert(e[0] == EventModel::Start(t));
    assert(e[1] == EventModel::Text(x));
    assert(e[2] == EventModel::End(t.name));
    lemma_info_run3(st, e, rest);
    let s1 = info_step(st, EventModel::Start(t));
    assert(s1 == InfoScan { stack: st.stack.push(t.name), ..st });
    let s2 = info_step(s1, EventModel::Text(x));
    assert(s2 == InfoScan {
        stack: st.stack.push(t.name),
        info: RepoInfoModel { uuid: x, ..st.info },
        ..st
    });
    assert(st.stack.push(t.name).drop_last() =~= st.stack);
}

/// In `svn info`, the text of `<url>` is the URL.
pub proof fn law_info_url(st: InfoScan, t: TagModel, x: Seq<char>, rest: Seq<EventModel>)
    requires
        t.name == "url"@,
    ensures
        info_run(element(t, x) + rest, st) == info_run(
            rest,
            InfoScan { info: RepoInfoModel { url: x, ..st.info }, ..st },
        ),
{
    reveal_strlit("entry");
    reveal_strlit("commit");
    reveal_strlit("wc-info");
    reveal_strlit("root");
    reveal_strlit("uuid");
    reveal_strlit("url");
    reveal_strlit("relative-url");
    reveal_strlit("wcroot-abspath");
    reveal_strlit("author");
    reveal_strlit("date");
    assert(t.name.len() != "entry"@.len());
    assert(t.name != "entry"@);
    assert(t.name.len() != "commit"@.len());
    assert(t.name != "commit"@);
    assert(t.name.len() != "wc-info"@.len());
    assert(t.name != "wc-info"@);
    assert(t.name.len() != "root"@.len());
    assert(t.name != "root"@);
    assert(t.name.len() != "uuid"@.len());
    assert(t.name != "uuid"@);
    let e = element(t, x);
    assert(e[0] == EventModel::Start(t));
    assert(e[1] == EventModel::Text(x));
    assert(e[2] == EventModel::End(t.name));
    lemma_info_run3(st, e, rest);
    let s1 = info_step(st, EventModel::Start(t));
    assert(s1 == InfoScan { stack: st.stack.push(t.name), ..st });
    let s2 = info_step(s1, EventModel::Text(x));
    assert(s2 == InfoScan {
        stack: st.stack.push(t.name),
        info: RepoInfoModel { url: x, ..st.info },
        ..st
    });
    assert(st.stack.push(t.name).drop_last() =~= st.stack);
}

/// In `svn info`, the text of `<relative-url>` is the relative URL.
pub proof fn law_info_relative_url(st: InfoScan, t: TagModel, x: Seq<char>, rest: Seq<EventModel>)
    requires
        t.name == "relative-url"@,
    ensures
        info_run(element(t, x) + rest, st) == info_run(
            rest,
            InfoScan { info: RepoInfoModel { relative_url: x, ..st.info }, ..st },
        ),
{
    reveal_strlit("entry");
    reveal_strlit("commit");
    reveal_strlit("wc-info");
    reveal_strlit("root");
    reveal_strlit("uuid");
    reveal_strlit("url");
    reveal_strlit("relative-url");
    reveal_strlit("wcroot-abspath");
    reveal_strlit("author");
    reveal_strlit("date");
    assert(t.name.len() != "entry"@.len());
    assert(t.name != "entry"@);
    assert(t.name.len() != "commit"@.len());
    assert(t.name != "commit"@);
    assert(t.name.len() != "wc-info"@.len());
    assert(t.name != "wc-info"@);
    assert(t.name.len() != "root"@.len());
    assert(t.name != "root"@);
    assert(t.name.len() != "uuid"@.len());
    assert(t.name != "uuid"@);
    assert(t.name.len() != "url"@.len());
    assert(t.name != "url"@);
    let e = element(t, x);
    assert(e[0] == EventModel::Start(t));
    assert(e[1] == EventModel::Text(x));
    assert(e[2] == EventModel::End(t.name));
    lemma_info_run3(st, e, rest);
    let s1 = info_step(st, EventModel::Start(t));
    assert(s1 == InfoScan { stack: st.stack.push(t.name), ..st });
    let s2 = info_step(s1, EventModel::Text(x));
    assert(s2 == InfoScan {
        stack: st.stack.push(t.name),
        info: RepoInfoModel { relative_url: x, ..st.info },
        ..st
    });
    assert(st.stack.push(t.name).drop_last() =~= st.stack);
}

/// In `svn info`, the text of `<wcroot-abspath>` inside `<wc-info>` is
/// the working-copy root.
pub proof fn law_info_wc_root(st: InfoScan, t: TagModel, x: Seq<char>, rest: Seq<EventModel>)
    requires
        st.in_wcinfo,
        t.name == "wcroot-abspath"@,
    ensures
        info_run(element(t, x) + rest, st) == info_run(
            rest,
            InfoScan { info: RepoInfoModel { wc_root: x, ..st.info }, ..st },
        ),
{
    reveal_strlit("entry");
    reveal_strlit("commit");
    reveal_strlit("wc-info");
    reveal_strlit("root");
    reveal_strlit("uuid");
    reveal_strlit("url");
    reveal_strlit("relative-url");
    reveal_strlit("wcroot-abspath");
    reveal_strlit("author");
    reveal_strlit("date");
    assert(t.name.len() != "entry"@.len());
    assert(t.name != "entry"@);
    assert(t.name.len() != "commit"@.len());
    assert(t.name != "commit"@);
    assert(t.name.len() != "wc-info"@.len());
    assert(t.name != "wc-info"@);
    assert(t.name.len() != "root"@.len());
    assert(t.name != "root"@);
    assert(t.name.len() != "uuid"@.len());
    assert(t.name != "uuid"@);
    assert(t.name.len() != "url"@.len());
    assert(t.name != "url"@);
    assert(t.name.len() != "relative-url"@.len());
    assert(t.name != "relative-url"@);
    let e = element(t, x);
    assert(e[0] == EventModel::Start(t));
    assert(e[1] == EventModel::Text(x));
    assert(e[2] == EventModel::End(t.name));
    lemma_info_run3(st, e, rest);
    let s1 = info_step(st, EventModel::Start(t));
    assert(s1 == InfoScan { stack: st.stack.push(t.name), ..st });
    let s2 = info_step(s1, EventModel::Text(x));
    assert(s2 == InfoScan {
        stack: st.stack.push(t.name),
        info: RepoInfoModel { wc_root: x, ..st.info },
        ..st
    });
    assert(st.stack.push(t.name).drop_last() =~= st.stack);
}

/// In `svn info`, the text of `<author>` inside `<commit>` is the last
/// author.
pub proof fn law_info_last_author(st: InfoScan, t: TagModel, x: Seq<char>, rest: Seq<EventModel>)
    requires
        st.in_commit,
        t.name == "author"@,
    ensures
        info_run(element(t, x) + rest, st) == info_run(
            rest,
            InfoScan { info: RepoInfoModel { last_author: x, ..st.info }, ..st },
        ),
{
    reveal_strlit("entry");
    reveal_strlit("commit");
    reveal_strlit("wc-info");
    reveal_strlit("root");
    reveal_strlit("uuid");
    reveal_strlit("url");
    reveal_strlit("relative-url");
    reveal_strlit("wcroot-abspath");
    reveal_strlit("author");
    reveal_strlit("date");
    assert(t.name.len() != "entry"@.len());
    assert(t.name != "entry"@);
    assert(t.name[0] != "commit"@[0]);
    assert(t.name != "commit"@);
    assert(t.name.len() != "wc-info"@.len());
    assert(t.name != "wc-info"@);
    assert(t.name.len() != "root"@.len());
    assert(t.name != "root"@);
    assert(t.name.len() != "uuid"@.len());
    assert(t.name != "uuid"@);
    assert(t.name.len() != "url"@.len());
    assert(t.name != "url"@);
    assert(t.name.len() != "relative-url"@.len());
    assert(t.name != "relative-url"@);
    assert(t.name.len() != "wcroot-abspath"@.len());
    assert(t.name != "wcroot-abspath"@);
    let e = element(t, x);
    assert(e[0] == EventModel::Start(t));
    assert(e[1] == EventModel::Text(x));
    assert(e[2] == EventModel::End(t.name));
    lemma_info_run3(st, e, rest);
    let s1 = info_step(st, EventModel::Start(t));
    assert(s1 == InfoScan { stack: st.stack.push(t.name), ..st });
    let s2 = info_step(s1, EventModel::Text(x));
    assert(s2 == InfoScan {
        stack: st.stack.push(t.name),
        info: RepoInfoModel { last_author: x, ..st.info },
        ..st
    });
    assert(st.stack.push(t.name).drop_last() =~= st.stack);
}

/// In `svn info`, the text of `<date>` inside `<commit>` is the last
/// commit date.
pub proof fn law_info_last_date(st: InfoScan, t: TagModel, x: Seq<char>, rest: Seq<EventModel>)
    requires
        st.in_commit,
        t.name == "date"@,
    ensures
        info_run(element(t, x) + rest, st) == info_run(
            rest,
            InfoScan { info: RepoInfoModel { last_date: x, ..st.info }, ..st },
        ),
{
    reveal_strlit("entry");
    reveal_strlit("commit");
    reveal_strlit("wc-info");
    reveal_strlit("root");
    reveal_strlit("uuid");
    reveal_strlit("url");
    reveal_strlit("relative-url");
    reveal_strlit("wcroot-abspath");
    reveal_strlit("author");
    reveal_strlit("date");
    assert(t.name.len() != "entry"@.len());
    assert(t.name != "entry"@);
    assert(t.name.len() != "commit"@.len());
    assert(t.name != "commit"@);
    assert(t.name.len() != "wc-info"@.len());
    assert(t.name != "wc-info"@);
    assert(t.name[0] != "root"@[0]);
    assert(t.name != "root"@);
    assert(t.name[0] != "uuid"@[0]);
    assert(t.name != "uuid"@);
    assert(t.name.len() != "url"@.len());
    assert(t.name != "url"@);
    assert(t.name.len() != "relative-url"@.len());
    assert(t.name != "relative-url"@);
    assert(t.name.len() != "wcroot-abspath"@.len());
    assert(t.name != "wcroot-abspath"@);
    assert(t.name.len() != "author"@.len());
    assert(t.name != "author"@);
    let e = element(t, x);
    assert(e[0] == EventModel::Start(t));
    assert(e[1] == EventModel::Text(x));
    assert(e[2] == EventModel::End(t.name));
    lemma_info_run3(st, e, rest);
    let s1 = info_step(st, EventModel::Start(t));
    assert(s1 == InfoScan { stack: st.stack.push(t.name), ..st });
    let s2 = info_step(s1, EventModel::Text(x));
    assert(s2 == InfoScan {
        stack: st.stack.push(t.name),
        info: RepoInfoModel { last_date: x, ..st.info },
        ..st
    });
    assert(st.stack.push(t.name).drop_last() =~= st.stack);
}


/// In `svn info`, `<entry revision>` gives the revision (none when it is
/// missing or not a number).
pub proof fn law_info_entry_opens(st: InfoScan, t: TagModel, rest: Seq<EventModel>)
    requires
        t.name == "entry"@,
    ensures
        info_run(seq![EventModel::Start(t)] + rest, st) == info_run(
            rest,
            InfoScan {
                info: RepoInfoModel { revision: int_attr(attr_of(t, "revision"@)), ..st.info },
                stack: st.stack.push(t.name),
                ..st
            },
        ),
{
    lemma_info_run1(st, EventModel::Start(t), rest);
}

/// In `svn info`, `<commit revision>` starts the commit; a numeric
/// revision there replaces the revision.
pub proof fn law_info_commit_opens(st: InfoScan, t: TagModel, rest: Seq<EventModel>)
    requires
        t.name == "commit"@,
    ensures
        info_run(seq![EventModel::Start(t)] + rest, st) == info_run(
            rest,
            InfoScan {
                in_commit: true,
                info: RepoInfoModel {
                    revision: match attr_of(t, "revision"@) {
                        Some(r) => match parse_i64(r) {
                            Some(v) => Some(v),
                            None => st.info.revision,
                        },
                        None => st.info.revision,
                    },
                    ..st.info
                },
                stack: st.stack.push(t.name),
                ..st
            },
        ),
{
    reveal_strlit("entry");
    reveal_strlit("commit");
    assert(t.name.len() != "entry"@.len());
    lemma_info_run1(st, EventModel::Start(t), rest);
}

/// In `svn info`, `<wc-info>` marks a working copy.
pub proof fn law_info_wc_info_opens(st: InfoScan, t: TagModel, rest: Seq<EventModel>)
    requires
        t.name == "wc-info"@,
    ensures
        info_run(seq![EventModel::Start(t)] + rest, st) == info_run(
            rest,
            InfoScan {
                in_wcinfo: true,
                info: RepoInfoModel { is_wc: true, ..st.info },
                stack: st.stack.push(t.name),
                ..st
            },
        ),
{
    reveal_strlit("entry");
    reveal_strlit("commit");
    reveal_strlit("wc-info");
    assert(t.name.len() != "entry"@.len());
    assert(t.name.len() != "commit"@.len());
    lemma_info_run1(st, EventModel::Start(t), rest);
}

proof fn lemma_info_other_opens(st: InfoScan, t: TagModel, rest: Seq<EventModel>)
    requires
        t.name != "entry"@,
        t.name != "commit"@,
        t.name != "wc-info"@,
    ensures
        info_run(seq![EventModel::Start(t)] + rest, st) == info_run(
            rest,
            InfoScan { stack: st.stack.push(t.name), ..st },
        ),
{
    lemma_info_run1(st, EventModel::Start(t), rest);
}

proof fn lemma_info_closes(st: InfoScan, n: Seq<char>, rest: Seq<EventModel>)
    ensures
        info_run(seq![EventModel::End(n)] + rest, st) == info_run(
            rest,
            InfoScan {
                in_commit: if n == "commit"@ {
                    false
                } else {
                    st.in_commit
                },
                in_wcinfo: if n != "commit"@ && n == "wc-info"@ {
                    false
                } else {
                    st.in_wcinfo
                },
                stack: popped(st.stack),
                ..st
            },
        ),
{
    lemma_info_run1(st, EventModel::End(n), rest);
}

/// The events of `svn info --xml` for one entry:
/// `<entry revision><url>u</url><relative-url>r</relative-url><repository><root>R</root><uuid>U</uuid></repository><wc-info><wcroot-abspath>W</wcroot-abspath></wc-info><commit revision><author>A</author><date>D</date></commit></entry>`.
pub open spec fn info_entry_events(
    te: TagModel,
    tu: TagModel,
    u: Seq<char>,
    trl: TagModel,
    rl: Seq<char>,
    trep: TagModel,
    tro: TagModel,
    root: Seq<char>,
    tuu: TagModel,
    uuid: Seq<char>,
    tw: TagModel,
    twr: TagModel,
    wcroot: Seq<char>,
    tc: TagModel,
    ta: TagModel,
    a: Seq<char>,
    td: TagModel,
    d: Seq<char>,
) -> Seq<EventModel> {
    seq![EventModel::Start(te)] + element(tu, u) + element(trl, rl) + seq![EventModel::Start(trep)]
        + element(tro, root) + element(tuu, uuid) + seq![
        EventModel::End("repository"@),
        EventModel::Start(tw),
    ] + element(twr, wcroot) + seq![EventModel::End("wc-info"@), EventModel::Start(tc)] + element(
        ta,
        a,
    ) + element(td, d) + seq![EventModel::End("commit"@), EventModel::End("entry"@)]
}

/// `svn info --xml` for one working-copy entry, read outside any element
/// of it (inside `<info>`), gives the URLs, UUID, working-copy root, last
/// author and date from the texts of the matching elements; the revision
/// is the commit's when it is a number, else the entry's.
pub proof fn law_info_entry(
    st: InfoScan,
    te: TagModel,
    tu: TagModel,
    u: Seq<char>,
    trl: TagModel,
    rl: Seq<char>,
    trep: TagModel,
    tro: TagModel,
    root: Seq<char>,
    tuu: TagModel,
    uuid: Seq<char>,
    tw: TagModel,
    twr: TagModel,
    wcroot: Seq<char>,
    tc: TagModel,
    ta: TagModel,
    a: Seq<char>,
    td: TagModel,
    d: Seq<char>,
    rest: Seq<EventModel>,
)
    requires
        !st.in_commit,
        !st.in_wcinfo,
        te.name == "entry"@,
        tu.name == "url"@,
        trl.name == "relative-url"@,
        trep.name == "repository"@,
        tro.name == "root"@,
        tuu.name == "uuid"@,
        tw.name == "wc-info"@,
        twr.name == "wcroot-abspath"@,
        tc.name == "commit"@,
        ta.name == "author"@,
        td.name == "date"@,
    ensures
        info_run(
            info_entry_events(te, tu, u, trl, rl, trep, tro, root, tuu, uuid, tw, twr, wcroot, tc, ta, a, td, d)
                + rest,
            st,
        ) == info_run(
            rest,
            InfoScan {
                info: RepoInfoModel {
                    root_url: root,
                    url: u,
                    relative_url: rl,
                    uuid: uuid,
                    revision: match attr_of(tc, "revision"@) {
                        Some(r) => match parse_i64(r) {
                            Some(v) => Some(v),
                            None => int_attr(attr_of(te, "revision"@)),
                        },
                        None => int_attr(attr_of(te, "revision"@)),
                    },
                    last_author: a,
                    last_date: d,
                    is_wc: true,
                    wc_root: wcroot,
                    ..st.info
                },
                ..st
            },
        ),
{
    reveal_strlit("entry");
    reveal_strlit("commit");
    reveal_strlit("wc-info");
    reveal_strlit("repository");
    assert(trep.name.len() != "entry"@.len());
    assert(trep.name != "entry"@);
    assert(trep.name.len() != "commit"@.len());
    assert(trep.name != "commit"@);
    assert(trep.name.len() != "wc-info"@.len());
    assert(trep.name != "wc-info"@);
    assert("wc-info"@.len() != "commit"@.len());
    assert("entry"@.len() != "commit"@.len());
    assert("entry"@.len() != "wc-info"@.len());
    let r13 = seq![EventModel::End("commit"@), EventModel::End("entry"@)] + rest;
    let r12 = element(td, d) + r13;
    let r11 = element(ta, a) + r12;
    let r10 = seq![EventModel::End("wc-info"@), EventModel::Start(tc)] + r11;
    let r9 = element(twr, wcroot) + r10;
    let r8 = seq![EventModel::End("repository"@), EventModel::Start(tw)] + r9;
    let r7 = element(tuu, uuid) + r8;
    let r6 = element(tro, root) + r7;
    let r5 = seq![EventModel::Start(trep)] + r6;
    let r4 = element(trl, rl) + r5;
    let r3 = element(tu, u) + r4;
    let all = seq![EventModel::Start(te)] + r3;
    assert(info_entry_events(te, tu, u, trl, rl, trep, tro, root, tuu, uuid, tw, twr, wcroot, tc, ta, a, td, d)
        + rest =~= all);
    law_info_entry_opens(st, te, r3);
    let i1 = RepoInfoModel { revision: int_attr(attr_of(te, "revision"@)), ..st.info };
    let s1 = InfoScan { info: i1, stack: st.stack.push(te.name), ..st };
    law_info_url(s1, tu, u, r4);
    let s2 = InfoScan { info: RepoInfoModel { url: u, ..i1 }, ..s1 };
    law_info_relative_url(s2, trl, rl, r5);
    let i3 = RepoInfoModel { url: u, relative_url: rl, ..i1 };
    let s3 = InfoScan { info: i3, ..s1 };
    lemma_info_other_opens(s3, trep, r6);
    let s4 = InfoScan { stack: s1.stack.push(trep.name), ..s3 };
    law_info_root_url(s4, tro, root, r7);
    let s5 = InfoScan { info: RepoInfoModel { root_url: root, ..i3 }, ..s4 };
    law_info_uuid(s5, tuu, uuid, r8);
    let i6 = RepoInfoModel { root_url: root, uuid: uuid, ..i3 };
    let s6 = InfoScan { info: i6, ..s4 };
    assert(r8 =~= seq![EventModel::End("repository"@)] + (seq![EventModel::Start(tw)] + r9));
    lemma_info_closes(s6, "repository"@, seq![EventModel::Start(tw)] + r9);
    assert("repository"@.len() != "commit"@.len());
    assert("repository"@.len() != "wc-info"@.len());
    assert(popped(s6.stack) =~= s1.stack);
    let s7 = InfoScan { stack: s1.stack, ..s6 };
    law_info_wc_info_opens(s7, tw, r9);
    let i8 = RepoInfoModel { is_wc: true, ..i6 };
    let s8 = InfoScan { in_wcinfo: true, info: i8, stack: s1.stack.push(tw.name), ..s7 };
    law_info_wc_root(s8, twr, wcroot, r10);
    let i9 = RepoInfoModel { wc_root: wcroot, ..i8 };
    let s9 = InfoScan { info: i9, ..s8 };
    assert(r10 =~= seq![EventModel::End("wc-info"@)] + (seq![EventModel::Start(tc)] + r11));
    lemma_info_closes(s9, "wc-info"@, seq![EventModel::Start(tc)] + r11);
    assert(popped(s9.stack) =~= s1.stack);
    let s10 = InfoScan { in_wcinfo: false, stack: s1.stack, ..s9 };
    law_info_commit_opens(s10, tc, r11);
    let i11 = RepoInfoModel {
        revision: match attr_of(tc, "revision"@) {
            Some(r) => match parse_i64(r) {
                Some(v) => Some(v),
                None => i9.revision,
            },
            None => i9.revision,
        },
        ..i9
    };
    let s11 = InfoScan { in_commit: true, info: i11, stack: s1.stack.push(tc.name), ..s10 };
    law_info_last_author(s11, ta, a, r12);
    let s12 = InfoScan { info: RepoInfoModel { last_author: a, ..i11 }, ..s11 };
    law_info_last_date(s12, td, d, r13);
    let i13 = RepoInfoModel { last_author: a, last_date: d, ..i11 };
    let s13 = InfoScan { info: i13, ..s11 };
    assert(r13 =~= seq![EventModel::End("commit"@)] + (seq![EventModel::End("entry"@)] + rest));
    lemma_info_closes(s13, "commit"@, seq![EventModel::End("entry"@)] + rest);
    assert(popped(s13.stack) =~= s1.stack);
    let s14 = InfoScan { in_commit: false, stack: s1.stack, ..s13 };
    lemma_info_closes(s14, "entry"@, rest);
    assert(popped(s14.stack) =~= st.stack);
}


proof fn lemma_prop_run1(st: PropScan, e: EventModel, rest: Seq<EventModel>)
    requires
        plain_event(e),
    ensures
        prop_run(seq![e] + rest, st) == prop_run(rest, prop_step(st, e)),
{
    assert((seq![e] + rest)[0] == e);
    assert((seq![e] + rest).drop_first() =~= rest);
}

/// In `svn proplist -v`, `<property name="n">text</property>` adds the
/// property `n` whose value is the text without its trailing newlines.
pub proof fn law_prop_property(st: PropScan, t: TagModel, x: Seq<char>, rest: Seq<EventModel>)
    requires
        t.name == "property"@,
        attr_of(t, "name"@) is Some,
    ensures
        prop_run(element(t, x) + rest, st) == prop_run(
            rest,
            PropScan {
                props: st.props.push(
                    PropEntryModel { name: attr_of(t, "name"@).unwrap(), value: trim_newlines_end(x) },
                ),
                cur_name: None,
                cur_value: x,
            },
        ),
{
    let e = element(t, x);
    assert(e[0] == EventModel::Start(t));
    assert(e[1] == EventModel::Text(x));
    assert(e[2] == EventModel::End(t.name));
    assert(e =~= seq![e[0]] + (seq![e[1]] + seq![e[2]]));
    assert(e + rest =~= seq![e[0]] + (seq![e[1]] + (seq![e[2]] + rest)));
    lemma_prop_run1(st, e[0], seq![e[1]] + (seq![e[2]] + rest));
    let s1 = PropScan { cur_name: attr_of(t, "name"@), cur_value: seq![], ..st };
    lemma_prop_run1(s1, e[1], seq![e[2]] + rest);
    let s2 = PropScan { cur_value: x, ..s1 };
    assert(Seq::<char>::empty() + x =~= x);
    lemma_prop_run1(s2, e[2], rest);
}

/// In `svn proplist -v`, a self-closing `<property name="n"/>` adds the
/// property `n` with an empty value.
pub proof fn law_prop_empty_property(st: PropScan, t: TagModel, rest: Seq<EventModel>)
    requires
        t.name == "property"@,
    ensures
        prop_run(seq![EventModel::Empty(t)] + rest, st) == prop_run(
            rest,
            PropScan {
                props: st.props.push(
                    PropEntryModel { name: or_empty(attr_of(t, "name"@)), value: seq![] },
                ),
                ..st
            },
        ),
{
    lemma_prop_run1(st, EventModel::Empty(t), rest);
}

/// Dropping the trailing newlines of a text leaves a prefix of it that
/// does not end with a newline; everything dropped is a newline.
pub proof fn law_trim_newlines_end(s: Seq<char>)
    ensures
        trim_newlines_end(s).len() <= s.len(),
        s.take(trim_newlines_end(s).len() as int) == trim_newlines_end(s),
        trim_newlines_end(s).len() == 0 || trim_newlines_end(s).last() != '\n',
        forall|i: int| trim_newlines_end(s).len() <= i < s.len() ==> s[i] == '\n',
    decreases s.len(),
{
    if s.len() > 0 && s.last() == '\n' {
        let p = s.drop_last();
        law_trim_newlines_end(p);
        assert(s.take(trim_newlines_end(p).len() as int) =~= p.take(trim_newlines_end(p).len() as int));
        assert forall|i: int| trim_newlines_end(s).len() <= i < s.len() implies s[i] == '\n' by {
            if i < p.len() {
                assert(s[i] == p[i]);
            }
        }
    } else {
        assert(s.take(s.len() as int) =~= s);
    }
}


/// A line of `svn auth` that is not a separator and reads `key: value`,
/// with `key` and `value` trimmed.
pub open spec fn auth_field_line(l: Seq<char>, key: Seq<char>, value: Seq<char>) -> bool {
    &&& unescape_spec(l) == l
    &&& !is_rule(trim(l))
    &&& find_char(l, ':') < l.len()
    &&& trim(l.take(find_char(l, ':'))) == key
    &&& trim(l.skip(find_char(l, ':') + 1)) == value
}

/// In `svn auth`, a `Credential kind: k` line completes the open
/// credential and opens a new one of kind `k`, whose raw text starts with
/// this line.
pub proof fn law_auth_header(st: AuthScan, l: Seq<char>, k: Seq<char>)
    requires
        auth_field_line(l, "Credential kind"@, k),
    ensures
        auth_step(st, l) == (AuthScan { cur: Some(new_cred(k)), raw_lines: seq![l], ..auth_finish(st) }),
{
}

/// In `svn auth`, a separator line completes the open credential.
pub proof fn law_auth_separator(st: AuthScan, l: Seq<char>)
    requires
        unescape_spec(l) == l,
        is_rule(trim(l)),
    ensures
        auth_step(st, l) == (AuthScan { raw_lines: seq![], ..auth_finish(st) }),
{
}

/// Completing a credential adds it, with its collected lines joined by
/// newlines as its raw text.
pub proof fn law_auth_finish(st: AuthScan)
    requires
        st.cur is Some,
    ensures
        auth_finish(st).creds == st.creds.push(
            AuthCredModel { raw: join(st.raw_lines, "\n"@), ..st.cur.unwrap() },
        ),
        auth_finish(st).cur is None,
{
}

/// In `svn auth`, a `Authentication realm: v` line of an open credential sets its
/// realm to `v` and joins its raw text.
pub proof fn law_auth_realm(st: AuthScan, l: Seq<char>, v: Seq<char>)
    requires
        st.cur is Some,
        auth_field_line(l, "Authentication realm"@, v),
    ensures
        auth_step(st, l) == (AuthScan {
            cur: Some(AuthCredModel { realm: v, ..st.cur.unwrap() }),
            raw_lines: st.raw_lines.push(l),
            ..st
        }),
{
    reveal_strlit("Credential kind");
    reveal_strlit("Authentication realm");
    reveal_strlit("Password cache");
    reveal_strlit("Username");
    reveal_strlit("Subject");
    reveal_strlit("Fingerprint");
    assert("Authentication realm"@.len() != "Credential kind"@.len());
    assert("Authentication realm"@.len() != "Password cache"@.len());
    assert("Authentication realm"@.len() != "Username"@.len());
    assert("Authentication realm"@.len() != "Subject"@.len());
    assert("Authentication realm"@.len() != "Fingerprint"@.len());
}

/// In `svn auth`, a `Password cache: v` line of an open credential sets its
/// password cache to `v` and joins its raw text.
pub proof fn law_auth_password_cache(st: AuthScan, l: Seq<char>, v: Seq<char>)
    requires
        st.cur is Some,
        auth_field_line(l, "Password cache"@, v),
    ensures
        auth_step(st, l) == (AuthScan {
            cur: Some(AuthCredModel { password_cache: v, ..st.cur.unwrap() }),
            raw_lines: st.raw_lines.push(l),
            ..st
        }),
{
    reveal_strlit("Credential kind");
    reveal_strlit("Authentication realm");
    reveal_strlit("Password cache");
    reveal_strlit("Username");
    reveal_strlit("Subject");
    reveal_strlit("Fingerprint");
    assert("Password cache"@.len() != "Credential kind"@.len());
    assert("Password cache"@.len() != "Authentication realm"@.len());
    assert("Password cache"@.len() != "Username"@.len());
    assert("Password cache"@.len() != "Subject"@.len());
    assert("Password cache"@.len() != "Fingerprint"@.len());
}

/// In `svn auth`, a `Username: v` line of an open credential sets its
/// username to `v` and joins its raw text.
pub proof fn law_auth_username(st: AuthScan, l: Seq<char>, v: Seq<char>)
    requires
        st.cur is Some,
        auth_field_line(l, "Username"@, v),
    ensures
        auth_step(st, l) == (AuthScan {
            cur: Some(AuthCredModel { username: v, ..st.cur.unwrap() }),
            raw_lines: st.raw_lines.push(l),
            ..st
        }),
{
    reveal_strlit("Credential kind");
    reveal_strlit("Authentication realm");
    reveal_strlit("Password cache");
    reveal_strlit("Username");
    reveal_strlit("Subject");
    reveal_strlit("Fingerprint");
    assert("Username"@.len() != "Credential kind"@.len());
    assert("Username"@.len() != "Authentication realm"@.len());
    assert("Username"@.len() != "Password cache"@.len());
    assert("Username"@.len() != "Subject"@.len());
    assert("Username"@.len() != "Fingerprint"@.len());
}

/// In `svn auth`, a `Subject: v` line of an open credential sets its
/// subject to `v` and joins its raw text.
pub proof fn law_auth_subject(st: AuthScan, l: Seq<char>, v: Seq<char>)
    requires
        st.cur is Some,
        auth_field_line(l, "Subject"@, v),
    ensures
        auth_step(st, l) == (AuthScan {
            cur: Some(AuthCredModel { subject: v, ..st.cur.unwrap() }),
            raw_lines: st.raw_lines.push(l),
            ..st
        }),
{
    reveal_strlit("Credential kind");
    reveal_strlit("Authentication realm");
    reveal_strlit("Password cache");
    reveal_strlit("Username");
    reveal_strlit("Subject");
    reveal_strlit("Fingerprint");
    assert("Subject"@.len() != "Credential kind"@.len());
    assert("Subject"@.len() != "Authentication realm"@.len());
    assert("Subject"@.len() != "Password cache"@.len());
    assert("Subject"@.len() != "Username"@.len());
    assert("Subject"@.len() != "Fingerprint"@.len());
}

/// In `svn auth`, a `Fingerprint: v` line of an open credential sets its
/// fingerprint to `v` and joins its raw text.
pub proof fn law_auth_fingerprint(st: AuthScan, l: Seq<char>, v: Seq<char>)
    requires
        st.cur is Some,
        auth_field_line(l, "Fingerprint"@, v),
    ensures
        auth_step(st, l) == (AuthScan {
            cur: Some(AuthCredModel { fingerprint: v, ..st.cur.unwrap() }),
            raw_lines: st.raw_lines.push(l),
            ..st
        }),
{
    reveal_strlit("Credential kind");
    reveal_strlit("Authentication realm");
    reveal_strlit("Password cache");
    reveal_strlit("Username");
    reveal_strlit("Subject");
    reveal_strlit("Fingerprint");
    assert("Fingerprint"@.len() != "Credential kind"@.len());
    assert("Fingerprint"@.len() != "Authentication realm"@.len());
    assert("Fingerprint"@.len() != "Password cache"@.len());
    assert("Fingerprint"@.len() != "Username"@.len());
    assert("Fingerprint"@.len() != "Subject"@.len());
}


/// A line of `svn blame` reading `r<rev> <author> <words...>` (after
/// trimming; not an `svn:` notice) gives that revision, the author, and
/// the words joined by single spaces as the text, numbered as given.
pub proof fn law_blame_line(raw: Seq<char>, line_no: int, n: i64)
    requires
        trim(raw).len() > 0,
        !starts_with(trim(raw), "svn:"@),
        ws_tokens(trim(raw)).len() >= 2,
        ws_tokens(trim(raw))[0].len() > 0,
        ws_tokens(trim(raw))[0][0] == 'r',
        parse_i64(ws_tokens(trim(raw))[0].drop_first()) == Some(n),
    ensures
        blame_line(raw, line_no) == Some(
            Ok::<BlameLineModel, Seq<char>>(
                BlameLineModel {
                    line_no: line_no as usize,
                    revision: n,
                    author: ws_tokens(trim(raw))[1],
                    text: if ws_tokens(trim(raw)).len() > 2 {
                        join(ws_tokens(trim(raw)).skip(2), " "@)
                    } else {
                        seq![]
                    },
                },
            ),
        ),
{
}


/// In `svn status -u`, `<repos-status item>` in an open entry gives the
/// entry's status on the server.
pub proof fn law_status_repos_status_opens(st: StatusScan, t: TagModel, rest: Seq<EventModel>)
    requires
        st.cur is Some,
        t.name == "repos-status"@,
    ensures
        status_run(seq![EventModel::Start(t)] + rest, st) == status_run(
            rest,
            StatusScan {
                cur: Some(StatusEntryModel { repos_item: or_empty(attr_of(t, "item"@)), ..st.cur.unwrap() }),
                stack: st.stack.push(t.name),
                ..st
            },
        ),
{
    reveal_strlit("entry");
    reveal_strlit("wc-status");
    reveal_strlit("repos-status");
    assert(t.name.len() != "entry"@.len());
    assert(t.name.len() != "wc-status"@.len());
    lemma_status_run1(st, EventModel::Start(t), rest);
}

/// In `svn status -u`, `<against revision/>` gives the server's latest
/// revision.
pub proof fn law_status_against(st: StatusScan, t: TagModel, rest: Seq<EventModel>)
    requires
        t.name == "against"@,
    ensures
        status_run(seq![EventModel::Empty(t)] + rest, st) == status_run(
            rest,
            StatusScan { against: int_attr(attr_of(t, "revision"@)), ..st },
        ),
{
    reveal_strlit("wc-status");
    reveal_strlit("against");
    assert(t.name.len() != "wc-status"@.len());
    lemma_status_run1(st, EventModel::Empty(t), rest);
}

/// In `svn status`, a self-closing `<wc-status item props revision/>` in
/// an open entry gives the same as its opening tag would.
pub proof fn law_status_wc_status_empty(st: StatusScan, t: TagModel, rest: Seq<EventModel>)
    requires
        st.cur is Some,
        t.name == "wc-status"@,
    ensures
        status_run(seq![EventModel::Empty(t)] + rest, st) == status_run(
            rest,
            StatusScan {
                cur: Some(
                    StatusEntryModel {
                        item: or_empty(attr_of(t, "item"@)),
                        props: or_empty(attr_of(t, "props"@)),
                        wc_revision: int_attr(attr_of(t, "revision"@)),
                        wc_locked: attr_of(t, "wc-locked"@) == Some("true"@),
                        ..st.cur.unwrap()
                    },
                ),
                ..st
            },
        ),
{
    reveal_strlit("wc-status");
    reveal_strlit("against");
    assert(t.name.len() != "against"@.len());
    lemma_status_run1(st, EventModel::Empty(t), rest);
}

} // verus!
