//! Recently used locations (remote URLs and local working copies).
//!
//! Ordered by last use, most recent first; the same kind and value is
//! kept once (a new use moves it to the front); at most `MAX_ENTRIES` are
//! kept.  Loading and saving the list is the caller's business.

use vstd::prelude::*;

use crate::text::{trim, trim_string};

verus! {

/// Number of history entries kept.
pub const MAX_ENTRIES: usize = 50;

/// A use of a location: `kind` is "remote" or "local", `value` the URL or
/// the path, `last_used` Unix seconds.
#[derive(Clone, Debug)]
pub struct HistoryEntry {
    pub kind: String,
    pub value: String,
    pub last_used: i64,
}

pub struct HistoryEntryModel {
    pub kind: Seq<char>,
    pub value: Seq<char>,
    pub last_used: i64,
}

impl DeepView for HistoryEntry {
    type V = HistoryEntryModel;

    open spec fn deep_view(&self) -> HistoryEntryModel {
        HistoryEntryModel { kind: self.kind@, value: self.value@, last_used: self.last_used }
    }
}

impl HistoryEntry {
    /// A copy with the same fields.
    pub fn duplicate(&self) -> (res: HistoryEntry)
        ensures
            res.deep_view() == self.deep_view(),
    {
        HistoryEntry { kind: self.kind.clone(), value: self.value.clone(), last_used: self.last_used }
    }
}

/// The entries other than `(kind, value)`, in order.
pub open spec fn without_entry(list: Seq<HistoryEntryModel>, kind: Seq<char>, value: Seq<char>) -> Seq<
    HistoryEntryModel,
>
    decreases list.len(),
{
    if list.len() == 0 {
        seq![]
    } else {
        let rest = without_entry(list.drop_last(), kind, value);
        if list.last().kind == kind && list.last().value == value {
            rest
        } else {
            rest.push(list.last())
        }
    }
}

/// The history after a use of `(kind, value)` (value trimmed); `None`
/// when the value is empty, which records nothing.
pub open spec fn record_spec(
    list: Seq<HistoryEntryModel>,
    kind: Seq<char>,
    value: Seq<char>,
    now: i64,
) -> Option<Seq<HistoryEntryModel>> {
    let v = trim(value);
    if v.len() == 0 {
        None
    } else {
        Some(
            crate::favorites::truncated(
                seq![HistoryEntryModel { kind, value: v, last_used: now }] + without_entry(
                    list,
                    kind,
                    v,
                ),
                MAX_ENTRIES as int,
            ),
        )
    }
}

fn without_entry_exec(list: &Vec<HistoryEntry>, kind: &String, value: &String) -> (res: Vec<
    HistoryEntry,
>)
    ensures
        res.deep_view() == without_entry(list.deep_view(), kind@, value@),
{
    let ghost l = list.deep_view();
    let mut kept: Vec<HistoryEntry> = Vec::new();
    let mut i: usize = 0;
    assert(kept.deep_view() =~= without_entry(l.take(0), kind@, value@));
    while i < list.len()
        invariant
            l == list.deep_view(),
            i <= list@.len(),
            kept.deep_view() == without_entry(l.take(i as int), kind@, value@),
        decreases list@.len() - i,
    {
        assert(l.take(i + 1).drop_last() =~= l.take(i as int));
        assert(l.take(i + 1).last() == list@[i as int].deep_view());
        if !(list[i].kind == *kind && list[i].value == *value) {
            let d = list[i].duplicate();
            let ghost before = kept.deep_view();
            let ghost dm = d.deep_view();
            kept.push(d);
            assert(kept.deep_view() =~= before.push(dm));
        }
        i = i + 1;
    }
    assert(l.take(list@.len() as int) =~= l);
    kept
}

/// The history after a use of `(kind, value)`: the value is trimmed, the
/// entry goes first, an older entry for the same kind and value is
/// dropped, at most `MAX_ENTRIES` are kept; `None` for an empty value.
pub fn history_after_add(list: &Vec<HistoryEntry>, kind: &str, value: &str, now: i64) -> (res:
    Option<Vec<HistoryEntry>>)
    ensures
        match (res, record_spec(list.deep_view(), kind@, value@, now)) {
            (Some(v), Some(m)) => v.deep_view() == m,
            (None, None) => true,
            _ => false,
        },
{
    let v = trim_string(value);
    if v.as_str().is_empty() {
        return None;
    }
    let k = crate::text::lit(kind);
    let rest = without_entry_exec(list, &k, &v);
    let ghost rm = rest.deep_view();
    let mut out: Vec<HistoryEntry> = Vec::new();
    let first = HistoryEntry { kind: k, value: v, last_used: now };
    let ghost fm = first.deep_view();
    out.push(first);
    let mut i: usize = 0;
    assert(out.deep_view() =~= seq![fm] + rm.take(0));
    while i < rest.len() && out.len() < MAX_ENTRIES
        invariant
            rm == rest.deep_view(),
            i <= rest@.len(),
            out@.len() == i + 1,
            out@.len() <= MAX_ENTRIES,
            out.deep_view() == seq![fm] + rm.take(i as int),
        decreases rest@.len() - i,
    {
        let d = rest[i].duplicate();
        let ghost before = out.deep_view();
        let ghost dm = d.deep_view();
        out.push(d);
        assert(out.deep_view() =~= before.push(dm));
        i = i + 1;
        assert(out.deep_view() =~= seq![fm] + rm.take(i as int));
    }
    if i == rest.len() {
        assert(rm.take(i as int) =~= rm);
    } else {
        assert((seq![fm] + rm).take(MAX_ENTRIES as int) =~= seq![fm] + rm.take(i as int));
    }
    assert(out.deep_view() =~= crate::favorites::truncated(seq![fm] + rm, MAX_ENTRIES as int));
    Some(out)
}

// ---------------------------------------------------------------------------
// laws
// ---------------------------------------------------------------------------

proof fn lemma_without_entry(list: Seq<HistoryEntryModel>, kind: Seq<char>, value: Seq<char>)
    ensures
        forall|i: int|
            0 <= i < without_entry(list, kind, value).len() ==> !((#[trigger] without_entry(
                list,
                kind,
                value,
            )[i]).kind == kind && without_entry(list, kind, value)[i].value == value),
    decreases list.len(),
{
    if list.len() > 0 {
        lemma_without_entry(list.drop_last(), kind, value);
        let rest = without_entry(list.drop_last(), kind, value);
        let last = list.last();
        if !(last.kind == kind && last.value == value) {
            let r = rest.push(last);
            assert forall|i: int| 0 <= i < r.len() implies !((#[trigger] r[i]).kind == kind
                && r[i].value == value) by {
                if i < rest.len() {
                    assert(r[i] == rest[i]);
                }
            }
        }
    }
}

/// A recorded use comes first, appears only once, and at most
/// `MAX_ENTRIES` entries are kept.
pub proof fn law_record_front_once_bounded(
    list: Seq<HistoryEntryModel>,
    kind: Seq<char>,
    value: Seq<char>,
    now: i64,
)
    requires
        record_spec(list, kind, value, now) is Some,
    ensures
        ({
            let r = record_spec(list, kind, value, now)->Some_0;
            &&& r.len() >= 1
            &&& r.len() <= MAX_ENTRIES
            &&& r[0] == HistoryEntryModel { kind, value: trim(value), last_used: now }
            &&& forall|i: int|
                1 <= i < r.len() ==> !((#[trigger] r[i]).kind == kind && r[i].value == trim(value))
        }),
{
    let v = trim(value);
    lemma_without_entry(list, kind, v);
    let w = without_entry(list, kind, v);
    let full = seq![HistoryEntryModel { kind, value: v, last_used: now }] + w;
    let r = crate::favorites::truncated(full, MAX_ENTRIES as int);
    assert forall|i: int| 1 <= i < r.len() implies !((#[trigger] r[i]).kind == kind && r[i].value
        == v) by {
        assert(r[i] == full[i]);
        assert(full[i] == w[i - 1]);
    }
}

} // verus!
