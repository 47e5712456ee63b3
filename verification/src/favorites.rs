//! Favorite remote locations.
//!
//! Keyed by URL: adding a URL again updates its name and moves it to the
//! front; the most recent favorite comes first; at most `MAX_FAVS` are
//! kept.  Loading and saving the list is the caller's business.

use vstd::prelude::*;

use crate::text::{lit, trim, trim_string};

verus! {

/// Number of favorites kept.
pub const MAX_FAVS: usize = 100;

/// A favorite: display name, URL and creation time (Unix seconds).
#[derive(Clone, Debug)]
pub struct Favorite {
    pub name: String,
    pub url: String,
    pub created_at: i64,
}

pub struct FavoriteModel {
    pub name: Seq<char>,
    pub url: Seq<char>,
    pub created_at: i64,
}

impl DeepView for Favorite {
    type V = FavoriteModel;

    open spec fn deep_view(&self) -> FavoriteModel {
        FavoriteModel { name: self.name@, url: self.url@, created_at: self.created_at }
    }
}

/// The favorites whose URL differs from `url`, in order.
pub open spec fn without_url(list: Seq<FavoriteModel>, url: Seq<char>) -> Seq<FavoriteModel>
    decreases list.len(),
{
    if list.len() == 0 {
        seq![]
    } else {
        let rest = without_url(list.drop_last(), url);
        if list.last().url == url {
            rest
        } else {
            rest.push(list.last())
        }
    }
}

/// At most `n` first elements.
pub open spec fn truncated<A>(s: Seq<A>, n: int) -> Seq<A> {
    if s.len() > n {
        s.take(n)
    } else {
        s
    }
}

/// The list after adding (or renaming) a favorite, or the error for an
/// empty URL or name (both trimmed first).
pub open spec fn add_spec(list: Seq<FavoriteModel>, name: Seq<char>, url: Seq<char>, now: i64) -> Result<
    Seq<FavoriteModel>,
    Seq<char>,
> {
    let u = trim(url);
    let n = trim(name);
    if u.len() == 0 {
        Err("收藏 URL 不能为空"@)
    } else if n.len() == 0 {
        Err("收藏名称不能为空"@)
    } else {
        Ok(
            truncated(
                seq![FavoriteModel { name: n, url: u, created_at: now }] + without_url(list, u),
                MAX_FAVS as int,
            ),
        )
    }
}

impl Favorite {
    /// A copy with the same fields.
    pub fn duplicate(&self) -> (res: Favorite)
        ensures
            res.deep_view() == self.deep_view(),
    {
        Favorite { name: self.name.clone(), url: self.url.clone(), created_at: self.created_at }
    }
}

fn without_url_exec(list: &Vec<Favorite>, url: &String) -> (res: Vec<Favorite>)
    ensures
        res.deep_view() == without_url(list.deep_view(), url@),
{
    let ghost l = list.deep_view();
    let mut kept: Vec<Favorite> = Vec::new();
    let mut i: usize = 0;
    assert(kept.deep_view() =~= without_url(l.take(0), url@));
    while i < list.len()
        invariant
            l == list.deep_view(),
            i <= list@.len(),
            kept.deep_view() == without_url(l.take(i as int), url@),
        decreases list@.len() - i,
    {
        assert(l.take(i + 1).drop_last() =~= l.take(i as int));
        assert(l.take(i + 1).last() == list@[i as int].deep_view());
        if list[i].url != *url {
            let d = list[i].duplicate();
            let ghost before = kept.deep_view();
            let ghost dm = d.deep_view();
            kept.push(d);
            assert(kept.deep_view() =~= before.push(dm));
        }
        i = i + 1;
    }
    assert(l.take(list@.len() as int) =~= l);
    kept
}

/// The favorites after adding `url` under `name` (both trimmed): the
/// entry goes first, an older entry for the same URL is dropped, and at
/// most `MAX_FAVS` are kept.  An empty URL or name is refused.
pub fn favorites_after_add(list: &Vec<Favorite>, name: &str, url: &str, now: i64) -> (res: Result<
    Vec<Favorite>,
    String,
>)
    ensures
        match (res, add_spec(list.deep_view(), name@, url@, now)) {
            (Ok(v), Ok(m)) => v.deep_view() == m,
            (Err(e), Err(m)) => e@ == m,
            _ => false,
        },
{
    let u = trim_string(url);
    let n = trim_string(name);
    if u.as_str().is_empty() {
        return Err(lit("收藏 URL 不能为空"));
    }
    if n.as_str().is_empty() {
        return Err(lit("收藏名称不能为空"));
    }
    let rest = without_url_exec(list, &u);
    let ghost rm = rest.deep_view();
    let mut out: Vec<Favorite> = Vec::new();
    let first = Favorite { name: n, url: u, created_at: now };
    let ghost fm = first.deep_view();
    out.push(first);
    let mut i: usize = 0;
    assert(out.deep_view() =~= seq![fm] + rm.take(0));
    while i < rest.len() && out.len() < MAX_FAVS
        invariant
            rm == rest.deep_view(),
            i <= rest@.len(),
            out@.len() == i + 1,
            out@.len() <= MAX_FAVS,
            out.deep_view() == seq![fm] + rm.take(i as int),
        decreases rest@.len() - i,
    {
        let d = rest[i].duplicate();
        let ghost before = out.deep_view();
        let ghost dm = d.deep_view();
        out.push(d);
        assert(out.deep_view() =~= before.push(dm));
        i = i + 1;
        assert(out.deep_view() =~= seq![fm] + rm.take(i as int));
    }
    if i == rest.len() {
        assert(rm.take(i as int) =~= rm);
    } else {
        assert((seq![fm] + rm).take(MAX_FAVS as int) =~= seq![fm] + rm.take(i as int));
    }
    assert(out.deep_view() =~= truncated(seq![fm] + rm, MAX_FAVS as int));
    Ok(out)
}

/// The favorites without `url`; `None` when there was none (nothing to
/// save).
pub fn favorites_after_remove(list: &Vec<Favorite>, url: &String) -> (res: Option<Vec<Favorite>>)
    ensures
        ({
            let r = without_url(list.deep_view(), url@);
            if r.len() == list@.len() {
                res is None
            } else {
                res matches Some(v) && v.deep_view() == r
            }
        }),
{
    let r = without_url_exec(list, url);
    if r.len() == list.len() {
        None
    } else {
        Some(r)
    }
}

// ---------------------------------------------------------------------------
// laws
// ---------------------------------------------------------------------------

/// No two favorites share a URL.
pub open spec fn distinct_urls(list: Seq<FavoriteModel>) -> bool {
    forall|i: int, j: int| 0 <= i < j < list.len() ==> #[trigger] list[i].url != #[trigger] list[j].url
}

proof fn lemma_without_url(list: Seq<FavoriteModel>, url: Seq<char>)
    ensures
        forall|i: int| 0 <= i < without_url(list, url).len() ==> #[trigger] without_url(list, url)[i].url != url,
        forall|i: int| 0 <= i < without_url(list, url).len() ==> list.contains(#[trigger] without_url(list, url)[i]),
        without_url(list, url).len() <= list.len(),
        distinct_urls(list) ==> distinct_urls(without_url(list, url)),
    decreases list.len(),
{
    if list.len() > 0 {
        let init = list.drop_last();
        lemma_without_url(init, url);
        let r = without_url(init, url);
        assert forall|i: int| 0 <= i < r.len() implies list.contains(#[trigger] r[i]) by {
            let j = choose|j: int| 0 <= j < init.len() && init[j] == r[i];
            assert(list[j] == init[j]);
        }
        if list.last().url != url {
            let r2 = r.push(list.last());
            assert(list[list.len() - 1] == list.last());
            if distinct_urls(list) {
                assert forall|i: int, j: int| 0 <= i < j < r2.len() implies #[trigger] r2[i].url
                    != #[trigger] r2[j].url by {
                    if j == r2.len() - 1 {
                        let k = choose|k: int| 0 <= k < init.len() && init[k] == r[i];
                        assert(list[k] == init[k]);
                        assert(k < list.len() - 1);
                    } else {
                        assert(distinct_urls(init)) by {
                            assert forall|a: int, b: int| 0 <= a < b < init.len() implies #[trigger] init[a].url
                                != #[trigger] init[b].url by {
                                assert(init[a] == list[a]);
                                assert(init[b] == list[b]);
                            }
                        }
                    }
                }
            }
        } else {
            if distinct_urls(list) {
                assert forall|a: int, b: int| 0 <= a < b < init.len() implies #[trigger] init[a].url
                    != #[trigger] init[b].url by {
                    assert(init[a] == list[a]);
                    assert(init[b] == list[b]);
                }
            }
        }
    }
}

/// Adding a favorite puts it first, keeps at most `MAX_FAVS`, and keeps
/// the URLs distinct.
pub proof fn law_add_front_unique_bounded(
    list: Seq<FavoriteModel>,
    name: Seq<char>,
    url: Seq<char>,
    now: i64,
)
    requires
        distinct_urls(list),
        add_spec(list, name, url, now) is Ok,
    ensures
        ({
            let r = add_spec(list, name, url, now)->Ok_0;
            &&& r.len() >= 1
            &&& r.len() <= MAX_FAVS
            &&& r[0] == FavoriteModel { name: trim(name), url: trim(url), created_at: now }
            &&& distinct_urls(r)
        }),
{
    let u = trim(url);
    lemma_without_url(list, u);
    let w = without_url(list, u);
    let full = seq![FavoriteModel { name: trim(name), url: u, created_at: now }] + w;
    assert forall|i: int, j: int| 0 <= i < j < full.len() implies #[trigger] full[i].url
        != #[trigger] full[j].url by {
        if i == 0 {
            assert(full[j] == w[j - 1]);
        } else {
            assert(full[i] == w[i - 1]);
            assert(full[j] == w[j - 1]);
        }
    }
    let r = truncated(full, MAX_FAVS as int);
    assert forall|i: int, j: int| 0 <= i < j < r.len() implies #[trigger] r[i].url
        != #[trigger] r[j].url by {
        assert(r[i] == full[i]);
        assert(r[j] == full[j]);
    }
}

/// Removing a URL leaves no favorite with that URL; removing it again
/// changes nothing.
pub proof fn law_remove_is_idempotent(list: Seq<FavoriteModel>, url: Seq<char>)
    ensures
        forall|i: int| 0 <= i < without_url(list, url).len() ==> #[trigger] without_url(list, url)[i].url != url,
        without_url(without_url(list, url), url) == without_url(list, url),
    decreases list.len(),
{
    lemma_without_url(list, url);
    lemma_without_url_noop(without_url(list, url), url);
}

proof fn lemma_without_url_noop(list: Seq<FavoriteModel>, url: Seq<char>)
    requires
        forall|i: int| 0 <= i < list.len() ==> #[trigger] list[i].url != url,
    ensures
        without_url(list, url) == list,
    decreases list.len(),
{
    if list.len() > 0 {
        let init = list.drop_last();
        assert forall|i: int| 0 <= i < init.len() implies #[trigger] init[i].url != url by {
            assert(init[i] == list[i]);
        }
        lemma_without_url_noop(init, url);
        assert(list[list.len() - 1].url != url);
        assert(init.push(list.last()) =~= list);
    } else {
        assert(list =~= Seq::<FavoriteModel>::empty());
    }
}

} // verus!
