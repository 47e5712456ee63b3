//! Adding paths to `svn:ignore`.
//!
//! `svn:ignore` lists names of the direct children of a directory, so the
//! chosen paths are grouped by their parent directory (in the order of
//! the directory names), and each group's names are merged into that
//! directory's current list.

use vstd::prelude::*;

use crate::commands::strs;
use crate::models::SvnError;
use crate::text::{
    chars_of, decimal, eq_chars, join, lines, lines_of, lit, push_str, push_u64, string_of, trim,
    trim_chars, views,
};

verus! {

// ---------------------------------------------------------------------------
// the order of strings
// ---------------------------------------------------------------------------

/// Lexicographic order of character sequences, by code point: the order
/// of `str` (UTF-8 keeps the order of code points).
pub open spec fn seq_less(a: Seq<char>, b: Seq<char>) -> bool
    decreases a.len(),
{
    if b.len() == 0 {
        false
    } else if a.len() == 0 {
        true
    } else if a[0] != b[0] {
        a[0] < b[0]
    } else {
        seq_less(a.drop_first(), b.drop_first())
    }
}

/// No sequence is below itself.
pub proof fn lemma_less_irreflexive(a: Seq<char>)
    ensures
        !seq_less(a, a),
    decreases a.len(),
{
    if a.len() > 0 {
        lemma_less_irreflexive(a.drop_first());
    }
}

/// The order is transitive.
pub proof fn lemma_less_transitive(a: Seq<char>, b: Seq<char>, c: Seq<char>)
    requires
        seq_less(a, b),
        seq_less(b, c),
    ensures
        seq_less(a, c),
    decreases a.len(),
{
    if a.len() > 0 && b.len() > 0 && c.len() > 0 && a[0] == b[0] && b[0] == c[0] {
        lemma_less_transitive(a.drop_first(), b.drop_first(), c.drop_first());
    }
}

/// Two different sequences are ordered one way or the other.
pub proof fn lemma_less_total(a: Seq<char>, b: Seq<char>)
    requires
        a != b,
    ensures
        seq_less(a, b) || seq_less(b, a),
    decreases a.len(),
{
    if a.len() > 0 && b.len() > 0 && a[0] != b[0] {
        assert(a[0] < b[0] || b[0] < a[0]);
    }
    if a.len() > 0 && b.len() > 0 && a[0] == b[0] {
        if a.drop_first() == b.drop_first() {
            assert(a =~= seq![a[0]] + a.drop_first());
            assert(b =~= seq![b[0]] + b.drop_first());
            assert(a =~= b);
        } else {
            lemma_less_total(a.drop_first(), b.drop_first());
        }
    } else if a.len() == 0 && b.len() == 0 {
        assert(a =~= b);
    }
}

/// `seq_less` on two character slices.
pub fn less_chars(a: &[char], b: &[char]) -> (res: bool)
    ensures
        res == seq_less(a@, b@),
{
    let mut i: usize = 0;
    assert(a@.skip(0) =~= a@);
    assert(b@.skip(0) =~= b@);
    while i < a.len() && i < b.len() && a[i] == b[i]
        invariant
            i <= a@.len(),
            i <= b@.len(),
            seq_less(a@, b@) == seq_less(a@.skip(i as int), b@.skip(i as int)),
        decreases a@.len() - i,
    {
        assert(a@.skip(i as int).drop_first() =~= a@.skip(i + 1));
        assert(b@.skip(i as int).drop_first() =~= b@.skip(i + 1));
        i = i + 1;
    }
    if i == b.len() {
        false
    } else if i == a.len() {
        true
    } else {
        assert(a@.skip(i as int)[0] == a@[i as int]);
        assert(b@.skip(i as int)[0] == b@[i as int]);
        a[i] < b[i]
    }
}

// ---------------------------------------------------------------------------
// grouping by parent directory
// ---------------------------------------------------------------------------

/// The names that go to directory `k`, in order: the non-empty names of
/// the pairs whose parent is `k`.
pub open spec fn names_for(ps: Seq<(Seq<char>, Seq<char>)>, k: Seq<char>) -> Seq<Seq<char>>
    decreases ps.len(),
{
    if ps.len() == 0 {
        seq![]
    } else {
        let rest = names_for(ps.drop_last(), k);
        if ps.last().0 == k && ps.last().1.len() > 0 {
            rest.push(ps.last().1)
        } else {
            rest
        }
    }
}

/// `g` groups the pairs `ps`: one group per directory that gets a name,
/// in increasing order of the directory, each with its names in order.
pub open spec fn grouped(g: Seq<(Seq<char>, Seq<Seq<char>>)>, ps: Seq<(Seq<char>, Seq<char>)>) -> bool {
    &&& forall|i: int, j: int| 0 <= i < j < g.len() ==> seq_less(#[trigger] g[i].0, #[trigger] g[j].0)
    &&& forall|i: int| 0 <= i < g.len() ==> #[trigger] g[i].1 == names_for(ps, g[i].0) && g[i].1.len() > 0
    &&& forall|k: Seq<char>| #[trigger] names_for(ps, k).len() > 0 ==> exists|i: int| 0 <= i < g.len() && g[i].0 == k
}

/// `grouped` pins the grouping down: two groupings of the same pairs agree.
pub proof fn lemma_grouped_unique(
    g1: Seq<(Seq<char>, Seq<Seq<char>>)>,
    g2: Seq<(Seq<char>, Seq<Seq<char>>)>,
    ps: Seq<(Seq<char>, Seq<char>)>,
)
    requires
        grouped(g1, ps),
        grouped(g2, ps),
    ensures
        g1 == g2,
    decreases g1.len() + g2.len(),
{
    if g1.len() == 0 {
        if g2.len() > 0 {
            let k = g2[0].0;
            assert(g2[0].1 == names_for(ps, k));
            assert(names_for(ps, k).len() > 0);
        }
        assert(g1 =~= g2);
    } else if g2.len() == 0 {
        let k = g1[0].0;
        assert(g1[0].1 == names_for(ps, k));
        assert(names_for(ps, k).len() > 0);
    } else {
        let a = g1[0].0;
        let b = g2[0].0;
        assert(g1[0].1 == names_for(ps, a));
        assert(g2[0].1 == names_for(ps, b));
        assert(names_for(ps, a).len() > 0);
        assert(names_for(ps, b).len() > 0);
        let ib = choose|i: int| 0 <= i < g1.len() && g1[i].0 == b;
        let ia = choose|i: int| 0 <= i < g2.len() && g2[i].0 == a;
        if a != b {
            lemma_less_total(a, b);
            if seq_less(a, b) {
                // a is in g2 at ia > 0, so b = g2[0] is below a.
                if ia == 0 {
                } else {
                    assert(seq_less(g2[0].0, g2[ia].0));
                    lemma_less_transitive(a, b, a);
                    lemma_less_irreflexive(a);
                }
            } else {
                if ib == 0 {
                } else {
                    assert(seq_less(g1[0].0, g1[ib].0));
                    lemma_less_transitive(b, a, b);
                    lemma_less_irreflexive(b);
                }
            }
        }
        let r1 = g1.drop_first();
        let r2 = g2.drop_first();
        // the rest groups the pairs without the first directory
        let ps2 = without_dir(ps, a);
        lemma_names_without_dir(ps, a);
        assert(grouped(r1, ps2)) by {
            assert forall|i: int, j: int| 0 <= i < j < r1.len() implies seq_less(
                #[trigger] r1[i].0,
                #[trigger] r1[j].0,
            ) by {
                assert(seq_less(g1[i + 1].0, g1[j + 1].0));
            }
            assert forall|i: int| 0 <= i < r1.len() implies #[trigger] r1[i].1 == names_for(
                ps2,
                r1[i].0,
            ) && r1[i].1.len() > 0 by {
                assert(seq_less(g1[0].0, g1[i + 1].0));
                lemma_less_irreflexive(a);
                assert(g1[i + 1].1 == names_for(ps, g1[i + 1].0));
            }
            assert forall|k: Seq<char>| #[trigger] names_for(ps2, k).len() > 0 implies exists|
                i: int,
            | 0 <= i < r1.len() && r1[i].0 == k by {
                assert(k != a);
                assert(names_for(ps, k).len() > 0);
                let i = choose|i: int| 0 <= i < g1.len() && g1[i].0 == k;
                assert(i != 0);
                assert(r1[i - 1].0 == k);
            }
        }
        assert(grouped(r2, ps2)) by {
            assert forall|i: int, j: int| 0 <= i < j < r2.len() implies seq_less(
                #[trigger] r2[i].0,
                #[trigger] r2[j].0,
            ) by {
                assert(seq_less(g2[i + 1].0, g2[j + 1].0));
            }
            assert forall|i: int| 0 <= i < r2.len() implies #[trigger] r2[i].1 == names_for(
                ps2,
                r2[i].0,
            ) && r2[i].1.len() > 0 by {
                assert(seq_less(g2[0].0, g2[i + 1].0));
                lemma_less_irreflexive(a);
                assert(g2[i + 1].1 == names_for(ps, g2[i + 1].0));
            }
            assert forall|k: Seq<char>| #[trigger] names_for(ps2, k).len() > 0 implies exists|
                i: int,
            | 0 <= i < r2.len() && r2[i].0 == k by {
                assert(k != a);
                assert(names_for(ps, k).len() > 0);
                let i = choose|i: int| 0 <= i < g2.len() && g2[i].0 == k;
                assert(i != 0);
                assert(r2[i - 1].0 == k);
            }
        }
        lemma_grouped_unique(r1, r2, ps2);
        assert(g1 =~= seq![g1[0]] + r1);
        assert(g2 =~= seq![g2[0]] + r2);
    }
}

/// The pairs without those of directory `a`.
pub open spec fn without_dir(ps: Seq<(Seq<char>, Seq<char>)>, a: Seq<char>) -> Seq<(Seq<char>, Seq<char>)>
    decreases ps.len(),
{
    if ps.len() == 0 {
        seq![]
    } else {
        let rest = without_dir(ps.drop_last(), a);
        if ps.last().0 != a {
            rest.push(ps.last())
        } else {
            rest
        }
    }
}

/// Leaving out the pairs of one directory leaves the names of the others.
pub proof fn lemma_names_without_dir(ps: Seq<(Seq<char>, Seq<char>)>, a: Seq<char>)
    ensures
        forall|k: Seq<char>| #![auto] names_for(without_dir(ps, a), k) == if k == a {
            Seq::<Seq<char>>::empty()
        } else {
            names_for(ps, k)
        },
    decreases ps.len(),
{
    if ps.len() > 0 {
        lemma_names_without_dir(ps.drop_last(), a);
        let w = without_dir(ps, a);
        let w0 = without_dir(ps.drop_last(), a);
        if ps.last().0 != a {
            assert(w.drop_last() =~= w0);
            assert(w.last() == ps.last());
        }
        assert forall|k: Seq<char>| #![auto] names_for(w, k) == if k == a {
            Seq::<Seq<char>>::empty()
        } else {
            names_for(ps, k)
        } by {
            assert(names_for(w0, k) == if k == a {
                Seq::<Seq<char>>::empty()
            } else {
                names_for(ps.drop_last(), k)
            });
        }
    }
}

fn group_index(groups: &Vec<(String, Vec<String>)>, key: &[char]) -> (res: usize)
    requires
        forall|i: int, j: int|
            0 <= i < j < groups.deep_view().len() ==> seq_less(
                #[trigger] groups.deep_view()[i].0,
                #[trigger] groups.deep_view()[j].0,
            ),
    ensures
        res <= groups@.len(),
        forall|i: int| 0 <= i < res ==> seq_less(#[trigger] groups.deep_view()[i].0, key@),
        res < groups@.len() ==> !seq_less(groups.deep_view()[res as int].0, key@),
{
    let mut j: usize = 0;
    while j < groups.len()
        invariant
            j <= groups@.len(),
            forall|i: int| 0 <= i < j ==> seq_less(#[trigger] groups.deep_view()[i].0, key@),
        decreases groups@.len() - j,
    {
        let k = chars_of(groups[j].0.as_str());
        if !less_chars(k.as_slice(), key) {
            return j;
        }
        j = j + 1;
    }
    j
}

/// Groups (parent, name) pairs by parent: one group per parent that gets
/// a non-empty name, in increasing order of the parent, with its names in
/// the order of the pairs.  `lemma_grouped_unique` shows that this
/// contract leaves one possible result.
pub fn group_by_parent(pairs: &Vec<(String, String)>) -> (res: Vec<(String, Vec<String>)>)
    ensures
        grouped(res.deep_view(), pairs.deep_view()),
{
    let ghost ps = pairs.deep_view();
    let mut groups: Vec<(String, Vec<String>)> = Vec::new();
    let mut i: usize = 0;
    while i < pairs.len()
        invariant
            ps == pairs.deep_view(),
            i <= ps.len(),
            grouped(groups.deep_view(), ps.take(i as int)),
        decreases ps.len() - i,
    {
        let ghost g = groups.deep_view();
        let ghost before = ps.take(i as int);
        let ghost after = ps.take(i + 1);
        assert(after.drop_last() =~= before);
        assert(after.last() == ps[i as int]);
        let parent = &pairs[i].0;
        let name = &pairs[i].1;
        assert(ps[i as int] == (parent@, name@));
        if name.as_str().is_empty() {
            assert forall|k: Seq<char>| #![auto] names_for(after, k) == names_for(before, k) by {}
        } else {
            let key = chars_of(parent.as_str());
            let j = group_index(&groups, key.as_slice());
            let found = if j < groups.len() {
                let k = chars_of(groups[j].0.as_str());
                crate::text::eq_chars(k.as_slice(), key.as_slice())
            } else {
                false
            };
            assert forall|k: Seq<char>| #![auto] names_for(after, k) == if k == parent@ {
                names_for(before, k).push(name@)
            } else {
                names_for(before, k)
            } by {}
            if found {
                let ghost old_groups = groups@;
                let (k0, mut v) = groups.remove(j);
                assert(k0@ == g[j as int].0);
                assert(v.deep_view() == g[j as int].1);
                v.push(name.clone());
                assert(v.deep_view() =~= g[j as int].1.push(name@));
                let ghost entry = (k0, v);
                groups.insert(j, (k0, v));
                proof {
                    let g2 = groups.deep_view();
                    assert(groups@ =~= old_groups.update(j as int, entry));
                    assert forall|x: int| 0 <= x < g.len() implies #[trigger] g2[x] == if x == j {
                        (g[j as int].0, g[j as int].1.push(name@))
                    } else {
                        g[x]
                    } by {}
                    assert(g2 =~= g.update(j as int, (g[j as int].0, g[j as int].1.push(name@))));
                    assert forall|x: int| 0 <= x < g2.len() implies #[trigger] g2[x].1 == names_for(
                        after,
                        g2[x].0,
                    ) && g2[x].1.len() > 0 by {
                        if x != j {
                            if x < j {
                                assert(seq_less(g[x].0, g[j as int].0));
                            } else {
                                assert(seq_less(g[j as int].0, g[x].0));
                            }
                            lemma_less_irreflexive(g[j as int].0);
                        }
                    }
                    assert forall|k: Seq<char>| #[trigger] names_for(after, k).len() > 0 implies exists|
                        x: int,
                    | 0 <= x < g2.len() && g2[x].0 == k by {
                        if k != parent@ {
                            assert(names_for(before, k).len() > 0);
                            let x = choose|x: int| 0 <= x < g.len() && g[x].0 == k;
                            assert(g2[x].0 == k);
                        } else {
                            assert(g2[j as int].0 == k);
                        }
                    }
                }
            } else {
                let ghost old_groups = groups@;
                let mut v: Vec<String> = Vec::new();
                v.push(name.clone());
                assert(v.deep_view() =~= seq![name@]);
                let entry = (parent.clone(), v);
                assert(entry.deep_view() == (parent@, seq![name@]));
                groups.insert(j, entry);
                proof {
                    let g2 = groups.deep_view();
                    assert forall|x: int| 0 <= x < g.len() + 1 implies #[trigger] g2[x] == if x < j {
                        g[x]
                    } else if x == j {
                        (parent@, seq![name@])
                    } else {
                        g[x - 1]
                    } by {}
                    assert(g2 =~= g.insert(j as int, (parent@, seq![name@])));
                    // the parent had no group yet
                    assert(names_for(before, parent@).len() == 0) by {
                        if names_for(before, parent@).len() > 0 {
                            let x = choose|x: int| 0 <= x < g.len() && g[x].0 == parent@;
                            if x < j {
                                lemma_less_irreflexive(parent@);
                            } else if x == j {
                            } else {
                                lemma_less_total(g[j as int].0, parent@);
                                assert(seq_less(g[j as int].0, g[x].0));
                                lemma_less_transitive(parent@, g[j as int].0, g[x].0);
                                lemma_less_irreflexive(parent@);
                            }
                        }
                    }
                    assert(names_for(after, parent@) =~= seq![name@]);
                    assert forall|x: int, y: int| 0 <= x < y < g2.len() implies seq_less(
                        #[trigger] g2[x].0,
                        #[trigger] g2[y].0,
                    ) by {
                        if j < g.len() {
                            lemma_less_total(g[j as int].0, parent@);
                        }
                        if x < j && y == j {
                        } else if x < j && y > j {
                            assert(g2[y].0 == g[y - 1].0);
                        } else if x == j && y > j {
                            assert(g2[y].0 == g[y - 1].0);
                            if y - 1 > j {
                                assert(seq_less(g[j as int].0, g[y - 1].0));
                                lemma_less_transitive(parent@, g[j as int].0, g[y - 1].0);
                            }
                        } else if x > j {
                            assert(g2[x].0 == g[x - 1].0);
                            assert(g2[y].0 == g[y - 1].0);
                        } else {
                        }
                    }
                    assert forall|x: int| 0 <= x < g2.len() implies #[trigger] g2[x].1 == names_for(
                        after,
                        g2[x].0,
                    ) && g2[x].1.len() > 0 by {
                        if x < j {
                            assert(seq_less(g[x].0, parent@));
                            lemma_less_irreflexive(parent@);
                        } else if x > j {
                            assert(g2[x] == g[x - 1]);
                            lemma_less_total(g[j as int].0, parent@);
                            if x - 1 > j {
                                assert(seq_less(g[j as int].0, g[x - 1].0));
                                lemma_less_transitive(parent@, g[j as int].0, g[x - 1].0);
                            }
                            lemma_less_irreflexive(parent@);
                        }
                    }
                    assert forall|k: Seq<char>| #[trigger] names_for(after, k).len() > 0 implies exists|
                        x: int,
                    | 0 <= x < g2.len() && g2[x].0 == k by {
                        if k != parent@ {
                            assert(names_for(before, k).len() > 0);
                            let x = choose|x: int| 0 <= x < g.len() && g[x].0 == k;
                            if x < j {
                                assert(g2[x].0 == k);
                            } else {
                                assert(g2[x + 1].0 == k);
                            }
                        } else {
                            assert(g2[j as int].0 == k);
                        }
                    }
                }
            }
        }
        i = i + 1;
    }
    assert(ps.take(ps.len() as int) =~= ps);
    groups
}

// ---------------------------------------------------------------------------
// the chosen paths
// ---------------------------------------------------------------------------

/// Index of the last `/` of a path, or -1.
pub open spec fn last_slash(p: Seq<char>) -> int
    decreases p.len(),
{
    if p.len() == 0 {
        -1
    } else if p.last() == '/' {
        p.len() - 1
    } else {
        last_slash(p.drop_last())
    }
}

/// A path every platform splits the same way: non-empty segments joined
/// by single `/`s, perhaps after one leading `/`, no segment `.` or `..`,
/// and no `\\` or `:` anywhere (so no Windows prefix either).
pub open spec fn plain_path(p: Seq<char>) -> bool {
    &&& p.len() > 0
    &&& p.last() != '/'
    &&& forall|i: int| 0 <= i < p.len() ==> #[trigger] p[i] != '\\' && p[i] != ':'
    &&& forall|i: int| 0 <= i < p.len() - 1 && #[trigger] p[i] == '/' ==> p[i + 1] != '/'
    &&& forall|i: int|
        0 <= i < p.len() && (i == 0 || p[i - 1] == '/') && #[trigger] p[i] == '.' ==> !(i + 1
            == p.len() || p[i + 1] == '/') && !(i + 1 < p.len() && p[i + 1] == '.' && (i + 2
            == p.len() || p[i + 2] == '/'))
}

/// The directory part of a plain path: the text before its last `/`;
/// `/` for `/name`, empty for `name`.
pub open spec fn dir_part(p: Seq<char>) -> Seq<char> {
    let k = last_slash(p);
    if k < 0 {
        seq![]
    } else if k == 0 {
        seq!['/']
    } else {
        p.take(k)
    }
}

/// The last segment of a path: the text after its last `/`.
pub open spec fn name_part(p: Seq<char>) -> Seq<char> {
    p.skip(last_slash(p) + 1)
}

/// `Path::parent`, shown with `display`.  The parent follows the path
/// rules of the platform; what holds on every platform is stated: it is a
/// proper prefix of the path, and for a plain path it is the text before
/// the last `/` (`/` for `/name`, empty for `name`).
#[verifier::external_body]
fn path_parent(p: &str) -> (res: Option<String>)
    ensures
        res matches Some(x) ==> (x@.len() < p@.len() && p@.take(x@.len() as int) == x@),
        res is None ==> !plain_path(p@),
        res matches Some(x) ==> (plain_path(p@) ==> x@ == dir_part(p@)),
{
    std::path::Path::new(p).parent().map(|x| x.display().to_string())
}

/// `Path::file_name`, converted with `to_string_lossy`.  Like the parent,
/// it follows the platform's path rules; what is stated holds on every
/// platform: for a plain path it is the last segment.
#[verifier::external_body]
fn path_file_name(p: &str) -> (res: Option<String>)
    ensures
        res is None ==> !plain_path(p@),
        res matches Some(x) ==> (plain_path(p@) ==> x@ == name_part(p@)),
{
    std::path::Path::new(p).file_name().map(|x| x.to_string_lossy().into_owned())
}

/// The (parent, name) pairs of the chosen paths: each parent a prefix of
/// its path, and for a plain path its directory part and last segment.
pub open spec fn split_paths(paths: Seq<Seq<char>>, ps: Seq<(Seq<char>, Seq<char>)>) -> bool {
    &&& ps.len() == paths.len()
    &&& forall|i: int|
        0 <= i < ps.len() ==> (#[trigger] ps[i]).0.len() <= paths[i].len() && paths[i].take(
            ps[i].0.len() as int,
        ) == ps[i].0
    &&& forall|i: int|
        0 <= i < ps.len() && plain_path(paths[i]) ==> #[trigger] ps[i] == (
            dir_part(paths[i]),
            name_part(paths[i]),
        )
}

/// Groups the chosen paths by parent directory (an empty parent when the
/// path has none): the names to add to each directory's `svn:ignore`.
/// No path chosen is refused.
pub fn ignore_groups(paths: &Vec<String>) -> (res: Result<Vec<(String, Vec<String>)>, SvnError>)
    ensures
        res is Err <==> paths@.len() == 0,
        res matches Err(e) ==> e.deep_view() == crate::commands::error_model(
            "usage"@,
            "未选择要忽略的路径"@,
            ""@,
            "请先勾选未版本化的文件或目录。"@,
        ),
        res matches Ok(g) ==> (exists|ps: Seq<(Seq<char>, Seq<char>)>|
            split_paths(strs(paths@), ps) && #[trigger] grouped(g.deep_view(), ps)),
{
    if paths.len() == 0 {
        return Err(
            SvnError::new("usage", "未选择要忽略的路径", "", "请先勾选未版本化的文件或目录。"),
        );
    }
    let ghost ws = strs(paths@);
    let mut pairs: Vec<(String, String)> = Vec::new();
    let mut i: usize = 0;
    while i < paths.len()
        invariant
            ws == strs(paths@),
            i <= paths@.len(),
            pairs@.len() == i,
            split_paths(ws.take(i as int), pairs.deep_view()),
        decreases paths@.len() - i,
    {
        let parent = match path_parent(paths[i].as_str()) {
            Some(x) => x,
            None => String::new(),
        };
        let name = match path_file_name(paths[i].as_str()) {
            Some(x) => x,
            None => String::new(),
        };
        let ghost before = pairs.deep_view();
        let ghost pm = (parent@, name@);
        assert(ws[i as int] == paths@[i as int]@);
        pairs.push((parent, name));
        assert(pairs.deep_view() =~= before.push(pm));
        i = i + 1;
        assert(split_paths(ws.take(i as int), pairs.deep_view())) by {
            let t = ws.take(i as int);
            let q = pairs.deep_view();
            assert forall|k: int| 0 <= k < q.len() implies (#[trigger] q[k]).0.len() <= t[k].len()
                && t[k].take(q[k].0.len() as int) == q[k].0 by {
                if k < i - 1 {
                    assert(q[k] == before[k]);
                    assert(t[k] == ws.take(i - 1)[k]);
                }
            }
            assert forall|k: int| 0 <= k < q.len() && plain_path(t[k]) implies #[trigger] q[k] == (
                dir_part(t[k]),
                name_part(t[k]),
            ) by {
                if k < i - 1 {
                    assert(q[k] == before[k]);
                    assert(t[k] == ws.take(i - 1)[k]);
                }
            }
        }
    }
    assert(ws.take(paths@.len() as int) =~= ws);
    let g = group_by_parent(&pairs);
    assert(grouped(g.deep_view(), pairs.deep_view()));
    let r: Result<Vec<(String, Vec<String>)>, SvnError> = Ok(g);
    assert(r matches Ok(h) && h.deep_view() == g.deep_view());
    r
}

// ---------------------------------------------------------------------------
// merging into a directory's list
// ---------------------------------------------------------------------------

/// The entries of an `svn:ignore` value: its lines, trimmed, without the
/// blank ones.
pub open spec fn ignore_entries(ls: Seq<Seq<char>>) -> Seq<Seq<char>>
    decreases ls.len(),
{
    if ls.len() == 0 {
        seq![]
    } else {
        let rest = ignore_entries(ls.drop_last());
        if trim(ls.last()).len() > 0 {
            rest.push(trim(ls.last()))
        } else {
            rest
        }
    }
}

/// `list` with each of `names` appended that it does not hold yet.
pub open spec fn merge_names(list: Seq<Seq<char>>, names: Seq<Seq<char>>) -> Seq<Seq<char>>
    decreases names.len(),
{
    if names.len() == 0 {
        list
    } else {
        let m = merge_names(list, names.drop_last());
        if m.contains(names.last()) {
            m
        } else {
            m.push(names.last())
        }
    }
}

/// The current entries of a directory: none when `svn propget` failed.
pub open spec fn current_entries(existing: Option<Seq<char>>) -> Seq<Seq<char>> {
    match existing {
        Some(s) => ignore_entries(lines(s)),
        None => seq![],
    }
}

fn entries_exec(s: &str) -> (res: Vec<String>)
    ensures
        strs(res@) == ignore_entries(lines(s@)),
{
    let cs = chars_of(s);
    let ls = lines_of(cs.as_slice());
    let ghost lv = views(ls@);
    let mut res: Vec<String> = Vec::new();
    let mut i: usize = 0;
    assert(strs(res@) =~= ignore_entries(lv.take(0)));
    while i < ls.len()
        invariant
            lv == views(ls@),
            i <= ls@.len(),
            strs(res@) == ignore_entries(lv.take(i as int)),
        decreases ls@.len() - i,
    {
        let t = trim_chars(ls[i].as_slice());
        assert(lv.take(i + 1).drop_last() =~= lv.take(i as int));
        assert(lv.take(i + 1).last() == ls@[i as int]@);
        if t.len() > 0 {
            let ghost before = strs(res@);
            res.push(string_of(t.as_slice()));
            assert(strs(res@) =~= before.push(t@));
        }
        i = i + 1;
    }
    assert(lv.take(ls@.len() as int) =~= lv);
    res
}

fn contains_string(v: &Vec<String>, s: &str) -> (res: bool)
    ensures
        res == strs(v@).contains(s@),
{
    let key = chars_of(s);
    let mut i: usize = 0;
    while i < v.len()
        invariant
            i <= v@.len(),
            key@ == s@,
            forall|k: int| 0 <= k < i ==> strs(v@)[k] != s@,
        decreases v@.len() - i,
    {
        let c = chars_of(v[i].as_str());
        if eq_chars(c.as_slice(), key.as_slice()) {
            assert(strs(v@)[i as int] == s@);
            return true;
        }
        i = i + 1;
    }
    false
}

/// Merges the names into a directory's current `svn:ignore` (the output
/// of `svn propget`, `None` when it failed): the new list, and how many
/// names it added.
pub fn merge_ignore(existing: &Option<String>, names: &Vec<String>) -> (res: (Vec<String>, usize))
    ensures
        strs(res.0@) == merge_names(
            current_entries(
                match existing {
                    Some(s) => Some(s@),
                    None => None,
                },
            ),
            strs(names@),
        ),
        res.1 == res.0@.len() - current_entries(
            match existing {
                Some(s) => Some(s@),
                None => None,
            },
        ).len(),
        names@.len() > 0 ==> res.0@.len() > 0,
{
    let ghost base = current_entries(
        match existing {
            Some(s) => Some(s@),
            None => None,
        },
    );
    let mut merged = match existing {
        Some(s) => entries_exec(s.as_str()),
        None => Vec::new(),
    };
    assert(strs(merged@) =~= base);
    let mut added: usize = 0;
    let mut i: usize = 0;
    assert(strs(names@).take(0) =~= Seq::<Seq<char>>::empty());
    while i < names.len()
        invariant
            i <= names@.len(),
            strs(merged@) == merge_names(base, strs(names@).take(i as int)),
            merged@.len() == base.len() + added,
            added <= i,
        decreases names@.len() - i,
    {
        let ghost t = strs(names@).take(i + 1);
        assert(t.drop_last() =~= strs(names@).take(i as int));
        assert(t.last() == names@[i as int]@);
        if !contains_string(&merged, names[i].as_str()) {
            let ghost before = strs(merged@);
            merged.push(names[i].clone());
            assert(strs(merged@) =~= before.push(names@[i as int]@));
            added = added + 1;
        }
        i = i + 1;
    }
    assert(strs(names@).take(names@.len() as int) =~= strs(names@));
    proof {
        law_merge_adds_missing_once(base, strs(names@));
        if names@.len() > 0 {
            assert(strs(merged@).contains(strs(names@)[0]));
        }
    }
    (merged, added)
}

/// Merging keeps the current entries in front, holds every name, and adds
/// each missing name exactly once.
pub proof fn law_merge_adds_missing_once(list: Seq<Seq<char>>, names: Seq<Seq<char>>)
    ensures
        merge_names(list, names).take(list.len() as int) == list,
        list.len() <= merge_names(list, names).len(),
        forall|i: int| 0 <= i < names.len() ==> merge_names(list, names).contains(#[trigger] names[i]),
        forall|i: int, j: int|
            list.len() <= i < j < merge_names(list, names).len() ==> merge_names(list, names)[i]
                != merge_names(list, names)[j],
        forall|i: int, k: int|
            0 <= k < list.len() <= i < merge_names(list, names).len() ==> merge_names(list, names)[i]
                != list[k],
        forall|i: int|
            list.len() <= i < merge_names(list, names).len() ==> names.contains(
                #[trigger] merge_names(list, names)[i],
            ),
    decreases names.len(),
{
    let m = merge_names(list, names);
    if names.len() == 0 {
        assert(m.take(list.len() as int) =~= list);
    } else {
        let prev = names.drop_last();
        let m0 = merge_names(list, prev);
        law_merge_adds_missing_once(list, prev);
        assert forall|i: int| 0 <= i < names.len() implies m.contains(#[trigger] names[i]) by {
            if i < names.len() - 1 {
                assert(prev[i] == names[i]);
                let w = choose|w: int| 0 <= w < m0.len() && m0[w] == prev[i];
                assert(m[w] == names[i]);
            } else if m0.contains(names.last()) {
            } else {
                assert(m[m0.len() as int] == names[i]);
            }
        }
        if !m0.contains(names.last()) {
            assert(m.take(list.len() as int) =~= m0.take(list.len() as int));
            assert forall|i: int| list.len() <= i < m.len() implies names.contains(
                #[trigger] m[i],
            ) by {
                if i < m0.len() {
                    assert(prev.contains(m0[i]));
                    let w = choose|w: int| 0 <= w < prev.len() && prev[w] == m0[i];
                    assert(names[w] == m[i]);
                } else {
                    assert(names[names.len() - 1] == m[i]);
                }
            }
            assert forall|i: int, k: int|
                0 <= k < list.len() <= i < m.len() implies m[i] != list[k] by {
                if i == m0.len() {
                    assert(m0[k] == list[k]) by {
                        assert(m0.take(list.len() as int)[k] == list[k]);
                    }
                }
            }
        } else {
            assert forall|i: int| list.len() <= i < m.len() implies names.contains(
                #[trigger] m[i],
            ) by {
                assert(prev.contains(m0[i]));
                let w = choose|w: int| 0 <= w < prev.len() && prev[w] == m0[i];
                assert(names[w] == m[i]);
            }
        }
    }
}

/// The value written to `svn:ignore`: the entries, one per line.
pub fn ignore_value(entries: &Vec<String>) -> (res: String)
    ensures
        res@ == join(strs(entries@), "\n"@),
{
    let mut res = String::new();
    let mut i: usize = 0;
    while i < entries.len()
        invariant
            i <= entries@.len(),
            res@ == join(strs(entries@).take(i as int), "\n"@),
        decreases entries@.len() - i,
    {
        if i > 0 {
            push_str(&mut res, "\n");
        }
        push_str(&mut res, entries[i].as_str());
        proof {
            let t = strs(entries@).take(i + 1);
            assert(t.drop_last() =~= strs(entries@).take(i as int));
            if i == 0 {
                assert(strs(entries@).take(0) =~= Seq::<Seq<char>>::empty());
            }
        }
        i = i + 1;
    }
    assert(strs(entries@).take(entries@.len() as int) =~= strs(entries@));
    res
}

/// Arguments of `svn propset svn:ignore -F FILE DIR`.
pub fn ignore_propset_args(file: &str, dir: &str) -> (res: Vec<String>)
    ensures
        strs(res@) == seq!["propset"@, "svn:ignore"@, "-F"@, file@, dir@],
{
    let mut v: Vec<String> = Vec::new();
    v.push(lit("propset"));
    v.push(lit("svn:ignore"));
    v.push(lit("-F"));
    v.push(lit(file));
    v.push(lit(dir));
    assert(strs(v@) =~= seq!["propset"@, "svn:ignore"@, "-F"@, file@, dir@]);
    v
}

/// The summary: how many names were added, to how many directories.
pub fn ignore_summary(added: usize, dirs: usize) -> (res: String)
    ensures
        res@ == "已将 "@ + decimal(added as nat) + " 个路径加入 svn:ignore（"@ + decimal(dirs as nat)
            + " 个目录）"@,
{
    let mut s = lit("已将 ");
    push_u64(&mut s, added as u64);
    push_str(&mut s, " 个路径加入 svn:ignore（");
    push_u64(&mut s, dirs as u64);
    push_str(&mut s, " 个目录）");
    s
}

} // verus!
