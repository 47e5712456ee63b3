//! Registry of watched working-copy directories.
//!
//! Watching a directory that is already watched gives its existing id;
//! only creations, modifications and removals are reported to the UI.

use std::collections::HashMap;
use vstd::prelude::*;
use vstd::std_specs::iter::{IteratorSpec, VerusForLoopWrapper};

verus! {

/// Kind of a file-system event.
#[derive(Debug, Clone, Copy, PartialEq, Eq, Structural)]
pub enum FsEventKind {
    Create,
    Modify,
    Remove,
    Access,
    Other,
}

/// Whether an event is worth telling the UI about.
pub fn is_interesting(kind: FsEventKind) -> (res: bool)
    ensures
        res == (kind == FsEventKind::Create || kind == FsEventKind::Modify || kind
            == FsEventKind::Remove),
{
    match kind {
        FsEventKind::Create | FsEventKind::Modify | FsEventKind::Remove => true,
        _ => false,
    }
}

/// Watched directories by id, and the id the next one gets.
pub struct WatchRegistry {
    watched: HashMap<u64, String>,
    next_id: u64,
}

pub struct WatchModel {
    pub watched: Map<u64, Seq<char>>,
    pub next_id: u64,
}

impl DeepView for WatchRegistry {
    type V = WatchModel;

    closed spec fn deep_view(&self) -> WatchModel {
        WatchModel { watched: self.watched@.map_values(|p: String| p@), next_id: self.next_id }
    }
}

/// No two ids watch the same directory.
pub open spec fn paths_unique(w: Map<u64, Seq<char>>) -> bool {
    forall|a: u64, b: u64|
        #[trigger] w.contains_key(a) && #[trigger] w.contains_key(b) && w[a] == w[b] ==> a == b
}

/// Whether some id watches `path`.
pub open spec fn is_watched(w: Map<u64, Seq<char>>, path: Seq<char>) -> bool {
    exists|k: u64| #[trigger] w.contains_key(k) && w[k] == path
}

impl WatchRegistry {
    /// Nothing watched; the first watch gets id 1.
    pub fn new() -> (res: Self)
        ensures
            res.deep_view().watched == Map::<u64, Seq<char>>::empty(),
            res.deep_view().next_id == 1,
    {
        let res = WatchRegistry { watched: HashMap::new(), next_id: 1 };
        assert(res.deep_view().watched =~= Map::<u64, Seq<char>>::empty());
        res
    }

    /// Starts watching `path`: the id that watches it already (`false`),
    /// else a new id (`true`).  No directory is ever watched twice.
    pub fn start(&mut self, path: &String) -> (res: (u64, bool))
        ensures
            ({
                let w = old(self).deep_view().watched;
                if is_watched(w, path@) {
                    &&& !res.1
                    &&& w.contains_key(res.0)
                    &&& w[res.0] == path@
                    &&& final(self).deep_view() == old(self).deep_view()
                } else {
                    &&& res == (old(self).deep_view().next_id, true)
                    &&& final(self).deep_view().watched == w.insert(res.0, path@)
                    &&& final(self).deep_view().next_id == old(self).deep_view().next_id.wrapping_add(1)
                }
            }),
            paths_unique(old(self).deep_view().watched) ==> paths_unique(
                final(self).deep_view().watched,
            ),
    {
        broadcast use vstd::std_specs::hash::group_hash_axioms;

        let ghost w = self.deep_view().watched;
        let ghost m = self.watched@;
        let mut lp = VerusForLoopWrapper::new(self.watched.iter(), Ghost(None));
        proof {
            assert(lp.snapshot@ == vstd::std_specs::hash::spec_hash_map_iter(&self.watched));
            assert(lp.seq() == vstd::std_specs::hash::spec_hash_map_iter(&self.watched).remaining());
        }
        let mut found: Option<u64> = None;
        loop
            invariant_except_break
                m == self.watched@,
                lp.wf(),
                lp.iter.obeys_prophetic_iter_laws(),
                lp.iter.decrease() is Some,
                found is None,
                forall|i: int|
                    0 <= i < lp.seq().len() ==> m.contains_key(*(#[trigger] lp.seq()[i]).0) && m[*lp.seq()[i].0]
                        == *lp.seq()[i].1,
                forall|k: u64| #[trigger] m.contains_key(k) ==> lp.seq().contains((&k, &m[k])),
                forall|i: int| 0 <= i < lp.index() ==> (#[trigger] lp.seq()[i]).1@ != path@,
            ensures
                found matches Some(k) ==> m.contains_key(k) && m[k]@ == path@,
                found is None ==> forall|k: u64| #[trigger] m.contains_key(k) ==> m[k]@ != path@,
            decreases lp.iter.decrease()->0,
        {
            match lp.next() {
                None => {
                    assert forall|k: u64| #[trigger] m.contains_key(k) implies m[k]@ != path@ by {
                        let i = choose|i: int| 0 <= i < lp.seq().len() && lp.seq()[i] == (&k, &m[k]);
                        assert(lp.seq()[i].1@ != path@);
                    }
                    break;
                },
                Some(e) => {
                    let (k, p) = e;
                    assert(e == lp.seq()[lp.index() - 1]);
                    if *p == *path {
                        found = Some(*k);
                        break;
                    }
                },
            }
        }
        if let Some(k) = found {
            proof {
                assert(w.contains_key(k) && w[k] == path@);
            }
            return (k, false);
        }
        proof {
            assert(!is_watched(w, path@));
        }
        let id = self.next_id;
        self.next_id = self.next_id.wrapping_add(1);
        self.watched.insert(id, path.clone());
        proof {
            assert(self.deep_view().watched =~= w.insert(id, path@));
        }
        (id, true)
    }

    /// Stops watching `id`; the path that was watched, if any.
    pub fn stop(&mut self, id: u64) -> (res: Option<String>)
        ensures
            ({
                let w = old(self).deep_view().watched;
                if w.contains_key(id) {
                    &&& res.deep_view() == Some(w[id])
                    &&& final(self).deep_view().watched == w.remove(id)
                } else {
                    &&& res is None
                    &&& final(self).deep_view().watched == w
                }
            }),
            final(self).deep_view().next_id == old(self).deep_view().next_id,
            paths_unique(old(self).deep_view().watched) ==> paths_unique(
                final(self).deep_view().watched,
            ),
    {
        broadcast use vstd::std_specs::hash::group_hash_axioms;

        let ghost w = self.deep_view().watched;
        let r = self.watched.remove(&id);
        proof {
            assert(self.deep_view().watched =~= if w.contains_key(id) {
                w.remove(id)
            } else {
                w
            });
        }
        r
    }
}

} // verus!
