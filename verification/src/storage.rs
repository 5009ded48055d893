//! The typed key/value storage facade.
//!
//! Keys are byte strings; a read sees the latest write. The model keeps one
//! entry per key, so reads, writes and deletes behave as a map.

use vstd::prelude::*;
use crate::bytes::bytes_eq;
use crate::tx::copy_bytes;

verus! {

/// A key/value store with at most one entry per key.
pub struct Store {
    pub entries: Vec<(Vec<u8>, Vec<u8>)>,
}

/// The value stored under a key: the first matching entry.
pub open spec fn spec_get(entries: Seq<(Vec<u8>, Vec<u8>)>, k: Seq<u8>) -> Option<Seq<u8>>
    decreases entries.len(),
{
    if entries.len() == 0 {
        None
    } else if entries[0].0@ == k {
        Some(entries[0].1@)
    } else {
        spec_get(entries.drop_first(), k)
    }
}

/// Whether every key occurs at most once.
pub open spec fn unique_keys(entries: Seq<(Vec<u8>, Vec<u8>)>) -> bool {
    forall|i: int, j: int| 0 <= i < j < entries.len() ==> (#[trigger] entries[i]).0@ != (
    #[trigger] entries[j]).0@
}

impl Store {
    /// The store invariant: one entry per key.
    pub open spec fn wf(&self) -> bool {
        unique_keys(self.entries@)
    }

    /// The value under a key.
    pub open spec fn get(&self, k: Seq<u8>) -> Option<Seq<u8>> {
        spec_get(self.entries@, k)
    }

    /// An empty store.
    pub fn new() -> (r: Store)
        ensures
            r.wf(),
            forall|k: Seq<u8>| r.get(k) is None,
    {
        Store { entries: Vec::new() }
    }

    /// Reads the value under a key.
    pub fn read(&self, k: &Vec<u8>) -> (r: Option<Vec<u8>>)
        ensures
            crate::bytes::view_opt(r) == self.get(k@),
    {
        let n = self.entries.len();
        proof {
            assert(self.entries@.skip(0) =~= self.entries@);
        }
        for i in 0..n
            invariant
                n == self.entries@.len(),
                spec_get(self.entries@, k@) == spec_get(self.entries@.skip(i as int), k@),
        {
            proof {
                assert(self.entries@.skip(i as int)[0] == self.entries@[i as int]);
                assert(self.entries@.skip(i as int).drop_first() =~= self.entries@.skip(i + 1));
            }
            if bytes_eq(&self.entries[i].0, k) {
                return Some(copy_bytes(&self.entries[i].1));
            }
        }
        proof {
            assert(self.entries@.skip(n as int) =~= Seq::<(Vec<u8>, Vec<u8>)>::empty());
        }
        None
    }

    /// Deletes the entry under a key; deleting an absent key is a no-op.
    pub fn delete(&mut self, k: &Vec<u8>)
        requires
            old(self).wf(),
        ensures
            final(self).wf(),
            final(self).get(k@) is None,
            forall|k2: Seq<u8>| k2 != k@ ==> final(self).get(k2) == old(self).get(k2),
    {
        let n = self.entries.len();
        let ghost orig = self.entries@;
        let mut i: usize = 0;
        while i < n
            invariant
                n == self.entries@.len(),
                i <= n,
                orig == self.entries@,
                old(self).wf(),
                orig == old(self).entries@,
                forall|j: int| 0 <= j < i ==> (#[trigger] orig[j]).0@ != k@,
            decreases n - i,
        {
            if bytes_eq(&self.entries[i].0, k) {
                self.entries.remove(i);
                proof {
                    lemma_remove_preserves(orig, i as int, k@);
                }
                return ;
            }
            i = i + 1;
        }
        proof {
            lemma_get_absent(orig, k@);
        }
    }

    /// Writes a value under a key, replacing any previous value.
    pub fn write(&mut self, k: &Vec<u8>, v: Vec<u8>)
        requires
            old(self).wf(),
        ensures
            final(self).wf(),
            final(self).get(k@) == Some(v@),
            forall|k2: Seq<u8>| k2 != k@ ==> final(self).get(k2) == old(self).get(k2),
    {
        self.delete(k);
        let ghost mid = self.entries@;
        let e = (copy_bytes(k), v);
        let ghost ev = e;
        self.entries.push(e);
        proof {
            assert forall|k2: Seq<u8>| true implies #[trigger] spec_get(mid.push(ev), k2) == (
                if spec_get(mid, k2) is Some {
                    spec_get(mid, k2)
                } else if k2 == k@ {
                    Some(ev.1@)
                } else {
                    None
                }) by {
                lemma_push_get(mid, ev, k2);
            };
            assert(unique_keys(self.entries@)) by {
                assert forall|x: int, y: int|
                    0 <= x < y < self.entries@.len() implies (#[trigger] self.entries@[x]).0@ != (
                #[trigger] self.entries@[y]).0@ by {
                    if y == self.entries@.len() - 1 {
                        if self.entries@[x].0@ == k@ {
                            lemma_get_some_if_present(mid, x, k@);
                        }
                    } else {
                        assert(self.entries@[x] == mid[x] && self.entries@[y] == mid[y]);
                    }
                };
            };
        }
    }
}

/// After pushing an entry at the back, a lookup finds it only when no
/// earlier entry has its key.
proof fn lemma_push_get(entries: Seq<(Vec<u8>, Vec<u8>)>, e: (Vec<u8>, Vec<u8>), k2: Seq<u8>)
    ensures
        spec_get(entries.push(e), k2) == (if spec_get(entries, k2) is Some {
            spec_get(entries, k2)
        } else if k2 == e.0@ {
            Some(e.1@)
        } else {
            None
        }),
    decreases entries.len(),
{
    if entries.len() == 0 {
        assert(entries.push(e)[0] == e);
        assert(entries.push(e).drop_first() =~= Seq::<(Vec<u8>, Vec<u8>)>::empty());
        if e.0@ == k2 {
            assert(spec_get(entries.push(e), k2) == Some(e.1@));
        } else {
            assert(spec_get(entries.push(e), k2) == spec_get(
                Seq::<(Vec<u8>, Vec<u8>)>::empty(),
                k2,
            ));
        }
        assert(spec_get(entries, k2) is None);
    } else {
        assert(entries.push(e)[0] == entries[0]);
        assert(entries.push(e).drop_first() =~= entries.drop_first().push(e));
        lemma_push_get(entries.drop_first(), e, k2);
        if entries[0].0@ == k2 {
            assert(spec_get(entries.push(e), k2) == Some(entries[0].1@));
            assert(spec_get(entries, k2) == Some(entries[0].1@));
        } else {
            assert(spec_get(entries.push(e), k2) == spec_get(entries.drop_first().push(e), k2));
            assert(spec_get(entries, k2) == spec_get(entries.drop_first(), k2));
        }
    }
}

/// A key that is present is found.
proof fn lemma_get_some_if_present(entries: Seq<(Vec<u8>, Vec<u8>)>, j: int, k: Seq<u8>)
    requires
        0 <= j < entries.len(),
        entries[j].0@ == k,
    ensures
        spec_get(entries, k) is Some,
    decreases entries.len(),
{
    if entries[0].0@ == k {
    } else {
        assert(entries.drop_first()[j - 1] == entries[j]);
        lemma_get_some_if_present(entries.drop_first(), j - 1, k);
    }
}

/// A key no entry carries is not found.
proof fn lemma_get_absent(entries: Seq<(Vec<u8>, Vec<u8>)>, k: Seq<u8>)
    requires
        forall|j: int| 0 <= j < entries.len() ==> (#[trigger] entries[j]).0@ != k,
    ensures
        spec_get(entries, k) is None,
    decreases entries.len(),
{
    if entries.len() > 0 {
        lemma_get_absent(entries.drop_first(), k);
    }
}

/// Removing the unique entry of a key removes exactly that key.
proof fn lemma_remove_preserves(entries: Seq<(Vec<u8>, Vec<u8>)>, i: int, k: Seq<u8>)
    requires
        unique_keys(entries),
        0 <= i < entries.len(),
        entries[i].0@ == k,
        forall|j: int| 0 <= j < i ==> (#[trigger] entries[j]).0@ != k,
    ensures
        unique_keys(entries.remove(i)),
        spec_get(entries.remove(i), k) is None,
        forall|k2: Seq<u8>| k2 != k ==> spec_get(entries.remove(i), k2) == spec_get(entries, k2),
    decreases entries.len(),
{
    let r = entries.remove(i);
    assert(unique_keys(r)) by {
        assert forall|x: int, y: int| 0 <= x < y < r.len() implies (#[trigger] r[x]).0@ != (
        #[trigger] r[y]).0@ by {
            if x < i && y < i {
                assert(r[x] == entries[x] && r[y] == entries[y]);
            } else if x < i {
                assert(r[x] == entries[x] && r[y] == entries[y + 1]);
            } else {
                assert(r[x] == entries[x + 1] && r[y] == entries[y + 1]);
            }
        };
    };
    assert(spec_get(r, k) is None) by {
        assert(forall|j: int| 0 <= j < r.len() ==> (#[trigger] r[j]).0@ != k) by {
            assert forall|j: int| 0 <= j < r.len() implies (#[trigger] r[j]).0@ != k by {
                if j < i {
                    assert(r[j] == entries[j]);
                } else {
                    assert(r[j] == entries[j + 1]);
                }
            };
        };
        lemma_get_absent(r, k);
    };
    if i == 0 {
        assert(r =~= entries.drop_first());
        assert forall|k2: Seq<u8>| k2 != k implies spec_get(r, k2) == spec_get(entries, k2) by {
            assert(spec_get(entries, k2) == spec_get(entries.drop_first(), k2));
        };
    } else {
        assert(r[0] == entries[0]);
        assert(r.drop_first() =~= entries.drop_first().remove(i - 1));
        lemma_remove_preserves(entries.drop_first(), i - 1, k);
        assert forall|k2: Seq<u8>| k2 != k implies spec_get(r, k2) == spec_get(entries, k2) by {
            assert(spec_get(r.drop_first(), k2) == spec_get(entries.drop_first().remove(i - 1), k2));
            if entries[0].0@ == k2 {
                assert(spec_get(r, k2) == Some(r[0].1@));
                assert(spec_get(entries, k2) == Some(entries[0].1@));
            } else {
                assert(spec_get(r, k2) == spec_get(r.drop_first(), k2));
                assert(spec_get(entries, k2) == spec_get(entries.drop_first(), k2));
            }
        };
    }
}

} // verus!
