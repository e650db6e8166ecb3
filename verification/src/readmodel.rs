//! The relational read model: a projection of the op logs into query-friendly
//! rows. Every table is an association list from a string key to a row, with
//! later entries shadowing earlier ones erased on update, so each key appears
//! at most once and lookups are exact.

use vstd::prelude::*;

use crate::topics::{clone_string, str_eq};

verus! {

/// The row a key maps to, looked up from the end.
pub open spec fn assoc<V>(s: Seq<(String, V)>, key: Seq<char>) -> Option<V>
    decreases s.len(),
{
    if s.len() == 0 {
        None
    } else if s.last().0@ == key {
        Some(s.last().1)
    } else {
        assoc(s.drop_last(), key)
    }
}

/// One table of the read model: rows keyed by a string, each key held once.
pub struct Table<V> {
    pub entries: Vec<(String, V)>,
}

impl<V> Table<V> {
    /// The row a key maps to.
    pub open spec fn spec_get(&self, key: Seq<char>) -> Option<V> {
        assoc(self.entries@, key)
    }

    /// No key appears twice, so iteration sees each key once.
    pub open spec fn wf(&self) -> bool {
        forall|i: int, j: int|
            0 <= i < j < self.entries@.len() ==> (#[trigger] self.entries@[i]).0@ != (
            #[trigger] self.entries@[j]).0@
    }

    /// An empty table.
    pub fn new() -> (r: Table<V>)
        ensures
            r.wf(),
            forall|k: Seq<char>| r.spec_get(k) is None,
            r.entries@.len() == 0,
    {
        Table { entries: Vec::new() }
    }

    /// The row of a key, if any.
    pub fn get(&self, key: &str) -> (r: Option<&V>)
        ensures
            r is Some <==> self.spec_get(key@) is Some,
            r is Some ==> *r->0 == self.spec_get(key@)->0,
    {
        let n = self.entries.len();
        let mut i: usize = n;
        proof {
            assert(self.entries@.take(n as int) =~= self.entries@);
        }
        while i > 0
            invariant
                i <= n,
                n == self.entries@.len(),
                assoc(self.entries@, key@) == assoc(self.entries@.take(i as int), key@),
            decreases i,
        {
            i = i - 1;
            let entry = &self.entries[i];
            proof {
                let taken = self.entries@.take(i as int + 1);
                assert(taken.last() == self.entries@[i as int]);
                assert(taken.drop_last() =~= self.entries@.take(i as int));
            }
            if str_eq(entry.0.as_str(), key) {
                return Some(&entry.1);
            }
        }
        None
    }

    /// Position of a key's row, if present.
    fn find(&self, key: &str) -> (r: Option<usize>)
        ensures
            r is Some ==> r->0 < self.entries@.len() && self.entries@[r->0 as int].0@ == key@,
            r is None ==> forall|i: int| 0 <= i < self.entries@.len() ==> (#[trigger] self.entries@[i]).0@ != key@,
    {
        let n = self.entries.len();
        let mut i: usize = 0;
        while i < n
            invariant
                i <= n,
                n == self.entries@.len(),
                forall|j: int| 0 <= j < i ==> (#[trigger] self.entries@[j]).0@ != key@,
            decreases n - i,
        {
            if str_eq(self.entries[i].0.as_str(), key) {
                return Some(i);
            }
            i = i + 1;
        }
        None
    }

    /// Remove a key's row, if present.
    pub fn remove(&mut self, key: &str)
        requires
            old(self).wf(),
        ensures
            final(self).wf(),
            forall|k: Seq<char>|
                final(self).spec_get(k) == (if k == key@ {
                    None::<V>
                } else {
                    old(self).spec_get(k)
                }),
    {
        let Some(i) = self.find(key) else {
            proof {
                lemma_assoc_absent(self.entries@, key@);
            }
            return ;
        };
        let ghost orig = self.entries@;
        let removed = self.entries.remove(i);
        proof {
            assert forall|a: int, b: int|
                0 <= a < b < self.entries@.len() implies (#[trigger] self.entries@[a]).0@ != (
            #[trigger] self.entries@[b]).0@ by {
                let a0 = if a < i {
                    a
                } else {
                    a + 1
                };
                let b0 = if b < i {
                    b
                } else {
                    b + 1
                };
                assert(self.entries@[a] == orig[a0] && self.entries@[b] == orig[b0]);
            }
            lemma_assoc_remove(orig, i as int, key@);
        }
    }

    /// Insert or overwrite a key's row.
    pub fn upsert(&mut self, key: String, value: V)
        requires
            old(self).wf(),
        ensures
            final(self).wf(),
            forall|k: Seq<char>|
                final(self).spec_get(k) == (if k == key@ {
                    Some(value)
                } else {
                    old(self).spec_get(k)
                }),
    {
        let ghost key_view = key@;
        self.remove(key.as_str());
        let ghost table_mid = *self;
        let ghost mid = self.entries@;
        proof {
            assert(self.spec_get(key_view) is None);
            lemma_assoc_none_not_present(mid, key_view);
        }
        self.entries.push((key, value));
        proof {
            assert(self.entries@.drop_last() =~= mid);
            assert(self.entries@.last().0@ == key_view);
            assert forall|a: int, b: int|
                0 <= a < b < self.entries@.len() implies (#[trigger] self.entries@[a]).0@ != (
            #[trigger] self.entries@[b]).0@ by {
                if b < self.entries@.len() - 1 {
                    assert(self.entries@[a] == mid[a] && self.entries@[b] == mid[b]);
                } else {
                    assert(self.entries@[a] == mid[a]);
                }
            }
            assert forall|k: Seq<char>|
                self.spec_get(k) == (if k == key_view {
                    Some(value)
                } else {
                    old(self).spec_get(k)
                }) by {
                if k == key_view {
                    assert(assoc(self.entries@, k) == Some(self.entries@.last().1));
                } else {
                    assert(assoc(self.entries@, k) == assoc(mid, k));
                    assert(table_mid.spec_get(k) == (if k == key_view {
                        None::<V>
                    } else {
                        old(self).spec_get(k)
                    }));
                    assert(assoc(mid, k) == table_mid.spec_get(k));
                }
            }
        }
    }

    /// How many rows the table holds.
    pub fn len(&self) -> (r: usize)
        ensures
            r == self.entries@.len(),
    {
        self.entries.len()
    }
}

/// Each entry of a duplicate-free table looks up to its own row.
pub proof fn lemma_assoc_at<V>(s: Seq<(String, V)>, j: int)
    requires
        0 <= j < s.len(),
        forall|a: int, b: int|
            0 <= a < b < s.len() ==> (#[trigger] s[a]).0@ != (#[trigger] s[b]).0@,
    ensures
        assoc(s, s[j].0@) == Some(s[j].1),
    decreases s.len(),
{
    if j == s.len() - 1 {
    } else {
        assert(s[s.len() - 1].0@ != s[j].0@);
        lemma_assoc_at(s.drop_last(), j);
    }
}

/// A key that `assoc` resolves stands at some index with that row.
pub proof fn lemma_assoc_present<V>(s: Seq<(String, V)>, key: Seq<char>)
    requires
        assoc(s, key) is Some,
    ensures
        exists|j: int|
            0 <= j < s.len() && (#[trigger] s[j]).0@ == key && assoc(s, key) == Some(s[j].1),
    decreases s.len(),
{
    if s.last().0@ == key {
        assert(0 <= s.len() - 1 < s.len() && s[s.len() - 1].0@ == key && assoc(s, key) == Some(
            s[s.len() - 1].1,
        ));
    } else {
        lemma_assoc_present(s.drop_last(), key);
        let j = choose|j: int|
            0 <= j < s.drop_last().len() && (#[trigger] s.drop_last()[j]).0@ == key && assoc(
                s.drop_last(),
                key,
            ) == Some(s.drop_last()[j].1);
        assert(0 <= j < s.len() && s[j].0@ == key && assoc(s, key) == Some(s[j].1));
    }
}

/// A key no entry carries looks up to nothing.
pub proof fn lemma_assoc_absent<V>(s: Seq<(String, V)>, key: Seq<char>)
    requires
        forall|i: int| 0 <= i < s.len() ==> (#[trigger] s[i]).0@ != key,
    ensures
        assoc(s, key) is None,
    decreases s.len(),
{
    if s.len() > 0 {
        assert(s.last() == s[s.len() - 1]);
        assert forall|i: int| 0 <= i < s.drop_last().len() implies (#[trigger] s.drop_last()[i]).0@
            != key by {
            assert(s.drop_last()[i] == s[i]);
        }
        lemma_assoc_absent(s.drop_last(), key);
    }
}

/// Removing a key's only row erases exactly that key from every lookup.
pub proof fn lemma_assoc_remove<V>(s: Seq<(String, V)>, i: int, key: Seq<char>)
    requires
        0 <= i < s.len(),
        s[i].0@ == key,
        forall|j: int| 0 <= j < s.len() && j != i ==> (#[trigger] s[j]).0@ != key,
    ensures
        forall|k: Seq<char>|
            #[trigger] assoc(s.remove(i), k) == (if k == key {
                None::<V>
            } else {
                assoc(s, k)
            }),
    decreases s.len(),
{
    let r = s.remove(i);
    if i == s.len() - 1 {
        assert(r =~= s.drop_last());
        assert forall|k: Seq<char>|
            #[trigger] assoc(r, k) == (if k == key {
                None::<V>
            } else {
                assoc(s, k)
            }) by {
            if k == key {
                assert forall|j: int| 0 <= j < r.len() implies (#[trigger] r[j]).0@ != key by {
                    assert(r[j] == s[j]);
                }
                lemma_assoc_absent(r, key);
            } else {
                assert(s.last().0@ == key);
            }
        }
    } else {
        assert(r.last() == s.last());
        assert(r.drop_last() =~= s.drop_last().remove(i));
        assert(s.drop_last()[i] == s[i]);
        assert forall|j: int|
            0 <= j < s.drop_last().len() && j != i implies (#[trigger] s.drop_last()[j]).0@
            != key by {
            assert(s.drop_last()[j] == s[j]);
        }
        lemma_assoc_remove(s.drop_last(), i, key);
        assert forall|k: Seq<char>|
            #[trigger] assoc(r, k) == (if k == key {
                None::<V>
            } else {
                assoc(s, k)
            }) by {
            assert(assoc(s.drop_last().remove(i), k) == (if k == key {
                None::<V>
            } else {
                assoc(s.drop_last(), k)
            }));
            assert(s.last().0@ != key);
        }
    }
}

/// A missing key appears in no entry.
pub proof fn lemma_assoc_none_not_present<V>(s: Seq<(String, V)>, key: Seq<char>)
    requires
        assoc(s, key) is None,
    ensures
        forall|i: int| 0 <= i < s.len() ==> (#[trigger] s[i]).0@ != key,
    decreases s.len(),
{
    if s.len() > 0 {
        lemma_assoc_none_not_present(s.drop_last(), key);
        assert forall|i: int| 0 <= i < s.len() implies (#[trigger] s[i]).0@ != key by {
            if i < s.len() - 1 {
                assert(s.drop_last()[i] == s[i]);
            }
        }
    }
}

} // verus!
