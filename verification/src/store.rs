//! A store of one value per owner.

use vstd::prelude::*;

verus! {

/// A value and whose it is. A value without an owner is shared by everybody.
#[derive(Debug, PartialEq)]
pub struct Entry<V> {
    pub owner: Option<i64>,
    pub value: V,
}

/// One value per owner.
#[derive(Debug, PartialEq)]
pub struct Store<V> {
    entries: Vec<Entry<V>>,
}

/// No owner has two values.
pub open spec fn unique_owners<V>(s: Seq<Entry<V>>) -> bool {
    forall|i: int, j: int|
        0 <= i < s.len() && 0 <= j < s.len() && i != j ==> (#[trigger] s[i]).owner != (
        #[trigger] s[j]).owner
}

/// The values by owner.
pub open spec fn entry_map<V>(s: Seq<Entry<V>>) -> Map<Option<i64>, V>
    decreases s.len(),
{
    if s.len() == 0 {
        Map::empty()
    } else {
        entry_map(s.drop_last()).insert(s.last().owner, s.last().value)
    }
}

proof fn lemma_entry_map<V>(s: Seq<Entry<V>>)
    requires
        unique_owners(s),
    ensures
        forall|i: int|
            0 <= i < s.len() ==> entry_map(s).contains_key((#[trigger] s[i]).owner)
                && entry_map(s)[s[i].owner] == s[i].value,
        forall|k: Option<i64>| #[trigger]
            entry_map(s).contains_key(k) ==> exists|i: int|
                0 <= i < s.len() && (#[trigger] s[i]).owner == k,
    decreases s.len(),
{
    if s.len() > 0 {
        let front = s.drop_last();
        assert forall|i: int, j: int|
            0 <= i < front.len() && 0 <= j < front.len() && i != j implies (
        #[trigger] front[i]).owner != (#[trigger] front[j]).owner by {
            assert(front[i] == s[i] && front[j] == s[j]);
        }
        lemma_entry_map(front);
        assert forall|i: int| 0 <= i < s.len() implies entry_map(s).contains_key(
            (#[trigger] s[i]).owner,
        ) && entry_map(s)[s[i].owner] == s[i].value by {
            if i < front.len() {
                assert(front[i] == s[i]);
                assert(s[i].owner != s[s.len() - 1].owner);
            }
        }
        assert forall|k: Option<i64>| #[trigger]
            entry_map(s).contains_key(k) implies exists|i: int|
            0 <= i < s.len() && (#[trigger] s[i]).owner == k by {
            if k == s.last().owner {
                assert(s[s.len() - 1].owner == k);
            } else {
                assert(entry_map(front).contains_key(k));
                let i = choose|i: int| 0 <= i < front.len() && (#[trigger] front[i]).owner == k;
                assert(s[i] == front[i]);
            }
        }
    }
}

impl<V> View for Store<V> {
    type V = Map<Option<i64>, V>;

    closed spec fn view(&self) -> Map<Option<i64>, V> {
        entry_map(self.entries@)
    }
}

impl<V> Store<V> {
    pub closed spec fn wf(self) -> bool {
        unique_owners(self.entries@)
    }

    /// A store without values.
    pub fn new() -> (r: Self)
        ensures
            r.wf(),
            r@ == Map::<Option<i64>, V>::empty(),
    {
        Store { entries: Vec::new() }
    }

    /// The place of the value of `owner`.
    fn find(&self, owner: Option<i64>) -> (r: Option<usize>)
        requires
            self.wf(),
        ensures
            match r {
                Some(i) => i < self.entries@.len() && self.entries@[i as int].owner == owner
                    && self@.contains_key(owner) && self@[owner] == self.entries@[i as int].value,
                None => !self@.contains_key(owner) && forall|j: int|
                    0 <= j < self.entries@.len() ==> (#[trigger] self.entries@[j]).owner != owner,
            },
    {
        proof {
            lemma_entry_map(self.entries@);
        }
        let mut i: usize = 0;
        while i < self.entries.len()
            invariant
                i <= self.entries@.len(),
                forall|k: int|
                    0 <= k < self.entries@.len() ==> self@.contains_key(
                        (#[trigger] self.entries@[k]).owner,
                    ) && self@[self.entries@[k].owner] == self.entries@[k].value,
                forall|j: int| 0 <= j < i ==> (#[trigger] self.entries@[j]).owner != owner,
            decreases self.entries@.len() - i,
        {
            if self.entries[i].owner == owner {
                return Some(i);
            }
            i = i + 1;
        }
        None
    }

    /// The value of `owner`.
    pub fn get(&self, owner: Option<i64>) -> (r: Option<&V>)
        requires
            self.wf(),
        ensures
            match r {
                Some(v) => self@.contains_key(owner) && *v == self@[owner],
                None => !self@.contains_key(owner),
            },
    {
        match self.find(owner) {
            Some(i) => Some(&self.entries[i].value),
            None => None,
        }
    }

    /// Takes the value of `owner` out of the store.
    pub fn take(&mut self, owner: Option<i64>) -> (r: Option<V>)
        requires
            old(self).wf(),
        ensures
            final(self).wf(),
            final(self)@ == old(self)@.remove(owner),
            match r {
                Some(v) => old(self)@.contains_key(owner) && v == old(self)@[owner],
                None => !old(self)@.contains_key(owner),
            },
    {
        let ghost before = self.entries@;
        proof {
            lemma_entry_map(before);
        }
        match self.find(owner) {
            None => {
                assert(entry_map(before).remove(owner) =~= entry_map(before));
                None
            },
            Some(i) => {
                let e = self.entries.remove(i);
                proof {
                    let after = self.entries@;
                    assert(after =~= before.remove(i as int));
                    assert forall|a: int, b: int|
                        0 <= a < after.len() && 0 <= b < after.len() && a != b implies (
                    #[trigger] after[a]).owner != (#[trigger] after[b]).owner by {
                        let a0 = if a < i {
                            a
                        } else {
                            a + 1
                        };
                        let b0 = if b < i {
                            b
                        } else {
                            b + 1
                        };
                        assert(after[a] == before[a0] && after[b] == before[b0]);
                    }
                    lemma_entry_map(after);
                    assert forall|k: Option<i64>|
                        #![auto]
                        entry_map(after).contains_key(k) == entry_map(before).remove(
                            owner,
                        ).contains_key(k) by {
                        if entry_map(after).contains_key(k) {
                            let j = choose|j: int|
                                0 <= j < after.len() && (#[trigger] after[j]).owner == k;
                            let j0 = if j < i {
                                j
                            } else {
                                j + 1
                            };
                            assert(after[j] == before[j0]);
                            assert(before[j0].owner != before[i as int].owner);
                        }
                        if entry_map(before).contains_key(k) && k != owner {
                            let j = choose|j: int|
                                0 <= j < before.len() && (#[trigger] before[j]).owner == k;
                            let j1 = if j < i {
                                j
                            } else {
                                j - 1
                            };
                            assert(after[j1] == before[j]);
                        }
                    }
                    assert forall|k: Option<i64>|
                        entry_map(after).contains_key(k) implies #[trigger] entry_map(after)[k]
                        == entry_map(before).remove(owner)[k] by {
                        let j = choose|j: int|
                            0 <= j < after.len() && (#[trigger] after[j]).owner == k;
                        let j0 = if j < i {
                            j
                        } else {
                            j + 1
                        };
                        assert(after[j] == before[j0]);
                    }
                    assert(entry_map(after) =~= entry_map(before).remove(owner));
                }
                Some(e.value)
            },
        }
    }

    /// Puts the value of `owner` into the store, in place of an old one.
    pub fn put(&mut self, owner: Option<i64>, value: V)
        requires
            old(self).wf(),
        ensures
            final(self).wf(),
            final(self)@ == old(self)@.insert(owner, value),
    {
        let ghost m = self@;
        let _ = self.take(owner);
        proof {
            lemma_entry_map(self.entries@);
        }
        let ghost before = self.entries@;
        self.entries.push(Entry { owner, value });
        proof {
            let after = self.entries@;
            assert(after.drop_last() =~= before);
            assert forall|a: int, b: int|
                0 <= a < after.len() && 0 <= b < after.len() && a != b implies (
            #[trigger] after[a]).owner != (#[trigger] after[b]).owner by {
                if a < before.len() {
                    assert(after[a] == before[a]);
                    assert(entry_map(before).contains_key(before[a].owner));
                }
                if b < before.len() {
                    assert(after[b] == before[b]);
                    assert(entry_map(before).contains_key(before[b].owner));
                }
            }
            assert(m.remove(owner).insert(owner, value) =~= m.insert(owner, value));
        }
    }

    /// The owners that have a value, each once.
    pub fn owners(&self) -> (r: Vec<Option<i64>>)
        requires
            self.wf(),
        ensures
            r@.no_duplicates(),
            forall|k: Option<i64>| #[trigger] r@.contains(k) <==> self@.contains_key(k),
    {
        let mut out: Vec<Option<i64>> = Vec::new();
        let mut i: usize = 0;
        while i < self.entries.len()
            invariant
                i <= self.entries@.len(),
                out@.len() == i,
                forall|j: int| 0 <= j < i ==> out@[j] == (#[trigger] self.entries@[j]).owner,
            decreases self.entries@.len() - i,
        {
            out.push(self.entries[i].owner);
            i = i + 1;
        }
        proof {
            lemma_entry_map(self.entries@);
            assert forall|k: Option<i64>| #[trigger]
                out@.contains(k) <==> self@.contains_key(k) by {
                if out@.contains(k) {
                    let j = choose|j: int| 0 <= j < out@.len() && out@[j] == k;
                    assert(self.entries@[j].owner == k);
                }
                if self@.contains_key(k) {
                    let j = choose|j: int|
                        0 <= j < self.entries@.len() && (#[trigger] self.entries@[j]).owner == k;
                    assert(out@[j] == k);
                }
            }
            assert forall|a: int, b: int|
                0 <= a < out@.len() && 0 <= b < out@.len() && a != b implies out@[a] != out@[b] by {
                assert(self.entries@[a].owner != self.entries@[b].owner);
            }
        }
        out
    }
}

} // verus!
