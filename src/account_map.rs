use vstd::prelude::*;
use crate::account::Account;

verus! {

/// A table keyed by account, one entry per account, kept in insertion order.
pub struct AccountMap<V> {
    entries: Vec<(Account, V)>,
    map: Ghost<Map<Seq<u8>, V>>,
}

impl<V> View for AccountMap<V> {
    type V = Map<Seq<u8>, V>;

    closed spec fn view(&self) -> Map<Seq<u8>, V> {
        self.map@
    }
}

impl<V> AccountMap<V> {
    /// Keys are unique and the entries agree with the map.
    pub closed spec fn wf(&self) -> bool {
        &&& forall|i: int, j: int|
            0 <= i < j < self.entries@.len() ==> #[trigger] self.entries@[i].0@
                != #[trigger] self.entries@[j].0@
        &&& forall|i: int|
            #![trigger self.entries@[i]]
            0 <= i < self.entries@.len() ==> self.map@.contains_key(self.entries@[i].0@)
                && self.map@[self.entries@[i].0@] == self.entries@[i].1
        &&& forall|k: Seq<u8>|
            #[trigger] self.map@.contains_key(k) ==> exists|i: int|
                0 <= i < self.entries@.len() && #[trigger] self.entries@[i].0@ == k
    }

    /// The keys, in the order in which they were first inserted.
    pub closed spec fn keys(&self) -> Seq<Seq<u8>> {
        self.entries@.map_values(|e: (Account, V)| e.0@)
    }

    /// The keys are exactly the map's domain, each once.
    pub proof fn lemma_keys(&self)
        requires
            self.wf(),
        ensures
            self.keys().no_duplicates(),
            forall|k: Seq<u8>| #[trigger] self.keys().contains(k) <==> self@.contains_key(k),
            forall|i: int| 0 <= i < self.keys().len() ==> self@.contains_key(#[trigger] self.keys()[i]),
    {
        assert forall|k: Seq<u8>| #[trigger] self.keys().contains(k) <==> self@.contains_key(k) by {
            if self@.contains_key(k) {
                let i = choose|i: int| 0 <= i < self.entries@.len() && #[trigger] self.entries@[i].0@ == k;
                assert(self.keys()[i] == k);
            }
            if self.keys().contains(k) {
                let i = choose|i: int| 0 <= i < self.keys().len() && self.keys()[i] == k;
                assert(self.entries@[i].0@ == k);
            }
        };
        assert forall|i: int, j: int| 0 <= i < self.keys().len() && 0 <= j < self.keys().len() && i != j
            implies self.keys()[i] != self.keys()[j] by {
            if i < j {
                assert(self.entries@[i].0@ != self.entries@[j].0@);
            } else {
                assert(self.entries@[j].0@ != self.entries@[i].0@);
            }
        };
        assert forall|i: int| 0 <= i < self.keys().len() implies self@.contains_key(#[trigger] self.keys()[i]) by {
            assert(self.entries@[i].0@ == self.keys()[i]);
        };
    }

    /// An empty table.
    pub fn new() -> (r: AccountMap<V>)
        ensures
            r.wf(),
            r@ == Map::<Seq<u8>, V>::empty(),
            r.keys() == Seq::<Seq<u8>>::empty(),
    {
        let r = AccountMap { entries: Vec::new(), map: Ghost(Map::empty()) };
        assert(r.keys() =~= Seq::<Seq<u8>>::empty());
        r
    }

    /// The number of entries.
    pub fn len(&self) -> (r: usize)
        requires
            self.wf(),
        ensures
            r == self.keys().len(),
    {
        self.entries.len()
    }

    fn find(&self, k: &Account) -> (r: Option<usize>)
        requires
            self.wf(),
        ensures
            r matches Some(i) ==> i < self.entries@.len() && self.entries@[i as int].0@ == k@,
            r is None ==> !self@.contains_key(k@),
    {
        let mut i: usize = 0;
        while i < self.entries.len()
            invariant
                i <= self.entries@.len(),
                forall|j: int| 0 <= j < i ==> #[trigger] self.entries@[j].0@ != k@,
            decreases self.entries@.len() - i,
        {
            if self.entries[i].0 == *k {
                return Some(i);
            }
            i = i + 1;
        }
        None
    }

    /// The value stored for `k`, if any.
    pub fn get(&self, k: &Account) -> (r: Option<&V>)
        requires
            self.wf(),
        ensures
            r is Some <==> self@.contains_key(k@),
            r matches Some(v) ==> *v == self@[k@],
    {
        match self.find(k) {
            Some(i) => Some(&self.entries[i].1),
            None => None,
        }
    }

    /// The key and value at position `i` of `keys()`.
    pub fn entry_at(&self, i: usize) -> (r: (&Account, &V))
        requires
            self.wf(),
            i < self.keys().len(),
        ensures
            r.0@ == self.keys()[i as int],
            self@.contains_key(r.0@),
            *r.1 == self@[r.0@],
    {
        let e = &self.entries[i];
        (&e.0, &e.1)
    }

    /// Sets the value for `k`; a new key goes to the end of `keys()`.
    pub fn insert(&mut self, k: Account, v: V)
        requires
            old(self).wf(),
        ensures
            final(self).wf(),
            final(self)@ == old(self)@.insert(k@, v),
            old(self)@.contains_key(k@) ==> final(self).keys() == old(self).keys(),
            !old(self)@.contains_key(k@) ==> final(self).keys() == old(self).keys().push(k@),
    {
        let ghost kv = k@;
        let ghost old_keys = self.keys();
        let ghost old_entries = self.entries@;
        let ghost old_map = self.map@;
        match self.find(&k) {
            Some(i) => {
                self.entries.set(i, (k, v));
                self.map = Ghost(old_map.insert(kv, v));
                assert(self.keys() =~= old_keys);
                assert forall|j: int| 0 <= j < self.entries@.len() && j != i implies
                    #[trigger] self.entries@[j] == old_entries[j] by {};
                assert forall|q: Seq<u8>| #[trigger] self.map@.contains_key(q) implies exists|j: int|
                    0 <= j < self.entries@.len() && #[trigger] self.entries@[j].0@ == q by {
                    if q != kv {
                        assert(old_map.contains_key(q));
                        let j = choose|j: int| 0 <= j < old_entries.len() && #[trigger] old_entries[j].0@ == q;
                        assert(self.entries@[j].0@ == q);
                    } else {
                        assert(self.entries@[i as int].0@ == q);
                    }
                };
            },
            None => {
                self.entries.push((k, v));
                self.map = Ghost(old_map.insert(kv, v));
                assert(self.keys() =~= old_keys.push(kv));
                assert forall|j: int| 0 <= j < old_entries.len() implies
                    #[trigger] self.entries@[j] == old_entries[j] by {};
                assert forall|q: Seq<u8>| #[trigger] self.map@.contains_key(q) implies exists|j: int|
                    0 <= j < self.entries@.len() && #[trigger] self.entries@[j].0@ == q by {
                    if q != kv {
                        assert(old_map.contains_key(q));
                        let j = choose|j: int| 0 <= j < old_entries.len() && #[trigger] old_entries[j].0@ == q;
                        assert(self.entries@[j].0@ == q);
                    } else {
                        assert(self.entries@[old_entries.len() as int].0@ == q);
                    }
                };
            },
        }
    }

    /// Removes the entry for `k`, if there is one; the other keys keep their order.
    pub fn remove(&mut self, k: &Account)
        requires
            old(self).wf(),
        ensures
            final(self).wf(),
            final(self)@ == old(self)@.remove(k@),
            !old(self)@.contains_key(k@) ==> final(self).keys() == old(self).keys(),
            old(self)@.contains_key(k@) ==> exists|i: int| 0 <= i < old(self).keys().len()
                && old(self).keys()[i] == k@ && final(self).keys() == old(self).keys().remove(i),
    {
        match self.find(k) {
            Some(i) => {
                let ghost old_entries = self.entries@;
                let ghost old_keys = self.keys();
                let _ = self.entries.remove(i);
                self.map = Ghost(self.map@.remove(k@));
                assert(self.keys() =~= old_keys.remove(i as int));
                assert(old_keys[i as int] == k@);
                assert forall|j: int| 0 <= j < self.entries@.len() implies
                    #[trigger] self.entries@[j] == (if j < i { old_entries[j] } else { old_entries[j + 1] }) by {};
                assert forall|q: Seq<u8>| #[trigger] self.map@.contains_key(q) implies exists|j: int|
                    0 <= j < self.entries@.len() && #[trigger] self.entries@[j].0@ == q by {
                    let j = choose|j: int| 0 <= j < old_entries.len() && #[trigger] old_entries[j].0@ == q;
                    if j < i {
                        assert(self.entries@[j].0@ == q);
                    } else {
                        assert(j != i);
                        assert(self.entries@[j - 1].0@ == q);
                    }
                };
            },
            None => {
                assert(self.map@.remove(k@) =~= self.map@);
            },
        }
    }
    /// Removes the entry for `k` and hands back its value.
    pub fn take(&mut self, k: &Account) -> (r: Option<V>)
        requires
            old(self).wf(),
        ensures
            final(self).wf(),
            final(self)@ == old(self)@.remove(k@),
            r is Some <==> old(self)@.contains_key(k@),
            r matches Some(v) ==> v == old(self)@[k@],
    {
        match self.find(k) {
            Some(i) => {
                let ghost old_entries = self.entries@;
                let (_, v) = self.entries.remove(i);
                self.map = Ghost(self.map@.remove(k@));
                assert forall|j: int| 0 <= j < self.entries@.len() implies
                    #[trigger] self.entries@[j] == (if j < i { old_entries[j] } else { old_entries[j + 1] }) by {};
                assert forall|q: Seq<u8>| #[trigger] self.map@.contains_key(q) implies exists|j: int|
                    0 <= j < self.entries@.len() && #[trigger] self.entries@[j].0@ == q by {
                    let j = choose|j: int| 0 <= j < old_entries.len() && #[trigger] old_entries[j].0@ == q;
                    if j < i {
                        assert(self.entries@[j].0@ == q);
                    } else {
                        assert(j != i);
                        assert(self.entries@[j - 1].0@ == q);
                    }
                };
                Some(v)
            },
            None => {
                assert(self.map@.remove(k@) =~= self.map@);
                None
            },
        }
    }

    /// Whether the table has no entries.
    pub fn is_empty(&self) -> (r: bool)
        requires
            self.wf(),
        ensures
            r <==> self@ == Map::<Seq<u8>, V>::empty(),
    {
        proof {
            if self.entries@.len() > 0 {
                assert(self@.contains_key(self.entries@[0].0@));
            } else {
                assert(self@ =~= Map::<Seq<u8>, V>::empty());
            }
        }
        self.entries.len() == 0
    }
}

} // verus!
