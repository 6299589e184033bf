//! A string-keyed table of balances, with a map from identity to amount as
//! its view.

use vstd::prelude::*;

verus! {

/// One stored balance: an identity and the amount held for it.
pub struct BalanceEntry {
    pub key: String,
    pub amount: u128,
}

/// A balance per identity, kept as a list of entries with distinct keys.
/// Its view maps each stored identity to its amount.
pub struct BalanceTable {
    entries: Vec<BalanceEntry>,
}

/// The amount that `m` holds for `k`, where a missing identity holds zero.
pub open spec fn balance_in(m: Map<Seq<char>, nat>, k: Seq<char>) -> nat {
    if m.contains_key(k) {
        m[k]
    } else {
        0
    }
}

spec fn has_key(s: Seq<BalanceEntry>, k: Seq<char>) -> bool {
    exists|i: int| 0 <= i < s.len() && s[i].key@ == k
}

spec fn index_of(s: Seq<BalanceEntry>, k: Seq<char>) -> int {
    choose|i: int| 0 <= i < s.len() && s[i].key@ == k
}

spec fn keys_distinct(s: Seq<BalanceEntry>) -> bool {
    forall|i: int, j: int|
        0 <= i < s.len() && 0 <= j < s.len() && i != j ==> s[i].key@ != s[j].key@
}

spec fn map_of(s: Seq<BalanceEntry>) -> Map<Seq<char>, nat> {
    Map::new(|k: Seq<char>| has_key(s, k), |k: Seq<char>| s[index_of(s, k)].amount as nat)
}

/// With distinct keys, the map of a list holds each entry's amount under its key.
proof fn lemma_lookup(s: Seq<BalanceEntry>, i: int)
    requires
        keys_distinct(s),
        0 <= i < s.len(),
    ensures
        map_of(s).contains_key(s[i].key@),
        map_of(s)[s[i].key@] == s[i].amount as nat,
{
    let k = s[i].key@;
    assert(has_key(s, k));
    let j = index_of(s, k);
    assert(s[j].key@ == k);
}

/// With distinct keys, appending an entry for a new key inserts it into the map.
proof fn lemma_push(s: Seq<BalanceEntry>, e: BalanceEntry)
    requires
        keys_distinct(s),
        !has_key(s, e.key@),
    ensures
        keys_distinct(s.push(e)),
        map_of(s.push(e)) == map_of(s).insert(e.key@, e.amount as nat),
{
    let t = s.push(e);
    let k = e.key@;
    assert(keys_distinct(t));
    assert forall|k2: Seq<char>|
        #[trigger] map_of(t).contains_key(k2) == map_of(s).insert(k, e.amount as nat).contains_key(k2)
        && (map_of(t).contains_key(k2) ==> map_of(t)[k2] == map_of(s).insert(k, e.amount as nat)[k2]) by {
        if k2 == k {
            lemma_lookup(t, s.len() as int);
        } else if has_key(s, k2) {
            let j = choose|j: int| 0 <= j < s.len() && s[j].key@ == k2;
            lemma_lookup(s, j);
            lemma_lookup(t, j);
        } else {
            if has_key(t, k2) {
                let j = choose|j: int| 0 <= j < t.len() && t[j].key@ == k2;
                assert(s[j].key@ == k2);
            }
        }
    }
    assert(map_of(t) =~= map_of(s).insert(k, e.amount as nat));
}

/// The map obtained by storing each entry in turn, first to last; a later
/// entry for the same identity replaces an earlier one.
pub open spec fn entries_inserted(s: Seq<BalanceEntry>) -> Map<Seq<char>, nat>
    decreases s.len(),
{
    if s.len() == 0 {
        Map::empty()
    } else {
        entries_inserted(s.drop_last()).insert(s.last().key@, s.last().amount as nat)
    }
}

/// With distinct keys, storing the entries in turn gives the map of the list.
proof fn lemma_inserted_is_map(s: Seq<BalanceEntry>)
    requires
        keys_distinct(s),
    ensures
        entries_inserted(s) == map_of(s),
    decreases s.len(),
{
    if s.len() == 0 {
        assert(map_of(s) =~= Map::<Seq<char>, nat>::empty());
    } else {
        let p = s.drop_last();
        assert(keys_distinct(p));
        lemma_inserted_is_map(p);
        if has_key(p, s.last().key@) {
            let j = choose|j: int| 0 <= j < p.len() && p[j].key@ == s.last().key@;
            assert(s[j].key@ == s[s.len() - 1].key@);
        }
        lemma_push(p, s.last());
        assert(p.push(s.last()) =~= s);
    }
}

impl View for BalanceTable {
    type V = Map<Seq<char>, nat>;

    closed spec fn view(&self) -> Map<Seq<char>, nat> {
        map_of(self.entries@)
    }
}

impl BalanceTable {
    #[verifier::type_invariant]
    spec fn well_formed(self) -> bool {
        keys_distinct(self.entries@)
    }

    /// A table that holds no identity.
    pub fn new() -> (r: Self)
        ensures
            r@ == Map::<Seq<char>, nat>::empty(),
    {
        let r = BalanceTable { entries: Vec::new() };
        assert(r@ =~= Map::<Seq<char>, nat>::empty());
        r
    }

    /// Every stored amount fits in a `u128`.
    pub proof fn lemma_amounts_fit(&self)
        ensures
            forall|k: Seq<char>| #[trigger] self@.contains_key(k) ==> self@[k] <= u128::MAX,
    {
    }

    /// The stored entries, one per identity.
    pub fn to_entries(&self) -> (r: Vec<BalanceEntry>)
        ensures
            entries_inserted(r@) == self@,
    {
        proof {
            use_type_invariant(self);
        }
        let mut r: Vec<BalanceEntry> = Vec::new();
        let mut i: usize = 0;
        while i < self.entries.len()
            invariant
                0 <= i <= self.entries@.len(),
                r@ == self.entries@.take(i as int),
            decreases self.entries@.len() - i,
        {
            let e = &self.entries[i];
            r.push(BalanceEntry { key: e.key.clone(), amount: e.amount });
            assert(r@ =~= self.entries@.take(i + 1));
            i = i + 1;
        }
        assert(r@ =~= self.entries@);
        proof {
            lemma_inserted_is_map(self.entries@);
        }
        r
    }

    /// A table that stores each entry in turn, first to last.
    pub fn from_entries(entries: Vec<BalanceEntry>) -> (r: Self)
        ensures
            r@ == entries_inserted(entries@),
    {
        let mut r = BalanceTable::new();
        let mut i: usize = 0;
        while i < entries.len()
            invariant
                0 <= i <= entries@.len(),
                r@ == entries_inserted(entries@.take(i as int)),
            decreases entries@.len() - i,
        {
            assert(entries@.take(i + 1).drop_last() =~= entries@.take(i as int));
            r.set(entries[i].key.clone(), entries[i].amount);
            i = i + 1;
        }
        assert(entries@.take(entries@.len() as int) =~= entries@);
        r
    }

    fn find(&self, key: &String) -> (r: Option<usize>)
        ensures
            match r {
                Some(i) => i < self.entries@.len() && self.entries@[i as int].key@ == key@,
                None => !has_key(self.entries@, key@),
            },
    {
        let mut i: usize = 0;
        while i < self.entries.len()
            invariant
                0 <= i <= self.entries@.len(),
                forall|j: int| 0 <= j < i ==> self.entries@[j].key@ != key@,
            decreases self.entries@.len() - i,
        {
            if self.entries[i].key == *key {
                return Some(i);
            }
            i = i + 1;
        }
        None
    }

    /// The amount held for `key`, zero where none is stored.
    pub fn get(&self, key: &String) -> (r: u128)
        ensures
            r as nat == balance_in(self@, key@),
    {
        proof {
            use_type_invariant(self);
        }
        match self.find(key) {
            Some(i) => {
                proof {
                    lemma_lookup(self.entries@, i as int);
                }
                self.entries[i].amount
            },
            None => 0,
        }
    }

    /// Stores `amount` for `key`, replacing what was held for it.
    pub fn set(&mut self, key: String, amount: u128)
        ensures
            final(self)@ == old(self)@.insert(key@, amount as nat),
    {
        proof {
            use_type_invariant(&*self);
        }
        let ghost k = key@;
        let ghost s = self.entries@;
        let found = self.find(&key);
        let mut entries: Vec<BalanceEntry> = Vec::new();
        std::mem::swap(&mut entries, &mut self.entries);
        match found {
            Some(i) => {
                entries.set(i, BalanceEntry { key, amount });
                proof {
                    let t = entries@;
                    assert(keys_distinct(t));
                    assert forall|k2: Seq<char>|
                        #[trigger] map_of(t).contains_key(k2) == map_of(s).insert(k, amount as nat).contains_key(k2)
                        && (map_of(t).contains_key(k2) ==> map_of(t)[k2] == map_of(s).insert(k, amount as nat)[k2]) by {
                        if k2 == k {
                            lemma_lookup(t, i as int);
                        } else if has_key(s, k2) {
                            let j = choose|j: int| 0 <= j < s.len() && s[j].key@ == k2;
                            lemma_lookup(s, j);
                            lemma_lookup(t, j);
                        } else {
                            if has_key(t, k2) {
                                let j = choose|j: int| 0 <= j < t.len() && t[j].key@ == k2;
                                assert(s[j].key@ == k2);
                            }
                        }
                    }
                    assert(map_of(t) =~= map_of(s).insert(k, amount as nat));
                }
            },
            None => {
                proof {
                    lemma_push(s, BalanceEntry { key, amount });
                }
                entries.push(BalanceEntry { key, amount });
            },
        }
        self.entries = entries;
    }
}

} // verus!
