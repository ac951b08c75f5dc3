//! A keyed store held as an association list in which the last entry for a
//! key is the one that counts. Keys are sequences of strings, so one store
//! type serves every composite key of the ledger.
use vstd::prelude::*;

verus! {

/// The mathematical form of a key.
pub open spec fn key_view(k: Seq<String>) -> Seq<Seq<char>> {
    k.map_values(|s: String| s@)
}

/// What a sequence of entries means: later entries overwrite earlier ones.
pub open spec fn entries_map<V>(s: Seq<(Vec<String>, V)>) -> Map<Seq<Seq<char>>, V>
    decreases s.len(),
{
    if s.len() == 0 {
        Map::empty()
    } else {
        entries_map(s.drop_last()).insert(key_view(s.last().0@), s.last().1)
    }
}

/// A value that can be copied into an equal one.
pub trait Duplicate: Sized {
    fn duplicate(&self) -> (r: Self)
        ensures
            r == *self,
    ;
}

impl Duplicate for u128 {
    fn duplicate(&self) -> (r: Self) {
        *self
    }
}

pub struct Table<V> {
    entries: Vec<(Vec<String>, V)>,
}

/// Compares two keys part by part.
pub fn keys_equal(a: &Vec<String>, b: &Vec<String>) -> (r: bool)
    ensures
        r == (key_view(a@) == key_view(b@)),
{
    if a.len() != b.len() {
        proof {
            assert(key_view(a@).len() != key_view(b@).len());
        }
        return false;
    }
    let mut i: usize = 0;
    while i < a.len()
        invariant
            a.len() == b.len(),
            0 <= i <= a.len(),
            forall|j: int| 0 <= j < i ==> a@[j]@ == b@[j]@,
        decreases a.len() - i,
    {
        if a[i] != b[i] {
            proof {
                assert(key_view(a@)[i as int] != key_view(b@)[i as int]);
            }
            return false;
        }
        i = i + 1;
    }
    proof {
        assert(key_view(a@) =~= key_view(b@));
    }
    true
}

/// Makes an independent copy of a key.
pub fn copy_key(k: &Vec<String>) -> (r: Vec<String>)
    ensures
        key_view(r@) == key_view(k@),
{
    let mut r: Vec<String> = Vec::new();
    let mut i: usize = 0;
    while i < k.len()
        invariant
            0 <= i <= k.len(),
            r@.len() == i,
            forall|j: int| 0 <= j < i ==> r@[j]@ == k@[j]@,
        decreases k.len() - i,
    {
        r.push(k[i].clone());
        i = i + 1;
    }
    proof {
        assert(key_view(r@) =~= key_view(k@));
    }
    r
}

/// No entry at or after `from` carries key `k`.
pub open spec fn absent_from<V>(s: Seq<(Vec<String>, V)>, k: Seq<Seq<char>>, from: int) -> bool {
    forall|j: int| from <= j < s.len() ==> key_view(#[trigger] s[j].0@) != k
}

proof fn lemma_absent<V>(s: Seq<(Vec<String>, V)>, k: Seq<Seq<char>>)
    requires
        absent_from(s, k, 0),
    ensures
        !entries_map(s).contains_key(k),
    decreases s.len(),
{
    if s.len() > 0 {
        assert(key_view(s[s.len() - 1].0@) != k);
        lemma_absent(s.drop_last(), k);
    }
}

proof fn lemma_last_match<V>(s: Seq<(Vec<String>, V)>, k: Seq<Seq<char>>, i: int)
    requires
        0 <= i < s.len(),
        key_view(s[i].0@) == k,
        absent_from(s, k, i + 1),
    ensures
        entries_map(s).contains_key(k),
        entries_map(s)[k] == s[i].1,
    decreases s.len(),
{
    if i < s.len() - 1 {
        assert(key_view(s[s.len() - 1].0@) != k);
        lemma_last_match(s.drop_last(), k, i);
    }
}

proof fn lemma_update<V>(s: Seq<(Vec<String>, V)>, k: Seq<Seq<char>>, i: int, e: (Vec<String>, V))
    requires
        0 <= i < s.len(),
        key_view(s[i].0@) == k,
        key_view(e.0@) == k,
        absent_from(s, k, i + 1),
    ensures
        entries_map(s.update(i, e)) == entries_map(s).insert(k, e.1),
    decreases s.len(),
{
    let t = s.update(i, e);
    if i == s.len() - 1 {
        assert(t.drop_last() =~= s.drop_last());
        assert(entries_map(t) =~= entries_map(s).insert(k, e.1));
    } else {
        assert(key_view(s[s.len() - 1].0@) != k);
        assert(t.drop_last() =~= s.drop_last().update(i, e));
        lemma_update(s.drop_last(), k, i, e);
        assert(entries_map(t) =~= entries_map(s).insert(k, e.1));
    }
}

impl<V> Table<V> {
    pub closed spec fn view(&self) -> Map<Seq<Seq<char>>, V> {
        entries_map(self.entries@)
    }

    pub fn new() -> (r: Self)
        ensures
            r@ == Map::<Seq<Seq<char>>, V>::empty(),
    {
        Table { entries: Vec::new() }
    }

    /// Index of the entry that holds `k`, if any.
    fn find(&self, k: &Vec<String>) -> (r: Option<usize>)
        ensures
            r is None ==> absent_from(self.entries@, key_view(k@), 0),
            r matches Some(i) ==> i < self.entries@.len() && key_view(self.entries@[i as int].0@)
                == key_view(k@) && absent_from(self.entries@, key_view(k@), i + 1),
    {
        let mut i: usize = self.entries.len();
        while i > 0
            invariant
                i <= self.entries@.len(),
                absent_from(self.entries@, key_view(k@), i as int),
            decreases i,
        {
            if keys_equal(&self.entries[i - 1].0, k) {
                return Some(i - 1);
            }
            i = i - 1;
        }
        None
    }

    pub fn get(&self, k: &Vec<String>) -> (r: Option<&V>)
        ensures
            r is Some == self@.contains_key(key_view(k@)),
            r matches Some(v) ==> *v == self@[key_view(k@)],
    {
        match self.find(k) {
            Some(i) => {
                proof {
                    lemma_last_match(self.entries@, key_view(k@), i as int);
                }
                Some(&self.entries[i].1)
            },
            None => {
                proof {
                    lemma_absent(self.entries@, key_view(k@));
                }
                None
            },
        }
    }

    pub fn contains(&self, k: &Vec<String>) -> (r: bool)
        ensures
            r == self@.contains_key(key_view(k@)),
    {
        self.get(k).is_some()
    }

    pub fn set(&mut self, k: Vec<String>, v: V)
        ensures
            final(self)@ == old(self)@.insert(key_view(k@), v),
    {
        let ghost kv = key_view(k@);
        match self.find(&k) {
            Some(i) => {
                proof {
                    lemma_update(self.entries@, kv, i as int, (k, v));
                }
                self.entries.set(i, (k, v));
            },
            None => {
                self.entries.push((k, v));
                proof {
                    assert(self.entries@.drop_last() =~= old(self).entries@);
                }
            },
        }
    }
}

/// Entry lists whose keys and values agree one by one mean the same store.
proof fn lemma_same_entries<V>(s: Seq<(Vec<String>, V)>, t: Seq<(Vec<String>, V)>)
    requires
        s.len() == t.len(),
        forall|j: int|
            0 <= j < s.len() ==> key_view(#[trigger] s[j].0@) == key_view(t[j].0@) && s[j].1
                == t[j].1,
    ensures
        entries_map(s) == entries_map(t),
    decreases s.len(),
{
    if s.len() > 0 {
        lemma_same_entries(s.drop_last(), t.drop_last());
        assert(key_view(s[s.len() - 1].0@) == key_view(t[t.len() - 1].0@));
    }
}

impl<V: Duplicate> Table<V> {
    /// An independent copy holding the same entries.
    pub fn duplicate(&self) -> (r: Self)
        ensures
            r@ == self@,
    {
        let mut entries: Vec<(Vec<String>, V)> = Vec::new();
        let mut i: usize = 0;
        while i < self.entries.len()
            invariant
                0 <= i <= self.entries@.len(),
                entries@.len() == i,
                forall|j: int|
                    0 <= j < i ==> key_view(#[trigger] entries@[j].0@) == key_view(
                        self.entries@[j].0@,
                    ) && entries@[j].1 == self.entries@[j].1,
            decreases self.entries@.len() - i,
        {
            let k = copy_key(&self.entries[i].0);
            let v = self.entries[i].1.duplicate();
            entries.push((k, v));
            i = i + 1;
        }
        proof {
            lemma_same_entries(entries@, self.entries@);
        }
        Table { entries }
    }
}

} // verus!
