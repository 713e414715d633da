//! A small map from text keys to values, kept as a list with one entry per
//! key. The library remembers folder listings, decoded covers and cached
//! artwork in it.
use vstd::prelude::*;

verus! {

/// The map a list of entries stands for: later entries win.
pub open spec fn memo_map<V>(s: Seq<(String, V)>) -> Map<Seq<char>, V>
    decreases s.len(),
{
    if s.len() == 0 {
        Map::empty()
    } else {
        memo_map(s.drop_last()).insert(s.last().0@, s.last().1)
    }
}

/// No key occurs twice.
pub open spec fn unique_keys<V>(s: Seq<(String, V)>) -> bool {
    forall|i: int, j: int| 0 <= i < j < s.len() ==> s[i].0@ != s[j].0@
}

proof fn lemma_memo_lookup<V>(s: Seq<(String, V)>, i: int)
    requires
        unique_keys(s),
        0 <= i < s.len(),
    ensures
        memo_map(s).contains_key(s[i].0@),
        memo_map(s)[s[i].0@] == s[i].1,
    decreases s.len(),
{
    if i < s.len() - 1 {
        lemma_memo_lookup(s.drop_last(), i);
    }
}

proof fn lemma_memo_absent<V>(s: Seq<(String, V)>, k: Seq<char>)
    requires
        forall|i: int| 0 <= i < s.len() ==> s[i].0@ != k,
    ensures
        !memo_map(s).contains_key(k),
    decreases s.len(),
{
    if s.len() > 0 {
        lemma_memo_absent(s.drop_last(), k);
    }
}

proof fn lemma_memo_update<V>(s: Seq<(String, V)>, i: int, key: String, value: V)
    requires
        unique_keys(s),
        0 <= i < s.len(),
        s[i].0@ == key@,
    ensures
        memo_map(s.update(i, (key, value))) =~= memo_map(s).insert(key@, value),
    decreases s.len(),
{
    let t = s.update(i, (key, value));
    if i == s.len() - 1 {
        assert(t.drop_last() =~= s.drop_last());
    } else {
        lemma_memo_update(s.drop_last(), i, key, value);
        assert(t.drop_last() =~= s.drop_last().update(i, (key, value)));
        assert(s.last().0@ != key@);
    }
}

proof fn lemma_memo_remove<V>(s: Seq<(String, V)>, i: int)
    requires
        unique_keys(s),
        0 <= i < s.len(),
    ensures
        memo_map(s.remove(i)) =~= memo_map(s).remove(s[i].0@),
    decreases s.len(),
{
    let k = s[i].0@;
    if i == s.len() - 1 {
        assert(s.remove(i) =~= s.drop_last());
        lemma_memo_absent(s.drop_last(), k);
    } else {
        lemma_memo_remove(s.drop_last(), i);
        assert(s.remove(i).drop_last() =~= s.drop_last().remove(i));
        assert(s.remove(i).last() == s.last());
        assert(s.last().0@ != k);
    }
}

proof fn lemma_memo_len<V>(s: Seq<(String, V)>)
    requires
        unique_keys(s),
    ensures
        memo_map(s).dom().finite(),
        memo_map(s).dom().len() == s.len(),
    decreases s.len(),
{
    if s.len() > 0 {
        lemma_memo_len(s.drop_last());
        assert forall|i: int| 0 <= i < s.drop_last().len() implies s.drop_last()[i].0@ != s.last().0@ by {
            assert(s[i].0@ != s[s.len() - 1].0@);
        }
        lemma_memo_absent(s.drop_last(), s.last().0@);
    }
}

/// Text keys and their values, at most one value per key.
pub struct KeyedMemo<V> {
    entries: Vec<(String, V)>,
}

impl<V> View for KeyedMemo<V> {
    type V = Map<Seq<char>, V>;

    closed spec fn view(&self) -> Map<Seq<char>, V> {
        memo_map(self.entries@)
    }
}

impl<V> KeyedMemo<V> {
    pub closed spec fn wf(&self) -> bool {
        unique_keys(self.entries@)
    }

    /// An empty memo.
    pub fn new() -> (r: Self)
        ensures
            r.wf(),
            r@ == Map::<Seq<char>, V>::empty(),
    {
        KeyedMemo { entries: Vec::new() }
    }

    fn position(&self, key: &str) -> (r: Option<usize>)
        requires
            self.wf(),
        ensures
            match r {
                Some(i) => i < self.entries@.len() && self.entries@[i as int].0@ == key@,
                None => forall|i: int| 0 <= i < self.entries@.len() ==> self.entries@[i].0@ != key@,
            },
    {
        let wanted = key.to_string();
        let mut i: usize = 0;
        while i < self.entries.len()
            invariant
                i <= self.entries@.len(),
                wanted@ == key@,
                forall|j: int| 0 <= j < i ==> self.entries@[j].0@ != key@,
            decreases self.entries.len() - i,
        {
            if self.entries[i].0 == wanted {
                return Some(i);
            }
            i += 1;
        }
        None
    }

    /// The value remembered for `key`.
    pub fn get(&self, key: &str) -> (r: Option<&V>)
        requires
            self.wf(),
        ensures
            match r {
                Some(v) => self@.contains_key(key@) && self@[key@] == *v,
                None => !self@.contains_key(key@),
            },
    {
        match self.position(key) {
            Some(i) => {
                proof {
                    lemma_memo_lookup(self.entries@, i as int);
                }
                Some(&self.entries[i].1)
            },
            None => {
                proof {
                    lemma_memo_absent(self.entries@, key@);
                }
                None
            },
        }
    }

    /// Remembers `value` for `key`, in place of what was remembered before.
    pub fn insert(&mut self, key: String, value: V)
        requires
            old(self).wf(),
        ensures
            final(self).wf(),
            final(self)@ == old(self)@.insert(key@, value),
    {
        match self.position(key.as_str()) {
            Some(i) => {
                proof {
                    lemma_memo_update(self.entries@, i as int, key, value);
                }
                self.entries.set(i, (key, value));
            },
            None => {
                let ghost before = self.entries@;
                self.entries.push((key, value));
                assert(self.entries@.drop_last() =~= before);
            },
        }
    }

    /// Forgets what was remembered for `key`.
    pub fn remove(&mut self, key: &str)
        requires
            old(self).wf(),
        ensures
            final(self).wf(),
            final(self)@ == old(self)@.remove(key@),
    {
        match self.position(key) {
            Some(i) => {
                proof {
                    lemma_memo_remove(self.entries@, i as int);
                }
                self.entries.remove(i);
            },
            None => {
                proof {
                    lemma_memo_absent(self.entries@, key@);
                }
                assert(self@ =~= self@.remove(key@));
            },
        }
    }

    /// Forgets everything.
    pub fn clear(&mut self)
        ensures
            final(self).wf(),
            final(self)@ == Map::<Seq<char>, V>::empty(),
    {
        self.entries.clear();
    }

    /// How many keys have a value.
    pub fn len(&self) -> (r: usize)
        requires
            self.wf(),
        ensures
            self@.dom().finite(),
            r == self@.dom().len(),
    {
        proof {
            lemma_memo_len(self.entries@);
        }
        self.entries.len()
    }
}

/// What is read back for a key is what was last written for it; writing
/// one key leaves every other key as it was; after `clear` nothing is read
/// back.
pub proof fn memo_reads_back_writes<V>(m: Map<Seq<char>, V>, key: Seq<char>, value: V, other: Seq<char>)
    ensures
        m.insert(key, value).contains_key(key),
        m.insert(key, value)[key] == value,
        other != key ==> m.insert(key, value).contains_key(other) == m.contains_key(other),
        other != key ==> m.insert(key, value)[other] == m[other],
        !Map::<Seq<char>, V>::empty().contains_key(other),
{
}

} // verus!
