//! A small map from token names to token values, used for topic token replacement.

use vstd::prelude::*;

verus! {

/// The map that a list of `(name, value)` entries denotes: later entries win.
pub open spec fn entries_map(entries: Seq<(String, String)>) -> Map<Seq<char>, Seq<char>>
    decreases entries.len(),
{
    if entries.len() == 0 {
        Map::empty()
    } else {
        entries_map(entries.drop_last()).insert(entries.last().0@, entries.last().1@)
    }
}

/// No entry at an index above `i` carries the name `k`.
pub open spec fn no_later_entry(entries: Seq<(String, String)>, i: int, k: Seq<char>) -> bool {
    forall|j: int| i < j < entries.len() ==> (#[trigger] entries[j]).0@ != k
}

/// A map from token names to token values.
///
/// Topic patterns look tokens up by name (`{name}` in a pattern) in such a map, and
/// `parse_tokens` returns one.
///
/// The entries are held in a `Vec` of pairs rather than a `HashMap<String, String>`: vstd
/// gives a `HashMap` with `String` keys no specification that proofs about its contents can
/// rest on, while a `Vec` is fully specified, so the map that the entries denote (later
/// entries winning) can be stated and proved.
#[derive(Debug, Clone)]
pub struct TokenMap {
    entries: Vec<(String, String)>,
}

impl View for TokenMap {
    type V = Map<Seq<char>, Seq<char>>;

    closed spec fn view(&self) -> Map<Seq<char>, Seq<char>> {
        entries_map(self.entries@)
    }
}

/// The entry at `i` is the last one named `k`: the map holds its value for `k`.
proof fn lemma_last_entry_wins(entries: Seq<(String, String)>, i: int, k: Seq<char>)
    requires
        0 <= i < entries.len(),
        entries[i].0@ == k,
        no_later_entry(entries, i, k),
    ensures
        entries_map(entries).contains_key(k),
        entries_map(entries)[k] == entries[i].1@,
    decreases entries.len(),
{
    if i < entries.len() - 1 {
        let d = entries.drop_last();
        assert(no_later_entry(d, i, k)) by {
            assert forall|j: int| i < j < d.len() implies (#[trigger] d[j]).0@ != k by {
                assert(d[j] == entries[j]);
            }
        }
        lemma_last_entry_wins(d, i, k);
        assert(entries[entries.len() - 1].0@ != k);
    }
}

/// No entry is named `k`: the map has no value for `k`.
proof fn lemma_absent_name(entries: Seq<(String, String)>, k: Seq<char>)
    requires
        no_later_entry(entries, -1, k),
    ensures
        !entries_map(entries).contains_key(k),
    decreases entries.len(),
{
    if entries.len() > 0 {
        let d = entries.drop_last();
        assert(no_later_entry(d, -1, k)) by {
            assert forall|j: int| -1 < j < d.len() implies (#[trigger] d[j]).0@ != k by {
                assert(d[j] == entries[j]);
            }
        }
        lemma_absent_name(d, k);
        assert(entries[entries.len() - 1].0@ != k);
    }
}

/// Overwriting the value of the last entry named `k` updates the map at `k` alone.
proof fn lemma_overwrite_last(entries: Seq<(String, String)>, i: int, e: (String, String))
    requires
        0 <= i < entries.len(),
        entries[i].0@ == e.0@,
        no_later_entry(entries, i, e.0@),
    ensures
        entries_map(entries.update(i, e)) == entries_map(entries).insert(e.0@, e.1@),
    decreases entries.len(),
{
    let u = entries.update(i, e);
    if i == entries.len() - 1 {
        assert(u.drop_last() =~= entries.drop_last());
    } else {
        let d = entries.drop_last();
        assert(no_later_entry(d, i, e.0@)) by {
            assert forall|j: int| i < j < d.len() implies (#[trigger] d[j]).0@ != e.0@ by {
                assert(d[j] == entries[j]);
            }
        }
        lemma_overwrite_last(d, i, e);
        assert(u.drop_last() =~= d.update(i, e));
        let last = entries[entries.len() - 1];
        assert(last.0@ != e.0@);
        assert(u.last() == last);
        assert(entries_map(u) =~= entries_map(entries).insert(e.0@, e.1@));
    }
}

impl TokenMap {
    /// An empty map.
    pub fn new() -> (m: TokenMap)
        ensures
            m@ == Map::<Seq<char>, Seq<char>>::empty(),
    {
        TokenMap { entries: Vec::new() }
    }

    /// Index of the last entry named `key`, if any.
    fn find(&self, key: &String) -> (r: Option<usize>)
        ensures
            match r {
                Some(i) => i < self.entries@.len() && self.entries@[i as int].0@ == key@
                    && no_later_entry(self.entries@, i as int, key@),
                None => no_later_entry(self.entries@, -1, key@),
            },
    {
        let mut i = self.entries.len();
        while i > 0
            invariant
                i <= self.entries@.len(),
                no_later_entry(self.entries@, i as int - 1, key@),
            decreases i,
        {
            i = i - 1;
            if self.entries[i].0 == *key {
                return Some(i);
            }
        }
        None
    }

    /// Sets the value of `key` to `value`, replacing any value it had.
    pub fn insert(&mut self, key: String, value: String)
        ensures
            final(self)@ == old(self)@.insert(key@, value@),
    {
        match self.find(&key) {
            Some(i) => {
                proof {
                    lemma_overwrite_last(self.entries@, i as int, (key, value));
                }
                self.entries.set(i, (key, value));
            },
            None => {
                let ghost before = self.entries@;
                self.entries.push((key, value));
                proof {
                    assert(self.entries@.drop_last() =~= before);
                }
            },
        }
    }

    /// The value of `key`, if the map has one.
    pub fn get(&self, key: &str) -> (r: Option<&String>)
        ensures
            match r {
                Some(v) => self@.contains_key(key@) && v@ == self@[key@],
                None => !self@.contains_key(key@),
            },
    {
        let k = key.to_owned();
        match self.find(&k) {
            Some(i) => {
                proof {
                    lemma_last_entry_wins(self.entries@, i as int, key@);
                }
                Some(&self.entries[i].1)
            },
            None => {
                proof {
                    lemma_absent_name(self.entries@, key@);
                }
                None
            },
        }
    }
}


/// The names in the map are the names of the entries.
proof fn lemma_entry_names(entries: Seq<(String, String)>, k: Seq<char>)
    ensures
        entries_map(entries).contains_key(k) <==> exists|j: int| 0 <= j < entries.len() && (#[trigger] entries[j]).0@ == k,
    decreases entries.len(),
{
    if entries.len() > 0 {
        let d = entries.drop_last();
        lemma_entry_names(d, k);
        if exists|j: int| 0 <= j < d.len() && (#[trigger] d[j]).0@ == k {
            let j = choose|j: int| 0 <= j < d.len() && (#[trigger] d[j]).0@ == k;
            assert(entries[j] == d[j]);
        }
        if exists|j: int| 0 <= j < entries.len() && (#[trigger] entries[j]).0@ == k {
            let j = choose|j: int| 0 <= j < entries.len() && (#[trigger] entries[j]).0@ == k;
            if j < entries.len() - 1 {
                assert(d[j] == entries[j]);
            }
        }
    }
}

impl TokenMap {
    /// The map that the pairs give, later pairs winning over earlier ones with the same name.
    pub fn from_pairs(pairs: Vec<(String, String)>) -> (m: TokenMap)
        ensures
            m@ == entries_map(pairs@),
    {
        let mut m = TokenMap::new();
        let mut i: usize = 0;
        while i < pairs.len()
            invariant
                i <= pairs@.len(),
                m@ == entries_map(pairs@.take(i as int)),
            decreases pairs@.len() - i,
        {
            let k = pairs[i].0.clone();
            let v = pairs[i].1.clone();
            m.insert(k, v);
            proof {
                assert(pairs@.take(i + 1).drop_last() =~= pairs@.take(i as int));
            }
            i = i + 1;
        }
        proof {
            assert(pairs@.take(pairs@.len() as int) =~= pairs@);
        }
        m
    }

    /// The entries of the map, in the order they were first inserted; reading them in order
    /// and letting later ones win gives the map.
    pub fn pairs(&self) -> (r: &Vec<(String, String)>)
        ensures
            entries_map(r@) == self@,
    {
        &self.entries
    }

    /// Every name of `self` has the same value in `other`.
    fn agrees_into(&self, other: &TokenMap) -> (r: bool)
        ensures
            r == forall|k: Seq<char>|
                #![trigger self@.contains_key(k)]
                self@.contains_key(k) ==> other@.contains_key(k) && other@[k] == self@[k],
    {
        let mut i: usize = 0;
        while i < self.entries.len()
            invariant
                i <= self.entries@.len(),
                forall|j: int|
                    0 <= j < i ==> {
                        let k = (#[trigger] self.entries@[j]).0@;
                        other@.contains_key(k) && other@[k] == self@[k]
                    },
            decreases self.entries@.len() - i,
        {
            let key = self.entries[i].0.as_str();
            proof {
                lemma_entry_names(self.entries@, key@);
            }
            let mine = self.get(key);
            let theirs = other.get(key);
            match (mine, theirs) {
                (Some(a), Some(b)) => {
                    if *a != *b {
                        return false;
                    }
                },
                _ => {
                    return false;
                },
            }
            i = i + 1;
        }
        proof {
            assert forall|k: Seq<char>| #![trigger self@.contains_key(k)] self@.contains_key(k) implies other@.contains_key(k)
                && other@[k] == self@[k] by {
                lemma_entry_names(self.entries@, k);
                let j = choose|j: int| 0 <= j < self.entries@.len() && (#[trigger] self.entries@[j]).0@ == k;
                assert(self.entries@[j].0@ == k);
            }
        }
        true
    }

    /// Whether both maps hold the same names with the same values.
    pub fn same_entries(&self, other: &TokenMap) -> (r: bool)
        ensures
            r == (self@ == other@),
    {
        let a = self.agrees_into(other);
        let b = other.agrees_into(self);
        proof {
            if a && b {
                assert(self@ =~= other@);
            }
        }
        a && b
    }
}

impl PartialEq for TokenMap {
    fn eq(&self, other: &TokenMap) -> (r: bool) {
        self.same_entries(other)
    }
}

impl vstd::std_specs::cmp::PartialEqSpecImpl for TokenMap {
    open spec fn obeys_eq_spec() -> bool {
        true
    }

    open spec fn eq_spec(&self, other: &TokenMap) -> bool {
        self@ == other@
    }
}
} // verus!
