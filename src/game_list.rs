//! The mapping from game identifier to target frame rate.
use vstd::prelude::*;

use crate::Fps;

verus! {

/// The mapping that a sequence of (identifier, frame rate) pairs denotes:
/// a later pair overrides an earlier one with the same identifier.
pub open spec fn entries_map(s: Seq<(String, Fps)>) -> Map<Seq<char>, Fps>
    decreases s.len(),
{
    if s.len() == 0 {
        Map::empty()
    } else {
        entries_map(s.drop_last()).insert(s.last().0@, s.last().1)
    }
}

/// No two pairs carry the same identifier.
pub open spec fn keys_unique(s: Seq<(String, Fps)>) -> bool {
    forall|i: int, j: int|
        0 <= i < s.len() && 0 <= j < s.len() && i != j ==> #[trigger] s[i].0@ != #[trigger] s[j].0@
}

/// An identifier is a key of the mapping exactly when some pair carries it.
pub proof fn lemma_entries_map_dom(s: Seq<(String, Fps)>, k: Seq<char>)
    ensures
        entries_map(s).contains_key(k) <==> exists|i: int| 0 <= i < s.len() && #[trigger] s[i].0@ == k,
    decreases s.len(),
{
    if s.len() > 0 {
        lemma_entries_map_dom(s.drop_last(), k);
        if entries_map(s.drop_last()).contains_key(k) {
            let i = choose|i: int| 0 <= i < s.drop_last().len() && #[trigger] s.drop_last()[i].0@ == k;
            assert(s[i].0@ == k);
        }
        if exists|i: int| 0 <= i < s.len() && #[trigger] s[i].0@ == k {
            let i = choose|i: int| 0 <= i < s.len() && #[trigger] s[i].0@ == k;
            if i < s.len() - 1 {
                assert(s.drop_last()[i].0@ == k);
            }
        }
    }
}

/// With unique identifiers, each pair's frame rate is the mapping's value.
pub proof fn lemma_entries_map_value(s: Seq<(String, Fps)>, i: int)
    requires
        keys_unique(s),
        0 <= i < s.len(),
    ensures
        entries_map(s).contains_key(s[i].0@),
        entries_map(s)[s[i].0@] == s[i].1,
    decreases s.len(),
{
    if i < s.len() - 1 {
        let t = s.drop_last();
        assert(keys_unique(t)) by {
            assert forall|a: int, b: int|
                0 <= a < t.len() && 0 <= b < t.len() && a != b implies #[trigger] t[a].0@
                != #[trigger] t[b].0@ by {
                assert(t[a] == s[a] && t[b] == s[b]);
            }
        }
        assert(t[i] == s[i]);
        lemma_entries_map_value(t, i);
        assert(s[i].0@ != s[s.len() - 1].0@);
    }
}

/// A mapping from game identifier to target frame rate, with unique keys.
pub struct GameList {
    entries: Vec<(String, Fps)>,
}

impl View for GameList {
    type V = Map<Seq<char>, Fps>;

    closed spec fn view(&self) -> Map<Seq<char>, Fps> {
        entries_map(self.entries@)
    }
}

impl GameList {
    /// Keys are unique, so each pair is the mapping's entry for its key.
    pub closed spec fn wf(&self) -> bool {
        keys_unique(self.entries@)
    }

    /// The number of keys in the mapping.
    closed spec fn spec_len(&self) -> nat {
        self.entries@.len()
    }

    proof fn lemma_len(&self)
        requires
            self.wf(),
        ensures
            self@.dom().finite(),
            self@.dom().len() == self.spec_len(),
    {
        lemma_unique_len(self.entries@);
    }

    /// An empty mapping.
    pub fn new() -> (r: GameList)
        ensures
            r.wf(),
            r@ == Map::<Seq<char>, Fps>::empty(),
    {
        GameList { entries: Vec::new() }
    }

    /// Number of configured games.
    pub fn len(&self) -> (r: usize)
        requires
            self.wf(),
        ensures
            self@.dom().finite(),
            r == self@.dom().len(),
    {
        proof {
            self.lemma_len();
        }
        self.entries.len()
    }

    /// Whether no game is configured.
    pub fn is_empty(&self) -> (r: bool)
        requires
            self.wf(),
        ensures
            r <==> self@ == Map::<Seq<char>, Fps>::empty(),
    {
        proof {
            self.lemma_len();
            if self.entries@.len() > 0 {
                lemma_entries_map_dom(self.entries@, self.entries@[0].0@);
            }
            if self.entries@.len() == 0 {
                assert(self@ =~= Map::<Seq<char>, Fps>::empty());
            }
        }
        self.entries.len() == 0
    }

    /// The position of `key` among the pairs, if it is a key.
    fn find(&self, key: &String) -> (r: Option<usize>)
        requires
            self.wf(),
        ensures
            match r {
                Some(i) => i < self.entries@.len() && self.entries@[i as int].0@ == key@,
                None => !self@.contains_key(key@),
            },
    {
        let mut i: usize = 0;
        while i < self.entries.len()
            invariant
                i <= self.entries@.len(),
                forall|j: int| 0 <= j < i ==> #[trigger] self.entries@[j].0@ != key@,
            decreases self.entries@.len() - i,
        {
            if self.entries[i].0 == *key {
                return Some(i);
            }
            i = i + 1;
        }
        proof {
            lemma_entries_map_dom(self.entries@, key@);
        }
        None
    }

    /// Whether `key` is configured.
    pub fn contains_key(&self, key: &String) -> (r: bool)
        requires
            self.wf(),
        ensures
            r == self@.contains_key(key@),
    {
        match self.find(key) {
            Some(i) => {
                proof {
                    lemma_entries_map_value(self.entries@, i as int);
                }
                true
            },
            None => false,
        }
    }

    /// The target frame rate configured for `key`.
    pub fn get(&self, key: &String) -> (r: Option<Fps>)
        requires
            self.wf(),
        ensures
            r == (if self@.contains_key(key@) {
                Some(self@[key@])
            } else {
                None::<Fps>
            }),
    {
        match self.find(key) {
            Some(i) => {
                proof {
                    lemma_entries_map_value(self.entries@, i as int);
                }
                Some(self.entries[i].1)
            },
            None => None,
        }
    }

    /// Sets the frame rate of `key`, adding it if it is not yet configured.
    pub fn insert(&mut self, key: String, fps: Fps)
        requires
            old(self).wf(),
            old(self)@.dom().len() < usize::MAX,
        ensures
            final(self).wf(),
            final(self)@ == old(self)@.insert(key@, fps),
    {
        proof {
            old(self).lemma_len();
        }
        match self.find(&key) {
            Some(i) => {
                let ghost before = self.entries@;
                proof {
                    lemma_entries_map_value(before, i as int);
                }
                self.entries.set(i, (key, fps));
                proof {
                    let after = self.entries@;
                    assert(keys_unique(after));
                    assert forall|k: Seq<char>|
                        #[trigger] entries_map(after).contains_key(k) <==> entries_map(
                            before,
                        ).insert(key@, fps).contains_key(k) by {
                        lemma_entries_map_dom(after, k);
                        lemma_entries_map_dom(before, k);
                        if exists|j: int| 0 <= j < before.len() && #[trigger] before[j].0@ == k {
                            let j = choose|j: int| 0 <= j < before.len() && #[trigger] before[j].0@ == k;
                            if j != i {
                                assert(after[j].0@ == k);
                            } else {
                                assert(after[i as int].0@ == k);
                            }
                        }
                        if exists|j: int| 0 <= j < after.len() && #[trigger] after[j].0@ == k {
                            let j = choose|j: int| 0 <= j < after.len() && #[trigger] after[j].0@ == k;
                            assert(j != i ==> before[j].0@ == k);
                        }
                    }
                    assert forall|k: Seq<char>|
                        #[trigger] entries_map(after).contains_key(k) implies entries_map(after)[k]
                        == entries_map(before).insert(key@, fps)[k] by {
                        lemma_entries_map_dom(after, k);
                        let j = choose|j: int| 0 <= j < after.len() && #[trigger] after[j].0@ == k;
                        lemma_entries_map_value(after, j);
                        if j != i {
                            assert(before[j] == after[j]);
                            lemma_entries_map_value(before, j);
                        }
                    }
                    assert(entries_map(after) =~= entries_map(before).insert(key@, fps));
                }
            },
            None => {
                let ghost before = self.entries@;
                self.entries.push((key, fps));
                proof {
                    let after = self.entries@;
                    assert(after.drop_last() =~= before);
                    assert forall|a: int, b: int|
                        0 <= a < after.len() && 0 <= b < after.len() && a != b implies #[trigger] after[a].0@
                        != #[trigger] after[b].0@ by {
                        if a == before.len() {
                            lemma_entries_map_dom(before, after[b].0@);
                        } else if b == before.len() {
                            lemma_entries_map_dom(before, after[a].0@);
                        }
                    }
                }
            },
        }
    }

    /// Atomically takes on the whole content of `new_entries`.
    pub fn replace_all(&mut self, new_entries: GameList)
        requires
            new_entries.wf(),
        ensures
            final(self).wf(),
            final(self)@ == new_entries@,
    {
        *self = new_entries;
    }

    /// An independent copy of the mapping.
    pub fn snapshot(&self) -> (r: GameList)
        requires
            self.wf(),
        ensures
            r.wf(),
            r@ == self@,
    {
        let mut entries: Vec<(String, Fps)> = Vec::new();
        let mut i: usize = 0;
        while i < self.entries.len()
            invariant
                i <= self.entries@.len(),
                entries@ == self.entries@.take(i as int).map_values(|e: (String, Fps)| e),
            decreases self.entries@.len() - i,
        {
            let (k, v) = (self.entries[i].0.clone(), self.entries[i].1);
            entries.push((k, v));
            proof {
                assert(self.entries@.take(i + 1).map_values(|e: (String, Fps)| e) =~= self.entries@.take(
                    i as int,
                ).map_values(|e: (String, Fps)| e).push(self.entries@[i as int]));
            }
            i = i + 1;
        }
        proof {
            assert(self.entries@.take(self.entries@.len() as int).map_values(|e: (String, Fps)| e)
                =~= self.entries@);
        }
        GameList { entries }
    }

    /// The identifier at position `i` in the list's own order, with its frame rate.
    pub fn entry(&self, i: usize) -> (r: (String, Fps))
        requires
            self.wf(),
            i < self@.dom().len(),
        ensures
            self@.contains_key(r.0@),
            self@[r.0@] == r.1,
    {
        proof {
            self.lemma_len();
            lemma_entries_map_value(self.entries@, i as int);
        }
        (self.entries[i].0.clone(), self.entries[i].1)
    }
}

/// A sequence with unique keys denotes a mapping with as many keys as pairs.
proof fn lemma_unique_len(s: Seq<(String, Fps)>)
    requires
        keys_unique(s),
    ensures
        entries_map(s).dom().finite(),
        entries_map(s).dom().len() == s.len(),
    decreases s.len(),
{
    if s.len() > 0 {
        let t = s.drop_last();
        assert(keys_unique(t)) by {
            assert forall|a: int, b: int|
                0 <= a < t.len() && 0 <= b < t.len() && a != b implies #[trigger] t[a].0@
                != #[trigger] t[b].0@ by {
                assert(t[a] == s[a] && t[b] == s[b]);
            }
        }
        lemma_unique_len(t);
        lemma_entries_map_dom(t, s.last().0@);
        if entries_map(t).contains_key(s.last().0@) {
            let j = choose|j: int| 0 <= j < t.len() && #[trigger] t[j].0@ == s.last().0@;
            assert(s[j].0@ == s[s.len() - 1].0@);
        }
    }
}

} // verus!
