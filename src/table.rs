//! A small string-to-string table whose model is a `Map`: a later insertion
//! of a key hides every earlier one.
use vstd::prelude::*;

verus! {

/// The map that a sequence of insertions builds, later entries winning.
pub open spec fn map_of(s: Seq<(Seq<char>, Seq<char>)>) -> Map<Seq<char>, Seq<char>>
    decreases s.len(),
{
    if s.len() == 0 {
        Map::empty()
    } else {
        map_of(s.drop_last()).insert(s.last().0, s.last().1)
    }
}

/// The entries with `k` left out, in their order.
pub open spec fn without(s: Seq<(Seq<char>, Seq<char>)>, k: Seq<char>) -> Seq<(Seq<char>, Seq<char>)> {
    s.filter(keeps(k))
}

pub open spec fn keeps(k: Seq<char>) -> spec_fn((Seq<char>, Seq<char>)) -> bool {
    |p: (Seq<char>, Seq<char>)| p.0 != k
}

pub open spec fn entry_view(p: (String, String)) -> (Seq<char>, Seq<char>) {
    (p.0@, p.1@)
}

proof fn lemma_map_of_last_match(s: Seq<(Seq<char>, Seq<char>)>, k: Seq<char>, i: int)
    requires
        0 <= i < s.len(),
        s[i].0 == k,
        forall|j: int| i < j < s.len() ==> s[j].0 != k,
    ensures
        map_of(s).contains_key(k),
        map_of(s)[k] == s[i].1,
    decreases s.len(),
{
    if i < s.len() - 1 {
        lemma_map_of_last_match(s.drop_last(), k, i);
    }
}

proof fn lemma_map_of_absent(s: Seq<(Seq<char>, Seq<char>)>, k: Seq<char>)
    requires
        forall|j: int| 0 <= j < s.len() ==> s[j].0 != k,
    ensures
        !map_of(s).contains_key(k),
    decreases s.len(),
{
    if s.len() > 0 {
        lemma_map_of_absent(s.drop_last(), k);
    }
}

proof fn lemma_map_of_without(s: Seq<(Seq<char>, Seq<char>)>, k: Seq<char>)
    ensures
        map_of(without(s, k)) == map_of(s).remove(k),
    decreases s.len(),
{
    if s.len() == 0 {
        assert(without(s, k) =~= Seq::empty());
        assert(map_of(s).remove(k) =~= Map::empty());
    } else {
        let f = keeps(k);
        lemma_map_of_without(s.drop_last(), k);
        assert(s.drop_last().push(s.last()) =~= s);
        s.drop_last().lemma_filter_push(s.last(), f);
        if s.last().0 != k {
            assert(without(s, k).drop_last() =~= without(s.drop_last(), k));
            assert(map_of(without(s, k)) =~= map_of(s).remove(k));
        } else {
            assert(without(s, k) =~= without(s.drop_last(), k));
            assert(map_of(without(s, k)) =~= map_of(s).remove(k));
        }
    }
}

/// A table from names to values, kept as the sequence of its insertions.
pub struct Table {
    entries: Vec<(String, String)>,
}

impl View for Table {
    type V = Map<Seq<char>, Seq<char>>;

    closed spec fn view(&self) -> Map<Seq<char>, Seq<char>> {
        map_of(self.entries@.map_values(|p: (String, String)| entry_view(p)))
    }
}

impl Table {
    pub fn new() -> (r: Table)
        ensures
            r@ == Map::<Seq<char>, Seq<char>>::empty(),
    {
        let r = Table { entries: Vec::new() };
        assert(r.entries@.map_values(|p: (String, String)| entry_view(p)) =~= Seq::empty());
        r
    }

    /// Binds `k` to `v`, replacing what `k` was bound to.
    pub fn insert(&mut self, k: String, v: String)
        ensures
            final(self)@ == old(self)@.insert(k@, v@),
    {
        let ghost before = self.entries@;
        self.entries.push((k, v));
        assert(self.entries@.map_values(|p: (String, String)| entry_view(p)).drop_last()
            =~= before.map_values(|p: (String, String)| entry_view(p)));
    }

    /// The value bound to `k`.
    pub fn get(&self, k: &str) -> (r: Option<&str>)
        ensures
            match r {
                Some(v) => self@.contains_key(k@) && self@[k@] == v@,
                None => !self@.contains_key(k@),
            },
    {
        let ghost s = self.entries@.map_values(|p: (String, String)| entry_view(p));
        let key = k.to_owned();
        let mut i: usize = self.entries.len();
        while i > 0
            invariant
                i <= self.entries.len(),
                s == self.entries@.map_values(|p: (String, String)| entry_view(p)),
                key@ == k@,
                forall|j: int| i <= j < s.len() ==> s[j].0 != k@,
            decreases i,
        {
            i = i - 1;
            if self.entries[i].0 == key {
                proof {
                    lemma_map_of_last_match(s, k@, i as int);
                }
                return Some(self.entries[i].1.as_str());
            }
        }
        proof {
            lemma_map_of_absent(s, k@);
        }
        None
    }

    /// Unbinds `k`, handing back what it was bound to.
    pub fn remove(&mut self, k: &str) -> (r: Option<String>)
        ensures
            final(self)@ == old(self)@.remove(k@),
            match r {
                Some(v) => old(self)@.contains_key(k@) && old(self)@[k@] == v@,
                None => !old(self)@.contains_key(k@),
            },
    {
        let found = match self.get(k) {
            Some(v) => Some(v.to_owned()),
            None => None,
        };
        let ghost s = self.entries@.map_values(|p: (String, String)| entry_view(p));
        let key = k.to_owned();
        let mut kept: Vec<(String, String)> = Vec::new();
        let mut i: usize = 0;
        while i < self.entries.len()
            invariant
                i <= self.entries.len(),
                s == self.entries@.map_values(|p: (String, String)| entry_view(p)),
                key@ == k@,
                kept@.map_values(|p: (String, String)| entry_view(p)) == without(s.take(i as int), k@),
            decreases self.entries.len() - i,
        {
            let ghost f = keeps(k@);
            proof {
                assert(s.take(i + 1) =~= s.take(i as int).push(s[i as int]));
                s.take(i as int).lemma_filter_push(s[i as int], f);
            }
            if self.entries[i].0 != key {
                let e = (self.entries[i].0.clone(), self.entries[i].1.clone());
                let ghost kv = kept@.map_values(|p: (String, String)| entry_view(p));
                kept.push(e);
                assert(kept@.map_values(|p: (String, String)| entry_view(p)) =~= kv.push(s[i as int]));
            }
            i = i + 1;
        }
        proof {
            assert(s.take(s.len() as int) =~= s);
            lemma_map_of_without(s, k@);
        }
        self.entries = kept;
        found
    }
}

} // verus!
