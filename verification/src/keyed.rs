//! A set of texts and a table of counts keyed by texts.

use crate::text;
use vstd::prelude::*;
use vstd::string::*;

verus! {

/// A set of texts, each held once.
#[derive(Clone, Debug, PartialEq, Eq)]
pub struct TextSet {
    pub items: Vec<String>,
}

impl TextSet {
    pub open spec fn view(&self) -> Set<Seq<char>> {
        text::views(self.items@).to_set()
    }

    /// The empty set.
    pub fn new() -> (r: TextSet)
        ensures
            r@ == Set::<Seq<char>>::empty(),
    {
        let r = TextSet { items: Vec::new() };
        assert(r@ =~= Set::<Seq<char>>::empty());
        r
    }

    /// Whether `s` is in the set.
    pub fn contains(&self, s: &str) -> (r: bool)
        ensures
            r == self@.contains(s@),
    {
        let mut i: usize = 0;
        let ghost all = text::views(self.items@);
        while i < self.items.len()
            invariant
                i <= self.items@.len(),
                all == text::views(self.items@),
                forall|j: int| 0 <= j < i ==> all[j] != s@,
            decreases self.items@.len() - i,
        {
            if text::same(self.items[i].as_str(), s) {
                assert(all[i as int] == s@);
                return true;
            }
            i = i + 1;
        }
        false
    }

    /// Puts `s` in the set.
    pub fn insert(&mut self, s: String)
        ensures
            final(self)@ == old(self)@.insert(s@),
    {
        if !self.contains(s.as_str()) {
            let ghost before = text::views(self.items@);
            self.items.push(s);
            proof {
                let after = text::views(self.items@);
                assert(after =~= before.push(s@));
                assert forall|t: Seq<char>| after.to_set().contains(t) <==> #[trigger] before.to_set().insert(s@).contains(t) by {
                    if before.contains(t) {
                        let j = choose|j: int| 0 <= j < before.len() && before[j] == t;
                        assert(after[j] == t);
                    }
                    if t == s@ {
                        assert(after[after.len() - 1] == t);
                    }
                }
                assert(after.to_set() =~= before.to_set().insert(s@));
            }
        } else {
            assert(self@ =~= self@.insert(s@));
        }
    }
}

/// Counts keyed by texts.
#[derive(Clone, Debug, PartialEq, Eq)]
pub struct Counts {
    pub entries: Vec<(String, u32)>,
}

/// The table that a list of entries gives; a later entry of a key counts.
pub open spec fn table(s: Seq<(String, u32)>) -> Map<Seq<char>, u32>
    decreases s.len(),
{
    if s.len() == 0 {
        Map::empty()
    } else {
        table(s.drop_last()).insert(s.last().0@, s.last().1)
    }
}

impl Counts {
    pub open spec fn view(&self) -> Map<Seq<char>, u32> {
        table(self.entries@)
    }

    /// The empty table.
    pub fn new() -> (r: Counts)
        ensures
            r@ == Map::<Seq<char>, u32>::empty(),
    {
        Counts { entries: Vec::new() }
    }

    /// The count of `key`.
    pub fn get(&self, key: &str) -> (r: Option<u32>)
        ensures
            r == (if self@.contains_key(key@) {
                Some(self@[key@])
            } else {
                None::<u32>
            }),
    {
        let ghost all = self.entries@;
        let mut i: usize = self.entries.len();
        assert(all.take(i as int) =~= all);
        while i > 0
            invariant
                i <= self.entries@.len(),
                all == self.entries@,
                table(all).contains_key(key@) <==> table(all.take(i as int)).contains_key(key@),
                table(all).contains_key(key@) ==> table(all)[key@] == table(
                    all.take(i as int),
                )[key@],
            decreases i,
        {
            assert(all.take(i as int).drop_last() =~= all.take(i - 1));
            i = i - 1;
            if text::same(self.entries[i].0.as_str(), key) {
                return Some(self.entries[i].1);
            }
        }
        None
    }

    /// Takes `key` out of the table.
    pub fn remove(&mut self, key: &str)
        ensures
            final(self)@ == old(self)@.remove(key@),
    {
        let mut kept: Vec<(String, u32)> = Vec::new();
        let mut i: usize = 0;
        let ghost all = self.entries@;
        assert(table(kept@) =~= table(all.take(0)).remove(key@));
        while i < self.entries.len()
            invariant
                i <= self.entries@.len(),
                all == self.entries@,
                table(kept@) == table(all.take(i as int)).remove(key@),
            decreases self.entries@.len() - i,
        {
            assert(all.take(i + 1).drop_last() =~= all.take(i as int));
            assert(all.take(i + 1).last() == all[i as int]);
            let entry = &self.entries[i];
            if !text::same(entry.0.as_str(), key) {
                let ghost before = kept@;
                kept.push((entry.0.clone(), entry.1));
                assert(kept@.drop_last() =~= before);
            }
            assert(table(kept@) =~= table(all.take(i + 1)).remove(key@));
            i = i + 1;
        }
        assert(all.take(i as int) =~= all);
        self.entries = kept;
    }

    /// Sets the count of `key`.
    pub fn set(&mut self, key: &str, n: u32)
        ensures
            final(self)@ == old(self)@.insert(key@, n),
    {
        self.remove(key);
        let ghost before = self.entries@;
        self.entries.push((key.to_string(), n));
        assert(self.entries@.drop_last() =~= before);
        assert(self@ =~= old(self)@.insert(key@, n));
    }
}

} // verus!
