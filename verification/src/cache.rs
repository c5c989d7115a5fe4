//! A cache that is filled once for each key and never changed after.

use crate::wire::bytes_eq;
use vstd::prelude::*;
use vstd::slice::slice_to_vec;

verus! {

/// The map that entries stand for: each key goes to the value of the last
/// entry of that key.
pub open spec fn entries_view<V>(entries: Seq<(Vec<u8>, V)>) -> Map<Seq<u8>, V>
    decreases entries.len(),
{
    if entries.len() == 0 {
        Map::empty()
    } else {
        entries_view(entries.drop_last()).insert(entries.last().0@, entries.last().1)
    }
}

proof fn lemma_entries_view_absent<V>(s: Seq<(Vec<u8>, V)>, key: Seq<u8>)
    requires
        forall|j: int| 0 <= j < s.len() ==> (#[trigger] s[j]).0@ != key,
    ensures
        !entries_view(s).contains_key(key),
    decreases s.len(),
{
    if s.len() > 0 {
        let front = s.drop_last();
        assert forall|j: int| 0 <= j < front.len() implies (#[trigger] front[j]).0@ != key by {
            assert(front[j] == s[j]);
        }
        lemma_entries_view_absent(front, key);
        assert(s[s.len() - 1].0@ != key);
    }
}

proof fn lemma_entries_view_last<V>(s: Seq<(Vec<u8>, V)>, key: Seq<u8>, j: int)
    requires
        0 <= j < s.len(),
        s[j].0@ == key,
        forall|k: int| j < k < s.len() ==> (#[trigger] s[k]).0@ != key,
    ensures
        entries_view(s).contains_key(key),
        entries_view(s)[key] == s[j].1,
    decreases s.len(),
{
    if j < s.len() - 1 {
        let front = s.drop_last();
        assert forall|k: int| j < k < front.len() implies (#[trigger] front[k]).0@ != key by {
            assert(front[k] == s[k]);
        }
        assert(front[j] == s[j]);
        lemma_entries_view_last(front, key, j);
        assert(s[s.len() - 1].0@ != key);
    }
}

/// A map from names to values in which a name, once it has a value, keeps
/// it: nothing is replaced and nothing is taken out.
#[derive(Debug)]
pub struct OnceMap<V> {
    entries: Vec<(Vec<u8>, V)>,
}

impl<V> View for OnceMap<V> {
    type V = Map<Seq<u8>, V>;

    closed spec fn view(&self) -> Map<Seq<u8>, V> {
        entries_view(self.entries@)
    }
}

impl<V> OnceMap<V> {
    /// The empty cache.
    pub fn new() -> (r: OnceMap<V>)
        ensures
            r@ == Map::<Seq<u8>, V>::empty(),
    {
        OnceMap { entries: Vec::new() }
    }

    /// The value that `key` has, if it has one.
    pub fn get(&self, key: &[u8]) -> (r: Option<&V>)
        ensures
            match r {
                Some(v) => self@.contains_key(key@) && self@[key@] == *v,
                None => !self@.contains_key(key@),
            },
    {
        let mut i: usize = self.entries.len();
        while i > 0
            invariant
                i <= self.entries@.len(),
                forall|k: int|
                    i <= k < self.entries@.len() ==> (#[trigger] self.entries@[k]).0@ != key@,
            decreases i,
        {
            i -= 1;
            if bytes_eq(self.entries[i].0.as_slice(), key) {
                proof {
                    lemma_entries_view_last(self.entries@, key@, i as int);
                }
                return Some(&self.entries[i].1);
            }
        }
        proof {
            lemma_entries_view_absent(self.entries@, key@);
        }
        None
    }

    /// Gives `key` the value `value` if it has none, and tells whether it
    /// did. A key that has a value keeps it, and so does every other key.
    pub fn set(&mut self, key: &[u8], value: V) -> (r: bool)
        ensures
            r == !old(self)@.contains_key(key@),
            r ==> final(self)@ == old(self)@.insert(key@, value),
            !r ==> final(self)@ == old(self)@,
            forall|k: Seq<u8>| #[trigger]
                old(self)@.contains_key(k) ==> final(self)@.contains_key(k) && final(self)@[k]
                    == old(self)@[k],
    {
        if self.get(key).is_some() {
            return false;
        }
        let ghost before = self.entries@;
        let name = slice_to_vec(key);
        self.entries.push((name, value));
        proof {
            assert(self.entries@.drop_last() =~= before);
        }
        true
    }
}

} // verus!
