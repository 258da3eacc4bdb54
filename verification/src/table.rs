//! A table that keeps a value for each of a few keys.

use vstd::prelude::*;
use vstd::string::*;

verus! {

/// What a table can be keyed by.
pub trait Key: View + Sized {
    fn same(&self, other: &Self) -> (r: bool)
        ensures
            r == (self@ == other@),
    ;
}

impl Key for String {
    fn same(&self, other: &String) -> (r: bool) {
        *self == *other
    }
}

impl Key for (String, String) {
    fn same(&self, other: &(String, String)) -> (r: bool) {
        self.0 == other.0 && self.1 == other.1
    }
}

impl Key for (String, String, String) {
    fn same(&self, other: &(String, String, String)) -> (r: bool) {
        self.0 == other.0 && self.1 == other.1 && self.2 == other.2
    }
}

/// Values by key. Of two entries for a key, the later one counts.
#[derive(Debug)]
pub struct Table<K, V> {
    pub entries: Vec<(K, V)>,
}

/// What entries hold.
pub open spec fn contents<K: View, V>(s: Seq<(K, V)>) -> Map<K::V, V>
    decreases s.len(),
{
    if s.len() == 0 {
        Map::empty()
    } else {
        contents(s.drop_last()).insert(s.last().0@, s.last().1)
    }
}

impl<K: View, V> View for Table<K, V> {
    type V = Map<K::V, V>;

    open spec fn view(&self) -> Map<K::V, V> {
        contents(self.entries@)
    }
}

/// An entry whose key is set anew can go.
proof fn lemma_without<K: View, V>(s: Seq<(K, V)>, i: int, v: V)
    requires
        0 <= i < s.len(),
    ensures
        contents(s.remove(i)).insert(s[i].0@, v) == contents(s).insert(s[i].0@, v),
    decreases s.len(),
{
    let k = s[i].0@;
    let rest = s.drop_last();
    if i == s.len() - 1 {
        assert(s.remove(i) =~= rest);
        assert(contents(rest).insert(k, v) =~= contents(s).insert(k, v));
    } else {
        lemma_without(rest, i, v);
        assert(s.remove(i).drop_last() =~= rest.remove(i));
        assert(s.remove(i).last() == s.last());
        let last = s.last();
        let a = contents(rest.remove(i));
        let b = contents(rest);
        assert(a.insert(k, v) == b.insert(k, v));
        assert forall|x: K::V| a.insert(last.0@, last.1).insert(k, v).dom().contains(x)
            == b.insert(last.0@, last.1).insert(k, v).dom().contains(x) by {
            assert(a.insert(k, v).dom().contains(x) == b.insert(k, v).dom().contains(x));
        }
        assert forall|x: K::V| #[trigger]
            a.insert(last.0@, last.1).insert(k, v).dom().contains(x) implies a.insert(
            last.0@,
            last.1,
        ).insert(k, v)[x] == b.insert(last.0@, last.1).insert(k, v)[x] by {
            if x != k && x != last.0@ {
                assert(a.insert(k, v)[x] == b.insert(k, v)[x]);
            }
        }
        assert(a.insert(last.0@, last.1).insert(k, v) =~= b.insert(last.0@, last.1).insert(k, v));
    }
}

impl<K: Key, V> Table<K, V> {
    pub fn new() -> (r: Table<K, V>)
        ensures
            r@ == Map::<K::V, V>::empty(),
    {
        Table { entries: Vec::new() }
    }

    /// The place of the entry that counts for a key.
    fn find(&self, key: &K) -> (r: Option<usize>)
        ensures
            (match r {
                Some(i) => {
                    &&& i < self.entries@.len()
                    &&& self.entries@[i as int].0@ == key@
                    &&& self@.dom().contains(key@)
                    &&& self@[key@] == self.entries@[i as int].1
                },
                None => !self@.dom().contains(key@),
            }),
    {
        let ghost s = self.entries@;
        let mut i: usize = self.entries.len();
        assert(s.take(s.len() as int) =~= s);
        while i > 0
            invariant
                i <= s.len(),
                s == self.entries@,
                contents(s).dom().contains(key@) == contents(s.take(i as int)).dom().contains(
                    key@,
                ),
                contents(s).dom().contains(key@) ==> contents(s)[key@] == contents(
                    s.take(i as int),
                )[key@],
            decreases i,
        {
            proof {
                assert(s.take(i as int).drop_last() =~= s.take(i - 1));
                assert(s.take(i as int).last() == s[i - 1]);
            }
            if self.entries[i - 1].0.same(key) {
                return Some(i - 1);
            }
            i = i - 1;
        }
        None
    }

    pub fn get(&self, key: &K) -> (r: Option<&V>)
        ensures
            r == if self@.dom().contains(key@) {
                Some(&self@[key@])
            } else {
                None
            },
    {
        match self.find(key) {
            Some(i) => Some(&self.entries[i].1),
            None => None,
        }
    }

    pub fn contains_key(&self, key: &K) -> (r: bool)
        ensures
            r == self@.dom().contains(key@),
    {
        match self.find(key) {
            Some(_) => true,
            None => false,
        }
    }

    pub fn insert(&mut self, key: K, value: V)
        ensures
            final(self)@ == old(self)@.insert(key@, value),
    {
        let ghost s = self.entries@;
        match self.find(&key) {
            Some(i) => {
                proof {
                    lemma_without(s, i as int, value);
                }
                let _ = self.entries.remove(i);
            },
            None => {},
        }
        let ghost before = self.entries@;
        self.entries.push((key, value));
        assert(self.entries@.drop_last() =~= before);
    }
}

} // verus!
