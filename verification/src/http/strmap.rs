//! A mapping from text to text that keeps its entries in the order in which
//! their keys first came.

use crate::text::same;
use vstd::prelude::*;
use vstd::string::*;

verus! {

/// One entry: a key and its value.
pub type Entry = (Seq<char>, Seq<char>);

/// No key occurs twice.
pub open spec fn keys_distinct(e: Seq<Entry>) -> bool {
    forall|i: int, j: int| 0 <= i < j < e.len() ==> (#[trigger] e[i]).0 != (#[trigger] e[j]).0
}

/// The index of the first entry with key `k`; the length of `e` when there
/// is none.
pub open spec fn index_of(e: Seq<Entry>, k: Seq<char>) -> int
    decreases e.len(),
{
    if e.len() == 0 {
        0
    } else if e[0].0 == k {
        0
    } else {
        1 + index_of(e.skip(1), k)
    }
}

/// The entries after `k` was given the value `v`: in the place of the old
/// value where `k` had one, at the end where it had none.
pub open spec fn put(e: Seq<Entry>, k: Seq<char>, v: Seq<char>) -> Seq<Entry> {
    let i = index_of(e, k);
    if i < e.len() {
        e.update(i, (k, v))
    } else {
        e.push((k, v))
    }
}

/// The mapping that the entries stand for; of two entries with one key the
/// later one counts.
pub open spec fn as_map(e: Seq<Entry>) -> Map<Seq<char>, Seq<char>>
    decreases e.len(),
{
    if e.len() == 0 {
        Map::empty()
    } else {
        as_map(e.drop_last()).insert(e.last().0, e.last().1)
    }
}

/// The index found is that of the first entry with the key.
pub proof fn lemma_index_of(e: Seq<Entry>, k: Seq<char>)
    ensures
        0 <= index_of(e, k) <= e.len(),
        index_of(e, k) < e.len() ==> e[index_of(e, k)].0 == k,
        forall|i: int| 0 <= i < index_of(e, k) ==> (#[trigger] e[i]).0 != k,
    decreases e.len(),
{
    if e.len() > 0 && e[0].0 != k {
        let rest = e.skip(1);
        lemma_index_of(rest, k);
        assert forall|i: int| 0 <= i < index_of(e, k) implies (#[trigger] e[i]).0 != k by {
            if i > 0 {
                assert(e[i] == rest[i - 1]);
            }
        }
    }
}

/// A key is in the mapping exactly where some entry has it.
pub proof fn lemma_as_map_dom(e: Seq<Entry>, k: Seq<char>)
    ensures
        as_map(e).contains_key(k) <==> index_of(e, k) < e.len(),
    decreases e.len(),
{
    lemma_index_of(e, k);
    if e.len() > 0 {
        let front = e.drop_last();
        lemma_as_map_dom(front, k);
        lemma_index_of(front, k);
        if index_of(front, k) < front.len() {
            assert(e[index_of(front, k)] == front[index_of(front, k)]);
        } else if index_of(e, k) < e.len() - 1 {
            assert(front[index_of(e, k)] == e[index_of(e, k)]);
        }
    }
}

/// With distinct keys, the mapping gives each key the value of its entry.
pub proof fn lemma_as_map_value(e: Seq<Entry>, i: int)
    requires
        keys_distinct(e),
        0 <= i < e.len(),
    ensures
        as_map(e).contains_key(e[i].0),
        as_map(e)[e[i].0] == e[i].1,
        index_of(e, e[i].0) == i,
    decreases e.len(),
{
    lemma_index_of(e, e[i].0);
    let front = e.drop_last();
    if i < e.len() - 1 {
        assert(front[i] == e[i]);
        assert(keys_distinct(front)) by {
            assert forall|a: int, b: int| 0 <= a < b < front.len() implies (#[trigger] front[a]).0
                != (#[trigger] front[b]).0 by {
                assert(front[a] == e[a] && front[b] == e[b]);
            }
        }
        lemma_as_map_value(front, i);
        assert(e[i].0 != e[e.len() - 1].0);
    }
}

/// Putting a value keeps the keys distinct and is an insertion into the
/// mapping.
pub proof fn lemma_put(e: Seq<Entry>, k: Seq<char>, v: Seq<char>)
    requires
        keys_distinct(e),
    ensures
        keys_distinct(put(e, k, v)),
        as_map(put(e, k, v)) == as_map(e).insert(k, v),
        put(e, k, v).len() == if as_map(e).contains_key(k) {
            e.len()
        } else {
            e.len() + 1
        },
{
    lemma_index_of(e, k);
    lemma_as_map_dom(e, k);
    let i = index_of(e, k);
    let p = put(e, k, v);
    if i < e.len() {
        assert(keys_distinct(p)) by {
            assert forall|a: int, b: int| 0 <= a < b < p.len() implies (#[trigger] p[a]).0 != (
            #[trigger] p[b]).0 by {
                assert(p[a].0 == e[a].0 && p[b].0 == e[b].0);
            }
        }
        assert forall|q: Seq<char>| #[trigger]
            as_map(p).contains_key(q) == as_map(e).insert(k, v).contains_key(q) by {
            lemma_as_map_dom(p, q);
            lemma_as_map_dom(e, q);
            lemma_index_of(p, q);
            lemma_index_of(e, q);
            if index_of(p, q) < p.len() {
                assert(p[index_of(p, q)].0 == e[index_of(p, q)].0);
            }
            if index_of(e, q) < e.len() {
                assert(p[index_of(e, q)].0 == e[index_of(e, q)].0);
            }
        }
        assert forall|q: Seq<char>| as_map(p).contains_key(q) implies #[trigger] as_map(p)[q]
            == as_map(e).insert(k, v)[q] by {
            lemma_as_map_dom(p, q);
            lemma_index_of(p, q);
            let a = index_of(p, q);
            lemma_as_map_value(p, a);
            if a != i {
                assert(p[a] == e[a]);
                lemma_as_map_value(e, a);
            }
        }
        assert(as_map(p) =~= as_map(e).insert(k, v));
    } else {
        assert(p.drop_last() == e);
        assert(keys_distinct(p)) by {
            assert forall|a: int, b: int| 0 <= a < b < p.len() implies (#[trigger] p[a]).0 != (
            #[trigger] p[b]).0 by {
                if b < e.len() {
                    assert(p[a] == e[a] && p[b] == e[b]);
                } else {
                    assert(p[a] == e[a]);
                }
            }
        }
    }
}

/// A mapping from text to text. Each key has one value; a second value for
/// a key takes the place of the first.
#[derive(Debug)]
pub struct StrMap {
    entries: Vec<(String, String)>,
}

impl View for StrMap {
    type V = Seq<Entry>;

    closed spec fn view(&self) -> Seq<Entry> {
        Seq::new(self.entries@.len(), |i: int| (self.entries@[i].0@, self.entries@[i].1@))
    }
}

impl StrMap {
    #[verifier::type_invariant]
    spec fn inv(self) -> bool {
        keys_distinct(self@)
    }

    /// The mapping itself, without the order of its entries.
    pub open spec fn map(&self) -> Map<Seq<char>, Seq<char>> {
        as_map(self@)
    }

    /// A mapping without entries.
    pub fn new() -> (r: Self)
        ensures
            r@ == Seq::<Entry>::empty(),
    {
        let r = StrMap { entries: Vec::new() };
        assert(r@ =~= Seq::<Entry>::empty());
        r
    }

    /// The number of entries, which is the number of keys.
    pub fn len(&self) -> (n: usize)
        ensures
            n == self@.len(),
            keys_distinct(self@),
    {
        proof {
            use_type_invariant(self);
        }
        self.entries.len()
    }

    /// The key of the `i`-th entry.
    pub fn key(&self, i: usize) -> (k: &str)
        requires
            i < self@.len(),
        ensures
            k@ == self@[i as int].0,
    {
        self.entries[i].0.as_str()
    }

    /// The value of the `i`-th entry.
    pub fn value(&self, i: usize) -> (v: &str)
        requires
            i < self@.len(),
        ensures
            v@ == self@[i as int].1,
    {
        self.entries[i].1.as_str()
    }

    fn position(&self, key: &str) -> (i: usize)
        ensures
            i == index_of(self@, key@),
            i <= self@.len(),
    {
        let mut i: usize = 0;
        while i < self.entries.len()
            invariant
                i <= self.entries.len(),
                forall|a: int| 0 <= a < i ==> (#[trigger] self@[a]).0 != key@,
            decreases self.entries.len() - i,
        {
            if same(self.entries[i].0.as_str(), key) {
                proof {
                    lemma_index_of(self@, key@);
                    assert(self@[i as int].0 == key@);
                }
                return i;
            }
            i += 1;
        }
        proof {
            lemma_index_of(self@, key@);
        }
        i
    }

    /// The value that `key` has, if it has one.
    pub fn get(&self, key: &str) -> (r: Option<&str>)
        ensures
            match r {
                Some(v) => self.map().contains_key(key@) && v@ == self.map()[key@],
                None => !self.map().contains_key(key@),
            },
    {
        let i = self.position(key);
        proof {
            use_type_invariant(self);
            lemma_as_map_dom(self@, key@);
            lemma_index_of(self@, key@);
            if i < self@.len() {
                lemma_as_map_value(self@, i as int);
            }
        }
        if i < self.entries.len() {
            Some(self.entries[i].1.as_str())
        } else {
            None
        }
    }

    /// Gives `key` the value `value`.
    pub fn insert(&mut self, key: String, value: String)
        ensures
            final(self)@ == put(old(self)@, key@, value@),
            final(self).map() == old(self).map().insert(key@, value@),
            keys_distinct(final(self)@),
    {
        let i = self.position(key.as_str());
        proof {
            use_type_invariant(&*self);
            lemma_put(self@, key@, value@);
        }
        let ghost before = self@;
        let mut entries: Vec<(String, String)> = Vec::new();
        std::mem::swap(&mut entries, &mut self.entries);
        if i < entries.len() {
            entries.set(i, (key, value));
        } else {
            entries.push((key, value));
        }
        assert(Seq::new(entries@.len(), |a: int| (entries@[a].0@, entries@[a].1@)) =~= put(
            before,
            key@,
            value@,
        ));
        std::mem::swap(&mut entries, &mut self.entries);
    }
}

} // verus!
