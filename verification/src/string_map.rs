//! A string-to-string mapping with last-write-wins inserts, viewed as a
//! `Map<Seq<char>, Seq<char>>` and backed by a vector of pairs whose keys
//! stay pairwise distinct.

use crate::text::str_eq;
use vstd::prelude::*;

verus! {

/// The mapping described by a list of key/value pairs, later pairs
/// overriding earlier ones.
pub open spec fn pairs_map(es: Seq<(Seq<char>, Seq<char>)>) -> Map<Seq<char>, Seq<char>>
    decreases es.len(),
{
    if es.len() == 0 {
        Map::<Seq<char>, Seq<char>>::empty()
    } else {
        pairs_map(es.drop_last()).insert(es.last().0, es.last().1)
    }
}

/// Index of the first pair whose key is `k`, or the length when no pair
/// has it.
pub open spec fn key_index(es: Seq<(Seq<char>, Seq<char>)>, k: Seq<char>) -> int
    decreases es.len(),
{
    if es.len() == 0 {
        0
    } else if es[0].0 == k {
        0
    } else {
        1 + key_index(es.drop_first(), k)
    }
}

/// A pair list whose keys are pairwise distinct.
pub open spec fn distinct_keys(es: Seq<(Seq<char>, Seq<char>)>) -> bool {
    forall|i: int, j: int| 0 <= i < j < es.len() ==> (#[trigger] es[i]).0 != (#[trigger] es[j]).0
}

/// What one insert does to a pair list: it replaces the value in place when
/// the key is already there, and appends a new pair otherwise.
pub open spec fn entries_insert(
    es: Seq<(Seq<char>, Seq<char>)>,
    k: Seq<char>,
    v: Seq<char>,
) -> Seq<(Seq<char>, Seq<char>)> {
    let i = key_index(es, k);
    if i < es.len() {
        es.update(i, (k, v))
    } else {
        es.push((k, v))
    }
}

/// What [`key_index`] returns: a position in bounds, carrying `k` when it
/// is short of the length, with no earlier pair carrying it.
pub proof fn lemma_key_index(es: Seq<(Seq<char>, Seq<char>)>, k: Seq<char>)
    ensures
        0 <= key_index(es, k) <= es.len(),
        key_index(es, k) < es.len() ==> es[key_index(es, k)].0 == k,
        forall|m: int| 0 <= m < key_index(es, k) ==> (#[trigger] es[m]).0 != k,
    decreases es.len(),
{
    if es.len() == 0 {
    } else if es[0].0 == k {
    } else {
        lemma_key_index(es.drop_first(), k);
        assert forall|m: int| 0 <= m < key_index(es, k) implies (#[trigger] es[m]).0 != k by {
            if m > 0 {
                assert(es.drop_first()[m - 1] == es[m]);
            }
        }
        if key_index(es, k) < es.len() {
            assert(es.drop_first()[key_index(es, k) - 1] == es[key_index(es, k)]);
        }
    }
}

/// A key is in the mapping exactly when some pair carries it.
pub proof fn lemma_pairs_map_contains(es: Seq<(Seq<char>, Seq<char>)>, k: Seq<char>)
    ensures
        pairs_map(es).contains_key(k) <==> exists|i: int|
            0 <= i < es.len() && (#[trigger] es[i]).0 == k,
    decreases es.len(),
{
    if es.len() == 0 {
    } else {
        lemma_pairs_map_contains(es.drop_last(), k);
        if es.last().0 == k {
            assert(es[es.len() - 1].0 == k);
        } else {
            if pairs_map(es).contains_key(k) {
                let i = choose|i: int|
                    0 <= i < es.drop_last().len() && (#[trigger] es.drop_last()[i]).0 == k;
                assert(es[i].0 == k);
            }
            if exists|i: int| 0 <= i < es.len() && (#[trigger] es[i]).0 == k {
                let i = choose|i: int| 0 <= i < es.len() && (#[trigger] es[i]).0 == k;
                assert(es.drop_last()[i] == es[i]);
            }
        }
    }
}

/// The pair that ends a run of distinct keys fixes the looked-up value.
pub proof fn lemma_pairs_map_value(es: Seq<(Seq<char>, Seq<char>)>, i: int)
    requires
        distinct_keys(es),
        0 <= i < es.len(),
    ensures
        pairs_map(es).contains_key(es[i].0),
        pairs_map(es)[es[i].0] == es[i].1,
    decreases es.len(),
{
    if i == es.len() - 1 {
    } else {
        assert(distinct_keys(es.drop_last())) by {
            assert(forall|m: int|
                0 <= m < es.len() - 1 ==> #[trigger] es.drop_last()[m] == es[m]);
        }
        assert(es.drop_last()[i] == es[i]);
        lemma_pairs_map_value(es.drop_last(), i);
        assert(es.last().0 != es[i].0) by {
            assert(es[es.len() - 1].0 == es.last().0);
        }
    }
}

/// Inserting into a distinct-keyed pair list matches `Map::insert` on the
/// mapping it describes, and keeps the keys distinct.
pub proof fn lemma_entries_insert(es: Seq<(Seq<char>, Seq<char>)>, k: Seq<char>, v: Seq<char>)
    requires
        distinct_keys(es),
    ensures
        distinct_keys(entries_insert(es, k, v)),
        pairs_map(entries_insert(es, k, v)) =~= pairs_map(es).insert(k, v),
        entries_insert(es, k, v).len() == if key_index(es, k) < es.len() {
            es.len()
        } else {
            es.len() + 1
        },
    decreases es.len(),
{
    lemma_key_index(es, k);
    let ki = key_index(es, k);
    if ki == es.len() {
        // the key is new: the pair is appended
        let es2 = es.push((k, v));
        assert(es2.drop_last() =~= es);
        assert forall|i: int, j: int| 0 <= i < j < es2.len() implies (#[trigger] es2[i]).0 != (
        #[trigger] es2[j]).0 by {
            if j == es2.len() - 1 {
                assert(es[i].0 != k);
            }
        }
    } else {
        // the key is present at ki: the value is replaced in place
        let es2 = es.update(ki, (k, v));
        assert(es[ki].0 == k);
        assert forall|i: int, j: int| 0 <= i < j < es2.len() implies (#[trigger] es2[i]).0 != (
        #[trigger] es2[j]).0 by {
            assert(es2[i].0 == es[i].0);
            assert(es2[j].0 == es[j].0);
        }
        lemma_update_map(es, ki, v);
    }
}

/// Replacing the value at a distinct key's slot is `Map::insert` of that key.
proof fn lemma_update_map(es: Seq<(Seq<char>, Seq<char>)>, i: int, v: Seq<char>)
    requires
        distinct_keys(es),
        0 <= i < es.len(),
    ensures
        pairs_map(es.update(i, (es[i].0, v))) =~= pairs_map(es).insert(es[i].0, v),
    decreases es.len(),
{
    let k = es[i].0;
    let es2 = es.update(i, (k, v));
    if i == es.len() - 1 {
        assert(es2.drop_last() =~= es.drop_last());
        assert(es2.last() == (k, v));
    } else {
        assert(distinct_keys(es.drop_last())) by {
            assert(forall|m: int|
                0 <= m < es.len() - 1 ==> #[trigger] es.drop_last()[m] == es[m]);
        }
        assert(es.drop_last()[i] == es[i]);
        lemma_update_map(es.drop_last(), i, v);
        assert(es2.drop_last() =~= es.drop_last().update(i, (k, v)));
        assert(es2.last() == es.last());
        assert(es.last().0 != k) by {
            assert(es[es.len() - 1].0 == es.last().0);
        }
    }
}

/// Appending one pair to a pair list inserts its key into the mapping.
pub proof fn lemma_pairs_map_push(es: Seq<(Seq<char>, Seq<char>)>, k: Seq<char>, v: Seq<char>)
    ensures
        pairs_map(es.push((k, v))) == pairs_map(es).insert(k, v),
{
    assert(es.push((k, v)).drop_last() =~= es);
    assert(es.push((k, v)).last() == (k, v));
}

/// A string-keyed, string-valued mapping in which a later insert of an
/// existing key overwrites the earlier value.
#[derive(Clone, Debug, PartialEq)]
pub struct StringMap {
    pairs: Vec<(String, String)>,
}

impl View for StringMap {
    type V = Map<Seq<char>, Seq<char>>;

    open spec fn view(&self) -> Map<Seq<char>, Seq<char>> {
        pairs_map(self.entries())
    }
}

impl StringMap {
    /// The stored key/value pairs, in storage order.
    pub closed spec fn entries(&self) -> Seq<(Seq<char>, Seq<char>)> {
        self.pairs@.map_values(|p: (String, String)| (p.0@, p.1@))
    }

    /// Every key is stored at most once.
    pub open spec fn wf(&self) -> bool {
        distinct_keys(self.entries())
    }

    /// An empty mapping.
    pub fn new() -> (r: StringMap)
        ensures
            r.wf(),
            r.entries() == Seq::<(Seq<char>, Seq<char>)>::empty(),
            r@ == Map::<Seq<char>, Seq<char>>::empty(),
    {
        let r = StringMap { pairs: Vec::new() };
        proof {
            assert(r.entries() =~= Seq::<(Seq<char>, Seq<char>)>::empty());
            assert(r@ =~= Map::<Seq<char>, Seq<char>>::empty());
        }
        r
    }

    /// How many pairs are stored.
    pub fn len(&self) -> (n: usize)
        ensures
            n == self.entries().len(),
    {
        self.pairs.len()
    }

    /// The key of the `i`-th stored pair.
    pub fn key_at(&self, i: usize) -> (k: &String)
        requires
            i < self.entries().len(),
        ensures
            k@ == self.entries()[i as int].0,
    {
        &self.pairs[i].0
    }

    /// The value of the `i`-th stored pair.
    pub fn value_at(&self, i: usize) -> (v: &String)
        requires
            i < self.entries().len(),
        ensures
            v@ == self.entries()[i as int].1,
    {
        &self.pairs[i].1
    }

    /// Inserts `value` under `key`; an earlier value under the same key is
    /// overwritten in place.
    pub fn insert(&mut self, key: String, value: String)
        requires
            old(self).wf(),
        ensures
            final(self).wf(),
            final(self).entries() == entries_insert(old(self).entries(), key@, value@),
            final(self)@ == old(self)@.insert(key@, value@),
    {
        proof {
            lemma_key_index(self.entries(), key@);
            lemma_entries_insert(self.entries(), key@, value@);
        }
        let ghost es0 = self.entries();
        let n = self.pairs.len();
        let mut i: usize = 0;
        while i < n
            invariant
                n == self.pairs@.len(),
                0 <= i <= n,
                es0 == self.entries(),
                es0 == old(self).entries(),
                distinct_keys(es0),
                n == es0.len(),
                forall|m: int| 0 <= m < i ==> (#[trigger] es0[m]).0 != key@,
            decreases n - i,
        {
            if str_eq(self.pairs[i].0.as_str(), key.as_str()) {
                proof {
                    assert(es0[i as int] == (self.pairs@[i as int].0@, self.pairs@[i as int].1@));
                    assert(key_index(es0, key@) == i) by {
                        lemma_key_index(es0, key@);
                    }
                }
                self.pairs[i] = (key, value);
                proof {
                    lemma_entries_insert(es0, key@, value@);
                    assert(self.entries() =~= es0.update(i as int, (key@, value@)));
                }
                return ;
            }
            proof {
                assert(es0[i as int] == (self.pairs@[i as int].0@, self.pairs@[i as int].1@));
            }
            i += 1;
        }
        proof {
            assert(key_index(es0, key@) == es0.len()) by {
                lemma_key_index(es0, key@);
                if key_index(es0, key@) < es0.len() {
                    assert(es0[key_index(es0, key@)].0 == key@);
                }
            }
        }
        self.pairs.push((key, value));
        proof {
            assert(self.entries() =~= es0.push((key@, value@)));
        }
    }

    /// Looks `key` up in the mapping.
    pub fn get(&self, key: &str) -> (r: Option<&String>)
        requires
            self.wf(),
        ensures
            match r {
                Some(v) => self@.contains_key(key@) && v@ == self@[key@],
                None => !self@.contains_key(key@),
            },
    {
        let ghost es = self.entries();
        let n = self.pairs.len();
        proof {
            assert(n == es.len());
        }
        let mut i: usize = 0;
        while i < n
            invariant
                n == self.pairs@.len(),
                0 <= i <= n,
                es == self.entries(),
                n == es.len(),
                distinct_keys(es),
                forall|m: int| 0 <= m < i ==> (#[trigger] es[m]).0 != key@,
            decreases n - i,
        {
            proof {
                assert(es[i as int] == (self.pairs@[i as int].0@, self.pairs@[i as int].1@));
            }
            if str_eq(self.pairs[i].0.as_str(), key) {
                proof {
                    lemma_pairs_map_value(es, i as int);
                }
                return Some(&self.pairs[i].1);
            }
            i += 1;
        }
        proof {
            lemma_pairs_map_contains(es, key@);
        }
        None
    }
}

} // verus!
