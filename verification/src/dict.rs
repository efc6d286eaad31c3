//! A small association table with string-like keys.
//!
//! Every store of the engine (layers, indexes, mods, instances, manage
//! entries) is a finite map built once at startup and then only read, so a
//! vector of key/value pairs with distinct keys is enough.  Its
//! mathematical view is a `Map` from the key's view to the value's view.

use vstd::prelude::*;

verus! {

/// Keys of a [`Dict`]: equality of values must coincide with equality of
/// their mathematical views.
pub trait DictKey: View + Sized {
    fn key_eq(&self, other: &Self) -> (r: bool)
        ensures
            r == (self@ == other@),
    ;
}

impl DictKey for String {
    fn key_eq(&self, other: &Self) -> (r: bool) {
        <String as PartialEq>::eq(self, other)
    }
}

impl DictKey for (String, String) {
    fn key_eq(&self, other: &Self) -> (r: bool) {
        <String as PartialEq>::eq(&self.0, &other.0) && <String as PartialEq>::eq(
            &self.1,
            &other.1,
        )
    }
}

/// The map described by a sequence of key/value pairs; a later pair with
/// the same key overrides an earlier one.
pub open spec fn map_of<K: View, V: View>(pairs: Seq<(K, V)>) -> Map<K::V, V::V>
    decreases pairs.len(),
{
    if pairs.len() == 0 {
        Map::empty()
    } else {
        map_of(pairs.drop_last()).insert(pairs.last().0@, pairs.last().1@)
    }
}

/// No two pairs share a key view.
pub open spec fn distinct_keys<K: View, V>(pairs: Seq<(K, V)>) -> bool {
    forall|i: int, j: int|
        0 <= i < j < pairs.len() ==> (#[trigger] pairs[i]).0@ != (#[trigger] pairs[j]).0@
}

/// An association table whose pairs always carry distinct keys.
pub struct Dict<K: View, V: View> {
    pairs: Vec<(K, V)>,
}

impl<K: View, V: View> View for Dict<K, V> {
    type V = Map<K::V, V::V>;

    closed spec fn view(&self) -> Map<K::V, V::V> {
        map_of(self.pairs@)
    }
}

pub proof fn lemma_map_of_take_step<K: View, V: View>(pairs: Seq<(K, V)>, i: int)
    requires
        0 <= i < pairs.len(),
    ensures
        map_of(pairs.take(i + 1)) == map_of(pairs.take(i)).insert(pairs[i].0@, pairs[i].1@),
{
    assert(pairs.take(i + 1).drop_last() =~= pairs.take(i));
    assert(pairs.take(i + 1).last() == pairs[i]);
}

pub proof fn lemma_map_of_contains<K: View, V: View>(pairs: Seq<(K, V)>, i: int)
    requires
        0 <= i < pairs.len(),
        distinct_keys(pairs),
    ensures
        map_of(pairs).contains_key(pairs[i].0@),
        map_of(pairs)[pairs[i].0@] == pairs[i].1@,
    decreases pairs.len(),
{
    if i < pairs.len() - 1 {
        assert(pairs.drop_last()[i] == pairs[i]);
        lemma_map_of_contains(pairs.drop_last(), i);
    }
}

pub proof fn lemma_map_of_absent<K: View, V: View>(pairs: Seq<(K, V)>, k: K::V)
    requires
        forall|i: int| 0 <= i < pairs.len() ==> (#[trigger] pairs[i]).0@ != k,
    ensures
        !map_of(pairs).contains_key(k),
    decreases pairs.len(),
{
    if pairs.len() > 0 {
        assert(forall|i: int|
            0 <= i < pairs.drop_last().len() ==> (#[trigger] pairs.drop_last()[i]) == pairs[i]);
        lemma_map_of_absent(pairs.drop_last(), k);
    }
}

pub proof fn lemma_map_of_len<K: View, V: View>(pairs: Seq<(K, V)>)
    requires
        distinct_keys(pairs),
    ensures
        map_of(pairs).dom().finite(),
        map_of(pairs).dom().len() == pairs.len(),
    decreases pairs.len(),
{
    if pairs.len() == 0 {
        assert(map_of(pairs).dom() =~= Set::<K::V>::empty());
    } else {
        let rest = pairs.drop_last();
        assert(forall|i: int| 0 <= i < rest.len() ==> (#[trigger] rest[i]) == pairs[i]);
        lemma_map_of_len(rest);
        lemma_map_of_absent(rest, pairs.last().0@);
        assert(map_of(pairs).dom() =~= map_of(rest).dom().insert(pairs.last().0@));
    }
}

pub proof fn lemma_map_of_index_of<K: View, V: View>(pairs: Seq<(K, V)>, k: K::V)
    requires
        map_of(pairs).contains_key(k),
    ensures
        exists|i: int| 0 <= i < pairs.len() && (#[trigger] pairs[i]).0@ == k,
    decreases pairs.len(),
{
    if pairs.len() > 0 && pairs.last().0@ != k {
        lemma_map_of_index_of(pairs.drop_last(), k);
        let i = choose|i: int|
            0 <= i < pairs.drop_last().len() && (#[trigger] pairs.drop_last()[i]).0@ == k;
        assert(pairs[i].0@ == k);
    }
}

proof fn lemma_map_of_update<K: View, V: View>(pairs: Seq<(K, V)>, i: int, p: (K, V))
    requires
        distinct_keys(pairs),
        0 <= i < pairs.len(),
        p.0@ == pairs[i].0@,
    ensures
        map_of(pairs.update(i, p)) == map_of(pairs).insert(p.0@, p.1@),
    decreases pairs.len(),
{
    let upd = pairs.update(i, p);
    if i == pairs.len() - 1 {
        assert(upd.drop_last() =~= pairs.drop_last());
        assert(upd.last() == p);
        assert(map_of(pairs.drop_last()).insert(p.0@, p.1@) =~= map_of(
            pairs.drop_last(),
        ).insert(pairs[i].0@, pairs[i].1@).insert(p.0@, p.1@));
    } else {
        let rest = pairs.drop_last();
        assert(forall|j: int| 0 <= j < rest.len() ==> (#[trigger] rest[j]) == pairs[j]);
        assert(upd.drop_last() =~= rest.update(i, p));
        lemma_map_of_update(rest, i, p);
        assert(pairs.last().0@ != p.0@);
        assert(upd.last() == pairs.last());
        assert(map_of(rest).insert(p.0@, p.1@).insert(pairs.last().0@, pairs.last().1@) =~= map_of(
            rest,
        ).insert(pairs.last().0@, pairs.last().1@).insert(p.0@, p.1@));
    }
}

impl<K: View, V: View> Dict<K, V> {
    #[verifier::type_invariant]
    spec fn wf(self) -> bool {
        distinct_keys(self.pairs@)
    }
}

impl<K: DictKey, V: View> Dict<K, V> {
    pub fn new() -> (r: Self)
        ensures
            r@ == Map::<K::V, V::V>::empty(),
    {
        Dict { pairs: Vec::new() }
    }

    pub fn len(&self) -> (r: usize)
        ensures
            r == self@.dom().len(),
    {
        proof {
            use_type_invariant(&*self);
            lemma_map_of_len(self.pairs@);
        }
        self.pairs.len()
    }

    pub fn is_empty(&self) -> (r: bool)
        ensures
            r == (self@.dom().len() == 0),
    {
        proof {
            use_type_invariant(&*self);
            lemma_map_of_len(self.pairs@);
        }
        self.pairs.len() == 0
    }

    #[verifier::loop_isolation(false)]
    pub fn get<'a>(&'a self, key: &K) -> (r: Option<&'a V>)
        ensures
            match r {
                Some(v) => self@.contains_key(key@) && v@ == self@[key@],
                None => !self@.contains_key(key@),
            },
    {
        proof {
            use_type_invariant(&*self);
        }
        let n = self.pairs.len();
        let mut i: usize = 0;
        while i < n
            invariant
                i <= n,
                forall|j: int| 0 <= j < i ==> (#[trigger] self.pairs@[j]).0@ != key@,
            decreases n - i,
        {
            if self.pairs[i].0.key_eq(key) {
                proof {
                    lemma_map_of_contains(self.pairs@, i as int);
                }
                return Some(&self.pairs[i].1);
            }
            i += 1;
        }
        proof {
            lemma_map_of_absent(self.pairs@, key@);
        }
        None
    }

    pub fn contains_key(&self, key: &K) -> (r: bool)
        ensures
            r == self@.contains_key(key@),
    {
        self.get(key).is_some()
    }

    #[verifier::loop_isolation(false)]
    pub fn insert(&mut self, key: K, value: V)
        ensures
            final(self)@ == old(self)@.insert(key@, value@),
    {
        proof {
            use_type_invariant(&*self);
        }
        let mut pairs: Vec<(K, V)> = Vec::new();
        std::mem::swap(&mut pairs, &mut self.pairs);
        let ghost orig = pairs@;
        let n = pairs.len();
        let mut i: usize = 0;
        while i < n
            invariant
                i <= n,
                n == pairs.len(),
                pairs@ == orig,
                forall|j: int| 0 <= j < i ==> (#[trigger] pairs@[j]).0@ != key@,
            decreases n - i,
        {
            if pairs[i].0.key_eq(&key) {
                proof {
                    lemma_map_of_update(orig, i as int, (key, value));
                }
                pairs.set(i, (key, value));
                self.pairs = pairs;
                return ;
            }
            i += 1;
        }
        pairs.push((key, value));
        proof {
            assert(pairs@.drop_last() =~= orig);
        }
        self.pairs = pairs;
    }

    /// The raw pairs, for iteration; keys are distinct and together they
    /// describe exactly the table's map view.
    pub fn iter(&self) -> (r: &Vec<(K, V)>)
        ensures
            distinct_keys(r@),
            map_of(r@) == self@,
            r@.len() == self@.dom().len(),
    {
        proof {
            use_type_invariant(&*self);
            lemma_map_of_len(self.pairs@);
        }
        &self.pairs
    }
}

} // verus!
