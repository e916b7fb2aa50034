//! A string-keyed table that keeps its keys in the order of first insertion.
use vstd::prelude::*;
use vstd::string::StringSliceAdditionalSpecFns;

verus! {

/// The set of strings that occur in `keep`.
pub open spec fn string_set(keep: Seq<String>) -> Set<Seq<char>> {
    Set::new(|k: Seq<char>| exists|i: int| 0 <= i < keep.len() && #[trigger] keep[i]@ == k)
}

/// Whether `a` and `b` hold the same characters.
pub fn same_text(a: &str, b: &str) -> (r: bool)
    ensures
        r == (a@ == b@),
{
    let left = a.as_bytes();
    let right = b.as_bytes();
    if left.len() != right.len() {
        return false;
    }
    let mut i: usize = 0;
    while i < left.len()
        invariant
            i <= left@.len() == right@.len(),
            left@ == a.spec_bytes(),
            right@ == b.spec_bytes(),
            forall|j: int| 0 <= j < i ==> left@[j] == right@[j],
        decreases left.len() - i,
    {
        if left[i] != right[i] {
            return false;
        }
        i += 1;
    }
    proof {
        assert(left@ =~= right@);
        vstd::utf8::encode_utf8_decode_utf8(a@);
        vstd::utf8::encode_utf8_decode_utf8(b@);
    }
    true
}

/// Whether `key` occurs in `keep`.
pub fn holds(keep: &[String], key: &String) -> (r: bool)
    ensures
        r == string_set(keep@).contains(key@),
{
    let mut i: usize = 0;
    while i < keep.len()
        invariant
            i <= keep@.len(),
            forall|j: int| 0 <= j < i ==> (#[trigger] keep@[j])@ != key@,
        decreases keep.len() - i,
    {
        if keep[i] == *key {
            return true;
        }
        i += 1;
    }
    false
}

/// A map from strings to `V` whose keys are distinct and ordered by first insertion.
pub struct Table<V> {
    keys: Vec<String>,
    values: Vec<V>,
}

impl<V> Table<V> {
    /// The keys, in order.
    pub closed spec fn keys(&self) -> Seq<Seq<char>> {
        Seq::new(self.keys@.len(), |i: int| self.keys@[i]@)
    }

    /// The values, each at the position of its key.
    pub closed spec fn values(&self) -> Seq<V> {
        self.values@
    }

    /// Every key has one value and no key occurs twice.
    pub open spec fn wf(&self) -> bool {
        &&& self.keys().len() == self.values().len()
        &&& self.keys().no_duplicates()
    }

    /// The table as a map, order forgotten.
    pub open spec fn view(&self) -> Map<Seq<char>, V> {
        Map::new(
            |k: Seq<char>| self.keys().contains(k),
            |k: Seq<char>| self.values()[self.keys().index_of(k)],
        )
    }

    /// In a well-formed table the map holds exactly the pairs of the two sequences.
    pub proof fn lemma_view(&self)
        requires
            self.wf(),
        ensures
            forall|i: int|
                0 <= i < self.keys().len() ==> self@.contains_key(#[trigger] self.keys()[i])
                    && self@[self.keys()[i]] == self.values()[i],
            forall|k: Seq<char>|
                self@.contains_key(k) ==> 0 <= self.keys().index_of(k) < self.keys().len()
                    && self.keys()[self.keys().index_of(k)] == k,
            self@.dom().finite(),
    {
        let keys = self.keys();
        assert forall|i: int| 0 <= i < keys.len() implies self@.contains_key(#[trigger] keys[i])
            && self@[keys[i]] == self.values()[i] by {
            let j = keys.index_of(keys[i]);
            assert(0 <= j < keys.len() && keys[j] == keys[i]);
        }
        assert(self@.dom() =~= keys.to_set());
        vstd::seq_lib::seq_to_set_is_finite(keys);
    }

    pub fn new() -> (r: Self)
        ensures
            r.wf(),
            r.keys() == Seq::<Seq<char>>::empty(),
            r.values() == Seq::<V>::empty(),
            r@ == Map::<Seq<char>, V>::empty(),
    {
        let r = Table { keys: Vec::new(), values: Vec::new() };
        assert(r.keys() =~= Seq::<Seq<char>>::empty());
        assert(r@ =~= Map::<Seq<char>, V>::empty());
        r
    }

    pub fn len(&self) -> (r: usize)
        requires
            self.wf(),
        ensures
            r == self.keys().len(),
            r == self.values().len(),
    {
        self.keys.len()
    }

    pub fn key_at(&self, i: usize) -> (r: &String)
        requires
            i < self.keys().len(),
        ensures
            r@ == self.keys()[i as int],
    {
        &self.keys[i]
    }

    pub fn value_at(&self, i: usize) -> (r: &V)
        requires
            i < self.values().len(),
        ensures
            *r == self.values()[i as int],
    {
        &self.values[i]
    }

    /// The position of `key`, if the table holds it.
    pub fn position(&self, key: &str) -> (r: Option<usize>)
        requires
            self.wf(),
        ensures
            match r {
                Some(i) => i < self.keys().len() && self.keys()[i as int] == key@,
                None => !self.keys().contains(key@),
            },
            r.is_some() == self@.contains_key(key@),
    {
        let mut i: usize = 0;
        while i < self.keys.len()
            invariant
                i <= self.keys().len(),
                self.keys().len() == self.keys@.len(),
                forall|j: int| 0 <= j < i ==> self.keys()[j] != key@,
            decreases self.keys.len() - i,
        {
            if same_text(self.keys[i].as_str(), key) {
                assert(self.keys()[i as int] == key@);
                return Some(i);
            }
            i += 1;
        }
        None
    }

    pub fn get(&self, key: &str) -> (r: Option<&V>)
        requires
            self.wf(),
        ensures
            match r {
                Some(v) => self@.contains_key(key@) && *v == self@[key@],
                None => !self@.contains_key(key@),
            },
    {
        proof {
            self.lemma_view();
        }
        match self.position(key) {
            Some(i) => Some(&self.values[i]),
            None => None,
        }
    }

    pub fn contains_key(&self, key: &str) -> (r: bool)
        requires
            self.wf(),
        ensures
            r == self@.contains_key(key@),
    {
        self.position(key).is_some()
    }

    /// Sets the value of `key`: in place where the table holds the key, at the end
    /// where it does not.
    pub fn insert(&mut self, key: String, value: V)
        requires
            old(self).wf(),
        ensures
            final(self).wf(),
            final(self)@ == old(self)@.insert(key@, value),
            old(self)@.contains_key(key@) ==> final(self).keys() == old(self).keys()
                && final(self).values() == old(self).values().update(
                old(self).keys().index_of(key@),
                value,
            ),
            !old(self)@.contains_key(key@) ==> final(self).keys() == old(self).keys().push(key@)
                && final(self).values() == old(self).values().push(value),
    {
        proof {
            self.lemma_view();
        }
        match self.position(key.as_str()) {
            Some(i) => {
                self.values.set(i, value);
                proof {
                    assert(self.keys() =~= old(self).keys());
                    self.lemma_view();
                    assert forall|k: Seq<char>| old(self)@.insert(key@, value).contains_key(k)
                        implies #[trigger] self@[k] == old(self)@.insert(key@, value)[k] by {
                        let j = self.keys().index_of(k);
                        assert(self.keys()[j] == k);
                    }
                    assert(self@ =~= old(self)@.insert(key@, value));
                }
            },
            None => {
                self.keys.push(key);
                self.values.push(value);
                proof {
                    let n = old(self).keys().len() as int;
                    assert(self.keys() =~= old(self).keys().push(key@));
                    assert(self.keys()[n] == key@);
                    self.lemma_view();
                    assert forall|k: Seq<char>| self@.contains_key(k) implies old(self)@.insert(
                        key@,
                        value,
                    ).contains_key(k) by {
                        let j = self.keys().index_of(k);
                        if j < n {
                            assert(old(self).keys()[j] == k);
                        }
                    }
                    assert forall|k: Seq<char>| #[trigger]
                        old(self)@.insert(key@, value).contains_key(k) implies self@.contains_key(k)
                        && self@[k] == old(self)@.insert(key@, value)[k] by {
                        if k != key@ {
                            let j = old(self).keys().index_of(k);
                            assert(old(self).keys()[j] == k);
                            assert(self.keys()[j] == k);
                            assert(self.values()[j] == old(self).values()[j]);
                        } else {
                            assert(self.values()[n] == value);
                        }
                    }
                    assert(self@ =~= old(self)@.insert(key@, value));
                }
            },
        }
    }

    /// Mutable access to the value at position `i`.
    pub fn value_at_mut(&mut self, i: usize) -> (r: &mut V)
        requires
            old(self).wf(),
            i < old(self).keys().len(),
        ensures
            *r == old(self).values()[i as int],
            final(self).keys() == old(self).keys(),
            final(self).values() == old(self).values().update(i as int, *final(r)),
    {
        &mut self.values[i]
    }

    /// Replacing the value at one position replaces the value of that position's key.
    pub proof fn lemma_update(&self, before: &Self, i: int, value: V)
        requires
            before.wf(),
            0 <= i < before.keys().len(),
            self.keys() == before.keys(),
            self.values() == before.values().update(i, value),
        ensures
            self.wf(),
            self@ == before@.insert(before.keys()[i], value),
    {
        before.lemma_view();
        self.lemma_view();
        let want = before@.insert(before.keys()[i], value);
        assert forall|k: Seq<char>| #[trigger] want.contains_key(k) implies self@.contains_key(k)
            && self@[k] == want[k] by {
            let j = self.keys().index_of(k);
            assert(self.keys()[j] == k);
        }
        assert(self@ =~= want);
    }

    /// Keeps the entries whose key occurs in `keep`, in their order, and drops the rest.
    pub fn retain_keys(&mut self, keep: &[String])
        requires
            old(self).wf(),
        ensures
            final(self).wf(),
            final(self)@ == old(self)@.restrict(string_set(keep@)),
            final(self).keys() == old(self).keys().filter(
                |k: Seq<char>| string_set(keep@).contains(k),
            ),
    {
        let ghost wanted = string_set(keep@);
        let ghost pred = |k: Seq<char>| string_set(keep@).contains(k);
        let ghost n = self.keys().len() as int;
        let ghost from: Seq<int> = Seq::empty();
        let mut i: usize = 0;
        let mut j: usize = 0;
        let total = self.keys.len();
        proof {
            assert(n == total);
            reveal(Seq::filter);
            assert(old(self).keys().subrange(0, 0).filter(pred) =~= Seq::<Seq<char>>::empty());
            assert(self.keys() =~= Seq::<Seq<char>>::empty() + old(self).keys().subrange(0, n));
        }
        while i < self.keys.len()
            invariant
                old(self).wf(),
                n == old(self).keys().len(),
                pred == |k: Seq<char>| string_set(keep@).contains(k),
                i <= j <= n == total,
                self.keys().len() == i + (n - j),
                self.keys().len() == self.keys@.len(),
                self.values().len() == self.keys().len(),
                self.keys() == old(self).keys().subrange(0, j as int).filter(pred) + old(
                    self,
                ).keys().subrange(j as int, n),
                forall|a: int| i <= a < self.keys().len() ==> self.values()[a] == old(
                    self,
                ).values()[a - i + j],
                from.len() == i,
                forall|a: int|
                    0 <= a < i ==> 0 <= #[trigger] from[a] < j && self.keys()[a] == old(
                        self,
                    ).keys()[from[a]] && self.values()[a] == old(self).values()[from[a]]
                        && pred(self.keys()[a]),
                forall|a: int, b: int| 0 <= a < b < i ==> from[a] < from[b],
                forall|b: int|
                    0 <= b < j && pred(#[trigger] old(self).keys()[b]) ==> from.contains(b),
            decreases self.keys.len() - i,
        {
            proof {
                reveal(Seq::filter);
                assert(old(self).keys().subrange(0, j + 1).drop_last() =~= old(
                    self,
                ).keys().subrange(0, j as int));
                assert(self.keys()[i as int] == old(self).keys()[j as int]);
            }
            let ghost prev = from;
            if holds(keep, &self.keys[i]) {
                proof {
                    from = from.push(j as int);
                    assert(self.keys() =~= old(self).keys().subrange(0, j + 1).filter(pred) + old(
                        self,
                    ).keys().subrange(j + 1, n));
                    assert forall|b: int|
                        0 <= b < j + 1 && pred(#[trigger] old(self).keys()[b]) implies from.contains(
                        b,
                    ) by {
                        if b < j {
                            let a = prev.index_of(b);
                            assert(prev.contains(b));
                            assert(from[a] == b);
                        } else {
                            assert(from[i as int] == b);
                        }
                    }
                }
                i += 1;
            } else {
                let ghost before_keys = self.keys();
                self.keys.remove(i);
                self.values.remove(i);
                proof {
                    assert(self.keys() =~= before_keys.remove(i as int));
                    assert(self.keys() =~= old(self).keys().subrange(0, j + 1).filter(pred) + old(
                        self,
                    ).keys().subrange(j + 1, n));
                }
            }
            j += 1;
        }
        proof {
            assert(old(self).keys().subrange(0, n) =~= old(self).keys());
            assert(self.keys() =~= old(self).keys().filter(pred));
            assert forall|a: int, b: int|
                0 <= a < self.keys().len() && 0 <= b < self.keys().len() && a != b implies self.keys()[a]
                != self.keys()[b] by {
                assert(from[a] != from[b]);
            }
            old(self).lemma_view();
            self.lemma_view();
            let want = old(self)@.restrict(wanted);
            assert forall|k: Seq<char>| #[trigger] want.contains_key(k) implies self@.contains_key(k)
                && self@[k] == want[k] by {
                let b = old(self).keys().index_of(k);
                assert(pred(old(self).keys()[b]));
                let a = from.index_of(b);
                assert(from.contains(b));
                assert(self.keys()[a] == k);
            }
            assert forall|k: Seq<char>| #[trigger] self@.contains_key(k) implies want.contains_key(
                k,
            ) by {
                let a = self.keys().index_of(k);
                assert(old(self).keys()[from[a]] == k);
            }
            assert(self@ =~= want);
        }
    }

    /// Gives every key the value `value`.
    pub fn set_all(&mut self, value: V) where V: Copy
        requires
            old(self).wf(),
        ensures
            final(self).wf(),
            final(self).keys() == old(self).keys(),
            final(self).values() == Seq::new(old(self).values().len(), |i: int| value),
            final(self)@ == Map::new(
                |k: Seq<char>| old(self)@.contains_key(k),
                |k: Seq<char>| value,
            ),
    {
        let mut i: usize = 0;
        while i < self.values.len()
            invariant
                i <= self.values@.len() == old(self).values@.len(),
                self.keys == old(self).keys,
                forall|j: int| 0 <= j < i ==> self.values@[j] == value,
            decreases self.values.len() - i,
        {
            self.values.set(i, value);
            i += 1;
        }
        proof {
            assert(self.values() =~= Seq::new(old(self).values().len(), |i: int| value));
            old(self).lemma_view();
            self.lemma_view();
            assert(self@ =~= Map::new(
                |k: Seq<char>| old(self)@.contains_key(k),
                |k: Seq<char>| value,
            ));
        }
    }
}

} // verus!
