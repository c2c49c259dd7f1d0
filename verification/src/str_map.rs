use vstd::prelude::*;
use vstd::hash_map::StringHashMap;

verus! {

/// The entries of `m` under `keys`, in the order of `keys`.
pub open spec fn entries_of<V>(keys: Seq<Seq<char>>, m: Map<Seq<char>, V>) -> Seq<(Seq<char>, V)> {
    keys.map_values(|k: Seq<char>| (k, m[k]))
}

/// A map keyed by transaction ids (strings) that remembers the order in which
/// its keys were first inserted.
///
/// Lookups, inserts and `contains_key` go through a hash table; the key list
/// gives the order in which the map is walked. Removing a key keeps the
/// relative order of the others.
#[verifier::reject_recursive_types(V)]
pub struct StrMap<V> {
    keys: Vec<String>,
    values: StringHashMap<V>,
}

impl<V> View for StrMap<V> {
    type V = Map<Seq<char>, V>;

    closed spec fn view(&self) -> Map<Seq<char>, V> {
        self.values@
    }
}

impl<V> StrMap<V> {
    /// The keys, as strings, in walking order.
    pub closed spec fn key_list(&self) -> Seq<String> {
        self.keys@
    }

    /// The keys, as character sequences, in walking order.
    pub open spec fn key_seq(&self) -> Seq<Seq<char>> {
        self.key_list().map_values(|k: String| k@)
    }

    /// The entries in walking order.
    pub open spec fn pairs(&self) -> Seq<(Seq<char>, V)> {
        entries_of(self.key_seq(), self@)
    }

    #[verifier::type_invariant]
    closed spec fn keys_match(&self) -> bool {
        &&& self.key_seq().no_duplicates()
        &&& forall|k: Seq<char>| #[trigger]
            self.values@.contains_key(k) <==> self.key_seq().contains(k)
    }

    proof fn lemma_keys_match(&self)
        requires
            self.keys_match(),
        ensures
            self.key_seq().no_duplicates(),
            forall|k: Seq<char>| #[trigger] self@.contains_key(k) <==> self.key_seq().contains(k),
            self@.dom().finite(),
            self@.len() == self.key_seq().len(),
    {
        broadcast use vstd::seq_lib::seq_to_set_is_finite;
        assert(self@.dom() =~= self.key_seq().to_set());
        self.key_seq().unique_seq_to_set();
    }

    /// An empty map.
    pub fn new() -> (m: Self)
        ensures
            m@ == Map::<Seq<char>, V>::empty(),
            m.key_seq() == Seq::<Seq<char>>::empty(),
    {
        let m = StrMap { keys: Vec::new(), values: StringHashMap::new() };
        assert(m.key_seq() =~= Seq::<Seq<char>>::empty());
        m
    }

    /// The number of entries.
    pub fn len(&self) -> (n: usize)
        ensures
            n == self@.len(),
            n == self.key_seq().len(),
    {
        proof {
            use_type_invariant(&*self);
            self.lemma_keys_match();
        }
        self.keys.len()
    }

    /// Whether `k` is a key of the map (and so in the walking order).
    pub fn contains_key(&self, k: &str) -> (b: bool)
        ensures
            b == self@.contains_key(k@),
            b == self.key_seq().contains(k@),
    {
        proof {
            use_type_invariant(&*self);
        }
        self.values.contains_key(k)
    }

    /// The value under `k`, if any.
    pub fn get(&self, k: &str) -> (r: Option<&V>)
        ensures
            match r {
                Some(v) => self@.contains_key(k@) && *v == self@[k@],
                None => !self@.contains_key(k@),
            },
    {
        self.values.get(k)
    }

    /// The keys, in walking order. Every key of the map occurs in it once,
    /// and nothing else does.
    pub fn keys(&self) -> (ks: &Vec<String>)
        ensures
            ks@ == self.key_list(),
            self.key_seq().no_duplicates(),
            forall|k: Seq<char>| #[trigger] self@.contains_key(k) <==> self.key_seq().contains(k),
            self@.len() == self.key_seq().len(),
            self@.dom().finite(),
    {
        proof {
            use_type_invariant(&*self);
            self.lemma_keys_match();
        }
        &self.keys
    }

    /// Puts `v` under `k`. A new key goes to the end of the walking order; an
    /// existing key keeps its place and gets the new value.
    pub fn insert(&mut self, k: String, v: V)
        ensures
            final(self)@ == old(self)@.insert(k@, v),
            final(self).key_seq() == (if old(self).key_seq().contains(k@) {
                old(self).key_seq()
            } else {
                old(self).key_seq().push(k@)
            }),
    {
        proof {
            use_type_invariant(&*self);
            self.lemma_keys_match();
        }
        let ghost old_keys = self.key_seq();
        let ghost kv = k@;
        let present = self.values.contains_key(k.as_str());
        let mut taken = StrMap::new();
        std::mem::swap(&mut taken, self);
        let StrMap { mut keys, mut values } = taken;
        if !present {
            keys.push(k.clone());
        }
        values.insert(k, v);
        proof {
            let new_keys = keys@.map_values(|s: String| s@);
            if !present {
                assert(new_keys =~= old_keys.push(kv));
                assert forall|i: int, j: int|
                    0 <= i < j < new_keys.len() implies new_keys[i] != new_keys[j] by {
                    if j == new_keys.len() - 1 {
                        assert(old_keys.contains(new_keys[i]));
                    }
                }
                assert forall|x: Seq<char>| #[trigger]
                    values@.contains_key(x) <==> new_keys.contains(x) by {
                    if new_keys.contains(x) && x != kv {
                        let i = choose|i: int| 0 <= i < new_keys.len() && new_keys[i] == x;
                        assert(old_keys[i] == x);
                    }
                    if x == kv {
                        assert(new_keys[new_keys.len() - 1] == kv);
                    }
                    if old_keys.contains(x) {
                        let i = choose|i: int| 0 <= i < old_keys.len() && old_keys[i] == x;
                        assert(new_keys[i] == x);
                    }
                }
            } else {
                assert(new_keys =~= old_keys);
            }
        }
        *self = StrMap { keys, values };
    }

    /// Takes `k` out of the map; the other keys keep their order.
    pub fn remove(&mut self, k: &String)
        ensures
            final(self)@ == old(self)@.remove(k@),
            final(self).key_seq() == old(self).key_seq().remove_value(k@),
    {
        proof {
            use_type_invariant(&*self);
            self.lemma_keys_match();
        }
        let ghost old_keys = self.key_seq();
        proof {
            old_keys.index_of_first_ensures(k@);
        }
        if !self.values.contains_key(k.as_str()) {
            return;
        }
        let mut taken = StrMap::new();
        std::mem::swap(&mut taken, self);
        let StrMap { mut keys, mut values } = taken;
        let mut i: usize = 0;
        while i < keys.len()
            invariant
                keys@.map_values(|s: String| s@) == old_keys,
                old_keys.contains(k@),
                0 <= i <= keys.len(),
                forall|j: int| 0 <= j < i ==> old_keys[j] != k@,
            ensures
                i < keys.len() ==> old_keys[i as int] == k@,
            decreases keys.len() - i,
        {
            if keys[i] == *k {
                break;
            }
            i = i + 1;
        }
        proof {
            if i == keys.len() {
                let j = choose|j: int| 0 <= j < old_keys.len() && old_keys[j] == k@;
                assert(false);
            }
        }
        let ghost idx = i as int;
        assert(old_keys[idx] == k@);
        proof {
            let first = old_keys.index_of_first(k@).unwrap();
            if first != idx {
                assert(old_keys[first] == old_keys[idx]);
            }
        }
        keys.remove(i);
        values.remove(k.as_str());
        proof {
            let new_keys = keys@.map_values(|s: String| s@);
            assert(new_keys =~= old_keys.remove(idx));
            assert forall|a: int, b: int|
                0 <= a < b < new_keys.len() implies new_keys[a] != new_keys[b] by {
                let oa = if a < idx { a } else { a + 1 };
                let ob = if b < idx { b } else { b + 1 };
                assert(new_keys[a] == old_keys[oa]);
                assert(new_keys[b] == old_keys[ob]);
            }
            assert forall|x: Seq<char>| #[trigger]
                values@.contains_key(x) <==> new_keys.contains(x) by {
                if x != k@ && old_keys.contains(x) {
                    let j = choose|j: int| 0 <= j < old_keys.len() && old_keys[j] == x;
                    assert(j != idx);
                    let nj = if j < idx { j } else { j - 1 };
                    assert(new_keys[nj] == x);
                }
                if new_keys.contains(x) {
                    let j = choose|j: int| 0 <= j < new_keys.len() && new_keys[j] == x;
                    let oj = if j < idx { j } else { j + 1 };
                    assert(old_keys[oj] == x);
                    assert(oj != idx);
                }
            }
        }
        *self = StrMap { keys, values };
    }

    /// Removes every entry.
    pub fn clear(&mut self)
        ensures
            final(self)@ == Map::<Seq<char>, V>::empty(),
            final(self).key_seq() == Seq::<Seq<char>>::empty(),
    {
        *self = StrMap::new();
    }
}

} // verus!
