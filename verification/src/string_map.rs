//! A map from texts to values, kept in the order of its keys.
use crate::text::{
    TextOrder, chars_of, lemma_text_less_irreflexive, lemma_text_less_transitive, text_less,
    text_order,
};
use vstd::prelude::*;

verus! {

/// A map with texts as keys.
#[derive(Debug)]
#[verifier::reject_recursive_types(V)]
pub struct StringMap<V> {
    keys: Vec<String>,
    values: Vec<V>,
}

/// Whether each text stands before the next.
pub open spec fn ascending(keys: Seq<String>) -> bool {
    forall|i: int, j: int| 0 <= i < j < keys.len() ==> text_less(#[trigger] keys[i]@, #[trigger] keys[j]@)
}

/// Whether a text is among others.
pub open spec fn among(keys: Seq<String>, key: Seq<char>) -> bool {
    exists|i: int| 0 <= i < keys.len() && #[trigger] keys[i]@ == key
}

spec fn place(keys: Seq<String>, key: Seq<char>) -> int {
    choose|i: int| 0 <= i < keys.len() && #[trigger] keys[i]@ == key
}

impl<V> View for StringMap<V> {
    type V = Map<Seq<char>, V>;

    closed spec fn view(&self) -> Map<Seq<char>, V> {
        Map::new(
            |key: Seq<char>| among(self.keys@, key),
            |key: Seq<char>| self.values@[place(self.keys@, key)],
        )
    }
}

proof fn lemma_place(keys: Seq<String>, i: int)
    requires
        ascending(keys),
        0 <= i < keys.len(),
    ensures
        place(keys, keys[i]@) == i,
        among(keys, keys[i]@),
{
    let p = place(keys, keys[i]@);
    assert(keys[i]@ == keys[i]@);
    if p < i {
        lemma_text_less_irreflexive(keys[i]@);
    } else if i < p {
        lemma_text_less_irreflexive(keys[i]@);
    }
}

impl<V> StringMap<V> {
    /// The keys are in order, and each has a value.
    pub closed spec fn wf(&self) -> bool {
        &&& ascending(self.keys@)
        &&& self.keys@.len() == self.values@.len()
    }

    /// An empty map.
    pub fn new() -> (map: Self)
        ensures
            map.wf(),
            map@ == Map::<Seq<char>, V>::empty(),
    {
        let map = StringMap { keys: Vec::new(), values: Vec::new() };
        assert(map@ =~= Map::<Seq<char>, V>::empty());
        map
    }

    /// Finds the place of a key: where it stands, or where it would stand.
    fn find(&self, key: &str) -> (res: (usize, bool))
        requires
            self.wf(),
        ensures
            res.0 <= self.keys@.len(),
            forall|j: int| 0 <= j < res.0 ==> text_less(#[trigger] self.keys@[j]@, key@),
            res.1 ==> res.0 < self.keys@.len() && self.keys@[res.0 as int]@ == key@,
            !res.1 ==> forall|j: int|
                res.0 <= j < self.keys@.len() ==> text_less(key@, #[trigger] self.keys@[j]@),
            res.1 == self@.dom().contains(key@),
            res.1 ==> self@[key@] == self.values@[res.0 as int],
    {
        let chars = chars_of(key);
        let mut i: usize = 0;
        while i < self.keys.len()
            invariant
                self.wf(),
                chars@ == key@,
                i <= self.keys@.len(),
                forall|j: int| 0 <= j < i ==> text_less(#[trigger] self.keys@[j]@, key@),
            decreases self.keys.len() - i,
        {
            let here = chars_of(&self.keys[i]);
            match text_order(&here, &chars) {
                TextOrder::Less => {
                    i += 1;
                },
                TextOrder::Same => {
                    proof {
                        lemma_place(self.keys@, i as int);
                    }
                    return (i, true);
                },
                TextOrder::Greater => {
                    proof {
                        assert forall|j: int| i <= j < self.keys@.len() implies text_less(
                            key@,
                            #[trigger] self.keys@[j]@,
                        ) by {
                            if j > i {
                                lemma_text_less_transitive(
                                    key@,
                                    self.keys@[i as int]@,
                                    self.keys@[j]@,
                                );
                            }
                        }
                        self.lemma_absent(key@, i as int);
                    }
                    return (i, false);
                },
            }
        }
        proof {
            self.lemma_absent(key@, i as int);
        }
        (i, false)
    }

    proof fn lemma_absent(&self, key: Seq<char>, i: int)
        requires
            self.wf(),
            0 <= i <= self.keys@.len(),
            forall|j: int| 0 <= j < i ==> text_less(#[trigger] self.keys@[j]@, key),
            forall|j: int| i <= j < self.keys@.len() ==> text_less(key, #[trigger] self.keys@[j]@),
        ensures
            !self@.dom().contains(key),
    {
        assert forall|j: int| 0 <= j < self.keys@.len() implies #[trigger] self.keys@[j]@ != key by {
            lemma_text_less_irreflexive(key);
        }
    }

    /// Whether a key has a value.
    pub fn contains_key(&self, key: &str) -> (found: bool)
        requires
            self.wf(),
        ensures
            found == self@.dom().contains(key@),
    {
        self.find(key).1
    }

    /// The value of a key.
    pub fn get(&self, key: &str) -> (found: Option<&V>)
        requires
            self.wf(),
        ensures
            match found {
                Some(value) => self@.dom().contains(key@) && *value == self@[key@],
                None => !self@.dom().contains(key@),
            },
    {
        let (at, found) = self.find(key);
        if found {
            Some(&self.values[at])
        } else {
            None
        }
    }

    /// Gives a key a value, and hands back the value that it had.
    pub fn insert(&mut self, key: &str, value: V) -> (before: Option<V>)
        requires
            old(self).wf(),
        ensures
            final(self).wf(),
            final(self)@ == old(self)@.insert(key@, value),
            match before {
                Some(v) => old(self)@.dom().contains(key@) && v == old(self)@[key@],
                None => !old(self)@.dom().contains(key@),
            },
    {
        let (at, found) = self.find(key);
        let ghost before = *self;
        if found {
            let mut swapped = value;
            self.values.set_and_swap(at, &mut swapped);
            proof {
                assert forall|k: Seq<char>| #[trigger] among(self.keys@, k) implies self@[k]
                    == before@.insert(key@, value)[k] by {
                    lemma_place(self.keys@, at as int);
                    let p = place(self.keys@, k);
                    assert(self.keys@[p]@ == k);
                    assert(self@.dom().contains(k));
                    assert(before@.dom().contains(k));
                }
                assert(self@.dom() =~= before@.insert(key@, value).dom());
                assert(self@ =~= before@.insert(key@, value));
            }
            Some(swapped)
        } else {
            let name = key.to_owned();
            self.keys.insert(at, name);
            self.values.insert(at, value);
            proof {
                assert(ascending(self.keys@)) by {
                    assert forall|i: int, j: int| 0 <= i < j < self.keys@.len() implies text_less(
                        #[trigger] self.keys@[i]@,
                        #[trigger] self.keys@[j]@,
                    ) by {
                        let oi = if i > at { i - 1 } else { i };
                        let oj = if j > at { j - 1 } else { j };
                        if i != at && j != at {
                            assert(text_less(before.keys@[oi]@, before.keys@[oj]@));
                        } else if i == at {
                            assert(text_less(key@, before.keys@[oj]@));
                        } else {
                            assert(text_less(before.keys@[oi]@, key@));
                        }
                    }
                }
                assert(self.keys@[at as int]@ == key@);
                lemma_place(self.keys@, at as int);
                assert forall|k: Seq<char>| k != key@ && #[trigger] among(before.keys@, k) implies among(
                    self.keys@,
                    k,
                ) && self@[k] == before@[k] by {
                    let p = place(before.keys@, k);
                    lemma_place(before.keys@, p);
                    let q = if p < at { p } else { p + 1 };
                    assert(self.keys@[q]@ == k);
                    lemma_place(self.keys@, q);
                }
                assert forall|k: Seq<char>| k != key@ && #[trigger] among(self.keys@, k) implies among(
                    before.keys@,
                    k,
                ) by {
                    let q = place(self.keys@, k);
                    let p = if q < at { q } else { q - 1 };
                    assert(before.keys@[p]@ == k);
                }
                assert(self@.dom() =~= before@.insert(key@, value).dom());
                assert(self@ =~= before@.insert(key@, value));
            }
            None
        }
    }

    /// Takes a key out, and hands back its value.
    pub fn remove(&mut self, key: &str) -> (value: Option<V>)
        requires
            old(self).wf(),
        ensures
            final(self).wf(),
            final(self)@ == old(self)@.remove(key@),
            match value {
                Some(v) => old(self)@.dom().contains(key@) && v == old(self)@[key@],
                None => !old(self)@.dom().contains(key@),
            },
    {
        let (at, found) = self.find(key);
        let ghost before = *self;
        if !found {
            assert(self@ =~= before@.remove(key@));
            return None;
        }
        let _ = self.keys.remove(at);
        let value = self.values.remove(at);
        proof {
            assert(ascending(self.keys@)) by {
                assert forall|i: int, j: int| 0 <= i < j < self.keys@.len() implies text_less(
                    #[trigger] self.keys@[i]@,
                    #[trigger] self.keys@[j]@,
                ) by {
                    let oi = if i < at { i } else { i + 1 };
                    let oj = if j < at { j } else { j + 1 };
                    assert(text_less(before.keys@[oi]@, before.keys@[oj]@));
                }
            }
            assert forall|k: Seq<char>| k != key@ && #[trigger] among(before.keys@, k) implies among(
                self.keys@,
                k,
            ) && self@[k] == before@[k] by {
                let p = place(before.keys@, k);
                lemma_place(before.keys@, p);
                let q = if p < at { p } else { p - 1 };
                assert(self.keys@[q]@ == k);
                lemma_place(self.keys@, q);
            }
            assert forall|k: Seq<char>| #[trigger] among(self.keys@, k) implies among(before.keys@, k)
                && k != key@ by {
                let q = place(self.keys@, k);
                let p = if q < at { q } else { q + 1 };
                assert(before.keys@[p]@ == k);
                lemma_place(before.keys@, p);
                lemma_place(before.keys@, at as int);
            }
            assert(self@.dom() =~= before@.remove(key@).dom());
            assert(self@ =~= before@.remove(key@));
        }
        Some(value)
    }

    /// Takes everything out.
    pub fn clear(&mut self)
        ensures
            final(self).wf(),
            final(self)@ == Map::<Seq<char>, V>::empty(),
    {
        self.keys.clear();
        self.values.clear();
        assert(self@ =~= Map::<Seq<char>, V>::empty());
    }

    /// How many keys there are.
    pub fn len(&self) -> (n: usize)
        requires
            self.wf(),
        ensures
            self@.dom().finite(),
            n == self@.dom().len(),
    {
        proof {
            self.lemma_size();
        }
        self.keys.len()
    }

    proof fn lemma_size(&self)
        requires
            self.wf(),
        ensures
            self@.dom().finite(),
            self@.dom().len() == self.keys@.len(),
    {
        let texts = self.keys@.map_values(|k: String| k@);
        assert(texts.no_duplicates()) by {
            assert forall|i: int, j: int| 0 <= i < j < texts.len() implies texts[i] != texts[j] by {
                lemma_text_less_irreflexive(texts[i]);
                assert(text_less(self.keys@[i]@, self.keys@[j]@));
            }
        }
        texts.unique_seq_to_set();
        assert(texts.to_set() =~= self@.dom()) by {
            assert forall|k: Seq<char>| texts.to_set().contains(k) <==> self@.dom().contains(k) by {
                if texts.contains(k) {
                    let i = choose|i: int| 0 <= i < texts.len() && texts[i] == k;
                    assert(self.keys@[i]@ == k);
                }
                if among(self.keys@, k) {
                    let i = place(self.keys@, k);
                    assert(texts[i] == k);
                }
            }
        }
    }

    /// The keys in order.
    pub fn keys(&self) -> (keys: &Vec<String>)
        requires
            self.wf(),
        ensures
            ascending(keys@),
            forall|k: Seq<char>| #[trigger] among(keys@, k) <==> self@.dom().contains(k),
            self@.dom().finite(),
            keys@.len() == self@.dom().len(),
            forall|i: int| 0 <= i < keys@.len() ==> self@.dom().contains(#[trigger] keys@[i]@),
    {
        proof {
            self.lemma_size();
            assert forall|i: int| 0 <= i < self.keys@.len() implies self@.dom().contains(
                #[trigger] self.keys@[i]@,
            ) by {
                lemma_place(self.keys@, i);
            }
        }
        &self.keys
    }
}

} // verus!
