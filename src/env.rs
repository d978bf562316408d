//! Environment variables to set: a map from name to value that keeps the
//! order in which names were first added.
use crate::model::{keys_distinct, lemma_pairs_map_dom, lemma_pairs_map_index, lemma_pairs_map_push, lemma_pairs_map_update, pairs_map};
use vstd::prelude::*;

verus! {

#[derive(Debug)]
pub struct EnvVars {
    items: Vec<(String, String)>,
}

pub open spec fn env_pairs(s: Seq<(String, String)>) -> Seq<(Seq<char>, Seq<char>)> {
    s.map_values(|p: (String, String)| (p.0@, p.1@))
}

impl View for EnvVars {
    type V = Map<Seq<char>, Seq<char>>;

    closed spec fn view(&self) -> Map<Seq<char>, Seq<char>> {
        pairs_map(env_pairs(self.items@))
    }
}

impl EnvVars {
    #[verifier::type_invariant]
    spec fn inv(self) -> bool {
        keys_distinct(env_pairs(self.items@))
    }

    /// The pairs in the order in which their names were first added.
    pub closed spec fn pairs(&self) -> Seq<(Seq<char>, Seq<char>)> {
        env_pairs(self.items@)
    }

    /// The map that the pairs denote is the map of variables.
    pub proof fn lemma_pairs_view(&self)
        ensures
            pairs_map(self.pairs()) == self@,
    {
    }

    pub fn new() -> (r: EnvVars)
        ensures
            r@ == Map::<Seq<char>, Seq<char>>::empty(),
            r.pairs() == Seq::<(Seq<char>, Seq<char>)>::empty(),
    {
        let r = EnvVars { items: Vec::new() };
        assert(env_pairs(r.items@) =~= Seq::empty());
        r
    }

    fn find(&self, key: &str) -> (r: Option<usize>)
        ensures
            r.is_none() ==> !self@.contains_key(key@),
            r.is_some() ==> r.unwrap() < self.items@.len() && self.items@[r.unwrap() as int].0@
                == key@,
    {
        let wanted = key.to_owned();
        let mut i: usize = 0;
        while i < self.items.len()
            invariant
                i <= self.items@.len(),
                wanted@ == key@,
                forall|j: int| 0 <= j < i ==> self.items@[j].0@ != key@,
            decreases self.items@.len() - i,
        {
            if self.items[i].0 == wanted {
                return Some(i);
            }
            i = i + 1;
        }
        proof {
            lemma_pairs_map_dom(env_pairs(self.items@), key@);
        }
        None
    }

    pub fn len(&self) -> (r: usize)
        ensures
            r == self@.len(),
    {
        proof {
            use_type_invariant(self);
            self.lemma_len();
        }
        self.items.len()
    }

    proof fn lemma_len(&self)
        requires
            keys_distinct(env_pairs(self.items@)),
        ensures
            self@.len() == self.items@.len(),
    {
        let s = env_pairs(self.items@);
        let keys = Seq::new(s.len(), |i: int| s[i].0);
        assert forall|k: Seq<char>| #[trigger] self@.dom().contains(k) <==> keys.to_set().contains(k) by {
            lemma_pairs_map_dom(s, k);
            if keys.to_set().contains(k) {
                let i = choose|i: int| 0 <= i < keys.len() && keys[i] == k;
                assert(s[i].0 == k);
            }
            if self@.dom().contains(k) {
                let i = choose|i: int| 0 <= i < s.len() && s[i].0 == k;
                assert(keys[i] == k);
            }
        }
        assert(self@.dom() =~= keys.to_set());
        assert(keys.no_duplicates());
        keys.unique_seq_to_set();
    }

    pub fn is_empty(&self) -> (r: bool)
        ensures
            r == (self@.len() == 0),
    {
        self.len() == 0
    }

    pub fn contains_key(&self, key: &str) -> (r: bool)
        ensures
            r == self@.contains_key(key@),
    {
        proof {
            use_type_invariant(self);
        }
        match self.find(key) {
            Some(i) => {
                proof {
                    lemma_pairs_map_index(env_pairs(self.items@), i as int);
                }
                true
            },
            None => false,
        }
    }

    pub fn get(&self, key: &str) -> (r: Option<&String>)
        ensures
            r.is_some() == self@.contains_key(key@),
            r.is_some() ==> r.unwrap()@ == self@[key@],
    {
        proof {
            use_type_invariant(self);
        }
        match self.find(key) {
            Some(i) => {
                proof {
                    lemma_pairs_map_index(env_pairs(self.items@), i as int);
                }
                Some(&self.items[i].1)
            },
            None => None,
        }
    }

    /// Sets `key` to `value`; a name already present keeps its place.
    pub fn insert(&mut self, key: String, value: String)
        ensures
            final(self)@ == old(self)@.insert(key@, value@),
    {
        proof {
            use_type_invariant(&*self);
        }
        let ghost s = env_pairs(self.items@);
        let found = self.find(key.as_str());
        let mut taken = EnvVars::new();
        core::mem::swap(self, &mut taken);
        let EnvVars { mut items } = taken;
        match found {
            Some(i) => {
                proof {
                    lemma_pairs_map_update(s, i as int, value@);
                }
                items.set(i, (key, value));
                assert(env_pairs(items@) =~= s.update(i as int, (s[i as int].0, value@)));
            },
            None => {
                proof {
                    lemma_pairs_map_push(s, key@, value@);
                }
                items.push((key, value));
                assert(env_pairs(items@) =~= s.push((key@, value@)));
            },
        }
        *self = EnvVars { items };
    }

    /// The variables in the order in which they were first added.
    pub fn to_pairs(&self) -> (r: Vec<(String, String)>)
        ensures
            env_pairs(r@) == self.pairs(),
            keys_distinct(self.pairs()),
            pairs_map(self.pairs()) == self@,
    {
        proof {
            use_type_invariant(self);
        }
        let mut r: Vec<(String, String)> = Vec::new();
        let mut i: usize = 0;
        while i < self.items.len()
            invariant
                i <= self.items@.len(),
                env_pairs(r@) == env_pairs(self.items@).take(i as int),
            decreases self.items@.len() - i,
        {
            let k = self.items[i].0.clone();
            let v = self.items[i].1.clone();
            let ghost before = r@;
            r.push((k, v));
            assert(r@ == before.push((k, v)));
            assert(env_pairs(r@) =~= env_pairs(before).push((k@, v@)));
            assert(env_pairs(r@) =~= env_pairs(self.items@).take(i + 1));
            i = i + 1;
        }
        assert(env_pairs(self.items@).take(i as int) =~= env_pairs(self.items@));
        r
    }

    /// A copy that denotes the same map, with the same order.
    pub fn duplicate(&self) -> (r: EnvVars)
        ensures
            r@ == self@,
            r.pairs() == self.pairs(),
    {
        proof {
            use_type_invariant(self);
        }
        let items = self.to_pairs();
        EnvVars { items }
    }

    /// Overlays `other` on this map: on a shared name the value of `other` wins.
    pub fn extend(&mut self, other: &EnvVars)
        ensures
            final(self)@ == old(self)@.union_prefer_right(other@),
    {
        proof {
            use_type_invariant(other);
        }
        let ghost start = self@;
        let ghost s = env_pairs(other.items@);
        let mut i: usize = 0;
        while i < other.items.len()
            invariant
                i <= other.items@.len(),
                s == env_pairs(other.items@),
                keys_distinct(s),
                self@ == start.union_prefer_right(pairs_map(s.take(i as int))),
            decreases other.items@.len() - i,
        {
            let k = other.items[i].0.clone();
            let v = other.items[i].1.clone();
            self.insert(k, v);
            proof {
                assert(s.take(i + 1).drop_last() =~= s.take(i as int));
            }
            assert(self@ =~= start.union_prefer_right(pairs_map(s.take(i + 1))));
            i = i + 1;
        }
        assert(s.take(i as int) =~= s);
    }
}

impl Clone for EnvVars {
    fn clone(&self) -> (r: EnvVars)
        ensures
            r@ == self@,
    {
        self.duplicate()
    }
}

} // verus!
