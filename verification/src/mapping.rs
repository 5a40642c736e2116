//! Maps from text to text that keep insertion order; the property mapping (short property
//! names and `short*label` keys of enumeration values to full URIs) is one.
use vstd::prelude::*;
use crate::kv::{
    kv_get, kv_map, first_index, no_key, lemma_kv_get_first, lemma_kv_get_none, lemma_kv_cases,
    lemma_kv_update_first, lemma_kv_push_new, kv_insert, lemma_kv_insert_at,
};
use crate::text::{str_eq, str_to_string};

verus! {

pub open spec fn pm_ents(e: Seq<(String, String)>) -> Seq<(Seq<char>, Seq<char>)> {
    e.map_values(|p: (String, String)| (p.0@, p.1@))
}

/// Short property names, and `short*label` keys of enumeration values, to full URIs.
pub type PropertyMapping = TextMap;

/// No key occurs twice.
pub open spec fn keys_unique(e: Seq<(Seq<char>, Seq<char>)>) -> bool {
    forall|i: int, j: int| 0 <= i < j < e.len() ==> e[i].0 != e[j].0
}

/// A map from text to text that keeps its entries in insertion order.
pub struct TextMap {
    entries: Vec<(String, String)>,
}

impl View for TextMap {
    type V = Map<Seq<char>, Seq<char>>;

    closed spec fn view(&self) -> Map<Seq<char>, Seq<char>> {
        kv_map(pm_ents(self.entries@))
    }
}

impl TextMap {
    /// No key occurs twice among the entries.
    pub closed spec fn wf(self) -> bool {
        keys_unique(pm_ents(self.entries@))
    }

    /// The entries in insertion order, as pairs of texts.
    pub closed spec fn entry_seq(self) -> Seq<(Seq<char>, Seq<char>)> {
        pm_ents(self.entries@)
    }

    pub proof fn lemma_view(self)
        ensures
            self@ == kv_map(self.entry_seq()),
    {
    }

    pub proof fn lemma_entry_seq(self)
        requires
            self.wf(),
        ensures
            keys_unique(self.entry_seq()),
            forall|i: int|
                0 <= i < self.entry_seq().len() ==> #[trigger] self@.contains_key(
                    self.entry_seq()[i].0,
                ) && self@[self.entry_seq()[i].0] == self.entry_seq()[i].1,
            forall|k: Seq<char>|
                #[trigger] self@.contains_key(k) ==> exists|i: int|
                    0 <= i < self.entry_seq().len() && self.entry_seq()[i].0 == k,
    {
        let e = self.entry_seq();
        assert forall|i: int| 0 <= i < e.len() implies #[trigger] self@.contains_key(e[i].0)
            && self@[e[i].0] == e[i].1 by {
            assert(first_index(e, e[i].0, i));
            lemma_kv_get_first(e, e[i].0, i);
        }
        assert forall|k: Seq<char>| #[trigger] self@.contains_key(k) implies exists|i: int|
            0 <= i < e.len() && e[i].0 == k by {
            lemma_kv_cases(e, k);
            if no_key(e, k) {
                lemma_kv_get_none(e, k);
            }
        }
    }

    pub fn new() -> (r: TextMap)
        ensures
            r@ == Map::<Seq<char>, Seq<char>>::empty(),
            r.wf(),
            r.entry_seq() == Seq::<(Seq<char>, Seq<char>)>::empty(),
    {
        let r = TextMap { entries: Vec::new() };
        assert(r@ =~= Map::<Seq<char>, Seq<char>>::empty());
        assert(r.entry_seq() =~= Seq::<(Seq<char>, Seq<char>)>::empty());
        r
    }

    fn find(&self, key: &str) -> (r: Option<usize>)
        ensures
            match r {
                Some(i) => first_index(pm_ents(self.entries@), key@, i as int),
                None => no_key(pm_ents(self.entries@), key@),
            },
    {
        let mut i: usize = 0;
        while i < self.entries.len()
            invariant
                i <= self.entries@.len(),
                forall|j: int| 0 <= j < i ==> pm_ents(self.entries@)[j].0 != key@,
            decreases self.entries@.len() - i,
        {
            if str_eq(self.entries[i].0.as_str(), key) {
                return Some(i);
            }
            i = i + 1;
        }
        None
    }

    pub fn get(&self, key: &str) -> (r: Option<&String>)
        ensures
            match r {
                Some(v) => self@.contains_key(key@) && self@[key@] == v@,
                None => !self@.contains_key(key@),
            },
    {
        match self.find(key) {
            Some(i) => {
                proof {
                    lemma_kv_get_first(pm_ents(self.entries@), key@, i as int);
                }
                Some(&self.entries[i].1)
            },
            None => {
                proof {
                    lemma_kv_get_none(pm_ents(self.entries@), key@);
                }
                None
            },
        }
    }

    pub fn contains_key(&self, key: &str) -> (r: bool)
        ensures
            r == self@.contains_key(key@),
    {
        self.get(key).is_some()
    }

    /// Sets the value of `key`; a new key goes after the others.
    pub fn insert(&mut self, key: String, value: String)
        requires
            old(self).wf(),
        ensures
            final(self).wf(),
            final(self)@ == old(self)@.insert(key@, value@),
            final(self).entry_seq() == kv_insert(old(self).entry_seq(), key@, value@),
    {
        let ghost e0 = pm_ents(self.entries@);
        match self.find(key.as_str()) {
            Some(i) => {
                proof {
                    lemma_kv_get_first(e0, key@, i as int);
                    lemma_kv_update_first(e0, key@, i as int, value@);
                    lemma_kv_insert_at(e0, key@, value@, i as int);
                }
                let ghost kv = (key@, value@);
                let mut entries = Vec::new();
                std::mem::swap(&mut entries, &mut self.entries);
                entries.set(i, (key, value));
                assert(pm_ents(entries@) =~= e0.update(i as int, kv));
                assert(keys_unique(e0.update(i as int, kv)));
                self.entries = entries;
            },
            None => {
                proof {
                    lemma_kv_get_none(e0, key@);
                    lemma_kv_push_new(e0, key@, value@);
                    lemma_kv_insert_at(e0, key@, value@, e0.len() as int);
                }
                let ghost kv = (key@, value@);
                let mut entries = Vec::new();
                std::mem::swap(&mut entries, &mut self.entries);
                entries.push((key, value));
                assert(pm_ents(entries@) =~= e0.push(kv));
                assert(keys_unique(e0.push(kv)));
                self.entries = entries;
            },
        }
    }

    pub fn len(&self) -> (r: usize)
        ensures
            r == self.entry_seq().len(),
    {
        self.entries.len()
    }

    /// The entry at position `i` in insertion order.
    pub fn entry_at(&self, i: usize) -> (r: (&String, &String))
        requires
            i < self.entry_seq().len(),
        ensures
            r.0@ == self.entry_seq()[i as int].0,
            r.1@ == self.entry_seq()[i as int].1,
    {
        (&self.entries[i].0, &self.entries[i].1)
    }
}

} // verus!
