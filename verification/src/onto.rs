//! What the analysis reads from the ontology store, loaded beforehand: individuals by id,
//! and for each class that was searched, its instances in the order the search gave them.
use vstd::prelude::*;
use crate::individual::{Individual, IndividualV};
use crate::kv::{kv_get, first_index, no_key, lemma_kv_get_first, lemma_kv_get_none};
use crate::text::{str_eq, starts_with, is_prefix_of};
use crate::mapping::TextMap;

verus! {

/// The first individual with id `uri`.
pub open spec fn find_ind(s: Seq<IndividualV>, uri: Seq<char>) -> Option<IndividualV>
    decreases s.len(),
{
    if s.len() == 0 {
        None
    } else if s[0].id == uri {
        Some(s[0])
    } else {
        find_ind(s.drop_first(), uri)
    }
}

pub open spec fn ind_views(s: Seq<Individual>) -> Seq<IndividualV> {
    s.map_values(|i: Individual| i@)
}

pub open spec fn class_views(s: Seq<(String, Vec<Individual>)>) -> Seq<(Seq<char>, Seq<IndividualV>)> {
    s.map_values(|p: (String, Vec<Individual>)| (p.0@, ind_views(p.1@)))
}

proof fn lemma_find_ind_skip(s: Seq<IndividualV>, uri: Seq<char>, i: int)
    requires
        0 <= i <= s.len(),
        forall|j: int| 0 <= j < i ==> s[j].id != uri,
    ensures
        find_ind(s, uri) == find_ind(s.skip(i), uri),
    decreases i,
{
    if i > 0 {
        lemma_find_ind_skip(s.drop_first(), uri, i - 1);
        assert(s.drop_first().skip(i - 1) =~= s.skip(i));
    } else {
        assert(s.skip(0) =~= s);
    }
}

/// The range text of a property: its first `rdfs:range` literal, or the empty text.
pub open spec fn range_text(p: IndividualV) -> Seq<char> {
    match p.first_literal("rdfs:range"@) {
        Some(r) => r,
        None => Seq::empty(),
    }
}

/// The ranges of properties by id, the first property of an id counting.
pub open spec fn ranges_spec(s: Seq<IndividualV>) -> Map<Seq<char>, Seq<char>>
    decreases s.len(),
{
    if s.len() == 0 {
        Map::empty()
    } else {
        let m = ranges_spec(s.drop_last());
        if m.contains_key(s.last().id) {
            m
        } else {
            m.insert(s.last().id, range_text(s.last()))
        }
    }
}

/// Individuals of the store by id, and the instances of searched classes.
pub struct Ontology {
    pub individuals: Vec<Individual>,
    pub classes: Vec<(String, Vec<Individual>)>,
}

impl Ontology {
    /// The individual with id `uri`, if it was loaded.
    pub open spec fn find(&self, uri: Seq<char>) -> Option<IndividualV> {
        find_ind(ind_views(self.individuals@), uri)
    }

    /// The loaded instances of `class`, none when it was not searched.
    pub open spec fn members(&self, class: Seq<char>) -> Seq<IndividualV> {
        match kv_get(class_views(self.classes@), class) {
            Some(s) => s,
            None => Seq::empty(),
        }
    }

    pub fn new() -> (r: Ontology)
        ensures
            r.individuals@.len() == 0,
            r.classes@.len() == 0,
    {
        Ontology { individuals: Vec::new(), classes: Vec::new() }
    }

    /// Looks up the individual with id `uri`.
    pub fn get_individual(&self, uri: &str) -> (r: Option<&Individual>)
        ensures
            r matches Some(i) ==> self.find(uri@) == Some(i@),
            r is None ==> self.find(uri@) is None,
    {
        let ghost s = ind_views(self.individuals@);
        let mut i: usize = 0;
        while i < self.individuals.len()
            invariant
                s == ind_views(self.individuals@),
                i <= self.individuals@.len(),
                forall|j: int| 0 <= j < i ==> s[j].id != uri@,
            decreases self.individuals@.len() - i,
        {
            if str_eq(self.individuals[i].get_id(), uri) {
                proof {
                    lemma_find_ind_skip(s, uri@, i as int);
                }
                return Some(&self.individuals[i]);
            }
            i = i + 1;
        }
        proof {
            lemma_find_ind_skip(s, uri@, i as int);
        }
        None
    }

    /// Whether the instances of `class` are held.
    pub fn has_class(&self, class: &str) -> (r: bool)
        ensures
            r == (kv_get(class_views(self.classes@), class@) is Some),
    {
        let ghost e = class_views(self.classes@);
        let mut i: usize = 0;
        while i < self.classes.len()
            invariant
                e == class_views(self.classes@),
                i <= self.classes@.len(),
                forall|j: int| 0 <= j < i ==> e[j].0 != class@,
            decreases self.classes@.len() - i,
        {
            if str_eq(self.classes[i].0.as_str(), class) {
                proof {
                    lemma_kv_get_first(e, class@, i as int);
                }
                return true;
            }
            i = i + 1;
        }
        proof {
            lemma_kv_get_none(e, class@);
        }
        false
    }

    /// Whether the instances of a property's range are still to be loaded: the range is not
    /// an `xsd:` type and its instances are not held yet.
    pub fn needs_members(&self, range: &str) -> (r: bool)
        ensures
            r == (!is_prefix_of("xsd:"@, range@) && kv_get(class_views(self.classes@), range@) is None),
    {
        !starts_with(range, "xsd:") && !self.has_class(range)
    }

    /// The range of each loaded property, by its id: the first literal of `rdfs:range`, or
    /// the empty text where it has none; of two properties with one id, the first counts.
    pub fn ranges(&self) -> (r: TextMap)
        ensures
            r.wf(),
            r@ == ranges_spec(ind_views(self.individuals@)),
    {
        let ghost s = ind_views(self.individuals@);
        let mut m = TextMap::new();
        let mut i: usize = 0;
        while i < self.individuals.len()
            invariant
                s == ind_views(self.individuals@),
                i <= self.individuals@.len(),
                m.wf(),
                m@ == ranges_spec(s.take(i as int)),
            decreases self.individuals@.len() - i,
        {
            assert(s.take(i + 1).drop_last() =~= s.take(i as int));
            assert(s.take(i + 1).last() == self.individuals@[i as int]@);
            let p = &self.individuals[i];
            if !m.contains_key(p.get_id()) {
                let range = match p.get_first_literal("rdfs:range") {
                    Some(r) => r,
                    None => String::new(),
                };
                m.insert(crate::text::str_to_string(p.get_id()), range);
            }
            i = i + 1;
        }
        assert(s.take(self.individuals@.len() as int) =~= s);
        m
    }

    /// The instances of `class`.
    pub fn get_members(&self, class: &str) -> (r: &[Individual])
        ensures
            ind_views(r@) == self.members(class@),
    {
        let ghost e = class_views(self.classes@);
        let mut i: usize = 0;
        while i < self.classes.len()
            invariant
                e == class_views(self.classes@),
                i <= self.classes@.len(),
                forall|j: int| 0 <= j < i ==> e[j].0 != class@,
            decreases self.classes@.len() - i,
        {
            if str_eq(self.classes[i].0.as_str(), class) {
                proof {
                    lemma_kv_get_first(e, class@, i as int);
                }
                return self.classes[i].1.as_slice();
            }
            i = i + 1;
        }
        proof {
            lemma_kv_get_none(e, class@);
        }
        assert(ind_views(Seq::<Individual>::empty()) =~= Seq::<IndividualV>::empty());
        &[]
    }
}

} // verus!
