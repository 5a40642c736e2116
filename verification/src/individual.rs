//! An individual of the ontology store: an id and, for each predicate, a list of values.
//!
//! The model (`IndividualV`) is the id and a map from predicate to its values; within a
//! predicate the values keep their order.
use vstd::prelude::*;
use crate::kv::{
    kv_get, kv_map, first_index, no_key, lemma_kv_get_first, lemma_kv_get_none,
    lemma_kv_update_first, lemma_kv_push_new, lemma_kv_remove_entry, lemma_kv_map_no_key,
};
use crate::text::{str_eq, str_to_string, copy_string};

verus! {

/// Language tag of a string value.
#[derive(PartialEq, Eq, Structural, Clone, Copy, Debug)]
pub enum Lang {
    NoLang,
    Ru,
    En,
}

#[derive(Debug)]
pub enum Resource {
    Uri(String),
    Str(String, Lang),
    Integer(i64),
    Datetime(i64),
    /// A decimal number, kept as its decimal text.
    Decimal(String),
    Boolean(bool),
}

pub enum ResourceV {
    Uri(Seq<char>),
    Str(Seq<char>, Lang),
    Integer(i64),
    Datetime(i64),
    Decimal(Seq<char>),
    Boolean(bool),
}

impl View for Resource {
    type V = ResourceV;

    open spec fn view(&self) -> ResourceV {
        match self {
            Resource::Uri(s) => ResourceV::Uri(s@),
            Resource::Str(s, l) => ResourceV::Str(s@, *l),
            Resource::Integer(n) => ResourceV::Integer(*n),
            Resource::Datetime(n) => ResourceV::Datetime(*n),
            Resource::Decimal(s) => ResourceV::Decimal(s@),
            Resource::Boolean(b) => ResourceV::Boolean(*b),
        }
    }
}

pub open spec fn res_views(v: Seq<Resource>) -> Seq<ResourceV> {
    v.map_values(|r: Resource| r@)
}

#[derive(Debug)]
pub struct Individual {
    pub id: String,
    pub resources: Vec<(String, Vec<Resource>)>,
}

pub struct IndividualV {
    pub id: Seq<char>,
    pub props: Map<Seq<char>, Seq<ResourceV>>,
}

pub open spec fn ents(e: Seq<(String, Vec<Resource>)>) -> Seq<(Seq<char>, Seq<ResourceV>)> {
    e.map_values(|p: (String, Vec<Resource>)| (p.0@, res_views(p.1@)))
}

impl View for Individual {
    type V = IndividualV;

    open spec fn view(&self) -> IndividualV {
        IndividualV { id: self.id@, props: kv_map(ents(self.resources@)) }
    }
}

/// The text of a URI or string value.
pub open spec fn literal_text(r: ResourceV) -> Option<Seq<char>> {
    match r {
        ResourceV::Uri(s) => Some(s),
        ResourceV::Str(s, _) => Some(s),
        _ => None,
    }
}

/// The text of the first URI or string value.
pub open spec fn first_literal_of(v: Seq<ResourceV>) -> Option<Seq<char>>
    decreases v.len(),
{
    if v.len() == 0 {
        None
    } else if literal_text(v[0]) is Some {
        literal_text(v[0])
    } else {
        first_literal_of(v.drop_first())
    }
}

/// The texts of all URI and string values, in order.
pub open spec fn literals_of(v: Seq<ResourceV>) -> Seq<Seq<char>>
    decreases v.len(),
{
    if v.len() == 0 {
        Seq::empty()
    } else {
        match literal_text(v.last()) {
            Some(t) => literals_of(v.drop_last()).push(t),
            None => literals_of(v.drop_last()),
        }
    }
}

/// The first integer value.
pub open spec fn first_integer_of(v: Seq<ResourceV>) -> Option<i64>
    decreases v.len(),
{
    if v.len() == 0 {
        None
    } else if v[0] is Integer {
        Some(v[0]->Integer_0)
    } else {
        first_integer_of(v.drop_first())
    }
}

/// The text of the first string value in language `l`, or of the first URI.
pub open spec fn first_literal_in_lang(v: Seq<ResourceV>, l: Lang) -> Option<Seq<char>>
    decreases v.len(),
{
    if v.len() == 0 {
        None
    } else {
        match v[0] {
            ResourceV::Uri(s) => Some(s),
            ResourceV::Str(s, l2) => if l2 == l {
                Some(s)
            } else {
                first_literal_in_lang(v.drop_first(), l)
            },
            _ => first_literal_in_lang(v.drop_first(), l),
        }
    }
}

impl IndividualV {
    pub open spec fn values(self, pred: Seq<char>) -> Seq<ResourceV> {
        if self.props.contains_key(pred) {
            self.props[pred]
        } else {
            Seq::empty()
        }
    }

    pub open spec fn first_literal(self, pred: Seq<char>) -> Option<Seq<char>> {
        first_literal_of(self.values(pred))
    }

    pub open spec fn literals(self, pred: Seq<char>) -> Option<Seq<Seq<char>>> {
        if self.props.contains_key(pred) {
            Some(literals_of(self.props[pred]))
        } else {
            None
        }
    }

    pub open spec fn first_integer(self, pred: Seq<char>) -> Option<i64> {
        first_integer_of(self.values(pred))
    }

    /// Some URI or string value of `pred` has one of the texts `texts`.
    pub open spec fn any_exists(self, pred: Seq<char>, texts: Seq<Seq<char>>) -> bool {
        exists|i: int|
            0 <= i < self.values(pred).len() && #[trigger] literal_text(self.values(pred)[i]) is Some
                && texts.contains(literal_text(self.values(pred)[i])->0)
    }

    /// `self` with `pred` holding exactly `vals`.
    pub open spec fn with(self, pred: Seq<char>, vals: Seq<ResourceV>) -> IndividualV {
        IndividualV { id: self.id, props: self.props.insert(pred, vals) }
    }

    /// `self` with `v` appended to the values of `pred`.
    pub open spec fn with_added(self, pred: Seq<char>, v: ResourceV) -> IndividualV {
        self.with(pred, self.values(pred).push(v))
    }

    /// `self` without `pred`.
    pub open spec fn without(self, pred: Seq<char>) -> IndividualV {
        IndividualV { id: self.id, props: self.props.remove(pred) }
    }
}

/// Some text of `texts` equals `s`.
pub fn contains_text(texts: &[&str], s: &str) -> (r: bool)
    ensures
        r == texts@.map_values(|t: &str| t@).contains(s@),
{
    let ghost tv = texts@.map_values(|t: &str| t@);
    let mut k: usize = 0;
    while k < texts.len()
        invariant
            tv == texts@.map_values(|t: &str| t@),
            k <= texts@.len(),
            forall|m: int| 0 <= m < k ==> tv[m] != s@,
        decreases texts@.len() - k,
    {
        if str_eq(texts[k], s) {
            assert(tv[k as int] == s@);
            return true;
        }
        k = k + 1;
    }
    false
}

impl Resource {
    /// A copy of the value.
    pub fn copy(&self) -> (r: Resource)
        ensures
            r@ == self@,
    {
        match self {
            Resource::Uri(s) => Resource::Uri(copy_string(s)),
            Resource::Str(s, l) => Resource::Str(copy_string(s), *l),
            Resource::Integer(n) => Resource::Integer(*n),
            Resource::Datetime(n) => Resource::Datetime(*n),
            Resource::Decimal(s) => Resource::Decimal(copy_string(s)),
            Resource::Boolean(b) => Resource::Boolean(*b),
        }
    }
}

fn copy_values(v: &Vec<Resource>) -> (r: Vec<Resource>)
    ensures
        res_views(r@) == res_views(v@),
{
    let mut out: Vec<Resource> = Vec::new();
    let mut i: usize = 0;
    while i < v.len()
        invariant
            i <= v@.len(),
            res_views(out@) == res_views(v@.take(i as int)),
        decreases v@.len() - i,
    {
        let ghost o0 = out@;
        out.push(v[i].copy());
        assert(res_views(out@) =~= res_views(o0).push(v@[i as int]@));
        assert(res_views(v@.take(i + 1)) =~= res_views(v@.take(i as int)).push(v@[i as int]@));
        i = i + 1;
    }
    assert(v@.take(v@.len() as int) =~= v@);
    out
}

impl Individual {
    pub fn new() -> (r: Individual)
        ensures
            r@.id == Seq::<char>::empty(),
            r@.props == Map::<Seq<char>, Seq<ResourceV>>::empty(),
    {
        let r = Individual { id: String::new(), resources: Vec::new() };
        assert(r@.props =~= Map::<Seq<char>, Seq<ResourceV>>::empty());
        r
    }

    pub fn with_id(id: &str) -> (r: Individual)
        ensures
            r@.id == id@,
            r@.props == Map::<Seq<char>, Seq<ResourceV>>::empty(),
    {
        let r = Individual { id: str_to_string(id), resources: Vec::new() };
        assert(r@.props =~= Map::<Seq<char>, Seq<ResourceV>>::empty());
        r
    }

    /// A copy of the individual: its id and all its values.
    pub fn copy(&self) -> (r: Individual)
        ensures
            r@ == self@,
    {
        let mut out: Vec<(String, Vec<Resource>)> = Vec::new();
        let mut i: usize = 0;
        while i < self.resources.len()
            invariant
                i <= self.resources@.len(),
                ents(out@) == ents(self.resources@.take(i as int)),
            decreases self.resources@.len() - i,
        {
            let ghost o0 = out@;
            let k = copy_string(&self.resources[i].0);
            let vals = copy_values(&self.resources[i].1);
            out.push((k, vals));
            assert(ents(out@) =~= ents(o0).push((self.resources@[i as int].0@, res_views(self.resources@[i as int].1@))));
            assert(ents(self.resources@.take(i + 1)) =~= ents(self.resources@.take(i as int)).push(
                (self.resources@[i as int].0@, res_views(self.resources@[i as int].1@)),
            ));
            i = i + 1;
        }
        assert(self.resources@.take(self.resources@.len() as int) =~= self.resources@);
        Individual { id: copy_string(&self.id), resources: out }
    }

    pub fn set_id(&mut self, id: &str)
        ensures
            final(self)@.id == id@,
            final(self)@.props == old(self)@.props,
    {
        self.id = str_to_string(id);
    }

    pub fn get_id(&self) -> (r: &str)
        ensures
            r@ == self@.id,
    {
        self.id.as_str()
    }

    /// Index of the entry for `pred`.
    fn find(&self, pred: &str) -> (r: Option<usize>)
        ensures
            match r {
                Some(i) => first_index(ents(self.resources@), pred@, i as int),
                None => no_key(ents(self.resources@), pred@),
            },
    {
        let mut i: usize = 0;
        while i < self.resources.len()
            invariant
                i <= self.resources@.len(),
                forall|j: int| 0 <= j < i ==> ents(self.resources@)[j].0 != pred@,
            decreases self.resources@.len() - i,
        {
            if str_eq(self.resources[i].0.as_str(), pred) {
                return Some(i);
            }
            i = i + 1;
        }
        None
    }

    /// The values of `pred`, empty when it has none.
    pub fn values(&self, pred: &str) -> (r: &[Resource])
        ensures
            res_views(r@) == self@.values(pred@),
    {
        match self.find(pred) {
            Some(i) => {
                proof {
                    lemma_kv_get_first(ents(self.resources@), pred@, i as int);
                }
                self.resources[i].1.as_slice()
            },
            None => {
                proof {
                    lemma_kv_get_none(ents(self.resources@), pred@);
                }
                assert(res_views(Seq::<Resource>::empty()) =~= Seq::<ResourceV>::empty());
                &[]
            },
        }
    }

    /// Gives `pred` exactly the values `vals`.
    pub fn put_values(&mut self, pred: &str, vals: Vec<Resource>)
        ensures
            final(self)@ == old(self)@.with(pred@, res_views(vals@)),
    {
        let ghost e0 = ents(self.resources@);
        match self.find(pred) {
            Some(i) => {
                let p = (str_to_string(pred), vals);
                self.resources.set(i, p);
                proof {
                    lemma_kv_update_first(e0, pred@, i as int, res_views(vals@));
                    assert(ents(self.resources@) =~= e0.update(i as int, (pred@, res_views(vals@))));
                    assert(self@.props =~= old(self)@.props.insert(pred@, res_views(vals@)));
                }
            },
            None => {
                let p = (str_to_string(pred), vals);
                self.resources.push(p);
                proof {
                    lemma_kv_push_new(e0, pred@, res_views(vals@));
                    assert(ents(self.resources@) =~= e0.push((pred@, res_views(vals@))));
                }
            },
        }
    }

    /// Appends `r` to the values of `pred`.
    pub fn add_resource(&mut self, pred: &str, r: Resource)
        ensures
            final(self)@ == old(self)@.with_added(pred@, r@),
    {
        let ghost e0 = ents(self.resources@);
        let ghost rv = r@;
        match self.find(pred) {
            Some(i) => {
                proof {
                    lemma_kv_get_first(e0, pred@, i as int);
                }
                let mut vals = self.take_values(i);
                let ghost old_vals = vals@;
                proof {
                    lemma_kv_update_first(e0, pred@, i as int, Seq::<ResourceV>::empty());
                }
                vals.push(r);
                assert(res_views(vals@) =~= res_views(old_vals).push(rv));
                self.put_values(pred, vals);
                assert(self@.props =~= old(self)@.props.insert(pred@, res_views(old_vals).push(rv)));
            },
            None => {
                proof {
                    lemma_kv_get_none(e0, pred@);
                }
                let mut vals: Vec<Resource> = Vec::new();
                vals.push(r);
                assert(res_views(vals@) =~= Seq::<ResourceV>::empty().push(rv));
                self.put_values(pred, vals);
            },
        }
    }

    /// Moves the values out of entry `i`, leaving it empty.
    fn take_values(&mut self, i: usize) -> (r: Vec<Resource>)
        requires
            i < old(self).resources@.len(),
        ensures
            r@ == old(self).resources@[i as int].1@,
            final(self).id == old(self).id,
            ents(final(self).resources@) == ents(old(self).resources@).update(
                i as int,
                (ents(old(self).resources@)[i as int].0, Seq::<ResourceV>::empty()),
            ),
    {
        let ghost e = ents(self.resources@);
        let key = self.resources[i].0.clone();
        let mut p = (key, Vec::new());
        std::mem::swap(&mut p, &mut self.resources[i]);
        assert(res_views(Seq::<Resource>::empty()) =~= Seq::<ResourceV>::empty());
        assert(ents(self.resources@) =~= e.update(i as int, (e[i as int].0, Seq::<ResourceV>::empty())));
        p.1
    }

    /// Removes every value of `pred`.
    pub fn remove(&mut self, pred: &str)
        ensures
            final(self)@ == old(self)@.without(pred@),
    {
        loop
            invariant
                self.id == old(self).id,
                kv_map(ents(self.resources@)).remove(pred@) == kv_map(ents(old(self).resources@)).remove(
                    pred@,
                ),
            decreases self.resources@.len(),
        {
            match self.find(pred) {
                Some(i) => {
                    let ghost e = ents(self.resources@);
                    proof {
                        lemma_kv_remove_entry(e, i as int);
                    }
                    self.resources.remove(i);
                    assert(ents(self.resources@) =~= e.remove(i as int));
                },
                None => {
                    proof {
                        lemma_kv_map_no_key(ents(self.resources@), pred@);
                    }
                    return ;
                },
            }
        }
    }

    pub fn set_uri(&mut self, pred: &str, val: &str)
        ensures
            final(self)@ == old(self)@.with(pred@, seq![ResourceV::Uri(val@)]),
    {
        let mut v: Vec<Resource> = Vec::new();
        v.push(Resource::Uri(str_to_string(val)));
        assert(res_views(v@) =~= seq![ResourceV::Uri(val@)]);
        self.put_values(pred, v);
    }

    pub fn add_uri(&mut self, pred: &str, val: &str)
        ensures
            final(self)@ == old(self)@.with_added(pred@, ResourceV::Uri(val@)),
    {
        self.add_resource(pred, Resource::Uri(str_to_string(val)));
    }

    pub fn set_uris(&mut self, pred: &str, vals: &Vec<String>)
        ensures
            final(self)@ == old(self)@.with(
                pred@,
                vals@.map_values(|s: String| ResourceV::Uri(s@)),
            ),
    {
        let mut v: Vec<Resource> = Vec::new();
        let mut i: usize = 0;
        while i < vals.len()
            invariant
                i <= vals@.len(),
                res_views(v@) == vals@.take(i as int).map_values(|s: String| ResourceV::Uri(s@)),
            decreases vals@.len() - i,
        {
            let ghost v0 = v@;
            let s = vals[i].clone();
            v.push(Resource::Uri(s));
            assert(res_views(v@) =~= res_views(v0).push(ResourceV::Uri(vals@[i as int]@)));
            assert(vals@.take(i + 1).map_values(|s: String| ResourceV::Uri(s@)) =~= vals@.take(
                i as int,
            ).map_values(|s: String| ResourceV::Uri(s@)).push(ResourceV::Uri(vals@[i as int]@)));
            i = i + 1;
        }
        assert(vals@.take(vals@.len() as int) =~= vals@);
        self.put_values(pred, v);
    }

    pub fn set_string(&mut self, pred: &str, val: &str, lang: Lang)
        ensures
            final(self)@ == old(self)@.with(pred@, seq![ResourceV::Str(val@, lang)]),
    {
        let mut v: Vec<Resource> = Vec::new();
        v.push(Resource::Str(str_to_string(val), lang));
        assert(res_views(v@) =~= seq![ResourceV::Str(val@, lang)]);
        self.put_values(pred, v);
    }

    pub fn add_string(&mut self, pred: &str, val: &str, lang: Lang)
        ensures
            final(self)@ == old(self)@.with_added(pred@, ResourceV::Str(val@, lang)),
    {
        self.add_resource(pred, Resource::Str(str_to_string(val), lang));
    }

    pub fn set_integer(&mut self, pred: &str, val: i64)
        ensures
            final(self)@ == old(self)@.with(pred@, seq![ResourceV::Integer(val)]),
    {
        let mut v: Vec<Resource> = Vec::new();
        v.push(Resource::Integer(val));
        assert(res_views(v@) =~= seq![ResourceV::Integer(val)]);
        self.put_values(pred, v);
    }

    pub fn add_integer(&mut self, pred: &str, val: i64)
        ensures
            final(self)@ == old(self)@.with_added(pred@, ResourceV::Integer(val)),
    {
        self.add_resource(pred, Resource::Integer(val));
    }

    pub fn set_datetime(&mut self, pred: &str, val: i64)
        ensures
            final(self)@ == old(self)@.with(pred@, seq![ResourceV::Datetime(val)]),
    {
        let mut v: Vec<Resource> = Vec::new();
        v.push(Resource::Datetime(val));
        assert(res_views(v@) =~= seq![ResourceV::Datetime(val)]);
        self.put_values(pred, v);
    }

    pub fn set_decimal(&mut self, pred: &str, val: &str)
        ensures
            final(self)@ == old(self)@.with(pred@, seq![ResourceV::Decimal(val@)]),
    {
        let mut v: Vec<Resource> = Vec::new();
        v.push(Resource::Decimal(str_to_string(val)));
        assert(res_views(v@) =~= seq![ResourceV::Decimal(val@)]);
        self.put_values(pred, v);
    }

    pub fn add_decimal(&mut self, pred: &str, val: &str)
        ensures
            final(self)@ == old(self)@.with_added(pred@, ResourceV::Decimal(val@)),
    {
        self.add_resource(pred, Resource::Decimal(str_to_string(val)));
    }

    /// `pred` has an entry.
    pub fn is_exists(&self, pred: &str) -> (r: bool)
        ensures
            r == self@.props.contains_key(pred@),
    {
        match self.find(pred) {
            Some(i) => {
                proof {
                    lemma_kv_get_first(ents(self.resources@), pred@, i as int);
                }
                true
            },
            None => {
                proof {
                    lemma_kv_get_none(ents(self.resources@), pred@);
                }
                false
            },
        }
    }

    pub fn get_first_literal(&self, pred: &str) -> (r: Option<String>)
        ensures
            match r {
                Some(s) => self@.first_literal(pred@) == Some(s@),
                None => self@.first_literal(pred@) is None,
            },
    {
        let vals = self.values(pred);
        let ghost vv = res_views(vals@);
        let mut i: usize = 0;
        assert(vv.skip(0) =~= vv);
        while i < vals.len()
            invariant
                vv == res_views(vals@),
                vv == self@.values(pred@),
                i <= vals@.len(),
                first_literal_of(vv) == first_literal_of(vv.skip(i as int)),
            decreases vals@.len() - i,
        {
            assert(vv.skip(i as int).drop_first() =~= vv.skip(i + 1));
            assert(vv.skip(i as int)[0] == vals@[i as int]@);
            match &vals[i] {
                Resource::Uri(s) => {
                    return Some(s.clone());
                },
                Resource::Str(s, _) => {
                    return Some(s.clone());
                },
                _ => {},
            }
            i = i + 1;
        }
        None
    }

    /// The text of the first string value in language `lang`, or of the first URI.
    pub fn get_first_literal_with_lang(&self, pred: &str, lang: Lang) -> (r: Option<String>)
        ensures
            match r {
                Some(s) => first_literal_in_lang(self@.values(pred@), lang) == Some(s@),
                None => first_literal_in_lang(self@.values(pred@), lang) is None,
            },
    {
        let vals = self.values(pred);
        let ghost vv = res_views(vals@);
        let mut i: usize = 0;
        assert(vv.skip(0) =~= vv);
        while i < vals.len()
            invariant
                vv == res_views(vals@),
                vv == self@.values(pred@),
                i <= vals@.len(),
                first_literal_in_lang(vv, lang) == first_literal_in_lang(vv.skip(i as int), lang),
            decreases vals@.len() - i,
        {
            assert(vv.skip(i as int).drop_first() =~= vv.skip(i + 1));
            assert(vv.skip(i as int)[0] == vals@[i as int]@);
            match &vals[i] {
                Resource::Uri(s) => {
                    return Some(s.clone());
                },
                Resource::Str(s, l) => {
                    if *l == lang {
                        return Some(s.clone());
                    }
                },
                _ => {},
            }
            i = i + 1;
        }
        None
    }

    pub fn get_literals(&self, pred: &str) -> (r: Option<Vec<String>>)
        ensures
            match r {
                Some(v) => self@.literals(pred@) == Some(v@.map_values(|s: String| s@)),
                None => self@.literals(pred@) is None,
            },
    {
        if !self.is_exists(pred) {
            return None;
        }
        let vals = self.values(pred);
        let ghost vv = res_views(vals@);
        let mut out: Vec<String> = Vec::new();
        let mut i: usize = 0;
        while i < vals.len()
            invariant
                vv == res_views(vals@),
                i <= vals@.len(),
                out@.map_values(|s: String| s@) == literals_of(vv.take(i as int)),
            decreases vals@.len() - i,
        {
            assert(vv.take(i + 1).drop_last() =~= vv.take(i as int));
            assert(vv.take(i + 1).last() == vals@[i as int]@);
            match &vals[i] {
                Resource::Uri(s) => {
                    out.push(s.clone());
                },
                Resource::Str(s, _) => {
                    out.push(s.clone());
                },
                _ => {},
            }
            i = i + 1;
            assert(out@.map_values(|s: String| s@) =~= literals_of(vv.take(i as int)));
        }
        assert(vv.take(vals@.len() as int) =~= vv);
        Some(out)
    }

    pub fn get_first_integer(&self, pred: &str) -> (r: Option<i64>)
        ensures
            r == self@.first_integer(pred@),
    {
        let vals = self.values(pred);
        let ghost vv = res_views(vals@);
        let mut i: usize = 0;
        assert(vv.skip(0) =~= vv);
        while i < vals.len()
            invariant
                vv == res_views(vals@),
                vv == self@.values(pred@),
                i <= vals@.len(),
                first_integer_of(vv) == first_integer_of(vv.skip(i as int)),
            decreases vals@.len() - i,
        {
            assert(vv.skip(i as int).drop_first() =~= vv.skip(i + 1));
            assert(vv.skip(i as int)[0] == vals@[i as int]@);
            match &vals[i] {
                Resource::Integer(n) => {
                    return Some(*n);
                },
                _ => {},
            }
            i = i + 1;
        }
        None
    }

    /// Some URI or string value of `pred` equals one of `texts`.
    pub fn any_exists(&self, pred: &str, texts: &[&str]) -> (r: bool)
        ensures
            r == self@.any_exists(pred@, texts@.map_values(|t: &str| t@)),
    {
        let vals = self.values(pred);
        let ghost vv = res_views(vals@);
        let ghost tv = texts@.map_values(|t: &str| t@);
        let mut i: usize = 0;
        while i < vals.len()
            invariant
                vv == res_views(vals@),
                vv == self@.values(pred@),
                tv == texts@.map_values(|t: &str| t@),
                i <= vals@.len(),
                forall|j: int|
                    0 <= j < i ==> !(#[trigger] literal_text(vv[j]) is Some && tv.contains(
                        literal_text(vv[j])->0,
                    )),
            decreases vals@.len() - i,
        {
            assert(vv[i as int] == vals@[i as int]@);
            let t: Option<&String> = match &vals[i] {
                Resource::Uri(s) => Some(s),
                Resource::Str(s, _) => Some(s),
                _ => None,
            };
            if let Some(s) = t {
                if contains_text(texts, s.as_str()) {
                    assert(literal_text(vv[i as int]) == Some(s@));
                    return true;
                }
            }
            i = i + 1;
        }
        false
    }
}


/// What a read gives back of a write: after a predicate's values are set, it reads as exactly
/// those values; after a value is added, as the old values and the new one; after it is
/// removed, as no value; and every other predicate reads as before.
pub proof fn law_read_after_write(
    ind: IndividualV,
    pred: Seq<char>,
    vals: Seq<ResourceV>,
    v: ResourceV,
    other: Seq<char>,
)
    requires
        other != pred,
    ensures
        ind.with(pred, vals).values(pred) == vals,
        ind.with(pred, vals).values(other) == ind.values(other),
        ind.with_added(pred, v).values(pred) == ind.values(pred).push(v),
        ind.with_added(pred, v).values(other) == ind.values(other),
        ind.without(pred).values(pred) == Seq::<ResourceV>::empty(),
        ind.without(pred).values(other) == ind.values(other),
        ind.with(pred, vals).id == ind.id,
        ind.without(pred).id == ind.id,
{
}

/// A string or URI just set is the first literal read back.
pub proof fn law_first_literal_after_set(ind: IndividualV, pred: Seq<char>, text: Seq<char>, lang: Lang)
    ensures
        ind.with(pred, seq![ResourceV::Str(text, lang)]).first_literal(pred) == Some(text),
        ind.with(pred, seq![ResourceV::Uri(text)]).first_literal(pred) == Some(text),
{
    assert(ind.with(pred, seq![ResourceV::Str(text, lang)]).values(pred) == seq![ResourceV::Str(text, lang)]);
    assert(ind.with(pred, seq![ResourceV::Uri(text)]).values(pred) == seq![ResourceV::Uri(text)]);
}

} // verus!
