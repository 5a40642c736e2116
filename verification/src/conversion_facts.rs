//! Shortening an object's predicate names for the AI and turning them back with the mapping
//! that recorded them gives back the object.
use vstd::prelude::*;
use crate::common::{conv_full, conv_short, shorten_entries, value_to_short, value_to_full, to_display, to_uri, display_for, full_of};
use crate::json::{JsonV, obj_insert};
use crate::kv::{kv_get, kv_map, first_index, no_key, lemma_kv_get_push, lemma_kv_get_some, lemma_kv_get_first, lemma_kv_get_none};
use crate::mapping::keys_unique;
use crate::text::{split_once_spec, lemma_split_once_at};

verus! {

/// The short name of a predicate: the text after its last `:`.
pub open spec fn short_of(k: Seq<char>) -> Seq<char> {
    crate::text::after_last(k, ':')
}

/// A text value of a predicate with short name `short` comes back from what it shows as:
/// where the mapping gives `u` a display value `d`, it maps `short*d` to `u`; where it gives
/// none, it has no key `short*u`.
pub open spec fn text_returns(pes: Seq<(Seq<char>, Seq<char>)>, short: Seq<char>, u: Seq<char>) -> bool {
    match display_for(pes, u) {
        Some(d) => kv_get(pes, short + "*"@ + d) == Some(u),
        None => kv_get(pes, short + "*"@ + u) is None,
    }
}

/// Each text of the value, alone or in an array, comes back from what it shows as.
pub open spec fn value_returns(pes: Seq<(Seq<char>, Seq<char>)>, short: Seq<char>, v: JsonV) -> bool {
    match v {
        JsonV::Str(u) => text_returns(pes, short, u),
        JsonV::Array(items) => forall|k: int| 0 <= k < items.len() ==> (#[trigger] items[k] matches JsonV::Str(u) ==> text_returns(pes, short, u)),
        _ => true,
    }
}

/// The entries have pairwise different short names, none with a `*`; the mapping maps none
/// of these short names to another full name; and each text value comes back from what it
/// shows as.
pub open spec fn convertible(es: Seq<(Seq<char>, JsonV)>, pes: Seq<(Seq<char>, Seq<char>)>) -> bool {
    &&& forall|i: int, j: int| #![trigger es[i], es[j]] 0 <= i < j < es.len() ==> short_of(es[i].0) != short_of(es[j].0)
    &&& forall|i: int| #![trigger es[i]] 0 <= i < es.len() ==> !short_of(es[i].0).contains('*')
    &&& forall|i: int| #![trigger es[i]] 0 <= i < es.len() ==> (kv_get(pes, short_of(es[i].0)) is None
        || kv_get(pes, short_of(es[i].0)) == Some(es[i].0))
    &&& forall|i: int| #![trigger es[i]] 0 <= i < es.len() ==> value_returns(pes, short_of(es[i].0), es[i].1)
}

/// The entries as conversion shows them: each key replaced by its short name, each value's
/// URIs by their display values.
pub open spec fn shown(es: Seq<(Seq<char>, JsonV)>, pes: Seq<(Seq<char>, Seq<char>)>) -> Seq<(Seq<char>, JsonV)> {
    es.map_values(|e: (Seq<char>, JsonV)| (short_of(e.0), value_to_short(pes, e.1)))
}

/// `k` is the short name of one of the entries.
pub open spec fn among_shorts(es: Seq<(Seq<char>, JsonV)>, k: Seq<char>) -> bool {
    exists|i: int| 0 <= i < es.len() && #[trigger] short_of(es[i].0) == k
}

/// What a mapping `q` that grew from `pes` by the entries' short names keeps.
pub open spec fn grew_from(q: Seq<(Seq<char>, Seq<char>)>, pes: Seq<(Seq<char>, Seq<char>)>, es: Seq<(Seq<char>, JsonV)>) -> bool {
    &&& forall|k: Seq<char>| kv_get(pes, k) is Some ==> #[trigger] kv_get(q, k) == kv_get(pes, k)
    &&& forall|k: Seq<char>| #[trigger] kv_get(q, k) is Some ==> kv_get(pes, k) is Some || among_shorts(es, k)
    &&& forall|i: int| #![trigger es[i]] 0 <= i < es.len() ==> kv_get(q, short_of(es[i].0)) == Some(es[i].0)
}

proof fn lemma_split_none(t: Seq<char>, c: char)
    requires
        !t.contains(c),
    ensures
        split_once_spec(t, c) is None,
    decreases t.len(),
{
    if t.len() > 0 {
        assert(t[0] != c);
        assert forall|i: int| 0 <= i < t.drop_first().len() implies t.drop_first()[i] != c by {
            assert(t.drop_first()[i] == t[i + 1]);
        }
        lemma_split_none(t.drop_first(), c);
    }
}

proof fn lemma_obj_insert_absent(e: Seq<(Seq<char>, JsonV)>, k: Seq<char>, v: JsonV)
    requires
        forall|i: int| #![trigger e[i]] 0 <= i < e.len() ==> e[i].0 != k,
    ensures
        obj_insert(e, k, v) == e.push((k, v)),
    decreases e.len(),
{
    if e.len() > 0 {
        let rest = e.drop_first();
        assert forall|i: int| #![trigger rest[i]] 0 <= i < rest.len() implies rest[i].0 != k by {
            assert(rest[i] == e[i + 1]);
        }
        lemma_obj_insert_absent(rest, k, v);
        assert(seq![e[0]] + rest.push((k, v)) =~= e.push((k, v)));
    }
}

#[verifier::spinoff_prover]
proof fn lemma_display_push(p: Seq<(Seq<char>, Seq<char>)>, e: (Seq<char>, Seq<char>), u: Seq<char>)
    requires
        !e.0.contains('*'),
    ensures
        display_for(p.push(e), u) == display_for(p, u),
    decreases p.len(),
{
    let q = p.push(e);
    if p.len() == 0 {
        lemma_split_none(e.0, '*');
        assert(q[0] == e);
        assert(q.drop_first() =~= Seq::<(Seq<char>, Seq<char>)>::empty());
        assert(display_for(q.drop_first(), u) is None);
    } else {
        assert(q.drop_first() =~= p.drop_first().push(e));
        assert(q[0] == p[0]);
        lemma_display_push(p.drop_first(), e, u);
        assert(display_for(q.drop_first(), u) == display_for(p.drop_first(), u));
    }
}

proof fn lemma_short_same(p: Seq<(Seq<char>, Seq<char>)>, q: Seq<(Seq<char>, Seq<char>)>, v: JsonV)
    requires
        forall|u: Seq<char>| #[trigger] display_for(q, u) == display_for(p, u),
    ensures
        value_to_short(q, v) == value_to_short(p, v),
{
    match v {
        JsonV::Array(items) => {
            assert forall|i: int| 0 <= i < items.len() implies #[trigger] to_display(q, items[i]) == to_display(p, items[i]) by {
                if items[i] is Str {
                    assert(display_for(q, items[i]->Str_0) == display_for(p, items[i]->Str_0));
                }
            }
            assert(items.map_values(|x: JsonV| to_display(q, x)) =~= items.map_values(|x: JsonV| to_display(p, x)));
        },
        JsonV::Str(u) => {
            assert(display_for(q, u) == display_for(p, u));
        },
        _ => {},
    }
}

proof fn lemma_front_convertible(es: Seq<(Seq<char>, JsonV)>, pes: Seq<(Seq<char>, Seq<char>)>)
    requires
        es.len() > 0,
        convertible(es, pes),
    ensures
        convertible(es.drop_last(), pes),
{
    let f = es.drop_last();
    assert forall|i: int| #![trigger f[i]] 0 <= i < f.len() implies f[i] == es[i] by {}
    assert forall|i: int, j: int| #![trigger f[i], f[j]] 0 <= i < j < f.len() implies short_of(f[i].0) != short_of(f[j].0) by {
        assert(f[i] == es[i] && f[j] == es[j]);
    }
}

/// Converting to short names shows each entry, and the mapping grows only by the entries'
/// short names, each with its own full name, leaving display values as they were.
proof fn lemma_forward(es: Seq<(Seq<char>, JsonV)>, pes: Seq<(Seq<char>, Seq<char>)>)
    requires
        convertible(es, pes),
    ensures
        conv_full(es, pes).0 == shown(es, pes),
        grew_from(conv_full(es, pes).1, pes, es),
        forall|u: Seq<char>| #[trigger] display_for(conv_full(es, pes).1, u) == display_for(pes, u),
    decreases es.len(),
{
    if es.len() == 0 {
        assert(shown(es, pes) =~= Seq::<(Seq<char>, JsonV)>::empty());
    } else {
        let front = es.drop_last();
        let n = es.len() - 1;
        lemma_front_convertible(es, pes);
        lemma_forward(front, pes);
        let prev = conv_full(front, pes);
        let full = es.last().0;
        let short = short_of(full);
        assert(es.last() == es[n]);
        assert forall|i: int| #![trigger front[i]] 0 <= i < front.len() implies front[i] == es[i] by {}
        let p2 = shorten_entries(prev.1, full);
        if kv_get(prev.1, short) is Some {
            if kv_get(pes, short) is None {
                assert(among_shorts(front, short));
                let j = choose|j: int| 0 <= j < front.len() && #[trigger] short_of(front[j].0) == short;
                assert(front[j] == es[j]);
                assert(false);
            }
            assert(p2 == prev.1);
            assert forall|k: Seq<char>| #[trigger] kv_get(p2, k) is Some implies kv_get(pes, k) is Some || among_shorts(es, k) by {
                if !(kv_get(pes, k) is Some) {
                    assert(among_shorts(front, k));
                    let j = choose|j: int| 0 <= j < front.len() && #[trigger] short_of(front[j].0) == k;
                    assert(front[j] == es[j]);
                }
            }
            assert forall|i: int| #![trigger es[i]] 0 <= i < es.len() implies kv_get(p2, short_of(es[i].0)) == Some(es[i].0) by {
                if i < n {
                    assert(front[i] == es[i]);
                }
            }
        } else {
            assert(p2 == prev.1.push((short, full)));
            assert forall|k: Seq<char>| true implies #[trigger] kv_get(p2, k) == (if kv_get(prev.1, k) is Some {
                kv_get(prev.1, k)
            } else if short == k {
                Some(full)
            } else {
                None::<Seq<char>>
            }) by {
                lemma_kv_get_push(prev.1, (short, full), k);
            }
            assert forall|k: Seq<char>| kv_get(pes, k) is Some implies #[trigger] kv_get(p2, k) == kv_get(pes, k) by {
                assert(kv_get(prev.1, k) == kv_get(pes, k));
            }
            assert forall|k: Seq<char>| #[trigger] kv_get(p2, k) is Some implies kv_get(pes, k) is Some || among_shorts(es, k) by {
                if kv_get(prev.1, k) is Some {
                    if !(kv_get(pes, k) is Some) {
                        assert(among_shorts(front, k));
                        let j = choose|j: int| 0 <= j < front.len() && #[trigger] short_of(front[j].0) == k;
                        assert(front[j] == es[j]);
                    }
                } else {
                    assert(short_of(es[n].0) == k);
                }
            }
            assert forall|i: int| #![trigger es[i]] 0 <= i < es.len() implies kv_get(p2, short_of(es[i].0)) == Some(es[i].0) by {
                if i < n {
                    assert(front[i] == es[i]);
                    assert(kv_get(prev.1, short_of(front[i].0)) == Some(front[i].0));
                }
            }
            assert forall|u: Seq<char>| #[trigger] display_for(p2, u) == display_for(pes, u) by {
                lemma_display_push(prev.1, (short, full), u);
                assert(display_for(prev.1, u) == display_for(pes, u));
            }
        }
        assert(forall|u: Seq<char>| #[trigger] display_for(p2, u) == display_for(pes, u));
        lemma_short_same(pes, p2, es.last().1);
        let sf = shown(front, pes);
        assert forall|i: int| #![trigger sf[i]] 0 <= i < sf.len() implies sf[i].0 != short by {
            assert(front[i] == es[i]);
        }
        lemma_obj_insert_absent(sf, short, value_to_short(pes, es.last().1));
        assert(sf.push((short, value_to_short(pes, es.last().1))) =~= shown(es, pes));
    }
}

proof fn lemma_star_key(es: Seq<(Seq<char>, JsonV)>, pes: Seq<(Seq<char>, Seq<char>)>, q: Seq<(Seq<char>, Seq<char>)>, k: Seq<char>)
    requires
        convertible(es, pes),
        grew_from(q, pes, es),
        k.contains('*'),
    ensures
        kv_get(q, k) == kv_get(pes, k),
{
    if kv_get(pes, k) is None && kv_get(q, k) is Some {
        assert(among_shorts(es, k));
        let j = choose|j: int| 0 <= j < es.len() && #[trigger] short_of(es[j].0) == k;
        assert(!short_of(es[j].0).contains('*'));
    }
}

proof fn lemma_text_back(es: Seq<(Seq<char>, JsonV)>, pes: Seq<(Seq<char>, Seq<char>)>, q: Seq<(Seq<char>, Seq<char>)>, short: Seq<char>, u: Seq<char>)
    requires
        convertible(es, pes),
        grew_from(q, pes, es),
        text_returns(pes, short, u),
    ensures
        to_uri(kv_map(q), short, to_display(pes, JsonV::Str(u))) == JsonV::Str(u),
{
    reveal_strlit("*");
    let shown_as = match display_for(pes, u) {
        Some(d) => d,
        None => u,
    };
    let key = short + "*"@ + shown_as;
    assert(key[short.len() as int] == '*');
    lemma_star_key(es, pes, q, key);
}

proof fn lemma_value_back(es: Seq<(Seq<char>, JsonV)>, pes: Seq<(Seq<char>, Seq<char>)>, q: Seq<(Seq<char>, Seq<char>)>, short: Seq<char>, v: JsonV)
    requires
        convertible(es, pes),
        grew_from(q, pes, es),
        value_returns(pes, short, v),
    ensures
        value_to_full(kv_map(q), short, value_to_short(pes, v)) == v,
{
    match v {
        JsonV::Array(items) => {
            let pm = kv_map(q);
            let shown_items = items.map_values(|x: JsonV| to_display(pes, x));
            assert forall|i: int| 0 <= i < items.len() implies #[trigger] to_uri(pm, short, shown_items[i]) == items[i] by {
                if items[i] is Str {
                    lemma_text_back(es, pes, q, short, items[i]->Str_0);
                }
            }
            assert(shown_items.map_values(|x: JsonV| to_uri(pm, short, x)) =~= items);
        },
        JsonV::Str(u) => {
            lemma_text_back(es, pes, q, short, u);
        },
        _ => {},
    }
}

proof fn lemma_backward(es: Seq<(Seq<char>, JsonV)>, pes: Seq<(Seq<char>, Seq<char>)>, q: Seq<(Seq<char>, Seq<char>)>, n: int)
    requires
        convertible(es, pes),
        grew_from(q, pes, es),
        0 <= n <= es.len(),
    ensures
        conv_short(shown(es.take(n), pes), kv_map(q)) == es.take(n),
    decreases n,
{
    let pm = kv_map(q);
    if n == 0 {
        assert(shown(es.take(0), pes) =~= Seq::<(Seq<char>, JsonV)>::empty());
        assert(es.take(0) =~= Seq::<(Seq<char>, JsonV)>::empty());
    } else {
        lemma_backward(es, pes, q, n - 1);
        let s = shown(es.take(n), pes);
        assert(s.drop_last() =~= shown(es.take(n - 1), pes));
        let e = es[n - 1];
        assert(s.last() == (short_of(e.0), value_to_short(pes, e.1)));
        assert(kv_get(q, short_of(e.0)) == Some(e.0));
        assert(full_of(pm, short_of(e.0)) == e.0);
        lemma_value_back(es, pes, q, short_of(e.0), e.1);
        let front = es.take(n - 1);
        assert forall|i: int| #![trigger front[i]] 0 <= i < front.len() implies front[i].0 != e.0 by {
            assert(front[i] == es[i]);
        }
        lemma_obj_insert_absent(front, e.0, e.1);
        assert(front.push((e.0, e.1)) =~= es.take(n));
    }
}

proof fn lemma_split_some_has(t: Seq<char>, c: char)
    requires
        split_once_spec(t, c) is Some,
    ensures
        t.contains(c),
{
    if !t.contains(c) {
        lemma_split_none(t, c);
    }
}

proof fn lemma_display_found(pes: Seq<(Seq<char>, Seq<char>)>, u: Seq<char>, key: Seq<char>, d: Seq<char>, i: int)
    requires
        0 <= i < pes.len(),
        pes[i] == (key, u),
        split_once_spec(key, '*') == Some((key.take(key.len() - d.len() - 1), d)),
        forall|j: int| #![trigger pes[j]] 0 <= j < pes.len() && pes[j].1 == u && pes[j].0.contains('*') ==> pes[j].0 == key,
    ensures
        display_for(pes, u) == Some(d),
    decreases pes.len(),
{
    if pes[0].1 == u && split_once_spec(pes[0].0, '*') is Some {
        lemma_split_some_has(pes[0].0, '*');
        assert(pes[0].0 == key);
    } else {
        if i == 0 {
            assert(false);
        }
        let rest = pes.drop_first();
        assert(rest[i - 1] == pes[i]);
        assert forall|j: int| #![trigger rest[j]] 0 <= j < rest.len() && rest[j].1 == u && rest[j].0.contains('*') implies rest[j].0 == key by {
            assert(rest[j] == pes[j + 1]);
        }
        lemma_display_found(rest, u, key, d, i - 1);
    }
}

proof fn lemma_display_absent(pes: Seq<(Seq<char>, Seq<char>)>, u: Seq<char>)
    requires
        forall|j: int| #![trigger pes[j]] 0 <= j < pes.len() && pes[j].1 == u ==> !pes[j].0.contains('*'),
    ensures
        display_for(pes, u) is None,
    decreases pes.len(),
{
    if pes.len() > 0 {
        if pes[0].1 == u {
            lemma_split_none(pes[0].0, '*');
        }
        let rest = pes.drop_first();
        assert forall|j: int| #![trigger rest[j]] 0 <= j < rest.len() && rest[j].1 == u implies !rest[j].0.contains('*') by {
            assert(rest[j] == pes[j + 1]);
        }
        lemma_display_absent(rest, u);
    }
}

/// The condition on a text value holds where the mapping's keys are unique and its keys
/// that hold a `*` and have the text `u` as value are exactly one key `short*d`; and where
/// there is no such key and no key `short*u`.
pub proof fn lemma_single_display_returns(pes: Seq<(Seq<char>, Seq<char>)>, short: Seq<char>, u: Seq<char>, d: Seq<char>, i: int)
    requires
        keys_unique(pes),
        !short.contains('*'),
        0 <= i < pes.len(),
        pes[i] == (short + "*"@ + d, u),
        forall|j: int| #![trigger pes[j]] 0 <= j < pes.len() && pes[j].1 == u && pes[j].0.contains('*') ==> pes[j].0 == short + "*"@ + d,
    ensures
        text_returns(pes, short, u),
{
    reveal_strlit("*");
    let key = short + "*"@ + d;
    assert forall|j: int| 0 <= j < short.len() implies key[j] != '*' by {
        assert(key[j] == short[j]);
    }
    assert(key[short.len() as int] == '*');
    lemma_split_once_at(key, '*', short.len() as int);
    assert(key.take(short.len() as int) =~= short);
    assert(key.skip(short.len() as int + 1) =~= d);
    lemma_display_found(pes, u, key, d, i);
    assert(first_index(pes, key, i));
    lemma_kv_get_first(pes, key, i);
}

/// The condition on a text value holds where no key of the mapping that holds a `*` has
/// the text `u` as value and there is no key `short*u`.
pub proof fn lemma_no_display_returns(pes: Seq<(Seq<char>, Seq<char>)>, short: Seq<char>, u: Seq<char>)
    requires
        forall|j: int| #![trigger pes[j]] 0 <= j < pes.len() && pes[j].1 == u ==> !pes[j].0.contains('*'),
        no_key(pes, short + "*"@ + u),
    ensures
        text_returns(pes, short, u),
{
    lemma_display_absent(pes, u);
    lemma_kv_get_none(pes, short + "*"@ + u);
}

/// A display value turned into its URI shows as that display value again: where the mapping
/// maps `p*d` to a URI, the predicate `p` holds no `*`, and no other key of the mapping that
/// holds a `*` has that URI as its value, the display value of the URI is `d`.
pub proof fn law_display_round_trip(pes: Seq<(Seq<char>, Seq<char>)>, p: Seq<char>, d: Seq<char>)
    requires
        !p.contains('*'),
        kv_map(pes).contains_key(p + "*"@ + d),
        forall|j: int| #![trigger pes[j]] 0 <= j < pes.len() && pes[j].1 == kv_map(pes)[p + "*"@ + d] && pes[j].0.contains('*')
            ==> pes[j].0 == p + "*"@ + d,
    ensures
        display_for(pes, kv_map(pes)[p + "*"@ + d]) == Some(d),
{
    reveal_strlit("*");
    let key = p + "*"@ + d;
    let u = kv_map(pes)[key];
    lemma_kv_get_some(pes, key);
    let i = choose|i: int| first_index(pes, key, i);
    lemma_kv_get_first(pes, key, i);
    assert(pes[i] == (key, u));
    assert forall|j: int| 0 <= j < p.len() implies key[j] != '*' by {
        assert(key[j] == p[j]);
    }
    assert(key[p.len() as int] == '*');
    lemma_split_once_at(key, '*', p.len() as int);
    assert(key.take(p.len() as int) =~= p);
    assert(key.skip(p.len() as int + 1) =~= d);
    assert(key.len() - d.len() - 1 == p.len());
    lemma_display_found(pes, u, key, d, i);
}

/// Converting an object's entries to short names and then back with the mapping that the
/// conversion left gives back the entries. It holds where the short names differ pairwise and
/// hold no `*`, the mapping maps none of them to another full name, and each text value
/// comes back from what it shows as: where the mapping gives it a display value `d`, it maps
/// `short*d` to the text, and where it gives none, it has no key `short*text` (as where its
/// keys with a `*` and the text as value are exactly one key `short*d`, or none and no key
/// `short*text`: `lemma_single_display_returns`, `lemma_no_display_returns`). On the way,
/// the keys are the short names and the values show their display values.
pub proof fn law_conversion_round_trip(es: Seq<(Seq<char>, JsonV)>, pes: Seq<(Seq<char>, Seq<char>)>)
    requires
        convertible(es, pes),
    ensures
        conv_full(es, pes).0 == shown(es, pes),
        conv_short(conv_full(es, pes).0, kv_map(conv_full(es, pes).1)) == es,
{
    lemma_forward(es, pes);
    lemma_backward(es, pes, conv_full(es, pes).1, es.len() as int);
    assert(es.take(es.len() as int) =~= es);
}

} // verus!
