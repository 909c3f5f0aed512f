use vstd::prelude::*;
use crate::types::{Val, kind_of, TargetType};
use crate::floats::{FloatOp, FloatOut};
use crate::text::{nat_text, int_text, digits_value, all_digits, is_digit, digit_char, parse_int, has_sign};
use crate::casting::{
    cast_spec, cast_items, cast_prim, items_of, ints_of, strs_of, set_entry, group_strings,
    pairs_struct, index_struct, list_to_struct, all_strings,
};
use crate::equality::{val_eq, key_pos, is_first_key, lemma_key_pos_found};
use crate::collections::{insert_spec, remove_spec, set_spec, get_spec};

verus! {

/// Casting a value to its own kind, or to `Any`, gives the value back.
pub proof fn lemma_identity_cast<F: Fn(FloatOp) -> FloatOut>(fl: F, v: Val)
    ensures
        cast_spec(fl, v, kind_of(v)) == Ok::<Val, crate::error::AgoError>(v),
        cast_spec(fl, v, TargetType::Any) == Ok::<Val, crate::error::AgoError>(v),
{
}

proof fn lemma_nat_text(n: nat)
    ensures
        nat_text(n).len() > 0,
        all_digits(nat_text(n)),
        digits_value(nat_text(n)) == n,
    decreases n,
{
    if n < 10 {
        let s = nat_text(n);
        assert(s == seq![digit_char(n as int)]);
        assert((((48 + n) as u8) as char) as u32 == 48 + n);
        assert(s.drop_last() =~= Seq::<char>::empty());
        assert(digits_value(s) == digits_value(s.drop_last()) * 10 + crate::text::digit_value(s.last()));
    } else {
        lemma_nat_text(n / 10);
        let s = nat_text(n);
        let d = (n % 10) as int;
        assert((((48 + d) as u8) as char) as u32 == 48 + d);
        assert(s.drop_last() =~= nat_text(n / 10));
        assert(s.last() == digit_char(d));
        assert(digits_value(s) == digits_value(s.drop_last()) * 10 + crate::text::digit_value(s.last()));
        assert((n / 10) * 10 + n % 10 == n);
    }
}

/// The decimal text of an integer parses back to it.
pub proof fn lemma_int_text_parses(x: i128)
    ensures
        parse_int(int_text(x as int)) == Some(x),
{
    if x < 0 {
        let m = (-x) as nat;
        lemma_nat_text(m);
        let s = int_text(x as int);
        assert(s.drop_first() =~= nat_text(m));
        assert(has_sign(s));
    } else {
        lemma_nat_text(x as nat);
        let s = nat_text(x as nat);
        assert(is_digit(s[0]));
        assert(!has_sign(s));
    }
}

proof fn lemma_cast_items_ok<F: Fn(FloatOp) -> FloatOut>(fl: F, l: Seq<Val>, t: TargetType)
    requires
        forall|i: int| 0 <= i < l.len() ==> #[trigger] cast_prim(fl, l[i], t) is Ok,
    ensures
        cast_items(fl, l, t) == Ok::<Seq<Val>, crate::error::AgoError>(
            Seq::new(l.len(), |i: int| cast_prim(fl, l[i], t)->Ok_0),
        ),
    decreases l.len(),
{
    if l.len() == 0 {
        assert(Seq::new(l.len(), |i: int| cast_prim(fl, l[i], t)->Ok_0) =~= Seq::<Val>::empty());
    } else {
        let p = l.drop_last();
        assert forall|i: int| 0 <= i < p.len() implies #[trigger] cast_prim(fl, p[i], t) is Ok by {
            assert(p[i] == l[i]);
        }
        lemma_cast_items_ok(fl, p, t);
        assert(cast_prim(fl, l.last(), t) is Ok);
        assert(Seq::new(p.len(), |i: int| cast_prim(fl, p[i], t)->Ok_0).push(cast_prim(fl, l.last(), t)->Ok_0)
            =~= Seq::new(l.len(), |i: int| cast_prim(fl, l[i], t)->Ok_0));
    }
}

/// A list of integers cast to a list of strings and back is the same list.
pub proof fn lemma_int_list_round_trip<F: Fn(FloatOp) -> FloatOut>(fl: F, l: Seq<i128>)
    ensures
        cast_spec(fl, Val::IntList(l), TargetType::StringList) is Ok,
        cast_spec(fl, cast_spec(fl, Val::IntList(l), TargetType::StringList)->Ok_0, TargetType::IntList)
            == Ok::<Val, crate::error::AgoError>(Val::IntList(l)),
{
    let items = items_of(Val::IntList(l));
    assert forall|i: int| 0 <= i < items.len() implies #[trigger] cast_prim(fl, items[i], TargetType::String) is Ok by {}
    lemma_cast_items_ok(fl, items, TargetType::String);
    let texts = strs_of(Seq::new(items.len(), |i: int| cast_prim(fl, items[i], TargetType::String)->Ok_0));
    assert(cast_spec(fl, Val::IntList(l), TargetType::StringList) == Ok::<Val, crate::error::AgoError>(Val::StrList(texts)));
    let back = items_of(Val::StrList(texts));
    assert forall|i: int| 0 <= i < back.len() implies #[trigger] cast_prim(fl, back[i], TargetType::Int) == Ok::<Val, crate::error::AgoError>(Val::Int(l[i])) by {
        assert(texts[i] == int_text(l[i] as int));
        lemma_int_text_parses(l[i]);
    }
    lemma_cast_items_ok(fl, back, TargetType::Int);
    assert(ints_of(Seq::new(back.len(), |i: int| cast_prim(fl, back[i], TargetType::Int)->Ok_0)) =~= l);
}

/// Values of different kinds are never equal.
pub proof fn lemma_equality_is_kind_sensitive(a: Val, b: Val)
    requires
        kind_of(a) != kind_of(b),
    ensures
        !val_eq(a, b),
{
}

proof fn lemma_first_occurrence(es: Seq<(Seq<char>, Val)>, k: Seq<char>, t: int)
    requires
        0 <= t < es.len(),
        es[t].0 == k,
    ensures
        key_pos(es, k) >= 0,
    decreases t,
{
    if forall|s: int| 0 <= s < t ==> es[s].0 != k {
        lemma_key_pos_found(es, k, t);
    } else {
        let s = choose|s: int| 0 <= s < t && es[s].0 == k;
        lemma_first_occurrence(es, k, s);
    }
}

/// Inserting a value at a position and then removing at that position gives back the
/// container and the value. For a struct the key must be new: storing under a present
/// key replaces its value.
pub proof fn lemma_insert_then_remove(c: Val, k: Val, v: Val)
    requires
        insert_spec(c, k, v) is Ok,
        c is Struct ==> key_pos(c->Struct_0, k->Str_0) < 0,
    ensures
        remove_spec(insert_spec(c, k, v)->Ok_0, k) == Ok::<(Val, Val), crate::error::AgoError>((c, v)),
{
    match (c, k) {
        (Val::Struct(es), Val::Str(key)) => {
            let n = es.push((key, v));
            assert forall|t: int| 0 <= t < es.len() implies es[t].0 != key by {
                if es[t].0 == key {
                    lemma_first_occurrence(es, key, t);
                }
            }
            lemma_key_pos_found(n, key, es.len() as int);
            assert(n.remove(es.len() as int) =~= es);
        },
        (Val::IntList(l), Val::Int(i)) => {
            assert(l.insert(i as int, v->Int_0).remove(i as int) =~= l);
        },
        (Val::FloatList(l), Val::Int(i)) => {
            assert(l.insert(i as int, v->Float_0).remove(i as int) =~= l);
        },
        (Val::BoolList(l), Val::Int(i)) => {
            assert(l.insert(i as int, v->Bool_0).remove(i as int) =~= l);
        },
        (Val::StrList(l), Val::Int(i)) => {
            assert(l.insert(i as int, v->Str_0).remove(i as int) =~= l);
        },
        (Val::ListAny(l), Val::Int(i)) => {
            assert(l.insert(i as int, v).remove(i as int) =~= l);
        },
        _ => {},
    }
}

/// No two entries share a key.
pub open spec fn keys_distinct(es: Seq<(Seq<char>, Val)>) -> bool {
    forall|i: int, j: int| 0 <= i < j < es.len() ==> #[trigger] es[i].0 != #[trigger] es[j].0
}

proof fn lemma_key_pos_facts(es: Seq<(Seq<char>, Val)>, k: Seq<char>)
    ensures
        key_pos(es, k) >= 0 ==> is_first_key(es, k, key_pos(es, k)),
        key_pos(es, k) < 0 ==> forall|t: int| 0 <= t < es.len() ==> #[trigger] es[t].0 != k,
{
    if key_pos(es, k) < 0 {
        assert forall|t: int| 0 <= t < es.len() implies #[trigger] es[t].0 != k by {
            if es[t].0 == k {
                lemma_first_occurrence(es, k, t);
            }
        }
    }
}

/// Storing under a key keeps the keys of a struct distinct.
pub proof fn lemma_set_entry_keeps_keys_distinct(es: Seq<(Seq<char>, Val)>, k: Seq<char>, v: Val)
    requires
        keys_distinct(es),
    ensures
        keys_distinct(set_entry(es, k, v)),
{
    lemma_key_pos_facts(es, k);
    let n = set_entry(es, k, v);
    assert forall|i: int, j: int| 0 <= i < j < n.len() implies #[trigger] n[i].0 != #[trigger] n[j].0 by {
        if key_pos(es, k) < 0 {
            if j == es.len() {
                assert(es[i].0 != k);
            } else {
                assert(es[i].0 != es[j].0);
            }
        } else {
            assert(es[i].0 != es[j].0);
        }
    }
}

/// Removing an entry keeps the keys of a struct distinct.
pub proof fn lemma_remove_keeps_keys_distinct(es: Seq<(Seq<char>, Val)>, p: int)
    requires
        keys_distinct(es),
        0 <= p < es.len(),
    ensures
        keys_distinct(es.remove(p)),
{
    let n = es.remove(p);
    assert forall|i: int, j: int| 0 <= i < j < n.len() implies #[trigger] n[i].0 != #[trigger] n[j].0 by {
        let a = if i < p { i } else { i + 1 };
        let b = if j < p { j } else { j + 1 };
        assert(n[i] == es[a] && n[j] == es[b]);
        assert(es[a].0 != es[b].0);
    }
}

proof fn lemma_group_keys_distinct(l: Seq<Val>)
    ensures
        keys_distinct(group_strings(l)),
    decreases l.len(),
{
    if l.len() > 0 {
        let g = group_strings(l.drop_last());
        lemma_group_keys_distinct(l.drop_last());
        let s = match l.last() {
            Val::Str(s) => s,
            _ => Seq::empty(),
        };
        lemma_key_pos_facts(g, s);
        let n = group_strings(l);
        assert forall|i: int, j: int| 0 <= i < j < n.len() implies #[trigger] n[i].0 != #[trigger] n[j].0 by {
            if key_pos(g, s) < 0 {
                if j == g.len() {
                    assert(g[i].0 != s);
                } else {
                    assert(g[i].0 != g[j].0);
                }
            } else {
                assert(g[i].0 != g[j].0);
            }
        }
    }
}

proof fn lemma_pairs_keys_distinct<F: Fn(FloatOp) -> FloatOut>(fl: F, l: Seq<Val>)
    ensures
        keys_distinct(pairs_struct(fl, l)),
    decreases l.len(),
{
    if l.len() > 0 {
        lemma_pairs_keys_distinct(fl, l.drop_last());
        let pair = match l.last() {
            Val::ListAny(p) => p,
            _ => Seq::empty(),
        };
        lemma_set_entry_keeps_keys_distinct(
            pairs_struct(fl, l.drop_last()),
            crate::casting::text_of(fl, pair[0]),
            pair[1],
        );
    }
}

/// The struct a heterogeneous list casts to has distinct keys.
pub proof fn lemma_list_to_struct_keys_distinct<F: Fn(FloatOp) -> FloatOut>(fl: F, l: Seq<Val>)
    ensures
        keys_distinct(list_to_struct(fl, l)),
{
    if all_strings(l) {
        lemma_group_keys_distinct(l);
    } else if crate::casting::all_pairs(l) {
        lemma_pairs_keys_distinct(fl, l);
    } else {
        let n = index_struct(l);
        assert forall|i: int, j: int| 0 <= i < j < n.len() implies #[trigger] n[i].0 != #[trigger] n[j].0 by {
            lemma_nat_text(i as nat);
            lemma_nat_text(j as nat);
        }
    }
}

/// After a successful `set`, reading the same key or index gives the value stored
/// (for a string, the one-character string stored).
pub proof fn lemma_get_after_set(c: Val, k: Val, v: Val)
    requires
        set_spec(c, k, v) is Ok,
    ensures
        get_spec(set_spec(c, k, v)->Ok_0, k) == Ok::<Val, crate::error::AgoError>(v),
{
    match (c, k) {
        (Val::Struct(es), Val::Str(key)) => {
            lemma_key_pos_facts(es, key);
            let n = set_entry(es, key, v);
            if key_pos(es, key) < 0 {
                lemma_key_pos_found(n, key, es.len() as int);
            } else {
                let p = key_pos(es, key);
                assert forall|t: int| 0 <= t < p implies n[t].0 != key by {
                    assert(n[t] == es[t]);
                }
                lemma_key_pos_found(n, key, p);
            }
        },
        (Val::Str(s), Val::Int(i)) => {
            let t = v->Str_0;
            assert(seq![s.update(i as int, t[0])[i as int]] =~= t);
        },
        _ => {},
    }
}

} // verus!
