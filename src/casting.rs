use vstd::prelude::*;
use crate::error::AgoError;
use crate::types::{
    AgoType, AgoRange, TargetType, Val, kind_of, vals_view, entries_view, strs_view,
    lemma_vals_view, lemma_entries_view, copy_vec,
};
use crate::floats::{
    FloatOp, FloatOut, FloatQuery, float_ops_ok, float_text, float_parse, float_bits,
    float_to_int, is_zero, ONE_BITS, text_of_float, parse_float, bits_of, int_of_float,
    float_is_zero,
};
use crate::text::{
    int_text, nat_text, bool_text, join, parse_int, int_to_string, bool_to_string,
    join_strings, char_string, append_string, string_of, chars_of, parse_int_str,
};
use crate::equality::{key_pos, find_key};

verus! {

pub open spec fn newline() -> Seq<char> {
    seq!['\n']
}

pub open spec fn blank_line() -> Seq<char> {
    seq!['\n', '\n']
}

pub open spec fn null_text() -> Seq<char> {
    seq!['i', 'n', 'a', 'n', 'i', 's']
}

/// The text a value casts to.
pub open spec fn text_of<F: Fn(FloatOp) -> FloatOut>(fl: F, v: Val) -> Seq<char>
    decreases v,
{
    match v {
        Val::Int(i) => int_text(i as int),
        Val::Float(b) => float_text(fl, b),
        Val::Bool(b) => bool_text(b),
        Val::Str(s) => s,
        Val::IntList(l) => join(l.map_values(|x: i128| int_text(x as int)), newline()),
        Val::FloatList(l) => join(l.map_values(|b: u64| float_text(fl, b)), newline()),
        Val::BoolList(l) => join(l.map_values(|b: bool| bool_text(b)), newline()),
        Val::StrList(l) => join(l, newline()),
        Val::Struct(es) => seq!['{', ' '] + join(entry_texts(fl, es), seq![',', ' ']) + seq![
            ' ',
            '}',
        ],
        Val::ListAny(l) => join(texts_of(fl, l), blank_line()),
        Val::Range(s, e, inc) => int_text(s as int) + (if inc {
            seq!['.', '.']
        } else {
            seq!['.', '<']
        }) + int_text(e as int),
        Val::Null => null_text(),
    }
}

/// The texts of the values, in order.
pub open spec fn texts_of<F: Fn(FloatOp) -> FloatOut>(fl: F, l: Seq<Val>) -> Seq<Seq<char>>
    decreases l,
{
    if l.len() == 0 {
        Seq::empty()
    } else {
        texts_of(fl, l.subrange(0, l.len() - 1)).push(text_of(fl, l[l.len() - 1]))
    }
}

/// Each entry rendered as `key: value`.
pub open spec fn entry_texts<F: Fn(FloatOp) -> FloatOut>(
    fl: F,
    es: Seq<(Seq<char>, Val)>,
) -> Seq<Seq<char>>
    decreases es,
{
    if es.len() == 0 {
        Seq::empty()
    } else {
        entry_texts(fl, es.subrange(0, es.len() - 1)).push(
            es[es.len() - 1].0 + seq![':', ' '] + text_of(fl, es[es.len() - 1].1),
        )
    }
}

pub proof fn lemma_texts_of<F: Fn(FloatOp) -> FloatOut>(fl: F, l: Seq<Val>)
    ensures
        texts_of(fl, l).len() == l.len(),
        forall|i: int| 0 <= i < l.len() ==> #[trigger] texts_of(fl, l)[i] == text_of(fl, l[i]),
    decreases l.len(),
{
    if l.len() > 0 {
        lemma_texts_of(fl, l.subrange(0, l.len() - 1));
    }
}

pub proof fn lemma_entry_texts<F: Fn(FloatOp) -> FloatOut>(fl: F, es: Seq<(Seq<char>, Val)>)
    ensures
        entry_texts(fl, es).len() == es.len(),
        forall|i: int|
            0 <= i < es.len() ==> #[trigger] entry_texts(fl, es)[i] == es[i].0 + seq![':', ' ']
                + text_of(fl, es[i].1),
    decreases es.len(),
{
    if es.len() > 0 {
        lemma_entry_texts(fl, es.subrange(0, es.len() - 1));
    }
}

/// The elements of a list value, each as a value of its own.
pub open spec fn items_of(v: Val) -> Seq<Val> {
    match v {
        Val::IntList(l) => l.map_values(|x: i128| Val::Int(x)),
        Val::FloatList(l) => l.map_values(|x: u64| Val::Float(x)),
        Val::BoolList(l) => l.map_values(|x: bool| Val::Bool(x)),
        Val::StrList(l) => l.map_values(|x: Seq<char>| Val::Str(x)),
        Val::ListAny(l) => l,
        _ => Seq::empty(),
    }
}

pub open spec fn is_list(v: Val) -> bool {
    v is IntList || v is FloatList || v is BoolList || v is StrList || v is ListAny
}

pub open spec fn is_primitive(t: TargetType) -> bool {
    t == TargetType::Int || t == TargetType::Float || t == TargetType::Bool || t
        == TargetType::String
}

/// Whether a range holds at least one integer.
pub open spec fn range_nonempty(s: i128, e: i128, inc: bool) -> bool {
    if inc {
        s <= e
    } else {
        s < e
    }
}

/// The integers of a range, in increasing order.
pub open spec fn range_seq(s: i128, e: i128, inc: bool) -> Seq<i128> {
    let hi: int = if inc { e + 1 } else { e as int };
    if s >= hi {
        Seq::empty()
    } else {
        Seq::new((hi - s) as nat, |i: int| (s + i) as i128)
    }
}

/// A cast whose target is `Int`, `Float`, `Bool` or `String`. Numbers and strings are
/// true when nonzero or non-empty; `true` and `false` become 1 and 0, or 1.0 and 0.0;
/// a list becomes its length or whether it is non-empty.
pub open spec fn cast_prim<F: Fn(FloatOp) -> FloatOut>(fl: F, v: Val, t: TargetType) -> Result<
    Val,
    AgoError,
> {
    if t == TargetType::String {
        Ok(Val::Str(text_of(fl, v)))
    } else {
        match (v, t) {
            (Val::Int(i), TargetType::Int) => Ok(v),
            (Val::Int(i), TargetType::Float) => Ok(
                Val::Float(float_bits(fl, FloatQuery::FromInt(i))),
            ),
            (Val::Int(i), TargetType::Bool) => Ok(Val::Bool(i != 0)),
            (Val::Float(b), TargetType::Int) => Ok(Val::Int(float_to_int(fl, b))),
            (Val::Float(b), TargetType::Float) => Ok(v),
            (Val::Float(b), TargetType::Bool) => Ok(Val::Bool(!is_zero(b))),
            (Val::Bool(b), TargetType::Int) => Ok(Val::Int(if b { 1 } else { 0 })),
            (Val::Bool(b), TargetType::Float) => Ok(Val::Float(if b { ONE_BITS } else { 0 })),
            (Val::Bool(b), TargetType::Bool) => Ok(v),
            (Val::Str(s), TargetType::Int) => match parse_int(s) {
                Some(i) => Ok(Val::Int(i)),
                None => Err(AgoError::CastParseFailure),
            },
            (Val::Str(s), TargetType::Float) => match float_parse(fl, s) {
                Some(b) => Ok(Val::Float(b)),
                None => Err(AgoError::CastParseFailure),
            },
            (Val::Str(s), TargetType::Bool) => Ok(Val::Bool(s.len() > 0)),
            (Val::Null, TargetType::Int) => Ok(Val::Int(0)),
            (Val::Null, TargetType::Float) => Ok(Val::Float(0)),
            (Val::Null, TargetType::Bool) => Ok(Val::Bool(false)),
            (Val::Struct(es), TargetType::Bool) => Ok(Val::Bool(es.len() > 0)),
            (Val::Range(s, e, inc), TargetType::Bool) => Ok(Val::Bool(range_nonempty(s, e, inc))),
            (_, TargetType::Int) if is_list(v) => Ok(Val::Int(items_of(v).len() as i128)),
            (_, TargetType::Bool) if is_list(v) => Ok(Val::Bool(items_of(v).len() > 0)),
            _ => Err(AgoError::UnsupportedCast),
        }
    }
}

/// Each value cast to a primitive kind; the first failure, from the front, is the result.
pub open spec fn cast_items<F: Fn(FloatOp) -> FloatOut>(
    fl: F,
    l: Seq<Val>,
    t: TargetType,
) -> Result<Seq<Val>, AgoError>
    decreases l.len(),
{
    if l.len() == 0 {
        Ok(Seq::empty())
    } else {
        match cast_items(fl, l.drop_last(), t) {
            Err(e) => Err(e),
            Ok(r) => match cast_prim(fl, l.last(), t) {
                Ok(x) => Ok(r.push(x)),
                Err(e) => Err(e),
            },
        }
    }
}

pub open spec fn ints_of(l: Seq<Val>) -> Seq<i128> {
    l.map_values(
        |v: Val|
            match v {
                Val::Int(i) => i,
                _ => 0,
            },
    )
}

pub open spec fn floats_of(l: Seq<Val>) -> Seq<u64> {
    l.map_values(
        |v: Val|
            match v {
                Val::Float(b) => b,
                _ => 0,
            },
    )
}

pub open spec fn bools_of(l: Seq<Val>) -> Seq<bool> {
    l.map_values(
        |v: Val|
            match v {
                Val::Bool(b) => b,
                _ => false,
            },
    )
}

pub open spec fn strs_of(l: Seq<Val>) -> Seq<Seq<char>> {
    l.map_values(
        |v: Val|
            match v {
                Val::Str(s) => s,
                _ => Seq::empty(),
            },
    )
}

/// Stores `v` under `k`: the entry with key `k` is replaced, or a new entry is appended.
pub open spec fn set_entry(es: Seq<(Seq<char>, Val)>, k: Seq<char>, v: Val) -> Seq<(Seq<char>, Val)> {
    let p = key_pos(es, k);
    if p < 0 {
        es.push((k, v))
    } else {
        es.update(p, (k, v))
    }
}

/// Each distinct string mapped to the positions where it occurs, in order of first occurrence.
pub open spec fn group_strings(l: Seq<Val>) -> Seq<(Seq<char>, Val)>
    decreases l.len(),
{
    if l.len() == 0 {
        Seq::empty()
    } else {
        let g = group_strings(l.drop_last());
        let s = match l.last() {
            Val::Str(s) => s,
            _ => Seq::empty(),
        };
        let n = (l.len() - 1) as i128;
        let p = key_pos(g, s);
        if p < 0 {
            g.push((s, Val::IntList(seq![n])))
        } else {
            let prev = match g[p].1 {
                Val::IntList(x) => x,
                _ => Seq::empty(),
            };
            g.update(p, (s, Val::IntList(prev.push(n))))
        }
    }
}

/// Two-element lists taken as key (as text) and value; a later key replaces an earlier one.
pub open spec fn pairs_struct<F: Fn(FloatOp) -> FloatOut>(fl: F, l: Seq<Val>) -> Seq<
    (Seq<char>, Val),
>
    decreases l.len(),
{
    if l.len() == 0 {
        Seq::empty()
    } else {
        let pair = match l.last() {
            Val::ListAny(p) => p,
            _ => Seq::empty(),
        };
        set_entry(pairs_struct(fl, l.drop_last()), text_of(fl, pair[0]), pair[1])
    }
}

/// Each element keyed by the decimal text of its position.
pub open spec fn index_struct(l: Seq<Val>) -> Seq<(Seq<char>, Val)> {
    Seq::new(l.len(), |i: int| (nat_text(i as nat), l[i]))
}

pub open spec fn all_strings(l: Seq<Val>) -> bool {
    forall|i: int| 0 <= i < l.len() ==> #[trigger] l[i] is Str
}

pub open spec fn is_pair(v: Val) -> bool {
    match v {
        Val::ListAny(p) => p.len() == 2,
        _ => false,
    }
}

pub open spec fn all_pairs(l: Seq<Val>) -> bool {
    forall|i: int| 0 <= i < l.len() ==> is_pair(#[trigger] l[i])
}

/// The struct a heterogeneous list casts to.
pub open spec fn list_to_struct<F: Fn(FloatOp) -> FloatOut>(fl: F, l: Seq<Val>) -> Seq<
    (Seq<char>, Val),
> {
    if all_strings(l) {
        group_strings(l)
    } else if all_pairs(l) {
        pairs_struct(fl, l)
    } else {
        index_struct(l)
    }
}

/// A list, given by its elements, cast to a list kind or to a range.
pub open spec fn cast_list<F: Fn(FloatOp) -> FloatOut>(fl: F, items: Seq<Val>, t: TargetType) -> Result<
    Val,
    AgoError,
> {
    match t {
        TargetType::IntList => match cast_items(fl, items, TargetType::Int) {
            Ok(r) => Ok(Val::IntList(ints_of(r))),
            Err(e) => Err(e),
        },
        TargetType::FloatList => match cast_items(fl, items, TargetType::Float) {
            Ok(r) => Ok(Val::FloatList(floats_of(r))),
            Err(e) => Err(e),
        },
        TargetType::BoolList => match cast_items(fl, items, TargetType::Bool) {
            Ok(r) => Ok(Val::BoolList(bools_of(r))),
            Err(e) => Err(e),
        },
        TargetType::StringList => match cast_items(fl, items, TargetType::String) {
            Ok(r) => Ok(Val::StrList(strs_of(r))),
            Err(e) => Err(e),
        },
        TargetType::ListAny => Ok(Val::ListAny(items)),
        TargetType::Range => Ok(Val::Range(0, (items.len() - 1) as i128, true)),
        _ => Err(AgoError::UnsupportedCast),
    }
}

/// The casting matrix.
pub open spec fn cast_spec<F: Fn(FloatOp) -> FloatOut>(fl: F, v: Val, t: TargetType) -> Result<
    Val,
    AgoError,
> {
    if t == TargetType::Any || t == kind_of(v) {
        Ok(v)
    } else if is_primitive(t) {
        cast_prim(fl, v, t)
    } else if is_list(v) {
        if t == TargetType::Struct {
            match v {
                Val::ListAny(l) => Ok(Val::Struct(list_to_struct(fl, l))),
                _ => Err(AgoError::UnsupportedCast),
            }
        } else {
            cast_list(fl, items_of(v), t)
        }
    } else {
        match (v, t) {
            (Val::Str(s), TargetType::StringList) => Ok(
                Val::StrList(Seq::new(s.len(), |i: int| seq![s[i]])),
            ),
            (Val::Struct(es), TargetType::StringList) => Ok(
                Val::StrList(es.map_values(|e: (Seq<char>, Val)| e.0)),
            ),
            (Val::Range(s, e, inc), TargetType::IntList) => Ok(
                Val::IntList(range_seq(s, e, inc)),
            ),
            _ => Err(AgoError::UnsupportedCast),
        }
    }
}

/// The two-character string `ab`.
fn pair_string(a: char, b: char) -> (r: String)
    ensures
        r@ == seq![a, b],
{
    let mut r = char_string(a);
    r.push(b);
    assert(r@ =~= seq![a, b]);
    r
}

fn null_string() -> (r: String)
    ensures
        r@ == null_text(),
{
    let cs: Vec<char> = vec!['i', 'n', 'a', 'n', 'i', 's'];
    let r = string_of(&cs);
    assert(r@ =~= null_text());
    r
}

/// The text a value casts to.
#[verifier::loop_isolation(false)]
pub fn to_text<F: Fn(FloatOp) -> FloatOut>(v: &AgoType, fl: &F) -> (r: String)
    requires
        float_ops_ok(*fl),
    ensures
        r@ == text_of(*fl, v@),
    decreases v,
{
    match v {
        AgoType::Int(i) => int_to_string(*i),
        AgoType::Float(b) => text_of_float(fl, *b),
        AgoType::Bool(b) => bool_to_string(*b),
        AgoType::String(s) => s.clone(),
        AgoType::IntList(l) => {
            let mut pieces: Vec<String> = Vec::new();
            let mut i: usize = 0;
            while i < l.len()
                invariant
                    i <= l@.len(),
                    pieces@.len() == i,
                    forall|t: int| 0 <= t < i ==> #[trigger] pieces@[t]@ == int_text(l@[t] as int),
                decreases l.len() - i,
            {
                pieces.push(int_to_string(l[i]));
                i += 1;
            }
            assert(pieces@.map_values(|p: String| p@) =~= l@.map_values(
                |x: i128| int_text(x as int),
            ));
            join_strings(&pieces, &char_string('\n'))
        },
        AgoType::FloatList(l) => {
            let mut pieces: Vec<String> = Vec::new();
            let mut i: usize = 0;
            while i < l.len()
                invariant
                    i <= l@.len(),
                    pieces@.len() == i,
                    forall|t: int| 0 <= t < i ==> #[trigger] pieces@[t]@ == float_text(*fl, l@[t]),
                decreases l.len() - i,
            {
                pieces.push(text_of_float(fl, l[i]));
                i += 1;
            }
            assert(pieces@.map_values(|p: String| p@) =~= l@.map_values(
                |b: u64| float_text(*fl, b),
            ));
            join_strings(&pieces, &char_string('\n'))
        },
        AgoType::BoolList(l) => {
            let mut pieces: Vec<String> = Vec::new();
            let mut i: usize = 0;
            while i < l.len()
                invariant
                    i <= l@.len(),
                    pieces@.len() == i,
                    forall|t: int| 0 <= t < i ==> #[trigger] pieces@[t]@ == bool_text(l@[t]),
                decreases l.len() - i,
            {
                pieces.push(bool_to_string(l[i]));
                i += 1;
            }
            assert(pieces@.map_values(|p: String| p@) =~= l@.map_values(|b: bool| bool_text(b)));
            join_strings(&pieces, &char_string('\n'))
        },
        AgoType::StringList(l) => {
            assert(l@.map_values(|p: String| p@) =~= strs_view(l@));
            join_strings(l, &char_string('\n'))
        },
        AgoType::Struct(es) => {
            let ghost ev = entries_view(es@);
            proof {
                lemma_entries_view(es@);
                lemma_entry_texts(*fl, ev);
            }
            let mut pieces: Vec<String> = Vec::new();
            let mut i: usize = 0;
            while i < es.len()
                invariant
                    i <= es@.len(),
                    ev == entries_view(es@),
                    pieces@.len() == i,
                    forall|t: int|
                        0 <= t < i ==> #[trigger] pieces@[t]@ == entry_texts(*fl, ev)[t],
                decreases es.len() - i,
            {
                proof {
                    assert(decreases_to!(*es => es[i as int]));
                    assert(decreases_to!(es[i as int] => es[i as int].1));
                    assert(decreases_to!(*v => es[i as int].1));
                }
                let mut p = es[i].0.clone();
                append_string(&mut p, &pair_string(':', ' '));
                let t = to_text(&es[i].1, fl);
                append_string(&mut p, &t);
                assert(ev[i as int] == (es@[i as int].0@, es@[i as int].1@));
                pieces.push(p);
                i += 1;
            }
            assert(pieces@.map_values(|p: String| p@) =~= entry_texts(*fl, ev));
            let mut r = pair_string('{', ' ');
            let body = join_strings(&pieces, &pair_string(',', ' '));
            append_string(&mut r, &body);
            append_string(&mut r, &pair_string(' ', '}'));
            r
        },
        AgoType::ListAny(l) => {
            let ghost lv = vals_view(l@);
            proof {
                lemma_vals_view(l@);
                lemma_texts_of(*fl, lv);
            }
            let mut pieces: Vec<String> = Vec::new();
            let mut i: usize = 0;
            while i < l.len()
                invariant
                    i <= l@.len(),
                    lv == vals_view(l@),
                    pieces@.len() == i,
                    forall|t: int| 0 <= t < i ==> #[trigger] pieces@[t]@ == texts_of(*fl, lv)[t],
                decreases l.len() - i,
            {
                proof {
                    assert(decreases_to!(*l => l[i as int]));
                    assert(decreases_to!(*v => l[i as int]));
                }
                pieces.push(to_text(&l[i], fl));
                i += 1;
            }
            assert(pieces@.map_values(|p: String| p@) =~= texts_of(*fl, lv));
            join_strings(&pieces, &pair_string('\n', '\n'))
        },
        AgoType::Range(rg) => {
            let mut r = int_to_string(rg.start);
            if rg.inclusive {
                append_string(&mut r, &pair_string('.', '.'));
            } else {
                append_string(&mut r, &pair_string('.', '<'));
            }
            append_string(&mut r, &int_to_string(rg.end));
            r
        },
        AgoType::Null => null_string(),
    }
}

/// The model of an outcome.
pub open spec fn res_view(r: Result<AgoType, AgoError>) -> Result<Val, AgoError> {
    match r {
        Ok(x) => Ok(x@),
        Err(e) => Err(e),
    }
}

/// A cast whose target is `Int`, `Float`, `Bool` or `String`.
pub fn cast_primitive<F: Fn(FloatOp) -> FloatOut>(v: &AgoType, t: TargetType, fl: &F) -> (r:
    Result<AgoType, AgoError>)
    requires
        float_ops_ok(*fl),
        is_primitive(t),
    ensures
        res_view(r) == cast_prim(*fl, v@, t),
{
    if let TargetType::String = t {
        return Ok(AgoType::String(to_text(v, fl)));
    }
    match (v, t) {
        (AgoType::Int(i), TargetType::Int) => Ok(AgoType::Int(*i)),
        (AgoType::Int(i), TargetType::Float) => Ok(AgoType::Float(bits_of(fl, FloatOp::FromInt(*i)))),
        (AgoType::Int(i), TargetType::Bool) => Ok(AgoType::Bool(*i != 0)),
        (AgoType::Float(b), TargetType::Int) => Ok(AgoType::Int(int_of_float(fl, *b))),
        (AgoType::Float(b), TargetType::Float) => Ok(AgoType::Float(*b)),
        (AgoType::Float(b), TargetType::Bool) => Ok(AgoType::Bool(!float_is_zero(*b))),
        (AgoType::Bool(b), TargetType::Int) => Ok(AgoType::Int(if *b { 1 } else { 0 })),
        (AgoType::Bool(b), TargetType::Float) => Ok(AgoType::Float(if *b { ONE_BITS } else { 0 })),
        (AgoType::Bool(b), TargetType::Bool) => Ok(AgoType::Bool(*b)),
        (AgoType::String(s), TargetType::Int) => match parse_int_str(s) {
            Some(i) => Ok(AgoType::Int(i)),
            None => Err(AgoError::CastParseFailure),
        },
        (AgoType::String(s), TargetType::Float) => match parse_float(fl, s.clone()) {
            Some(b) => Ok(AgoType::Float(b)),
            None => Err(AgoError::CastParseFailure),
        },
        (AgoType::String(s), TargetType::Bool) => Ok(AgoType::Bool(!s.as_str().is_empty())),
        (AgoType::Null, TargetType::Int) => Ok(AgoType::Int(0)),
        (AgoType::Null, TargetType::Float) => Ok(AgoType::Float(0)),
        (AgoType::Null, TargetType::Bool) => Ok(AgoType::Bool(false)),
        (AgoType::Struct(es), TargetType::Bool) => Ok(AgoType::Bool(es.len() > 0)),
        (AgoType::Range(rg), TargetType::Bool) => Ok(AgoType::Bool(
            if rg.inclusive { rg.start <= rg.end } else { rg.start < rg.end },
        )),
        (AgoType::IntList(l), TargetType::Int) => Ok(AgoType::Int(l.len() as i128)),
        (AgoType::FloatList(l), TargetType::Int) => Ok(AgoType::Int(l.len() as i128)),
        (AgoType::BoolList(l), TargetType::Int) => Ok(AgoType::Int(l.len() as i128)),
        (AgoType::StringList(l), TargetType::Int) => Ok(AgoType::Int(l.len() as i128)),
        (AgoType::ListAny(l), TargetType::Int) => {
            proof { lemma_vals_view(l@); }
            Ok(AgoType::Int(l.len() as i128))
        },
        (AgoType::IntList(l), TargetType::Bool) => Ok(AgoType::Bool(l.len() > 0)),
        (AgoType::FloatList(l), TargetType::Bool) => Ok(AgoType::Bool(l.len() > 0)),
        (AgoType::BoolList(l), TargetType::Bool) => Ok(AgoType::Bool(l.len() > 0)),
        (AgoType::StringList(l), TargetType::Bool) => Ok(AgoType::Bool(l.len() > 0)),
        (AgoType::ListAny(l), TargetType::Bool) => {
            proof { lemma_vals_view(l@); }
            Ok(AgoType::Bool(l.len() > 0))
        },
        _ => Err(AgoError::UnsupportedCast),
    }
}

proof fn lemma_cast_items_err<F: Fn(FloatOp) -> FloatOut>(
    fl: F,
    l: Seq<Val>,
    k: int,
    t: TargetType,
    e: AgoError,
)
    requires
        0 <= k <= l.len(),
        cast_items(fl, l.subrange(0, k), t) == Err::<Seq<Val>, AgoError>(e),
    ensures
        cast_items(fl, l, t) == Err::<Seq<Val>, AgoError>(e),
    decreases l.len() - k,
{
    if k == l.len() {
        assert(l.subrange(0, k) =~= l);
    } else {
        let p = l.subrange(0, k + 1);
        assert(p.drop_last() =~= l.subrange(0, k));
        lemma_cast_items_err(fl, l, k + 1, t, e);
    }
}

proof fn lemma_cast_prim_kind<F: Fn(FloatOp) -> FloatOut>(fl: F, v: Val, t: TargetType)
    requires
        is_primitive(t),
        cast_prim(fl, v, t) is Ok,
    ensures
        kind_of(cast_prim(fl, v, t)->Ok_0) == t,
{
}

/// Each value cast to a primitive kind.
pub fn cast_all<F: Fn(FloatOp) -> FloatOut>(items: &Vec<AgoType>, t: TargetType, fl: &F) -> (r:
    Result<Vec<AgoType>, AgoError>)
    requires
        float_ops_ok(*fl),
        is_primitive(t),
    ensures
        match r {
            Ok(out) => cast_items(*fl, vals_view(items@), t) == Ok::<Seq<Val>, AgoError>(
                vals_view(out@),
            ),
            Err(e) => cast_items(*fl, vals_view(items@), t) == Err::<Seq<Val>, AgoError>(e),
        },
        match r {
            Ok(out) => forall|i: int| 0 <= i < out@.len() ==> kind_of(#[trigger] out@[i]@) == t,
            Err(_) => true,
        },
{
    let ghost lv = vals_view(items@);
    proof {
        lemma_vals_view(items@);
    }
    let mut out: Vec<AgoType> = Vec::new();
    let mut i: usize = 0;
    while i < items.len()
        invariant
            float_ops_ok(*fl),
            is_primitive(t),
            i <= items@.len(),
            lv == vals_view(items@),
            lv.len() == items@.len(),
            forall|j: int| 0 <= j < items@.len() ==> #[trigger] lv[j] == items@[j]@,
            out@.len() == i,
            cast_items(*fl, lv.subrange(0, i as int), t) == Ok::<Seq<Val>, AgoError>(vals_view(out@)),
            forall|j: int| 0 <= j < out@.len() ==> kind_of(#[trigger] out@[j]@) == t,
        decreases items.len() - i,
    {
        let ghost p = lv.subrange(0, i + 1);
        assert(p.drop_last() =~= lv.subrange(0, i as int));
        assert(p.last() == items@[i as int]@);
        match cast_primitive(&items[i], t, fl) {
            Ok(x) => {
                proof {
                    lemma_cast_prim_kind(*fl, items@[i as int]@, t);
                }
                let ghost old_out = out@;
                out.push(x);
                proof {
                    lemma_vals_view(out@);
                    lemma_vals_view(old_out);
                    assert(vals_view(out@) =~= vals_view(old_out).push(x@));
                }
            },
            Err(e) => {
                proof {
                    lemma_cast_items_err(*fl, lv, i + 1, t, e);
                    assert(lv.subrange(0, lv.len() as int) =~= lv);
                }
                return Err(e);
            },
        }
        i += 1;
    }
    assert(lv.subrange(0, i as int) =~= lv);
    Ok(out)
}

fn unwrap_ints(vs: &Vec<AgoType>) -> (r: Vec<i128>)
    requires
        forall|i: int| 0 <= i < vs@.len() ==> kind_of(#[trigger] vs@[i]@) == TargetType::Int,
    ensures
        r@ == ints_of(vals_view(vs@)),
{
    proof { lemma_vals_view(vs@); }
    let mut r: Vec<i128> = Vec::new();
    let mut i: usize = 0;
    while i < vs.len()
        invariant
            i <= vs@.len(),
            r@.len() == i,
            forall|t: int| 0 <= t < i ==> #[trigger] r@[t] == ints_of(vals_view(vs@))[t],
            vals_view(vs@).len() == vs@.len(),
            forall|t: int| 0 <= t < vs@.len() ==> #[trigger] vals_view(vs@)[t] == vs@[t]@,
            forall|t: int| 0 <= t < vs@.len() ==> kind_of(#[trigger] vs@[t]@) == TargetType::Int,
        decreases vs.len() - i,
    {
        match &vs[i] {
            AgoType::Int(x) => r.push(*x),
            _ => r.push(0),
        }
        i += 1;
    }
    assert(r@ =~= ints_of(vals_view(vs@)));
    r
}

fn unwrap_floats(vs: &Vec<AgoType>) -> (r: Vec<u64>)
    requires
        forall|i: int| 0 <= i < vs@.len() ==> kind_of(#[trigger] vs@[i]@) == TargetType::Float,
    ensures
        r@ == floats_of(vals_view(vs@)),
{
    proof { lemma_vals_view(vs@); }
    let mut r: Vec<u64> = Vec::new();
    let mut i: usize = 0;
    while i < vs.len()
        invariant
            i <= vs@.len(),
            r@.len() == i,
            forall|t: int| 0 <= t < i ==> #[trigger] r@[t] == floats_of(vals_view(vs@))[t],
            vals_view(vs@).len() == vs@.len(),
            forall|t: int| 0 <= t < vs@.len() ==> #[trigger] vals_view(vs@)[t] == vs@[t]@,
            forall|t: int| 0 <= t < vs@.len() ==> kind_of(#[trigger] vs@[t]@) == TargetType::Float,
        decreases vs.len() - i,
    {
        match &vs[i] {
            AgoType::Float(x) => r.push(*x),
            _ => r.push(0),
        }
        i += 1;
    }
    assert(r@ =~= floats_of(vals_view(vs@)));
    r
}

fn unwrap_bools(vs: &Vec<AgoType>) -> (r: Vec<bool>)
    requires
        forall|i: int| 0 <= i < vs@.len() ==> kind_of(#[trigger] vs@[i]@) == TargetType::Bool,
    ensures
        r@ == bools_of(vals_view(vs@)),
{
    proof { lemma_vals_view(vs@); }
    let mut r: Vec<bool> = Vec::new();
    let mut i: usize = 0;
    while i < vs.len()
        invariant
            i <= vs@.len(),
            r@.len() == i,
            forall|t: int| 0 <= t < i ==> #[trigger] r@[t] == bools_of(vals_view(vs@))[t],
            vals_view(vs@).len() == vs@.len(),
            forall|t: int| 0 <= t < vs@.len() ==> #[trigger] vals_view(vs@)[t] == vs@[t]@,
            forall|t: int| 0 <= t < vs@.len() ==> kind_of(#[trigger] vs@[t]@) == TargetType::Bool,
        decreases vs.len() - i,
    {
        match &vs[i] {
            AgoType::Bool(x) => r.push(*x),
            _ => r.push(false),
        }
        i += 1;
    }
    assert(r@ =~= bools_of(vals_view(vs@)));
    r
}

fn unwrap_strings(vs: &Vec<AgoType>) -> (r: Vec<String>)
    requires
        forall|i: int| 0 <= i < vs@.len() ==> kind_of(#[trigger] vs@[i]@) == TargetType::String,
    ensures
        strs_view(r@) == strs_of(vals_view(vs@)),
{
    proof { lemma_vals_view(vs@); }
    let mut r: Vec<String> = Vec::new();
    let mut i: usize = 0;
    while i < vs.len()
        invariant
            i <= vs@.len(),
            r@.len() == i,
            forall|t: int| 0 <= t < i ==> #[trigger] r@[t]@ == strs_of(vals_view(vs@))[t],
            vals_view(vs@).len() == vs@.len(),
            forall|t: int| 0 <= t < vs@.len() ==> #[trigger] vals_view(vs@)[t] == vs@[t]@,
            forall|t: int| 0 <= t < vs@.len() ==> kind_of(#[trigger] vs@[t]@) == TargetType::String,
        decreases vs.len() - i,
    {
        match &vs[i] {
            AgoType::String(x) => r.push(x.clone()),
            _ => r.push(String::new()),
        }
        i += 1;
    }
    assert(strs_view(r@) =~= strs_of(vals_view(vs@)));
    r
}

fn wrap_ints(l: &Vec<i128>) -> (r: Vec<AgoType>)
    ensures
        vals_view(r@) == items_of(Val::IntList(l@)),
{
    let mut r: Vec<AgoType> = Vec::new();
    let mut i: usize = 0;
    while i < l.len()
        invariant
            i <= l@.len(),
            r@.len() == i,
            forall|t: int| 0 <= t < i ==> #[trigger] r@[t]@ == Val::Int(l@[t]),
        decreases l.len() - i,
    {
        r.push(AgoType::Int(l[i]));
        i += 1;
    }
    proof { lemma_vals_view(r@); }
    assert(vals_view(r@) =~= items_of(Val::IntList(l@)));
    r
}

fn wrap_floats(l: &Vec<u64>) -> (r: Vec<AgoType>)
    ensures
        vals_view(r@) == items_of(Val::FloatList(l@)),
{
    let mut r: Vec<AgoType> = Vec::new();
    let mut i: usize = 0;
    while i < l.len()
        invariant
            i <= l@.len(),
            r@.len() == i,
            forall|t: int| 0 <= t < i ==> #[trigger] r@[t]@ == Val::Float(l@[t]),
        decreases l.len() - i,
    {
        r.push(AgoType::Float(l[i]));
        i += 1;
    }
    proof { lemma_vals_view(r@); }
    assert(vals_view(r@) =~= items_of(Val::FloatList(l@)));
    r
}

fn wrap_bools(l: &Vec<bool>) -> (r: Vec<AgoType>)
    ensures
        vals_view(r@) == items_of(Val::BoolList(l@)),
{
    let mut r: Vec<AgoType> = Vec::new();
    let mut i: usize = 0;
    while i < l.len()
        invariant
            i <= l@.len(),
            r@.len() == i,
            forall|t: int| 0 <= t < i ==> #[trigger] r@[t]@ == Val::Bool(l@[t]),
        decreases l.len() - i,
    {
        r.push(AgoType::Bool(l[i]));
        i += 1;
    }
    proof { lemma_vals_view(r@); }
    assert(vals_view(r@) =~= items_of(Val::BoolList(l@)));
    r
}

fn wrap_strings(l: &Vec<String>) -> (r: Vec<AgoType>)
    ensures
        vals_view(r@) == items_of(Val::StrList(strs_view(l@))),
{
    let mut r: Vec<AgoType> = Vec::new();
    let mut i: usize = 0;
    while i < l.len()
        invariant
            i <= l@.len(),
            r@.len() == i,
            forall|t: int| 0 <= t < i ==> #[trigger] r@[t]@ == Val::Str(l@[t]@),
        decreases l.len() - i,
    {
        r.push(AgoType::String(l[i].clone()));
        i += 1;
    }
    proof { lemma_vals_view(r@); }
    assert(vals_view(r@) =~= items_of(Val::StrList(strs_view(l@))));
    r
}

fn copy_items(l: &Vec<AgoType>) -> (r: Vec<AgoType>)
    ensures
        vals_view(r@) == vals_view(l@),
{
    let mut r: Vec<AgoType> = Vec::new();
    let mut i: usize = 0;
    while i < l.len()
        invariant
            i <= l@.len(),
            r@.len() == i,
            forall|t: int| 0 <= t < i ==> #[trigger] r@[t]@ == l@[t]@,
        decreases l.len() - i,
    {
        r.push(l[i].deep_copy());
        i += 1;
    }
    proof {
        lemma_vals_view(r@);
        lemma_vals_view(l@);
    }
    assert(vals_view(r@) =~= vals_view(l@));
    r
}

/// A list, given by its elements, cast to a list kind or to a range.
fn cast_list_exec<F: Fn(FloatOp) -> FloatOut>(items: Vec<AgoType>, t: TargetType, fl: &F) -> (r:
    Result<AgoType, AgoError>)
    requires
        float_ops_ok(*fl),
    ensures
        res_view(r) == cast_list(*fl, vals_view(items@), t),
{
    proof { lemma_vals_view(items@); }
    match t {
        TargetType::IntList => match cast_all(&items, TargetType::Int, fl) {
            Ok(out) => Ok(AgoType::IntList(unwrap_ints(&out))),
            Err(e) => Err(e),
        },
        TargetType::FloatList => match cast_all(&items, TargetType::Float, fl) {
            Ok(out) => Ok(AgoType::FloatList(unwrap_floats(&out))),
            Err(e) => Err(e),
        },
        TargetType::BoolList => match cast_all(&items, TargetType::Bool, fl) {
            Ok(out) => Ok(AgoType::BoolList(unwrap_bools(&out))),
            Err(e) => Err(e),
        },
        TargetType::StringList => match cast_all(&items, TargetType::String, fl) {
            Ok(out) => Ok(AgoType::StringList(unwrap_strings(&out))),
            Err(e) => Err(e),
        },
        TargetType::ListAny => Ok(AgoType::ListAny(items)),
        TargetType::Range => Ok(
            AgoType::Range(AgoRange { start: 0, end: items.len() as i128 - 1, inclusive: true }),
        ),
        _ => Err(AgoError::UnsupportedCast),
    }
}

fn explode(s: &String) -> (r: Vec<String>)
    ensures
        strs_view(r@) == Seq::new(s@.len(), |i: int| seq![s@[i]]),
{
    let cs = chars_of(s.as_str());
    let mut r: Vec<String> = Vec::new();
    let mut i: usize = 0;
    while i < cs.len()
        invariant
            i <= cs@.len(),
            cs@ == s@,
            r@.len() == i,
            forall|t: int| 0 <= t < i ==> #[trigger] r@[t]@ == seq![s@[t]],
        decreases cs.len() - i,
    {
        r.push(char_string(cs[i]));
        i += 1;
    }
    assert(strs_view(r@) =~= Seq::new(s@.len(), |i: int| seq![s@[i]]));
    r
}

pub(crate) fn struct_keys(es: &Vec<(String, AgoType)>) -> (r: Vec<String>)
    ensures
        strs_view(r@) == entries_view(es@).map_values(|e: (Seq<char>, Val)| e.0),
{
    proof { lemma_entries_view(es@); }
    let mut r: Vec<String> = Vec::new();
    let mut i: usize = 0;
    while i < es.len()
        invariant
            i <= es@.len(),
            r@.len() == i,
            forall|t: int| 0 <= t < i ==> #[trigger] r@[t]@ == es@[t].0@,
        decreases es.len() - i,
    {
        r.push(es[i].0.clone());
        i += 1;
    }
    assert(strs_view(r@) =~= entries_view(es@).map_values(|e: (Seq<char>, Val)| e.0));
    r
}

fn range_to_list(rg: &AgoRange) -> (r: Vec<i128>)
    ensures
        r@ == range_seq(rg.start, rg.end, rg.inclusive),
{
    let mut r: Vec<i128> = Vec::new();
    if rg.start > rg.end {
        assert(r@ =~= range_seq(rg.start, rg.end, rg.inclusive));
        return r;
    }
    let mut i: i128 = rg.start;
    while i < rg.end
        invariant
            rg.start <= i <= rg.end,
            r@ == Seq::new((i - rg.start) as nat, |k: int| (rg.start + k) as i128),
        decreases rg.end - i,
    {
        r.push(i);
        i += 1;
        assert(r@ =~= Seq::new((i - rg.start) as nat, |k: int| (rg.start + k) as i128));
    }
    if rg.inclusive {
        r.push(i);
    }
    assert(r@ =~= range_seq(rg.start, rg.end, rg.inclusive));
    r
}

pub proof fn lemma_set_entry_view(old_es: Seq<(String, AgoType)>, new_es: Seq<(String, AgoType)>, k: Seq<char>, v: Val)
    requires
        key_pos(entries_view(old_es), k) < 0 ==> new_es.len() == old_es.len() + 1
            && new_es.subrange(0, old_es.len() as int) == old_es
            && new_es[old_es.len() as int].0@ == k && new_es[old_es.len() as int].1@ == v,
        key_pos(entries_view(old_es), k) >= 0 ==> new_es.len() == old_es.len()
            && (forall|t: int| 0 <= t < old_es.len() && t != key_pos(entries_view(old_es), k) ==> new_es[t] == old_es[t])
            && new_es[key_pos(entries_view(old_es), k)].0@ == k
            && new_es[key_pos(entries_view(old_es), k)].1@ == v,
    ensures
        entries_view(new_es) == set_entry(entries_view(old_es), k, v),
{
    lemma_entries_view(old_es);
    lemma_entries_view(new_es);
    let p = key_pos(entries_view(old_es), k);
    if p < 0 {
        assert forall|t: int| 0 <= t < old_es.len() implies new_es[t] == old_es[t] by {
            assert(new_es.subrange(0, old_es.len() as int)[t] == new_es[t]);
        }
    } else {
        assert(0 <= p < entries_view(old_es).len()) by {
            let i = choose|i: int| crate::equality::is_first_key(entries_view(old_es), k, i);
        }
    }
    assert(entries_view(new_es) =~= set_entry(entries_view(old_es), k, v));
}

/// A list of strings grouped into a struct from each string to its positions.
#[verifier::loop_isolation(false)]
fn group_exec(l: &Vec<AgoType>) -> (r: Vec<(String, AgoType)>)
    requires
        all_strings(vals_view(l@)),
    ensures
        entries_view(r@) == group_strings(vals_view(l@)),
{
    let ghost lv = vals_view(l@);
    proof { lemma_vals_view(l@); }
    let mut es: Vec<(String, AgoType)> = Vec::new();
    let mut i: usize = 0;
    assert(entries_view(es@) =~= group_strings(lv.subrange(0, 0)));
    while i < l.len()
        invariant
            i <= l@.len(),
            entries_view(es@) == group_strings(lv.subrange(0, i as int)),
        decreases l.len() - i,
    {
        let ghost p = lv.subrange(0, i + 1);
        assert(p.drop_last() =~= lv.subrange(0, i as int));
        assert(p.last() == l@[i as int]@);
        assert(lv[i as int] is Str);
        let s = match &l[i] {
            AgoType::String(s) => s.clone(),
            _ => String::new(),
        };
        let ghost old_es = es@;
        proof { lemma_entries_view(es@); }
        match find_key(&es, &s) {
            None => {
                let one: Vec<i128> = vec![i as i128];
                assert(one@ =~= seq![i as i128]);
                es.push((s, AgoType::IntList(one)));
                proof {
                    assert(es@.subrange(0, old_es.len() as int) =~= old_es);
                    lemma_set_entry_view(old_es, es@, p.last()->Str_0, Val::IntList(seq![i as i128]));
                }
            },
            Some(j) => {
                let mut nl = match &es[j].1 {
                    AgoType::IntList(x) => copy_vec(x),
                    _ => Vec::new(),
                };
                let ghost prev = nl@;
                nl.push(i as i128);
                es[j] = (s, AgoType::IntList(nl));
                proof {
                    assert(entries_view(old_es)[j as int] == (old_es[j as int].0@, old_es[j as int].1@));
                    lemma_set_entry_view(old_es, es@, p.last()->Str_0, Val::IntList(prev.push(i as i128)));
                }
            },
        }
        i += 1;
    }
    assert(lv.subrange(0, i as int) =~= lv);
    es
}

/// Two-element lists turned into entries: the first element's text is the key.
#[verifier::loop_isolation(false)]
fn pairs_exec<F: Fn(FloatOp) -> FloatOut>(l: &Vec<AgoType>, fl: &F) -> (r: Vec<(String, AgoType)>)
    requires
        float_ops_ok(*fl),
        all_pairs(vals_view(l@)),
    ensures
        entries_view(r@) == pairs_struct(*fl, vals_view(l@)),
{
    let ghost lv = vals_view(l@);
    proof { lemma_vals_view(l@); }
    let mut es: Vec<(String, AgoType)> = Vec::new();
    let mut i: usize = 0;
    assert(entries_view(es@) =~= pairs_struct(*fl, lv.subrange(0, 0)));
    while i < l.len()
        invariant
            i <= l@.len(),
            entries_view(es@) == pairs_struct(*fl, lv.subrange(0, i as int)),
        decreases l.len() - i,
    {
        let ghost p = lv.subrange(0, i + 1);
        assert(p.drop_last() =~= lv.subrange(0, i as int));
        assert(p.last() == l@[i as int]@);
        assert(is_pair(lv[i as int]));
        match &l[i] {
            AgoType::ListAny(pair) => {
                proof { lemma_vals_view(pair@); }
                let key = to_text(&pair[0], fl);
                let val = pair[1].deep_copy();
                let ghost old_es = es@;
                proof { lemma_entries_view(es@); }
                match find_key(&es, &key) {
                    None => {
                        es.push((key, val));
                        proof {
                            assert(es@.subrange(0, old_es.len() as int) =~= old_es);
                            lemma_set_entry_view(old_es, es@, key@, val@);
                        }
                    },
                    Some(j) => {
                        es[j] = (key, val);
                        proof {
                            lemma_set_entry_view(old_es, es@, key@, val@);
                        }
                    },
                }
            },
            _ => {},
        }
        i += 1;
    }
    assert(lv.subrange(0, i as int) =~= lv);
    es
}

/// Each element keyed by the decimal text of its position.
fn index_exec(l: &Vec<AgoType>) -> (r: Vec<(String, AgoType)>)
    ensures
        entries_view(r@) == index_struct(vals_view(l@)),
{
    proof { lemma_vals_view(l@); }
    let mut es: Vec<(String, AgoType)> = Vec::new();
    let mut i: usize = 0;
    while i < l.len()
        invariant
            i <= l@.len(),
            es@.len() == i,
            vals_view(l@).len() == l@.len(),
            forall|t: int| 0 <= t < l@.len() ==> #[trigger] vals_view(l@)[t] == l@[t]@,
            forall|t: int| 0 <= t < i ==> #[trigger] es@[t].0@ == nat_text(t as nat) && es@[t].1@ == l@[t]@,
        decreases l.len() - i,
    {
        let k = int_to_string(i as i128);
        assert(int_text(i as int) == nat_text(i as nat));
        es.push((k, l[i].deep_copy()));
        i += 1;
    }
    proof { lemma_entries_view(es@); }
    assert(entries_view(es@) =~= index_struct(vals_view(l@)));
    es
}

fn strings_only(l: &Vec<AgoType>) -> (r: bool)
    ensures
        r == all_strings(vals_view(l@)),
{
    proof { lemma_vals_view(l@); }
    let mut i: usize = 0;
    while i < l.len()
        invariant
            i <= l@.len(),
            vals_view(l@).len() == l@.len(),
            forall|t: int| 0 <= t < l@.len() ==> #[trigger] vals_view(l@)[t] == l@[t]@,
            forall|t: int| 0 <= t < i ==> #[trigger] vals_view(l@)[t] is Str,
        decreases l.len() - i,
    {
        if !matches!(&l[i], AgoType::String(_)) {
            assert(!(vals_view(l@)[i as int] is Str));
            return false;
        }
        i += 1;
    }
    true
}

fn pairs_only(l: &Vec<AgoType>) -> (r: bool)
    ensures
        r == all_pairs(vals_view(l@)),
{
    proof { lemma_vals_view(l@); }
    let mut i: usize = 0;
    while i < l.len()
        invariant
            i <= l@.len(),
            vals_view(l@).len() == l@.len(),
            forall|t: int| 0 <= t < l@.len() ==> #[trigger] vals_view(l@)[t] == l@[t]@,
            forall|t: int| 0 <= t < i ==> is_pair(#[trigger] vals_view(l@)[t]),
        decreases l.len() - i,
    {
        let ok = match &l[i] {
            AgoType::ListAny(p) => {
                proof { lemma_vals_view(p@); }
                p.len() == 2
            },
            _ => false,
        };
        if !ok {
            assert(!is_pair(vals_view(l@)[i as int]));
            return false;
        }
        i += 1;
    }
    true
}

/// The struct a heterogeneous list casts to.
fn list_to_struct_exec<F: Fn(FloatOp) -> FloatOut>(l: &Vec<AgoType>, fl: &F) -> (r: Vec<(String, AgoType)>)
    requires
        float_ops_ok(*fl),
    ensures
        entries_view(r@) == list_to_struct(*fl, vals_view(l@)),
{
    let strings = strings_only(l);
    let pairs = pairs_only(l);
    if strings {
        group_exec(l)
    } else if pairs {
        pairs_exec(l, fl)
    } else {
        index_exec(l)
    }
}

impl AgoType {
    /// The elements of a list value, each as a value of its own.
    pub fn as_items(&self) -> (r: Option<Vec<AgoType>>)
        ensures
            is_list(self@) ==> r is Some && vals_view(r->Some_0@) == items_of(self@),
            !is_list(self@) ==> r is None,
    {
        match self {
            AgoType::IntList(l) => Some(wrap_ints(l)),
            AgoType::FloatList(l) => Some(wrap_floats(l)),
            AgoType::BoolList(l) => Some(wrap_bools(l)),
            AgoType::StringList(l) => Some(wrap_strings(l)),
            AgoType::ListAny(l) => Some(copy_items(l)),
            _ => None,
        }
    }

    /// Casts the value to the target kind by the casting matrix. Binary64
    /// computations are answered by `fl`.
    pub fn as_type<F: Fn(FloatOp) -> FloatOut>(&self, target: TargetType, fl: &F) -> (r: Result<
        AgoType,
        AgoError,
    >)
        requires
            float_ops_ok(*fl),
        ensures
            res_view(r) == cast_spec(*fl, self@, target),
    {
        let k = self.kind();
        if target == TargetType::Any || target == k {
            return Ok(self.deep_copy());
        }
        match target {
            TargetType::Int | TargetType::Float | TargetType::Bool | TargetType::String => {
                return cast_primitive(self, target, fl);
            },
            _ => {},
        }
        match self {
            AgoType::IntList(l) => cast_list_exec(wrap_ints(l), target, fl),
            AgoType::FloatList(l) => cast_list_exec(wrap_floats(l), target, fl),
            AgoType::BoolList(l) => cast_list_exec(wrap_bools(l), target, fl),
            AgoType::StringList(l) => cast_list_exec(wrap_strings(l), target, fl),
            AgoType::ListAny(l) => {
                if let TargetType::Struct = target {
                    Ok(AgoType::Struct(list_to_struct_exec(l, fl)))
                } else {
                    cast_list_exec(copy_items(l), target, fl)
                }
            },
            AgoType::String(s) => {
                if let TargetType::StringList = target {
                    Ok(AgoType::StringList(explode(s)))
                } else {
                    Err(AgoError::UnsupportedCast)
                }
            },
            AgoType::Struct(es) => {
                if let TargetType::StringList = target {
                    Ok(AgoType::StringList(struct_keys(es)))
                } else {
                    Err(AgoError::UnsupportedCast)
                }
            },
            AgoType::Range(rg) => {
                if let TargetType::IntList = target {
                    Ok(AgoType::IntList(range_to_list(rg)))
                } else {
                    Err(AgoError::UnsupportedCast)
                }
            },
            _ => Err(AgoError::UnsupportedCast),
        }
    }
}

} // verus!
