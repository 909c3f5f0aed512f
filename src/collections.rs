use vstd::prelude::*;
use crate::error::AgoError;
use crate::types::{AgoType, AgoRange, Val, vals_view, entries_view, strs_view, lemma_vals_view, lemma_entries_view};
use crate::casting::{items_of, is_list, set_entry, lemma_set_entry_view};
use crate::equality::{lookup, key_pos, find_key};
use crate::text::{chars_of, string_of, char_string};

verus! {

/// The bounds `(lo, hi)` that a range selects in a sequence of length `len`: both ends
/// are clamped to `[0, len]`, an inclusive end counts one more, and `hi` is never below `lo`.
pub open spec fn bounds_of(r: AgoRange, len: nat) -> (int, int) {
    let lo: int = if r.start < 0 { 0 } else if r.start > len { len as int } else { r.start as int };
    let e: int = if r.inclusive { r.end + 1 } else { r.end as int };
    let hi: int = if e < 0 { 0 } else if e > len { len as int } else { e };
    (lo, if hi < lo { lo } else { hi })
}

/// The part of a list or string that `lo..hi` selects, of the same kind.
pub open spec fn slice_of(c: Val, lo: int, hi: int) -> Val {
    match c {
        Val::IntList(l) => Val::IntList(l.subrange(lo, hi)),
        Val::FloatList(l) => Val::FloatList(l.subrange(lo, hi)),
        Val::BoolList(l) => Val::BoolList(l.subrange(lo, hi)),
        Val::StrList(l) => Val::StrList(l.subrange(lo, hi)),
        Val::ListAny(l) => Val::ListAny(l.subrange(lo, hi)),
        Val::Str(s) => Val::Str(s.subrange(lo, hi)),
        _ => c,
    }
}

/// Reading a container by index, range or key.
pub open spec fn get_spec(c: Val, k: Val) -> Result<Val, AgoError> {
    match (c, k) {
        (Val::Struct(es), Val::Str(key)) => match lookup(es, key) {
            Some(v) => Ok(v),
            None => Err(AgoError::KeyNotFound),
        },
        (Val::Struct(_), _) => Err(AgoError::KeyTypeMismatch),
        (Val::Str(s), Val::Int(i)) => if 0 <= i < s.len() {
            Ok(Val::Str(seq![s[i as int]]))
        } else {
            Err(AgoError::IndexOutOfBounds)
        },
        (Val::Str(s), Val::Range(a, b, inc)) => {
            let (lo, hi) = bounds_of(AgoRange { start: a, end: b, inclusive: inc }, s.len());
            Ok(slice_of(c, lo, hi))
        },
        (Val::Str(_), _) => Err(AgoError::KeyTypeMismatch),
        (_, Val::Int(i)) if is_list(c) => if 0 <= i < items_of(c).len() {
            Ok(items_of(c)[i as int])
        } else {
            Err(AgoError::IndexOutOfBounds)
        },
        (_, Val::Range(a, b, inc)) if is_list(c) => {
            let (lo, hi) = bounds_of(
                AgoRange { start: a, end: b, inclusive: inc },
                items_of(c).len(),
            );
            Ok(slice_of(c, lo, hi))
        },
        (_, _) if is_list(c) => Err(AgoError::KeyTypeMismatch),
        _ => Err(AgoError::UnsupportedContainerOperation),
    }
}

/// The bounds that `range` selects in a sequence of length `len`.
pub fn range_bounds(range: &AgoRange, len: usize) -> (r: (usize, usize))
    ensures
        r.0 as int == bounds_of(*range, len as nat).0,
        r.1 as int == bounds_of(*range, len as nat).1,
        r.0 <= r.1 <= len,
{
    let lo: usize = if range.start < 0 {
        0
    } else if range.start > len as i128 {
        len
    } else {
        range.start as usize
    };
    let hi: usize = if range.inclusive {
        if range.end < 0 {
            0
        } else if range.end >= len as i128 {
            len
        } else {
            (range.end + 1) as usize
        }
    } else {
        if range.end < 0 {
            0
        } else if range.end > len as i128 {
            len
        } else {
            range.end as usize
        }
    };
    if hi < lo {
        (lo, lo)
    } else {
        (lo, hi)
    }
}

fn slice_vec<T: Copy>(l: &Vec<T>, lo: usize, hi: usize) -> (r: Vec<T>)
    requires
        lo <= hi <= l@.len(),
    ensures
        r@ == l@.subrange(lo as int, hi as int),
{
    let mut r: Vec<T> = Vec::new();
    let mut i: usize = lo;
    while i < hi
        invariant
            lo <= i <= hi,
            hi <= l@.len(),
            r@ == l@.subrange(lo as int, i as int),
        decreases hi - i,
    {
        r.push(l[i]);
        i += 1;
        assert(r@ =~= l@.subrange(lo as int, i as int));
    }
    r
}

fn slice_strings(l: &Vec<String>, lo: usize, hi: usize) -> (r: Vec<String>)
    requires
        lo <= hi <= l@.len(),
    ensures
        strs_view(r@) == strs_view(l@).subrange(lo as int, hi as int),
{
    let mut r: Vec<String> = Vec::new();
    let mut i: usize = lo;
    while i < hi
        invariant
            lo <= i <= hi,
            hi <= l@.len(),
            r@.len() == i - lo,
            forall|t: int| 0 <= t < i - lo ==> #[trigger] r@[t]@ == l@[t + lo]@,
        decreases hi - i,
    {
        r.push(l[i].clone());
        i += 1;
    }
    assert(strs_view(r@) =~= strs_view(l@).subrange(lo as int, hi as int));
    r
}

fn slice_values(l: &Vec<AgoType>, lo: usize, hi: usize) -> (r: Vec<AgoType>)
    requires
        lo <= hi <= l@.len(),
    ensures
        vals_view(r@) == vals_view(l@).subrange(lo as int, hi as int),
{
    let mut r: Vec<AgoType> = Vec::new();
    let mut i: usize = lo;
    while i < hi
        invariant
            lo <= i <= hi,
            hi <= l@.len(),
            r@.len() == i - lo,
            forall|t: int| 0 <= t < i - lo ==> #[trigger] r@[t]@ == l@[t + lo]@,
        decreases hi - i,
    {
        r.push(l[i].deep_copy());
        i += 1;
    }
    proof {
        lemma_vals_view(r@);
        lemma_vals_view(l@);
    }
    assert(vals_view(r@) =~= vals_view(l@).subrange(lo as int, hi as int));
    r
}

/// Reads a container: a list or string by index or range, a struct by key.
pub fn get(iter: &AgoType, n: &AgoType) -> (r: Result<AgoType, AgoError>)
    ensures
        match r {
            Ok(x) => get_spec(iter@, n@) == Ok::<Val, AgoError>(x@),
            Err(e) => get_spec(iter@, n@) == Err::<Val, AgoError>(e),
        },
{
    match iter {
        AgoType::Struct(es) => match n {
            AgoType::String(key) => match find_key(es, key) {
                Some(j) => {
                    proof { lemma_entries_view(es@); }
                    Ok(es[j].1.deep_copy())
                },
                None => Err(AgoError::KeyNotFound),
            },
            _ => Err(AgoError::KeyTypeMismatch),
        },
        AgoType::String(s) => match n {
            AgoType::Int(i) => {
                let cs = chars_of(s.as_str());
                if 0 <= *i && *i < cs.len() as i128 {
                    Ok(AgoType::String(char_string(cs[*i as usize])))
                } else {
                    Err(AgoError::IndexOutOfBounds)
                }
            },
            AgoType::Range(rg) => {
                let cs = chars_of(s.as_str());
                let (lo, hi) = range_bounds(rg, cs.len());
                Ok(AgoType::String(string_of(&slice_vec(&cs, lo, hi))))
            },
            _ => Err(AgoError::KeyTypeMismatch),
        },
        AgoType::IntList(l) => match n {
            AgoType::Int(i) => if 0 <= *i && *i < l.len() as i128 {
                Ok(AgoType::Int(l[*i as usize]))
            } else {
                Err(AgoError::IndexOutOfBounds)
            },
            AgoType::Range(rg) => {
                let (lo, hi) = range_bounds(rg, l.len());
                Ok(AgoType::IntList(slice_vec(l, lo, hi)))
            },
            _ => Err(AgoError::KeyTypeMismatch),
        },
        AgoType::FloatList(l) => match n {
            AgoType::Int(i) => if 0 <= *i && *i < l.len() as i128 {
                Ok(AgoType::Float(l[*i as usize]))
            } else {
                Err(AgoError::IndexOutOfBounds)
            },
            AgoType::Range(rg) => {
                let (lo, hi) = range_bounds(rg, l.len());
                Ok(AgoType::FloatList(slice_vec(l, lo, hi)))
            },
            _ => Err(AgoError::KeyTypeMismatch),
        },
        AgoType::BoolList(l) => match n {
            AgoType::Int(i) => if 0 <= *i && *i < l.len() as i128 {
                Ok(AgoType::Bool(l[*i as usize]))
            } else {
                Err(AgoError::IndexOutOfBounds)
            },
            AgoType::Range(rg) => {
                let (lo, hi) = range_bounds(rg, l.len());
                Ok(AgoType::BoolList(slice_vec(l, lo, hi)))
            },
            _ => Err(AgoError::KeyTypeMismatch),
        },
        AgoType::StringList(l) => match n {
            AgoType::Int(i) => if 0 <= *i && *i < l.len() as i128 {
                Ok(AgoType::String(l[*i as usize].clone()))
            } else {
                Err(AgoError::IndexOutOfBounds)
            },
            AgoType::Range(rg) => {
                let (lo, hi) = range_bounds(rg, l.len());
                Ok(AgoType::StringList(slice_strings(l, lo, hi)))
            },
            _ => Err(AgoError::KeyTypeMismatch),
        },
        AgoType::ListAny(l) => {
            proof { lemma_vals_view(l@); }
            match n {
                AgoType::Int(i) => if 0 <= *i && *i < l.len() as i128 {
                    Ok(l[*i as usize].deep_copy())
                } else {
                    Err(AgoError::IndexOutOfBounds)
                },
                AgoType::Range(rg) => {
                    let (lo, hi) = range_bounds(rg, l.len());
                    Ok(AgoType::ListAny(slice_values(l, lo, hi)))
                },
                _ => Err(AgoError::KeyTypeMismatch),
            }
        },
        _ => Err(AgoError::UnsupportedContainerOperation),
    }
}

/// The container after `set`: an element replaced in place, or a struct entry stored.
pub open spec fn set_spec(c: Val, k: Val, v: Val) -> Result<Val, AgoError> {
    match (c, k) {
        (Val::Struct(es), Val::Str(key)) => Ok(Val::Struct(set_entry(es, key, v))),
        (Val::Struct(_), _) => Err(AgoError::KeyTypeMismatch),
        (Val::Str(s), Val::Int(i)) => match v {
            Val::Str(t) => if t.len() != 1 {
                Err(AgoError::InvalidCharacterReplacement)
            } else if !(0 <= i < s.len()) {
                Err(AgoError::IndexOutOfBounds)
            } else {
                Ok(Val::Str(s.update(i as int, t[0])))
            },
            _ => Err(AgoError::InvalidCharacterReplacement),
        },
        (_, Val::Int(i)) if is_list(c) => if !(0 <= i < items_of(c).len()) {
            Err(AgoError::IndexOutOfBounds)
        } else {
            match (c, v) {
                (Val::IntList(l), Val::Int(x)) => Ok(Val::IntList(l.update(i as int, x))),
                (Val::FloatList(l), Val::Float(x)) => Ok(Val::FloatList(l.update(i as int, x))),
                (Val::BoolList(l), Val::Bool(x)) => Ok(Val::BoolList(l.update(i as int, x))),
                (Val::StrList(l), Val::Str(x)) => Ok(Val::StrList(l.update(i as int, x))),
                (Val::ListAny(l), _) => Ok(Val::ListAny(l.update(i as int, v))),
                _ => Err(AgoError::ValueKindMismatch),
            }
        },
        (_, _) if is_list(c) => Err(AgoError::KeyTypeMismatch),
        _ => Err(AgoError::UnsupportedContainerOperation),
    }
}

/// The container after `inseri`: an element inserted, later ones shifted right.
pub open spec fn insert_spec(c: Val, k: Val, v: Val) -> Result<Val, AgoError> {
    match (c, k) {
        (Val::Struct(es), Val::Str(key)) => Ok(Val::Struct(set_entry(es, key, v))),
        (Val::Struct(_), _) => Err(AgoError::KeyTypeMismatch),
        (_, Val::Int(i)) if is_list(c) => match (c, v) {
            (Val::IntList(l), Val::Int(x)) => if 0 <= i <= l.len() {
                Ok(Val::IntList(l.insert(i as int, x)))
            } else {
                Err(AgoError::IndexOutOfBounds)
            },
            (Val::FloatList(l), Val::Float(x)) => if 0 <= i <= l.len() {
                Ok(Val::FloatList(l.insert(i as int, x)))
            } else {
                Err(AgoError::IndexOutOfBounds)
            },
            (Val::BoolList(l), Val::Bool(x)) => if 0 <= i <= l.len() {
                Ok(Val::BoolList(l.insert(i as int, x)))
            } else {
                Err(AgoError::IndexOutOfBounds)
            },
            (Val::StrList(l), Val::Str(x)) => if 0 <= i <= l.len() {
                Ok(Val::StrList(l.insert(i as int, x)))
            } else {
                Err(AgoError::IndexOutOfBounds)
            },
            (Val::ListAny(l), _) => if 0 <= i <= l.len() {
                Ok(Val::ListAny(l.insert(i as int, v)))
            } else {
                Err(AgoError::IndexOutOfBounds)
            },
            _ => Err(AgoError::ValueKindMismatch),
        },
        (_, _) if is_list(c) => Err(AgoError::KeyTypeMismatch),
        _ => Err(AgoError::UnsupportedContainerOperation),
    }
}

/// The container after `removium` and the value removed from it.
pub open spec fn remove_spec(c: Val, k: Val) -> Result<(Val, Val), AgoError> {
    match (c, k) {
        (Val::Struct(es), Val::Str(key)) => {
            let p = key_pos(es, key);
            if p < 0 {
                Err(AgoError::KeyNotFound)
            } else {
                Ok((Val::Struct(es.remove(p)), es[p].1))
            }
        },
        (Val::Struct(_), _) => Err(AgoError::KeyTypeMismatch),
        (_, Val::Int(i)) if is_list(c) => if !(0 <= i < items_of(c).len()) {
            Err(AgoError::IndexOutOfBounds)
        } else {
            let j = i as int;
            match c {
                Val::IntList(l) => Ok((Val::IntList(l.remove(j)), Val::Int(l[j]))),
                Val::FloatList(l) => Ok((Val::FloatList(l.remove(j)), Val::Float(l[j]))),
                Val::BoolList(l) => Ok((Val::BoolList(l.remove(j)), Val::Bool(l[j]))),
                Val::StrList(l) => Ok((Val::StrList(l.remove(j)), Val::Str(l[j]))),
                Val::ListAny(l) => Ok((Val::ListAny(l.remove(j)), l[j])),
                _ => Err(AgoError::UnsupportedContainerOperation),
            }
        },
        (_, _) if is_list(c) => Err(AgoError::KeyTypeMismatch),
        _ => Err(AgoError::UnsupportedContainerOperation),
    }
}

fn store_entry(es: &mut Vec<(String, AgoType)>, key: &String, value: &AgoType)
    ensures
        entries_view(final(es)@) == set_entry(entries_view(old(es)@), key@, value@),
{
    let ghost old_es = es@;
    proof { lemma_entries_view(es@); }
    match find_key(es, key) {
        None => {
            es.push((key.clone(), value.deep_copy()));
            proof {
                assert(es@.subrange(0, old_es.len() as int) =~= old_es);
                lemma_set_entry_view(old_es, es@, key@, value@);
            }
        },
        Some(j) => {
            es[j] = (key.clone(), value.deep_copy());
            proof {
                lemma_set_entry_view(old_es, es@, key@, value@);
            }
        },
    }
}

/// Replaces an element of a list or a character of a string, or stores a struct entry.
/// On failure the container is left as it was.
pub fn set(iter: &mut AgoType, n: &AgoType, value: &AgoType) -> (r: Result<(), AgoError>)
    ensures
        match set_spec(old(iter)@, n@, value@) {
            Ok(c) => r is Ok && final(iter)@ == c,
            Err(e) => r == Err::<(), AgoError>(e) && final(iter)@ == old(iter)@,
        },
{
    match iter {
        AgoType::Struct(es) => match n {
            AgoType::String(key) => {
                store_entry(es, key, value);
                Ok(())
            },
            _ => Err(AgoError::KeyTypeMismatch),
        },
        AgoType::String(s) => match n {
            AgoType::Int(i) => match value {
                AgoType::String(t) => {
                    let tc = chars_of(t.as_str());
                    if tc.len() != 1 {
                        return Err(AgoError::InvalidCharacterReplacement);
                    }
                    let mut cs = chars_of(s.as_str());
                    if !(0 <= *i && *i < cs.len() as i128) {
                        return Err(AgoError::IndexOutOfBounds);
                    }
                    cs[*i as usize] = tc[0];
                    *s = string_of(&cs);
                    Ok(())
                },
                _ => Err(AgoError::InvalidCharacterReplacement),
            },
            _ => Err(AgoError::UnsupportedContainerOperation),
        },
        AgoType::IntList(l) => match n {
            AgoType::Int(i) => {
                if !(0 <= *i && *i < l.len() as i128) {
                    return Err(AgoError::IndexOutOfBounds);
                }
                match value {
                    AgoType::Int(x) => {
                        l[*i as usize] = *x;
                        Ok(())
                    },
                    _ => Err(AgoError::ValueKindMismatch),
                }
            },
            _ => Err(AgoError::KeyTypeMismatch),
        },
        AgoType::FloatList(l) => match n {
            AgoType::Int(i) => {
                if !(0 <= *i && *i < l.len() as i128) {
                    return Err(AgoError::IndexOutOfBounds);
                }
                match value {
                    AgoType::Float(x) => {
                        l[*i as usize] = *x;
                        Ok(())
                    },
                    _ => Err(AgoError::ValueKindMismatch),
                }
            },
            _ => Err(AgoError::KeyTypeMismatch),
        },
        AgoType::BoolList(l) => match n {
            AgoType::Int(i) => {
                if !(0 <= *i && *i < l.len() as i128) {
                    return Err(AgoError::IndexOutOfBounds);
                }
                match value {
                    AgoType::Bool(x) => {
                        l[*i as usize] = *x;
                        Ok(())
                    },
                    _ => Err(AgoError::ValueKindMismatch),
                }
            },
            _ => Err(AgoError::KeyTypeMismatch),
        },
        AgoType::StringList(l) => match n {
            AgoType::Int(i) => {
                if !(0 <= *i && *i < l.len() as i128) {
                    return Err(AgoError::IndexOutOfBounds);
                }
                match value {
                    AgoType::String(x) => {
                        let ghost old_l = l@;
                        l[*i as usize] = x.clone();
                        assert(strs_view(l@) =~= strs_view(old_l).update(*i as int, x@));
                        Ok(())
                    },
                    _ => Err(AgoError::ValueKindMismatch),
                }
            },
            _ => Err(AgoError::KeyTypeMismatch),
        },
        AgoType::ListAny(l) => match n {
            AgoType::Int(i) => {
                proof { lemma_vals_view(l@); }
                if !(0 <= *i && *i < l.len() as i128) {
                    return Err(AgoError::IndexOutOfBounds);
                }
                let ghost old_l = l@;
                l[*i as usize] = value.deep_copy();
                proof {
                    lemma_vals_view(l@);
                    lemma_vals_view(old_l);
                }
                assert(vals_view(l@) =~= vals_view(old_l).update(*i as int, value@));
                Ok(())
            },
            _ => Err(AgoError::KeyTypeMismatch),
        },
        _ => Err(AgoError::UnsupportedContainerOperation),
    }
}

/// Inserts into a list at an index (shifting later elements right; the length itself
/// appends), or stores a struct entry. On failure the container is left as it was.
pub fn inseri(coll: &mut AgoType, key: &AgoType, value: &AgoType) -> (r: Result<(), AgoError>)
    ensures
        match insert_spec(old(coll)@, key@, value@) {
            Ok(c) => r is Ok && final(coll)@ == c,
            Err(e) => r == Err::<(), AgoError>(e) && final(coll)@ == old(coll)@,
        },
{
    match coll {
        AgoType::Struct(es) => match key {
            AgoType::String(k) => {
                store_entry(es, k, value);
                Ok(())
            },
            _ => Err(AgoError::KeyTypeMismatch),
        },
        AgoType::IntList(l) => match key {
            AgoType::Int(i) => match value {
                AgoType::Int(x) => {
                    if !(0 <= *i && *i <= l.len() as i128) {
                        return Err(AgoError::IndexOutOfBounds);
                    }
                    l.insert(*i as usize, *x);
                    Ok(())
                },
                _ => Err(AgoError::ValueKindMismatch),
            },
            _ => Err(AgoError::KeyTypeMismatch),
        },
        AgoType::FloatList(l) => match key {
            AgoType::Int(i) => match value {
                AgoType::Float(x) => {
                    if !(0 <= *i && *i <= l.len() as i128) {
                        return Err(AgoError::IndexOutOfBounds);
                    }
                    l.insert(*i as usize, *x);
                    Ok(())
                },
                _ => Err(AgoError::ValueKindMismatch),
            },
            _ => Err(AgoError::KeyTypeMismatch),
        },
        AgoType::BoolList(l) => match key {
            AgoType::Int(i) => match value {
                AgoType::Bool(x) => {
                    if !(0 <= *i && *i <= l.len() as i128) {
                        return Err(AgoError::IndexOutOfBounds);
                    }
                    l.insert(*i as usize, *x);
                    Ok(())
                },
                _ => Err(AgoError::ValueKindMismatch),
            },
            _ => Err(AgoError::KeyTypeMismatch),
        },
        AgoType::StringList(l) => match key {
            AgoType::Int(i) => match value {
                AgoType::String(x) => {
                    if !(0 <= *i && *i <= l.len() as i128) {
                        return Err(AgoError::IndexOutOfBounds);
                    }
                    let ghost old_l = l@;
                    l.insert(*i as usize, x.clone());
                    assert(strs_view(l@) =~= strs_view(old_l).insert(*i as int, x@));
                    Ok(())
                },
                _ => Err(AgoError::ValueKindMismatch),
            },
            _ => Err(AgoError::KeyTypeMismatch),
        },
        AgoType::ListAny(l) => match key {
            AgoType::Int(i) => {
                proof { lemma_vals_view(l@); }
                if !(0 <= *i && *i <= l.len() as i128) {
                    return Err(AgoError::IndexOutOfBounds);
                }
                let ghost old_l = l@;
                l.insert(*i as usize, value.deep_copy());
                proof {
                    lemma_vals_view(l@);
                    lemma_vals_view(old_l);
                }
                assert(vals_view(l@) =~= vals_view(old_l).insert(*i as int, value@));
                Ok(())
            },
            _ => Err(AgoError::KeyTypeMismatch),
        },
        _ => Err(AgoError::UnsupportedContainerOperation),
    }
}

/// Removes an element of a list (shifting later elements left) or a struct entry, and
/// returns it. On failure the container is left as it was.
pub fn removium(coll: &mut AgoType, key: &AgoType) -> (r: Result<AgoType, AgoError>)
    ensures
        match remove_spec(old(coll)@, key@) {
            Ok((c, v)) => r is Ok && final(coll)@ == c && r->Ok_0@ == v,
            Err(e) => r == Err::<AgoType, AgoError>(e) && final(coll)@ == old(coll)@,
        },
{
    match coll {
        AgoType::Struct(es) => match key {
            AgoType::String(k) => {
                proof { lemma_entries_view(es@); }
                match find_key(es, k) {
                    Some(j) => {
                        let ghost old_es = es@;
                        let (_, v) = es.remove(j);
                        proof {
                            lemma_entries_view(es@);
                            assert(entries_view(es@) =~= entries_view(old_es).remove(j as int));
                        }
                        Ok(v)
                    },
                    None => Err(AgoError::KeyNotFound),
                }
            },
            _ => Err(AgoError::KeyTypeMismatch),
        },
        AgoType::IntList(l) => match key {
            AgoType::Int(i) => {
                if !(0 <= *i && *i < l.len() as i128) {
                    return Err(AgoError::IndexOutOfBounds);
                }
                Ok(AgoType::Int(l.remove(*i as usize)))
            },
            _ => Err(AgoError::KeyTypeMismatch),
        },
        AgoType::FloatList(l) => match key {
            AgoType::Int(i) => {
                if !(0 <= *i && *i < l.len() as i128) {
                    return Err(AgoError::IndexOutOfBounds);
                }
                Ok(AgoType::Float(l.remove(*i as usize)))
            },
            _ => Err(AgoError::KeyTypeMismatch),
        },
        AgoType::BoolList(l) => match key {
            AgoType::Int(i) => {
                if !(0 <= *i && *i < l.len() as i128) {
                    return Err(AgoError::IndexOutOfBounds);
                }
                Ok(AgoType::Bool(l.remove(*i as usize)))
            },
            _ => Err(AgoError::KeyTypeMismatch),
        },
        AgoType::StringList(l) => match key {
            AgoType::Int(i) => {
                if !(0 <= *i && *i < l.len() as i128) {
                    return Err(AgoError::IndexOutOfBounds);
                }
                let ghost old_l = l@;
                let x = l.remove(*i as usize);
                assert(strs_view(l@) =~= strs_view(old_l).remove(*i as int));
                Ok(AgoType::String(x))
            },
            _ => Err(AgoError::KeyTypeMismatch),
        },
        AgoType::ListAny(l) => match key {
            AgoType::Int(i) => {
                proof { lemma_vals_view(l@); }
                if !(0 <= *i && *i < l.len() as i128) {
                    return Err(AgoError::IndexOutOfBounds);
                }
                let ghost old_l = l@;
                let x = l.remove(*i as usize);
                proof {
                    lemma_vals_view(l@);
                    lemma_vals_view(old_l);
                }
                assert(vals_view(l@) =~= vals_view(old_l).remove(*i as int));
                Ok(x)
            },
            _ => Err(AgoError::KeyTypeMismatch),
        },
        _ => Err(AgoError::UnsupportedContainerOperation),
    }
}

/// The element-kind name under which a typed list's elements are checked.
pub open spec fn elem_name(v: Val) -> Seq<char> {
    match v {
        Val::Int(_) => "int"@,
        Val::Float(_) => "float"@,
        Val::Bool(_) => "bool"@,
        Val::Str(_) => "string"@,
        Val::IntList(_) => "int_list"@,
        Val::FloatList(_) => "float_list"@,
        Val::BoolList(_) => "bool_list"@,
        Val::StrList(_) => "string_list"@,
        Val::ListAny(_) => "list_any"@,
        Val::Struct(_) => "struct"@,
        Val::Range(_, _, _) => "range"@,
        Val::Null => "null"@,
    }
}

/// Whether an element may stand in a list whose elements are named `expected`
/// (an integer may stand in a list of floats).
pub open spec fn elem_fits(v: Val, expected: Seq<char>) -> bool {
    elem_name(v) == expected || (elem_name(v) == "int"@ && expected == "float"@)
}

/// Whether every element of a heterogeneous list fits; other values always do.
pub open spec fn list_fits(v: Val, expected: Seq<char>) -> bool {
    v is ListAny ==> forall|i: int|
        0 <= i < v->ListAny_0.len() ==> elem_fits(#[trigger] v->ListAny_0[i], expected)
}

proof fn lemma_not_fits(l: Seq<Val>, e: Seq<char>, i: int)
    requires
        0 <= i < l.len(),
        !elem_fits(l[i], e),
    ensures
        !list_fits(Val::ListAny(l), e),
{
    let v = Val::ListAny(l);
    assert(v->ListAny_0 == l);
    assert(v->ListAny_0[i] == l[i]);
}

fn elem_name_exec(v: &AgoType) -> (r: String)
    ensures
        r@ == elem_name(v@),
{
    let name: &str = match v {
        AgoType::Int(_) => "int",
        AgoType::Float(_) => "float",
        AgoType::Bool(_) => "bool",
        AgoType::String(_) => "string",
        AgoType::IntList(_) => "int_list",
        AgoType::FloatList(_) => "float_list",
        AgoType::BoolList(_) => "bool_list",
        AgoType::StringList(_) => "string_list",
        AgoType::ListAny(_) => "list_any",
        AgoType::Struct(_) => "struct",
        AgoType::Range(_) => "range",
        AgoType::Null => "null",
    };
    name.to_owned()
}

/// Checks that every element of a heterogeneous list fits the element kind named
/// `expected_elem`, and returns a copy of the list. Other values pass unchecked.
pub fn validate_list_type(list: &AgoType, expected_elem: &str) -> (r: Result<AgoType, AgoError>)
    ensures
        list_fits(list@, expected_elem@) ==> r is Ok && r->Ok_0@ == list@,
        !list_fits(list@, expected_elem@) ==> r == Err::<AgoType, AgoError>(
            AgoError::ValueKindMismatch,
        ),
{
    if let AgoType::ListAny(items) = list {
        proof { lemma_vals_view(items@); }
        let expected = expected_elem.to_owned();
        let int_name = "int".to_owned();
        let float_name = "float".to_owned();
        let mut i: usize = 0;
        while i < items.len()
            invariant
                i <= items@.len(),
                list@ == Val::ListAny(vals_view(items@)),
                vals_view(items@).len() == items@.len(),
                forall|t: int| 0 <= t < items@.len() ==> #[trigger] vals_view(items@)[t] == items@[t]@,
                expected@ == expected_elem@,
                int_name@ == "int"@,
                float_name@ == "float"@,
                forall|t: int| 0 <= t < i ==> elem_fits(#[trigger] vals_view(items@)[t], expected_elem@),
            decreases items.len() - i,
        {
            let actual = elem_name_exec(&items[i]);
            let fits = actual == expected || (actual == int_name && expected == float_name);
            if !fits {
                proof {
                    lemma_not_fits(vals_view(items@), expected_elem@, i as int);
                }
                return Err(AgoError::ValueKindMismatch);
            }
            i += 1;
        }
    }
    Ok(list.deep_copy())
}

} // verus!
