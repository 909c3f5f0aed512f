use vstd::prelude::*;
use crate::types::{AgoType, Val, vals_view, entries_view, lemma_vals_view, lemma_entries_view};
use crate::floats::{float_eq, float_equals};

verus! {

/// Position of the first entry with key `k`, or -1 when there is none.
pub open spec fn key_pos<V>(es: Seq<(Seq<char>, V)>, k: Seq<char>) -> int {
    if exists|i: int| is_first_key(es, k, i) {
        choose|i: int| is_first_key(es, k, i)
    } else {
        -1
    }
}

pub open spec fn is_first_key<V>(es: Seq<(Seq<char>, V)>, k: Seq<char>, i: int) -> bool {
    &&& 0 <= i < es.len()
    &&& es[i].0 == k
    &&& forall|t: int| 0 <= t < i ==> es[t].0 != k
}

pub proof fn lemma_key_pos_found<V>(es: Seq<(Seq<char>, V)>, k: Seq<char>, i: int)
    requires
        is_first_key(es, k, i),
    ensures
        key_pos(es, k) == i,
{
    let j = key_pos(es, k);
    assert(is_first_key(es, k, j));
    if j < i {
        assert(es[j].0 != k);
    } else if i < j {
        assert(es[i].0 != k);
    }
}

pub proof fn lemma_key_pos_absent<V>(es: Seq<(Seq<char>, V)>, k: Seq<char>)
    requires
        forall|t: int| 0 <= t < es.len() ==> #[trigger] es[t].0 != k,
    ensures
        key_pos(es, k) == -1,
{
    if exists|i: int| is_first_key(es, k, i) {
        let i = choose|i: int| is_first_key(es, k, i);
        assert(es[i].0 != k);
    }
}

/// The value stored under `k`, if any.
pub open spec fn lookup(es: Seq<(Seq<char>, Val)>, k: Seq<char>) -> Option<Val> {
    let p = key_pos(es, k);
    if p < 0 {
        None
    } else {
        Some(es[p].1)
    }
}

/// Structural, kind-sensitive equality. Floats compare as IEEE-754 numbers;
/// structs compare as maps from key to value.
pub open spec fn val_eq(a: Val, b: Val) -> bool
    decreases a,
{
    match (a, b) {
        (Val::Int(x), Val::Int(y)) => x == y,
        (Val::Float(x), Val::Float(y)) => float_eq(x, y),
        (Val::Bool(x), Val::Bool(y)) => x == y,
        (Val::Str(x), Val::Str(y)) => x == y,
        (Val::IntList(x), Val::IntList(y)) => x == y,
        (Val::FloatList(x), Val::FloatList(y)) => x.len() == y.len() && forall|i: int|
            0 <= i < x.len() ==> float_eq(#[trigger] x[i], y[i]),
        (Val::BoolList(x), Val::BoolList(y)) => x == y,
        (Val::StrList(x), Val::StrList(y)) => x == y,
        (Val::Struct(x), Val::Struct(y)) => x.len() == y.len() && entries_in(x, y),
        (Val::ListAny(x), Val::ListAny(y)) => x.len() == y.len() && vals_eq(x, y),
        (Val::Range(s1, e1, i1), Val::Range(s2, e2, i2)) => s1 == s2 && e1 == e2 && i1 == i2,
        (Val::Null, Val::Null) => true,
        _ => false,
    }
}

/// Element-wise equality of the common prefix of two sequences.
pub open spec fn vals_eq(x: Seq<Val>, y: Seq<Val>) -> bool
    decreases x,
{
    if x.len() == 0 || y.len() == 0 {
        true
    } else {
        vals_eq(x.subrange(0, x.len() - 1), y.subrange(0, y.len() - 1)) && val_eq(
            x[x.len() - 1],
            y[y.len() - 1],
        )
    }
}

/// Every entry of `x` is found in `y` with an equal value.
pub open spec fn entries_in(x: Seq<(Seq<char>, Val)>, y: Seq<(Seq<char>, Val)>) -> bool
    decreases x,
{
    if x.len() == 0 {
        true
    } else {
        entries_in(x.subrange(0, x.len() - 1), y) && match lookup(y, x[x.len() - 1].0) {
            Some(w) => val_eq(x[x.len() - 1].1, w),
            None => false,
        }
    }
}

/// Position of the first entry whose key is `k`.
#[verifier::loop_isolation(false)]
pub fn find_key(es: &Vec<(String, AgoType)>, k: &String) -> (r: Option<usize>)
    ensures
        match r {
            Some(i) => key_pos(entries_view(es@), k@) == i as int,
            None => key_pos(entries_view(es@), k@) == -1,
        },
{
    let ghost ev = entries_view(es@);
    proof {
        lemma_entries_view(es@);
    }
    let mut i: usize = 0;
    while i < es.len()
        invariant
            i <= es@.len(),
            ev == entries_view(es@),
            ev.len() == es@.len(),
            forall|t: int| 0 <= t < i ==> #[trigger] ev[t].0 != k@,
        decreases es.len() - i,
    {
        assert(ev[i as int].0 == es@[i as int].0@);
        if es[i].0 == *k {
            proof {
                lemma_key_pos_found(ev, k@, i as int);
            }
            return Some(i);
        }
        i += 1;
    }
    proof {
        lemma_key_pos_absent(ev, k@);
    }
    None
}

impl AgoType {
    /// Structural, kind-sensitive equality.
    #[verifier::loop_isolation(false)]
    pub fn equals(&self, other: &AgoType) -> (r: bool)
        ensures
            r == val_eq(self@, other@),
        decreases self,
    {
        match (self, other) {
            (AgoType::Int(x), AgoType::Int(y)) => *x == *y,
            (AgoType::Float(x), AgoType::Float(y)) => float_equals(*x, *y),
            (AgoType::Bool(x), AgoType::Bool(y)) => *x == *y,
            (AgoType::String(x), AgoType::String(y)) => *x == *y,
            (AgoType::IntList(x), AgoType::IntList(y)) => {
                if x.len() != y.len() {
                    return false;
                }
                let mut i: usize = 0;
                while i < x.len()
                    invariant
                        i <= x@.len(),
                        x@.len() == y@.len(),
                        forall|t: int| 0 <= t < i ==> x@[t] == y@[t],
                    decreases x.len() - i,
                {
                    if x[i] != y[i] {
                        return false;
                    }
                    i += 1;
                }
                assert(x@ =~= y@);
                true
            },
            (AgoType::FloatList(x), AgoType::FloatList(y)) => {
                if x.len() != y.len() {
                    return false;
                }
                let mut i: usize = 0;
                while i < x.len()
                    invariant
                        i <= x@.len(),
                        x@.len() == y@.len(),
                        forall|t: int| 0 <= t < i ==> float_eq(#[trigger] x@[t], y@[t]),
                    decreases x.len() - i,
                {
                    if !float_equals(x[i], y[i]) {
                        return false;
                    }
                    i += 1;
                }
                true
            },
            (AgoType::BoolList(x), AgoType::BoolList(y)) => {
                if x.len() != y.len() {
                    return false;
                }
                let mut i: usize = 0;
                while i < x.len()
                    invariant
                        i <= x@.len(),
                        x@.len() == y@.len(),
                        forall|t: int| 0 <= t < i ==> x@[t] == y@[t],
                    decreases x.len() - i,
                {
                    if x[i] != y[i] {
                        return false;
                    }
                    i += 1;
                }
                assert(x@ =~= y@);
                true
            },
            (AgoType::StringList(x), AgoType::StringList(y)) => {
                if x.len() != y.len() {
                    assert(crate::types::strs_view(x@).len() == x@.len());
                    return false;
                }
                let mut i: usize = 0;
                while i < x.len()
                    invariant
                        i <= x@.len(),
                        x@.len() == y@.len(),
                        forall|t: int| 0 <= t < i ==> x@[t]@ == y@[t]@,
                    decreases x.len() - i,
                {
                    if x[i] != y[i] {
                        assert(crate::types::strs_view(x@)[i as int] != crate::types::strs_view(y@)[i as int]);
                        return false;
                    }
                    i += 1;
                }
                assert(crate::types::strs_view(x@) =~= crate::types::strs_view(y@));
                true
            },
            (AgoType::ListAny(x), AgoType::ListAny(y)) => {
                proof {
                    lemma_vals_view(x@);
                    lemma_vals_view(y@);
                }
                if x.len() != y.len() {
                    return false;
                }
                let mut i: usize = 0;
                while i < x.len()
                    invariant
                        i <= x@.len(),
                        x@.len() == y@.len(),
                        vals_view(x@).len() == x@.len(),
                        vals_view(y@).len() == y@.len(),
                        forall|t: int| 0 <= t < x@.len() ==> #[trigger] vals_view(x@)[t] == x@[t]@,
                        forall|t: int| 0 <= t < y@.len() ==> #[trigger] vals_view(y@)[t] == y@[t]@,
                        vals_eq(vals_view(x@).subrange(0, i as int), vals_view(y@).subrange(0, i as int)),
                    decreases x.len() - i,
                {
                    proof {
                        assert(decreases_to!(*x => x[i as int]));
                        assert(decreases_to!(*self => x[i as int]));
                    }
                    if !x[i].equals(&y[i]) {
                        proof {
                            lemma_vals_eq_index(vals_view(x@), vals_view(y@), i as int);
                        }
                        return false;
                    }
                    proof {
                        let xs = vals_view(x@).subrange(0, i + 1);
                        let ys = vals_view(y@).subrange(0, i + 1);
                        assert(xs.subrange(0, i as int) =~= vals_view(x@).subrange(0, i as int));
                        assert(ys.subrange(0, i as int) =~= vals_view(y@).subrange(0, i as int));
                    }
                    i += 1;
                }
                assert(vals_view(x@).subrange(0, i as int) =~= vals_view(x@));
                assert(vals_view(y@).subrange(0, i as int) =~= vals_view(y@));
                true
            },
            (AgoType::Struct(x), AgoType::Struct(y)) => {
                proof {
                    lemma_entries_view(x@);
                    lemma_entries_view(y@);
                }
                if x.len() != y.len() {
                    return false;
                }
                let ghost xv = entries_view(x@);
                let ghost yv = entries_view(y@);
                let mut i: usize = 0;
                while i < x.len()
                    invariant
                        i <= x@.len(),
                        x@.len() == y@.len(),
                        xv == entries_view(x@),
                        yv == entries_view(y@),
                        xv.len() == x@.len(),
                        yv.len() == y@.len(),
                        forall|t: int| 0 <= t < x@.len() ==> #[trigger] xv[t] == (x@[t].0@, x@[t].1@),
                        forall|t: int| 0 <= t < y@.len() ==> #[trigger] yv[t] == (y@[t].0@, y@[t].1@),
                        entries_in(xv.subrange(0, i as int), yv),
                    decreases x.len() - i,
                {
                    let ghost xs = xv.subrange(0, i + 1);
                    assert(xs.subrange(0, i as int) =~= xv.subrange(0, i as int));
                    assert(xs[i as int] == xv[i as int]);
                    match find_key(y, &x[i].0) {
                        None => {
                            proof {
                                lemma_entries_in_index(xv, yv, i as int);
                            }
                            return false;
                        },
                        Some(j) => {
                            proof {
                                assert(decreases_to!(*x => x[i as int]));
                                assert(decreases_to!(x[i as int] => x[i as int].1));
                                assert(decreases_to!(*self => x[i as int].1));
                            }
                            if !x[i].1.equals(&y[j].1) {
                                proof {
                                    lemma_entries_in_index(xv, yv, i as int);
                                }
                                return false;
                            }
                        },
                    }
                    i += 1;
                }
                assert(xv.subrange(0, i as int) =~= xv);
                true
            },
            (AgoType::Range(x), AgoType::Range(y)) => x.start == y.start && x.end == y.end
                && x.inclusive == y.inclusive,
            (AgoType::Null, AgoType::Null) => true,
            _ => false,
        }
    }
}

proof fn lemma_vals_eq_index(x: Seq<Val>, y: Seq<Val>, i: int)
    requires
        0 <= i < x.len(),
        x.len() == y.len(),
        !val_eq(x[i], y[i]),
    ensures
        !vals_eq(x, y),
    decreases x.len(),
{
    if i < x.len() - 1 {
        let xs = x.subrange(0, x.len() - 1);
        let ys = y.subrange(0, y.len() - 1);
        assert(xs[i] == x[i] && ys[i] == y[i]);
        lemma_vals_eq_index(xs, ys, i);
    }
}

proof fn lemma_entries_in_index(x: Seq<(Seq<char>, Val)>, y: Seq<(Seq<char>, Val)>, i: int)
    requires
        0 <= i < x.len(),
        match lookup(y, x[i].0) {
            Some(w) => !val_eq(x[i].1, w),
            None => true,
        },
    ensures
        !entries_in(x, y),
    decreases x.len(),
{
    if i < x.len() - 1 {
        let xs = x.subrange(0, x.len() - 1);
        assert(xs[i] == x[i]);
        lemma_entries_in_index(xs, y, i);
    }
}

impl PartialEq for AgoType {
    fn eq(&self, other: &AgoType) -> (r: bool) {
        self.equals(other)
    }
}

impl vstd::std_specs::cmp::PartialEqSpecImpl for AgoType {
    open spec fn obeys_eq_spec() -> bool {
        true
    }

    open spec fn eq_spec(&self, other: &AgoType) -> bool {
        val_eq(self@, other@)
    }
}

} // verus!
