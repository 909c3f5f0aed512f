use vstd::prelude::*;

verus! {

/// An integer interval. It may be reversed; emptiness is derived from the bounds.
#[derive(Debug, Clone, Copy, PartialEq, Eq, Structural)]
pub struct AgoRange {
    pub start: i128,
    pub end: i128,
    pub inclusive: bool,
}

/// A runtime value. A `Float` is held as the bit pattern of an IEEE-754 binary64
/// number; a `Struct` as its entries, whose keys are distinct.
#[derive(Debug)]
pub enum AgoType {
    Int(i128),
    Float(u64),
    Bool(bool),
    String(String),
    IntList(Vec<i128>),
    FloatList(Vec<u64>),
    BoolList(Vec<bool>),
    StringList(Vec<String>),
    Struct(Vec<(String, AgoType)>),
    ListAny(Vec<AgoType>),
    Range(AgoRange),
    Null,
}

/// The kind a value is cast to.
#[derive(Debug, Clone, Copy, PartialEq, Eq, Structural)]
pub enum TargetType {
    Int,
    Float,
    Bool,
    String,
    IntList,
    FloatList,
    BoolList,
    StringList,
    Struct,
    ListAny,
    Range,
    Null,
    Any,
}

/// The record that describes a file read from disk.
pub struct FileStruct {
    pub filename: String,
    pub content: String,
    pub filesize: i128,
}

/// The mathematical model of a value.
pub enum Val {
    Int(i128),
    Float(u64),
    Bool(bool),
    Str(Seq<char>),
    IntList(Seq<i128>),
    FloatList(Seq<u64>),
    BoolList(Seq<bool>),
    StrList(Seq<Seq<char>>),
    Struct(Seq<(Seq<char>, Val)>),
    ListAny(Seq<Val>),
    Range(i128, i128, bool),
    Null,
}

pub open spec fn strs_view(l: Seq<String>) -> Seq<Seq<char>> {
    l.map_values(|s: String| s@)
}

impl AgoType {
    pub open spec fn view(&self) -> Val
        decreases self,
    {
        match self {
            AgoType::Int(i) => Val::Int(*i),
            AgoType::Float(b) => Val::Float(*b),
            AgoType::Bool(b) => Val::Bool(*b),
            AgoType::String(s) => Val::Str(s@),
            AgoType::IntList(l) => Val::IntList(l@),
            AgoType::FloatList(l) => Val::FloatList(l@),
            AgoType::BoolList(l) => Val::BoolList(l@),
            AgoType::StringList(l) => Val::StrList(strs_view(l@)),
            AgoType::Struct(es) => Val::Struct(entries_view(es@)),
            AgoType::ListAny(l) => Val::ListAny(vals_view(l@)),
            AgoType::Range(r) => Val::Range(r.start, r.end, r.inclusive),
            AgoType::Null => Val::Null,
        }
    }
}

pub open spec fn vals_view(l: Seq<AgoType>) -> Seq<Val>
    decreases l,
{
    if l.len() == 0 {
        Seq::empty()
    } else {
        vals_view(l.subrange(0, l.len() - 1)).push(l[l.len() - 1].view())
    }
}

pub open spec fn entries_view(l: Seq<(String, AgoType)>) -> Seq<(Seq<char>, Val)>
    decreases l,
{
    if l.len() == 0 {
        Seq::empty()
    } else {
        entries_view(l.subrange(0, l.len() - 1)).push(
            (l[l.len() - 1].0@, l[l.len() - 1].1.view()),
        )
    }
}

} // verus!

verus! {

pub proof fn lemma_vals_view(l: Seq<AgoType>)
    ensures
        vals_view(l).len() == l.len(),
        forall|i: int| 0 <= i < l.len() ==> #[trigger] vals_view(l)[i] == l[i]@,
    decreases l.len(),
{
    if l.len() > 0 {
        lemma_vals_view(l.subrange(0, l.len() - 1));
    }
}

pub proof fn lemma_entries_view(l: Seq<(String, AgoType)>)
    ensures
        entries_view(l).len() == l.len(),
        forall|i: int|
            0 <= i < l.len() ==> #[trigger] entries_view(l)[i] == (l[i].0@, l[i].1@),
    decreases l.len(),
{
    if l.len() > 0 {
        lemma_entries_view(l.subrange(0, l.len() - 1));
    }
}

/// The kind of a modelled value, as the target that names it.
pub open spec fn kind_of(v: Val) -> TargetType {
    match v {
        Val::Int(_) => TargetType::Int,
        Val::Float(_) => TargetType::Float,
        Val::Bool(_) => TargetType::Bool,
        Val::Str(_) => TargetType::String,
        Val::IntList(_) => TargetType::IntList,
        Val::FloatList(_) => TargetType::FloatList,
        Val::BoolList(_) => TargetType::BoolList,
        Val::StrList(_) => TargetType::StringList,
        Val::Struct(_) => TargetType::Struct,
        Val::ListAny(_) => TargetType::ListAny,
        Val::Range(_, _, _) => TargetType::Range,
        Val::Null => TargetType::Null,
    }
}

impl AgoType {
    /// The kind of this value.
    pub fn kind(&self) -> (r: TargetType)
        ensures
            r == kind_of(self@),
    {
        match self {
            AgoType::Int(_) => TargetType::Int,
            AgoType::Float(_) => TargetType::Float,
            AgoType::Bool(_) => TargetType::Bool,
            AgoType::String(_) => TargetType::String,
            AgoType::IntList(_) => TargetType::IntList,
            AgoType::FloatList(_) => TargetType::FloatList,
            AgoType::BoolList(_) => TargetType::BoolList,
            AgoType::StringList(_) => TargetType::StringList,
            AgoType::Struct(_) => TargetType::Struct,
            AgoType::ListAny(_) => TargetType::ListAny,
            AgoType::Range(_) => TargetType::Range,
            AgoType::Null => TargetType::Null,
        }
    }
}

} // verus!

verus! {

/// A copy of a vector of plain values.
pub fn copy_vec<T: Copy>(v: &Vec<T>) -> (r: Vec<T>)
    ensures
        r@ == v@,
{
    let mut r: Vec<T> = Vec::new();
    let mut i: usize = 0;
    while i < v.len()
        invariant
            i <= v@.len(),
            r@ == v@.subrange(0, i as int),
        decreases v.len() - i,
    {
        r.push(v[i]);
        i += 1;
        assert(r@ =~= v@.subrange(0, i as int));
    }
    assert(r@ =~= v@);
    r
}

/// A copy of a vector of strings.
pub fn copy_strings(v: &Vec<String>) -> (r: Vec<String>)
    ensures
        strs_view(r@) == strs_view(v@),
        r@.len() == v@.len(),
{
    let mut r: Vec<String> = Vec::new();
    let mut i: usize = 0;
    while i < v.len()
        invariant
            i <= v@.len(),
            r@.len() == i,
            forall|t: int| 0 <= t < i ==> #[trigger] r@[t]@ == v@[t]@,
        decreases v.len() - i,
    {
        r.push(v[i].clone());
        i += 1;
    }
    assert(strs_view(r@) =~= strs_view(v@));
    r
}

impl AgoType {
    /// A copy of the value that shares nothing with it.
    #[verifier::loop_isolation(false)]
    pub fn deep_copy(&self) -> (r: AgoType)
        ensures
            r@ == self@,
        decreases self,
    {
        match self {
            AgoType::Int(i) => AgoType::Int(*i),
            AgoType::Float(b) => AgoType::Float(*b),
            AgoType::Bool(b) => AgoType::Bool(*b),
            AgoType::String(s) => AgoType::String(s.clone()),
            AgoType::IntList(l) => AgoType::IntList(copy_vec(l)),
            AgoType::FloatList(l) => AgoType::FloatList(copy_vec(l)),
            AgoType::BoolList(l) => AgoType::BoolList(copy_vec(l)),
            AgoType::StringList(l) => AgoType::StringList(copy_strings(l)),
            AgoType::Struct(es) => {
                let mut r: Vec<(String, AgoType)> = Vec::new();
                let mut i: usize = 0;
                while i < es.len()
                    invariant
                        i <= es@.len(),
                        r@.len() == i,
                        forall|t: int|
                            0 <= t < i ==> #[trigger] r@[t].0@ == es@[t].0@ && r@[t].1@
                                == es@[t].1@,
                    decreases es.len() - i,
                {
                    proof {
                        assert(decreases_to!(*es => es[i as int]));
                        assert(decreases_to!(es[i as int] => es[i as int].1));
                        assert(decreases_to!(*self => es[i as int].1));
                    }
                    let k = es[i].0.clone();
                    let v = es[i].1.deep_copy();
                    r.push((k, v));
                    i += 1;
                }
                proof {
                    lemma_entries_view(r@);
                    lemma_entries_view(es@);
                    assert(entries_view(r@) =~= entries_view(es@));
                }
                AgoType::Struct(r)
            },
            AgoType::ListAny(l) => {
                let mut r: Vec<AgoType> = Vec::new();
                let mut i: usize = 0;
                while i < l.len()
                    invariant
                        i <= l@.len(),
                        r@.len() == i,
                        forall|t: int| 0 <= t < i ==> #[trigger] r@[t]@ == l@[t]@,
                    decreases l.len() - i,
                {
                    proof {
                        assert(decreases_to!(*l => l[i as int]));
                        assert(decreases_to!(*self => l[i as int]));
                    }
                    r.push(l[i].deep_copy());
                    i += 1;
                }
                proof {
                    lemma_vals_view(r@);
                    lemma_vals_view(l@);
                    assert(vals_view(r@) =~= vals_view(l@));
                }
                AgoType::ListAny(r)
            },
            AgoType::Range(r) => AgoType::Range(*r),
            AgoType::Null => AgoType::Null,
        }
    }
}

impl Clone for AgoType {
    fn clone(&self) -> (r: AgoType)
        ensures
            r@ == self@,
    {
        self.deep_copy()
    }
}

} // verus!
