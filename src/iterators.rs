use vstd::prelude::*;
use crate::types::{AgoType, Val, vals_view, lemma_vals_view};
use crate::casting::items_of;
use crate::text::{chars_of, char_string};

verus! {

enum Source {
    Items(Vec<AgoType>),
    Span { next: i128, last: i128, done: bool },
}

/// A single-pass sequence of the values that an iterable value holds. The integers
/// of a range are produced one by one, never stored.
pub struct AgoIter {
    source: Source,
    pos: usize,
}

/// The values that iterating over a value produces, in order.
pub open spec fn iter_spec(v: Val) -> Seq<Val> {
    match v {
        Val::Str(s) => Seq::new(s.len(), |i: int| Val::Str(seq![s[i]])),
        Val::Range(a, b, inc) => crate::casting::range_seq(a, b, inc).map_values(|x: i128| Val::Int(x)),
        _ => items_of(v),
    }
}

impl AgoIter {
    /// The values still to come.
    pub closed spec fn remaining(&self) -> Seq<Val> {
        match self.source {
            Source::Items(v) => vals_view(v@).subrange(self.pos as int, v@.len() as int),
            Source::Span { next, last, done } => if done {
                Seq::empty()
            } else {
                Seq::new((last - next + 1) as nat, |i: int| Val::Int((next + i) as i128))
            },
        }
    }

    pub closed spec fn wf(&self) -> bool {
        match self.source {
            Source::Items(v) => self.pos <= v@.len(),
            Source::Span { next, last, done } => done || next <= last,
        }
    }

    /// The next value, if any.
    pub fn next(&mut self) -> (r: Option<AgoType>)
        requires
            old(self).wf(),
        ensures
            final(self).wf(),
            old(self).remaining().len() == 0 ==> r is None && final(self).remaining() == old(self).remaining(),
            old(self).remaining().len() > 0 ==> r is Some && r->Some_0@ == old(self).remaining()[0]
                && final(self).remaining() == old(self).remaining().drop_first(),
    {
        match &mut self.source {
            Source::Items(v) => {
                proof { lemma_vals_view(v@); }
                if self.pos < v.len() {
                    let x = v[self.pos].deep_copy();
                    let ghost before = vals_view(v@).subrange(self.pos as int, v@.len() as int);
                    self.pos = self.pos + 1;
                    assert(vals_view(v@).subrange(self.pos as int, v@.len() as int) =~= before.drop_first());
                    Some(x)
                } else {
                    None
                }
            },
            Source::Span { next, last, done } => {
                if *done {
                    None
                } else {
                    let ghost before = Seq::new((*last - *next + 1) as nat, |i: int| Val::Int((*next + i) as i128));
                    let x = *next;
                    if *next == *last {
                        *done = true;
                    } else {
                        *next = *next + 1;
                    }
                    assert(*done || Seq::new((*last - *next + 1) as nat, |i: int| Val::Int((*next + i) as i128)) =~= before.drop_first());
                    Some(AgoType::Int(x))
                }
            },
        }
    }
}

fn char_values(s: &String) -> (r: Vec<AgoType>)
    ensures
        vals_view(r@) == iter_spec(Val::Str(s@)),
{
    let cs = chars_of(s.as_str());
    let mut r: Vec<AgoType> = Vec::new();
    let mut i: usize = 0;
    while i < cs.len()
        invariant
            i <= cs@.len(),
            cs@ == s@,
            r@.len() == i,
            forall|t: int| 0 <= t < i ==> #[trigger] r@[t]@ == Val::Str(seq![s@[t]]),
        decreases cs.len() - i,
    {
        r.push(AgoType::String(char_string(cs[i])));
        i += 1;
    }
    proof { lemma_vals_view(r@); }
    assert(vals_view(r@) =~= iter_spec(Val::Str(s@)));
    r
}

/// Iterates over a list (element by element), a string (character by character, each
/// as a one-character string) or a range (its integers). Other values give nothing.
pub fn into_iter(iterable: &AgoType) -> (r: AgoIter)
    ensures
        r.wf(),
        r.remaining() == iter_spec(iterable@),
{
    match iterable {
        AgoType::String(s) => {
            let items = char_values(s);
            let r = AgoIter { source: Source::Items(items), pos: 0 };
            assert(vals_view(items@).subrange(0, items@.len() as int) =~= vals_view(items@)) by {
                lemma_vals_view(items@);
            }
            r
        },
        AgoType::Range(rg) => {
            let inc = rg.inclusive;
            if rg.start > rg.end || (!inc && rg.start == rg.end) {
                let r = AgoIter { source: Source::Span { next: 0, last: 0, done: true }, pos: 0 };
                assert(r.remaining() =~= iter_spec(iterable@));
                r
            } else {
                let last = if inc { rg.end } else { rg.end - 1 };
                let r = AgoIter { source: Source::Span { next: rg.start, last, done: false }, pos: 0 };
                assert(r.remaining() =~= iter_spec(iterable@));
                r
            }
        },
        _ => {
            let items = match iterable.as_items() {
                Some(v) => v,
                None => Vec::new(),
            };
            let r = AgoIter { source: Source::Items(items), pos: 0 };
            proof { lemma_vals_view(items@); }
            assert(r.remaining() =~= iter_spec(iterable@));
            r
        },
    }
}

} // verus!
