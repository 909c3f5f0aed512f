use vstd::prelude::*;
use crate::error::AgoError;
use crate::types::{AgoType, AgoRange, Val, vals_view, strs_view, lemma_vals_view, copy_vec, copy_strings};
use crate::floats::{FloatOp, FloatOut, FloatQuery, float_ops_ok, float_bits, float_truth, float_eq, float_equals, bits_of, truth_of, SIGN_BIT, float_negate};
use crate::equality::{val_eq, key_pos, find_key};
use crate::text::{chars_of, append_string};

verus! {

/// An arithmetic operator.
#[derive(Debug, Clone, Copy, PartialEq, Eq, Structural)]
pub enum ArithOp {
    Add,
    Sub,
    Mul,
    Div,
    Rem,
}

/// A comparison operator.
#[derive(Debug, Clone, Copy, PartialEq, Eq, Structural)]
pub enum CmpOp {
    Greater,
    GreaterEq,
    Less,
    LessEq,
}

/// Integer arithmetic, checked: overflow and division by zero are errors.
pub open spec fn int_arith(op: ArithOp, x: i128, y: i128) -> Result<Val, AgoError> {
    let r = match op {
        ArithOp::Add => x.checked_add(y),
        ArithOp::Sub => x.checked_sub(y),
        ArithOp::Mul => x.checked_mul(y),
        ArithOp::Div => x.checked_div(y),
        ArithOp::Rem => x.checked_rem(y),
    };
    if (op == ArithOp::Div || op == ArithOp::Rem) && y == 0 {
        Err(AgoError::DivisionByZero)
    } else {
        match r {
            Some(z) => Ok(Val::Int(z)),
            None => Err(AgoError::IntegerOverflow),
        }
    }
}

pub open spec fn float_query(op: ArithOp, a: u64, b: u64) -> FloatQuery {
    match op {
        ArithOp::Add => FloatQuery::Add(a, b),
        ArithOp::Sub => FloatQuery::Sub(a, b),
        ArithOp::Mul => FloatQuery::Mul(a, b),
        ArithOp::Div => FloatQuery::Div(a, b),
        ArithOp::Rem => FloatQuery::Rem(a, b),
    }
}

/// The binary64 number nearest to an integer.
pub open spec fn int_as_float<F: Fn(FloatOp) -> FloatOut>(fl: F, x: i128) -> u64 {
    float_bits(fl, FloatQuery::FromInt(x))
}

/// Numeric arithmetic: integers stay integers; a float operand promotes both to float.
pub open spec fn numeric_spec<F: Fn(FloatOp) -> FloatOut>(fl: F, op: ArithOp, a: Val, b: Val) -> Result<Val, AgoError> {
    match (a, b) {
        (Val::Int(x), Val::Int(y)) => int_arith(op, x, y),
        (Val::Float(x), Val::Float(y)) => Ok(Val::Float(float_bits(fl, float_query(op, x, y)))),
        (Val::Float(x), Val::Int(y)) => Ok(
            Val::Float(float_bits(fl, float_query(op, x, int_as_float(fl, y)))),
        ),
        (Val::Int(x), Val::Float(y)) => Ok(
            Val::Float(float_bits(fl, float_query(op, int_as_float(fl, x), y))),
        ),
        _ => Err(AgoError::UnsupportedOperandKinds),
    }
}

/// `+`: numeric addition, or concatenation of two strings or two lists of one kind.
pub open spec fn add_spec<F: Fn(FloatOp) -> FloatOut>(fl: F, a: Val, b: Val) -> Result<Val, AgoError> {
    match (a, b) {
        (Val::Str(x), Val::Str(y)) => Ok(Val::Str(x + y)),
        (Val::IntList(x), Val::IntList(y)) => Ok(Val::IntList(x + y)),
        (Val::FloatList(x), Val::FloatList(y)) => Ok(Val::FloatList(x + y)),
        (Val::BoolList(x), Val::BoolList(y)) => Ok(Val::BoolList(x + y)),
        (Val::StrList(x), Val::StrList(y)) => Ok(Val::StrList(x + y)),
        (Val::ListAny(x), Val::ListAny(y)) => Ok(Val::ListAny(x + y)),
        _ => numeric_spec(fl, ArithOp::Add, a, b),
    }
}

fn float_op(op: ArithOp, a: u64, b: u64) -> (r: FloatOp)
    ensures
        crate::floats::query_of(r) == float_query(op, a, b),
{
    match op {
        ArithOp::Add => FloatOp::Add(a, b),
        ArithOp::Sub => FloatOp::Sub(a, b),
        ArithOp::Mul => FloatOp::Mul(a, b),
        ArithOp::Div => FloatOp::Div(a, b),
        ArithOp::Rem => FloatOp::Rem(a, b),
    }
}

/// The outcome as a value model.
pub open spec fn out_view(r: Result<AgoType, AgoError>) -> Result<Val, AgoError> {
    match r {
        Ok(x) => Ok(x@),
        Err(e) => Err(e),
    }
}

fn numeric<F: Fn(FloatOp) -> FloatOut>(op: ArithOp, left: &AgoType, right: &AgoType, fl: &F) -> (r: Result<AgoType, AgoError>)
    requires
        float_ops_ok(*fl),
    ensures
        out_view(r) == numeric_spec(*fl, op, left@, right@),
{
    match (left, right) {
        (AgoType::Int(x), AgoType::Int(y)) => {
            let x = *x;
            let y = *y;
            if (op == ArithOp::Div || op == ArithOp::Rem) && y == 0 {
                return Err(AgoError::DivisionByZero);
            }
            let r = match op {
                ArithOp::Add => x.checked_add(y),
                ArithOp::Sub => x.checked_sub(y),
                ArithOp::Mul => x.checked_mul(y),
                ArithOp::Div => x.checked_div(y),
                ArithOp::Rem => x.checked_rem(y),
            };
            match r {
                Some(z) => Ok(AgoType::Int(z)),
                None => Err(AgoError::IntegerOverflow),
            }
        },
        (AgoType::Float(x), AgoType::Float(y)) => Ok(AgoType::Float(bits_of(fl, float_op(op, *x, *y)))),
        (AgoType::Float(x), AgoType::Int(y)) => {
            let yf = bits_of(fl, FloatOp::FromInt(*y));
            Ok(AgoType::Float(bits_of(fl, float_op(op, *x, yf))))
        },
        (AgoType::Int(x), AgoType::Float(y)) => {
            let xf = bits_of(fl, FloatOp::FromInt(*x));
            Ok(AgoType::Float(bits_of(fl, float_op(op, xf, *y))))
        },
        _ => Err(AgoError::UnsupportedOperandKinds),
    }
}

fn concat_values(a: &Vec<AgoType>, b: &Vec<AgoType>) -> (r: Vec<AgoType>)
    ensures
        vals_view(r@) == vals_view(a@) + vals_view(b@),
{
    let mut r: Vec<AgoType> = Vec::new();
    let mut i: usize = 0;
    while i < a.len()
        invariant
            i <= a@.len(),
            r@.len() == i,
            forall|t: int| 0 <= t < i ==> #[trigger] r@[t]@ == a@[t]@,
        decreases a.len() - i,
    {
        r.push(a[i].deep_copy());
        i += 1;
    }
    let mut j: usize = 0;
    while j < b.len()
        invariant
            j <= b@.len(),
            r@.len() == a@.len() + j,
            forall|t: int| 0 <= t < a@.len() ==> #[trigger] r@[t]@ == a@[t]@,
            forall|t: int| 0 <= t < j ==> #[trigger] r@[a@.len() + t]@ == b@[t]@,
        decreases b.len() - j,
    {
        r.push(b[j].deep_copy());
        j += 1;
    }
    proof {
        lemma_vals_view(r@);
        lemma_vals_view(a@);
        lemma_vals_view(b@);
        assert forall|t: int| 0 <= t < r@.len() implies #[trigger] vals_view(r@)[t] == (vals_view(a@) + vals_view(b@))[t] by {
            if t >= a@.len() {
                assert(r@[a@.len() + (t - a@.len())]@ == b@[t - a@.len()]@);
            }
        }
    }
    assert(vals_view(r@) =~= vals_view(a@) + vals_view(b@));
    r
}

/// `+`: numeric addition, or concatenation of two strings or of two lists of one kind.
pub fn add<F: Fn(FloatOp) -> FloatOut>(left: &AgoType, right: &AgoType, fl: &F) -> (r: Result<AgoType, AgoError>)
    requires
        float_ops_ok(*fl),
    ensures
        out_view(r) == add_spec(*fl, left@, right@),
{
    match (left, right) {
        (AgoType::String(a), AgoType::String(b)) => {
            let mut s = a.clone();
            append_string(&mut s, b);
            Ok(AgoType::String(s))
        },
        (AgoType::IntList(a), AgoType::IntList(b)) => {
            let mut l = copy_vec(a);
            let mut m = copy_vec(b);
            l.append(&mut m);
            Ok(AgoType::IntList(l))
        },
        (AgoType::FloatList(a), AgoType::FloatList(b)) => {
            let mut l = copy_vec(a);
            let mut m = copy_vec(b);
            l.append(&mut m);
            Ok(AgoType::FloatList(l))
        },
        (AgoType::BoolList(a), AgoType::BoolList(b)) => {
            let mut l = copy_vec(a);
            let mut m = copy_vec(b);
            l.append(&mut m);
            Ok(AgoType::BoolList(l))
        },
        (AgoType::StringList(a), AgoType::StringList(b)) => {
            let mut l = copy_strings(a);
            let mut m = copy_strings(b);
            let ghost (l0, m0) = (l@, m@);
            l.append(&mut m);
            assert(strs_view(l@) =~= strs_view(l0) + strs_view(m0));
            Ok(AgoType::StringList(l))
        },
        (AgoType::ListAny(a), AgoType::ListAny(b)) => Ok(AgoType::ListAny(concat_values(a, b))),
        _ => numeric(ArithOp::Add, left, right, fl),
    }
}

/// `-` on numbers.
pub fn subtract<F: Fn(FloatOp) -> FloatOut>(left: &AgoType, right: &AgoType, fl: &F) -> (r: Result<AgoType, AgoError>)
    requires
        float_ops_ok(*fl),
    ensures
        out_view(r) == numeric_spec(*fl, ArithOp::Sub, left@, right@),
{
    numeric(ArithOp::Sub, left, right, fl)
}

/// `*` on numbers.
pub fn multiply<F: Fn(FloatOp) -> FloatOut>(left: &AgoType, right: &AgoType, fl: &F) -> (r: Result<AgoType, AgoError>)
    requires
        float_ops_ok(*fl),
    ensures
        out_view(r) == numeric_spec(*fl, ArithOp::Mul, left@, right@),
{
    numeric(ArithOp::Mul, left, right, fl)
}

/// `/` on numbers; integer division truncates toward zero.
pub fn divide<F: Fn(FloatOp) -> FloatOut>(left: &AgoType, right: &AgoType, fl: &F) -> (r: Result<AgoType, AgoError>)
    requires
        float_ops_ok(*fl),
    ensures
        out_view(r) == numeric_spec(*fl, ArithOp::Div, left@, right@),
{
    numeric(ArithOp::Div, left, right, fl)
}

/// `%` on numbers; an integer remainder takes the sign of the dividend.
pub fn modulo<F: Fn(FloatOp) -> FloatOut>(left: &AgoType, right: &AgoType, fl: &F) -> (r: Result<AgoType, AgoError>)
    requires
        float_ops_ok(*fl),
    ensures
        out_view(r) == numeric_spec(*fl, ArithOp::Rem, left@, right@),
{
    numeric(ArithOp::Rem, left, right, fl)
}

/// Lexicographic order of character sequences, by code point.
pub open spec fn seq_less(x: Seq<char>, y: Seq<char>) -> bool
    decreases x.len(),
{
    if y.len() == 0 {
        false
    } else if x.len() == 0 {
        true
    } else if x[0] != y[0] {
        (x[0] as u32) < (y[0] as u32)
    } else {
        seq_less(x.drop_first(), y.drop_first())
    }
}

pub open spec fn int_cmp(op: CmpOp, x: i128, y: i128) -> bool {
    match op {
        CmpOp::Greater => x > y,
        CmpOp::GreaterEq => x >= y,
        CmpOp::Less => x < y,
        CmpOp::LessEq => x <= y,
    }
}

pub open spec fn text_cmp(op: CmpOp, x: Seq<char>, y: Seq<char>) -> bool {
    match op {
        CmpOp::Greater => seq_less(y, x),
        CmpOp::GreaterEq => !seq_less(x, y),
        CmpOp::Less => seq_less(x, y),
        CmpOp::LessEq => !seq_less(y, x),
    }
}

/// A comparison of two binary64 numbers, as the provider answers it.
pub open spec fn float_cmp<F: Fn(FloatOp) -> FloatOut>(fl: F, op: CmpOp, a: u64, b: u64) -> bool {
    match op {
        CmpOp::Greater => float_truth(fl, FloatQuery::Less(b, a)),
        CmpOp::GreaterEq => float_truth(fl, FloatQuery::LessEq(b, a)),
        CmpOp::Less => float_truth(fl, FloatQuery::Less(a, b)),
        CmpOp::LessEq => float_truth(fl, FloatQuery::LessEq(a, b)),
    }
}

/// Comparisons of numbers (a float operand promotes both) and of strings.
pub open spec fn cmp_spec<F: Fn(FloatOp) -> FloatOut>(fl: F, op: CmpOp, a: Val, b: Val) -> Result<Val, AgoError> {
    match (a, b) {
        (Val::Int(x), Val::Int(y)) => Ok(Val::Bool(int_cmp(op, x, y))),
        (Val::Float(x), Val::Float(y)) => Ok(Val::Bool(float_cmp(fl, op, x, y))),
        (Val::Float(x), Val::Int(y)) => Ok(Val::Bool(float_cmp(fl, op, x, int_as_float(fl, y)))),
        (Val::Int(x), Val::Float(y)) => Ok(Val::Bool(float_cmp(fl, op, int_as_float(fl, x), y))),
        (Val::Str(x), Val::Str(y)) => Ok(Val::Bool(text_cmp(op, x, y))),
        _ => Err(AgoError::UnsupportedOperandKinds),
    }
}

fn text_less(x: &Vec<char>, y: &Vec<char>) -> (r: bool)
    ensures
        r == seq_less(x@, y@),
{
    let mut i: usize = 0;
    assert(x@.subrange(0, x@.len() as int) =~= x@);
    assert(y@.subrange(0, y@.len() as int) =~= y@);
    while i < x.len() && i < y.len() && x[i] == y[i]
        invariant
            i <= x@.len(),
            i <= y@.len(),
            seq_less(x@, y@) == seq_less(x@.subrange(i as int, x@.len() as int), y@.subrange(i as int, y@.len() as int)),
        decreases x.len() - i,
    {
        let ghost xs = x@.subrange(i as int, x@.len() as int);
        let ghost ys = y@.subrange(i as int, y@.len() as int);
        assert(xs.drop_first() =~= x@.subrange(i + 1, x@.len() as int));
        assert(ys.drop_first() =~= y@.subrange(i + 1, y@.len() as int));
        i += 1;
    }
    let ghost xs = x@.subrange(i as int, x@.len() as int);
    let ghost ys = y@.subrange(i as int, y@.len() as int);
    if i == y.len() {
        false
    } else if i == x.len() {
        true
    } else {
        assert(xs[0] == x@[i as int] && ys[0] == y@[i as int]);
        (x[i] as u32) < (y[i] as u32)
    }
}

fn float_compare<F: Fn(FloatOp) -> FloatOut>(op: CmpOp, a: u64, b: u64, fl: &F) -> (r: bool)
    requires
        float_ops_ok(*fl),
    ensures
        r == float_cmp(*fl, op, a, b),
{
    match op {
        CmpOp::Greater => truth_of(fl, FloatOp::Less(b, a)),
        CmpOp::GreaterEq => truth_of(fl, FloatOp::LessEq(b, a)),
        CmpOp::Less => truth_of(fl, FloatOp::Less(a, b)),
        CmpOp::LessEq => truth_of(fl, FloatOp::LessEq(a, b)),
    }
}

fn compare<F: Fn(FloatOp) -> FloatOut>(op: CmpOp, left: &AgoType, right: &AgoType, fl: &F) -> (r: Result<AgoType, AgoError>)
    requires
        float_ops_ok(*fl),
    ensures
        out_view(r) == cmp_spec(*fl, op, left@, right@),
{
    match (left, right) {
        (AgoType::Int(x), AgoType::Int(y)) => Ok(AgoType::Bool(
            match op {
                CmpOp::Greater => *x > *y,
                CmpOp::GreaterEq => *x >= *y,
                CmpOp::Less => *x < *y,
                CmpOp::LessEq => *x <= *y,
            },
        )),
        (AgoType::Float(x), AgoType::Float(y)) => Ok(AgoType::Bool(float_compare(op, *x, *y, fl))),
        (AgoType::Float(x), AgoType::Int(y)) => {
            let yf = bits_of(fl, FloatOp::FromInt(*y));
            Ok(AgoType::Bool(float_compare(op, *x, yf, fl)))
        },
        (AgoType::Int(x), AgoType::Float(y)) => {
            let xf = bits_of(fl, FloatOp::FromInt(*x));
            Ok(AgoType::Bool(float_compare(op, xf, *y, fl)))
        },
        (AgoType::String(x), AgoType::String(y)) => {
            let xs = chars_of(x.as_str());
            let ys = chars_of(y.as_str());
            Ok(AgoType::Bool(
                match op {
                    CmpOp::Greater => text_less(&ys, &xs),
                    CmpOp::GreaterEq => !text_less(&xs, &ys),
                    CmpOp::Less => text_less(&xs, &ys),
                    CmpOp::LessEq => !text_less(&ys, &xs),
                },
            ))
        },
        _ => Err(AgoError::UnsupportedOperandKinds),
    }
}

/// `>`.
pub fn greater_than<F: Fn(FloatOp) -> FloatOut>(left: &AgoType, right: &AgoType, fl: &F) -> (r: Result<AgoType, AgoError>)
    requires
        float_ops_ok(*fl),
    ensures
        out_view(r) == cmp_spec(*fl, CmpOp::Greater, left@, right@),
{
    compare(CmpOp::Greater, left, right, fl)
}

/// `>=`.
pub fn greater_equal<F: Fn(FloatOp) -> FloatOut>(left: &AgoType, right: &AgoType, fl: &F) -> (r: Result<AgoType, AgoError>)
    requires
        float_ops_ok(*fl),
    ensures
        out_view(r) == cmp_spec(*fl, CmpOp::GreaterEq, left@, right@),
{
    compare(CmpOp::GreaterEq, left, right, fl)
}

/// `<`.
pub fn less_than<F: Fn(FloatOp) -> FloatOut>(left: &AgoType, right: &AgoType, fl: &F) -> (r: Result<AgoType, AgoError>)
    requires
        float_ops_ok(*fl),
    ensures
        out_view(r) == cmp_spec(*fl, CmpOp::Less, left@, right@),
{
    compare(CmpOp::Less, left, right, fl)
}

/// `<=`.
pub fn less_equal<F: Fn(FloatOp) -> FloatOut>(left: &AgoType, right: &AgoType, fl: &F) -> (r: Result<AgoType, AgoError>)
    requires
        float_ops_ok(*fl),
    ensures
        out_view(r) == cmp_spec(*fl, CmpOp::LessEq, left@, right@),
{
    compare(CmpOp::LessEq, left, right, fl)
}

/// Logical `and` of two booleans.
pub fn and(left: &AgoType, right: &AgoType) -> (r: Result<AgoType, AgoError>)
    ensures
        match (left@, right@) {
            (Val::Bool(a), Val::Bool(b)) => out_view(r) == Ok::<Val, AgoError>(Val::Bool(a && b)),
            _ => r == Err::<AgoType, AgoError>(AgoError::UnsupportedOperandKinds),
        },
{
    match (left, right) {
        (AgoType::Bool(a), AgoType::Bool(b)) => Ok(AgoType::Bool(*a && *b)),
        _ => Err(AgoError::UnsupportedOperandKinds),
    }
}

/// Logical `or` of two booleans.
pub fn or(left: &AgoType, right: &AgoType) -> (r: Result<AgoType, AgoError>)
    ensures
        match (left@, right@) {
            (Val::Bool(a), Val::Bool(b)) => out_view(r) == Ok::<Val, AgoError>(Val::Bool(a || b)),
            _ => r == Err::<AgoType, AgoError>(AgoError::UnsupportedOperandKinds),
        },
{
    match (left, right) {
        (AgoType::Bool(a), AgoType::Bool(b)) => Ok(AgoType::Bool(*a || *b)),
        _ => Err(AgoError::UnsupportedOperandKinds),
    }
}

/// Logical negation of a boolean.
pub fn not(val: &AgoType) -> (r: Result<AgoType, AgoError>)
    ensures
        match val@ {
            Val::Bool(a) => out_view(r) == Ok::<Val, AgoError>(Val::Bool(!a)),
            _ => r == Err::<AgoType, AgoError>(AgoError::UnsupportedOperandKinds),
        },
{
    match val {
        AgoType::Bool(a) => Ok(AgoType::Bool(!*a)),
        _ => Err(AgoError::UnsupportedOperandKinds),
    }
}

/// A bitwise operator.
#[derive(Debug, Clone, Copy, PartialEq, Eq, Structural)]
pub enum BitOp {
    And,
    Or,
    Xor,
}

pub open spec fn bit_spec(op: BitOp, a: Val, b: Val) -> Result<Val, AgoError> {
    match (a, b) {
        (Val::Int(x), Val::Int(y)) => Ok(Val::Int(match op {
            BitOp::And => x & y,
            BitOp::Or => x | y,
            BitOp::Xor => x ^ y,
        })),
        _ => Err(AgoError::UnsupportedOperandKinds),
    }
}

fn bitwise(op: BitOp, left: &AgoType, right: &AgoType) -> (r: Result<AgoType, AgoError>)
    ensures
        out_view(r) == bit_spec(op, left@, right@),
{
    match (left, right) {
        (AgoType::Int(x), AgoType::Int(y)) => Ok(AgoType::Int(match op {
            BitOp::And => *x & *y,
            BitOp::Or => *x | *y,
            BitOp::Xor => *x ^ *y,
        })),
        _ => Err(AgoError::UnsupportedOperandKinds),
    }
}

/// `&` on integers.
pub fn bitwise_and(left: &AgoType, right: &AgoType) -> (r: Result<AgoType, AgoError>)
    ensures
        out_view(r) == bit_spec(BitOp::And, left@, right@),
{
    bitwise(BitOp::And, left, right)
}

/// `|` on integers.
pub fn bitwise_or(left: &AgoType, right: &AgoType) -> (r: Result<AgoType, AgoError>)
    ensures
        out_view(r) == bit_spec(BitOp::Or, left@, right@),
{
    bitwise(BitOp::Or, left, right)
}

/// `^` on integers.
pub fn bitwise_xor(left: &AgoType, right: &AgoType) -> (r: Result<AgoType, AgoError>)
    ensures
        out_view(r) == bit_spec(BitOp::Xor, left@, right@),
{
    bitwise(BitOp::Xor, left, right)
}

/// Unary `-`: negates an integer (checked) or a float (its sign bit flips).
pub fn unary_minus(val: &AgoType) -> (r: Result<AgoType, AgoError>)
    ensures
        match val@ {
            Val::Int(x) => if x == i128::MIN {
                r == Err::<AgoType, AgoError>(AgoError::IntegerOverflow)
            } else {
                out_view(r) == Ok::<Val, AgoError>(Val::Int((-x) as i128))
            },
            Val::Float(b) => out_view(r) == Ok::<Val, AgoError>(Val::Float(b ^ SIGN_BIT)),
            _ => r == Err::<AgoType, AgoError>(AgoError::UnsupportedOperandKinds),
        },
{
    match val {
        AgoType::Int(x) => if *x == i128::MIN {
            Err(AgoError::IntegerOverflow)
        } else {
            Ok(AgoType::Int(-*x))
        },
        AgoType::Float(b) => Ok(AgoType::Float(float_negate(*b))),
        _ => Err(AgoError::UnsupportedOperandKinds),
    }
}

/// Unary `+`: the number itself.
pub fn unary_plus(val: &AgoType) -> (r: Result<AgoType, AgoError>)
    ensures
        match val@ {
            Val::Int(_) | Val::Float(_) => out_view(r) == Ok::<Val, AgoError>(val@),
            _ => r == Err::<AgoType, AgoError>(AgoError::UnsupportedOperandKinds),
        },
{
    match val {
        AgoType::Int(x) => Ok(AgoType::Int(*x)),
        AgoType::Float(b) => Ok(AgoType::Float(*b)),
        _ => Err(AgoError::UnsupportedOperandKinds),
    }
}

/// The range `left..right` (inclusive) of two integers.
pub fn slice(left: &AgoType, right: &AgoType) -> (r: Result<AgoType, AgoError>)
    ensures
        match (left@, right@) {
            (Val::Int(a), Val::Int(b)) => out_view(r) == Ok::<Val, AgoError>(Val::Range(a, b, true)),
            _ => r == Err::<AgoType, AgoError>(AgoError::UnsupportedOperandKinds),
        },
{
    match (left, right) {
        (AgoType::Int(a), AgoType::Int(b)) => Ok(AgoType::Range(AgoRange { start: *a, end: *b, inclusive: true })),
        _ => Err(AgoError::UnsupportedOperandKinds),
    }
}

/// The range `left.<right` (exclusive) of two integers.
pub fn sliceto(left: &AgoType, right: &AgoType) -> (r: Result<AgoType, AgoError>)
    ensures
        match (left@, right@) {
            (Val::Int(a), Val::Int(b)) => out_view(r) == Ok::<Val, AgoError>(Val::Range(a, b, false)),
            _ => r == Err::<AgoType, AgoError>(AgoError::UnsupportedOperandKinds),
        },
{
    match (left, right) {
        (AgoType::Int(a), AgoType::Int(b)) => Ok(AgoType::Range(AgoRange { start: *a, end: *b, inclusive: false })),
        _ => Err(AgoError::UnsupportedOperandKinds),
    }
}

/// `?:`: the left operand unless it is null, else the right one unless it is null.
pub fn elvis(left: &AgoType, right: &AgoType) -> (r: Result<AgoType, AgoError>)
    ensures
        !(left@ is Null) ==> out_view(r) == Ok::<Val, AgoError>(left@),
        left@ is Null && !(right@ is Null) ==> out_view(r) == Ok::<Val, AgoError>(right@),
        left@ is Null && right@ is Null ==> r == Err::<AgoType, AgoError>(AgoError::BothOperandsNull),
{
    if !matches!(left, AgoType::Null) {
        return Ok(left.deep_copy());
    }
    if !matches!(right, AgoType::Null) {
        return Ok(right.deep_copy());
    }
    Err(AgoError::BothOperandsNull)
}

/// Whether `n` occurs in `h` as a contiguous run.
pub open spec fn is_substring(n: Seq<char>, h: Seq<char>) -> bool {
    exists|i: int| 0 <= i <= h.len() - n.len() && #[trigger] h.subrange(i, i + n.len()) == n
}

/// `in`: substring, struct key, or element of a list (of the list's own element kind).
pub open spec fn contains_spec(h: Val, n: Val) -> Result<Val, AgoError> {
    match (h, n) {
        (Val::Str(a), Val::Str(b)) => Ok(Val::Bool(is_substring(b, a))),
        (Val::Struct(es), Val::Str(k)) => Ok(Val::Bool(key_pos(es, k) >= 0)),
        (Val::IntList(l), Val::Int(x)) => Ok(Val::Bool(l.contains(x))),
        (Val::FloatList(l), Val::Float(x)) => Ok(Val::Bool(exists|i: int| 0 <= i < l.len() && float_eq(#[trigger] l[i], x))),
        (Val::BoolList(l), Val::Bool(x)) => Ok(Val::Bool(l.contains(x))),
        (Val::StrList(l), Val::Str(x)) => Ok(Val::Bool(l.contains(x))),
        (Val::ListAny(l), _) => Ok(Val::Bool(exists|i: int| 0 <= i < l.len() && val_eq(#[trigger] l[i], n))),
        _ => Err(AgoError::UnsupportedOperandKinds),
    }
}

#[verifier::loop_isolation(false)]
fn matches_at(h: &Vec<char>, n: &Vec<char>, i: usize) -> (r: bool)
    requires
        i + n@.len() <= h@.len(),
    ensures
        r == (h@.subrange(i as int, i + n@.len()) == n@),
{
    let hl = h.len();
    let mut j: usize = 0;
    while j < n.len()
        invariant
            hl == h@.len(),
            j <= n@.len(),
            i + n@.len() <= h@.len(),
            forall|t: int| 0 <= t < j ==> h@[i + t] == n@[t],
        decreases n.len() - j,
    {
        if h[i + j] != n[j] {
            assert(h@.subrange(i as int, i + n@.len())[j as int] != n@[j as int]);
            return false;
        }
        j += 1;
    }
    assert(h@.subrange(i as int, i + n@.len()) =~= n@);
    true
}

fn substring_of(n: &String, h: &String) -> (r: bool)
    ensures
        r == is_substring(n@, h@),
{
    let hs = chars_of(h.as_str());
    let ns = chars_of(n.as_str());
    if ns.len() > hs.len() {
        return false;
    }
    let mut i: usize = 0;
    while i <= hs.len() - ns.len()
        invariant
            hs@ == h@,
            ns@ == n@,
            ns@.len() <= hs@.len(),
            i <= hs@.len() - ns@.len() + 1,
            forall|t: int| 0 <= t < i ==> #[trigger] h@.subrange(t, t + n@.len()) != n@,
        decreases hs.len() - ns.len() + 1 - i,
    {
        if matches_at(&hs, &ns, i) {
            return true;
        }
        if i == hs.len() - ns.len() {
            return false;
        }
        i += 1;
    }
    false
}

/// `in`: substring search in a string, key presence in a struct, element membership in
/// a list. The needle must have the list's element kind; a heterogeneous list takes any.
#[verifier::loop_isolation(false)]
pub fn contains(haystack: &AgoType, needle: &AgoType) -> (r: Result<AgoType, AgoError>)
    ensures
        out_view(r) == contains_spec(haystack@, needle@),
{
    match (haystack, needle) {
        (AgoType::String(h), AgoType::String(n)) => Ok(AgoType::Bool(substring_of(n, h))),
        (AgoType::Struct(es), AgoType::String(k)) => Ok(AgoType::Bool(find_key(es, k).is_some())),
        (AgoType::IntList(l), AgoType::Int(x)) => {
            let mut i: usize = 0;
            while i < l.len()
                invariant
                    i <= l@.len(),
                    forall|t: int| 0 <= t < i ==> l@[t] != *x,
                decreases l.len() - i,
            {
                if l[i] == *x {
                    assert(l@.contains(*x));
                    return Ok(AgoType::Bool(true));
                }
                i += 1;
            }
            Ok(AgoType::Bool(false))
        },
        (AgoType::FloatList(l), AgoType::Float(x)) => {
            let mut i: usize = 0;
            while i < l.len()
                invariant
                    i <= l@.len(),
                    forall|t: int| 0 <= t < i ==> !float_eq(#[trigger] l@[t], *x),
                decreases l.len() - i,
            {
                if float_equals(l[i], *x) {
                    proof {
                        assert(haystack@ == Val::FloatList(l@));
                        assert((haystack@)->FloatList_0 == l@);
                        assert(0 <= i < l@.len() && float_eq(l@[i as int], *x));
                    }
                    return Ok(AgoType::Bool(true));
                }
                i += 1;
            }
            Ok(AgoType::Bool(false))
        },
        (AgoType::BoolList(l), AgoType::Bool(x)) => {
            let mut i: usize = 0;
            while i < l.len()
                invariant
                    i <= l@.len(),
                    forall|t: int| 0 <= t < i ==> l@[t] != *x,
                decreases l.len() - i,
            {
                if l[i] == *x {
                    assert(l@.contains(*x));
                    return Ok(AgoType::Bool(true));
                }
                i += 1;
            }
            Ok(AgoType::Bool(false))
        },
        (AgoType::StringList(l), AgoType::String(x)) => {
            let mut i: usize = 0;
            while i < l.len()
                invariant
                    i <= l@.len(),
                    forall|t: int| 0 <= t < i ==> #[trigger] l@[t]@ != x@,
                decreases l.len() - i,
            {
                if l[i] == *x {
                    assert(strs_view(l@)[i as int] == x@);
                    assert(strs_view(l@).contains(x@));
                    return Ok(AgoType::Bool(true));
                }
                i += 1;
            }
            assert(!strs_view(l@).contains(x@));
            Ok(AgoType::Bool(false))
        },
        (AgoType::ListAny(l), _) => {
            proof { lemma_vals_view(l@); }
            let mut i: usize = 0;
            while i < l.len()
                invariant
                    i <= l@.len(),
                    vals_view(l@).len() == l@.len(),
                    forall|t: int| 0 <= t < l@.len() ==> #[trigger] vals_view(l@)[t] == l@[t]@,
                    forall|t: int| 0 <= t < i ==> !val_eq(#[trigger] vals_view(l@)[t], needle@),
                decreases l.len() - i,
            {
                if l[i].equals(needle) {
                    proof {
                        let lv = vals_view(l@);
                        assert(haystack@ == Val::ListAny(lv));
                        assert((haystack@)->ListAny_0 == lv);
                        assert(0 <= i < lv.len() && val_eq(lv[i as int], needle@));
                    }
                    return Ok(AgoType::Bool(true));
                }
                i += 1;
            }
            Ok(AgoType::Bool(false))
        },
        _ => Err(AgoError::UnsupportedOperandKinds),
    }
}

} // verus!
