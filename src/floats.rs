use vstd::prelude::*;

verus! {

/// A computation on binary64 numbers (given as bit patterns) that the caller performs.
pub enum FloatOp {
    /// The decimal text that `Display` gives for the number.
    Text(u64),
    /// The number that a string parses to, if it parses.
    Parse(String),
    /// The number nearest to an integer.
    FromInt(i128),
    /// The integer a number truncates to (saturating; NaN gives zero).
    ToInt(u64),
    Add(u64, u64),
    Sub(u64, u64),
    Mul(u64, u64),
    Div(u64, u64),
    Rem(u64, u64),
    Less(u64, u64),
    LessEq(u64, u64),
}

/// The outcome of a `FloatOp`.
pub enum FloatOut {
    Text(String),
    Parsed(Option<u64>),
    Bits(u64),
    Int(i128),
    Truth(bool),
}

/// The model of a `FloatOp`.
pub enum FloatQuery {
    Text(u64),
    Parse(Seq<char>),
    FromInt(i128),
    ToInt(u64),
    Add(u64, u64),
    Sub(u64, u64),
    Mul(u64, u64),
    Div(u64, u64),
    Rem(u64, u64),
    Less(u64, u64),
    LessEq(u64, u64),
}

/// The model of a `FloatOut`.
pub enum FloatAnswer {
    Text(Seq<char>),
    Parsed(Option<u64>),
    Bits(u64),
    Int(i128),
    Truth(bool),
}

pub open spec fn query_of(op: FloatOp) -> FloatQuery {
    match op {
        FloatOp::Text(b) => FloatQuery::Text(b),
        FloatOp::Parse(s) => FloatQuery::Parse(s@),
        FloatOp::FromInt(i) => FloatQuery::FromInt(i),
        FloatOp::ToInt(b) => FloatQuery::ToInt(b),
        FloatOp::Add(a, b) => FloatQuery::Add(a, b),
        FloatOp::Sub(a, b) => FloatQuery::Sub(a, b),
        FloatOp::Mul(a, b) => FloatQuery::Mul(a, b),
        FloatOp::Div(a, b) => FloatQuery::Div(a, b),
        FloatOp::Rem(a, b) => FloatQuery::Rem(a, b),
        FloatOp::Less(a, b) => FloatQuery::Less(a, b),
        FloatOp::LessEq(a, b) => FloatQuery::LessEq(a, b),
    }
}

pub open spec fn answer_of(out: FloatOut) -> FloatAnswer {
    match out {
        FloatOut::Text(s) => FloatAnswer::Text(s@),
        FloatOut::Parsed(p) => FloatAnswer::Parsed(p),
        FloatOut::Bits(b) => FloatAnswer::Bits(b),
        FloatOut::Int(i) => FloatAnswer::Int(i),
        FloatOut::Truth(t) => FloatAnswer::Truth(t),
    }
}

/// Whether an answer has the shape that its query calls for.
pub open spec fn fits(q: FloatQuery, a: FloatAnswer) -> bool {
    match q {
        FloatQuery::Text(_) => a is Text,
        FloatQuery::Parse(_) => a is Parsed,
        FloatQuery::ToInt(_) => a is Int,
        FloatQuery::Less(_, _) | FloatQuery::LessEq(_, _) => a is Truth,
        _ => a is Bits,
    }
}

/// A float provider may be called on every operation, answers in the right shape,
/// and gives equal answers to equal questions.
pub open spec fn float_ops_ok<F: Fn(FloatOp) -> FloatOut>(fl: F) -> bool {
    &&& forall|op: FloatOp| #[trigger] fl.requires((op,))
    &&& forall|op: FloatOp, out: FloatOut|
        #[trigger] fl.ensures((op,), out) ==> fits(query_of(op), answer_of(out))
    &&& forall|a: FloatOp, b: FloatOp, x: FloatOut, y: FloatOut|
        #[trigger] fl.ensures((a,), x) && #[trigger] fl.ensures((b,), y) && query_of(a)
            == query_of(b) ==> answer_of(x) == answer_of(y)
}

/// Whether the provider may give answer `a` to question `q`.
pub open spec fn answers<F: Fn(FloatOp) -> FloatOut>(fl: F, q: FloatQuery, a: FloatAnswer) -> bool {
    exists|op: FloatOp, out: FloatOut|
        query_of(op) == q && #[trigger] fl.ensures((op,), out) && answer_of(out) == a
}

/// What the provider answers to a question.
pub open spec fn float_eval<F: Fn(FloatOp) -> FloatOut>(fl: F, q: FloatQuery) -> FloatAnswer {
    choose|a: FloatAnswer| #[trigger] answers(fl, q, a)
}

pub open spec fn float_text<F: Fn(FloatOp) -> FloatOut>(fl: F, b: u64) -> Seq<char> {
    match float_eval(fl, FloatQuery::Text(b)) {
        FloatAnswer::Text(s) => s,
        _ => Seq::empty(),
    }
}

pub open spec fn float_parse<F: Fn(FloatOp) -> FloatOut>(fl: F, s: Seq<char>) -> Option<u64> {
    match float_eval(fl, FloatQuery::Parse(s)) {
        FloatAnswer::Parsed(p) => p,
        _ => None,
    }
}

pub open spec fn float_bits<F: Fn(FloatOp) -> FloatOut>(fl: F, q: FloatQuery) -> u64 {
    match float_eval(fl, q) {
        FloatAnswer::Bits(b) => b,
        _ => 0,
    }
}

pub open spec fn float_to_int<F: Fn(FloatOp) -> FloatOut>(fl: F, b: u64) -> i128 {
    match float_eval(fl, FloatQuery::ToInt(b)) {
        FloatAnswer::Int(i) => i,
        _ => 0,
    }
}

pub open spec fn float_truth<F: Fn(FloatOp) -> FloatOut>(fl: F, q: FloatQuery) -> bool {
    match float_eval(fl, q) {
        FloatAnswer::Truth(t) => t,
        _ => false,
    }
}

/// Calls the provider; the answer is the one `float_eval` names.
pub fn call_float<F: Fn(FloatOp) -> FloatOut>(fl: &F, op: FloatOp) -> (r: FloatOut)
    requires
        float_ops_ok(*fl),
    ensures
        answer_of(r) == float_eval(*fl, query_of(op)),
        fits(query_of(op), answer_of(r)),
{
    let ghost g = op;
    let r = fl(op);
    proof {
        assert(fl.ensures((g,), r));
        let a = float_eval(*fl, query_of(g));
        assert(answers(*fl, query_of(g), answer_of(r)));
        let (op2, out2) = choose|op2: FloatOp, out: FloatOut|
            query_of(op2) == query_of(g) && #[trigger] fl.ensures((op2,), out) && answer_of(out)
                == a;
        assert(fl.ensures((op2,), out2) && fl.ensures((g,), r));
    }
    r
}

pub fn text_of_float<F: Fn(FloatOp) -> FloatOut>(fl: &F, b: u64) -> (r: String)
    requires
        float_ops_ok(*fl),
    ensures
        r@ == float_text(*fl, b),
{
    match call_float(fl, FloatOp::Text(b)) {
        FloatOut::Text(s) => s,
        _ => String::new(),
    }
}

pub fn parse_float<F: Fn(FloatOp) -> FloatOut>(fl: &F, s: String) -> (r: Option<u64>)
    requires
        float_ops_ok(*fl),
    ensures
        r == float_parse(*fl, s@),
{
    match call_float(fl, FloatOp::Parse(s)) {
        FloatOut::Parsed(p) => p,
        _ => None,
    }
}

pub fn bits_of<F: Fn(FloatOp) -> FloatOut>(fl: &F, op: FloatOp) -> (r: u64)
    requires
        float_ops_ok(*fl),
    ensures
        r == float_bits(*fl, query_of(op)),
{
    match call_float(fl, op) {
        FloatOut::Bits(b) => b,
        _ => 0,
    }
}

pub fn int_of_float<F: Fn(FloatOp) -> FloatOut>(fl: &F, b: u64) -> (r: i128)
    requires
        float_ops_ok(*fl),
    ensures
        r == float_to_int(*fl, b),
{
    match call_float(fl, FloatOp::ToInt(b)) {
        FloatOut::Int(i) => i,
        _ => 0,
    }
}

pub fn truth_of<F: Fn(FloatOp) -> FloatOut>(fl: &F, op: FloatOp) -> (r: bool)
    requires
        float_ops_ok(*fl),
    ensures
        r == float_truth(*fl, query_of(op)),
{
    match call_float(fl, op) {
        FloatOut::Truth(t) => t,
        _ => false,
    }
}

pub const SIGN_BIT: u64 = 0x8000_0000_0000_0000;
pub const EXP_MASK: u64 = 0x7ff0_0000_0000_0000;
pub const FRAC_MASK: u64 = 0x000f_ffff_ffff_ffff;
/// The bit pattern of 1.0.
pub const ONE_BITS: u64 = 0x3ff0_0000_0000_0000;

pub open spec fn is_nan(b: u64) -> bool {
    b & EXP_MASK == EXP_MASK && b & FRAC_MASK != 0
}

/// Whether the number is +0.0 or -0.0.
pub open spec fn is_zero(b: u64) -> bool {
    b & !SIGN_BIT == 0
}

/// IEEE-754 equality: NaN equals nothing, and the two zeros are equal.
pub open spec fn float_eq(a: u64, b: u64) -> bool {
    !is_nan(a) && !is_nan(b) && (a == b || (is_zero(a) && is_zero(b)))
}

pub fn float_is_zero(b: u64) -> (r: bool)
    ensures
        r == is_zero(b),
{
    b & !SIGN_BIT == 0
}

pub fn float_equals(a: u64, b: u64) -> (r: bool)
    ensures
        r == float_eq(a, b),
{
    let a_nan = a & EXP_MASK == EXP_MASK && a & FRAC_MASK != 0;
    let b_nan = b & EXP_MASK == EXP_MASK && b & FRAC_MASK != 0;
    !a_nan && !b_nan && (a == b || (a & !SIGN_BIT == 0 && b & !SIGN_BIT == 0))
}

/// Negation flips the sign bit.
pub fn float_negate(b: u64) -> (r: u64)
    ensures
        r == b ^ SIGN_BIT,
{
    b ^ SIGN_BIT
}

} // verus!
