use ago_stdlib::collections::{get, inseri, range_bounds, removium, validate_list_type};
use ago_stdlib::error::AgoError;
use ago_stdlib::floats::{FloatOp, FloatOut};
use ago_stdlib::functions::aequalam;
use ago_stdlib::operators::{add, contains, divide, elvis, less_than, modulo, multiply, unary_minus};
use ago_stdlib::types::{AgoRange, AgoType, TargetType};

fn floats(op: FloatOp) -> FloatOut {
    let f = f64::from_bits;
    match op {
        FloatOp::Text(b) => FloatOut::Text(f(b).to_string()),
        FloatOp::Parse(s) => FloatOut::Parsed(s.parse::<f64>().ok().map(f64::to_bits)),
        FloatOp::FromInt(i) => FloatOut::Bits((i as f64).to_bits()),
        FloatOp::ToInt(b) => FloatOut::Int(f(b) as i128),
        FloatOp::Add(a, b) => FloatOut::Bits((f(a) + f(b)).to_bits()),
        FloatOp::Sub(a, b) => FloatOut::Bits((f(a) - f(b)).to_bits()),
        FloatOp::Mul(a, b) => FloatOut::Bits((f(a) * f(b)).to_bits()),
        FloatOp::Div(a, b) => FloatOut::Bits((f(a) / f(b)).to_bits()),
        FloatOp::Rem(a, b) => FloatOut::Bits((f(a) % f(b)).to_bits()),
        FloatOp::Less(a, b) => FloatOut::Truth(f(a) < f(b)),
        FloatOp::LessEq(a, b) => FloatOut::Truth(f(a) <= f(b)),
    }
}

fn float(x: f64) -> AgoType {
    AgoType::Float(x.to_bits())
}

fn string(s: &str) -> AgoType {
    AgoType::String(s.to_string())
}

fn strings(xs: &[&str]) -> AgoType {
    AgoType::StringList(xs.iter().map(|s| s.to_string()).collect())
}

fn range(start: i128, end: i128, inclusive: bool) -> AgoType {
    AgoType::Range(AgoRange { start, end, inclusive })
}

fn samples() -> Vec<AgoType> {
    vec![
        AgoType::Int(-7),
        float(2.5),
        AgoType::Bool(true),
        string("hé"),
        AgoType::IntList(vec![1, 2]),
        AgoType::FloatList(vec![0.5f64.to_bits()]),
        AgoType::BoolList(vec![false]),
        strings(&["x", "y"]),
        AgoType::Struct(vec![("k".to_string(), AgoType::Null)]),
        AgoType::ListAny(vec![AgoType::Int(1), string("a")]),
        range(3, 1, false),
        AgoType::Null,
    ]
}

#[test]
fn cast_to_own_kind_and_to_any_is_identity() {
    for v in samples() {
        let kind = v.kind();
        assert_eq!(v.as_type(kind, &floats), Ok(v.clone()));
        assert_eq!(v.as_type(TargetType::Any, &floats), Ok(v.clone()));
    }
}

#[test]
fn int_list_round_trips_through_strings() {
    let l = AgoType::IntList(vec![1, 2, 3]);
    let s = l.as_type(TargetType::StringList, &floats).unwrap();
    assert_eq!(s, strings(&["1", "2", "3"]));
    assert_eq!(s.as_type(TargetType::IntList, &floats), Ok(l));
    let extremes = AgoType::IntList(vec![i128::MIN, -1, 0, i128::MAX]);
    let t = extremes.as_type(TargetType::StringList, &floats).unwrap();
    assert_eq!(t.as_type(TargetType::IntList, &floats), Ok(extremes));
}

#[test]
fn list_casts_to_int_as_its_length() {
    assert_eq!(AgoType::IntList(vec![1, 2, 3]).as_type(TargetType::Int, &floats), Ok(AgoType::Int(3)));
    assert_eq!(AgoType::ListAny(vec![]).as_type(TargetType::Int, &floats), Ok(AgoType::Int(0)));
}

#[test]
fn heterogeneous_list_joins_with_a_blank_line() {
    let l = AgoType::ListAny(vec![AgoType::Int(1), string("a"), AgoType::Null]);
    assert_eq!(l.as_type(TargetType::String, &floats), Ok(string("1\n\na\n\ninanis")));
}

#[test]
fn struct_renders_with_braces() {
    let s = AgoType::Struct(vec![
        ("a".to_string(), AgoType::Int(1)),
        ("b".to_string(), AgoType::BoolList(vec![true, false])),
    ]);
    assert_eq!(s.as_type(TargetType::String, &floats), Ok(string("{ a: 1, b: true\nfalse }")));
    assert_eq!(AgoType::Struct(vec![]).as_type(TargetType::String, &floats), Ok(string("{  }")));
    assert_eq!(s.as_type(TargetType::StringList, &floats), Ok(strings(&["a", "b"])));
}

#[test]
fn string_explodes_into_characters() {
    assert_eq!(string("hé!").as_type(TargetType::StringList, &floats), Ok(strings(&["h", "é", "!"])));
}

#[test]
fn null_and_bool_defaults() {
    assert_eq!(AgoType::Null.as_type(TargetType::String, &floats), Ok(string("inanis")));
    assert_eq!(AgoType::Null.as_type(TargetType::Int, &floats), Ok(AgoType::Int(0)));
    assert_eq!(AgoType::Null.as_type(TargetType::Float, &floats), Ok(float(0.0)));
    assert_eq!(AgoType::Null.as_type(TargetType::Bool, &floats), Ok(AgoType::Bool(false)));
    assert_eq!(AgoType::Bool(true).as_type(TargetType::Float, &floats), Ok(float(1.0)));
    assert_eq!(AgoType::Bool(false).as_type(TargetType::Float, &floats), Ok(float(0.0)));
    assert_eq!(float(-0.0).as_type(TargetType::Bool, &floats), Ok(AgoType::Bool(false)));
    assert_eq!(float(f64::NAN).as_type(TargetType::Bool, &floats), Ok(AgoType::Bool(true)));
}

#[test]
fn list_to_range_spans_its_indices() {
    assert_eq!(strings(&["a", "b", "c"]).as_type(TargetType::Range, &floats), Ok(range(0, 2, true)));
    assert_eq!(AgoType::IntList(vec![]).as_type(TargetType::Range, &floats), Ok(range(0, -1, true)));
}

#[test]
fn list_any_to_struct_three_ways() {
    let words = AgoType::ListAny(vec![string("x"), string("y"), string("x")]);
    assert_eq!(
        words.as_type(TargetType::Struct, &floats),
        Ok(AgoType::Struct(vec![
            ("x".to_string(), AgoType::IntList(vec![0, 2])),
            ("y".to_string(), AgoType::IntList(vec![1])),
        ]))
    );
    let pairs = AgoType::ListAny(vec![
        AgoType::ListAny(vec![AgoType::Int(7), string("seven")]),
        AgoType::ListAny(vec![string("k"), AgoType::Bool(true)]),
        AgoType::ListAny(vec![AgoType::Int(7), string("again")]),
    ]);
    assert_eq!(
        pairs.as_type(TargetType::Struct, &floats),
        Ok(AgoType::Struct(vec![
            ("7".to_string(), string("again")),
            ("k".to_string(), AgoType::Bool(true)),
        ]))
    );
    let mixed = AgoType::ListAny(vec![AgoType::Int(4), string("s")]);
    assert_eq!(
        mixed.as_type(TargetType::Struct, &floats),
        Ok(AgoType::Struct(vec![
            ("0".to_string(), AgoType::Int(4)),
            ("1".to_string(), string("s")),
        ]))
    );
}

#[test]
fn cast_failures() {
    assert_eq!(AgoType::Int(1).as_type(TargetType::Range, &floats), Err(AgoError::UnsupportedCast));
    assert_eq!(string("12x").as_type(TargetType::Int, &floats), Err(AgoError::CastParseFailure));
    assert_eq!(string("1.5e").as_type(TargetType::Float, &floats), Err(AgoError::CastParseFailure));
    assert_eq!(
        string("170141183460469231731687303715884105728").as_type(TargetType::Int, &floats),
        Err(AgoError::CastParseFailure)
    );
    assert_eq!(
        string("-170141183460469231731687303715884105728").as_type(TargetType::Int, &floats),
        Ok(AgoType::Int(i128::MIN))
    );
    assert_eq!(string("+5").as_type(TargetType::Int, &floats), Ok(AgoType::Int(5)));
    assert_eq!(string("-").as_type(TargetType::Int, &floats), Err(AgoError::CastParseFailure));
    assert_eq!(strings(&["1", "x", "y"]).as_type(TargetType::IntList, &floats), Err(AgoError::CastParseFailure));
    assert_eq!(
        AgoType::ListAny(vec![AgoType::Int(1), range(0, 1, true)]).as_type(TargetType::IntList, &floats),
        Err(AgoError::UnsupportedCast)
    );
}

#[test]
fn float_conversions_go_through_the_provider() {
    assert_eq!(string("2.25").as_type(TargetType::Float, &floats), Ok(float(2.25)));
    assert_eq!(float(-3.9).as_type(TargetType::Int, &floats), Ok(AgoType::Int(-3)));
    assert_eq!(
        AgoType::IntList(vec![1, 2]).as_type(TargetType::FloatList, &floats),
        Ok(AgoType::FloatList(vec![1.0f64.to_bits(), 2.0f64.to_bits()]))
    );
}

#[test]
fn indexing_and_slicing() {
    assert_eq!(get(&AgoType::IntList(vec![10, 20, 30]), &AgoType::Int(1)), Ok(AgoType::Int(20)));
    assert_eq!(get(&AgoType::IntList(vec![10]), &AgoType::Int(1)), Err(AgoError::IndexOutOfBounds));
    assert_eq!(get(&AgoType::IntList(vec![10]), &AgoType::Int(-1)), Err(AgoError::IndexOutOfBounds));
    assert_eq!(get(&AgoType::IntList(vec![10, 20, 30, 40]), &range(-3, 1, true)), Ok(AgoType::IntList(vec![10, 20])));
    assert_eq!(get(&AgoType::IntList(vec![10, 20, 30]), &range(1, 99, false)), Ok(AgoType::IntList(vec![20, 30])));
    assert_eq!(get(&AgoType::IntList(vec![10, 20, 30]), &range(2, 0, true)), Ok(AgoType::IntList(vec![])));
    assert_eq!(get(&string("hello"), &range(1, 3, false)), Ok(string("el")));
    assert_eq!(get(&AgoType::Int(3), &AgoType::Int(0)), Err(AgoError::UnsupportedContainerOperation));
    assert_eq!(get(&AgoType::Struct(vec![]), &AgoType::Int(0)), Err(AgoError::KeyTypeMismatch));
    assert_eq!(get(&AgoType::Struct(vec![]), &string("a")), Err(AgoError::KeyNotFound));
}

#[test]
fn range_bounds_clamp() {
    let r = AgoRange { start: -5, end: 100, inclusive: true };
    assert_eq!(range_bounds(&r, 4), (0, 4));
    let r2 = AgoRange { start: 1, end: 2, inclusive: true };
    assert_eq!(range_bounds(&r2, 4), (1, 3));
    let r3 = AgoRange { start: 3, end: -9, inclusive: false };
    assert_eq!(range_bounds(&r3, 4), (3, 3));
    let r4 = AgoRange { start: 0, end: i128::MAX, inclusive: true };
    assert_eq!(range_bounds(&r4, 2), (0, 2));
}

#[test]
fn mutation_in_place() {
    let mut list = AgoType::IntList(vec![10, 20, 30]);
    ago_stdlib::collections::set(&mut list, &AgoType::Int(1), &AgoType::Int(99)).unwrap();
    assert_eq!(list, AgoType::IntList(vec![10, 99, 30]));
    assert_eq!(
        ago_stdlib::collections::set(&mut list, &AgoType::Int(3), &AgoType::Int(1)),
        Err(AgoError::IndexOutOfBounds)
    );
    assert_eq!(
        ago_stdlib::collections::set(&mut list, &AgoType::Int(0), &string("1")),
        Err(AgoError::ValueKindMismatch)
    );
    assert_eq!(list, AgoType::IntList(vec![10, 99, 30]));
    let mut s = string("cat");
    ago_stdlib::collections::set(&mut s, &AgoType::Int(0), &string("b")).unwrap();
    assert_eq!(s, string("bat"));
    assert_eq!(
        ago_stdlib::collections::set(&mut s, &AgoType::Int(0), &string("xy")),
        Err(AgoError::InvalidCharacterReplacement)
    );
    let mut any = AgoType::ListAny(vec![AgoType::Int(1)]);
    ago_stdlib::collections::set(&mut any, &AgoType::Int(0), &AgoType::Null).unwrap();
    assert_eq!(any, AgoType::ListAny(vec![AgoType::Null]));
}

#[test]
fn insert_then_remove_gives_back_list_and_value() {
    let before = AgoType::StringList(vec!["a".to_string(), "c".to_string()]);
    let mut l = before.clone();
    inseri(&mut l, &AgoType::Int(1), &string("b")).unwrap();
    assert_eq!(l, strings(&["a", "b", "c"]));
    let removed = removium(&mut l, &AgoType::Int(1)).unwrap();
    assert_eq!(removed, string("b"));
    assert_eq!(l, before);
    assert_eq!(inseri(&mut l, &AgoType::Int(5), &string("z")), Err(AgoError::IndexOutOfBounds));
    assert_eq!(inseri(&mut string("s"), &AgoType::Int(0), &string("z")), Err(AgoError::UnsupportedContainerOperation));
    assert_eq!(removium(&mut l, &AgoType::Int(2)), Err(AgoError::IndexOutOfBounds));
}

#[test]
fn struct_equality_ignores_entry_order() {
    let a = AgoType::Struct(vec![("x".to_string(), AgoType::Int(1)), ("y".to_string(), AgoType::Int(2))]);
    let b = AgoType::Struct(vec![("y".to_string(), AgoType::Int(2)), ("x".to_string(), AgoType::Int(1))]);
    assert_eq!(aequalam(&a, &b), AgoType::Bool(true));
    assert_eq!(aequalam(&AgoType::Int(5), &float(5.0)), AgoType::Bool(false));
    assert_eq!(aequalam(&float(f64::NAN), &float(f64::NAN)), AgoType::Bool(false));
    assert_eq!(aequalam(&float(0.0), &float(-0.0)), AgoType::Bool(true));
}

#[test]
fn elvis_cases() {
    assert_eq!(elvis(&AgoType::Null, &AgoType::Null), Err(AgoError::BothOperandsNull));
    assert_eq!(elvis(&AgoType::Int(10), &AgoType::Null), Ok(AgoType::Int(10)));
    assert_eq!(elvis(&AgoType::Null, &string("d")), Ok(string("d")));
}

#[test]
fn arithmetic_promotion_and_errors() {
    assert_eq!(add(&AgoType::Int(5), &float(2.5), &floats), Ok(float(7.5)));
    assert_eq!(multiply(&AgoType::Int(i128::MAX), &AgoType::Int(2), &floats), Err(AgoError::IntegerOverflow));
    assert_eq!(divide(&AgoType::Int(1), &AgoType::Int(0), &floats), Err(AgoError::DivisionByZero));
    assert_eq!(divide(&AgoType::Int(-7), &AgoType::Int(2), &floats), Ok(AgoType::Int(-3)));
    assert_eq!(modulo(&AgoType::Int(-7), &AgoType::Int(2), &floats), Ok(AgoType::Int(-1)));
    assert_eq!(unary_minus(&AgoType::Int(i128::MIN)), Err(AgoError::IntegerOverflow));
    assert_eq!(add(&AgoType::Bool(true), &AgoType::Bool(true), &floats), Err(AgoError::UnsupportedOperandKinds));
    assert_eq!(
        add(&AgoType::ListAny(vec![AgoType::Null]), &AgoType::ListAny(vec![AgoType::Int(1)]), &floats),
        Ok(AgoType::ListAny(vec![AgoType::Null, AgoType::Int(1)]))
    );
    assert_eq!(less_than(&string("ab"), &string("b"), &floats), Ok(AgoType::Bool(true)));
    assert_eq!(less_than(&string("ab"), &string("a"), &floats), Ok(AgoType::Bool(false)));
}

#[test]
fn containment_needs_the_element_kind() {
    let words = strings(&["a", "two"]);
    assert_eq!(contains(&words, &string("two")), Ok(AgoType::Bool(true)));
    assert_eq!(contains(&words, &string("three")), Ok(AgoType::Bool(false)));
    assert_eq!(contains(&words, &AgoType::Int(2)), Err(AgoError::UnsupportedOperandKinds));
    assert_eq!(contains(&AgoType::Int(1), &AgoType::Int(1)), Err(AgoError::UnsupportedOperandKinds));
    assert_eq!(contains(&string("abc"), &string("")), Ok(AgoType::Bool(true)));
    assert_eq!(contains(&string("ab"), &string("abc")), Ok(AgoType::Bool(false)));
}

#[test]
fn validate_list_type_checks_elements() {
    let ints = AgoType::ListAny(vec![AgoType::Int(1), AgoType::Int(2)]);
    assert_eq!(validate_list_type(&ints, "int"), Ok(ints.clone()));
    assert_eq!(validate_list_type(&ints, "float"), Ok(ints.clone()));
    assert_eq!(validate_list_type(&ints, "string"), Err(AgoError::ValueKindMismatch));
    let other = AgoType::Int(3);
    assert_eq!(validate_list_type(&other, "string"), Ok(other.clone()));
}
