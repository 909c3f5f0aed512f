use ago_stdlib::collections::{get, inseri, removium};
use ago_stdlib::floats::{FloatOp, FloatOut};
use ago_stdlib::functions::{aequalam, claverum, species};
use ago_stdlib::operators::{
    add, and, bitwise_and, bitwise_or, bitwise_xor, contains, divide, elvis, greater_equal,
    greater_than, less_equal, less_than, modulo, multiply, not, or, slice, sliceto, subtract,
    unary_minus, unary_plus,
};
use ago_stdlib::types::{AgoRange, AgoType, TargetType};

// --- Helpers ---

fn floats(op: FloatOp) -> FloatOut {
    let f = f64::from_bits;
    match op {
        FloatOp::Text(b) => FloatOut::Text(f(b).to_string()),
        FloatOp::Parse(s) => FloatOut::Parsed(s.parse::<f64>().ok().map(f64::to_bits)),
        FloatOp::FromInt(i) => FloatOut::Bits((i as f64).to_bits()),
        FloatOp::ToInt(b) => FloatOut::Int(f(b) as i128),
        FloatOp::Add(a, b) => FloatOut::Bits((f(a) + f(b)).to_bits()),
        FloatOp::Sub(a, b) => FloatOut::Bits((f(a) - f(b)).to_bits()),
        FloatOp::Mul(a, b) => FloatOut::Bits((f(a) * f(b)).to_bits()),
        FloatOp::Div(a, b) => FloatOut::Bits((f(a) / f(b)).to_bits()),
        FloatOp::Rem(a, b) => FloatOut::Bits((f(a) % f(b)).to_bits()),
        FloatOp::Less(a, b) => FloatOut::Truth(f(a) < f(b)),
        FloatOp::LessEq(a, b) => FloatOut::Truth(f(a) <= f(b)),
    }
}

fn float(x: f64) -> AgoType {
    AgoType::Float(x.to_bits())
}

fn float_list(xs: &[f64]) -> AgoType {
    AgoType::FloatList(xs.iter().map(|x| x.to_bits()).collect())
}

fn sample_struct() -> AgoType {
    AgoType::Struct(vec![
        ("a".to_string(), AgoType::Int(1)),
        ("b".to_string(), AgoType::String("hello".to_string())),
    ])
}

fn sample_any_list() -> AgoType {
    AgoType::ListAny(vec![
        AgoType::Int(1),
        AgoType::String("two".to_string()),
        AgoType::Bool(false),
    ])
}

fn string(s: &str) -> AgoType {
    AgoType::String(s.to_string())
}

// --- Test Cases ---

#[test]
fn test_species() {
    assert_eq!(species(&AgoType::Int(10)), string("Int"));
    assert_eq!(species(&float(1.0)), string("Float"));
    assert_eq!(species(&AgoType::Bool(true)), string("Bool"));
    assert_eq!(species(&string("s")), string("String"));
    assert_eq!(species(&AgoType::IntList(vec![])), string("IntList"));
    assert_eq!(species(&AgoType::FloatList(vec![])), string("FloatList"));
    assert_eq!(species(&AgoType::BoolList(vec![])), string("BoolList"));
    assert_eq!(species(&AgoType::StringList(vec![])), string("StringList"));
    assert_eq!(species(&AgoType::Struct(vec![])), string("Struct"));
    assert_eq!(species(&AgoType::ListAny(vec![])), string("ListAny"));
    assert_eq!(species(&AgoType::Null), string("Null"));
    assert_eq!(
        species(&AgoType::Range(AgoRange { start: 1, end: 5, inclusive: true })),
        string("Range")
    );
}

#[test]
fn test_as_type_primitive_conversions() {
    // Int
    assert_eq!(AgoType::Int(42).as_type(TargetType::Float, &floats), Ok(float(42.0)));
    assert_eq!(AgoType::Int(42).as_type(TargetType::String, &floats), Ok(string("42")));
    assert_eq!(AgoType::Int(42).as_type(TargetType::Bool, &floats), Ok(AgoType::Bool(true)));
    assert_eq!(AgoType::Int(0).as_type(TargetType::Bool, &floats), Ok(AgoType::Bool(false)));

    // Float
    assert_eq!(float(1.5).as_type(TargetType::Int, &floats), Ok(AgoType::Int(1)));
    assert_eq!(float(1.5).as_type(TargetType::String, &floats), Ok(string("1.5")));
    assert_eq!(float(0.0).as_type(TargetType::Bool, &floats), Ok(AgoType::Bool(false)));

    // Bool
    assert_eq!(AgoType::Bool(true).as_type(TargetType::Int, &floats), Ok(AgoType::Int(1)));
    assert_eq!(AgoType::Bool(false).as_type(TargetType::Int, &floats), Ok(AgoType::Int(0)));
    assert_eq!(AgoType::Bool(true).as_type(TargetType::String, &floats), Ok(string("true")));

    // String
    assert_eq!(string("123").as_type(TargetType::Int, &floats), Ok(AgoType::Int(123)));
    assert_eq!(string("").as_type(TargetType::Bool, &floats), Ok(AgoType::Bool(false)));
    assert_eq!(string("hi").as_type(TargetType::Bool, &floats), Ok(AgoType::Bool(true)));
}

#[test]
fn test_as_type_container_conversions() {
    // To Bool
    assert_eq!(AgoType::IntList(vec![1]).as_type(TargetType::Bool, &floats), Ok(AgoType::Bool(true)));
    assert_eq!(AgoType::IntList(vec![]).as_type(TargetType::Bool, &floats), Ok(AgoType::Bool(false)));
    assert_eq!(sample_struct().as_type(TargetType::Bool, &floats), Ok(AgoType::Bool(true)));
    assert_eq!(AgoType::Struct(vec![]).as_type(TargetType::Bool, &floats), Ok(AgoType::Bool(false)));

    // List to String
    assert_eq!(AgoType::IntList(vec![1, 2]).as_type(TargetType::String, &floats), Ok(string("1\n2")));
    assert_eq!(
        AgoType::StringList(vec!["a".to_string(), "b".to_string()]).as_type(TargetType::String, &floats),
        Ok(string("a\nb"))
    );

    // List to List
    assert_eq!(
        AgoType::IntList(vec![1, 0]).as_type(TargetType::BoolList, &floats),
        Ok(AgoType::BoolList(vec![true, false]))
    );
    assert_eq!(
        float_list(&[1.1, 2.2]).as_type(TargetType::StringList, &floats),
        Ok(AgoType::StringList(vec!["1.1".to_string(), "2.2".to_string()]))
    );
}

#[test]
#[should_panic]
fn test_as_type_panic_str_to_int() {
    string("not-a-number").as_type(TargetType::Int, &floats).unwrap();
}

#[test]
#[should_panic]
fn test_as_type_panic_unsupported() {
    AgoType::Int(1).as_type(TargetType::Struct, &floats).unwrap();
}

#[test]
fn test_get() {
    // Lists
    assert_eq!(get(&AgoType::IntList(vec![10, 20]), &AgoType::Int(1)), Ok(AgoType::Int(20)));
    assert_eq!(get(&float_list(&[10.0, 20.0]), &AgoType::Int(0)), Ok(float(10.0)));
    assert_eq!(get(&AgoType::BoolList(vec![true, false]), &AgoType::Int(1)), Ok(AgoType::Bool(false)));
    assert_eq!(
        get(&AgoType::StringList(vec!["a".to_string(), "b".to_string()]), &AgoType::Int(1)),
        Ok(string("b"))
    );
    assert_eq!(get(&sample_any_list(), &AgoType::Int(1)), Ok(string("two")));

    // String
    assert_eq!(get(&string("abc"), &AgoType::Int(1)), Ok(string("b")));

    // Struct
    assert_eq!(get(&sample_struct(), &string("a")), Ok(AgoType::Int(1)));
}

#[test]
#[should_panic]
fn test_get_list_out_of_bounds() {
    get(&AgoType::IntList(vec![10]), &AgoType::Int(1)).unwrap();
}

#[test]
#[should_panic]
fn test_get_struct_key_not_found() {
    get(&sample_struct(), &string("z")).unwrap();
}

#[test]
#[should_panic]
fn test_get_wrong_key_type_for_struct() {
    get(&sample_struct(), &AgoType::Int(0)).unwrap();
}

#[test]
#[should_panic]
fn test_get_wrong_index_type_for_list() {
    get(&AgoType::IntList(vec![1]), &string("a")).unwrap();
}

#[test]
fn test_set() {
    // List
    let mut list = AgoType::IntList(vec![10, 20, 30]);
    ago_stdlib::collections::set(&mut list, &AgoType::Int(1), &AgoType::Int(99)).unwrap();
    assert_eq!(list, AgoType::IntList(vec![10, 99, 30]));

    // Struct (update existing)
    let mut s1 = sample_struct();
    ago_stdlib::collections::set(&mut s1, &string("b"), &string("world")).unwrap();
    assert_eq!(get(&s1, &string("b")), Ok(string("world")));

    // Struct (add new)
    let mut s2 = sample_struct();
    ago_stdlib::collections::set(&mut s2, &string("c"), &AgoType::Int(100)).unwrap();
    assert_eq!(get(&s2, &string("c")), Ok(AgoType::Int(100)));
}

#[test]
#[should_panic]
fn test_set_list_wrong_value_type() {
    let mut list = AgoType::IntList(vec![10]);
    ago_stdlib::collections::set(&mut list, &AgoType::Int(0), &float(1.0)).unwrap();
}

#[test]
fn test_insero() {
    // List start
    let mut list_start = AgoType::IntList(vec![10, 30]);
    inseri(&mut list_start, &AgoType::Int(0), &AgoType::Int(5)).unwrap();
    assert_eq!(list_start, AgoType::IntList(vec![5, 10, 30]));

    // List middle
    let mut list_mid = AgoType::IntList(vec![10, 30]);
    inseri(&mut list_mid, &AgoType::Int(1), &AgoType::Int(20)).unwrap();
    assert_eq!(list_mid, AgoType::IntList(vec![10, 20, 30]));

    // List end
    let mut list_end = AgoType::IntList(vec![10, 30]);
    inseri(&mut list_end, &AgoType::Int(2), &AgoType::Int(40)).unwrap();
    assert_eq!(list_end, AgoType::IntList(vec![10, 30, 40]));

    // Struct (same as set)
    let mut s = sample_struct();
    inseri(&mut s, &string("c"), &AgoType::Bool(true)).unwrap();
    assert_eq!(get(&s, &string("c")), Ok(AgoType::Bool(true)));
}

#[test]
#[should_panic]
fn test_insero_list_wrong_value_type() {
    let mut list = AgoType::StringList(vec!["a".to_string()]);
    inseri(&mut list, &AgoType::Int(0), &AgoType::Int(123)).unwrap();
}

#[test]
fn test_removeo() {
    // List
    let mut list = AgoType::IntList(vec![10, 20, 30]);
    let removed_list = removium(&mut list, &AgoType::Int(1));
    assert_eq!(removed_list, Ok(AgoType::Int(20)));
    assert_eq!(list, AgoType::IntList(vec![10, 30]));

    // Struct
    let mut s = sample_struct();
    let removed_struct = removium(&mut s, &string("a"));
    assert_eq!(removed_struct, Ok(AgoType::Int(1)));
    if let AgoType::Struct(map) = s {
        assert!(!map.iter().any(|(k, _)| k == "a"));
        assert!(map.iter().any(|(k, _)| k == "b"));
    } else {
        panic!("Expected a struct");
    }
}

#[test]
#[should_panic]
fn test_removeo_struct_key_not_found() {
    let mut s = sample_struct();
    removium(&mut s, &string("z")).unwrap();
}

#[test]
fn test_claverum() {
    // Non-empty struct
    let s = sample_struct();
    let keys_ago = claverum(&s).unwrap();
    if let AgoType::StringList(mut keys) = keys_ago {
        keys.sort();
        assert_eq!(keys, vec!["a".to_string(), "b".to_string()]);
    } else {
        panic!("claverum should return a StringList");
    }

    // Empty struct
    let empty_s = AgoType::Struct(vec![]);
    let empty_keys_ago = claverum(&empty_s).unwrap();
    if let AgoType::StringList(keys) = empty_keys_ago {
        assert!(keys.is_empty());
    } else {
        panic!("claverum should return a StringList for an empty struct");
    }
}

#[test]
#[should_panic]
fn test_claverum_on_non_struct() {
    claverum(&AgoType::Int(1)).unwrap();
}

#[test]
fn test_aequalem() {
    // Same type, same value
    assert_eq!(aequalam(&AgoType::Int(5), &AgoType::Int(5)), AgoType::Bool(true));
    assert_eq!(aequalam(&float(5.0), &float(5.0)), AgoType::Bool(true));
    assert_eq!(aequalam(&string("hello"), &string("hello")), AgoType::Bool(true));
    assert_eq!(aequalam(&AgoType::Bool(true), &AgoType::Bool(true)), AgoType::Bool(true));
    assert_eq!(aequalam(&AgoType::Null, &AgoType::Null), AgoType::Bool(true));

    // Same type, different value
    assert_eq!(aequalam(&AgoType::Int(5), &AgoType::Int(6)), AgoType::Bool(false));
    assert_eq!(aequalam(&float(5.0), &float(5.1)), AgoType::Bool(false));
    assert_eq!(aequalam(&string("hello"), &string("world")), AgoType::Bool(false));
    assert_eq!(aequalam(&AgoType::Bool(true), &AgoType::Bool(false)), AgoType::Bool(false));

    // Different types, same conceptual value
    assert_eq!(aequalam(&AgoType::Int(5), &float(5.0)), AgoType::Bool(false));
    assert_eq!(aequalam(&AgoType::Int(1), &AgoType::Bool(true)), AgoType::Bool(false));
    assert_eq!(aequalam(&string("5"), &AgoType::Int(5)), AgoType::Bool(false));

    // Different types, different values
    assert_eq!(aequalam(&AgoType::Int(5), &string("hello")), AgoType::Bool(false));
    assert_eq!(aequalam(&float(1.0), &AgoType::Bool(false)), AgoType::Bool(false));
}

// --- Operator Tests ---

#[test]
fn test_arithmetic_operators() {
    // Int, Int
    assert_eq!(add(&AgoType::Int(5), &AgoType::Int(2), &floats), Ok(AgoType::Int(7)));
    assert_eq!(subtract(&AgoType::Int(5), &AgoType::Int(2), &floats), Ok(AgoType::Int(3)));
    assert_eq!(multiply(&AgoType::Int(5), &AgoType::Int(2), &floats), Ok(AgoType::Int(10)));
    assert_eq!(divide(&AgoType::Int(5), &AgoType::Int(2), &floats), Ok(AgoType::Int(2)));
    assert_eq!(modulo(&AgoType::Int(5), &AgoType::Int(2), &floats), Ok(AgoType::Int(1)));

    // Float, Float
    assert_eq!(add(&float(5.0), &float(2.0), &floats), Ok(float(7.0)));
    assert_eq!(subtract(&float(5.0), &float(2.0), &floats), Ok(float(3.0)));
    assert_eq!(multiply(&float(5.0), &float(2.0), &floats), Ok(float(10.0)));
    assert_eq!(divide(&float(5.0), &float(2.0), &floats), Ok(float(2.5)));

    // Mixed
    assert_eq!(add(&AgoType::Int(5), &float(2.5), &floats), Ok(float(7.5)));
    assert_eq!(subtract(&float(5.0), &AgoType::Int(2), &floats), Ok(float(3.0)));
}

#[test]
fn test_add_concatenation() {
    // String
    let s1 = string("hello");
    let s2 = string(" world");
    assert_eq!(add(&s1, &s2, &floats), Ok(string("hello world")));

    // List
    let l1 = AgoType::IntList(vec![1, 2]);
    let l2 = AgoType::IntList(vec![3, 4]);
    assert_eq!(add(&l1, &l2, &floats), Ok(AgoType::IntList(vec![1, 2, 3, 4])));
}

#[test]
#[should_panic]
fn test_arithmetic_panic() {
    add(&AgoType::Int(5), &string("hello"), &floats).unwrap();
}

#[test]
fn test_comparison_operators() {
    // Numeric
    assert_eq!(greater_than(&AgoType::Int(5), &AgoType::Int(2), &floats), Ok(AgoType::Bool(true)));
    assert_eq!(less_than(&float(5.0), &AgoType::Int(2), &floats), Ok(AgoType::Bool(false)));
    assert_eq!(greater_equal(&AgoType::Int(5), &float(5.0), &floats), Ok(AgoType::Bool(true)));
    assert_eq!(less_equal(&AgoType::Int(5), &AgoType::Int(5), &floats), Ok(AgoType::Bool(true)));

    // String
    assert_eq!(greater_than(&string("b"), &string("a"), &floats), Ok(AgoType::Bool(true)));
    assert_eq!(less_than(&string("b"), &string("a"), &floats), Ok(AgoType::Bool(false)));
}

#[test]
fn test_logical_operators() {
    assert_eq!(and(&AgoType::Bool(true), &AgoType::Bool(false)), Ok(AgoType::Bool(false)));
    assert_eq!(and(&AgoType::Bool(true), &AgoType::Bool(true)), Ok(AgoType::Bool(true)));
    assert_eq!(or(&AgoType::Bool(true), &AgoType::Bool(false)), Ok(AgoType::Bool(true)));
    assert_eq!(or(&AgoType::Bool(false), &AgoType::Bool(false)), Ok(AgoType::Bool(false)));
    assert_eq!(not(&AgoType::Bool(true)), Ok(AgoType::Bool(false)));
    assert_eq!(not(&AgoType::Bool(false)), Ok(AgoType::Bool(true)));
}

#[test]
#[should_panic]
fn test_logical_panic() {
    and(&AgoType::Bool(true), &AgoType::Int(1)).unwrap();
}

#[test]
fn test_bitwise_operators() {
    assert_eq!(bitwise_and(&AgoType::Int(6), &AgoType::Int(3)), Ok(AgoType::Int(2)));
    assert_eq!(bitwise_or(&AgoType::Int(6), &AgoType::Int(3)), Ok(AgoType::Int(7)));
    assert_eq!(bitwise_xor(&AgoType::Int(6), &AgoType::Int(3)), Ok(AgoType::Int(5)));
}

#[test]
#[should_panic]
fn test_bitwise_panic() {
    bitwise_and(&AgoType::Int(6), &float(3.0)).unwrap();
}

#[test]
fn test_unary_operators() {
    assert_eq!(unary_minus(&AgoType::Int(5)), Ok(AgoType::Int(-5)));
    assert_eq!(unary_minus(&float(5.0)), Ok(float(-5.0)));
    assert_eq!(unary_plus(&AgoType::Int(5)), Ok(AgoType::Int(5)));
}

#[test]
fn test_contains() {
    // In String
    assert_eq!(contains(&string("hello"), &string("ell")), Ok(AgoType::Bool(true)));
    assert_eq!(contains(&string("hello"), &string("z")), Ok(AgoType::Bool(false)));

    // In Struct (key)
    assert_eq!(contains(&sample_struct(), &string("a")), Ok(AgoType::Bool(true)));
    assert_eq!(contains(&sample_struct(), &string("z")), Ok(AgoType::Bool(false)));

    // In List
    assert_eq!(contains(&AgoType::IntList(vec![1, 2, 3]), &AgoType::Int(2)), Ok(AgoType::Bool(true)));
    assert_eq!(contains(&AgoType::IntList(vec![1, 2, 3]), &AgoType::Int(4)), Ok(AgoType::Bool(false)));
    assert_eq!(contains(&sample_any_list(), &string("two")), Ok(AgoType::Bool(true)));
}

#[test]
fn test_elvis() {
    let val = AgoType::Int(10);
    let default = AgoType::Int(20);
    let null = AgoType::Null;

    // Returns left if not null
    assert_eq!(elvis(&val, &default), Ok(val.clone()));
    assert_eq!(elvis(&val, &null), Ok(val.clone()));

    // Returns right if left is null
    assert_eq!(elvis(&null, &default), Ok(default.clone()));
}

#[test]
#[should_panic(expected = "Cannot coalesce two null values")]
fn test_elvis_panic() {
    elvis(&AgoType::Null, &AgoType::Null).expect("Cannot coalesce two null values");
}

#[test]
fn test_slice_operator_creation() {
    let range = slice(&AgoType::Int(1), &AgoType::Int(5));
    assert_eq!(range, Ok(AgoType::Range(AgoRange { start: 1, end: 5, inclusive: true })));

    let range_reverse = slice(&AgoType::Int(5), &AgoType::Int(1));
    assert_eq!(range_reverse, Ok(AgoType::Range(AgoRange { start: 5, end: 1, inclusive: true })));
}

#[test]
fn test_sliceto_operator_creation() {
    let range = sliceto(&AgoType::Int(1), &AgoType::Int(5));
    assert_eq!(range, Ok(AgoType::Range(AgoRange { start: 1, end: 5, inclusive: false })));

    let range_reverse = sliceto(&AgoType::Int(5), &AgoType::Int(1));
    assert_eq!(range_reverse, Ok(AgoType::Range(AgoRange { start: 5, end: 1, inclusive: false })));
}

#[test]
#[should_panic(expected = "Range operators can only be used with integers")]
fn test_range_operator_panic_non_int_slice() {
    slice(&float(1.0), &AgoType::Int(5)).expect("Range operators can only be used with integers");
}

#[test]
#[should_panic(expected = "Range operators can only be used with integers")]
fn test_range_operator_panic_non_int_sliceto() {
    sliceto(&AgoType::Int(1), &string("5")).expect("Range operators can only be used with integers");
}

#[test]
fn test_range_as_type_to_string() {
    let inclusive_range = AgoType::Range(AgoRange { start: 1, end: 5, inclusive: true });
    assert_eq!(inclusive_range.as_type(TargetType::String, &floats), Ok(string("1..5")));

    let exclusive_range = AgoType::Range(AgoRange { start: 1, end: 5, inclusive: false });
    assert_eq!(exclusive_range.as_type(TargetType::String, &floats), Ok(string("1.<5")));
}

#[test]
fn test_range_as_type_to_bool() {
    let inclusive_valid = AgoType::Range(AgoRange { start: 1, end: 5, inclusive: true });
    assert_eq!(inclusive_valid.as_type(TargetType::Bool, &floats), Ok(AgoType::Bool(true)));

    let exclusive_valid = AgoType::Range(AgoRange { start: 1, end: 5, inclusive: false });
    assert_eq!(exclusive_valid.as_type(TargetType::Bool, &floats), Ok(AgoType::Bool(true)));

    let single_point_inclusive = AgoType::Range(AgoRange { start: 5, end: 5, inclusive: true });
    assert_eq!(single_point_inclusive.as_type(TargetType::Bool, &floats), Ok(AgoType::Bool(true)));

    let inclusive_invalid = AgoType::Range(AgoRange { start: 5, end: 1, inclusive: true });
    assert_eq!(inclusive_invalid.as_type(TargetType::Bool, &floats), Ok(AgoType::Bool(false)));

    let exclusive_invalid = AgoType::Range(AgoRange { start: 5, end: 1, inclusive: false });
    assert_eq!(exclusive_invalid.as_type(TargetType::Bool, &floats), Ok(AgoType::Bool(false)));
}

#[test]
fn test_range_as_type_to_intlist() {
    // Inclusive ranges
    let inclusive_range = AgoType::Range(AgoRange { start: 1, end: 5, inclusive: true });
    assert_eq!(inclusive_range.as_type(TargetType::IntList, &floats), Ok(AgoType::IntList(vec![1, 2, 3, 4, 5])));

    let single_point_inclusive = AgoType::Range(AgoRange { start: 5, end: 5, inclusive: true });
    assert_eq!(single_point_inclusive.as_type(TargetType::IntList, &floats), Ok(AgoType::IntList(vec![5])));

    let inclusive_negative = AgoType::Range(AgoRange { start: -2, end: 2, inclusive: true });
    assert_eq!(inclusive_negative.as_type(TargetType::IntList, &floats), Ok(AgoType::IntList(vec![-2, -1, 0, 1, 2])));

    // Exclusive ranges
    let exclusive_range = AgoType::Range(AgoRange { start: 1, end: 5, inclusive: false });
    assert_eq!(exclusive_range.as_type(TargetType::IntList, &floats), Ok(AgoType::IntList(vec![1, 2, 3, 4])));

    let exclusive_empty = AgoType::Range(AgoRange { start: 5, end: 5, inclusive: false });
    assert_eq!(exclusive_empty.as_type(TargetType::IntList, &floats), Ok(AgoType::IntList(vec![])));

    let exclusive_negative = AgoType::Range(AgoRange { start: -2, end: 2, inclusive: false });
    assert_eq!(exclusive_negative.as_type(TargetType::IntList, &floats), Ok(AgoType::IntList(vec![-2, -1, 0, 1])));

    // Invalid ranges (start > end)
    let inclusive_invalid = AgoType::Range(AgoRange { start: 5, end: 1, inclusive: true });
    assert_eq!(inclusive_invalid.as_type(TargetType::IntList, &floats), Ok(AgoType::IntList(vec![])));

    let exclusive_invalid = AgoType::Range(AgoRange { start: 5, end: 1, inclusive: false });
    assert_eq!(exclusive_invalid.as_type(TargetType::IntList, &floats), Ok(AgoType::IntList(vec![])));
}
