use persistent_json::Index;
use persistent_json::Number;
use persistent_json::Object;
use persistent_json::Value;

fn key(s: &str) -> String {
    String::from(s)
}

fn num(n: u64) -> Value {
    Value::Number(Number::PosInt(n))
}

#[test]
fn value_predicates() {
    assert!(Value::Null.is_null());
    assert_eq!(Value::Null.as_null(), Some(()));
    assert!(!Value::Bool(true).is_null());
    assert!(Value::Bool(true).is_boolean());
    assert_eq!(Value::Bool(false).as_bool(), Some(false));
    assert!(num(3).is_number());
    assert!(Value::String(key("hi")).is_string());
    assert_eq!(Value::String(key("hi")).as_str(), Some("hi"));
    assert_eq!(num(3).as_str(), None);
    assert!(Value::Array(vec![]).is_array());
    assert!(Value::Object(Object::new()).is_object());
    assert!(Value::Object(Object::new()).as_object().is_some());
    assert!(Value::Null.as_object().is_none());
}

#[test]
fn value_as_array_mut_reaches_elements() {
    let mut v = Value::Array(vec![num(1), num(2)]);
    match v.as_array_mut() {
        Some(arr) => arr.push(num(3)),
        None => panic!("must be an array"),
    }
    assert_eq!(v.as_array().unwrap().len(), 3);
}

#[test]
fn value_default_is_null() {
    let v: Value = Default::default();
    assert!(v.is_null());
}

#[test]
fn index_read_missing_key_yields_null_without_mutation() {
    let mut o = Object::new();
    o.insert(key("present"), num(1));
    let v = Value::Object(o);
    assert!(v.index("missing").is_null());
    assert_eq!(*v.index("present"), num(1));
    match &v {
        Value::Object(o) => assert!(!o.contains_key("missing")),
        _ => unreachable!(),
    }
}

#[test]
fn index_mut_missing_key_inserts_null() {
    let mut v = Value::Object(Object::new());
    {
        let slot = v.index_mut("missing");
        assert!(slot.is_null());
        *slot = num(9);
    }
    match &v {
        Value::Object(o) => {
            assert!(o.contains_key("missing"));
            assert_eq!(o.get("missing"), Some(&num(9)));
        }
        _ => unreachable!(),
    }
}

#[test]
fn index_kind_mismatch_degrades_to_null() {
    let v = Value::Bool(true);
    assert!(v.index("anything").is_null());
    assert!(v.index(0usize).is_null());
    let arr = Value::Array(vec![num(5)]);
    assert!(arr.index("anything").is_null());
    assert_eq!(*arr.index(0usize), num(5));
    assert!(arr.index(1usize).is_null());
}

#[test]
fn index_positions_write_path() {
    let mut v = Value::Array(vec![num(1), num(2)]);
    *v.index_mut(1usize) = num(20);
    assert_eq!(*v.index(1usize), num(20));
}

#[test]
fn index_through_references_and_string_keys() {
    let mut o = Object::new();
    o.insert(key("k"), num(4));
    let v = Value::Object(o);
    let owned = key("k");
    assert_eq!(*v.index(&owned), num(4));
    assert_eq!(*v.index(owned), num(4));
    assert_eq!(*v.index("k"), num(4));
}

#[test]
fn number_classification() {
    let p = Number::PosInt(5);
    let n = Number::NegInt(-5);
    assert!(p.is_u64() && p.is_i64() && !p.is_f64());
    assert!(!n.is_u64() && n.is_i64() && !n.is_f64());
    let big = Number::PosInt(u64::MAX);
    assert!(big.is_u64() && !big.is_i64());
    assert!(Number::PosInt(i64::MAX as u64).is_i64());
}

#[test]
fn number_coercions() {
    assert_eq!(Number::PosInt(5).as_i64(), Some(5));
    assert_eq!(Number::PosInt(u64::MAX).as_i64(), None);
    assert_eq!(Number::NegInt(-5).as_i64(), Some(-5));
    assert_eq!(Number::PosInt(5).as_u64(), Some(5));
    assert_eq!(Number::NegInt(-5).as_u64(), None);
    assert_eq!(Number::NegInt(-5).as_f64_bits(), None);
}

#[test]
fn number_from_finite_float_bits() {
    let bits = 5.0f64.to_bits();
    assert_eq!(Number::from_f64_bits(bits), Some(Number::Float(bits)));
    let n = Number::from_f64_bits(bits).unwrap();
    assert!(n.is_f64() && !n.is_i64() && !n.is_u64());
    assert_eq!(n.as_f64_bits(), Some(bits));
    assert_eq!(n.as_i64(), None);
    assert_eq!(Number::from_f64_bits(f64::NAN.to_bits()), None);
    assert_eq!(Number::from_f64_bits(f64::INFINITY.to_bits()), None);
    assert_eq!(Number::from_f64_bits(f64::NEG_INFINITY.to_bits()), None);
    assert_eq!(Number::from_f64_bits(f64::MAX.to_bits()), Some(Number::Float(f64::MAX.to_bits())));
}
