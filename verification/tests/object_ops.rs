use persistent_json::Number;
use persistent_json::Object;
use persistent_json::Value;

fn key(s: &str) -> String {
    String::from(s)
}

fn num(n: u64) -> Value {
    Value::Number(Number::PosInt(n))
}

#[test]
fn insert_and_get() {
    let mut o = Object::new();
    assert!(o.is_empty());
    assert_eq!(o.insert(key("a"), num(1)), None);
    assert_eq!(o.len(), 1);
    assert!(o.contains_key("a"));
    assert_eq!(o.get("a"), Some(&num(1)));
    assert_eq!(o.get("b"), None);
}

#[test]
fn insert_twice_replaces() {
    let mut o = Object::new();
    assert_eq!(o.insert(key("k"), num(1)), None);
    assert_eq!(o.insert(key("k"), num(2)), Some(num(1)));
    assert_eq!(o.len(), 1);
    assert_eq!(o.get("k"), Some(&num(2)));
    assert_eq!(o.keys().len(), 1);
}

#[test]
fn remove_after_insert() {
    let mut o = Object::new();
    o.insert(key("k"), num(7));
    assert_eq!(o.remove("k"), Some(num(7)));
    assert_eq!(o.get("k"), None);
    assert_eq!(o.len(), 0);
}

#[test]
fn remove_absent_leaves_map_unchanged() {
    let mut o = Object::new();
    o.insert(key("a"), num(1));
    assert_eq!(o.remove("zz"), None);
    assert_eq!(o.len(), 1);
    assert_eq!(o.get("a"), Some(&num(1)));
}

#[test]
fn keys_stay_sorted_after_every_mutation() {
    let mut o = Object::new();
    for name in ["delta", "alpha", "echo", "charlie", "bravo"] {
        o.insert(key(name), num(0));
    }
    assert_eq!(
        o.keys().as_slice(),
        &[key("alpha"), key("bravo"), key("charlie"), key("delta"), key("echo")]
    );
    o.remove("charlie");
    assert_eq!(o.keys().as_slice(), &[key("alpha"), key("bravo"), key("delta"), key("echo")]);
    match o.entry(key("aaa")) {
        persistent_json::Entry::Vacant(e) => {
            e.insert(num(9));
        }
        persistent_json::Entry::Occupied(_) => panic!("aaa must be vacant"),
    }
    assert_eq!(
        o.keys().as_slice(),
        &[key("aaa"), key("alpha"), key("bravo"), key("delta"), key("echo")]
    );
}

#[test]
fn append_disjoint_sorts_and_empties_other() {
    let mut a = Object::new();
    a.insert(key("a"), num(1));
    a.insert(key("c"), num(3));
    let mut b = Object::new();
    b.insert(key("b"), num(2));
    b.insert(key("d"), num(4));
    a.append(&mut b);
    assert!(b.is_empty());
    assert_eq!(a.keys().as_slice(), &[key("a"), key("b"), key("c"), key("d")]);
    assert_eq!(a.values().as_slice(), &[num(1), num(2), num(3), num(4)]);
}

#[test]
fn append_shared_key_keeps_both_entries() {
    // The documented edge case: append does not deduplicate. Both entries
    // keyed "x" survive, adjacent, with self's entry first.
    let mut a = Object::new();
    a.insert(key("x"), num(1));
    let mut b = Object::new();
    b.insert(key("x"), num(2));
    a.append(&mut b);
    assert!(b.is_empty());
    assert_eq!(a.len(), 2);
    assert_eq!(a.keys().as_slice(), &[key("x"), key("x")]);
    assert_eq!(a.values().as_slice(), &[num(1), num(2)]);
}

#[test]
fn clear_restores_empty_state() {
    let mut o = Object::new();
    o.insert(key("a"), num(1));
    o.insert(key("b"), num(2));
    o.clear();
    assert!(o.is_empty());
    assert_eq!(o.len(), 0);
    assert_eq!(o.get("a"), None);
}

#[test]
fn get_mut_changes_only_that_key() {
    let mut o = Object::new();
    o.insert(key("a"), num(1));
    o.insert(key("b"), num(2));
    match o.get_mut("a") {
        Some(v) => *v = num(10),
        None => panic!("a must be present"),
    }
    assert_eq!(o.get("a"), Some(&num(10)));
    assert_eq!(o.get("b"), Some(&num(2)));
    assert!(o.get_mut("zz").is_none());
}

#[test]
fn entry_or_insert_returns_same_value_twice() {
    let mut o = Object::new();
    {
        let v = o.entry(key("k")).or_insert(num(1));
        assert_eq!(*v, num(1));
    }
    {
        let v = o.entry(key("k")).or_insert(num(2));
        assert_eq!(*v, num(1));
    }
    assert_eq!(o.len(), 1);
    assert_eq!(o.get("k"), Some(&num(1)));
}

#[test]
fn entry_or_insert_with_is_lazy_when_occupied() {
    let mut o = Object::new();
    let v = o.entry(key("k")).or_insert_with(|| num(5));
    assert_eq!(*v, num(5));
    let v = o.entry(key("k")).or_insert_with(|| panic!("default must not run"));
    assert_eq!(*v, num(5));
}

#[test]
fn occupied_entry_operations() {
    let mut o = Object::new();
    o.insert(key("k"), num(1));
    match o.entry(key("k")) {
        persistent_json::Entry::Occupied(e) => {
            assert_eq!(e.key(), &key("k"));
            assert_eq!(e.get(), &num(1));
            assert_eq!(e.insert(num(2)), num(1));
        }
        persistent_json::Entry::Vacant(_) => panic!("k must be occupied"),
    }
    assert_eq!(o.get("k"), Some(&num(2)));
    match o.entry(key("k")) {
        persistent_json::Entry::Occupied(e) => {
            assert_eq!(e.remove(), num(2));
        }
        persistent_json::Entry::Vacant(_) => panic!("k must be occupied"),
    }
    assert_eq!(o.get("k"), None);
    assert!(o.is_empty());
}

#[test]
fn vacant_entry_key_and_insert() {
    let mut o = Object::new();
    match o.entry(key("fresh")) {
        persistent_json::Entry::Vacant(e) => {
            assert_eq!(e.key(), &key("fresh"));
            let v = e.insert(num(3));
            assert_eq!(*v, num(3));
            *v = num(4);
        }
        persistent_json::Entry::Occupied(_) => panic!("fresh must be vacant"),
    }
    assert_eq!(o.get("fresh"), Some(&num(4)));
}

#[test]
fn iter_count_matches_len() {
    let mut o = Object::new();
    o.insert(key("a"), num(1));
    o.insert(key("b"), num(2));
    o.insert(key("c"), num(3));
    let mut it = o.iter();
    let mut count = 0usize;
    while let Some(_) = it.next() {
        count += 1;
    }
    assert_eq!(count, o.len());
}

fn as_pos_int(v: &Value) -> u64 {
    match v {
        Value::Number(n) => n.as_u64().unwrap(),
        _ => panic!("expected a non-negative integer value"),
    }
}

#[test]
fn iter_forward_and_reverse_agree() {
    let mut o = Object::new();
    o.insert(key("b"), num(2));
    o.insert(key("a"), num(1));
    o.insert(key("c"), num(3));
    let mut forward = Vec::new();
    let mut it = o.iter();
    while let Some((k, v)) = it.next() {
        forward.push((k.clone(), as_pos_int(v)));
    }
    let mut backward = Vec::new();
    let mut it = o.iter();
    while let Some((k, v)) = it.next_back() {
        backward.push((k.clone(), as_pos_int(v)));
    }
    backward.reverse();
    assert_eq!(forward, backward);
    assert_eq!(forward, vec![(key("a"), 1), (key("b"), 2), (key("c"), 3)]);
}

#[test]
fn values_mut_allows_in_place_mutation() {
    let mut o = Object::new();
    o.insert(key("a"), num(1));
    o.insert(key("b"), num(2));
    for v in o.values_mut().iter_mut() {
        *v = num(9);
    }
    assert_eq!(o.get("a"), Some(&num(9)));
    assert_eq!(o.get("b"), Some(&num(9)));
    assert_eq!(o.len(), 2);
}

#[test]
fn iter_is_fused() {
    let mut o = Object::new();
    o.insert(key("a"), num(1));
    let mut it = o.iter();
    assert!(it.next().is_some());
    assert!(it.next().is_none());
    assert!(it.next().is_none());
    assert!(it.next_back().is_none());
}

#[test]
fn iter_double_ended_meets_in_middle() {
    let mut o = Object::new();
    o.insert(key("a"), num(1));
    o.insert(key("b"), num(2));
    o.insert(key("c"), num(3));
    let mut it = o.iter();
    assert_eq!(it.remaining(), 3);
    let front = it.next().unwrap();
    assert_eq!(front.0, &key("a"));
    let back = it.next_back().unwrap();
    assert_eq!(back.0, &key("c"));
    let middle = it.next().unwrap();
    assert_eq!(middle.0, &key("b"));
    assert!(it.next().is_none());
}

#[test]
fn default_object_is_empty() {
    let o: Object = Default::default();
    assert!(o.is_empty());
}
