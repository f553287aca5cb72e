use hostval::host::Host;
use hostval::value::{Dict, Value};

#[test]
fn present_key_yields_its_value() {
    let mut host = Host::new();
    let k = host.alloc_str("name".to_string());
    let v = host.alloc_str("ada".to_string());
    let d = host.alloc_dict(vec![(k, v)]);
    let dict = Dict::new(d);
    let hit = dict.get_item(k, &host).unwrap();
    assert_eq!(hit.as_ptr(), v);
    assert_eq!(hit.as_str(&host), Some("ada"));
}

#[test]
fn absent_key_yields_nothing() {
    let mut host = Host::new();
    let k = host.alloc_str("name".to_string());
    let v = host.alloc_int(1);
    let d = host.alloc_dict(vec![(k, v)]);
    let other = host.alloc_str("missing".to_string());
    let dict = Dict::new(d);
    assert!(dict.get_item(other, &host).is_none());
}

#[test]
fn equal_text_keys_are_identified() {
    let mut host = Host::new();
    let k1 = host.alloc_str("id".to_string());
    let v = host.alloc_int(7);
    let d = host.alloc_dict(vec![(k1, v)]);
    // a distinct handle with the same text finds the same entry
    let k2 = host.alloc_str("id".to_string());
    assert_ne!(k1, k2);
    let dict = Dict::new(d);
    assert_eq!(dict.get_item(k2, &host).unwrap().as_ptr(), v);
}

#[test]
fn equal_integer_keys_are_identified() {
    let mut host = Host::new();
    let k1 = host.alloc_int(5);
    let v = host.alloc_str("five".to_string());
    let d = host.alloc_dict(vec![(k1, v)]);
    let k2 = host.alloc_int(5);
    let k3 = host.alloc_int(6);
    let dict = Dict::new(d);
    assert_eq!(dict.get_item(k2, &host).unwrap().as_ptr(), v);
    assert!(dict.get_item(k3, &host).is_none());
}

#[test]
fn lookup_picks_the_right_entry() {
    let mut host = Host::new();
    let ka = host.alloc_str("a".to_string());
    let kb = host.alloc_str("b".to_string());
    let kc = host.alloc_int(3);
    let va = host.alloc_int(1);
    let vb = host.alloc_int(2);
    let vc = host.alloc_bool(true);
    let d = host.alloc_dict(vec![(ka, va), (kb, vb), (kc, vc)]);
    let dict = Dict::new(d);
    assert_eq!(dict.get_item(ka, &host).unwrap().as_int(&host), Some(1));
    assert_eq!(dict.get_item(kb, &host).unwrap().as_int(&host), Some(2));
    assert_eq!(dict.get_item(kc, &host).unwrap().as_bool(&host), Some(true));
}

#[test]
fn boolean_and_integer_keys_are_identified() {
    let mut host = Host::new();
    let k1 = host.alloc_int(1);
    let v1 = host.alloc_str("one".to_string());
    let d = host.alloc_dict(vec![(k1, v1)]);
    let kt = host.alloc_bool(true);
    let kf = host.alloc_bool(false);
    let dict = Dict::new(d);
    // the host treats its booleans as the integers zero and one
    assert_eq!(dict.get_item(kt, &host).unwrap().as_ptr(), v1);
    assert!(dict.get_item(kf, &host).is_none());
    assert!(host.keys_equal(kt, k1));
    let k0 = host.alloc_int(0);
    assert!(host.keys_equal(kf, k0));
}

#[test]
fn unhashable_key_collapses_to_nothing() {
    let mut host = Host::new();
    let k = host.alloc_str("k".to_string());
    let v = host.alloc_int(1);
    let d = host.alloc_dict(vec![(k, v)]);
    let unhashable = host.alloc_list(1);
    let other_dict = host.alloc_dict(Vec::new());
    let dict = Dict::new(d);
    // the host's lookup failure and a missing key give the same answer
    assert!(dict.get_item(unhashable, &host).is_none());
    assert!(dict.get_item(other_dict, &host).is_none());
}

#[test]
fn narrowing_reaches_a_nested_dict() {
    let mut host = Host::new();
    let k = host.alloc_str("inner".to_string());
    let ik = host.alloc_str("x".to_string());
    let iv = host.alloc_int(9);
    let inner = host.alloc_dict(vec![(ik, iv)]);
    let outer = host.alloc_dict(vec![(k, inner)]);
    let v = Value::new(outer, &host);
    let dict = v.as_dict().unwrap();
    let got = dict.get_item(k, &host).unwrap();
    let inner_dict = got.as_dict().unwrap();
    let leaf = inner_dict.get_item(ik, &host).unwrap();
    assert_eq!(leaf.as_int(&host), Some(9));
}
