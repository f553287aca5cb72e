use hostval::host::Host;
use hostval::host::ObjectType;
use hostval::value::Value;

#[test]
fn classify_matches_cached_tag() {
    let mut host = Host::new();
    let hn = host.alloc_none();
    let hb = host.alloc_bool(true);
    let hi = host.alloc_int(7);
    let hf = host.alloc_float(2.5f64.to_bits(), "2.5".to_string());
    let hs = host.alloc_str("abc".to_string());
    let ho = host.alloc_other(Some("<obj>".to_string()));
    assert_eq!(Value::new(hn, &host).object_type, host.classify(hn));
    assert_eq!(Value::new(hb, &host).object_type, host.classify(hb));
    assert_eq!(Value::new(hi, &host).object_type, host.classify(hi));
    assert_eq!(Value::new(hf, &host).object_type, host.classify(hf));
    assert_eq!(Value::new(hs, &host).object_type, host.classify(hs));
    assert_eq!(Value::new(ho, &host).object_type, host.classify(ho));
    assert_eq!(Value::new(hn, &host).object_type, ObjectType::NoneType);
    assert_eq!(Value::new(hb, &host).object_type, ObjectType::Bool);
    assert_eq!(Value::new(hi, &host).object_type, ObjectType::Int);
    assert_eq!(Value::new(hf, &host).object_type, ObjectType::Float);
    assert_eq!(Value::new(hs, &host).object_type, ObjectType::Str);
    assert_eq!(Value::new(ho, &host).object_type, ObjectType::Other);
}

#[test]
fn is_none_only_for_none() {
    let mut host = Host::new();
    let hn = host.alloc_none();
    let hi = host.alloc_int(0);
    assert!(Value::new(hn, &host).is_none());
    assert!(!Value::new(hi, &host).is_none());
}

#[test]
fn matching_accessor_answers_and_others_decline() {
    let mut host = Host::new();
    let hb = host.alloc_bool(false);
    let v = Value::new(hb, &host);
    assert_eq!(v.as_bool(&host), Some(false));
    assert_eq!(v.as_int(&host), None);
    assert_eq!(v.as_float(&host), None);
    assert_eq!(v.as_str(&host), None);
    assert!(v.as_array().is_none());
    assert!(v.as_dict().is_none());

    let hi = host.alloc_int(-12);
    let v = Value::new(hi, &host);
    assert_eq!(v.as_int(&host), Some(-12));
    assert_eq!(v.as_bool(&host), None);
    assert_eq!(v.as_str(&host), None);
    assert!(v.as_array().is_none());
    assert!(v.as_dict().is_none());

    let bits = 0.5f64.to_bits();
    let hf = host.alloc_float(bits, "0.5".to_string());
    let v = Value::new(hf, &host);
    assert_eq!(v.as_float(&host), Some(bits));
    assert_eq!(f64::from_bits(v.as_float(&host).unwrap()), 0.5f64);
    assert_eq!(v.as_int(&host), None);

    let hs = host.alloc_str("hello".to_string());
    let v = Value::new(hs, &host);
    assert_eq!(v.as_str(&host), Some("hello"));
    assert_eq!(v.as_bool(&host), None);

    let hn = host.alloc_none();
    let v = Value::new(hn, &host);
    assert_eq!(v.as_bool(&host), None);
    assert_eq!(v.as_int(&host), None);
    assert_eq!(v.as_float(&host), None);
    assert_eq!(v.as_str(&host), None);
    assert!(v.as_array().is_none());
    assert!(v.as_dict().is_none());
}

#[test]
fn bool_payload_is_the_singleton_answer() {
    let mut host = Host::new();
    let ht = host.alloc_bool(true);
    let hf = host.alloc_bool(false);
    assert_eq!(Value::new(ht, &host).as_bool(&host), Some(true));
    assert_eq!(Value::new(hf, &host).as_bool(&host), Some(false));
}

#[test]
fn container_narrowing_keeps_the_handle() {
    let mut host = Host::new();
    let hl = host.alloc_list(2);
    let hd = host.alloc_dict(Vec::new());
    let vl = Value::new(hl, &host);
    let vd = Value::new(hd, &host);
    let arr = vl.as_array().unwrap();
    let dict = vd.as_dict().unwrap();
    assert_eq!(arr.as_ptr(), vl.as_ptr());
    assert_eq!(dict.handle, vd.as_ptr());
    assert!(vl.as_dict().is_none());
    assert!(vd.as_array().is_none());
    assert_eq!(vl.as_bool(&host), None);
    assert_eq!(vd.as_int(&host), None);
}

#[test]
fn as_ptr_is_the_wrapped_handle() {
    let mut host = Host::new();
    let h = host.alloc_int(3);
    let v = Value::new(h, &host);
    assert_eq!(v.as_ptr(), h);
}

#[test]
fn wrapping_changes_no_reference_count() {
    let mut host = Host::new();
    let h = host.alloc_str("x".to_string());
    let before = host.ref_count(h);
    let v = Value::new(h, &host);
    let _ = v.as_str(&host);
    let _ = v.as_bool(&host);
    assert_eq!(host.ref_count(h), before);
}
