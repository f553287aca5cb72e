use hostval::decimal::i64_to_string;
use hostval::host::{ConversionError, Host};
use hostval::value::{Array, Value};

#[test]
fn none_renders_the_canonical_token() {
    let mut host = Host::new();
    let h = host.alloc_none();
    let v = Value::new(h, &host);
    assert_eq!(v.to_string(&host).unwrap(), "None");
}

#[test]
fn booleans_render_their_tokens() {
    let mut host = Host::new();
    let ht = host.alloc_bool(true);
    let hf = host.alloc_bool(false);
    assert_eq!(Value::new(ht, &host).to_string(&host).unwrap(), "True");
    assert_eq!(Value::new(hf, &host).to_string(&host).unwrap(), "False");
}

#[test]
fn integers_render_in_decimal() {
    let mut host = Host::new();
    for (n, s) in [
        (0i64, "0"),
        (7, "7"),
        (10, "10"),
        (-1, "-1"),
        (-42, "-42"),
        (1000000, "1000000"),
        (i64::MAX, "9223372036854775807"),
        (i64::MIN, "-9223372036854775808"),
    ] {
        let h = host.alloc_int(n);
        assert_eq!(Value::new(h, &host).to_string(&host).unwrap(), s);
    }
}

#[test]
fn decimal_rendering_matches_the_standard_one() {
    for n in [0i64, 1, 9, 10, 99, 100, -7, -100, 123456789, i64::MIN, i64::MAX] {
        assert_eq!(i64_to_string(n), n.to_string());
    }
}

#[test]
fn text_renders_as_itself() {
    let mut host = Host::new();
    let h = host.alloc_str("hello world".to_string());
    assert_eq!(Value::new(h, &host).to_string(&host).unwrap(), "hello world");
}

#[test]
fn floats_render_their_stored_display() {
    let mut host = Host::new();
    let h = host.alloc_float(1.5f64.to_bits(), "1.5".to_string());
    assert_eq!(Value::new(h, &host).to_string(&host).unwrap(), "1.5");
}

#[test]
fn custom_objects_delegate_to_their_display_hook() {
    let mut host = Host::new();
    let h = host.alloc_other(Some("<Widget at 0x1>".to_string()));
    assert_eq!(
        Value::new(h, &host).to_string(&host).unwrap(),
        "<Widget at 0x1>"
    );
}

#[test]
fn a_failing_display_hook_surfaces_as_an_error() {
    let mut host = Host::new();
    let h = host.alloc_other(None);
    assert_eq!(Value::new(h, &host).to_string(&host), Err(ConversionError));
}

#[test]
fn empty_containers_render_their_brackets() {
    let mut host = Host::new();
    let hl = host.alloc_list(0);
    let hd = host.alloc_dict(Vec::new());
    assert_eq!(Value::new(hl, &host).to_string(&host).unwrap(), "[]");
    assert_eq!(Value::new(hd, &host).to_string(&host).unwrap(), "{}");
}

#[test]
fn sequences_render_their_elements_comma_joined() {
    let mut host = Host::new();
    let mut a = Array::new_with_capacity(3, &mut host);
    let hi = host.alloc_int(1);
    let hs = host.alloc_str("a".to_string());
    let hb = host.alloc_bool(true);
    a.set(0, hi, &mut host);
    a.set(1, hs, &mut host);
    a.set(2, hb, &mut host);
    let v = Value::new(a.as_ptr(), &host);
    assert_eq!(v.to_string(&host).unwrap(), "[1, a, True]");
}

#[test]
fn nested_containers_render_recursively() {
    let mut host = Host::new();
    let inner = Array::new_with_capacity(1, &mut host);
    let hi = host.alloc_int(7);
    let mut inner = inner;
    inner.set(0, hi, &mut host);
    let k = host.alloc_str("xs".to_string());
    let hd = host.alloc_dict(vec![(k, inner.as_ptr())]);
    let mut outer = Array::new_with_capacity(2, &mut host);
    let hn = host.alloc_none();
    outer.set(0, hd, &mut host);
    outer.set(1, hn, &mut host);
    let v = Value::new(outer.as_ptr(), &host);
    assert_eq!(v.to_string(&host).unwrap(), "[{xs: [7]}, None]");
}

#[test]
fn a_failing_hook_inside_a_container_fails_the_rendering() {
    let mut host = Host::new();
    let mut a = Array::new_with_capacity(1, &mut host);
    let bad = host.alloc_other(None);
    a.set(0, bad, &mut host);
    let v = Value::new(a.as_ptr(), &host);
    assert_eq!(v.to_string(&host), Err(ConversionError));
}

#[test]
fn an_unpopulated_slot_fails_the_rendering() {
    let mut host = Host::new();
    let a = Array::new_with_capacity(2, &mut host);
    let v = Value::new(a.as_ptr(), &host);
    assert_eq!(v.to_string(&host), Err(ConversionError));
}

#[test]
fn a_self_referential_sequence_fails_the_rendering() {
    let mut host = Host::new();
    let mut a = Array::new_with_capacity(1, &mut host);
    let own = a.as_ptr();
    a.set(0, own, &mut host);
    let v = Value::new(a.as_ptr(), &host);
    assert_eq!(v.to_string(&host), Err(ConversionError));
}
