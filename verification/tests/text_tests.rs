use quark::text::{bytes_to_array32, decimal_string, push_lower_hex, push_signed_decimal, same_text};

#[test]
fn decimal_renderings() {
    assert_eq!(decimal_string(0), "0");
    assert_eq!(decimal_string(10), "10");
    assert_eq!(decimal_string(u64::MAX), u64::MAX.to_string());
    for n in [i64::MIN, -1, 0, 7, i64::MAX] {
        let mut s = String::from("x");
        push_signed_decimal(&mut s, n);
        assert_eq!(s, format!("x{}", n));
    }
}

#[test]
fn hex_rendering() {
    let mut s = String::new();
    push_lower_hex(&mut s, &[0x00, 0x0f, 0xa0, 0xff]);
    assert_eq!(s, "000fa0ff");
}

#[test]
fn text_comparison() {
    assert!(same_text("Proton", "Proton"));
    assert!(!same_text("Proton", "proton"));
    assert!(!same_text("é", "e"));
    assert!(same_text("", ""));
}

#[test]
fn array_copy() {
    let v: Vec<u8> = (0..32).collect();
    assert_eq!(bytes_to_array32(&v).to_vec(), v);
}
