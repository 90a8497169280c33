use dialogue_graph::id::{format_id, generate_id, to_technical_name, ArticyId, IdCounter};

#[test]
fn test_articy_id_generation() {
    let mut ids = IdCounter::new();
    let id1 = ArticyId::new(&mut ids);
    let id2 = ArticyId::new(&mut ids);
    assert_ne!(id1, id2);
}

#[test]
fn test_articy_id_hex() {
    let mut ids = IdCounter::new();
    let id = ArticyId::new(&mut ids);
    let hex = id.to_hex_string();
    let parsed = ArticyId::from_hex_string(&hex).unwrap();
    assert_eq!(id, parsed);
}

#[test]
fn test_technical_name() {
    assert_eq!(to_technical_name("Hello World"), "Hello_World");
    assert_eq!(to_technical_name("123 Start"), "_123_Start");
    assert_eq!(to_technical_name("Test---Name"), "Test_Name");
}

#[test]
fn technical_name_edges() {
    assert_eq!(to_technical_name(""), "");
    assert_eq!(to_technical_name("  --__  "), "");
    assert_eq!(to_technical_name("  lead and trail  "), "lead_and_trail");
    assert_eq!(to_technical_name("a!b?c"), "abc");
    assert_eq!(to_technical_name("Grüße Welt"), "Grüße_Welt");
    assert_eq!(to_technical_name("a\tb\nc"), "a_b_c");
    let long = "x".repeat(70);
    assert_eq!(to_technical_name(&long), "x".repeat(64));
    let digits = format!("1{}", "y".repeat(70));
    let t = to_technical_name(&digits);
    assert_eq!(t.chars().count(), 64);
    assert!(t.starts_with("_1"));
}

#[test]
fn technical_name_is_stable() {
    for s in ["Hello World", "123 Start", "Test---Name", "  a - b _ c  ", "9 lives"] {
        let t = to_technical_name(s);
        assert_eq!(to_technical_name(&t), t);
    }
    let cut = format!("{} x", "a".repeat(63));
    let t = to_technical_name(&cut);
    assert!(t.ends_with('_'));
    assert_eq!(to_technical_name(&t), t[..t.len() - 1].to_string());
}

#[test]
fn hex_text_form() {
    let id = ArticyId { low: 0x0123_4567_89ab_cdef, high: 0xfedc_ba98_7654_3210 };
    assert_eq!(id.to_hex_string(), "0xfedcba98765432100123456789abcdef");
    let back = ArticyId::from_hex_string("FEDCBA98765432100123456789ABCDEF").unwrap();
    assert_eq!(back, id);
    let null = ArticyId { low: 0, high: 0 };
    assert_eq!(null.to_hex_string(), "0x00000000000000000000000000000000");
    assert!(null.is_null());
    assert!(!id.is_null());
}

#[test]
fn hex_parse_failures() {
    assert_eq!(ArticyId::from_hex_string(""), None);
    assert_eq!(ArticyId::from_hex_string("0x1234"), None);
    assert_eq!(ArticyId::from_hex_string("0xfedcba98765432100123456789abcdeg"), None);
    assert_eq!(ArticyId::from_hex_string("0x+edcba98765432100123456789abcdef"), None);
    assert_eq!(ArticyId::from_hex_string("0xfedcba98765432100123456789abcdef0"), None);
}

#[test]
fn short_id_format() {
    assert_eq!(format_id(0x18f, 0xabc, 0), "18f-abc-0");
    assert_eq!(format_id(0, 0xffffff, 255), "0-ffffff-ff");
}

#[test]
fn generated_ids_carry_the_serial() {
    let mut ids = IdCounter::new();
    let a = generate_id(&mut ids);
    let b = generate_id(&mut ids);
    assert!(a.ends_with("-0"));
    assert!(b.ends_with("-1"));
    assert_ne!(a, b);
    assert_eq!(ids.next, 2);
    let parts: Vec<&str> = a.split('-').collect();
    assert_eq!(parts.len(), 3);
    assert!(u64::from_str_radix(parts[1], 16).unwrap() <= 0xff_ffff);
    assert!(u64::from_str_radix(parts[0], 16).unwrap() > 0);
}

#[test]
fn counter_wraps() {
    let mut ids = IdCounter { next: u64::MAX };
    assert_eq!(ids.bump(), u64::MAX);
    assert_eq!(ids.next, 0);
}

#[test]
fn articy_id_serial_part() {
    let mut ids = IdCounter { next: 7 };
    let id = ArticyId::new(&mut ids);
    assert_eq!(id.low >> 32, 7);
    assert_eq!(ids.next, 8);
}
