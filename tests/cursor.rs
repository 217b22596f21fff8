use valnk::cursor::Cursor;
use valnk::result::Error;

fn sample() -> Cursor {
    let mut c = Cursor::new();
    c.insert("PK".to_string(), "SUBMS#id1".to_string());
    c.insert("SK".to_string(), "A".to_string());
    c.insert("GSI1_PK".to_string(), "TOPIC#news".to_string());
    c.insert("GSI1_SK".to_string(), "SUBMS#0000000005".to_string());
    c
}

#[test]
fn token_layout() {
    let mut c = Cursor::new();
    c.insert("a".to_string(), "x,y".to_string());
    c.insert("b\\".to_string(), String::new());
    assert_eq!(c.to_string(), "a.x~0000002cy.b~0000005c..");
    assert_eq!(Cursor::new().to_string(), "");
    let mut k = Cursor::new();
    k.insert("PK".to_string(), "SUBMS#id 1\né".to_string());
    assert_eq!(k.to_string(), "PK.SUBMS~00000023id~000000201~0000000a~000000e9.");
}

#[test]
fn round_trip() {
    let c = sample();
    let back = Cursor::from_str(&c.to_string()).unwrap();
    assert_eq!(back, c);
    let mut odd = Cursor::new();
    odd.insert("k,\\".to_string(), "\\\\,,é".to_string());
    odd.insert(String::new(), String::new());
    assert_eq!(Cursor::from_str(&odd.to_string()).unwrap(), odd);
    assert_eq!(Cursor::from_str("").unwrap(), Cursor::new());
}

#[test]
fn attribute_order_is_canonical() {
    let mut a = Cursor::new();
    a.insert("SK".to_string(), "A".to_string());
    a.insert("PK".to_string(), "x".to_string());
    let mut b = Cursor::new();
    b.insert("PK".to_string(), "x".to_string());
    b.insert("SK".to_string(), "A".to_string());
    assert_eq!(a, b);
    assert_eq!(a.to_string(), "PK.x.SK.A.");
    // a token whose names are out of order is not canonical
    assert!(matches!(Cursor::from_str("SK.A.PK.x."), Err(Error::InvalidInputData(_))));
}

#[test]
fn tokens_are_url_safe() {
    let mut c = sample();
    c.insert("x y&z=1?".to_string(), "%/#\n\u{1F600}".to_string());
    let token = c.to_string();
    assert!(token.chars().all(|ch| ch.is_ascii_alphanumeric() || "-_.~".contains(ch)));
    assert_eq!(Cursor::from_str(&token).unwrap(), c);
}

#[test]
fn insert_replaces_and_get_reads() {
    let mut c = sample();
    c.insert("SK".to_string(), "B".to_string());
    assert_eq!(c.attributes().len(), 4);
    assert_eq!(c.get("SK"), Some("B".to_string()));
    assert_eq!(c.get("nope"), None);
    assert!(c.contains("GSI1_PK"));
    assert_eq!(c.clone(), c);
}

#[test]
fn malformed_tokens_are_refused() {
    let token = sample().to_string();
    let truncated = &token[..token.len() - 3];
    assert!(matches!(Cursor::from_str(truncated), Err(Error::InvalidInputData(_))));
    // a name without its value
    assert!(matches!(Cursor::from_str("PK."), Err(Error::InvalidInputData(_))));
    // an escape of a character that is written as itself
    assert!(matches!(Cursor::from_str("P~0000004b.v."), Err(Error::InvalidInputData(_))));
    // upper-case hex digits, a short escape, a surrogate code point
    assert!(matches!(Cursor::from_str("P~0000002C.v."), Err(Error::InvalidInputData(_))));
    assert!(matches!(Cursor::from_str("P~00002c.v."), Err(Error::InvalidInputData(_))));
    assert!(matches!(Cursor::from_str("P~0000d800.v."), Err(Error::InvalidInputData(_))));
    // a character that must be escaped, written as itself
    assert!(matches!(Cursor::from_str("P#.v."), Err(Error::InvalidInputData(_))));
    // a repeated name
    assert!(matches!(Cursor::from_str("a.1.a.2."), Err(Error::InvalidInputData(_))));
    // no closing dot
    assert!(matches!(Cursor::from_str("a.1"), Err(Error::InvalidInputData(_))));
}
