use dex::name::{Label, Name};

#[test]
fn lib_ancestors_iterate() {
    let name = Name::from_str("example.com.").unwrap();
    let mut ancestors = name.ancestors();
    assert_eq!(ancestors.next(), Some(Name::from_str(".").unwrap()));
    assert_eq!(ancestors.next(), Some(Name::from_str("com.").unwrap()));
    assert_eq!(
        ancestors.next(),
        Some(Name::from_str("example.com.").unwrap())
    );
}

#[test]
fn main_ancestors_iterate() {
    let name = Name::from_str("example.com.").unwrap();
    let mut ancestors = name.ancestors();
    assert_eq!(ancestors.next(), Some(Name::from_str("").unwrap()));
    assert_eq!(ancestors.next(), Some(Name::from_str("com.").unwrap()));
    assert_eq!(
        ancestors.next(),
        Some(Name::from_str("example.com.").unwrap())
    );
}

#[test]
fn name_to_wildcard() {
    let name = Name::from_str("example.com.").unwrap();
    let wildcard = name.to_wildcard();
    assert_eq!(&wildcard.to_text(), "*.com.")
}

#[test]
fn deep_name_to_wildcard() {
    let name = Name::from_str("a.b.example.com.").unwrap();
    let wildcard = name.to_wildcard();
    assert_eq!(&wildcard.to_text(), "*.b.example.com.")
}

#[test]
fn root_to_wildcard() {
    let name = Name::from_str(".").unwrap();
    let wildcard = name.to_wildcard();
    assert_eq!(&wildcard.to_text(), "*.")
}

#[test]
fn suffixes_iterate() {
    let name = Name::from_str("example.com.").unwrap();
    let mut suffixes = name.suffixes();
    assert_eq!(
        suffixes.next(),
        Some(Name::from_str("example.com.").unwrap())
    );
    assert_eq!(suffixes.next(), Some(Name::from_str("com.").unwrap()));
    assert_eq!(suffixes.next(), Some(Name::from_str(".").unwrap()));
    assert_eq!(suffixes.next(), None);
}

#[test]
fn relative_name_gets_root() {
    let name = Name::from_str("example.com").unwrap();
    assert_eq!(name, Name::from_str("example.com.").unwrap());
    assert_eq!(&name.to_text(), "example.com.");
}

#[test]
fn rejects_wildcard_after_leftmost() {
    let labels = vec![
        Label::from_str("a").unwrap(),
        Label::from_str("*").unwrap(),
        Label::from_str("").unwrap(),
    ];
    assert!(Name::from_labels(labels).is_err());
}

#[test]
fn accepts_leftmost_wildcard() {
    let labels = vec![
        Label::from_str("*").unwrap(),
        Label::from_str("com").unwrap(),
        Label::from_str("").unwrap(),
    ];
    assert!(Name::from_labels(labels).is_ok());
}

#[test]
fn rejects_empty_middle_label() {
    assert!(Name::from_str("a..com.").unwrap_err() == dex::error::DnsError::InvalidName);
}

#[test]
fn rejects_bad_label_text() {
    assert!(Label::from_str("-oops").is_err());
    assert!(Label::from_str("oops-").is_err());
    assert!(Label::from_str("1oops").is_err());
    assert!(Label::from_str("o k").is_err());
    assert!(Label::from_str("fine-1").is_ok());
}

#[test]
fn rejects_overlong_name() {
    // Thirty-two labels of seven octets each weigh 8 octets apiece on the
    // wire, 256 with the root label: one over the limit.
    let mut text = String::new();
    for _ in 0..32 {
        text.push_str("abcdefg.");
    }
    assert!(Name::from_str(&text).is_err());
    let mut shorter = String::new();
    for _ in 0..31 {
        shorter.push_str("abcdefg.");
    }
    assert!(Name::from_str(&shorter).is_ok());
}

#[test]
fn label_round_trips_on_the_wire() {
    let label = Label::from_str("example").unwrap();
    let mut b = dex::bytes::Bytes::new();
    label.to_bytes(&mut b);
    assert_eq!(b.used(), b"\x07example");
    let mut c = dex::bytes::Bytes::from_buf(b.used());
    let back = Label::from_bytes(&mut c).unwrap();
    assert_eq!(back, label);
    // A length octet that runs past the buffer is a format error.
    let mut d = dex::bytes::Bytes::from_buf(&[5, b'a']);
    assert!(Label::from_bytes(&mut d).is_err());
}

#[test]
fn contains_is_the_suffix_relation() {
    let zone = Name::from_str("example.com.").unwrap();
    let sub = Name::from_str("a.b.example.com.").unwrap();
    let other = Name::from_str("example.org.").unwrap();
    assert!(zone.contains(&sub));
    assert!(zone.contains(&zone));
    assert!(!zone.contains(&other));
    assert!(!sub.contains(&zone));
}
