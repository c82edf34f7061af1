use ip_registry::identity::Identity;
use ip_registry::text::{contains_bytes, lower_bytes};

#[test]
fn lowercasing_goes_through_real_folding() {
    assert_eq!(lower_bytes(&"AbC".to_string()), b"abc".to_vec());
    assert_eq!(lower_bytes(&"already lower".to_string()), b"already lower".to_vec());
    assert_eq!(lower_bytes(&String::new()), Vec::<u8>::new());
}

#[test]
fn substring_search() {
    let hay = b"hello world".to_vec();
    assert!(contains_bytes(&hay, &b"o w".to_vec()));
    assert!(contains_bytes(&hay, &b"hello".to_vec()));
    assert!(contains_bytes(&hay, &b"world".to_vec()));
    assert!(contains_bytes(&hay, &Vec::new()));
    assert!(!contains_bytes(&hay, &b"worlds".to_vec()));
    assert!(!contains_bytes(&hay, &b"hello world!".to_vec()));
    assert!(!contains_bytes(&Vec::new(), &b"x".to_vec()));
}

#[test]
fn identity_equality_and_order() {
    let a = Identity::from_bytes(vec![1]);
    let a2 = Identity::from_bytes(vec![1]);
    let b = Identity::from_bytes(vec![1, 2]);
    let c = Identity::from_bytes(vec![2]);
    assert!(a.equals(&a2));
    assert!(!a.equals(&b));
    assert_eq!(a.as_bytes(), &vec![1u8]);

    // A strict prefix sorts first; otherwise the first differing byte decides.
    assert!(a.lt(&b));
    assert!(!b.lt(&a));
    assert!(b.lt(&c));
    assert!(!c.lt(&b));
    assert!(!a.lt(&a2));

    let cloned = c.clone();
    assert!(cloned.equals(&c));
}
