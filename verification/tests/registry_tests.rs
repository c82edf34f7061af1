use ip_registry::identity::Identity;
use ip_registry::registration::{RegistrationStatus, RegistryError};
use ip_registry::registry::Registry;

fn ident(b: u8) -> Identity {
    Identity::from_bytes(vec![b])
}

fn register(
    reg: &mut Registry,
    who: &Identity,
    ts: u64,
    title: &str,
    hash: &str,
) -> Result<(), RegistryError> {
    reg.register_ip(
        who,
        ts,
        title.to_string(),
        String::new(),
        hash.to_string(),
        String::new(),
        Vec::new(),
    )
}

#[test]
fn register_and_get() {
    let mut reg = Registry::new();
    let a = ident(1);
    let r = reg.register_ip(
        &a,
        42,
        "My Work".to_string(),
        "a description".to_string(),
        "hash-1".to_string(),
        "MIT".to_string(),
        vec![("k1".to_string(), "v1".to_string()), ("k2".to_string(), "v2".to_string())],
    );
    assert!(r.is_ok());
    let got = reg.get_ip_registration(&a).expect("registration present");
    assert!(got.owner.equals(&a));
    assert_eq!(got.title, "My Work");
    assert_eq!(got.description, "a description");
    assert_eq!(got.timestamp, 42);
    assert_eq!(got.file_hash, "hash-1");
    assert_eq!(got.license_type, "MIT");
    assert_eq!(
        got.metadata,
        vec![("k1".to_string(), "v1".to_string()), ("k2".to_string(), "v2".to_string())]
    );
    assert!(got.transfer_history.is_empty());
    assert!(got.status == RegistrationStatus::Active);
    assert!(reg.get_ip_registration(&ident(2)).is_none());
}

#[test]
fn register_overwrites_own_slot() {
    let mut reg = Registry::new();
    let a = ident(1);
    register(&mut reg, &a, 1, "First", "h1").unwrap();
    register(&mut reg, &a, 2, "Second", "h2").unwrap();
    let got = reg.get_ip_registration(&a).expect("registration present");
    assert_eq!(got.title, "Second");
    assert_eq!(got.file_hash, "h2");
    assert_eq!(got.timestamp, 2);
    // The earlier registration under the same identity is gone: one slot per
    // identity, and the old hash is no longer reachable.
    assert!(!reg.verify_ownership(&a, &"h1".to_string()));
    assert!(reg.verify_ownership(&a, &"h2".to_string()));
}

#[test]
fn end_to_end_scenario() {
    let mut reg = Registry::new();
    let a = ident(1);
    let b = ident(2);
    register(&mut reg, &a, 10, "Work", "h1").unwrap();

    let got = reg.get_ip_registration(&a).expect("registration present");
    assert!(got.status == RegistrationStatus::Active);
    assert!(got.transfer_history.is_empty());

    let t = reg.transfer_ownership(&a, 20, &"h1".to_string(), &b);
    assert!(t.is_ok());

    assert!(reg.get_ip_registration(&a).is_none());
    let moved = reg.get_ip_registration(&b).expect("registration present");
    assert!(moved.status == RegistrationStatus::Transferred);
    assert!(moved.owner.equals(&b));
    assert_eq!(moved.file_hash, "h1");
    assert_eq!(moved.transfer_history.len(), 1);
    assert!(moved.transfer_history[0].from.equals(&a));
    assert!(moved.transfer_history[0].to.equals(&b));
    assert_eq!(moved.transfer_history[0].timestamp, 20);

    let again = reg.transfer_ownership(&a, 30, &"h1".to_string(), &b);
    assert_eq!(again, Err(RegistryError::NotFound));
}

#[test]
fn ownership_mismatch_rejected() {
    let mut reg = Registry::new();
    let a = ident(1);
    let b = ident(2);
    register(&mut reg, &a, 5, "Work", "h1").unwrap();

    let t = reg.transfer_ownership(&a, 6, &"other-hash".to_string(), &b);
    assert_eq!(t, Err(RegistryError::OwnershipMismatch));
    let u = reg.update_registration_status(&a, &"other-hash".to_string(), RegistrationStatus::Expired);
    assert_eq!(u, Err(RegistryError::OwnershipMismatch));

    // The store is unchanged.
    let got = reg.get_ip_registration(&a).expect("registration present");
    assert!(got.status == RegistrationStatus::Active);
    assert_eq!(got.file_hash, "h1");
    assert!(got.transfer_history.is_empty());
    assert!(reg.get_ip_registration(&b).is_none());
}

#[test]
fn mutations_on_absent_slot_fail_not_found() {
    let mut reg = Registry::new();
    let a = ident(1);
    let b = ident(2);
    let t = reg.transfer_ownership(&a, 1, &"h1".to_string(), &b);
    assert_eq!(t, Err(RegistryError::NotFound));
    let u = reg.update_registration_status(&a, &"h1".to_string(), RegistrationStatus::Expired);
    assert_eq!(u, Err(RegistryError::NotFound));
}

#[test]
fn verify_ownership_matches_get() {
    let mut reg = Registry::new();
    let a = ident(1);
    register(&mut reg, &a, 5, "Work", "h1").unwrap();
    assert!(reg.verify_ownership(&a, &"h1".to_string()));
    assert!(!reg.verify_ownership(&a, &"h2".to_string()));
    assert!(!reg.verify_ownership(&ident(9), &"h1".to_string()));
    // Repeated calls with no intervening mutation agree.
    assert!(reg.verify_ownership(&a, &"h1".to_string()));
    assert!(!reg.verify_ownership(&a, &"h2".to_string()));
}

#[test]
fn search_is_case_insensitive() {
    let mut reg = Registry::new();
    let a = ident(1);
    register(&mut reg, &a, 1, "Solar Panel Design", "h1").unwrap();

    let lower = reg.search_registrations(&"solar".to_string());
    assert_eq!(lower.len(), 1);
    assert_eq!(lower[0].title, "Solar Panel Design");

    let upper = reg.search_registrations(&"SOLAR".to_string());
    assert_eq!(upper.len(), 1);
    assert_eq!(upper[0].title, "Solar Panel Design");

    let none = reg.search_registrations(&"wind".to_string());
    assert!(none.is_empty());
}

#[test]
fn search_covers_all_text_fields_in_key_order() {
    let mut reg = Registry::new();
    let a = ident(1);
    let b = ident(2);
    let c = ident(3);
    reg.register_ip(
        &b,
        1,
        "Gadget".to_string(),
        "a CLEVER device".to_string(),
        "h2".to_string(),
        "proprietary".to_string(),
        Vec::new(),
    )
    .unwrap();
    reg.register_ip(
        &a,
        2,
        "Clever Title".to_string(),
        String::new(),
        "h1".to_string(),
        "MIT".to_string(),
        Vec::new(),
    )
    .unwrap();
    reg.register_ip(
        &c,
        3,
        "Unrelated".to_string(),
        String::new(),
        "h3".to_string(),
        "clever-license".to_string(),
        Vec::new(),
    )
    .unwrap();

    let hits = reg.search_registrations(&"Clever".to_string());
    assert_eq!(hits.len(), 3);
    // Store iteration runs in key order, not insertion order.
    assert_eq!(hits[0].title, "Clever Title");
    assert_eq!(hits[1].title, "Gadget");
    assert_eq!(hits[2].title, "Unrelated");

    let empty_query = reg.search_registrations(&String::new());
    assert_eq!(empty_query.len(), 3);
}

#[test]
fn history_grows_in_call_order() {
    let mut reg = Registry::new();
    let a = ident(1);
    let b = ident(2);
    let c = ident(3);
    register(&mut reg, &a, 1, "Work", "h1").unwrap();

    reg.transfer_ownership(&a, 100, &"h1".to_string(), &b).unwrap();
    let h1 = reg.get_transfer_history(&"h1".to_string()).unwrap();
    assert_eq!(h1.len(), 1);

    reg.transfer_ownership(&b, 200, &"h1".to_string(), &c).unwrap();
    let h2 = reg.get_transfer_history(&"h1".to_string()).unwrap();
    assert_eq!(h2.len(), 2);

    // Earlier records are never altered.
    assert!(h2[0].from.equals(&a));
    assert!(h2[0].to.equals(&b));
    assert_eq!(h2[0].timestamp, 100);
    assert!(h2[1].from.equals(&b));
    assert!(h2[1].to.equals(&c));
    assert_eq!(h2[1].timestamp, 200);
}

#[test]
fn transfer_history_not_found() {
    let mut reg = Registry::new();
    let a = ident(1);
    register(&mut reg, &a, 1, "Work", "h1").unwrap();
    let missing = reg.get_transfer_history(&"missing".to_string());
    assert!(matches!(missing, Err(RegistryError::NotFound)));
}

#[test]
fn transfer_history_takes_first_match_in_key_order() {
    let mut reg = Registry::new();
    let a = ident(1);
    let b = ident(5);
    let c = ident(0);
    register(&mut reg, &a, 1, "Work", "h1").unwrap();
    reg.transfer_ownership(&a, 2, &"h1".to_string(), &b).unwrap();
    // A second registration of the same hash under a smaller key shadows the
    // transferred one for history lookups.
    register(&mut reg, &c, 3, "Other claim", "h1").unwrap();
    let h = reg.get_transfer_history(&"h1".to_string()).unwrap();
    assert!(h.is_empty());
}

#[test]
fn status_updates_are_permissive() {
    let mut reg = Registry::new();
    let a = ident(1);
    register(&mut reg, &a, 1, "Work", "h1").unwrap();

    reg.update_registration_status(&a, &"h1".to_string(), RegistrationStatus::Expired)
        .unwrap();
    let got = reg.get_ip_registration(&a).unwrap();
    assert!(got.status == RegistrationStatus::Expired);

    // No transition is ruled out, a revival included.
    reg.update_registration_status(&a, &"h1".to_string(), RegistrationStatus::Active)
        .unwrap();
    let got = reg.get_ip_registration(&a).unwrap();
    assert!(got.status == RegistrationStatus::Active);
    // Everything else is untouched.
    assert_eq!(got.title, "Work");
    assert_eq!(got.timestamp, 1);
}

#[test]
fn error_messages_match_surface_text() {
    assert_eq!(RegistryError::NotFound.message(), "IP registration not found");
    assert_eq!(RegistryError::OwnershipMismatch.message(), "You don't own this IP");
}
