use loan_wallet::models::contact::{normalize_phone, Contact};
use loan_wallet::models::invite::{Invite, InvitePurpose};

const NOW: i64 = 1_781_496_000;

#[test]
fn test_normalize_phone() {
    assert_eq!(normalize_phone("+998 90 336 36 39"), "+998903363639");
    assert_eq!(normalize_phone("+998-90-336-36-39"), "+998903363639");
    assert_eq!(normalize_phone("+998903363639"), "+998903363639");
    assert_eq!(normalize_phone("998903363639"), "+998903363639");
    assert_eq!(normalize_phone("0903363639"), "+998903363639");
    assert_eq!(normalize_phone("903363639"), "+998903363639");
    assert_eq!(normalize_phone("89031234567"), "+79031234567");
    assert_eq!(normalize_phone(""), "");
}

#[test]
fn normalizing_twice_changes_nothing() {
    for s in ["+998 90 336 36 39", "0903363639", "89031234567", "12", "abc", "(555) 123-4567"] {
        let once = normalize_phone(s);
        assert_eq!(normalize_phone(&once), once);
    }
}

#[test]
fn new_contact_stores_normalized_phone() {
    let c = Contact::new("owner".to_string(), "Брат".to_string(), "8 903 123-45-67".to_string(), &uuid::Uuid::now_v7(), NOW);
    assert_eq!(c.phone, "+79031234567");
    assert_eq!(c.id.len(), 36);
    assert!(c.linked_user_id.is_none());
    assert_eq!(c.owner_user_id, "owner");
}

#[test]
fn invitations_fit_a_start_payload_and_link_once() {
    let mut inv = Invite::new("alice".to_string(), InvitePurpose::AddContact { contact_id: "c1".to_string() }, &uuid::Uuid::now_v7(), NOW);
    assert_eq!(inv.token.len(), 32);
    assert!(inv.token.chars().all(|c| c.is_ascii_hexdigit() && !c.is_ascii_uppercase()));
    assert_eq!(inv.target_for(&"bob".to_string()), Some("c1".to_string()));
    assert_eq!(inv.target_for(&"alice".to_string()), None);
    inv.used_by_user_id = Some("bob".to_string());
    assert_eq!(inv.target_for(&"carol".to_string()), None);
    let other = Invite::new("alice".to_string(), InvitePurpose::AddContact { contact_id: "c1".to_string() }, &uuid::Uuid::now_v7(), NOW);
    assert_ne!(other.token, inv.token);
}
