use group_adder::identity::{
    extract_group_jid, identities_from_phones, jid_to_phone, to_identity, Identity, IdentityError,
};
use group_adder::text::{contains_text, replace_all};

#[test]
fn replace_all_replaces_every_occurrence() {
    assert_eq!(replace_all("a{x}b{x}", "{x}", "--"), "a--b--");
    assert_eq!(replace_all("aaa", "aa", "b"), "ba");
    assert_eq!(replace_all("abc", "", "z"), "abc");
    assert_eq!(replace_all("", "x", "y"), "");
}

#[test]
fn contains_text_respects_case_flag() {
    assert!(contains_text("Error: RATE-OVERLIMIT", "rate-overlimit", true));
    assert!(!contains_text("Error: RATE-OVERLIMIT", "rate-overlimit", false));
    assert!(contains_text("abc", "", false));
    assert!(!contains_text("ab", "abc", true));
}

#[test]
fn to_identity_appends_user_suffix() {
    let id = to_identity("15551234567").unwrap();
    assert_eq!(id.address, "15551234567@s.whatsapp.net");
}

#[test]
fn to_identity_rejects_malformed_address() {
    match to_identity("bad@host") {
        Err(IdentityError::Malformed(a)) => assert_eq!(a, "bad@host@s.whatsapp.net"),
        Ok(_) => panic!("expected a malformed address"),
    }
}

#[test]
fn jid_to_phone_strips_both_suffixes() {
    assert_eq!(jid_to_phone(&Identity::new("123@s.whatsapp.net".to_string())), "123");
    assert_eq!(jid_to_phone(&Identity::new("456@lid".to_string())), "456");
    assert_eq!(jid_to_phone(&Identity::new("789".to_string())), "789");
}

#[test]
fn normalization_is_idempotent_on_example() {
    let i = Identity::new("4915112345678@s.whatsapp.net".to_string());
    let once = to_identity(&jid_to_phone(&i)).unwrap();
    let twice = to_identity(&jid_to_phone(&once)).unwrap();
    assert_eq!(once.address, twice.address);
    assert_eq!(once.address, "4915112345678@s.whatsapp.net");
}

#[test]
fn extract_group_jid_accepts_group_addresses_only() {
    assert_eq!(
        extract_group_jid("1234567890-1234567890@g.us"),
        Some("1234567890-1234567890@g.us".to_string())
    );
    assert_eq!(extract_group_jid("https://chat.whatsapp.com/ABCDEF"), None);
    assert_eq!(extract_group_jid("hello"), None);
}

#[test]
fn identities_from_phones_keeps_order_and_sets_aside_rejects() {
    let phones = vec!["111".to_string(), "bad@host".to_string(), "222".to_string()];
    let parsed = identities_from_phones(&phones);
    let addrs: Vec<String> = parsed.identities.iter().map(|i| i.address.clone()).collect();
    assert_eq!(addrs, vec!["111@s.whatsapp.net".to_string(), "222@s.whatsapp.net".to_string()]);
    assert_eq!(parsed.rejected, vec!["bad@host".to_string()]);
}
