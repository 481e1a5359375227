use brawl::account::{derive_sub_account, is_valid_account_id};

#[test]
fn accepts_well_formed_identifiers() {
    assert!(is_valid_account_id("alice.near"));
    assert!(is_valid_account_id("test_brawl.factory.near"));
    assert!(is_valid_account_id("a-b_c.d2"));
    assert!(is_valid_account_id("ab"));
    assert!(is_valid_account_id("0x123"));
    // Exactly 64 characters is still acceptable.
    let long = "a".repeat(64);
    assert!(is_valid_account_id(&long));
}

#[test]
fn rejects_malformed_identifiers() {
    // Too short, too long.
    assert!(!is_valid_account_id(""));
    assert!(!is_valid_account_id("a"));
    let too_long = "a".repeat(65);
    assert!(!is_valid_account_id(&too_long));
    // Bad characters.
    assert!(!is_valid_account_id("Alice.near"));
    assert!(!is_valid_account_id("alice!near"));
    assert!(!is_valid_account_id("al ice"));
    // Separators at the edges or doubled.
    assert!(!is_valid_account_id(".alice"));
    assert!(!is_valid_account_id("alice."));
    assert!(!is_valid_account_id("-alice"));
    assert!(!is_valid_account_id("alice_"));
    assert!(!is_valid_account_id("a..b"));
    assert!(!is_valid_account_id("a-_b"));
    assert!(!is_valid_account_id("a.-b"));
}

#[test]
fn derives_the_dotted_sub_identity() {
    assert_eq!(
        derive_sub_account("test_brawl", "factory.near"),
        "test_brawl.factory.near".to_string()
    );
    assert_eq!(derive_sub_account("", "x"), ".x".to_string());
}
