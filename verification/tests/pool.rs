use brawl::errors::BrawlError;
use brawl::pool::Brawl;

fn s(x: &str) -> String {
    x.to_string()
}

fn two_option_pool(owner: &str) -> Brawl {
    Brawl::init(
        s(owner),
        s("Test Brawl"),
        s("test_brawl"),
        vec![s("option-1"), s("option-2")],
    )
}

#[test]
fn init_contract() {
    let alice: String = "alice.near".to_string();
    let contract = Brawl::init(
        alice.clone(),
        "Test Brawl".to_string(),
        "test_brawl".to_string(),
        vec!["Option 1".to_string(), "Option 2".to_string()],
    );

    let owner = contract.get_owner();
    assert_eq!(owner, alice);

    let total_deposits = contract.get_total_deposits();
    assert_eq!(total_deposits, 0u128);
}

#[test]
fn init_sets_metadata_and_empty_ledgers() {
    let pool = two_option_pool("alice.near");
    assert_eq!(pool.get_brawl_title(), s("Test Brawl"));
    assert_eq!(pool.get_brawl_id(), s("test_brawl"));
    assert_eq!(pool.get_options(), vec![s("option-1"), s("option-2")]);
    assert!(!pool.get_is_finalized());
    assert_eq!(pool.get_correct_option(), s(""));
    assert_eq!(pool.get_total_deposits(), 0);
}

#[test]
fn deposit_accumulates_totals() {
    let mut pool = two_option_pool("auth");
    assert_eq!(pool.deposit(s("option-1"), s("alice"), 100), Ok(()));
    assert_eq!(pool.get_total_deposits(), 100);
    assert_eq!(pool.deposit(s("option-2"), s("bob"), 250), Ok(()));
    assert_eq!(pool.get_total_deposits(), 350);
    assert_eq!(pool.deposit(s("option-1"), s("carol"), 50), Ok(()));
    assert_eq!(pool.get_total_deposits(), 400);
}

#[test]
fn deposit_of_zero_is_rejected() {
    let mut pool = two_option_pool("auth");
    assert_eq!(pool.deposit(s("option-1"), s("alice"), 0), Err(BrawlError::Value));
    assert_eq!(pool.get_total_deposits(), 0);
}

#[test]
fn deposit_on_unknown_option_is_rejected() {
    let mut pool = two_option_pool("auth");
    assert_eq!(
        pool.deposit(s("option-3"), s("alice"), 10),
        Err(BrawlError::NotFound)
    );
    assert_eq!(pool.get_total_deposits(), 0);
}

#[test]
fn deposit_after_finalization_fails_and_changes_nothing() {
    let mut pool = two_option_pool("auth");
    assert_eq!(pool.deposit(s("option-1"), s("alice"), 100), Ok(()));
    assert_eq!(pool.update_correct_option(s("auth"), s("option-1")), Ok(()));
    assert_eq!(
        pool.deposit(s("option-1"), s("bob"), 40),
        Err(BrawlError::State)
    );
    assert_eq!(pool.get_total_deposits(), 100);
    assert!(pool.get_is_finalized());
    assert_eq!(pool.get_correct_option(), s("option-1"));
}

#[test]
fn repeated_deposit_overwrites_the_record_but_totals_keep_both() {
    let mut pool = two_option_pool("auth");
    // The same depositor deposits twice on one option: the running totals
    // count both amounts, but only the latest amount stays recorded.
    assert_eq!(pool.deposit(s("option-1"), s("alice"), 500), Ok(()));
    assert_eq!(pool.deposit(s("option-1"), s("alice"), 200), Ok(()));
    assert_eq!(pool.get_total_deposits(), 700);
    assert_eq!(pool.update_correct_option(s("auth"), s("option-1")), Ok(()));
    // d = 200 (the overwritten 500 is gone), w = 700, T = 700:
    // floor(200 * 100 / 700) = 28, floor(700 / 100) = 7, reward = 196.
    assert_eq!(pool.claim(s("alice")), Ok(196));
}

#[test]
fn finalize_by_non_authority_fails() {
    let mut pool = two_option_pool("auth");
    assert_eq!(
        pool.update_correct_option(s("mallory"), s("option-1")),
        Err(BrawlError::Authorization)
    );
    assert!(!pool.get_is_finalized());
}

#[test]
fn finalize_on_unknown_option_fails() {
    let mut pool = two_option_pool("auth");
    assert_eq!(
        pool.update_correct_option(s("auth"), s("option-3")),
        Err(BrawlError::NotFound)
    );
    assert!(!pool.get_is_finalized());
}

#[test]
fn second_finalization_fails_for_any_caller() {
    let mut pool = two_option_pool("auth");
    assert_eq!(pool.update_correct_option(s("auth"), s("option-1")), Ok(()));
    assert_eq!(
        pool.update_correct_option(s("auth"), s("option-2")),
        Err(BrawlError::State)
    );
    assert_eq!(
        pool.update_correct_option(s("mallory"), s("option-2")),
        Err(BrawlError::Authorization)
    );
    assert!(pool.get_is_finalized());
    assert_eq!(pool.get_correct_option(), s("option-1"));
}

#[test]
fn claim_before_finalization_fails() {
    let mut pool = two_option_pool("auth");
    assert_eq!(pool.deposit(s("option-1"), s("alice"), 100), Ok(()));
    assert_eq!(pool.claim(s("alice")), Err(BrawlError::State));
    assert_eq!(pool.get_total_deposits(), 100);
}

#[test]
fn claim_without_winning_deposit_fails() {
    let mut pool = two_option_pool("auth");
    assert_eq!(pool.deposit(s("option-1"), s("alice"), 100), Ok(()));
    assert_eq!(pool.update_correct_option(s("auth"), s("option-2")), Ok(()));
    // Alice deposited only on the losing option.
    assert_eq!(pool.claim(s("alice")), Err(BrawlError::NotFound));
    // Bob never deposited at all.
    assert_eq!(pool.claim(s("bob")), Err(BrawlError::NotFound));
}

#[test]
fn successful_claim_removes_the_record_so_a_repeat_fails() {
    let mut pool = two_option_pool("auth");
    assert_eq!(pool.deposit(s("option-1"), s("alice"), 300), Ok(()));
    assert_eq!(pool.deposit(s("option-1"), s("bob"), 300), Ok(()));
    assert_eq!(pool.update_correct_option(s("auth"), s("option-1")), Ok(()));
    // d = 300, w = 600, T = 600: floor(300*100/600) = 50, floor(600/100) = 6,
    // reward = 300.
    assert_eq!(pool.claim(s("alice")), Ok(300));
    assert_eq!(pool.claim(s("alice")), Err(BrawlError::NotFound));
    // The totals are untouched by claims; Bob's claim still succeeds.
    assert_eq!(pool.get_total_deposits(), 600);
    assert_eq!(pool.claim(s("bob")), Ok(300));
}

#[test]
fn literal_small_pool_truncates_rewards_to_zero() {
    // Two options; A deposits 1 unit on option-1, B and C deposit 3 units
    // each on option-2; the authority finalizes option-2. With T = 7 < 100
    // the two-step truncation pays 0: floor(3*100/6) = 50, floor(7/100) = 0.
    let mut pool = two_option_pool("auth");
    assert_eq!(pool.deposit(s("option-1"), s("alice"), 1), Ok(()));
    assert_eq!(pool.deposit(s("option-2"), s("bob"), 3), Ok(()));
    assert_eq!(pool.deposit(s("option-2"), s("dave"), 3), Ok(()));
    assert_eq!(pool.get_total_deposits(), 7);
    assert_eq!(pool.update_correct_option(s("auth"), s("option-2")), Ok(()));
    assert_eq!(pool.claim(s("alice")), Err(BrawlError::NotFound));
    assert_eq!(pool.claim(s("bob")), Ok(0));
    assert_eq!(pool.claim(s("dave")), Ok(0));
}

#[test]
fn test_contract_is_operational() {
    // The same lifecycle at realistic scale: amounts in yocto-units, with
    // 1 unit = 10^24 yocto.
    let unit: u128 = 1_000_000_000_000_000_000_000_000;
    let mut pool = two_option_pool("brawl_creator");
    assert_eq!(pool.get_owner(), s("brawl_creator"));
    assert_eq!(pool.get_options(), vec![s("option-1"), s("option-2")]);
    assert!(!pool.get_is_finalized());

    assert_eq!(pool.deposit(s("option-1"), s("alice"), unit), Ok(()));
    assert_eq!(pool.get_total_deposits(), unit);
    assert_eq!(pool.deposit(s("option-2"), s("bob"), 3 * unit), Ok(()));
    assert_eq!(pool.get_total_deposits(), 4 * unit);
    assert_eq!(pool.deposit(s("option-2"), s("dave"), 3 * unit), Ok(()));
    assert_eq!(pool.get_total_deposits(), 7 * unit);

    // Claiming before finalization fails.
    assert_eq!(pool.claim(s("alice")), Err(BrawlError::State));

    // Only the authority can finalize.
    assert_eq!(
        pool.update_correct_option(s("bob"), s("option-1")),
        Err(BrawlError::Authorization)
    );
    assert_eq!(
        pool.update_correct_option(s("brawl_creator"), s("option-2")),
        Ok(())
    );
    assert_eq!(pool.get_correct_option(), s("option-2"));
    assert!(pool.get_is_finalized());

    // Alice lost; Bob and Dave each get half the pot:
    // floor(3u*100 / 6u) = 50, floor(7u / 100) = 7u/100, reward = 3.5u.
    assert_eq!(pool.claim(s("alice")), Err(BrawlError::NotFound));
    assert_eq!(pool.claim(s("bob")), Ok(7 * unit / 2));
    assert_eq!(pool.claim(s("dave")), Ok(7 * unit / 2));

    // A repeated claim fails.
    assert_eq!(pool.claim(s("dave")), Err(BrawlError::NotFound));
}

#[test]
fn error_messages_are_distinct() {
    let msgs = vec![
        BrawlError::Authorization.message(),
        BrawlError::State.message(),
        BrawlError::NotFound.message(),
        BrawlError::Value.message(),
        BrawlError::Identity.message(),
    ];
    for i in 0..msgs.len() {
        assert!(!msgs[i].is_empty());
        for j in 0..i {
            assert_ne!(msgs[i], msgs[j]);
        }
    }
}
