use cheatu::agent::agent_hash;
use cheatu::panel::{
    agent_outdated, bulk_amount, catalog_wait, freeze_key, gold_to_freeze, int_entry, is_frozen,
    name_shown, short_hash, snapshot_stale, trouble_note, CatalogWait,
};

#[test]
fn running_agent_compared_with_current_build() {
    let h = agent_hash();
    assert!(!agent_outdated(Some(&h)));
    assert!(agent_outdated(Some("0000000000000000")));
    assert!(agent_outdated(None));
}

#[test]
fn frozen_keys_are_looked_up_exactly() {
    let freezes = vec!["gold".to_string(), "max:hp:all".to_string()];
    assert!(is_frozen(&freezes, "gold"));
    assert!(is_frozen(&freezes, "max:hp:all"));
    assert!(!is_frozen(&freezes, "gol"));
    assert!(!is_frozen(&[], "gold"));
}

#[test]
fn typed_numbers() {
    assert_eq!(int_entry("  42 "), Some(42));
    assert_eq!(int_entry("-7"), Some(-7));
    assert_eq!(int_entry("+9"), Some(9));
    assert_eq!(int_entry("4 2"), None);
    assert_eq!(int_entry(""), None);
    assert_eq!(int_entry("9223372036854775808"), None);
    assert_eq!(int_entry("9223372036854775807"), Some(i64::MAX));
}

#[test]
fn gold_freeze_falls_back_to_shown_amount() {
    assert_eq!(gold_to_freeze("500", Some(10)), 500);
    assert_eq!(gold_to_freeze("lots", Some(10)), 10);
    assert_eq!(gold_to_freeze("", None), 0);
}

#[test]
fn bulk_amount_defaults_to_ten() {
    assert_eq!(bulk_amount(" 99 "), 99);
    assert_eq!(bulk_amount("x"), 10);
    assert_eq!(bulk_amount(""), 10);
}

#[test]
fn custom_freeze_key_prefers_typed_key() {
    assert_eq!(freeze_key("  mykey ", " $gameVariables._data[3] "), "mykey");
    assert_eq!(freeze_key("   ", " $gameVariables._data[3] "), "$gameVariables._data[3]");
}

#[test]
fn database_filter_is_case_insensitive() {
    assert!(name_shown("Potion", ""));
    assert!(name_shown("High Potion", "potion"));
    assert!(name_shown("potion", "POT"));
    assert!(!name_shown("Ether", "potion"));
    // The filter is not trimmed.
    assert!(!name_shown("Potion", " potion"));
}

#[test]
fn catalog_wait_steps() {
    assert_eq!(catalog_wait(1000, Some(1000), 1001), CatalogWait::Take);
    assert_eq!(catalog_wait(1000, Some(999), 1001), CatalogWait::Wait);
    assert_eq!(catalog_wait(1000, None, 5000), CatalogWait::Wait);
    assert_eq!(catalog_wait(1000, None, 5001), CatalogWait::GiveUp);
    assert_eq!(catalog_wait(1000, Some(10), 900), CatalogWait::Wait);
}

#[test]
fn stale_snapshots() {
    assert!(snapshot_stale(0, 10));
    assert!(!snapshot_stale(1000, 4000));
    assert!(snapshot_stale(1000, 4001));
    assert!(!snapshot_stale(5000, 1000));
}

#[test]
fn trouble_notes() {
    assert_eq!(trouble_note(false, None, "exception"), None);
    assert_eq!(trouble_note(true, None, "exception").as_deref(), Some("exception"));
    assert_eq!(trouble_note(false, Some("TypeError: x"), "exception").as_deref(), Some("TypeError: x"));
}

#[test]
fn short_hash_takes_eight() {
    assert_eq!(short_hash("0123456789abcdef"), "01234567");
    assert_eq!(short_hash("abc"), "abc");
}
