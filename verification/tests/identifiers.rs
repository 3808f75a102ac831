use conversations::conv_id::{conversation_id, decimal_string};

#[test]
fn identifier_joins_account_and_counter() {
    assert_eq!(conversation_id("56377143", 7), "56377143_7");
    assert_eq!(conversation_id("106062176", 1), "106062176_1");
}

#[test]
fn decimal_rendering_is_exact() {
    assert_eq!(decimal_string(0), "0");
    assert_eq!(decimal_string(9), "9");
    assert_eq!(decimal_string(10), "10");
    assert_eq!(decimal_string(120), "120");
    assert_eq!(decimal_string(18446744073709551615), "18446744073709551615");
}

#[test]
fn identifier_of_counter_zero() {
    assert_eq!(conversation_id("acct", 0), "acct_0");
}

#[test]
fn distinct_counters_give_distinct_identifiers() {
    // Even account identifiers that themselves contain underscores and
    // digits cannot make two distinct counter draws collide.
    let a = conversation_id("1_2", 3);
    let b = conversation_id("1", 23);
    assert_ne!(a, b);
    let c = conversation_id("9", 12);
    let d = conversation_id("91", 2);
    assert_ne!(c, d);
    assert_ne!(conversation_id("acct", 1), conversation_id("acct", 2));
}
