use serveme::auth::TokenSet;
use serveme::ordering::{sort_by_keys, text_le};
use serveme::ui::{WindowType, MAIN_WINDOW_LABEL};

#[test]
fn dashboard_label() {
    assert_eq!(WindowType::Dashboard.label(), "main");
    assert_eq!(WindowType::Dashboard.label(), MAIN_WINDOW_LABEL);
}

#[test]
fn token_set_holds_both_tokens() {
    let t = TokenSet::new("acc".to_string(), "ref".to_string());
    assert_eq!(t.access(), "acc");
    assert_eq!(t.refresh(), "ref");
}

#[test]
fn text_order_is_by_code_point() {
    assert!(text_le(&"B".to_string(), &"a".to_string()));
    assert!(!text_le(&"b".to_string(), &"a".to_string()));
    assert!(text_le(&"ab".to_string(), &"abc".to_string()));
    assert!(!text_le(&"abc".to_string(), &"ab".to_string()));
    assert!(text_le(&"".to_string(), &"".to_string()));
    assert!(text_le(&"z".to_string(), &"\u{e9}".to_string()));
}

#[test]
fn sort_by_keys_orders_and_keeps_entries() {
    let entries: Vec<(String, u8)> = vec![
        ("pear".to_string(), 1),
        ("apple".to_string(), 2),
        ("fig".to_string(), 3),
        ("apple".to_string(), 4),
    ];
    let sorted = sort_by_keys(entries);
    let keys: Vec<&str> = sorted.iter().map(|e| e.0.as_str()).collect();
    assert_eq!(keys, vec!["apple", "apple", "fig", "pear"]);
    let mut values: Vec<u8> = sorted.iter().map(|e| e.1).collect();
    values.sort();
    assert_eq!(values, vec![1, 2, 3, 4]);
    assert!(sort_by_keys(Vec::<(String, u8)>::new()).is_empty());
}
