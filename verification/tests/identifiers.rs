use simple_p2p::ident::generate_id;
use simple_p2p::ledger::SimpleP2P;

fn is_hex(s: &str) -> bool {
    s.chars().all(|c| c.is_ascii_hexdigit() && !c.is_ascii_uppercase())
}

#[test]
fn identifier_is_fixed_width_hex() {
    let tx = generate_id("buyer", "seller", 42, 1000, 1234567890);
    assert_eq!(tx.len(), 64);
    assert!(is_hex(&tx));
    // The identifier is a digest, not an echo of its inputs.
    assert!(!tx.contains("buyer"));
    assert!(!tx.contains("seller"));
}

#[test]
fn identifier_is_deterministic_in_its_inputs() {
    let a = generate_id("buyer", "seller", 42, 1000, 1234567890);
    let b = generate_id("buyer", "seller", 42, 1000, 1234567890);
    assert_eq!(a, b);
}

#[test]
fn identifier_separates_parties_amount_and_nonce() {
    let base = generate_id("buyer", "seller", 42, 1000, 1234567890);
    assert_ne!(base, generate_id("buyer2", "seller", 42, 1000, 1234567890));
    assert_ne!(base, generate_id("buyer", "seller2", 42, 1000, 1234567890));
    assert_ne!(base, generate_id("buyer", "seller", 43, 1000, 1234567890));
    assert_ne!(base, generate_id("buyer", "seller", 42, 1001, 1234567890));
    assert_ne!(base, generate_id("buyer", "seller", 42, 1000, 1234567891));
    // Moving a character across the party boundary changes the digest.
    assert_ne!(
        generate_id("ab", "c", 1, 1, 1),
        generate_id("a", "bc", 1, 1, 1)
    );
}

#[test]
fn wall_clock_hash_has_identifier_shape() {
    let tx = SimpleP2P::get_hash(&"buyer".to_string(), &"seller".to_string(), &42);
    assert_eq!(tx.len(), 64);
    assert!(is_hex(&tx));
}

#[test]
fn order_identifiers_come_from_the_generator() {
    let mut p = SimpleP2P::new();
    p.deposit("a".to_string(), 100);
    p.set_bank_account("a".to_string(), "12".to_string(), "bank".to_string()).unwrap();
    p.order_sell("a".to_string(), 50, 2).unwrap();
    p.deposit("b".to_string(), 10);
    let tx = p.order_buy("b".to_string(), "a".to_string(), 5, 77, 123).unwrap();
    assert_eq!(tx, generate_id("b", "a", 5, 77, 123));
}
