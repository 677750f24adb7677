use wallet_flow::errors::Failure;
use wallet_flow::store::WalletStore;

#[test]
fn resolve_misses_are_not_found() {
    // An alias absent from the store is a terminal, user-reportable miss.
    let store = WalletStore::new();
    assert_eq!(store.resolve("anyone"), Err(Failure::NotFound));
    assert_eq!(store.find_address("anyone"), None);
}

#[test]
fn insert_then_resolve_round_trip() {
    let mut store = WalletStore::new();
    let ok = store.insert_address("rilsso-public", "tnam1qze5x6au3egfnq7qp963c793cev5z5jvkcufnfhj", true);
    assert!(ok);
    assert_eq!(
        store.resolve("rilsso-public"),
        Ok("tnam1qze5x6au3egfnq7qp963c793cev5z5jvkcufnfhj".to_string())
    );
}

#[test]
fn insert_then_resolve_helper_round_trip() {
    let mut store = WalletStore::new();
    let got = store.insert_then_resolve("a", "addr-1");
    assert_eq!(got, Ok("addr-1".to_string()));
}

#[test]
fn insert_without_force_keeps_existing_binding() {
    let mut store = WalletStore::new();
    assert!(store.insert_address("a", "first", false));
    assert!(!store.insert_address("a", "second", false));
    assert_eq!(store.resolve("a"), Ok("first".to_string()));
}

#[test]
fn insert_with_force_overwrites() {
    let mut store = WalletStore::new();
    assert!(store.insert_address("a", "first", true));
    assert!(store.insert_address("a", "second", true));
    assert_eq!(store.resolve("a"), Ok("second".to_string()));
    assert_eq!(store.find_address("b"), None);
}

#[test]
fn generated_payment_address_resolves() {
    // Scenario: the alias is not in the store, a payment address is
    // generated and stored, and the alias then resolves to it.
    let mut store = WalletStore::new();
    assert_eq!(store.resolve("default"), Err(Failure::NotFound));
    assert!(store.should_generate_payment_address("default", true));
    let addr = "znam1jk5dkka9gj8wqtkky5tgzy76heapcdg8r3aqn9syr9k3nmx6ms8wn3hdew79tptg9kfds960a2u";
    assert!(store.insert_payment_addr("default", addr, true));
    assert_eq!(store.resolve("default"), Ok(addr.to_string()));
}

#[test]
fn payment_address_generation_skips_bound_alias_without_force() {
    let mut store = WalletStore::new();
    assert!(store.insert_payment_addr("default", "znam1first", true));
    assert!(!store.should_generate_payment_address("default", false));
    assert!(store.should_generate_payment_address("default", true));
    assert!(store.should_generate_payment_address("other", false));
}

#[test]
fn stored_view_keys_are_trimmed() {
    let mut store = WalletStore::new();
    store.add_view_key(" zvknam1qdds \n");
    store.add_view_key("zvknam1other");
    assert_eq!(
        store.list_view_keys(),
        &vec!["zvknam1qdds".to_string(), "zvknam1other".to_string()]
    );
}

#[test]
fn stored_public_keys_lose_their_tag() {
    let mut store = WalletStore::new();
    store.add_public_key("ED25519_PK_PREFIXtpknam1qq11");
    store.add_public_key("tpknam1qq22");
    assert_eq!(
        store.list_public_keys(),
        &vec!["tpknam1qq11".to_string(), "tpknam1qq22".to_string()]
    );
}

#[test]
fn payment_addresses_format_as_quoted_lines() {
    let mut store = WalletStore::new();
    assert!(store.insert_address("plain", "tnam1qq", true));
    assert!(store.insert_payment_addr("default", "znam1xyz", true));
    assert_eq!(
        store.format_payment_addresses(),
        vec!["default = \"znam1xyz\"".to_string()]
    );
}
