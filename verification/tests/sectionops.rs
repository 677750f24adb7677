use wallet_flow::sections::{
    find_section, merge_wallet_texts, parse_sections, reverse_toml_order, wallet_section_order,
};

#[test]
fn parse_splits_into_trimmed_sections() {
    let text = "ignored preamble\n\n[alpha]\n  a = 1  \nb = 2\n[beta]\nc = 3\n";
    let doc = parse_sections(text);
    assert_eq!(doc.len(), 2);
    assert_eq!(doc[0].header, "[alpha]");
    assert_eq!(doc[0].lines, vec!["a = 1".to_string(), "b = 2".to_string()]);
    assert_eq!(doc[1].header, "[beta]");
    assert_eq!(doc[1].lines, vec!["c = 3".to_string()]);
}

#[test]
fn repeated_header_empties_its_section() {
    let doc = parse_sections("[a]\nx = 1\n[a]\ny = 2\n");
    assert_eq!(doc.len(), 1);
    assert_eq!(doc[0].lines, vec!["y = 2".to_string()]);
}

#[test]
fn find_section_locates_headers() {
    let doc = parse_sections("[a]\nx = 1\n[b]\ny = 2\n");
    assert_eq!(find_section(&doc, "[a]"), Some(0));
    assert_eq!(find_section(&doc, "[b]"), Some(1));
    assert_eq!(find_section(&doc, "[c]"), None);
}

#[test]
fn reverse_toml_order_sorts_descending_and_reverses_lines() {
    let input = "[alpha]\na = 1\nb = 2\n\n[beta]\nc = 3\n";
    let expected = "\n[beta]\nc = 3\n\n[alpha]\nb = 2\na = 1\n";
    assert_eq!(reverse_toml_order(input), expected);
}

#[test]
fn reverse_toml_order_of_empty_text_is_empty() {
    assert_eq!(reverse_toml_order(""), "");
    assert_eq!(reverse_toml_order("no sections at all\n"), "");
}

#[test]
fn reverse_toml_order_is_idempotent_once_reordered() {
    let input = "[alpha]\na = 1\n[beta]\nb = 2\n";
    let once = reverse_toml_order(&input);
    assert_eq!(once, "\n[beta]\nb = 2\n\n[alpha]\na = 1\n");
    let twice = reverse_toml_order(&once);
    assert_eq!(twice, once);
}

#[test]
fn wallet_section_order_lists_the_layout() {
    let order = wallet_section_order();
    assert_eq!(order.len(), 9);
    assert_eq!(order[0], "[view_keys]");
    assert_eq!(order[2], "[payment_addrs]");
    assert_eq!(order[8], "[address_vp_types]");
}

#[test]
fn merge_carries_payment_addrs_and_orders_sections() {
    let dst = "[addresses]\nmain = \"tnam1qq\"\n[view_keys]\ndefault = \"zvknam1\"\n";
    let src = "[payment_addrs]\ndefault = \"znam1xyz\"\n";
    let merged = merge_wallet_texts(dst, src);
    assert_eq!(
        merged,
        "[view_keys]\ndefault = \"zvknam1\"\n[payment_addrs]\ndefault = \"znam1xyz\"\n[addresses]\nmain = \"tnam1qq\"\n"
    );
}

#[test]
fn merge_replaces_an_existing_payment_section() {
    let dst = "[payment_addrs]\nold = \"znam1old\"\n[addresses]\nmain = \"tnam1qq\"\n";
    let src = "[payment_addrs]\nnew = \"znam1new\"\n";
    let merged = merge_wallet_texts(dst, src);
    assert_eq!(
        merged,
        "[payment_addrs]\nnew = \"znam1new\"\n[addresses]\nmain = \"tnam1qq\"\n"
    );
}

#[test]
fn merge_without_source_payment_section_keeps_destination() {
    let dst = "[addresses]\nmain = \"tnam1qq\"\n";
    let src = "[view_keys]\ndefault = \"zvknam1\"\n";
    let merged = merge_wallet_texts(dst, src);
    assert_eq!(merged, "[addresses]\nmain = \"tnam1qq\"\n");
}
