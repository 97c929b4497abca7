use supplier_kit::models::SupplierOperation;

fn normalized(name: &str) -> String {
    match SupplierOperation::Other(name.to_string()).normalize() {
        SupplierOperation::Other(normal) => normal,
        other => panic!("normalize turned an Other into {:?}", other),
    }
}

/// The characters that carry the Unicode `White_Space` property.
fn is_white_space(c: char) -> bool {
    matches!(
        c as u32,
        0x09..=0x0d
            | 0x20
            | 0x85
            | 0xa0
            | 0x1680
            | 0x2000..=0x200a
            | 0x2028
            | 0x2029
            | 0x202f
            | 0x205f
            | 0x3000
    )
}

#[test]
fn normalize_is_idempotent_on_examples() {
    for name in [
        "Submit Transaction",
        "cancel-order",
        " check/status ",
        "",
        "   ",
        "\t Mixed CASE / with-Everything \n",
        "- leading separator",
        "ÀÉÎ Ünïcode",
        "a\tb",
    ] {
        let once = SupplierOperation::Other(name.to_string()).normalize();
        let twice = once.clone().normalize();
        assert_eq!(twice, once);
    }
    let once = SupplierOperation::Other("Submit Transaction".to_string()).normalize();
    assert_eq!(once, SupplierOperation::Other("submit_transaction".to_string()));
    assert_eq!(once.clone().normalize(), SupplierOperation::Other("submit_transaction".to_string()));
}

#[test]
fn normalize_keeps_search_and_get_detail() {
    assert_eq!(SupplierOperation::Search.normalize(), SupplierOperation::Search);
    assert_eq!(SupplierOperation::GetDetail.normalize(), SupplierOperation::GetDetail);
    assert_eq!(
        SupplierOperation::Search.normalize().normalize(),
        SupplierOperation::Search
    );
}

#[test]
fn normalize_does_not_turn_a_known_name_into_a_known_operation() {
    assert_eq!(
        SupplierOperation::Other("Search".to_string()).normalize(),
        SupplierOperation::Other("search".to_string())
    );
    assert_eq!(
        SupplierOperation::Other("get-detail".to_string()).normalize(),
        SupplierOperation::Other("get_detail".to_string())
    );
}

#[test]
fn normalize_trims_both_ends_and_only_the_ends() {
    assert_eq!(normalized("  abc"), "abc");
    assert_eq!(normalized("abc  "), "abc");
    assert_eq!(normalized("\t\r\n abc \x0b\x0c"), "abc");
    assert_eq!(normalized("a  b"), "a__b");
    assert_eq!(normalized("a\tb"), "a\tb");
    assert_eq!(normalized(""), "");
    assert_eq!(normalized(" \t\n"), "");
    assert_eq!(normalized("\u{3000}x\u{a0}"), "x");
}

#[test]
fn normalize_lowers_ascii_letters_only() {
    assert_eq!(normalized("ABCXYZ"), "abcxyz");
    assert_eq!(normalized("AZaz09@[`{"), "azaz09@[`{");
    assert_eq!(normalized("ÀÉÎ"), "ÀÉÎ");
    assert_eq!(normalized("Straße"), "straße");
    assert_eq!(normalized("ΑΒΓ"), "ΑΒΓ");
}

#[test]
fn normalize_unifies_spaces_hyphens_and_slashes() {
    assert_eq!(normalized("a b-c/d"), "a_b_c_d");
    assert_eq!(normalized("a_b"), "a_b");
    assert_eq!(normalized("-x-"), "_x_");
    assert_eq!(normalized("/x/"), "_x_");
    assert_eq!(normalized("a\\b.c,d"), "a\\b.c,d");
    assert_eq!(normalized("a--b"), "a__b");
}

#[test]
fn normalize_treats_every_character_as_stated() {
    for code in 0..=0x10ffffu32 {
        let Some(c) = char::from_u32(code) else {
            continue;
        };
        let middle = if c == ' ' || c == '-' || c == '/' {
            '_'
        } else if c.is_ascii_uppercase() {
            char::from_u32(code + 32).unwrap()
        } else {
            c
        };
        let expected =
            if is_white_space(c) { "x_x".to_string() } else { format!("{middle}x_x{middle}") };
        assert_eq!(normalized(&format!("{c}x x{c}")), expected, "U+{code:04X}");
        let inner = format!("x{middle}x");
        assert_eq!(normalized(&format!("x{c}x")), inner, "U+{code:04X}");
    }
}

#[test]
fn as_str_gives_the_name_as_it_is() {
    assert_eq!(SupplierOperation::Other("Sync Inventory".to_string()).as_str(), "Sync Inventory");
    assert_eq!(SupplierOperation::Other(String::new()).as_str(), "");
    assert_eq!(
        SupplierOperation::Other("Sync Inventory".to_string()).normalize().as_str(),
        "sync_inventory"
    );
}

#[test]
fn cloned_operation_equals_its_source() {
    for op in [
        SupplierOperation::Search,
        SupplierOperation::GetDetail,
        SupplierOperation::Other("refund".to_string()),
    ] {
        assert_eq!(op.clone(), op);
    }
    assert_ne!(SupplierOperation::Search, SupplierOperation::GetDetail);
    assert_ne!(SupplierOperation::Other("search".to_string()), SupplierOperation::Search);
}
