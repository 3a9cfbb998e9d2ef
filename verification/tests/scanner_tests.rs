use aircard::scanner::{
    add_or_update_card, card_in_log_line, extract_card_hash_from_line,
    extract_card_name_from_line, is_valid_card_hash, retain_valid_cards, unique_valid_cards,
    LogLineSplitter, SavedCard,
};

fn card(hash: &str, name: &str) -> SavedCard {
    SavedCard { hash: hash.to_string(), name: name.to_string() }
}

#[test]
fn test_extract_card_hash() {
    let line1 = "passd[123]: Card hash: 'OM6NYhwXMZrAw0sRUjR62wmF4ZQ=' loaded";
    assert_eq!(
        extract_card_hash_from_line(line1),
        Some("OM6NYhwXMZrAw0sRUjR62wmF4ZQ=".to_string())
    );

    let line2 = "nanopassd: Accessing /var/mobile/Library/Passes/Cards/d64fKk0kyHWP11IWV2GRLud4XQk.pkpass";
    assert_eq!(
        extract_card_hash_from_line(line2),
        Some("d64fKk0kyHWP11IWV2GRLud4XQk=".to_string())
    );

    // Dummy/unrelated lines should be ignored
    let dummy = "passd: Using dummy hash hwAtAmHKYwsQrJbT5cTNDsaxVME=";
    assert_eq!(extract_card_hash_from_line(dummy), None);
}

#[test]
fn test_extract_card_name() {
    let line = "passd[456]: Pass with localizedDescription = 'Apple Card' updated";
    assert_eq!(extract_card_name_from_line(line), Some("Apple Card".to_string()));
}

#[test]
fn test_is_valid_card_hash() {
    // Real card hashes
    assert!(is_valid_card_hash("OM6NYhwXMZrAw0sRUjR62wmF4ZQ="));
    assert!(is_valid_card_hash("d64fKk0kyHWP11IWV2GRLud4XQk="));
    assert!(is_valid_card_hash("d64fKk0kyHWP11IWV2GRLud4XQk"));

    // System garbage strings that must be rejected
    let garbage = [
        "PresentationBinderIndirectAccessHosting-",
        "SB-systemApertureCurtain",
        "com_apple_MobileAsset_UAF_Translation_Assets",
        "com_apple_MobileAsset_UAF_FM_Visual",
        "com_apple_MobileAsset_UAF_DeviceCheck",
        "com_apple_MobileAsset_UAF_Siri_TextToSpeech",
        "com_apple_MobileAsset_UAF_Siri_DialogAssets",
        "com_apple_MobileAsset_UAF_IF_Planner",
        "SubscriptionOptimizerTimingModels",
        "com_apple_MobileAsset_UAF_LinguisticData",
        "com_apple_MobileAsset_UAF_FM_Overrides",
        "com_apple_MobileAsset_UAF_Siri_Understanding",
        "com_apple_MobileAsset_UAF_MotionAnomalyFM",
        "com_apple_MobileAsset_UAF_TKModelMessages",
        "com_apple_MobileAsset_UAF_Search_ODLA",
    ];

    for g in garbage {
        assert!(!is_valid_card_hash(g), "Expected {} to be rejected as card hash", g);
    }
}

#[test]
fn test_saved_cards_purging() {
    let stored = vec![
        card("OM6NYhwXMZrAw0sRUjR62wmF4ZQ=", "Card 1"),
        card("SB-systemApertureCurtain", "Card 2"),
        card("d64fKk0kyHWP11IWV2GRLud4XQk=", "Transit"),
        card("hwAtAmHKYwsQrJbT5cTNDsaxVME=", "Card 4"),
    ];
    let loaded = retain_valid_cards(stored);
    for card in &loaded {
        assert!(is_valid_card_hash(&card.hash), "Invalid hash was not purged: {}", card.hash);
    }
    assert_eq!(loaded.len(), 2);
}

#[test]
fn sha256_sized_hash_is_accepted() {
    // 32 decoded bytes, 43 characters without padding.
    assert!(is_valid_card_hash("CzBVep/E6Q4zWH2ix+wRNluApcrvFDleg6jN8hc8YYY"));
    assert!(is_valid_card_hash("CzBVep/E6Q4zWH2ix+wRNluApcrvFDleg6jN8hc8YYY="));
    // URL-safe alphabet is normalised before decoding.
    assert!(is_valid_card_hash("kJL-D0rr_SZhbj2c8nK-OQ9hCMY="));
}

#[test]
fn hashes_of_the_wrong_shape_are_rejected() {
    // Wrong length.
    assert!(!is_valid_card_hash("OM6NYhwXMZrAw0sRUjR62wmF4Z"));
    // A character outside the base64 alphabet.
    assert!(!is_valid_card_hash("OM6NYhwXMZrAw0sRUjR62wmF4Z!="));
    // '=' too early.
    assert!(!is_valid_card_hash("OM6NYhwXMZrAw0sRUjR62w=F4ZQ="));
    // All 20 decoded bytes identical.
    assert!(!is_valid_card_hash("AAAAAAAAAAAAAAAAAAAAAAAAAAA="));
    // Known placeholder hashes, with and without padding.
    assert!(!is_valid_card_hash("M6nDwZrkYbFlsodLgCbvyFZQ1cc="));
    assert!(!is_valid_card_hash("M6nDwZrkYbFlsodLgCbvyFZQ1cc"));
    // Keywords are matched whatever their case.
    assert!(!is_valid_card_hash("xQ7pMOBILEASSETk2Zr8vW4nT1s="));
}

#[test]
fn quotes_and_trailing_punctuation_are_trimmed() {
    assert!(is_valid_card_hash("'OM6NYhwXMZrAw0sRUjR62wmF4ZQ='"));
    assert!(is_valid_card_hash("OM6NYhwXMZrAw0sRUjR62wmF4ZQ=.,"));
}

#[test]
fn lines_without_wallet_words_give_no_hash() {
    let line = "kernel: Card hash: 'OM6NYhwXMZrAw0sRUjR62wmF4ZQ=' loaded";
    assert_eq!(extract_card_hash_from_line(line), None);
}

#[test]
fn card_id_line_gives_hash() {
    let line = "PassKit: pass_id = OM6NYhwXMZrAw0sRUjR62wmF4ZQ=";
    assert_eq!(
        extract_card_hash_from_line(line),
        Some("OM6NYhwXMZrAw0sRUjR62wmF4ZQ=".to_string())
    );
}

#[test]
fn private_or_short_names_are_ignored() {
    assert_eq!(extract_card_name_from_line("passd: title = '<private>'"), None);
    assert_eq!(extract_card_name_from_line("passd: title = 'A'"), None);
    assert_eq!(
        extract_card_name_from_line("passd: passName: \"  Metro Card \" done"),
        Some("Metro Card".to_string())
    );
    assert_eq!(extract_card_name_from_line("passd: nothing here"), None);
}

#[test]
fn new_card_is_appended_with_numbered_name() {
    let mut cards = vec![card("OM6NYhwXMZrAw0sRUjR62wmF4ZQ=", "Apple Card")];
    add_or_update_card(&mut cards, "d64fKk0kyHWP11IWV2GRLud4XQk=", "");
    assert_eq!(cards.len(), 2);
    assert_eq!(cards[1], card("d64fKk0kyHWP11IWV2GRLud4XQk=", "Card 2"));
}

#[test]
fn placeholder_name_is_replaced_by_real_name() {
    let mut cards = vec![card("OM6NYhwXMZrAw0sRUjR62wmF4ZQ=", "Card 1")];
    add_or_update_card(&mut cards, "OM6NYhwXMZrAw0sRUjR62wmF4ZQ=", "Apple Card");
    assert_eq!(cards, vec![card("OM6NYhwXMZrAw0sRUjR62wmF4ZQ=", "Apple Card")]);
    // A real name is kept.
    add_or_update_card(&mut cards, "OM6NYhwXMZrAw0sRUjR62wmF4ZQ=", "Other");
    assert_eq!(cards, vec![card("OM6NYhwXMZrAw0sRUjR62wmF4ZQ=", "Apple Card")]);
}

#[test]
fn invalid_hash_is_not_added() {
    let mut cards = Vec::new();
    add_or_update_card(&mut cards, "SB-systemApertureCurtain", "x");
    assert!(cards.is_empty());
}

#[test]
fn adding_the_same_card_twice_is_adding_it_once() {
    let mut once = vec![card("OM6NYhwXMZrAw0sRUjR62wmF4ZQ=", "")];
    add_or_update_card(&mut once, "d64fKk0kyHWP11IWV2GRLud4XQk=", "Transit");
    let mut twice = once.clone();
    add_or_update_card(&mut twice, "d64fKk0kyHWP11IWV2GRLud4XQk=", "Transit");
    assert_eq!(once, twice);
}

#[test]
fn saving_keeps_valid_cards_once() {
    let cards = vec![
        card("OM6NYhwXMZrAw0sRUjR62wmF4ZQ=", "A"),
        card("SB-systemApertureCurtain", "B"),
        card("OM6NYhwXMZrAw0sRUjR62wmF4ZQ=", "C"),
        card("d64fKk0kyHWP11IWV2GRLud4XQk=", "D"),
    ];
    let unique = unique_valid_cards(&cards);
    assert_eq!(
        unique,
        vec![card("OM6NYhwXMZrAw0sRUjR62wmF4ZQ=", "A"), card("d64fKk0kyHWP11IWV2GRLud4XQk=", "D")]
    );
}

#[test]
fn log_stream_is_cut_into_lines() {
    let mut s = LogLineSplitter::new();
    let lines = s.feed(b"first\r\nsecond\0\n\nthi");
    assert_eq!(lines, vec![b"first".to_vec(), b"second".to_vec()]);
    assert_eq!(s.pending, b"thi".to_vec());
    let lines = s.feed(b"rd\n");
    assert_eq!(lines, vec![b"third".to_vec()]);
    assert!(s.pending.is_empty());
}

#[test]
fn chunk_boundaries_do_not_change_the_lines() {
    let stream: &[u8] = b"passd: a\nb\r\n\ncd\0ef";
    let mut whole = LogLineSplitter::new();
    let all = whole.feed(stream);
    for cut in 0..=stream.len() {
        let mut parts = LogLineSplitter::new();
        let mut got = parts.feed(&stream[..cut]);
        got.extend(parts.feed(&stream[cut..]));
        assert_eq!(got, all);
        assert_eq!(parts.pending, whole.pending);
    }
}

#[test]
fn log_line_reports_card_with_name() {
    let line = b"passd[1]: card_hash: 'OM6NYhwXMZrAw0sRUjR62wmF4ZQ=' title = 'Apple Card'";
    assert_eq!(
        card_in_log_line(line),
        Some(card("OM6NYhwXMZrAw0sRUjR62wmF4ZQ=", "Apple Card"))
    );
    let mut bad_utf8 = b"passd[1]: \xff card_hash: 'OM6NYhwXMZrAw0sRUjR62wmF4ZQ='".to_vec();
    assert_eq!(
        card_in_log_line(&bad_utf8),
        Some(card("OM6NYhwXMZrAw0sRUjR62wmF4ZQ=", ""))
    );
    bad_utf8.truncate(10);
    assert_eq!(card_in_log_line(&bad_utf8), None);
}

#[test]
fn padded_and_unpadded_hashes_are_judged_alike() {
    for h in ["d64fKk0kyHWP11IWV2GRLud4XQk", "OM6NYhwXMZrAw0sRUjR62wmF4ZQ", "AAAAAAAAAAAAAAAAAAAAAAAAAAA", "M6nDwZrkYbFlsodLgCbvyFZQ1cc"] {
        assert_eq!(is_valid_card_hash(h), is_valid_card_hash(&format!("{}=", h)));
    }
}

#[test]
fn extracted_hashes_are_valid() {
    let line = "nanopassd: Accessing /var/mobile/Library/Passes/Cards/d64fKk0kyHWP11IWV2GRLud4XQk.pkpass";
    let h = extract_card_hash_from_line(line).expect("hash");
    assert!(is_valid_card_hash(&h));
}

#[test]
fn saved_list_reads_back_unchanged() {
    let cards = vec![
        card("OM6NYhwXMZrAw0sRUjR62wmF4ZQ=", "A"),
        card("SB-systemApertureCurtain", "B"),
        card("OM6NYhwXMZrAw0sRUjR62wmF4ZQ=", "C"),
        card("d64fKk0kyHWP11IWV2GRLud4XQk=", "D"),
    ];
    let saved = unique_valid_cards(&cards);
    assert_eq!(retain_valid_cards(saved.clone()), saved);
    assert_eq!(unique_valid_cards(&saved), saved);
}

#[test]
fn quotes_around_a_hash_are_ignored() {
    for h in ["OM6NYhwXMZrAw0sRUjR62wmF4ZQ=", "SB-systemApertureCurtain", "", "'"] {
        for q in ['\'', '"'] {
            assert_eq!(is_valid_card_hash(&format!("{q}{h}{q}")), is_valid_card_hash(h));
        }
    }
}
