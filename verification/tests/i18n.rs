use glowing_spork::i18n::{
    available_locales, built_in_english, is_supported_locale, normalize_locale,
    resolve_translations, set_available_locales, AvailableLocales,
};

#[test]
fn english_bundle_texts() {
    let t = built_in_english();
    assert_eq!(t.register_success, "✅ This channel is now registered for ban newsletters.");
    assert_eq!(t.unregister_success, "✅ This channel has been removed from ban newsletters.");
    assert_eq!(t.default_title, "🚨 New Ban №{id}");
    assert_eq!(
        t.default_description,
        "**Intruder:** `{intruder}`\n**Admin:** `{admin}`\n**Reason:** `{reason_display}`\n"
    );
    assert_eq!(t.details_value, "**Type:** `{type}`\n**Round:** `{round_id}`\n**Server:** `{server}`");
    assert_eq!(t.ends_title, "Ends");
    assert_eq!(t.no_reason, "No reason provided");
}

#[test]
fn every_locale_resolves_to_english() {
    let t = resolve_translations(Some("ru"), Some("de"));
    assert_eq!(t.details_title, "Details");
}

#[test]
fn normalize_locale_trims_and_lowercases() {
    assert_eq!(normalize_locale(Some("  EN-US ")), Some("en-us".to_owned()));
    assert_eq!(normalize_locale(Some("   ")), None);
    assert_eq!(normalize_locale(None), None);
    let once = normalize_locale(Some(" Ru "));
    assert_eq!(normalize_locale(once.as_deref()), once);
}

#[test]
fn locale_store_defaults_to_english_and_falls_back() {
    let mut store = AvailableLocales::new();
    assert_eq!(available_locales(&store), vec!["en".to_owned()]);
    assert!(is_supported_locale(&store, "en"));
    set_available_locales(&mut store, vec!["ru".to_owned(), "de".to_owned()]);
    assert_eq!(available_locales(&store), vec!["ru".to_owned(), "de".to_owned()]);
    assert!(is_supported_locale(&store, "de"));
    assert!(!is_supported_locale(&store, "en"));
    set_available_locales(&mut store, Vec::new());
    assert_eq!(available_locales(&store), vec!["en".to_owned()]);
}
