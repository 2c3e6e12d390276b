use glowing_spork::channels::{
    channels_from_rows, locale_reply, requested_locale, stored_message_id, LocaleOutcome,
    NewsletterChannel, RegistrationAction,
};
use glowing_spork::i18n::{built_in_english, set_available_locales, AvailableLocales};

#[test]
fn stored_rows_become_channels() {
    let rows = vec![
        (5, Some(" EN ".to_owned()), None, Some("".to_owned())),
        (-1, None, None, None),
        (7, None, Some("RU".to_owned()), None),
    ];
    assert_eq!(
        channels_from_rows(&rows),
        vec![
            NewsletterChannel { channel_id: 5, channel_locale: Some("en".to_owned()), user_locale: None, guild_locale: None },
            NewsletterChannel { channel_id: 7, channel_locale: None, user_locale: Some("ru".to_owned()), guild_locale: None },
        ]
    );
}

#[test]
fn stored_ids() {
    assert_eq!(stored_message_id(0), Some(0));
    assert_eq!(stored_message_id(i64::MAX), Some(i64::MAX as u64));
    assert_eq!(stored_message_id(-5), None);
}

#[test]
fn registration_replies() {
    let t = built_in_english();
    assert_eq!(RegistrationAction::Register.log_verb(), "register");
    assert_eq!(RegistrationAction::Unregister.log_verb(), "unregister");
    assert_eq!(RegistrationAction::Register.confirmation(&t), t.register_success);
    assert_eq!(RegistrationAction::Unregister.confirmation(&t), t.unregister_success);
}

#[test]
fn locale_requests_are_normalized_and_checked() {
    let mut store = AvailableLocales::new();
    assert_eq!(requested_locale(&store, " EN "), Some("en".to_owned()));
    assert_eq!(requested_locale(&store, "ru"), None);
    assert_eq!(requested_locale(&store, "   "), None);
    set_available_locales(&mut store, vec!["en".to_owned(), "ru".to_owned()]);
    assert_eq!(requested_locale(&store, "RU"), Some("ru".to_owned()));
}

#[test]
fn locale_replies() {
    let t = built_in_english();
    assert_eq!(
        locale_reply(&LocaleOutcome::Stored { locale: "ru".to_owned() }, &t),
        "✅ This channel locale is now set to `ru`."
    );
    assert_eq!(
        locale_reply(&LocaleOutcome::NotRegistered, &t),
        "⚠️ This channel is not registered yet. Run `/register` first."
    );
    assert_eq!(
        locale_reply(&LocaleOutcome::Unsupported, &t),
        "⚠️ Unsupported locale. Pick one from the autocomplete list."
    );
}
