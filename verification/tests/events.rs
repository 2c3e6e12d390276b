use glowing_spork::events::{
    classify_notification, pending_events_from_rows, BanEventType, EnabledEvents, NotificationAction,
};

#[test]
fn parse_enabled_accepts_notification_channel_names() {
    let enabled = BanEventType::parse_enabled("ban_added");
    assert!(enabled.contains(&BanEventType::Added));
    assert!(!enabled.contains(&BanEventType::Edited));
}

#[test]
fn parse_enabled_accepts_enum_values_and_is_case_insensitive() {
    let enabled = BanEventType::parse_enabled("Added, BAN_EDITED");
    assert!(enabled.contains(&BanEventType::Added));
    assert!(enabled.contains(&BanEventType::Edited));
}

#[test]
fn parse_enabled_mixed_styles_from_readme() {
    let enabled = BanEventType::parse_enabled("ban_added,edited");
    assert!(enabled.contains(&BanEventType::Added));
    assert!(enabled.contains(&BanEventType::Edited));
    assert_eq!(enabled.len(), 2);
}

#[test]
fn classify_unknown_channel() {
    let enabled = BanEventType::parse_enabled("added");
    assert_eq!(
        classify_notification("ban_removed", "12", &enabled),
        NotificationAction::UnsupportedChannel
    );
    let _ = EnabledEvents::none();
}

#[test]
fn event_names_from_channels_and_queue_values() {
    assert_eq!(BanEventType::from_channel("ban_added"), Some(BanEventType::Added));
    assert_eq!(BanEventType::from_channel("ban_edited"), Some(BanEventType::Edited));
    assert_eq!(BanEventType::from_channel("added"), None);
    assert_eq!(BanEventType::from_db_value("edited"), Some(BanEventType::Edited));
    assert_eq!(BanEventType::from_db_value("Edited"), None);
    assert_eq!(BanEventType::listener_channels(), vec!["ban_added", "ban_edited"]);
}

#[test]
fn parse_enabled_separators_and_unknown_names() {
    let enabled = BanEventType::parse_enabled("foo\tADDED\n");
    assert!(enabled.contains(&BanEventType::Added));
    assert!(!enabled.contains(&BanEventType::Edited));
    let none = BanEventType::parse_enabled(" , ;added");
    assert_eq!(none.len(), 0);
}

#[test]
fn parse_enabled_ignores_case_of_the_whole_setting() {
    for value in ["Ban_Added,EDITED", "ban_added,edited"] {
        let enabled = BanEventType::parse_enabled(value);
        assert!(enabled.contains(&BanEventType::Added));
        assert!(enabled.contains(&BanEventType::Edited));
    }
}

#[test]
fn notifications_are_classified() {
    let enabled = BanEventType::parse_enabled("added");
    assert_eq!(
        classify_notification("ban_added", "12", &enabled),
        NotificationAction::Process { ban_id: 12, event_type: BanEventType::Added }
    );
    assert_eq!(
        classify_notification("ban_edited", "12", &enabled),
        NotificationAction::Disabled(BanEventType::Edited)
    );
    assert_eq!(
        classify_notification("ban_added", "twelve", &enabled),
        NotificationAction::InvalidPayload(BanEventType::Added)
    );
}

#[test]
fn pending_events_keep_known_enabled_rows_in_order() {
    let enabled = BanEventType::parse_enabled("added,edited");
    let rows = vec![
        (3, "edited".to_owned()),
        (1, "added".to_owned()),
        (2, "removed".to_owned()),
    ];
    assert_eq!(
        pending_events_from_rows(&rows, &enabled),
        vec![(3, BanEventType::Edited), (1, BanEventType::Added)]
    );
    let only_added = BanEventType::parse_enabled("added");
    assert_eq!(pending_events_from_rows(&rows, &only_added), vec![(1, BanEventType::Added)]);
}

#[test]
fn enabled_set_insert() {
    let mut set = EnabledEvents::none();
    assert_eq!(set.len(), 0);
    set.insert(BanEventType::Edited);
    assert!(set.contains(&BanEventType::Edited));
    assert!(!set.contains(&BanEventType::Added));
}
