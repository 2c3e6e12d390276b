use glowing_spork::schema::{
    auto_confirm_schema_changes, confirmation_prompt, parse_confirmation, schema_object_label,
    SchemaObject,
};

#[test]
fn prompt_names_the_missing_object() {
    let label = schema_object_label(SchemaObject::NotifyFunction, "bans_notify_events_trigger");
    assert_eq!(
        confirmation_prompt(&label),
        "Create missing database object `postgres function notify_ban_events`? [y/n]: "
    );
    assert_eq!(
        schema_object_label(SchemaObject::NotifyTrigger, "public_ban_records_notify_events_trigger"),
        "postgres trigger public_ban_records_notify_events_trigger"
    );
    assert_eq!(schema_object_label(SchemaObject::EventType, ""), "postgres type ban_event_type");
    assert_eq!(schema_object_label(SchemaObject::EventQueue, ""), "postgres table ban_events");
}

#[test]
fn answers_to_the_prompt() {
    assert_eq!(parse_confirmation("y\n"), Some(true));
    assert_eq!(parse_confirmation(" YES "), Some(true));
    assert_eq!(parse_confirmation("n"), Some(false));
    assert_eq!(parse_confirmation("No\n"), Some(false));
    assert_eq!(parse_confirmation(""), None);
    assert_eq!(parse_confirmation("maybe"), None);
}

#[test]
fn auto_confirmation_setting() {
    assert!(auto_confirm_schema_changes(Some("true")));
    assert!(auto_confirm_schema_changes(Some(" 1 ")));
    assert!(!auto_confirm_schema_changes(Some("false")));
    assert!(!auto_confirm_schema_changes(None));
}
