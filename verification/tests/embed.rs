use glowing_spork::embed::{parse_bool, parse_color, spacer_line, templates_eq, EmbedTemplate};
use glowing_spork::i18n::built_in_english;

#[test]
fn default_template_is_english_and_dark_red() {
    let t = EmbedTemplate::default_template();
    assert_eq!(t.title, "🚨 New Ban №{id}");
    assert_eq!(t.color, 0x992D22);
    assert_eq!(t.footer, None);
    assert_eq!(t.lines.len(), 3);
    assert_eq!(t.lines[0].title.as_deref(), Some("\u{200B}"));
    assert!(!t.lines[0].field_inline);
    assert_eq!(t.lines[1].title.as_deref(), Some("Details"));
    assert!(t.lines[1].field_inline);
    assert_eq!(t.lines[2].value, "`{duration_end}`");
    assert_eq!(EmbedTemplate::default_template_for(built_in_english()), t);
    assert!(templates_eq(&t, &EmbedTemplate::default_template()));
}

#[test]
fn lines_and_spacers() {
    let l = glowing_spork::embed::line(Some("T"), "v", true, false, Some(3), true, false);
    assert_eq!(l.title.as_deref(), Some("T"));
    assert_eq!(l.group_id, Some(3));
    let s = spacer_line();
    assert!(s.spacer);
    assert_eq!(s.value, "");
    assert_eq!(s.title, None);
}

#[test]
fn booleans() {
    for v in ["1", "true", " YES ", "On"] {
        assert!(parse_bool(v), "{v}");
    }
    for v in ["0", "false", "no", "", "truth"] {
        assert!(!parse_bool(v), "{v}");
    }
}

#[test]
fn colors() {
    assert_eq!(parse_color("#992D22"), Some(0x992D22));
    assert_eq!(parse_color(" 0xff00ff "), Some(0xFF00FF));
    assert_eq!(parse_color("0X0000FF"), Some(0xFF));
    assert_eq!(parse_color("16777215"), Some(0xFFFFFF));
    assert_eq!(parse_color("16777216"), None);
    assert_eq!(parse_color("#1000000"), None);
    assert_eq!(parse_color("red"), None);
    assert_eq!(parse_color("#"), None);
    assert_eq!(parse_color("#+ff"), Some(255));
}

#[test]
fn template_equality_sees_every_part() {
    let a = EmbedTemplate::default_template();
    let mut b = EmbedTemplate::default_template();
    b.lines[2].field_inline = false;
    assert!(!templates_eq(&a, &b));
    let mut c = EmbedTemplate::default_template();
    c.footer = Some(String::new());
    assert!(!templates_eq(&a, &c));
}
