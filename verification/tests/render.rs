use glowing_spork::embed::{EmbedLine, EmbedTemplate};
use glowing_spork::render::{
    format_ban_embed_for_locale, format_ban_embed_with_times, inline_text_with_bold_title,
    reason_display, render_line_as_field, render_line_for_compact_group, render_template_text,
    BanRecord, EmbedField,
};
use glowing_spork::time::TimePlaceholders;

fn ban() -> BanRecord {
    BanRecord {
        id: 17,
        intruder: "griefer".to_owned(),
        admin: "Admin1".to_owned(),
        kind: "Server".to_owned(),
        round_id: -3,
        server: "Main".to_owned(),
        created_at: "2024-03-01 10:20:30".to_owned(),
        duration_end: "".to_owned(),
        reason: "".to_owned(),
    }
}

fn times() -> TimePlaceholders {
    TimePlaceholders {
        date: "2024-03-01".to_owned(),
        time: "10:20 UTC".to_owned(),
        date_time: "2024-03-01 10:20 UTC".to_owned(),
        time_left: "2 hours".to_owned(),
    }
}

fn plain_line(title: Option<&str>, value: &str) -> EmbedLine {
    glowing_spork::embed::line(title, value, false, false, None, false, false)
}

#[test]
fn reason_falls_back_when_empty() {
    let mut b = ban();
    assert_eq!(reason_display(&b, "none"), "none");
    b.reason = "spam".to_owned();
    assert_eq!(reason_display(&b, "none"), "spam");
}

#[test]
fn every_placeholder_is_filled() {
    let text = "{id}|{intruder}|{admin}|{type}|{round_id}|{server}|{created_at}|{duration_end}|{date}|{time}|{date_time}|{time_left}|{reason}|{reason_display}|a\\nb|{unknown}";
    assert_eq!(
        render_template_text(text, &ban(), "No reason provided", &times()),
        "17|griefer|Admin1|Server|-3|Main|2024-03-01 10:20:30||2024-03-01|10:20 UTC|2024-03-01 10:20 UTC|2 hours||No reason provided|a\nb|{unknown}"
    );
}

#[test]
fn bold_titles() {
    assert_eq!(inline_text_with_bold_title("  Who ", "me"), "**Who** me");
    assert_eq!(inline_text_with_bold_title(" ", "me"), "me");
}

#[test]
fn lines_as_fields_and_blocks() {
    let b = ban();
    let t = times();
    let titled = plain_line(Some(" Admin "), "{admin}");
    assert_eq!(
        render_line_as_field(&titled, &b, "-", &t),
        (" Admin ".to_owned(), "Admin1".to_owned())
    );
    assert_eq!(render_line_for_compact_group(&titled, &b, "-", &t), "**Admin**\nAdmin1");
    let untitled = plain_line(None, "{server}");
    assert_eq!(render_line_as_field(&untitled, &b, "-", &t), ("\u{200B}".to_owned(), "Main".to_owned()));
    assert_eq!(render_line_for_compact_group(&untitled, &b, "-", &t), "Main");
    let inline = glowing_spork::embed::line(Some("Type"), "{type}", true, false, None, false, false);
    assert_eq!(
        render_line_as_field(&inline, &b, "-", &t),
        ("\u{200B}".to_owned(), "**Type** Server".to_owned())
    );
    assert_eq!(render_line_for_compact_group(&inline, &b, "-", &t), "**Type** Server");
}

#[test]
fn default_template_embed() {
    let embed = format_ban_embed_with_times(
        &EmbedTemplate::default_template(),
        &ban(),
        Some("ru"),
        None,
        Some("de"),
        &times(),
    );
    assert_eq!(embed.title, "🚨 New Ban №17");
    assert_eq!(embed.color, 0x992D22);
    assert_eq!(embed.description, None);
    assert_eq!(embed.footer, None);
    assert_eq!(
        embed.fields,
        vec![
            EmbedField {
                name: "\u{200B}".to_owned(),
                value: "**Intruder:** `griefer`\n**Admin:** `Admin1`\n**Reason:** `No reason provided`\n".to_owned(),
                inline: false,
            },
            EmbedField {
                name: "Details".to_owned(),
                value: "**Type:** `Server`\n**Round:** `-3`\n**Server:** `Main`".to_owned(),
                inline: true,
            },
            EmbedField { name: "Ends".to_owned(), value: "``".to_owned(), inline: true },
        ]
    );
}

#[test]
fn custom_template_layout() {
    let xml = r#"<embed>
  <title>Ban {id}</title>
  <line>{intruder} banned</line>
  <br/>
  <line inline="true" title="By">{admin}</line>
  <group direction="row">
    <line title="Type">{type}</line>
    <line>{server}</line>
  </group>
  <group direction="column">
    <line title="Round">{round_id}</line>
  </group>
  <line title="Left">{time_left}</line>
  <footer>{reason_display} </footer>
</embed>"#;
    let template = EmbedTemplate::from_xml(xml).unwrap();
    let embed = format_ban_embed_with_times(&template, &ban(), None, None, None, &times());
    assert_eq!(embed.title, "Ban 17");
    assert_eq!(
        embed.description.as_deref(),
        Some("griefer banned\n\n**By** Admin1\n**Type**\nServer\nMain")
    );
    assert_eq!(
        embed.fields,
        vec![
            EmbedField { name: "Round".to_owned(), value: "-3".to_owned(), inline: false },
            EmbedField { name: "Left".to_owned(), value: "2 hours".to_owned(), inline: false },
        ]
    );
    assert_eq!(embed.footer.as_deref(), Some("No reason provided"));
}

#[test]
fn blank_footer_is_dropped() {
    let template = EmbedTemplate::from_xml("<embed><line>x</line><footer>{reason}</footer></embed>").unwrap();
    let embed = format_ban_embed_for_locale(&template, &ban(), None, None, None);
    assert_eq!(embed.footer, None);
    assert_eq!(embed.description.as_deref(), Some("x"));
}
