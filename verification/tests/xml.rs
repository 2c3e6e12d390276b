use glowing_spork::embed::EmbedTemplate;
use glowing_spork::xml::{EmbedTemplateError, XmlEvent};

const DOC_EXAMPLE: &str = r#"<embed>
  <title>🚨 New Ban №{id}</title>
  <color>#992D22</color>
  <line inline="true" title="Info">**Intruder:** `{intruder}`<br/>**Admin:** `{admin}`</line>
  <group direction="row">
    <line title="Details">**Type:** `{type}`</line>
    <line title="Ends" inline="true">`{duration_end}`</line>
  </group>
</embed>"#;

#[test]
fn documented_example_parses() {
    let t = EmbedTemplate::from_xml(DOC_EXAMPLE).unwrap();
    assert_eq!(t.title, "🚨 New Ban №{id}");
    assert_eq!(t.color, 0x992D22);
    assert_eq!(t.footer, None);
    assert_eq!(t.lines.len(), 3);
    let info = &t.lines[0];
    assert_eq!(info.title.as_deref(), Some("Info"));
    assert_eq!(info.value, "**Intruder:** `{intruder}`\n\n**Admin:** `{admin}`");
    assert!(info.inline);
    assert_eq!(info.group_id, None);
    assert!(!info.field_inline);
    let details = &t.lines[1];
    assert_eq!(details.group_id, Some(1));
    assert!(details.row_group);
    assert!(details.field_inline);
    assert!(!details.inline);
    let ends = &t.lines[2];
    assert_eq!(ends.value, "`{duration_end}`");
    assert!(ends.inline);
    assert_eq!(ends.group_id, Some(1));
}

#[test]
fn footer_must_be_last() {
    let r = EmbedTemplate::from_xml("<embed><footer>bye</footer><line>x</line></embed>");
    assert!(matches!(r, Err(EmbedTemplateError::FooterMustBeLast)));
    let r = EmbedTemplate::from_xml("<embed><footer>bye</footer><br/></embed>");
    assert!(matches!(r, Err(EmbedTemplateError::FooterMustBeLast)));
}

#[test]
fn footer_at_most_once() {
    let r = EmbedTemplate::from_xml("<embed><footer>a<footer>b</footer></footer></embed>");
    assert!(matches!(r, Err(EmbedTemplateError::DuplicateFooter)));
}

#[test]
fn footer_is_kept_when_last() {
    let t = EmbedTemplate::from_xml("<embed><line>x</line><footer>Ban #{id}</footer></embed>").unwrap();
    assert_eq!(t.footer.as_deref(), Some("Ban #{id}"));
    let t = EmbedTemplate::from_xml("<embed><footer></footer></embed>").unwrap();
    assert_eq!(t.footer, None);
}

#[test]
fn invalid_colors_are_rejected() {
    match EmbedTemplate::from_xml("<embed><color>red</color></embed>") {
        Err(EmbedTemplateError::InvalidColor { value }) => assert_eq!(value, "red"),
        other => panic!("unexpected {other:?}"),
    }
    assert!(matches!(
        EmbedTemplate::from_xml("<embed><color>#1000000</color></embed>"),
        Err(EmbedTemplateError::InvalidColor { .. })
    ));
}

#[test]
fn malformed_xml_is_an_xml_error() {
    assert!(matches!(
        EmbedTemplate::from_xml("<embed><title>x</embed>"),
        Err(EmbedTemplateError::Xml(_))
    ));
    assert!(matches!(EmbedTemplate::from_xml("<embed"), Err(EmbedTemplateError::Xml(_))));
}

#[test]
fn breaks_in_titles_and_between_lines() {
    let t = EmbedTemplate::from_xml("<embed><title>A<br/></title></embed>").unwrap();
    assert_eq!(t.title, "A\n\n");
    let t = EmbedTemplate::from_xml("<embed><title>A<br/>B</title></embed>").unwrap();
    assert_eq!(t.title, "A\n\nB");
    assert_eq!(t.lines, EmbedTemplate::default_template().lines);
    let t = EmbedTemplate::from_xml("<embed><line>a</line><break/><line>b</line></embed>").unwrap();
    assert_eq!(t.lines.len(), 3);
    assert!(t.lines[1].spacer);
    assert_eq!(t.lines[2].value, "b");
}

#[test]
fn column_groups_and_empty_lines() {
    let t = EmbedTemplate::from_xml(
        r#"<embed><group direction="COLUMN"><line name="n">v</line><line title="e"></line></group></embed>"#,
    )
    .unwrap();
    assert_eq!(t.lines.len(), 1);
    assert_eq!(t.lines[0].title.as_deref(), Some("n"));
    assert_eq!(t.lines[0].group_id, Some(1));
    assert!(!t.lines[0].row_group);
    assert!(!t.lines[0].field_inline);
    // no line with text keeps the default lines
    let t = EmbedTemplate::from_xml("<embed><title>T</title></embed>").unwrap();
    assert_eq!(t.title, "T");
    assert_eq!(t.lines, EmbedTemplate::default_template().lines);
}

#[test]
fn nested_groups_number_in_order() {
    let t = EmbedTemplate::from_xml(
        "<embed><group><line>a</line><group direction=\"column\"><line>b</line></group><line>c</line></group></embed>",
    )
    .unwrap();
    let ids: Vec<_> = t.lines.iter().map(|l| (l.group_id, l.row_group)).collect();
    assert_eq!(ids, vec![(Some(1), true), (Some(2), false), (Some(1), true)]);
}

#[test]
fn events_drive_the_same_reader() {
    let events = vec![
        XmlEvent::Start { name: b"embed".to_vec(), attributes: vec![] },
        XmlEvent::Start {
            name: b"line".to_vec(),
            attributes: vec![(b"title".to_vec(), b"Who".to_vec()), (b"inline".to_vec(), b"on".to_vec())],
        },
        XmlEvent::Text { content: "x".as_bytes().to_vec() },
        XmlEvent::End { name: b"line".to_vec() },
        XmlEvent::End { name: b"embed".to_vec() },
        XmlEvent::Eof,
        XmlEvent::Start { name: b"color".to_vec(), attributes: vec![] },
        XmlEvent::Text { content: b"oops".to_vec() },
    ];
    let t = EmbedTemplate::from_events(&events).unwrap();
    assert_eq!(t.lines.len(), 1);
    assert_eq!(t.lines[0].title.as_deref(), Some("Who"));
    assert!(t.lines[0].inline);
    assert_eq!(t.color, 0x992D22);
    assert_eq!(EmbedTemplate::from_events(&Vec::new()).unwrap(), EmbedTemplate::default_template());
}
