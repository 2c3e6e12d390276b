//! Reading an embed template from XML.
//!
//! The XML is tokenized by `quick_xml`; the events it yields drive a state
//! machine, [`TemplateParser`], whose every step is specified by
//! [`parser_step`]. [`EmbedTemplate::from_events`] runs the machine over a
//! given event list and [`EmbedTemplate::from_xml`] over the events that
//! `quick_xml` reads from a string.

use vstd::prelude::*;

use quick_xml::events::Event;
use quick_xml::Reader;
use vstd::string::StringSliceAdditionalSpecFns;

use crate::embed::{
    english_default_view, line, line_view, opt_view, parse_bool, parse_color, parsed_color,
    parses_as_true, spacer_line, spacer_line_view, EmbedLine, EmbedLineView, EmbedTemplate,
    EmbedTemplateView, DEFAULT_EMBED_COLOR,
};
use crate::text::{ascii_lowercase, chars_of, to_ascii_lowercase};

verus! {

// ---------------------------------------------------------------------------
// quick_xml
// ---------------------------------------------------------------------------

#[verifier::external_type_specification]
#[verifier::external_body]
#[verifier::reject_recursive_types(R)]
pub struct ExXmlReader<R>(Reader<R>);

#[verifier::external_type_specification]
#[verifier::external_body]
pub struct ExXmlError(quick_xml::Error);

/// What `quick_xml` hands out for one event, as plain bytes: the event types
/// that the template reader distinguishes, with the others folded into
/// `Other`. A start tag's attributes are listed in order, each as key and
/// value bytes, or `None` where `quick_xml` reports it as malformed. Names are
/// the raw tag names, text is the raw (still escaped) character data.
#[derive(Clone, Debug, PartialEq, Eq)]
pub enum XmlToken {
    Start { name: Vec<u8>, attributes: Vec<Option<(Vec<u8>, Vec<u8>)>> },
    Empty { name: Vec<u8> },
    Text { content: Vec<u8> },
    End { name: Vec<u8> },
    Eof,
    Other,
}

/// The value of an [`XmlToken`].
pub enum XmlTokenView {
    Start { name: Seq<u8>, attributes: Seq<Option<(Seq<u8>, Seq<u8>)>> },
    Empty { name: Seq<u8> },
    Text { content: Seq<u8> },
    End { name: Seq<u8> },
    Eof,
    Other,
}

/// The views of possibly malformed attributes.
pub open spec fn opt_attribute_views(attrs: Seq<Option<(Vec<u8>, Vec<u8>)>>) -> Seq<
    Option<(Seq<u8>, Seq<u8>)>,
> {
    attrs.map_values(
        |a: Option<(Vec<u8>, Vec<u8>)>|
            match a {
                Some(kv) => Some((kv.0@, kv.1@)),
                None => None,
            },
    )
}

impl View for XmlToken {
    type V = XmlTokenView;

    open spec fn view(&self) -> XmlTokenView {
        match self {
            XmlToken::Start { name, attributes } => XmlTokenView::Start {
                name: name@,
                attributes: opt_attribute_views(attributes@),
            },
            XmlToken::Empty { name } => XmlTokenView::Empty { name: name@ },
            XmlToken::Text { content } => XmlTokenView::Text { content: content@ },
            XmlToken::End { name } => XmlTokenView::End { name: name@ },
            XmlToken::Eof => XmlTokenView::Eof,
            XmlToken::Other => XmlTokenView::Other,
        }
    }
}

/// The input bytes that a `quick_xml` reader over a byte slice has not
/// consumed yet (the slice that the reader holds).
pub uninterp spec fn unread_input(reader: Reader<&[u8]>) -> Seq<u8>;

/// The whole input of a reader that [`xml_reader`] made.
pub uninterp spec fn reader_source(reader: Reader<&[u8]>) -> Seq<u8>;

/// How many times `read_event` has been called on a reader that
/// [`xml_reader`] made.
pub uninterp spec fn events_read(reader: Reader<&[u8]>) -> nat;

/// What the `k`-th call (counting from 0) of `Reader::read_event` gives on a
/// reader that `Reader::from_str` made over `xml`, configured with
/// `trim_text(true)`: the event, or `None` where reading fails. The slice
/// reader is deterministic: these depend on `xml` and `k` alone.
pub uninterp spec fn quick_xml_read(xml: Seq<u8>, k: nat) -> Option<XmlTokenView>;

/// `Reader::from_str`, configured with `trim_text(true)` as the templates are
/// read. The reader holds the bytes of `xml`, none of them consumed yet, and
/// no event has been read.
#[verifier::external_body]
fn xml_reader(xml: &str) -> (reader: Reader<&[u8]>)
    ensures
        unread_input(reader) == xml.spec_bytes(),
        reader_source(reader) == xml.spec_bytes(),
        events_read(reader) == 0,
{
    let mut reader = Reader::from_str(xml);
    reader.config_mut().trim_text(true);
    reader
}

/// `Reader::read_event`, the event converted to plain bytes. The result is the
/// next reading of the reader's input (see [`quick_xml_read`]). The reader
/// consumes input and never gives it back; every event other than `Eof`
/// consumes at least one byte (the slice reader advances past each tag and
/// each non-empty text).
#[verifier::external_body]
fn read_token(reader: &mut Reader<&[u8]>) -> (r: Result<XmlToken, quick_xml::Error>)
    ensures
        reader_source(*final(reader)) == reader_source(*old(reader)),
        events_read(*final(reader)) == events_read(*old(reader)) + 1,
        (match r {
            Ok(t) => quick_xml_read(reader_source(*old(reader)), events_read(*old(reader)))
                == Some(t@),
            Err(_) => quick_xml_read(reader_source(*old(reader)), events_read(*old(reader)))
                is None,
        }),
        unread_input(*final(reader)).len() <= unread_input(*old(reader)).len(),
        (match r {
            Ok(XmlToken::Eof) => true,
            Ok(_) => unread_input(*final(reader)).len() < unread_input(*old(reader)).len(),
            Err(_) => true,
        }),
{
    let token = match reader.read_event()? {
        Event::Start(e) => XmlToken::Start {
            name: e.name().as_ref().to_vec(),
            attributes: e.attributes().map(|a| a.ok().map(|a| (a.key.as_ref().to_vec(), a.value.to_vec()))).collect(),
        },
        Event::Empty(e) => XmlToken::Empty { name: e.name().as_ref().to_vec() },
        Event::Text(e) => XmlToken::Text { content: e.to_vec() },
        Event::End(e) => XmlToken::End { name: e.name().as_ref().to_vec() },
        Event::Eof => XmlToken::Eof,
        _ => XmlToken::Other,
    };
    Ok(token)
}

/// What `String::from_utf8_lossy` makes of `bytes`.
pub uninterp spec fn lossy_utf8(bytes: Seq<u8>) -> Seq<char>;

/// `String::from_utf8_lossy(..).into_owned()`: valid UTF-8 is decoded as it
/// stands (invalid sequences would become U+FFFD).
#[verifier::external_body]
pub(crate) fn utf8_lossy(bytes: &[u8]) -> (r: String)
    ensures
        r@ == lossy_utf8(bytes@),
        vstd::utf8::valid_utf8(bytes@) ==> r@ == vstd::utf8::decode_utf8(bytes@),
{
    String::from_utf8_lossy(bytes).into_owned()
}

// ---------------------------------------------------------------------------
// Events
// ---------------------------------------------------------------------------

/// An XML event as the template reader sees it.
#[derive(Clone, Debug, PartialEq, Eq)]
pub enum XmlEvent {
    /// Opening tag: its name and its well-formed attributes (key, value).
    Start { name: Vec<u8>, attributes: Vec<(Vec<u8>, Vec<u8>)> },
    /// Self-closing tag.
    Empty { name: Vec<u8> },
    /// Character data between tags (trimmed, still escaped).
    Text { content: Vec<u8> },
    /// Closing tag.
    End { name: Vec<u8> },
    /// End of input.
    Eof,
    /// Comments, declarations, CDATA and the like.
    Other,
}

pub enum XmlEventView {
    Start { name: Seq<u8>, attributes: Seq<(Seq<u8>, Seq<u8>)> },
    Empty { name: Seq<u8> },
    Text { content: Seq<u8> },
    End { name: Seq<u8> },
    Eof,
    Other,
}

/// The views of attribute pairs.
pub open spec fn attribute_views(attrs: Seq<(Vec<u8>, Vec<u8>)>) -> Seq<(Seq<u8>, Seq<u8>)> {
    attrs.map_values(|a: (Vec<u8>, Vec<u8>)| (a.0@, a.1@))
}

impl View for XmlEvent {
    type V = XmlEventView;

    open spec fn view(&self) -> XmlEventView {
        match self {
            XmlEvent::Start { name, attributes } => XmlEventView::Start {
                name: name@,
                attributes: attribute_views(attributes@),
            },
            XmlEvent::Empty { name } => XmlEventView::Empty { name: name@ },
            XmlEvent::Text { content } => XmlEventView::Text { content: content@ },
            XmlEvent::End { name } => XmlEventView::End { name: name@ },
            XmlEvent::Eof => XmlEventView::Eof,
            XmlEvent::Other => XmlEventView::Other,
        }
    }
}

/// The views of a list of events.
pub open spec fn event_views(events: Seq<XmlEvent>) -> Seq<XmlEventView> {
    events.map_values(|e: XmlEvent| e@)
}

/// `bytes` spell `word` character by character (ASCII tag and attribute names).
pub open spec fn spells(bytes: Seq<u8>, word: Seq<char>) -> bool {
    bytes.len() == word.len() && forall|i: int| 0 <= i < bytes.len() ==> bytes[i] as u32
        == #[trigger] word[i] as u32
}

/// `bytes` spell `word`.
pub fn bytes_spell(bytes: &Vec<u8>, word: &str) -> (r: bool)
    ensures
        r == spells(bytes@, word@),
{
    let w = chars_of(word);
    if bytes.len() != w.len() {
        return false;
    }
    let mut i: usize = 0;
    while i < bytes.len()
        invariant
            i <= bytes.len(),
            bytes.len() == w@.len(),
            w@ == word@,
            forall|k: int| 0 <= k < i ==> bytes@[k] as u32 == #[trigger] w@[k] as u32,
        decreases bytes.len() - i,
    {
        if bytes[i] as u32 != w[i] as u32 {
            return false;
        }
        i += 1;
    }
    true
}

/// The value of the first attribute whose key spells `key1` or `key2`.
pub open spec fn attribute_value(
    attrs: Seq<(Seq<u8>, Seq<u8>)>,
    key1: Seq<char>,
    key2: Seq<char>,
) -> Option<Seq<u8>>
    decreases attrs.len(),
{
    if attrs.len() == 0 {
        None
    } else if spells(attrs[0].0, key1) || spells(attrs[0].0, key2) {
        Some(attrs[0].1)
    } else {
        attribute_value(attrs.drop_first(), key1, key2)
    }
}

/// The value of the first attribute whose key spells `key1` or `key2`.
pub fn find_attribute(attrs: &Vec<(Vec<u8>, Vec<u8>)>, key1: &str, key2: &str) -> (r: Option<
    Vec<u8>,
>)
    ensures
        (match r {
            Some(v) => Some(v@),
            None => None,
        }) == attribute_value(attribute_views(attrs@), key1@, key2@),
{
    let ghost all = attribute_views(attrs@);
    let n = attrs.len();
    let mut i: usize = 0;
    assert(all.subrange(0, n as int) =~= all);
    while i < n
        invariant
            n == attrs@.len(),
            all == attribute_views(attrs@),
            i <= n,
            attribute_value(all.subrange(i as int, n as int), key1@, key2@) == attribute_value(
                all,
                key1@,
                key2@,
            ),
        decreases n - i,
    {
        let ghost rest = all.subrange(i as int, n as int);
        assert(rest[0] == (attrs@[i as int].0@, attrs@[i as int].1@));
        if bytes_spell(&attrs[i].0, key1) || bytes_spell(&attrs[i].0, key2) {
            return Some(attrs[i].1.clone());
        }
        assert(rest.drop_first() =~= all.subrange(i + 1, n as int));
        i += 1;
    }
    None
}

// ---------------------------------------------------------------------------
// The parser state machine
// ---------------------------------------------------------------------------

/// State of the template reader between two events.
pub struct TemplateParser {
    title: Option<String>,
    color: Option<String>,
    footer: Option<String>,
    lines: Vec<EmbedLine>,
    current_tag: Option<Vec<u8>>,
    current_line: Option<EmbedLine>,
    group_stack: Vec<(usize, bool)>,
    next_group_id: usize,
    footer_closed: bool,
}

/// The value of a [`TemplateParser`].
pub struct ParserView {
    pub title: Option<Seq<char>>,
    pub color: Option<Seq<char>>,
    pub footer: Option<Seq<char>>,
    pub lines: Seq<EmbedLineView>,
    pub current_tag: Option<Seq<u8>>,
    pub current_line: Option<EmbedLineView>,
    pub group_stack: Seq<(usize, bool)>,
    pub next_group_id: usize,
    pub footer_closed: bool,
}

/// The view of an optional byte vector.
pub open spec fn opt_bytes_view(o: Option<Vec<u8>>) -> Option<Seq<u8>> {
    match o {
        Some(v) => Some(v@),
        None => None,
    }
}

/// The view of an optional line.
pub open spec fn opt_line_view(o: Option<EmbedLine>) -> Option<EmbedLineView> {
    match o {
        Some(l) => Some(l@),
        None => None,
    }
}

impl View for TemplateParser {
    type V = ParserView;

    closed spec fn view(&self) -> ParserView {
        ParserView {
            title: opt_view(self.title),
            color: opt_view(self.color),
            footer: opt_view(self.footer),
            lines: crate::embed::line_views(self.lines@),
            current_tag: opt_bytes_view(self.current_tag),
            current_line: opt_line_view(self.current_line),
            group_stack: self.group_stack@,
            next_group_id: self.next_group_id,
            footer_closed: self.footer_closed,
        }
    }
}

/// A rejected template structure.
pub enum TemplateViolation {
    /// `<footer>` opened while a footer text is already set.
    DuplicateFooter,
    /// An element opened after `</footer>`.
    FooterMustBeLast,
}

/// The outcome of one event.
pub enum StepView {
    /// Reading goes on from this state.
    Continue(ParserView),
    /// The input ended; the template is built from this state.
    Done(ParserView),
    /// The template is rejected.
    Fail(TemplateViolation),
}

/// The state before the first event.
pub open spec fn initial_parser() -> ParserView {
    ParserView {
        title: None,
        color: None,
        footer: None,
        lines: Seq::empty(),
        current_tag: None,
        current_line: None,
        group_stack: Seq::empty(),
        next_group_id: 1,
        footer_closed: false,
    }
}

/// `tag` is `br` or `break`.
pub open spec fn is_break_tag(tag: Seq<u8>) -> bool {
    spells(tag, "br"@) || spells(tag, "break"@)
}

/// What a `<br/>` inside a text element does to the title and the current line:
/// two newlines are appended to the element being read (`title` or `line`).
pub open spec fn break_appended(
    current_tag: Option<Seq<u8>>,
    title: Option<Seq<char>>,
    current_line: Option<EmbedLineView>,
) -> (Option<Seq<char>>, Option<EmbedLineView>) {
    match current_tag {
        Some(tag) => if spells(tag, "title"@) {
            (
                Some(
                    match title {
                        Some(t) => t,
                        None => Seq::<char>::empty(),
                    } + "\n\n"@,
                ),
                current_line,
            )
        } else if spells(tag, "line"@) {
            (
                title,
                match current_line {
                    Some(l) => Some(EmbedLineView { value: l.value + "\n\n"@, ..l }),
                    None => None,
                },
            )
        } else {
            (title, current_line)
        },
        None => (title, current_line),
    }
}

/// A `<br/>` or `<break/>`: inside a text element it appends a blank line to
/// that element, between elements it adds a spacer line.
pub open spec fn on_break(s: ParserView) -> ParserView {
    if s.current_tag is Some {
        let (title, current_line) = break_appended(s.current_tag, s.title, s.current_line);
        ParserView { title, current_line, ..s }
    } else {
        ParserView { lines: s.lines.push(spacer_line_view()), ..s }
    }
}

/// Direction of a group: a row unless its `direction` attribute says `column`
/// (ASCII case ignored).
pub open spec fn group_is_row(attributes: Seq<(Seq<u8>, Seq<u8>)>) -> bool {
    match attribute_value(attributes, "direction"@, "direction"@) {
        Some(v) => ascii_lowercase(lossy_utf8(v)) != ascii_lowercase("column"@),
        None => true,
    }
}

/// The line that a `<line>` tag opens, inside the innermost open group if any.
pub open spec fn opened_line(s: ParserView, attributes: Seq<(Seq<u8>, Seq<u8>)>) -> EmbedLineView {
    let title = match attribute_value(attributes, "title"@, "name"@) {
        Some(v) => Some(lossy_utf8(v)),
        None => None,
    };
    let inline = match attribute_value(attributes, "inline"@, "inline"@) {
        Some(v) => parses_as_true(lossy_utf8(v)),
        None => false,
    };
    let (id, row) = if s.group_stack.len() > 0 {
        s.group_stack.last()
    } else {
        (0usize, false)
    };
    let group_id = if id != 0 {
        Some(id)
    } else {
        None
    };
    line_view(title, Seq::<char>::empty(), inline, row, group_id, row, false)
}

/// An opening tag.
pub open spec fn on_start(s: ParserView, name: Seq<u8>, attributes: Seq<(Seq<u8>, Seq<u8>)>) -> StepView {
    if s.footer_closed {
        StepView::Fail(TemplateViolation::FooterMustBeLast)
    } else if spells(name, "group"@) {
        StepView::Continue(
            ParserView {
                group_stack: s.group_stack.push((s.next_group_id, group_is_row(attributes))),
                next_group_id: (s.next_group_id + 1) as usize,
                ..s
            },
        )
    } else if is_break_tag(name) {
        StepView::Continue(on_break(s))
    } else {
        let s1 = if spells(name, "line"@) {
            ParserView { current_line: Some(opened_line(s, attributes)), ..s }
        } else {
            s
        };
        if spells(name, "footer"@) && s1.footer is Some {
            StepView::Fail(TemplateViolation::DuplicateFooter)
        } else {
            StepView::Continue(ParserView { current_tag: Some(name), ..s1 })
        }
    }
}

/// Character data: it extends the title or the current line, or sets the
/// colour or footer, depending on the element being read; empty text is ignored.
pub open spec fn on_text(s: ParserView, content: Seq<u8>) -> ParserView {
    let value = lossy_utf8(content);
    match s.current_tag {
        Some(tag) => if value.len() == 0 {
            s
        } else if spells(tag, "title"@) {
            ParserView {
                title: Some(
                    match s.title {
                        Some(t) => t,
                        None => Seq::<char>::empty(),
                    } + value,
                ),
                ..s
            }
        } else if spells(tag, "color"@) {
            ParserView { color: Some(value), ..s }
        } else if spells(tag, "footer"@) {
            ParserView { footer: Some(value), ..s }
        } else if spells(tag, "line"@) {
            match s.current_line {
                Some(l) => ParserView {
                    current_line: Some(EmbedLineView { value: l.value + value, ..l }),
                    ..s
                },
                None => s,
            }
        } else {
            s
        },
        None => s,
    }
}

/// A closing tag: `</group>` leaves the group, `</line>` stores the line if it
/// has text, `</footer>` closes the template body; the current element ends.
pub open spec fn on_end(s: ParserView, name: Seq<u8>) -> ParserView {
    if is_break_tag(name) {
        s
    } else {
        let s1 = if spells(name, "group"@) && s.group_stack.len() > 0 {
            ParserView { group_stack: s.group_stack.drop_last(), ..s }
        } else {
            s
        };
        let s2 = if spells(name, "line"@) {
            match s1.current_line {
                Some(l) => if l.value.len() > 0 {
                    ParserView { lines: s1.lines.push(l), current_line: None, ..s1 }
                } else {
                    ParserView { current_line: None, ..s1 }
                },
                None => s1,
            }
        } else {
            s1
        };
        let s3 = if spells(name, "footer"@) {
            ParserView { footer_closed: true, ..s2 }
        } else {
            s2
        };
        ParserView { current_tag: None, ..s3 }
    }
}

/// One step of the template reader.
pub open spec fn parser_step(s: ParserView, e: XmlEventView) -> StepView {
    match e {
        XmlEventView::Start { name, attributes } => on_start(s, name, attributes),
        XmlEventView::Empty { name } => if s.footer_closed {
            StepView::Fail(TemplateViolation::FooterMustBeLast)
        } else if is_break_tag(name) {
            StepView::Continue(on_break(s))
        } else {
            StepView::Continue(s)
        },
        XmlEventView::Text { content } => StepView::Continue(on_text(s, content)),
        XmlEventView::End { name } => StepView::Continue(on_end(s, name)),
        XmlEventView::Eof => StepView::Done(s),
        XmlEventView::Other => StepView::Continue(s),
    }
}

/// Where the reader stands after a list of events.
pub enum ScanView {
    Reading(ParserView),
    Finished(ParserView),
    Rejected(TemplateViolation),
}

/// The reader run over `events` from the initial state; events after the end
/// of input or after a rejection are not looked at.
pub open spec fn scan_events(events: Seq<XmlEventView>) -> ScanView
    decreases events.len(),
{
    if events.len() == 0 {
        ScanView::Reading(initial_parser())
    } else {
        match scan_events(events.drop_last()) {
            ScanView::Reading(s) => match parser_step(s, events.last()) {
                StepView::Continue(t) => ScanView::Reading(t),
                StepView::Done(t) => ScanView::Finished(t),
                StepView::Fail(v) => ScanView::Rejected(v),
            },
            other => other,
        }
    }
}

/// Why a template is rejected.
pub enum TemplateErrorView {
    Xml,
    InvalidColor(Seq<char>),
    DuplicateFooter,
    FooterMustBeLast,
}

/// The template that a final reader state stands for: the built-in English
/// template with the title, the lines (if any), the colour and the footer (if
/// not empty) that the XML gave.
pub open spec fn finished_template(s: ParserView) -> Result<EmbedTemplateView, TemplateErrorView> {
    let base = english_default_view();
    let color = match s.color {
        Some(c) => parsed_color(c),
        None => Some(DEFAULT_EMBED_COLOR),
    };
    match color {
        None => Err(TemplateErrorView::InvalidColor(s.color->0)),
        Some(c) => Ok(
            EmbedTemplateView {
                title: match s.title {
                    Some(t) => t,
                    None => base.title,
                },
                lines: if s.lines.len() > 0 {
                    s.lines
                } else {
                    base.lines
                },
                color: c,
                footer: match s.footer {
                    Some(f) => if f.len() > 0 {
                        Some(f)
                    } else {
                        None
                    },
                    None => None,
                },
            },
        ),
    }
}

/// The template that a list of events describes.
pub open spec fn template_from_events(events: Seq<XmlEventView>) -> Result<
    EmbedTemplateView,
    TemplateErrorView,
> {
    match scan_events(events) {
        ScanView::Reading(s) => finished_template(s),
        ScanView::Finished(s) => finished_template(s),
        ScanView::Rejected(TemplateViolation::DuplicateFooter) => Err(
            TemplateErrorView::DuplicateFooter,
        ),
        ScanView::Rejected(TemplateViolation::FooterMustBeLast) => Err(
            TemplateErrorView::FooterMustBeLast,
        ),
    }
}

/// Errors of reading an embed template.
#[derive(Debug)]
pub enum EmbedTemplateError {
    /// The XML is not well-formed.
    Xml(quick_xml::Error),
    /// The colour is no 24-bit colour.
    InvalidColor { value: String },
    /// `<footer>` appears more than once.
    DuplicateFooter,
    /// `<footer>` is not the last element.
    FooterMustBeLast,
}

impl View for EmbedTemplateError {
    type V = TemplateErrorView;

    open spec fn view(&self) -> TemplateErrorView {
        match self {
            EmbedTemplateError::Xml(_) => TemplateErrorView::Xml,
            EmbedTemplateError::InvalidColor { value } => TemplateErrorView::InvalidColor(value@),
            EmbedTemplateError::DuplicateFooter => TemplateErrorView::DuplicateFooter,
            EmbedTemplateError::FooterMustBeLast => TemplateErrorView::FooterMustBeLast,
        }
    }
}

/// The view of a template result.
pub open spec fn template_result_view(r: Result<EmbedTemplate, EmbedTemplateError>) -> Result<
    EmbedTemplateView,
    TemplateErrorView,
> {
    match r {
        Ok(t) => Ok(t@),
        Err(e) => Err(e@),
    }
}

/// Appends a blank line to the element being read: the title or the current line.
pub fn append_break(
    current_tag: &Option<Vec<u8>>,
    title: &mut Option<String>,
    current_line: &mut Option<EmbedLine>,
)
    ensures
        (opt_view(*final(title)), opt_line_view(*final(current_line))) == break_appended(
            opt_bytes_view(*current_tag),
            opt_view(*old(title)),
            opt_line_view(*old(current_line)),
        ),
{
    match current_tag {
        Some(tag) => {
            if bytes_spell(tag, "title") {
                let mut t = match title.take() {
                    Some(t) => t,
                    None => String::new(),
                };
                t.append("\n\n");
                *title = Some(t);
            } else if bytes_spell(tag, "line") {
                match current_line {
                    Some(l) => {
                        l.value.append("\n\n");
                    },
                    None => {},
                }
            }
        },
        None => {},
    }
}

impl TemplateParser {
    /// The reader before the first event.
    pub fn new() -> (r: Self)
        ensures
            r@ == initial_parser(),
    {
        let r = TemplateParser {
            title: None,
            color: None,
            footer: None,
            lines: Vec::new(),
            current_tag: None,
            current_line: None,
            group_stack: Vec::new(),
            next_group_id: 1,
            footer_closed: false,
        };
        assert(r@.lines =~= Seq::<EmbedLineView>::empty());
        r
    }

    /// Counter of groups opened so far, plus one.
    fn next_group_id(&self) -> (r: usize)
        ensures
            r == self@.next_group_id,
    {
        self.next_group_id
    }

    fn on_break_exec(&mut self)
        ensures
            final(self)@ == on_break(old(self)@),
    {
        if self.current_tag.is_some() {
            append_break(&self.current_tag, &mut self.title, &mut self.current_line);
        } else {
            self.lines.push(spacer_line());
            assert(self@.lines =~= old(self)@.lines.push(spacer_line_view()));
        }
    }

    /// Feeds one event: `Ok(false)` to go on, `Ok(true)` at the end of input,
    /// or the structural error that rejects the template.
    pub fn step(&mut self, event: &XmlEvent) -> (r: Result<bool, EmbedTemplateError>)
        requires
            old(self)@.next_group_id < usize::MAX,
        ensures
            match parser_step(old(self)@, event@) {
                StepView::Continue(s) => r == Ok::<bool, EmbedTemplateError>(false)
                    && final(self)@ == s,
                StepView::Done(s) => r == Ok::<bool, EmbedTemplateError>(true)
                    && final(self)@ == s,
                StepView::Fail(TemplateViolation::DuplicateFooter) => r matches Err(
                    EmbedTemplateError::DuplicateFooter,
                ),
                StepView::Fail(TemplateViolation::FooterMustBeLast) => r matches Err(
                    EmbedTemplateError::FooterMustBeLast,
                ),
            },
    {
        match event {
            XmlEvent::Start { name, attributes } => {
                if self.footer_closed {
                    return Err(EmbedTemplateError::FooterMustBeLast);
                }
                if bytes_spell(name, "group") {
                    let row_group = match find_attribute(attributes, "direction", "direction") {
                        Some(v) => {
                            let direction = to_ascii_lowercase(utf8_lossy(v.as_slice()).as_str());
                            !(direction == to_ascii_lowercase("column"))
                        },
                        None => true,
                    };
                    self.group_stack.push((self.next_group_id, row_group));
                    self.next_group_id = self.next_group_id + 1;
                    return Ok(false);
                }
                if bytes_spell(name, "br") || bytes_spell(name, "break") {
                    self.on_break_exec();
                    return Ok(false);
                }
                if bytes_spell(name, "line") {
                    let title = match find_attribute(attributes, "title", "name") {
                        Some(v) => Some(utf8_lossy(v.as_slice())),
                        None => None,
                    };
                    let inline = match find_attribute(attributes, "inline", "inline") {
                        Some(v) => parse_bool(utf8_lossy(v.as_slice()).as_str()),
                        None => false,
                    };
                    let (group_id, row_group) = if self.group_stack.len() > 0 {
                        self.group_stack[self.group_stack.len() - 1]
                    } else {
                        (0usize, false)
                    };
                    let group = if group_id != 0 {
                        Some(group_id)
                    } else {
                        None
                    };
                    proof {
                        reveal_strlit("");
                        assert(""@ =~= Seq::<char>::empty());
                    }
                    let opened = match &title {
                        Some(t) => line(
                            Some(t.as_str()),
                            "",
                            inline,
                            row_group,
                            group,
                            row_group,
                            false,
                        ),
                        None => line(None, "", inline, row_group, group, row_group, false),
                    };
                    self.current_line = Some(opened);
                }
                if bytes_spell(name, "footer") && self.footer.is_some() {
                    return Err(EmbedTemplateError::DuplicateFooter);
                }
                self.current_tag = Some(name.clone());
                Ok(false)
            },
            XmlEvent::Empty { name } => {
                if self.footer_closed {
                    return Err(EmbedTemplateError::FooterMustBeLast);
                }
                if bytes_spell(name, "br") || bytes_spell(name, "break") {
                    self.on_break_exec();
                }
                Ok(false)
            },
            XmlEvent::Text { content } => {
                let value = utf8_lossy(content.as_slice());
                match &self.current_tag {
                    Some(tag) => {
                        if value.as_str().is_empty() {
                        } else if bytes_spell(tag, "title") {
                            let mut t = match self.title.take() {
                                Some(t) => t,
                                None => String::new(),
                            };
                            t.append(value.as_str());
                            self.title = Some(t);
                        } else if bytes_spell(tag, "color") {
                            self.color = Some(value);
                        } else if bytes_spell(tag, "footer") {
                            self.footer = Some(value);
                        } else if bytes_spell(tag, "line") {
                            match &mut self.current_line {
                                Some(l) => {
                                    l.value.append(value.as_str());
                                },
                                None => {},
                            }
                        }
                    },
                    None => {},
                }
                Ok(false)
            },
            XmlEvent::End { name } => {
                if bytes_spell(name, "br") || bytes_spell(name, "break") {
                    return Ok(false);
                }
                if bytes_spell(name, "group") && self.group_stack.len() > 0 {
                    self.group_stack.pop();
                }
                if bytes_spell(name, "line") {
                    match self.current_line.take() {
                        Some(l) => {
                            if !l.value.as_str().is_empty() {
                                let ghost before = self@.lines;
                                self.lines.push(l);
                                assert(self@.lines =~= before.push(l@));
                            }
                        },
                        None => {},
                    }
                }
                if bytes_spell(name, "footer") {
                    self.footer_closed = true;
                }
                self.current_tag = None;
                Ok(false)
            },
            XmlEvent::Eof => Ok(true),
            XmlEvent::Other => Ok(false),
        }
    }

    /// Builds the template from the final state.
    pub fn finish(self) -> (r: Result<EmbedTemplate, EmbedTemplateError>)
        ensures
            template_result_view(r) == finished_template(self@),
    {
        let mut template = EmbedTemplate::default_template();
        match self.title {
            Some(t) => {
                template.title = t;
            },
            None => {},
        }
        if self.lines.len() > 0 {
            template.lines = self.lines;
        }
        match self.color {
            Some(c) => match parse_color(c.as_str()) {
                Some(color) => {
                    template.color = color;
                },
                None => {
                    return Err(EmbedTemplateError::InvalidColor { value: c });
                },
            },
            None => {},
        }
        match self.footer {
            Some(f) => {
                if !f.as_str().is_empty() {
                    template.footer = Some(f);
                }
            },
            None => {},
        }
        Ok(template)
    }
}


// ---------------------------------------------------------------------------
// Running the reader
// ---------------------------------------------------------------------------

/// The attributes of `attrs` that are well-formed, in order.
pub open spec fn present_attributes(attrs: Seq<Option<(Seq<u8>, Seq<u8>)>>) -> Seq<(Seq<u8>, Seq<u8>)>
    decreases attrs.len(),
{
    if attrs.len() == 0 {
        Seq::empty()
    } else {
        match attrs.last() {
            Some(a) => present_attributes(attrs.drop_last()).push(a),
            None => present_attributes(attrs.drop_last()),
        }
    }
}

/// The event that the template reader sees for what `quick_xml` handed out:
/// malformed attributes are left out.
pub open spec fn token_event(t: XmlTokenView) -> XmlEventView {
    match t {
        XmlTokenView::Start { name, attributes } => XmlEventView::Start {
            name,
            attributes: present_attributes(attributes),
        },
        XmlTokenView::Empty { name } => XmlEventView::Empty { name },
        XmlTokenView::Text { content } => XmlEventView::Text { content },
        XmlTokenView::End { name } => XmlEventView::End { name },
        XmlTokenView::Eof => XmlEventView::Eof,
        XmlTokenView::Other => XmlEventView::Other,
    }
}

/// Drops the attributes that `quick_xml` reported as malformed.
fn well_formed_attributes(attrs: Vec<Option<(Vec<u8>, Vec<u8>)>>) -> (r: Vec<(Vec<u8>, Vec<u8>)>)
    ensures
        attribute_views(r@) == present_attributes(opt_attribute_views(attrs@)),
{
    let mut out: Vec<(Vec<u8>, Vec<u8>)> = Vec::new();
    let mut i: usize = 0;
    while i < attrs.len()
        invariant
            i <= attrs.len(),
            attribute_views(out@) == present_attributes(opt_attribute_views(attrs@.take(i as int))),
        decreases attrs.len() - i,
    {
        let ghost prev_out = out@;
        let ghost next = opt_attribute_views(attrs@.take(i + 1));
        assert(next.drop_last() =~= opt_attribute_views(attrs@.take(i as int)));
        assert(next.last() == opt_attribute_views(attrs@)[i as int]);
        match &attrs[i] {
            Some(a) => {
                let key = a.0.clone();
                let value = a.1.clone();
                out.push((key, value));
                assert(attribute_views(out@) =~= attribute_views(prev_out).push((a.0@, a.1@)));
            },
            None => {},
        }
        i += 1;
    }
    assert(attrs@.take(attrs.len() as int) =~= attrs@);
    out
}

/// The event that the template reader sees for a token (see [`token_event`]).
fn plain_event(token: XmlToken) -> (e: XmlEvent)
    ensures
        e@ == token_event(token@),
{
    match token {
        XmlToken::Start { name, attributes } => XmlEvent::Start {
            name,
            attributes: well_formed_attributes(attributes),
        },
        XmlToken::Empty { name } => XmlEvent::Empty { name },
        XmlToken::Text { content } => XmlEvent::Text { content },
        XmlToken::End { name } => XmlEvent::End { name },
        XmlToken::Eof => XmlEvent::Eof,
        XmlToken::Other => XmlEvent::Other,
    }
}

/// The error of a rejected template structure.
pub open spec fn rejection(v: TemplateViolation) -> Result<EmbedTemplateView, TemplateErrorView> {
    match v {
        TemplateViolation::DuplicateFooter => Err(TemplateErrorView::DuplicateFooter),
        TemplateViolation::FooterMustBeLast => Err(TemplateErrorView::FooterMustBeLast),
    }
}

/// Reading `xml` from its `k`-th event on, the template reader being in state
/// `s`: each event goes to the reader until the input ends, the reader
/// rejects the template, or `quick_xml` fails. Every event but the last one
/// consumes at least one byte, so reading `xml` from its start ends within
/// `xml.len() + 1` events and never reaches the first branch.
pub open spec fn template_outcome(xml: Seq<u8>, k: nat, s: ParserView) -> Result<
    EmbedTemplateView,
    TemplateErrorView,
>
    decreases xml.len() + 1 - k,
{
    if k > xml.len() {
        Err(TemplateErrorView::Xml)
    } else {
        match quick_xml_read(xml, k) {
            None => Err(TemplateErrorView::Xml),
            Some(t) => match parser_step(s, token_event(t)) {
                StepView::Continue(next) => template_outcome(xml, k + 1, next),
                StepView::Done(last) => finished_template(last),
                StepView::Fail(v) => rejection(v),
            },
        }
    }
}

/// A step opens at most one group.
proof fn lemma_step_group_bound(s: ParserView, e: XmlEventView)
    ensures
        parser_step(s, e) matches StepView::Continue(t) ==> t.next_group_id <= s.next_group_id + 1,
{
}

/// Once the reader has finished or rejected, later events change nothing.
proof fn lemma_scan_settled(events: Seq<XmlEventView>, k: int)
    requires
        0 <= k <= events.len(),
        !(scan_events(events.take(k)) is Reading),
    ensures
        scan_events(events) == scan_events(events.take(k)),
    decreases events.len() - k,
{
    if k < events.len() {
        let next = events.take(k + 1);
        assert(next.drop_last() =~= events.take(k));
        lemma_scan_settled(events, k + 1);
    } else {
        assert(events.take(k) =~= events);
    }
}

/// Scanning one more event.
proof fn lemma_scan_push(events: Seq<XmlEventView>, i: int)
    requires
        0 <= i < events.len(),
    ensures
        scan_events(events.take(i + 1)) == (match scan_events(events.take(i)) {
            ScanView::Reading(s) => match parser_step(s, events[i]) {
                StepView::Continue(t) => ScanView::Reading(t),
                StepView::Done(t) => ScanView::Finished(t),
                StepView::Fail(v) => ScanView::Rejected(v),
            },
            other => other,
        }),
{
    let next = events.take(i + 1);
    assert(next.drop_last() =~= events.take(i));
    assert(next.last() == events[i]);
}

/// A template result that is not a rejected XML step matches the error view.
proof fn lemma_violation_result(r: Result<EmbedTemplate, EmbedTemplateError>, v: TemplateViolation)
    requires
        (v is DuplicateFooter ==> r matches Err(EmbedTemplateError::DuplicateFooter)),
        (v is FooterMustBeLast ==> r matches Err(EmbedTemplateError::FooterMustBeLast)),
    ensures
        template_result_view(r) == rejection(v),
{
}

impl EmbedTemplate {
    /// The template that a list of XML events describes (see
    /// [`template_from_events`]); reading stops at the first `Eof`.
    pub fn from_events(events: &Vec<XmlEvent>) -> (r: Result<EmbedTemplate, EmbedTemplateError>)
        requires
            events@.len() < usize::MAX,
        ensures
            template_result_view(r) == template_from_events(event_views(events@)),
    {
        let ghost evs = event_views(events@);
        let mut parser = TemplateParser::new();
        let mut i: usize = 0;
        assert(evs.take(0) =~= Seq::<XmlEventView>::empty());
        while i < events.len()
            invariant
                i <= events@.len() < usize::MAX,
                evs == event_views(events@),
                scan_events(evs.take(i as int)) == ScanView::Reading(parser@),
                parser@.next_group_id <= i + 1,
            decreases events.len() - i,
        {
            let ghost before = parser@;
            proof {
                lemma_scan_push(evs, i as int);
                lemma_step_group_bound(before, evs[i as int]);
                assert(evs[i as int] == events@[i as int]@);
            }
            match parser.step(&events[i]) {
                Ok(done) => {
                    if done {
                        proof {
                            lemma_scan_settled(evs, i + 1);
                        }
                        return parser.finish();
                    }
                },
                Err(e) => {
                    proof {
                        lemma_scan_settled(evs, i + 1);
                        let v = parser_step(before, evs[i as int])->Fail_0;
                        lemma_violation_result(Err(e), v);
                    }
                    return Err(e);
                },
            }
            i += 1;
        }
        assert(evs.take(events@.len() as int) =~= evs);
        parser.finish()
    }

    /// Parses an XML template.
    ///
    /// The expected structure is:
    /// - one `<embed>` root
    /// - one optional `<title>` element
    /// - one optional `<color>` element (`#RRGGBB`, `0xRRGGBB`, or decimal)
    /// - zero or more `<line title="..." inline="...">value</line>` elements
    /// - zero or more `<group direction="row|column">...</group>` containers with `<line>` children
    /// - one optional `<footer>` element, only once and as the final embed element
    /// - `<br/>` or `<break/>` in textual fields to insert an empty newline
    ///
    /// The result is the template that reading `xml` with `quick_xml` gives
    /// (see [`template_outcome`]): the XML error that stops the reading, the
    /// rejection of a misplaced footer, or the template built at the end of
    /// the input.
    pub fn from_xml(xml: &str) -> (r: Result<EmbedTemplate, EmbedTemplateError>)
        requires
            xml.spec_bytes().len() < usize::MAX,
        ensures
            template_result_view(r) == template_outcome(xml.spec_bytes(), 0, initial_parser()),
    {
        let mut reader = xml_reader(xml);
        let mut parser = TemplateParser::new();
        let ghost input = xml.spec_bytes();
        let ghost total = input.len();
        loop
            invariant
                input == xml.spec_bytes(),
                total == input.len() < usize::MAX,
                reader_source(reader) == input,
                events_read(reader) + unread_input(reader).len() <= total,
                template_outcome(input, events_read(reader), parser@) == template_outcome(
                    input,
                    0,
                    initial_parser(),
                ),
                parser@.next_group_id + unread_input(reader).len() <= total + 1,
            decreases unread_input(reader).len(),
        {
            let ghost k = events_read(reader);
            let ghost before = parser@;
            let token = match read_token(&mut reader) {
                Ok(token) => token,
                Err(e) => {
                    assert(template_outcome(input, k, before) == Err::<
                        EmbedTemplateView,
                        TemplateErrorView,
                    >(TemplateErrorView::Xml));
                    return Err(EmbedTemplateError::Xml(e));
                },
            };
            let event = plain_event(token);
            if event.is_eof() {
                return parser.finish();
            }
            proof {
                lemma_step_group_bound(before, event@);
            }
            match parser.step(&event) {
                Ok(done) => {
                    if done {
                        return parser.finish();
                    }
                },
                Err(e) => {
                    proof {
                        let v = parser_step(before, event@)->Fail_0;
                        lemma_violation_result(Err(e), v);
                    }
                    return Err(e);
                },
            }
        }
    }
}

impl XmlEvent {
    /// Whether this is the end of input.
    pub fn is_eof(&self) -> (r: bool)
        ensures
            r == (self is Eof),
    {
        match self {
            XmlEvent::Eof => true,
            _ => false,
        }
    }
}


// ---------------------------------------------------------------------------
// Laws
// ---------------------------------------------------------------------------

/// Every accepted template has a 24-bit colour and at least one line.
pub proof fn lemma_accepted_template_well_formed(events: Seq<XmlEventView>)
    ensures
        template_from_events(events) matches Ok(t) ==> t.color <= crate::embed::MAX_EMBED_COLOR
            && t.lines.len() > 0,
{
}

/// Every template read from XML has a 24-bit colour and at least one line.
pub proof fn lemma_read_template_well_formed(xml: Seq<u8>, k: nat, s: ParserView)
    ensures
        template_outcome(xml, k, s) matches Ok(t) ==> t.color <= crate::embed::MAX_EMBED_COLOR
            && t.lines.len() > 0,
    decreases xml.len() + 1 - k,
{
    if k <= xml.len() {
        if let Some(t) = quick_xml_read(xml, k) {
            if let StepView::Continue(next) = parser_step(s, token_event(t)) {
                lemma_read_template_well_formed(xml, k + 1, next);
            }
        }
    }
}

/// `<footer>` must be the last element: once `</footer>` has been read, any
/// opening or self-closing tag rejects the template.
pub proof fn lemma_footer_must_be_last(s: ParserView, e: XmlEventView)
    requires
        s.footer_closed,
        e is Start || e is Empty,
    ensures
        parser_step(s, e) == StepView::Fail(TemplateViolation::FooterMustBeLast),
{
}

/// `<footer>` may appear at most once: opening it again while a footer text
/// is set rejects the template.
pub proof fn lemma_footer_at_most_once(
    s: ParserView,
    name: Seq<u8>,
    attributes: Seq<(Seq<u8>, Seq<u8>)>,
)
    requires
        s.footer is Some,
        spells(name, "footer"@),
    ensures
        parser_step(s, XmlEventView::Start { name, attributes }) is Fail,
{
    reveal_strlit("footer");
    reveal_strlit("group");
    reveal_strlit("br");
    reveal_strlit("break");
    reveal_strlit("line");
    assert(!spells(name, "group"@)) by {
        assert(name.len() == 6);
    }
    assert(!spells(name, "br"@));
    assert(!spells(name, "break"@));
    assert(!spells(name, "line"@));
}

/// Once the reader has finished, later events change nothing: a template is
/// read up to the first end of input.
pub proof fn lemma_events_after_end_ignored(events: Seq<XmlEventView>, more: Seq<XmlEventView>)
    requires
        scan_events(events) is Finished,
    ensures
        template_from_events(events + more) == template_from_events(events),
{
    let all = events + more;
    assert(all.take(events.len() as int) =~= events);
    lemma_scan_settled(all, events.len() as int);
}

} // verus!
