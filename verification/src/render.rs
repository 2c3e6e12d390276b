//! Rendering a ban announcement from the embed template: placeholder
//! substitution, the compact description blocks and the embed fields.

use vstd::prelude::*;

use crate::embed::{
    default_template_view, english_default_view, opt_view, templates_eq, zero_width_space,
    EmbedLine, EmbedLineView, EmbedTemplate, EmbedTemplateView,
};
use crate::i18n::{english_no_reason, is_built_in_english, resolve_translations};
use crate::text::{
    decimal, decimal_digits, i64_to_decimal, is_blank, matches_at, join, join_with, replace, replace_all, str_is_blank, trim,
    trimmed, views,
};
use crate::time::{
    chrono_representable, placeholders_at, resolve_time_placeholders, TimePlaceholders,
    TimePlaceholdersView,
};

verus! {

/// One ban as loaded from the bans table.
#[derive(Clone, Debug)]
pub struct BanRecord {
    pub id: i32,
    pub intruder: String,
    pub admin: String,
    pub kind: String,
    pub round_id: i32,
    pub server: String,
    pub created_at: String,
    pub duration_end: String,
    pub reason: String,
}

/// The value of a [`BanRecord`].
pub struct BanRecordView {
    pub id: i32,
    pub intruder: Seq<char>,
    pub admin: Seq<char>,
    pub kind: Seq<char>,
    pub round_id: i32,
    pub server: Seq<char>,
    pub created_at: Seq<char>,
    pub duration_end: Seq<char>,
    pub reason: Seq<char>,
}

impl View for BanRecord {
    type V = BanRecordView;

    open spec fn view(&self) -> BanRecordView {
        BanRecordView {
            id: self.id,
            intruder: self.intruder@,
            admin: self.admin@,
            kind: self.kind@,
            round_id: self.round_id,
            server: self.server@,
            created_at: self.created_at@,
            duration_end: self.duration_end@,
            reason: self.reason@,
        }
    }
}

/// The reason of a ban, or the "no reason" text when it is empty.
pub open spec fn reason_text(ban: BanRecordView, no_reason: Seq<char>) -> Seq<char> {
    if ban.reason.len() == 0 {
        no_reason
    } else {
        ban.reason
    }
}

/// Returns a localized fallback when the ban reason is not set.
pub fn reason_display(ban: &BanRecord, no_reason_text: &str) -> (r: String)
    ensures
        r@ == reason_text(ban@, no_reason_text@),
{
    if ban.reason.as_str().is_empty() {
        no_reason_text.to_owned()
    } else {
        ban.reason.clone()
    }
}

/// A template text with its placeholders filled in, one placeholder after the
/// other in this order, and each literal `\n` (backslash, n) turned into a newline.
pub open spec fn render_text(
    template: Seq<char>,
    ban: BanRecordView,
    no_reason: Seq<char>,
    tp: TimePlaceholdersView,
) -> Seq<char> {
    let s = replace_all(template, "{id}"@, decimal(ban.id as int));
    let s = replace_all(s, "{intruder}"@, ban.intruder);
    let s = replace_all(s, "{admin}"@, ban.admin);
    let s = replace_all(s, "{type}"@, ban.kind);
    let s = replace_all(s, "{round_id}"@, decimal(ban.round_id as int));
    let s = replace_all(s, "{server}"@, ban.server);
    let s = replace_all(s, "{created_at}"@, ban.created_at);
    let s = replace_all(s, "{duration_end}"@, ban.duration_end);
    let s = replace_all(s, "{date}"@, tp.date);
    let s = replace_all(s, "{time}"@, tp.time);
    let s = replace_all(s, "{date_time}"@, tp.date_time);
    let s = replace_all(s, "{time_left}"@, tp.time_left);
    let s = replace_all(s, "{reason}"@, ban.reason);
    let s = replace_all(s, "{reason_display}"@, reason_text(ban, no_reason));
    replace_all(s, "\\n"@, "\n"@)
}

fn fill(s: String, pat: &str, rep: &str) -> (r: String)
    requires
        pat@.len() > 0,
    ensures
        r@ == replace_all(s@, pat@, rep@),
{
    replace(s.as_str(), pat, rep)
}

/// Expands a template fragment by replacing known `{field}` placeholders.
pub fn render_template_text(
    template: &str,
    ban: &BanRecord,
    no_reason_text: &str,
    time_placeholders: &TimePlaceholders,
) -> (r: String)
    ensures
        r@ == render_text(template@, ban@, no_reason_text@, time_placeholders@),
{
    proof {
        reveal_strlit("{id}");
        reveal_strlit("{intruder}");
        reveal_strlit("{admin}");
        reveal_strlit("{type}");
        reveal_strlit("{round_id}");
        reveal_strlit("{server}");
        reveal_strlit("{created_at}");
        reveal_strlit("{duration_end}");
        reveal_strlit("{date}");
        reveal_strlit("{time}");
        reveal_strlit("{date_time}");
        reveal_strlit("{time_left}");
        reveal_strlit("{reason}");
        reveal_strlit("{reason_display}");
        reveal_strlit("\\n");
    }
    let id = i64_to_decimal(ban.id as i64);
    let round_id = i64_to_decimal(ban.round_id as i64);
    let reason = reason_display(ban, no_reason_text);
    let s = replace(template, "{id}", id.as_str());
    let s = fill(s, "{intruder}", ban.intruder.as_str());
    let s = fill(s, "{admin}", ban.admin.as_str());
    let s = fill(s, "{type}", ban.kind.as_str());
    let s = fill(s, "{round_id}", round_id.as_str());
    let s = fill(s, "{server}", ban.server.as_str());
    let s = fill(s, "{created_at}", ban.created_at.as_str());
    let s = fill(s, "{duration_end}", ban.duration_end.as_str());
    let s = fill(s, "{date}", time_placeholders.date.as_str());
    let s = fill(s, "{time}", time_placeholders.time.as_str());
    let s = fill(s, "{date_time}", time_placeholders.date_time.as_str());
    let s = fill(s, "{time_left}", time_placeholders.time_left.as_str());
    let s = fill(s, "{reason}", ban.reason.as_str());
    let s = fill(s, "{reason_display}", reason.as_str());
    fill(s, "\\n", "\n")
}

/// A title in bold in front of a value, or the value alone when the title is blank.
pub open spec fn bold_title_inline(title: Seq<char>, value: Seq<char>) -> Seq<char> {
    if is_blank(title) {
        value
    } else {
        "**"@ + trimmed(title) + "** "@ + value
    }
}

/// Puts a bold title in front of a value on the same line.
pub fn inline_text_with_bold_title(title: &str, value: &str) -> (r: String)
    ensures
        r@ == bold_title_inline(title@, value@),
{
    if str_is_blank(title) {
        return value.to_owned();
    }
    let mut out = "**".to_owned();
    out.append(trim(title));
    out.append("** ");
    out.append(value);
    out
}

/// The rendered title of a line; empty when it has none.
pub open spec fn rendered_title(
    line: EmbedLineView,
    ban: BanRecordView,
    no_reason: Seq<char>,
    tp: TimePlaceholdersView,
) -> Seq<char> {
    match line.title {
        Some(t) => render_text(t, ban, no_reason, tp),
        None => Seq::<char>::empty(),
    }
}

/// A line rendered as an embed field: name and value.
pub open spec fn field_text(
    line: EmbedLineView,
    ban: BanRecordView,
    no_reason: Seq<char>,
    tp: TimePlaceholdersView,
) -> (Seq<char>, Seq<char>) {
    let title = rendered_title(line, ban, no_reason, tp);
    let value = render_text(line.value, ban, no_reason, tp);
    if line.inline {
        (zero_width_space(), bold_title_inline(title, value))
    } else if is_blank(title) {
        (zero_width_space(), value)
    } else {
        (title, value)
    }
}

/// A line rendered as text of the description.
pub open spec fn compact_text(
    line: EmbedLineView,
    ban: BanRecordView,
    no_reason: Seq<char>,
    tp: TimePlaceholdersView,
) -> Seq<char> {
    let title = rendered_title(line, ban, no_reason, tp);
    let value = render_text(line.value, ban, no_reason, tp);
    if line.inline {
        bold_title_inline(title, value)
    } else if is_blank(title) {
        value
    } else {
        "**"@ + trimmed(title) + "**\n"@ + value
    }
}

fn render_title(
    line: &EmbedLine,
    ban: &BanRecord,
    no_reason: &str,
    time_placeholders: &TimePlaceholders,
) -> (r: String)
    ensures
        r@ == rendered_title(line@, ban@, no_reason@, time_placeholders@),
{
    match &line.title {
        Some(t) => render_template_text(t.as_str(), ban, no_reason, time_placeholders),
        None => String::new(),
    }
}

/// Renders a line as an embed field (name, value).
pub fn render_line_as_field(
    line: &EmbedLine,
    ban: &BanRecord,
    no_reason: &str,
    time_placeholders: &TimePlaceholders,
) -> (r: (String, String))
    ensures
        (r.0@, r.1@) == field_text(line@, ban@, no_reason@, time_placeholders@),
{
    let rendered_title = render_title(line, ban, no_reason, time_placeholders);
    let rendered_value = render_template_text(
        line.value.as_str(),
        ban,
        no_reason,
        time_placeholders,
    );
    proof {
        reveal_strlit("\u{200B}");
        assert("\u{200B}"@ =~= zero_width_space());
    }
    if line.inline {
        return (
            "\u{200B}".to_owned(),
            inline_text_with_bold_title(rendered_title.as_str(), rendered_value.as_str()),
        );
    }
    let field_name = if str_is_blank(rendered_title.as_str()) {
        "\u{200B}".to_owned()
    } else {
        rendered_title
    };
    (field_name, rendered_value)
}

/// Renders a line as a block of the description.
pub fn render_line_for_compact_group(
    line: &EmbedLine,
    ban: &BanRecord,
    no_reason: &str,
    time_placeholders: &TimePlaceholders,
) -> (r: String)
    ensures
        r@ == compact_text(line@, ban@, no_reason@, time_placeholders@),
{
    let rendered_title = render_title(line, ban, no_reason, time_placeholders);
    let rendered_value = render_template_text(
        line.value.as_str(),
        ban,
        no_reason,
        time_placeholders,
    );
    if line.inline {
        return inline_text_with_bold_title(rendered_title.as_str(), rendered_value.as_str());
    }
    if str_is_blank(rendered_title.as_str()) {
        return rendered_value;
    }
    let mut out = "**".to_owned();
    out.append(trim(rendered_title.as_str()));
    out.append("**\n");
    out.append(rendered_value.as_str());
    out
}


/// A field of the announcement embed.
#[derive(Clone, Debug, PartialEq, Eq)]
pub struct EmbedField {
    pub name: String,
    pub value: String,
    pub inline: bool,
}

/// The value of an [`EmbedField`].
pub struct EmbedFieldView {
    pub name: Seq<char>,
    pub value: Seq<char>,
    pub inline: bool,
}

impl View for EmbedField {
    type V = EmbedFieldView;

    open spec fn view(&self) -> EmbedFieldView {
        EmbedFieldView { name: self.name@, value: self.value@, inline: self.inline }
    }
}

/// The views of a list of fields.
pub open spec fn field_views(fields: Seq<EmbedField>) -> Seq<EmbedFieldView> {
    fields.map_values(|f: EmbedField| f@)
}

/// The announcement as Discord shows it: title, colour, description, fields, footer.
#[derive(Clone, Debug, PartialEq, Eq)]
pub struct BanEmbed {
    pub title: String,
    pub color: u32,
    pub description: Option<String>,
    pub fields: Vec<EmbedField>,
    pub footer: Option<String>,
}

/// The value of a [`BanEmbed`].
pub struct BanEmbedView {
    pub title: Seq<char>,
    pub color: u32,
    pub description: Option<Seq<char>>,
    pub fields: Seq<EmbedFieldView>,
    pub footer: Option<Seq<char>>,
}

impl View for BanEmbed {
    type V = BanEmbedView;

    open spec fn view(&self) -> BanEmbedView {
        BanEmbedView {
            title: self.title@,
            color: self.color,
            description: opt_view(self.description),
            fields: field_views(self.fields@),
            footer: opt_view(self.footer),
        }
    }
}

/// The first position at or after `i` whose line is not in group `g`.
pub open spec fn group_end(lines: Seq<EmbedLineView>, i: int, g: usize) -> int
    decreases lines.len() - i,
{
    if i < 0 || i >= lines.len() || lines[i].group_id != Some(g) {
        i
    } else {
        group_end(lines, i + 1, g)
    }
}

/// A run of group members ends within the lines, and after its first member.
pub proof fn lemma_group_end_bounds(lines: Seq<EmbedLineView>, i: int, g: usize)
    requires
        0 <= i <= lines.len(),
    ensures
        i <= group_end(lines, i, g) <= lines.len(),
        (i < lines.len() && lines[i].group_id == Some(g)) ==> i < group_end(lines, i, g),
    decreases lines.len() - i,
{
    if i < lines.len() && lines[i].group_id == Some(g) {
        lemma_group_end_bounds(lines, i + 1, g);
    }
}

/// The description texts of the lines `from..to`.
pub open spec fn compact_run(
    lines: Seq<EmbedLineView>,
    from: int,
    to: int,
    ban: BanRecordView,
    no_reason: Seq<char>,
    tp: TimePlaceholdersView,
) -> Seq<Seq<char>>
    decreases to - from,
{
    if to <= from {
        Seq::empty()
    } else {
        compact_run(lines, from, to - 1, ban, no_reason, tp).push(
            compact_text(lines[to - 1], ban, no_reason, tp),
        )
    }
}

/// The description blocks and the fields that the lines from `i` on make.
pub struct LayoutView {
    pub blocks: Seq<Seq<char>>,
    pub fields: Seq<EmbedFieldView>,
}

/// A block in front of a layout.
pub open spec fn with_block(block: Seq<char>, rest: LayoutView) -> LayoutView {
    LayoutView { blocks: seq![block] + rest.blocks, fields: rest.fields }
}

/// A field in front of a layout.
pub open spec fn with_field(field: EmbedFieldView, rest: LayoutView) -> LayoutView {
    LayoutView { blocks: rest.blocks, fields: seq![field] + rest.fields }
}

/// How the lines from `i` on are laid out: a spacer is an empty description
/// block; a run of lines of one row group is one block, the lines one per
/// row; an inline line, and a line outside groups without a title, is a
/// block of its own; any other line is an embed field.
pub open spec fn layout(
    lines: Seq<EmbedLineView>,
    i: int,
    ban: BanRecordView,
    no_reason: Seq<char>,
    tp: TimePlaceholdersView,
) -> LayoutView
    decreases lines.len() - i,
{
    if i < 0 || i >= lines.len() {
        LayoutView { blocks: Seq::empty(), fields: Seq::empty() }
    } else {
        let line = lines[i];
        if line.spacer {
            with_block(Seq::<char>::empty(), layout(lines, i + 1, ban, no_reason, tp))
        } else if line.row_group && line.group_id is Some {
            let g = line.group_id->0;
            let end = group_end(lines, i, g);
            proof {
                lemma_group_end_bounds(lines, i, g);
            }
            with_block(
                join(compact_run(lines, i, end, ban, no_reason, tp), "\n"@),
                layout(lines, end, ban, no_reason, tp),
            )
        } else if line.inline || (line.group_id is None && (line.title is None
            || line.title->0.len() == 0)) {
            with_block(
                compact_text(line, ban, no_reason, tp),
                layout(lines, i + 1, ban, no_reason, tp),
            )
        } else {
            let (name, value) = field_text(line, ban, no_reason, tp);
            with_field(
                EmbedFieldView { name, value, inline: line.field_inline },
                layout(lines, i + 1, ban, no_reason, tp),
            )
        }
    }
}

/// The announcement of `ban` built from `template` with the time placeholders
/// `tp`: the rendered title, the template colour, the description blocks
/// joined by newlines (absent when there are none), the fields, and the
/// rendered footer unless it is blank.
pub open spec fn ban_embed_view(
    template: EmbedTemplateView,
    ban: BanRecordView,
    tp: TimePlaceholdersView,
) -> BanEmbedView {
    let no_reason = english_no_reason();
    let l = layout(template.lines, 0, ban, no_reason, tp);
    BanEmbedView {
        title: render_text(template.title, ban, no_reason, tp),
        color: template.color,
        description: if l.blocks.len() > 0 {
            Some(join(l.blocks, "\n"@))
        } else {
            None
        },
        fields: l.fields,
        footer: match template.footer {
            Some(f) => if is_blank(render_text(f, ban, no_reason, tp)) {
                None
            } else {
                Some(render_text(f, ban, no_reason, tp))
            },
            None => None,
        },
    }
}

proof fn lemma_english_default(t: crate::i18n::Translations)
    requires
        is_built_in_english(t),
    ensures
        default_template_view(t) == english_default_view(),
{
    assert(default_template_view(t).lines =~= english_default_view().lines);
}

/// Lays out the lines of a template into description blocks and fields.
fn layout_lines(
    lines: &Vec<EmbedLine>,
    ban: &BanRecord,
    no_reason: &str,
    tp: &TimePlaceholders,
) -> (r: (Vec<String>, Vec<EmbedField>))
    ensures
        views(r.0@) == layout(crate::embed::line_views(lines@), 0, ban@, no_reason@, tp@).blocks,
        field_views(r.1@) == layout(crate::embed::line_views(lines@), 0, ban@, no_reason@, tp@).fields,
{
    let ghost ls = crate::embed::line_views(lines@);
    let ghost whole = layout(ls, 0, ban@, no_reason@, tp@);
    let mut blocks: Vec<String> = Vec::new();
    let mut fields: Vec<EmbedField> = Vec::new();
    let mut idx: usize = 0;
    let n = lines.len();
    assert(views(blocks@) + whole.blocks =~= whole.blocks);
    assert(field_views(fields@) + whole.fields =~= whole.fields);
    while idx < n
        invariant
            n == lines@.len(),
            ls == crate::embed::line_views(lines@),
            whole == layout(ls, 0, ban@, no_reason@, tp@),
            idx <= n,
            views(blocks@) + layout(ls, idx as int, ban@, no_reason@, tp@).blocks == whole.blocks,
            field_views(fields@) + layout(ls, idx as int, ban@, no_reason@, tp@).fields
                == whole.fields,
        decreases n - idx,
    {
        let line = &lines[idx];
        let ghost rest_here = layout(ls, idx as int, ban@, no_reason@, tp@);
        assert(ls[idx as int] == line@);
        let ghost before_blocks = views(blocks@);
        let ghost before_fields = field_views(fields@);
        if line.spacer {
            blocks.push(String::new());
            let ghost next = layout(ls, idx + 1, ban@, no_reason@, tp@);
            assert(views(blocks@) =~= before_blocks.push(Seq::<char>::empty()));
            assert(views(blocks@) + next.blocks =~= before_blocks + rest_here.blocks);
            idx += 1;
            continue;
        }
        if line.row_group && line.group_id.is_some() {
            let group_id = match line.group_id {
                Some(g) => g,
                None => 0,
            };
            let start = idx;
            let mut group_lines: Vec<String> = Vec::new();
            proof {
                lemma_group_end_bounds(ls, start as int, group_id);
            }
            while idx < n
                invariant
                    n == lines@.len(),
                    ls == crate::embed::line_views(lines@),
                    start <= idx <= n,
                    start < n,
                    ls[start as int].group_id == Some(group_id),
                    group_end(ls, start as int, group_id) == group_end(ls, idx as int, group_id),
                    views(group_lines@) == compact_run(
                        ls,
                        start as int,
                        idx as int,
                        ban@,
                        no_reason@,
                        tp@,
                    ),
                ensures
                    idx == n || ls[idx as int].group_id != Some(group_id),
                decreases n - idx,
            {
                let next = &lines[idx];
                assert(ls[idx as int] == next@);
                if next.group_id != Some(group_id) {
                    break;
                }
                let ghost before = views(group_lines@);
                group_lines.push(render_line_for_compact_group(next, ban, no_reason, tp));
                assert(views(group_lines@) =~= before.push(
                    compact_text(ls[idx as int], ban@, no_reason@, tp@),
                ));
                idx += 1;
            }
            proof {
                lemma_group_end_bounds(ls, idx as int, group_id);
                assert(group_end(ls, idx as int, group_id) == idx);
            }
            let block = join_with(&group_lines, "\n");
            blocks.push(block);
            let ghost next = layout(ls, idx as int, ban@, no_reason@, tp@);
            assert(views(blocks@) =~= before_blocks.push(block@));
            assert(views(blocks@) + next.blocks =~= before_blocks + rest_here.blocks);
            continue;
        }
        let untitled = match &line.title {
            Some(t) => t.as_str().is_empty(),
            None => true,
        };
        if line.inline || (line.group_id.is_none() && untitled) {
            let block = render_line_for_compact_group(line, ban, no_reason, tp);
            blocks.push(block);
            let ghost next = layout(ls, idx + 1, ban@, no_reason@, tp@);
            assert(views(blocks@) =~= before_blocks.push(block@));
            assert(views(blocks@) + next.blocks =~= before_blocks + rest_here.blocks);
            idx += 1;
            continue;
        }
        let (field_name, field_value) = render_line_as_field(line, ban, no_reason, tp);
        let field = EmbedField { name: field_name, value: field_value, inline: line.field_inline };
        fields.push(field);
        let ghost next = layout(ls, idx + 1, ban@, no_reason@, tp@);
        assert(field_views(fields@) =~= before_fields.push(field@));
        assert(field_views(fields@) + next.fields =~= before_fields + rest_here.fields);
        idx += 1;
    }
    assert(views(blocks@) =~= whole.blocks);
    assert(field_views(fields@) =~= whole.fields);
    (blocks, fields)
}

/// Formats the announcement of `ban` with the given time placeholders (see
/// [`ban_embed_view`]). Only English is built in, so the locales pick the
/// English texts whatever they are.
pub fn format_ban_embed_with_times(
    template: &EmbedTemplate,
    ban: &BanRecord,
    channel_locale: Option<&str>,
    user_locale: Option<&str>,
    guild_locale: Option<&str>,
    time_placeholders: &TimePlaceholders,
) -> (r: BanEmbed)
    ensures
        r@ == ban_embed_view(template@, ban@, time_placeholders@),
        r.color == template.color,
{
    let preferred = match channel_locale {
        Some(l) => Some(l),
        None => user_locale,
    };
    let translations = resolve_translations(preferred, guild_locale);
    let no_reason = translations.no_reason.clone();
    let default_template = EmbedTemplate::default_template();
    let localized_default = if templates_eq(template, &default_template) {
        Some(EmbedTemplate::default_template_for(translations))
    } else {
        None
    };
    proof {
        lemma_english_default(translations);
    }
    let localized: &EmbedTemplate = match &localized_default {
        Some(t) => t,
        None => template,
    };
    assert(localized@ == template@);
    let title = render_template_text(
        localized.title.as_str(),
        ban,
        no_reason.as_str(),
        time_placeholders,
    );
    let (blocks, fields) = layout_lines(&localized.lines, ban, no_reason.as_str(), time_placeholders);
    let description = if blocks.len() > 0 {
        Some(join_with(&blocks, "\n"))
    } else {
        None
    };
    let footer = match &localized.footer {
        Some(footer_text) => {
            let rendered = render_template_text(
                footer_text.as_str(),
                ban,
                no_reason.as_str(),
                time_placeholders,
            );
            if str_is_blank(rendered.as_str()) {
                None
            } else {
                Some(rendered)
            }
        },
        None => None,
    };
    BanEmbed { title, color: localized.color, description, fields, footer }
}

/// Formats a rich ban announcement embed for Discord newsletters using locale
/// preferences, with the time placeholders taken at the current time.
pub fn format_ban_embed_for_locale(
    template: &EmbedTemplate,
    ban: &BanRecord,
    channel_locale: Option<&str>,
    user_locale: Option<&str>,
    guild_locale: Option<&str>,
) -> (r: BanEmbed)
    ensures
        exists|now: (i64, u32)|
            chrono_representable(now.0, now.1) && r@ == #[trigger] ban_embed_view(
                template@,
                ban@,
                placeholders_at(ban@.created_at, ban@.duration_end, now),
            ),
{
    let time_placeholders = resolve_time_placeholders(
        ban.created_at.as_str(),
        ban.duration_end.as_str(),
    );
    let r = format_ban_embed_with_times(
        template,
        ban,
        channel_locale,
        user_locale,
        guild_locale,
        &time_placeholders,
    );
    let ghost now = choose|now: (i64, u32)|
        chrono_representable(now.0, now.1) && time_placeholders@ == #[trigger] placeholders_at(
            ban@.created_at,
            ban@.duration_end,
            now,
        );
    assert(r@ == ban_embed_view(template@, ban@, placeholders_at(ban@.created_at, ban@.duration_end, now)));
    r
}

/// The announcement has the template's colour, its rendered title, and its
/// footer exactly when the template has one that does not render blank.
pub proof fn lemma_embed_follows_template(
    template: EmbedTemplateView,
    ban: BanRecordView,
    tp: TimePlaceholdersView,
)
    ensures
        ban_embed_view(template, ban, tp).color == template.color,
        ban_embed_view(template, ban, tp).title == render_text(
            template.title,
            ban,
            english_no_reason(),
            tp,
        ),
        (ban_embed_view(template, ban, tp).footer is Some) == (template.footer is Some && !is_blank(
            render_text(template.footer->0, ban, english_no_reason(), tp),
        )),
{
}

/// A `{name}` placeholder: braces around a name that holds no brace.
pub open spec fn placeholder_shaped(p: Seq<char>) -> bool {
    &&& p.len() >= 2
    &&& p[0] == '{'
    &&& p[p.len() - 1] == '}'
    &&& forall|i: int| 0 < i < p.len() - 1 ==> #[trigger] p[i] != '{' && p[i] != '}'
}

/// Filling one placeholder leaves another placeholder as it is.
proof fn lemma_other_placeholder_kept(p: Seq<char>, q: Seq<char>, rep: Seq<char>)
    requires
        placeholder_shaped(p),
        placeholder_shaped(q),
        p != q,
    ensures
        replace_all(p, q, rep) == p,
{
    if matches_at(p, q, 0) {
        if q.len() == p.len() {
            assert(p.subrange(0, q.len() as int) =~= p);
        } else {
            assert(p.subrange(0, q.len() as int)[q.len() - 1] == p[q.len() - 1]);
        }
    }
    let rest = p.drop_first();
    assert forall|x: int| 0 <= x < rest.len() implies rest[x] != '{' by {
        assert(rest[x] == p[x + 1]);
    }
    assert(!rest.contains('{'));
    crate::text::lemma_replace_without_first_char(rest, q, rep);
    assert(seq![p[0]] + rest =~= p);
}

/// Text without `{` or `\`, which no filling step changes.
pub open spec fn plain_text(s: Seq<char>) -> bool {
    !s.contains('{') && !s.contains('\\')
}

/// Decimal text is plain.
proof fn lemma_decimal_plain(n: int)
    ensures
        plain_text(decimal(n)),
{
    let m: nat = if n < 0 {
        (-n) as nat
    } else {
        n as nat
    };
    lemma_digits_are_digits(m);
    let d = decimal(n);
    assert forall|i: int| 0 <= i < d.len() implies d[i] != '{' && d[i] != '\\' by {
        if n < 0 {
            if i > 0 {
                assert(d[i] == decimal_digits(m)[i - 1]);
            }
        } else {
            assert(d[i] == decimal_digits(m)[i]);
        }
    }
}

proof fn lemma_digits_are_digits(n: nat)
    ensures
        forall|i: int|
            0 <= i < decimal_digits(n).len() ==> 48 <= (#[trigger] decimal_digits(n)[i]) as u32
                <= 57,
    decreases n,
{
    let d = (n % 10) as int;
    assert(crate::text::digit_char(d) as u32 == 48 + d);
    if n >= 10 {
        lemma_digits_are_digits(n / 10);
        let prev = decimal_digits(n / 10);
        assert forall|i: int| 0 <= i < decimal_digits(n).len() implies 48 <= (
        #[trigger] decimal_digits(n)[i]) as u32 <= 57 by {
            if i < prev.len() {
                assert(decimal_digits(n)[i] == prev[i]);
            }
        }
    }
}

/// The facts that filling placeholders rests on.
proof fn lemma_filling_steps()
    ensures
        forall|s: Seq<char>, pat: Seq<char>, rep: Seq<char>|
            pat.len() > 0 && !s.contains(pat[0]) ==> #[trigger] replace_all(s, pat, rep) == s,
        forall|pat: Seq<char>, rep: Seq<char>|
            pat.len() > 0 ==> #[trigger] replace_all(pat, pat, rep) == rep,
        forall|p: Seq<char>, q: Seq<char>, rep: Seq<char>|
            placeholder_shaped(p) && placeholder_shaped(q) && p != q ==> #[trigger] replace_all(
                p,
                q,
                rep,
            ) == p,
{
    assert forall|s: Seq<char>, pat: Seq<char>, rep: Seq<char>|
        pat.len() > 0 && !s.contains(pat[0]) implies #[trigger] replace_all(s, pat, rep) == s by {
        crate::text::lemma_replace_without_first_char(s, pat, rep);
    }
    assert forall|pat: Seq<char>, rep: Seq<char>| pat.len() > 0 implies #[trigger] replace_all(
        pat,
        pat,
        rep,
    ) == rep by {
        crate::text::lemma_replace_whole(pat, rep);
    }
    assert forall|p: Seq<char>, q: Seq<char>, rep: Seq<char>|
        placeholder_shaped(p) && placeholder_shaped(q) && p != q implies #[trigger] replace_all(
        p,
        q,
        rep,
    ) == p by {
        lemma_other_placeholder_kept(p, q, rep);
    }
}

/// Each placeholder alone is filled with its own field of the ban, when the
/// ban's texts, the time texts and the "no reason" text hold no `{` and no
/// backslash: `{id}` and `{round_id}` with the decimal numbers, `{type}` with
/// the kind, `{reason_display}` with the reason or, when it is empty, the "no
/// reason" text, and every other one with the field of its name.
pub proof fn lemma_placeholders_filled(
    ban: BanRecordView,
    no_reason: Seq<char>,
    tp: TimePlaceholdersView,
)
    requires
        plain_text(ban.intruder),
        plain_text(ban.admin),
        plain_text(ban.kind),
        plain_text(ban.server),
        plain_text(ban.created_at),
        plain_text(ban.duration_end),
        plain_text(ban.reason),
        plain_text(no_reason),
        plain_text(tp.date),
        plain_text(tp.time),
        plain_text(tp.date_time),
        plain_text(tp.time_left),
    ensures
        render_text("{id}"@, ban, no_reason, tp) == decimal(ban.id as int),
        render_text("{intruder}"@, ban, no_reason, tp) == ban.intruder,
        render_text("{admin}"@, ban, no_reason, tp) == ban.admin,
        render_text("{type}"@, ban, no_reason, tp) == ban.kind,
        render_text("{round_id}"@, ban, no_reason, tp) == decimal(ban.round_id as int),
        render_text("{server}"@, ban, no_reason, tp) == ban.server,
        render_text("{created_at}"@, ban, no_reason, tp) == ban.created_at,
        render_text("{duration_end}"@, ban, no_reason, tp) == ban.duration_end,
        render_text("{date}"@, ban, no_reason, tp) == tp.date,
        render_text("{time}"@, ban, no_reason, tp) == tp.time,
        render_text("{date_time}"@, ban, no_reason, tp) == tp.date_time,
        render_text("{time_left}"@, ban, no_reason, tp) == tp.time_left,
        render_text("{reason}"@, ban, no_reason, tp) == ban.reason,
        render_text("{reason_display}"@, ban, no_reason, tp) == (if ban.reason.len() == 0 {
            no_reason
        } else {
            ban.reason
        }),
{
    lemma_filling_steps();
    lemma_decimal_plain(ban.id as int);
    lemma_decimal_plain(ban.round_id as int);
    reveal_strlit("{id}");
    reveal_strlit("{intruder}");
    reveal_strlit("{admin}");
    reveal_strlit("{type}");
    reveal_strlit("{round_id}");
    reveal_strlit("{server}");
    reveal_strlit("{created_at}");
    reveal_strlit("{duration_end}");
    reveal_strlit("{date}");
    reveal_strlit("{time}");
    reveal_strlit("{date_time}");
    reveal_strlit("{time_left}");
    reveal_strlit("{reason}");
    reveal_strlit("{reason_display}");
    reveal_strlit("\\n");
    assert(placeholder_shaped("{id}"@));
    assert(placeholder_shaped("{intruder}"@));
    assert(placeholder_shaped("{admin}"@));
    assert(placeholder_shaped("{type}"@));
    assert(placeholder_shaped("{round_id}"@));
    assert(placeholder_shaped("{server}"@));
    assert(placeholder_shaped("{created_at}"@));
    assert(placeholder_shaped("{duration_end}"@));
    assert(placeholder_shaped("{date}"@));
    assert(placeholder_shaped("{time}"@));
    assert(placeholder_shaped("{date_time}"@));
    assert(placeholder_shaped("{time_left}"@));
    assert(placeholder_shaped("{reason}"@));
    assert(placeholder_shaped("{reason_display}"@));
    // placeholders of the same length differ in some character
    assert("{intruder}"@[1] != "{round_id}"@[1]);
    assert("{type}"@[1] != "{date}"@[1]);
    assert("{type}"@[2] != "{time}"@[2]);
    assert("{server}"@[1] != "{reason}"@[1]);
    assert("{date}"@[1] != "{time}"@[1]);
    assert("{date_time}"@[1] != "{time_left}"@[1]);
    assert("\\n"@[0] == '\\');
}

} // verus!
