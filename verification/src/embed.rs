//! The embed template that newsletter messages are built from: its lines, the
//! built-in default, and the parsing of the `inline` flag and the colour.

use vstd::prelude::*;

use crate::i18n::{
    english_default_description, english_default_title, english_details_title, english_details_value,
    english_ends_title, is_built_in_english, opt_str_view, resolve_translations, Translations,
};
use crate::text::{
    ascii_lowercase, chars_of, parse_u32_in_radix, parse_u32_radix, strip_prefix, to_ascii_lowercase,
    trim, trimmed,
};

verus! {

/// Embed colour of the built-in template: Discord's dark red.
pub const DEFAULT_EMBED_COLOR: u32 = 0x992D22;

/// Largest 24-bit RGB colour.
pub const MAX_EMBED_COLOR: u32 = 0xFF_FF_FF;

/// One line of the template: a field, a row inside a group, or a spacer.
#[derive(Clone, Debug, PartialEq, Eq)]
pub struct EmbedLine {
    pub title: Option<String>,
    pub value: String,
    /// Render title and value on one line in the field value body.
    pub inline: bool,
    /// Render this field inline in Discord layout.
    pub field_inline: bool,
    /// Parent group id when this line is inside `<group>`.
    pub group_id: Option<usize>,
    /// Whether parent group direction is `row`.
    pub row_group: bool,
    /// Explicit empty line separator (for `<br/>` between blocks).
    pub spacer: bool,
}

/// The value of an [`EmbedLine`].
pub struct EmbedLineView {
    pub title: Option<Seq<char>>,
    pub value: Seq<char>,
    pub inline: bool,
    pub field_inline: bool,
    pub group_id: Option<usize>,
    pub row_group: bool,
    pub spacer: bool,
}

/// The view of an optional owned string.
pub open spec fn opt_view(o: Option<String>) -> Option<Seq<char>> {
    match o {
        Some(s) => Some(s@),
        None => None,
    }
}

impl View for EmbedLine {
    type V = EmbedLineView;

    open spec fn view(&self) -> EmbedLineView {
        EmbedLineView {
            title: opt_view(self.title),
            value: self.value@,
            inline: self.inline,
            field_inline: self.field_inline,
            group_id: self.group_id,
            row_group: self.row_group,
            spacer: self.spacer,
        }
    }
}

/// Runtime configuration for building newsletter messages from an XML template.
#[derive(Clone, Debug, PartialEq, Eq)]
pub struct EmbedTemplate {
    /// Message title shown above the ban details.
    pub title: String,
    /// Embed fields rendered below the description.
    pub lines: Vec<EmbedLine>,
    /// Embed color as a 24-bit RGB integer.
    pub color: u32,
    /// Optional footer shown at the very bottom of the embed.
    pub footer: Option<String>,
}

/// The value of an [`EmbedTemplate`].
pub struct EmbedTemplateView {
    pub title: Seq<char>,
    pub lines: Seq<EmbedLineView>,
    pub color: u32,
    pub footer: Option<Seq<char>>,
}

/// The views of a vector of lines.
pub open spec fn line_views(lines: Seq<EmbedLine>) -> Seq<EmbedLineView> {
    lines.map_values(|l: EmbedLine| l@)
}

impl View for EmbedTemplate {
    type V = EmbedTemplateView;

    open spec fn view(&self) -> EmbedTemplateView {
        EmbedTemplateView {
            title: self.title@,
            lines: line_views(self.lines@),
            color: self.color,
            footer: opt_view(self.footer),
        }
    }
}

/// A line with the given attributes.
pub open spec fn line_view(
    title: Option<Seq<char>>,
    value: Seq<char>,
    inline: bool,
    field_inline: bool,
    group_id: Option<usize>,
    row_group: bool,
    spacer: bool,
) -> EmbedLineView {
    EmbedLineView { title, value, inline, field_inline, group_id, row_group, spacer }
}

/// The empty separator line that `<br/>` between blocks stands for.
pub open spec fn spacer_line_view() -> EmbedLineView {
    line_view(None, Seq::<char>::empty(), false, false, None, false, true)
}

/// Zero-width space: the title of a field that shows no title.
pub open spec fn zero_width_space() -> Seq<char> {
    seq!['\u{200B}']
}

/// The built-in template in the language of `t`: the title, a description
/// line with no visible title, and the details and end-of-ban fields side by side.
pub open spec fn default_template_view(t: Translations) -> EmbedTemplateView {
    EmbedTemplateView {
        title: t.default_title@,
        lines: seq![
            line_view(Some(zero_width_space()), t.default_description@, false, false, None, false, false),
            line_view(Some(t.details_title@), t.details_value@, false, true, None, false, false),
            line_view(Some(t.ends_title@), "`{duration_end}`"@, false, true, None, false, false),
        ],
        color: DEFAULT_EMBED_COLOR,
        footer: None,
    }
}

/// The built-in English template.
pub open spec fn english_default_view() -> EmbedTemplateView {
    EmbedTemplateView {
        title: english_default_title(),
        lines: seq![
            line_view(Some(zero_width_space()), english_default_description(), false, false, None, false, false),
            line_view(Some(english_details_title()), english_details_value(), false, true, None, false, false),
            line_view(Some(english_ends_title()), "`{duration_end}`"@, false, true, None, false, false),
        ],
        color: DEFAULT_EMBED_COLOR,
        footer: None,
    }
}

/// Builds a line from its parts.
pub fn line(
    title: Option<&str>,
    value: &str,
    inline: bool,
    field_inline: bool,
    group_id: Option<usize>,
    row_group: bool,
    spacer: bool,
) -> (r: EmbedLine)
    ensures
        r@ == line_view(
            opt_str_view(title),
            value@,
            inline,
            field_inline,
            group_id,
            row_group,
            spacer,
        ),
{
    let owned_title = match title {
        Some(t) => Some(t.to_owned()),
        None => None,
    };
    EmbedLine {
        title: owned_title,
        value: value.to_owned(),
        inline,
        field_inline,
        group_id,
        row_group,
        spacer,
    }
}

/// The empty separator line.
pub fn spacer_line() -> (r: EmbedLine)
    ensures
        r@ == spacer_line_view(),
{
    proof {
        reveal_strlit("");
        assert(""@ =~= Seq::<char>::empty());
    }
    line(None, "", false, false, None, false, true)
}

impl EmbedTemplate {
    /// Creates a built-in fallback template used when no XML file is provided.
    pub fn default_template() -> (r: Self)
        ensures
            r@ == english_default_view(),
    {
        let t = resolve_translations(None, None);
        let r = Self::default_template_for(t);
        assert(r@.lines =~= english_default_view().lines);
        r
    }

    /// Creates a locale-aware fallback template used when no XML file is provided.
    pub fn default_template_for(translations: Translations) -> (r: Self)
        ensures
            r@ == default_template_view(translations),
    {
        let zwsp = "\u{200B}";
        let first = line(
            Some(zwsp),
            translations.default_description.as_str(),
            false,
            false,
            None,
            false,
            false,
        );
        let second = line(
            Some(translations.details_title.as_str()),
            translations.details_value.as_str(),
            false,
            true,
            None,
            false,
            false,
        );
        let third = line(
            Some(translations.ends_title.as_str()),
            "`{duration_end}`",
            false,
            true,
            None,
            false,
            false,
        );
        proof {
            reveal_strlit("\u{200B}");
            assert(zwsp@ =~= zero_width_space());
        }
        let lines = vec![first, second, third];
        let r = EmbedTemplate {
            title: translations.default_title,
            lines,
            color: DEFAULT_EMBED_COLOR,
            footer: None,
        };
        assert(lines@ =~= seq![first, second, third]);
        assert(r@.lines =~= default_template_view(translations).lines);
        r
    }
}

/// `value`, trimmed and lower-cased, is `1`, `true`, `yes` or `on`.
pub open spec fn parses_as_true(value: Seq<char>) -> bool {
    let v = ascii_lowercase(trimmed(value));
    v == "1"@ || v == "true"@ || v == "yes"@ || v == "on"@
}

/// Reads a boolean template attribute: `1`, `true`, `yes` or `on`, in any
/// ASCII case and with surrounding whitespace, mean `true`; anything else `false`.
pub fn parse_bool(value: &str) -> (r: bool)
    ensures
        r == parses_as_true(value@),
{
    let v = to_ascii_lowercase(trim(value));
    v == "1".to_owned() || v == "true".to_owned() || v == "yes".to_owned() || v == "on".to_owned()
}

/// The number that a colour text stands for before the range check: `#` or
/// `0x`/`0X` then hexadecimal digits, or else decimal digits.
pub open spec fn color_number(value: Seq<char>) -> Option<u32> {
    let t = trimmed(value);
    if t.len() >= 1 && t[0] == '#' {
        parse_u32_radix(t.subrange(1, t.len() as int), 16)
    } else if t.len() >= 2 && t[0] == '0' && (t[1] == 'x' || t[1] == 'X') {
        parse_u32_radix(t.subrange(2, t.len() as int), 16)
    } else {
        parse_u32_radix(t, 10)
    }
}

/// The colour that `value` denotes, if it denotes a 24-bit RGB colour.
pub open spec fn parsed_color(value: Seq<char>) -> Option<u32> {
    match color_number(value) {
        Some(c) => if c <= MAX_EMBED_COLOR {
            Some(c)
        } else {
            None
        },
        None => None,
    }
}

/// Parses an embed colour (`#RRGGBB`, `0xRRGGBB` or decimal); `None` when the
/// text is no number in those forms or the number exceeds `0xFFFFFF`.
pub fn parse_color(value: &str) -> (r: Option<u32>)
    ensures
        r == parsed_color(value@),
{
    let trimmed_value = trim(value);
    let parsed = match strip_prefix(trimmed_value, "#") {
        Some(hex) => {
            proof {
                reveal_strlit("#");
                assert("#"@ =~= seq!['#']);
                assert(trimmed_value@.subrange(0, 1)[0] == trimmed_value@[0]);
            }
            parse_u32_in_radix(hex, 16)
        },
        None => {
            proof {
                reveal_strlit("#");
                assert("#"@ =~= seq!['#']);
                let t = trimmed_value@;
                if t.len() >= 1 && t[0] == '#' {
                    assert(t.subrange(0, 1) =~= seq!['#']);
                }
            }
            let hex_lower = strip_prefix(trimmed_value, "0x");
            proof {
                reveal_strlit("0x");
                assert("0x"@ =~= seq!['0', 'x']);
                let t = trimmed_value@;
                if t.len() >= 2 && t[0] == '0' && t[1] == 'x' {
                    assert(t.subrange(0, 2) =~= seq!['0', 'x']);
                }
                if hex_lower is Some {
                    assert(t.subrange(0, 2)[0] == t[0]);
                    assert(t.subrange(0, 2)[1] == t[1]);
                }
            }
            match hex_lower {
                Some(hex) => parse_u32_in_radix(hex, 16),
                None => {
                    let hex_upper = strip_prefix(trimmed_value, "0X");
                    proof {
                        reveal_strlit("0X");
                        assert("0X"@ =~= seq!['0', 'X']);
                        let t = trimmed_value@;
                        if t.len() >= 2 && t[0] == '0' && t[1] == 'X' {
                            assert(t.subrange(0, 2) =~= seq!['0', 'X']);
                        }
                        if hex_upper is Some {
                            assert(t.subrange(0, 2)[0] == t[0]);
                            assert(t.subrange(0, 2)[1] == t[1]);
                        }
                    }
                    match hex_upper {
                        Some(hex) => parse_u32_in_radix(hex, 16),
                        None => parse_u32_in_radix(trimmed_value, 10),
                    }
                },
            }
        },
    };
    match parsed {
        Some(color) => if color <= MAX_EMBED_COLOR {
            Some(color)
        } else {
            None
        },
        None => None,
    }
}

/// Whether two optional strings are equal.
pub fn opt_string_eq(a: &Option<String>, b: &Option<String>) -> (r: bool)
    ensures
        r == (opt_view(*a) == opt_view(*b)),
{
    match (a, b) {
        (Some(x), Some(y)) => *x == *y,
        (None, None) => true,
        _ => false,
    }
}

/// Whether two lines are equal.
pub fn lines_eq(a: &EmbedLine, b: &EmbedLine) -> (r: bool)
    ensures
        r == (a@ == b@),
{
    opt_string_eq(&a.title, &b.title) && a.value == b.value && a.inline == b.inline
        && a.field_inline == b.field_inline && a.group_id == b.group_id && a.row_group
        == b.row_group && a.spacer == b.spacer
}

/// Whether two templates are equal (`==` on templates).
pub fn templates_eq(a: &EmbedTemplate, b: &EmbedTemplate) -> (r: bool)
    ensures
        r == (a@ == b@),
{
    if !(a.title == b.title && a.color == b.color && opt_string_eq(&a.footer, &b.footer)) {
        return false;
    }
    if a.lines.len() != b.lines.len() {
        assert(a@.lines.len() != b@.lines.len());
        return false;
    }
    let mut i: usize = 0;
    while i < a.lines.len()
        invariant
            i <= a.lines.len(),
            a.lines.len() == b.lines.len(),
            forall|k: int| 0 <= k < i ==> a.lines@[k]@ == b.lines@[k]@,
        decreases a.lines.len() - i,
    {
        if !lines_eq(&a.lines[i], &b.lines[i]) {
            assert(a@.lines[i as int] != b@.lines[i as int]);
            return false;
        }
        i += 1;
    }
    assert(a@.lines =~= b@.lines);
    true
}

} // verus!
