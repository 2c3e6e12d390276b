//! Translation bundle for command replies and default embed text, and the set
//! of locales that channels may choose from.

use vstd::prelude::*;

use crate::text::{
    ascii_lowercase, lemma_lowercase_idempotent, lemma_trim_idempotent, lemma_trim_lowercase,
    to_ascii_lowercase, trim, trimmed, views,
};

verus! {

/// Translation bundle used for localized command responses and default embed text.
#[derive(Clone, Debug)]
pub struct Translations {
    pub register_success: String,
    pub unregister_success: String,
    pub locale_set_success: String,
    pub locale_set_requires_register: String,
    pub locale_set_invalid: String,
    pub default_title: String,
    pub default_description: String,
    pub details_title: String,
    pub details_value: String,
    pub ends_title: String,
    pub no_reason: String,
}

/// English title of the built-in template.
pub open spec fn english_default_title() -> Seq<char> {
    "🚨 New Ban №{id}"@
}

/// English description of the built-in template.
pub open spec fn english_default_description() -> Seq<char> {
    "**Intruder:** `{intruder}`\n**Admin:** `{admin}`\n**Reason:** `{reason_display}`\n"@
}

/// English title of the details field.
pub open spec fn english_details_title() -> Seq<char> {
    "Details"@
}

/// English body of the details field.
pub open spec fn english_details_value() -> Seq<char> {
    "**Type:** `{type}`\n**Round:** `{round_id}`\n**Server:** `{server}`"@
}

/// English title of the end-of-ban field.
pub open spec fn english_ends_title() -> Seq<char> {
    "Ends"@
}

/// English text shown in place of a missing ban reason.
pub open spec fn english_no_reason() -> Seq<char> {
    "No reason provided"@
}

/// The English bundle, field by field.
pub open spec fn is_built_in_english(t: Translations) -> bool {
    &&& t.register_success@ == "✅ This channel is now registered for ban newsletters."@
    &&& t.unregister_success@ == "✅ This channel has been removed from ban newsletters."@
    &&& t.locale_set_success@ == "✅ This channel locale is now set to `{locale}`."@
    &&& t.locale_set_requires_register@
        == "⚠️ This channel is not registered yet. Run `/register` first."@
    &&& t.locale_set_invalid@ == "⚠️ Unsupported locale. Pick one from the autocomplete list."@
    &&& t.default_title@ == english_default_title()
    &&& t.default_description@ == english_default_description()
    &&& t.details_title@ == english_details_title()
    &&& t.details_value@ == english_details_value()
    &&& t.ends_title@ == english_ends_title()
    &&& t.no_reason@ == english_no_reason()
}

/// The built-in English bundle.
pub fn built_in_english() -> (t: Translations)
    ensures
        is_built_in_english(t),
{
    Translations {
        register_success: "✅ This channel is now registered for ban newsletters.".to_owned(),
        unregister_success: "✅ This channel has been removed from ban newsletters.".to_owned(),
        locale_set_success: "✅ This channel locale is now set to `{locale}`.".to_owned(),
        locale_set_requires_register:
            "⚠️ This channel is not registered yet. Run `/register` first.".to_owned(),
        locale_set_invalid: "⚠️ Unsupported locale. Pick one from the autocomplete list."
            .to_owned(),
        default_title: "🚨 New Ban №{id}".to_owned(),
        default_description:
            "**Intruder:** `{intruder}`\n**Admin:** `{admin}`\n**Reason:** `{reason_display}`\n"
            .to_owned(),
        details_title: "Details".to_owned(),
        details_value: "**Type:** `{type}`\n**Round:** `{round_id}`\n**Server:** `{server}`"
            .to_owned(),
        ends_title: "Ends".to_owned(),
        no_reason: "No reason provided".to_owned(),
    }
}

/// The bundle for a user and a guild locale. Only English is built in, so
/// every pair of locales gets the English bundle.
pub fn resolve_translations(user_locale: Option<&str>, guild_locale: Option<&str>) -> (t:
    Translations)
    ensures
        is_built_in_english(t),
{
    built_in_english()
}

/// A locale as channels store it: trimmed, lower-cased, and absent when blank.
pub open spec fn normalized_locale(locale: Option<Seq<char>>) -> Option<Seq<char>> {
    match locale {
        Some(l) => if trimmed(l).len() == 0 {
            None
        } else {
            Some(ascii_lowercase(trimmed(l)))
        },
        None => None,
    }
}

/// The view of an optional borrowed string.
pub open spec fn opt_str_view(o: Option<&str>) -> Option<Seq<char>> {
    match o {
        Some(s) => Some(s@),
        None => None,
    }
}

/// The view of an optional owned string.
pub open spec fn opt_string_view(o: Option<String>) -> Option<Seq<char>> {
    match o {
        Some(s) => Some(s@),
        None => None,
    }
}

/// Trims and lower-cases a locale tag; a blank or missing tag gives `None`.
pub fn normalize_locale(locale: Option<&str>) -> (r: Option<String>)
    ensures
        opt_string_view(r) == normalized_locale(opt_str_view(locale)),
{
    match locale {
        Some(l) => {
            let t = trim(l);
            if t.is_empty() {
                None
            } else {
                Some(to_ascii_lowercase(t))
            }
        },
        None => None,
    }
}

/// The locales that channels may select; never empty, English by default.
pub struct AvailableLocales {
    locales: Vec<String>,
}

impl View for AvailableLocales {
    type V = Seq<Seq<char>>;

    closed spec fn view(&self) -> Seq<Seq<char>> {
        views(self.locales@)
    }
}

/// The locale list with only English in it.
pub open spec fn english_only() -> Seq<Seq<char>> {
    seq!["en"@]
}

impl AvailableLocales {
    /// The store as the service starts: English only.
    pub fn new() -> (r: Self)
        ensures
            r@ == english_only(),
    {
        let mut locales: Vec<String> = Vec::new();
        locales.push("en".to_owned());
        let r = AvailableLocales { locales };
        assert(r@ =~= english_only());
        r
    }
}

/// The available locales after setting `locales`: those locales, or English
/// alone when none are given.
pub open spec fn locales_after_set(locales: Seq<Seq<char>>) -> Seq<Seq<char>> {
    if locales.len() == 0 {
        english_only()
    } else {
        locales
    }
}

/// Replaces the available locales; an empty list falls back to English only.
pub fn set_available_locales(store: &mut AvailableLocales, locales: Vec<String>)
    ensures
        final(store)@ == locales_after_set(views(locales@)),
{
    if locales.len() == 0 {
        *store = AvailableLocales::new();
    } else {
        store.locales = locales;
    }
}

/// A copy of the available locales.
pub fn available_locales(store: &AvailableLocales) -> (r: Vec<String>)
    ensures
        views(r@) == store@,
{
    let mut out: Vec<String> = Vec::new();
    let mut i: usize = 0;
    while i < store.locales.len()
        invariant
            i <= store.locales.len(),
            views(out@) == views(store.locales@).take(i as int),
        decreases store.locales.len() - i,
    {
        let item = store.locales[i].clone();
        let ghost before = out@;
        out.push(item);
        assert(out@ == before.push(item));
        assert(views(out@) =~= views(before).push(item@));
        assert(views(out@) =~= views(store.locales@).take(i + 1));
        i += 1;
    }
    assert(views(store.locales@).take(store.locales.len() as int) =~= views(store.locales@));
    out
}

/// Whether `locale` is one of the available locales (compared exactly).
pub fn is_supported_locale(store: &AvailableLocales, locale: &str) -> (r: bool)
    ensures
        r == store@.contains(locale@),
{
    let wanted = locale.to_owned();
    let mut i: usize = 0;
    while i < store.locales.len()
        invariant
            i <= store.locales.len(),
            wanted@ == locale@,
            forall|k: int| 0 <= k < i ==> views(store.locales@)[k] != locale@,
        decreases store.locales.len() - i,
    {
        if store.locales[i] == wanted {
            assert(views(store.locales@)[i as int] == locale@);
            return true;
        }
        i += 1;
    }
    false
}


// ---------------------------------------------------------------------------
// Laws
// ---------------------------------------------------------------------------

/// Normalizing a locale twice gives the same as normalizing it once.
pub proof fn lemma_normalize_locale_idempotent(locale: Option<Seq<char>>)
    ensures
        normalized_locale(normalized_locale(locale)) == normalized_locale(locale),
{
    if let Some(l) = locale {
        let t = trimmed(l);
        if t.len() > 0 {
            lemma_trim_lowercase(t);
            lemma_trim_idempotent(l);
            lemma_lowercase_idempotent(t);
            assert(trimmed(ascii_lowercase(t)) == ascii_lowercase(t));
            assert(ascii_lowercase(t).len() == t.len());
        }
    }
}

/// The available locales after setting `locales` are never empty, and a
/// locale is available exactly when it was given, or, when none were given,
/// when it is English.
pub proof fn lemma_available_after_set(locales: Seq<Seq<char>>, locale: Seq<char>)
    ensures
        locales_after_set(locales).len() > 0,
        locales_after_set(locales).contains(locale) == (if locales.len() == 0 {
            locale == "en"@
        } else {
            locales.contains(locale)
        }),
{
    if locales.len() == 0 {
        if english_only().contains(locale) {
            let k = choose|k: int| 0 <= k < english_only().len() && english_only()[k] == locale;
            assert(k == 0);
        }
        if locale == "en"@ {
            assert(english_only()[0] == locale);
        }
    }
}

} // verus!
