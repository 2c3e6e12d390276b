//! Newsletter channels: registrations as stored in SQLite, the replies to the
//! registration and locale commands, and message ids kept for edited bans.

use vstd::prelude::*;

use crate::i18n::{
    is_supported_locale, normalize_locale, normalized_locale, opt_string_view, AvailableLocales,
    Translations,
};
use crate::text::{replace, replace_all};

verus! {

/// Newsletter channel registration with locale preferences collected from Discord interactions.
#[derive(Clone, Debug, PartialEq, Eq)]
pub struct NewsletterChannel {
    /// Discord channel ID that receives ban newsletter messages.
    pub channel_id: u64,
    /// Locale chosen for the channel itself.
    pub channel_locale: Option<String>,
    /// User locale from the interaction that registered the channel.
    pub user_locale: Option<String>,
    /// Guild locale from the interaction that registered the channel.
    pub guild_locale: Option<String>,
}

/// The value of a [`NewsletterChannel`].
pub struct NewsletterChannelView {
    pub channel_id: u64,
    pub channel_locale: Option<Seq<char>>,
    pub user_locale: Option<Seq<char>>,
    pub guild_locale: Option<Seq<char>>,
}

impl View for NewsletterChannel {
    type V = NewsletterChannelView;

    open spec fn view(&self) -> NewsletterChannelView {
        NewsletterChannelView {
            channel_id: self.channel_id,
            channel_locale: opt_string_view(self.channel_locale),
            user_locale: opt_string_view(self.user_locale),
            guild_locale: opt_string_view(self.guild_locale),
        }
    }
}

/// A stored registration row: channel id and the channel, user and guild locales.
pub type ChannelRow = (i64, Option<String>, Option<String>, Option<String>);

/// The value of a [`ChannelRow`].
pub open spec fn channel_row_view(row: ChannelRow) -> (
    i64,
    Option<Seq<char>>,
    Option<Seq<char>>,
    Option<Seq<char>>,
) {
    (row.0, opt_string_view(row.1), opt_string_view(row.2), opt_string_view(row.3))
}

/// The channels that the stored rows describe, in row order: rows with a
/// negative id are skipped, locales are normalized.
pub open spec fn registered_channels(
    rows: Seq<(i64, Option<Seq<char>>, Option<Seq<char>>, Option<Seq<char>>)>,
) -> Seq<NewsletterChannelView>
    decreases rows.len(),
{
    if rows.len() == 0 {
        Seq::empty()
    } else {
        let earlier = registered_channels(rows.drop_last());
        let row = rows.last();
        if row.0 < 0 {
            earlier
        } else {
            earlier.push(
                NewsletterChannelView {
                    channel_id: row.0 as u64,
                    channel_locale: normalized_locale(row.1),
                    user_locale: normalized_locale(row.2),
                    guild_locale: normalized_locale(row.3),
                },
            )
        }
    }
}

/// A stored signed id as a Discord id: `None` when negative (`u64::try_from`).
pub open spec fn stored_id(value: i64) -> Option<u64> {
    if value < 0 {
        None
    } else {
        Some(value as u64)
    }
}

/// A stored id as an unsigned Discord id, if it is not negative.
pub fn stored_message_id(value: i64) -> (r: Option<u64>)
    ensures
        r == stored_id(value),
{
    if value < 0 {
        None
    } else {
        Some(value as u64)
    }
}

fn opt_as_str(o: &Option<String>) -> (r: Option<&str>)
    ensures
        crate::i18n::opt_str_view(r) == opt_string_view(*o),
{
    match o {
        Some(s) => Some(s.as_str()),
        None => None,
    }
}

/// The registered channels from the stored rows (see [`registered_channels`]).
pub fn channels_from_rows(rows: &Vec<ChannelRow>) -> (r: Vec<NewsletterChannel>)
    ensures
        r@.map_values(|c: NewsletterChannel| c@) == registered_channels(
            rows@.map_values(|row: ChannelRow| channel_row_view(row)),
        ),
{
    let ghost all = rows@.map_values(|row: ChannelRow| channel_row_view(row));
    let mut channels: Vec<NewsletterChannel> = Vec::new();
    let mut i: usize = 0;
    while i < rows.len()
        invariant
            i <= rows.len(),
            all == rows@.map_values(|row: ChannelRow| channel_row_view(row)),
            channels@.map_values(|c: NewsletterChannel| c@) == registered_channels(
                all.take(i as int),
            ),
        decreases rows.len() - i,
    {
        assert(all.take(i + 1).drop_last() =~= all.take(i as int));
        assert(all.take(i + 1).last() == channel_row_view(rows@[i as int]));
        let row = &rows[i];
        match stored_message_id(row.0) {
            Some(channel_id) => {
                let channel = NewsletterChannel {
                    channel_id,
                    channel_locale: normalize_locale(opt_as_str(&row.1)),
                    user_locale: normalize_locale(opt_as_str(&row.2)),
                    guild_locale: normalize_locale(opt_as_str(&row.3)),
                };
                let ghost before = channels@.map_values(|c: NewsletterChannel| c@);
                channels.push(channel);
                assert(channels@.map_values(|c: NewsletterChannel| c@) =~= before.push(channel@));
            },
            None => {},
        }
        i += 1;
    }
    assert(all.take(rows.len() as int) =~= all);
    channels
}

/// A registration slash command.
#[derive(Clone, Copy, Debug, PartialEq, Eq, Structural)]
pub enum RegistrationAction {
    Register,
    Unregister,
}

impl RegistrationAction {
    /// The verb used in log lines.
    pub fn log_verb(self) -> (r: &'static str)
        ensures
            r@ == (match self {
                RegistrationAction::Register => "register"@,
                RegistrationAction::Unregister => "unregister"@,
            }),
    {
        match self {
            RegistrationAction::Register => "register",
            RegistrationAction::Unregister => "unregister",
        }
    }

    /// The confirmation that the command replies with.
    pub fn confirmation(self, translations: &Translations) -> (r: String)
        ensures
            r@ == (match self {
                RegistrationAction::Register => translations.register_success@,
                RegistrationAction::Unregister => translations.unregister_success@,
            }),
    {
        match self {
            RegistrationAction::Register => translations.register_success.clone(),
            RegistrationAction::Unregister => translations.unregister_success.clone(),
        }
    }
}

/// The locale that `/locale` stores for the `requested` tag: the tag trimmed
/// and lower-cased, when it is one of the available locales.
pub open spec fn chosen_locale(available: Seq<Seq<char>>, requested: Seq<char>) -> Option<Seq<char>> {
    match normalized_locale(Some(requested)) {
        Some(l) => if available.contains(l) {
            Some(l)
        } else {
            None
        },
        None => None,
    }
}

/// The locale to store for a `/locale` request, or `None` when the requested
/// tag is blank or not available.
pub fn requested_locale(available: &AvailableLocales, requested: &str) -> (r: Option<String>)
    ensures
        opt_string_view(r) == chosen_locale(available@, requested@),
{
    match normalize_locale(Some(requested)) {
        Some(l) => {
            if is_supported_locale(available, l.as_str()) {
                Some(l)
            } else {
                None
            }
        },
        None => None,
    }
}

/// What `/locale` did in a channel.
#[derive(Clone, Debug, PartialEq, Eq)]
pub enum LocaleOutcome {
    /// The requested locale is not available; nothing was stored.
    Unsupported,
    /// The channel is not registered; nothing was stored.
    NotRegistered,
    /// The channel's announcements now use `locale`.
    Stored { locale: String },
}

/// The reply to `/locale`.
pub open spec fn locale_reply_text(outcome: LocaleOutcome, translations: Translations) -> Seq<char> {
    match outcome {
        LocaleOutcome::Unsupported => translations.locale_set_invalid@,
        LocaleOutcome::NotRegistered => translations.locale_set_requires_register@,
        LocaleOutcome::Stored { locale } => replace_all(
            translations.locale_set_success@,
            "{locale}"@,
            locale@,
        ),
    }
}

/// The reply to `/locale`: the confirmation names the stored locale in place
/// of `{locale}`.
pub fn locale_reply(outcome: &LocaleOutcome, translations: &Translations) -> (r: String)
    ensures
        r@ == locale_reply_text(*outcome, *translations),
{
    match outcome {
        LocaleOutcome::Unsupported => translations.locale_set_invalid.clone(),
        LocaleOutcome::NotRegistered => translations.locale_set_requires_register.clone(),
        LocaleOutcome::Stored { locale } => {
            proof {
                reveal_strlit("{locale}");
            }
            replace(translations.locale_set_success.as_str(), "{locale}", locale.as_str())
        },
    }
}

} // verus!
