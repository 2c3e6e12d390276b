//! Ban events: the notification channels and queue values that name them,
//! the `EVENT_NAMES` setting that enables them, and the decisions taken on a
//! notification or a queued event.

use vstd::prelude::*;

use crate::text::{
    ascii_lower_char, ascii_lowercase, is_whitespace, lemma_lowercase_idempotent, lemma_split_lowercase,
    lemma_split_single, lemma_trim_lowercase, lemma_trim_stops, parse_i32, parse_i32_decimal,
    split_any, split_on_any, to_ascii_lowercase, trim, trimmed, views,
};

verus! {

/// Event variants supported by database notifications and backlog rows.
#[derive(Clone, Copy, Debug, PartialEq, Eq, Structural, Hash)]
pub enum BanEventType {
    Added,
    Edited,
}

/// The PostgreSQL notification channel of an event.
pub open spec fn channel_of(e: BanEventType) -> Seq<char> {
    match e {
        BanEventType::Added => "ban_added"@,
        BanEventType::Edited => "ban_edited"@,
    }
}

/// The `ban_event_type` enum value of an event in the `ban_events` queue.
pub open spec fn db_value_of(e: BanEventType) -> Seq<char> {
    match e {
        BanEventType::Added => "added"@,
        BanEventType::Edited => "edited"@,
    }
}

/// The event whose notification channel is `channel`.
pub open spec fn event_for_channel(channel: Seq<char>) -> Option<BanEventType> {
    if channel == channel_of(BanEventType::Added) {
        Some(BanEventType::Added)
    } else if channel == channel_of(BanEventType::Edited) {
        Some(BanEventType::Edited)
    } else {
        None
    }
}

/// The event whose queue value is `value`.
pub open spec fn event_for_db_value(value: Seq<char>) -> Option<BanEventType> {
    if value == db_value_of(BanEventType::Added) {
        Some(BanEventType::Added)
    } else if value == db_value_of(BanEventType::Edited) {
        Some(BanEventType::Edited)
    } else {
        None
    }
}

/// Characters that separate the names in `EVENT_NAMES`.
pub open spec fn event_name_separators() -> Seq<char> {
    seq![',', ' ', '\n', '\t']
}

/// `EVENT_NAMES` lists `word`: some piece between separators, trimmed and
/// lower-cased, is `word`.
pub open spec fn lists_event_name(value: Seq<char>, word: Seq<char>) -> bool {
    let pieces = split_any(value, event_name_separators());
    exists|i: int| 0 <= i < pieces.len() && ascii_lowercase(trimmed(#[trigger] pieces[i])) == word
}

/// `EVENT_NAMES` enables `e`: it lists the event's queue value or its channel.
pub open spec fn enables(value: Seq<char>, e: BanEventType) -> bool {
    lists_event_name(value, db_value_of(e)) || lists_event_name(value, channel_of(e))
}

/// A set of ban events.
#[derive(Clone, Copy, Debug, PartialEq, Eq, Structural)]
pub struct EnabledEvents {
    added: bool,
    edited: bool,
}

impl View for EnabledEvents {
    type V = Set<BanEventType>;

    closed spec fn view(&self) -> Set<BanEventType> {
        Set::new(
            |e: BanEventType|
                match e {
                    BanEventType::Added => self.added,
                    BanEventType::Edited => self.edited,
                },
        )
    }
}

impl EnabledEvents {
    /// The set holding no event.
    pub fn none() -> (r: Self)
        ensures
            r@ == Set::<BanEventType>::empty(),
    {
        let r = EnabledEvents { added: false, edited: false };
        assert(r@ =~= Set::<BanEventType>::empty());
        r
    }

    /// `event` is in the set.
    pub fn contains(&self, event: &BanEventType) -> (r: bool)
        ensures
            r == self@.contains(*event),
    {
        match event {
            BanEventType::Added => self.added,
            BanEventType::Edited => self.edited,
        }
    }

    /// Adds `event` to the set.
    pub fn insert(&mut self, event: BanEventType)
        ensures
            final(self)@ == old(self)@.insert(event),
    {
        match event {
            BanEventType::Added => {
                self.added = true;
            },
            BanEventType::Edited => {
                self.edited = true;
            },
        }
        assert(self@ =~= old(self)@.insert(event));
    }

    /// Number of events in the set.
    pub fn len(&self) -> (r: usize)
        ensures
            r == (if self@.contains(BanEventType::Added) {
                1int
            } else {
                0
            }) + (if self@.contains(BanEventType::Edited) {
                1int
            } else {
                0
            }),
    {
        (if self.added {
            1
        } else {
            0
        }) + (if self.edited {
            1
        } else {
            0
        })
    }
}

impl BanEventType {
    /// The event notified on `channel`, if any.
    pub fn from_channel(channel: &str) -> (r: Option<Self>)
        ensures
            r == event_for_channel(channel@),
    {
        let c = channel.to_owned();
        if c == "ban_added".to_owned() {
            Some(BanEventType::Added)
        } else if c == "ban_edited".to_owned() {
            Some(BanEventType::Edited)
        } else {
            None
        }
    }

    /// The event that a `ban_events` row stores as `event`, if any.
    pub fn from_db_value(event: &str) -> (r: Option<Self>)
        ensures
            r == event_for_db_value(event@),
    {
        let v = event.to_owned();
        if v == "added".to_owned() {
            Some(BanEventType::Added)
        } else if v == "edited".to_owned() {
            Some(BanEventType::Edited)
        } else {
            None
        }
    }

    /// The notification channels to listen on, one per event.
    pub fn listener_channels() -> (r: Vec<&'static str>)
        ensures
            r@.map_values(|c: &str| c@) == seq![
                channel_of(BanEventType::Added),
                channel_of(BanEventType::Edited),
            ],
    {
        let r = vec!["ban_added", "ban_edited"];
        assert(r@.map_values(|c: &str| c@) =~= seq![
            channel_of(BanEventType::Added),
            channel_of(BanEventType::Edited),
        ]);
        r
    }

    /// Parses `EVENT_NAMES` into an enabled event set.
    ///
    /// Supports both notification channel names (`ban_added`) and enum values
    /// (`added`) for backwards compatibility. Names are separated by commas,
    /// spaces, newlines or tabs, and compared after trimming and ASCII lower-casing.
    pub fn parse_enabled(value: &str) -> (r: EnabledEvents)
        ensures
            forall|e: BanEventType| #[trigger] r@.contains(e) == enables(value@, e),
    {
        let seps = vec![',', ' ', '\n', '\t'];
        assert(seps@ =~= event_name_separators());
        let pieces = split_on_any(value, &seps);
        let ghost ps = views(pieces@);
        let added_value = "added".to_owned();
        let added_channel = "ban_added".to_owned();
        let edited_value = "edited".to_owned();
        let edited_channel = "ban_edited".to_owned();
        let mut enabled = EnabledEvents::none();
        let mut i: usize = 0;
        while i < pieces.len()
            invariant
                i <= pieces.len(),
                ps == views(pieces@),
                ps == split_any(value@, event_name_separators()),
                added_value@ == db_value_of(BanEventType::Added),
                added_channel@ == channel_of(BanEventType::Added),
                edited_value@ == db_value_of(BanEventType::Edited),
                edited_channel@ == channel_of(BanEventType::Edited),
                forall|e: BanEventType| #[trigger]
                    enabled@.contains(e) == (exists|k: int|
                        0 <= k < i && (ascii_lowercase(trimmed(#[trigger] ps[k]))
                            == db_value_of(e) || ascii_lowercase(trimmed(ps[k])) == channel_of(e))),
            decreases pieces.len() - i,
        {
            let token = to_ascii_lowercase(trim(pieces[i].as_str()));
            assert(token@ == ascii_lowercase(trimmed(ps[i as int])));
            let is_added = token == added_value || token == added_channel;
            let is_edited = token == edited_value || token == edited_channel;
            let ghost before = enabled@;
            if is_added {
                enabled.insert(BanEventType::Added);
            }
            if is_edited {
                enabled.insert(BanEventType::Edited);
            }
            assert forall|e: BanEventType| #[trigger]
                enabled@.contains(e) == (exists|k: int|
                    0 <= k < i + 1 && (ascii_lowercase(trimmed(#[trigger] ps[k]))
                        == db_value_of(e) || ascii_lowercase(trimmed(ps[k])) == channel_of(e))) by {
                if enabled@.contains(e) && !before.contains(e) {
                    assert(ascii_lowercase(trimmed(ps[i as int])) == db_value_of(e)
                        || ascii_lowercase(trimmed(ps[i as int])) == channel_of(e));
                }
            }
            i += 1;
        }
        assert forall|e: BanEventType| #[trigger] enabled@.contains(e) == enables(value@, e) by {
            if enabled@.contains(e) {
                let k = choose|k: int|
                    0 <= k < ps.len() && (ascii_lowercase(trimmed(#[trigger] ps[k]))
                        == db_value_of(e) || ascii_lowercase(trimmed(ps[k])) == channel_of(e));
                if ascii_lowercase(trimmed(ps[k])) == db_value_of(e) {
                    assert(lists_event_name(value@, db_value_of(e)));
                } else {
                    assert(lists_event_name(value@, channel_of(e)));
                }
            }
            if lists_event_name(value@, db_value_of(e)) {
                let k = choose|k: int|
                    0 <= k < ps.len() && ascii_lowercase(trimmed(#[trigger] ps[k])) == db_value_of(e);
                assert(ascii_lowercase(trimmed(ps[k])) == db_value_of(e));
            }
            if lists_event_name(value@, channel_of(e)) {
                let k = choose|k: int|
                    0 <= k < ps.len() && ascii_lowercase(trimmed(#[trigger] ps[k])) == channel_of(e);
                assert(ascii_lowercase(trimmed(ps[k])) == channel_of(e));
            }
        }
        enabled
    }
}

/// What the service does with a notification.
#[derive(Clone, Copy, Debug, PartialEq, Eq, Structural)]
pub enum NotificationAction {
    /// The channel names no ban event: the notification is ignored.
    UnsupportedChannel,
    /// The event is not enabled by `EVENT_NAMES`: the notification is skipped.
    Disabled(BanEventType),
    /// The payload is no ban id: the service stops with an error.
    InvalidPayload(BanEventType),
    /// The ban is loaded and announced.
    Process { ban_id: i32, event_type: BanEventType },
}

/// The action for a notification on `channel` with `payload`.
pub open spec fn notification_action(
    channel: Seq<char>,
    payload: Seq<char>,
    enabled: Set<BanEventType>,
) -> NotificationAction {
    match event_for_channel(channel) {
        None => NotificationAction::UnsupportedChannel,
        Some(e) => if !enabled.contains(e) {
            NotificationAction::Disabled(e)
        } else {
            match parse_i32_decimal(payload) {
                Some(id) => NotificationAction::Process { ban_id: id, event_type: e },
                None => NotificationAction::InvalidPayload(e),
            }
        },
    }
}

/// Decides what to do with a notification: the channel picks the event, the
/// enabled set filters it, and the payload must be the ban id in decimal.
pub fn classify_notification(channel: &str, payload: &str, enabled: &EnabledEvents) -> (r:
    NotificationAction)
    ensures
        r == notification_action(channel@, payload@, enabled@),
{
    match BanEventType::from_channel(channel) {
        None => NotificationAction::UnsupportedChannel,
        Some(e) => {
            if !enabled.contains(&e) {
                NotificationAction::Disabled(e)
            } else {
                match parse_i32(payload) {
                    Some(id) => NotificationAction::Process { ban_id: id, event_type: e },
                    None => NotificationAction::InvalidPayload(e),
                }
            }
        },
    }
}

/// The queued events to process, in queue order: rows whose event value is
/// known and enabled; the others are skipped.
pub open spec fn pending_events(rows: Seq<(i32, Seq<char>)>, enabled: Set<BanEventType>) -> Seq<
    (i32, BanEventType),
>
    decreases rows.len(),
{
    if rows.len() == 0 {
        Seq::empty()
    } else {
        let earlier = pending_events(rows.drop_last(), enabled);
        match event_for_db_value(rows.last().1) {
            Some(e) => if enabled.contains(e) {
                earlier.push((rows.last().0, e))
            } else {
                earlier
            },
            None => earlier,
        }
    }
}

/// The views of queue rows.
pub open spec fn row_views(rows: Seq<(i32, String)>) -> Seq<(i32, Seq<char>)> {
    rows.map_values(|r: (i32, String)| (r.0, r.1@))
}

/// Selects the queued events to process from the `ban_events` rows (ban id and
/// event value, oldest first).
pub fn pending_events_from_rows(rows: &Vec<(i32, String)>, enabled: &EnabledEvents) -> (r: Vec<
    (i32, BanEventType),
>)
    ensures
        r@ == pending_events(row_views(rows@), enabled@),
{
    let ghost all = row_views(rows@);
    let mut out: Vec<(i32, BanEventType)> = Vec::new();
    let mut i: usize = 0;
    while i < rows.len()
        invariant
            i <= rows.len(),
            all == row_views(rows@),
            out@ == pending_events(all.take(i as int), enabled@),
        decreases rows.len() - i,
    {
        assert(all.take(i + 1).drop_last() =~= all.take(i as int));
        assert(all.take(i + 1).last() == (rows@[i as int].0, rows@[i as int].1@));
        let ban_id = rows[i].0;
        match BanEventType::from_db_value(rows[i].1.as_str()) {
            Some(e) => {
                if enabled.contains(&e) {
                    out.push((ban_id, e));
                }
            },
            None => {},
        }
        i += 1;
    }
    assert(all.take(rows.len() as int) =~= all);
    out
}


// ---------------------------------------------------------------------------
// Laws
// ---------------------------------------------------------------------------

/// `EVENT_NAMES` is read without regard to ASCII case: lower-casing the
/// setting enables exactly the same events.
pub proof fn lemma_event_names_ignore_case(value: Seq<char>, e: BanEventType)
    ensures
        enables(ascii_lowercase(value), e) == enables(value, e),
{
    let seps = event_name_separators();
    assert forall|i: int| 0 <= i < seps.len() implies !('A' <= #[trigger] seps[i] <= 'Z') && !('a'
        <= seps[i] <= 'z') by {
        assert(seps[i] == ',' || seps[i] == ' ' || seps[i] == '\n' || seps[i] == '\t');
    }
    lemma_split_lowercase(value, seps);
    let pieces = split_any(value, seps);
    let lowered = split_any(ascii_lowercase(value), seps);
    assert(lowered == pieces.map_values(|p: Seq<char>| ascii_lowercase(p)));
    assert forall|i: int| 0 <= i < pieces.len() implies ascii_lowercase(trimmed(#[trigger] lowered[i]))
        == ascii_lowercase(trimmed(pieces[i])) by {
        lemma_trim_lowercase(pieces[i]);
        lemma_lowercase_idempotent(trimmed(pieces[i]));
    }
    let words = seq![db_value_of(e), channel_of(e)];
    assert forall|w: Seq<char>| words.contains(w) implies lists_event_name(ascii_lowercase(value), w)
        == lists_event_name(value, w) by {
        if lists_event_name(value, w) {
            let i = choose|i: int|
                0 <= i < pieces.len() && ascii_lowercase(trimmed(#[trigger] pieces[i])) == w;
            assert(ascii_lowercase(trimmed(lowered[i])) == w);
        }
        if lists_event_name(ascii_lowercase(value), w) {
            let i = choose|i: int|
                0 <= i < lowered.len() && ascii_lowercase(trimmed(#[trigger] lowered[i])) == w;
            assert(ascii_lowercase(trimmed(pieces[i])) == w);
        }
    }
    assert(words.contains(db_value_of(e)) && words.contains(channel_of(e))) by {
        assert(words[0] == db_value_of(e));
        assert(words[1] == channel_of(e));
    }
}

proof fn lemma_plain_word_listed(w: Seq<char>)
    requires
        w.len() > 0,
        forall|i: int| 0 <= i < w.len() ==> ('a' <= #[trigger] w[i] <= 'z' || w[i] == '_'),
    ensures
        lists_event_name(w, w),
{
    let seps = event_name_separators();
    assert forall|i: int| 0 <= i < w.len() implies !seps.contains(#[trigger] w[i]) by {
        if seps.contains(w[i]) {
            let k = choose|k: int| 0 <= k < seps.len() && seps[k] == w[i];
            assert(seps[k] == ',' || seps[k] == ' ' || seps[k] == '\n' || seps[k] == '\t');
        }
    }
    lemma_split_single(w, seps);
    lemma_trim_stops(w);
    assert(trimmed(w) == w);
    assert(ascii_lowercase(w) =~= w);
    assert(split_any(w, seps)[0] == w);
}

/// Either way of naming an event, alone, enables it: its channel name
/// (`ban_added`, `ban_edited`) and its queue value (`added`, `edited`).
pub proof fn lemma_single_names_enable(e: BanEventType)
    ensures
        enables(channel_of(e), e),
        enables(db_value_of(e), e),
{
    reveal_strlit("ban_added");
    reveal_strlit("ban_edited");
    reveal_strlit("added");
    reveal_strlit("edited");
    let c = channel_of(e);
    let d = db_value_of(e);
    assert forall|i: int| 0 <= i < c.len() implies ('a' <= #[trigger] c[i] <= 'z' || c[i] == '_') by {
        assert(c[i] == 'b' || c[i] == 'a' || c[i] == 'n' || c[i] == '_' || c[i] == 'd' || c[i]
            == 'e' || c[i] == 'i' || c[i] == 't');
    }
    assert forall|i: int| 0 <= i < d.len() implies ('a' <= #[trigger] d[i] <= 'z' || d[i] == '_') by {
        assert(d[i] == 'a' || d[i] == 'd' || d[i] == 'e' || d[i] == 'i' || d[i] == 't');
    }
    lemma_plain_word_listed(c);
    lemma_plain_word_listed(d);
}

/// The backlog replays only enabled events, and at most one per row.
pub proof fn lemma_pending_events_enabled(rows: Seq<(i32, Seq<char>)>, enabled: Set<BanEventType>)
    ensures
        forall|i: int|
            0 <= i < pending_events(rows, enabled).len() ==> enabled.contains(
                (#[trigger] pending_events(rows, enabled)[i]).1,
            ),
        pending_events(rows, enabled).len() <= rows.len(),
    decreases rows.len(),
{
    if rows.len() > 0 {
        lemma_pending_events_enabled(rows.drop_last(), enabled);
    }
}

/// `idx` places each selected event at a row that holds it: the rows are
/// taken in increasing order, and each has the event's ban id and names it.
pub open spec fn rows_in_order(
    rows: Seq<(i32, Seq<char>)>,
    selected: Seq<(i32, BanEventType)>,
    idx: spec_fn(int) -> int,
) -> bool {
    &&& forall|i: int|
        0 <= i < selected.len() ==> 0 <= #[trigger] idx(i) < rows.len() && rows[idx(i)].0
            == selected[i].0 && event_for_db_value(rows[idx(i)].1) == Some(selected[i].1)
    &&& forall|i: int, j: int| 0 <= i < j < selected.len() ==> #[trigger] idx(i) < #[trigger] idx(j)
}

/// The backlog keeps queue order: the replayed events come from the rows, in
/// the order of the rows, with their ban ids.
pub proof fn lemma_pending_events_keep_row_order(
    rows: Seq<(i32, Seq<char>)>,
    enabled: Set<BanEventType>,
)
    ensures
        exists|idx: spec_fn(int) -> int| #[trigger]
            rows_in_order(rows, pending_events(rows, enabled), idx),
    decreases rows.len(),
{
    if rows.len() == 0 {
        let idx = |i: int| i;
        assert(rows_in_order(rows, pending_events(rows, enabled), idx));
    } else {
        let front = rows.drop_last();
        lemma_pending_events_keep_row_order(front, enabled);
        let earlier = pending_events(front, enabled);
        let idx0 = choose|idx: spec_fn(int) -> int| #[trigger] rows_in_order(front, earlier, idx);
        let last = rows.len() - 1;
        let idx = |i: int| if i < earlier.len() { idx0(i) } else { last };
        let p = pending_events(rows, enabled);
        assert forall|i: int| 0 <= i < earlier.len() implies #[trigger] idx(i) == idx0(i) && idx0(
            i,
        ) < last && rows[idx(i)] == front[idx0(i)] by {
            assert(0 <= idx0(i) < front.len());
        }
        if p.len() == earlier.len() {
            assert(p == earlier);
            assert(rows_in_order(rows, p, idx));
        } else {
            assert(p == earlier.push(p[p.len() - 1]));
            assert forall|i: int, j: int| 0 <= i < j < p.len() implies #[trigger] idx(i) < #[trigger] idx(
                j,
            ) by {
                if j < earlier.len() {
                    assert(idx0(i) < idx0(j));
                }
            }
            assert(rows_in_order(rows, p, idx));
        }
    }
}

/// A notification is acted on as the event of the channel it came on: it is
/// processed only when that event is enabled and the payload spells a ban id,
/// and then for that id; it is skipped when the event is disabled; and it is
/// ignored exactly when the channel is no event's channel.
pub proof fn lemma_notification_keeps_channel_event(
    channel: Seq<char>,
    payload: Seq<char>,
    enabled: Set<BanEventType>,
)
    ensures
        (notification_action(channel, payload, enabled) matches NotificationAction::Process {
            ban_id,
            event_type,
        } ==> (channel_of(event_type) == channel && enabled.contains(event_type)
            && parse_i32_decimal(payload) == Some(ban_id))),
        (notification_action(channel, payload, enabled) matches NotificationAction::Disabled(e)
            ==> (channel_of(e) == channel && !enabled.contains(e))),
        (notification_action(channel, payload, enabled) matches NotificationAction::InvalidPayload(
            e,
        ) ==> (channel_of(e) == channel && enabled.contains(e) && parse_i32_decimal(payload) is None)),
        ((notification_action(channel, payload, enabled) is UnsupportedChannel) == (channel
            != channel_of(BanEventType::Added) && channel != channel_of(BanEventType::Edited))),
{
}

} // verus!
