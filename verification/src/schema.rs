//! The database objects that ban event delivery needs, and the confirmation
//! asked before a missing one is created.

use vstd::prelude::*;

use crate::embed::{parse_bool, parses_as_true};
use crate::text::{ascii_lowercase, to_ascii_lowercase, trim, trimmed};

verus! {

/// An object that the service creates in the bans database.
#[derive(Clone, Copy, Debug, PartialEq, Eq, Structural)]
pub enum SchemaObject {
    /// The `ban_event_type` enum.
    EventType,
    /// The `ban_events` queue table.
    EventQueue,
    /// The `notify_ban_events()` trigger function.
    NotifyFunction,
    /// The trigger on the bans table.
    NotifyTrigger,
}

/// How the confirmation names an object; `trigger` is the trigger's name.
pub open spec fn object_label(object: SchemaObject, trigger: Seq<char>) -> Seq<char> {
    match object {
        SchemaObject::EventType => "postgres type ban_event_type"@,
        SchemaObject::EventQueue => "postgres table ban_events"@,
        SchemaObject::NotifyFunction => "postgres function notify_ban_events"@,
        SchemaObject::NotifyTrigger => "postgres trigger "@ + trigger,
    }
}

/// The name of `object` in the confirmation, `trigger` being the trigger's name.
pub fn schema_object_label(object: SchemaObject, trigger: &str) -> (r: String)
    ensures
        r@ == object_label(object, trigger@),
{
    match object {
        SchemaObject::EventType => "postgres type ban_event_type".to_owned(),
        SchemaObject::EventQueue => "postgres table ban_events".to_owned(),
        SchemaObject::NotifyFunction => "postgres function notify_ban_events".to_owned(),
        SchemaObject::NotifyTrigger => {
            let mut label = "postgres trigger ".to_owned();
            label.append(trigger);
            label
        },
    }
}

/// The question asked before creating the object named `label`.
pub open spec fn prompt_text(label: Seq<char>) -> Seq<char> {
    "Create missing database object `"@ + label + "`? [y/n]: "@
}

/// The question asked before creating the object named `label`.
pub fn confirmation_prompt(label: &str) -> (r: String)
    ensures
        r@ == prompt_text(label@),
{
    let mut prompt = "Create missing database object `".to_owned();
    prompt.append(label);
    prompt.append("`? [y/n]: ");
    prompt
}

/// An answer to the question: `y` or `yes` agrees, `n` or `no` declines, in
/// any ASCII case and with surrounding whitespace; anything else is no answer.
pub open spec fn answer_meaning(answer: Seq<char>) -> Option<bool> {
    let a = ascii_lowercase(trimmed(answer));
    if a == "y"@ || a == "yes"@ {
        Some(true)
    } else if a == "n"@ || a == "no"@ {
        Some(false)
    } else {
        None
    }
}

/// Reads an answer to the question (see [`answer_meaning`]).
pub fn parse_confirmation(answer: &str) -> (r: Option<bool>)
    ensures
        r == answer_meaning(answer@),
{
    let a = to_ascii_lowercase(trim(answer));
    if a == "y".to_owned() || a == "yes".to_owned() {
        Some(true)
    } else if a == "n".to_owned() || a == "no".to_owned() {
        Some(false)
    } else {
        None
    }
}

/// `AUTO_CONFIRM_SCHEMA_CHANGES` approves every creation when it is set to a
/// true value (`1`, `true`, `yes` or `on`); unset, it approves nothing.
pub open spec fn auto_confirms(setting: Option<Seq<char>>) -> bool {
    match setting {
        Some(v) => parses_as_true(v),
        None => false,
    }
}

/// Whether the `AUTO_CONFIRM_SCHEMA_CHANGES` setting approves creations without asking.
pub fn auto_confirm_schema_changes(setting: Option<&str>) -> (r: bool)
    ensures
        r == auto_confirms(crate::i18n::opt_str_view(setting)),
{
    match setting {
        Some(v) => parse_bool(v),
        None => false,
    }
}

} // verus!
