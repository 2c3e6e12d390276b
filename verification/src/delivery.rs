//! Delivering an announcement to the registered channels: per channel, a new
//! ban is sent and the message id stored, an edited ban updates the stored
//! message; and when the broadcast as a whole fails.

use vstd::prelude::*;

use crate::events::BanEventType;

verus! {

/// A failure that stops the broadcast: the message id of a ban in a channel
/// could not be stored, or could not be looked up.
#[derive(Clone, Copy, Debug, PartialEq, Eq, Structural)]
pub enum DeliveryFailure {
    SaveBanMessage { ban_id: i32, channel_id: u64 },
    LoadBanMessage { ban_id: i32, channel_id: u64 },
}

/// What the last delivery action gave for a channel.
#[derive(Clone, Copy, Debug)]
pub enum DeliveryStep {
    /// Nothing has been done yet.
    Start,
    /// The message was sent, with its id, or sending failed (`None`).
    Sent(Option<u64>),
    /// The message id was stored, or storing it failed.
    Stored(bool),
    /// The stored message id (`None` when there is none), or `Err` when the
    /// lookup failed.
    LookedUp(Result<Option<u64>, ()>),
    /// The stored message was edited, or editing it failed.
    Edited(bool),
}

/// The next thing to do for a channel.
#[derive(Clone, Copy, Debug, PartialEq, Eq, Structural)]
pub enum DeliveryAction {
    /// Send the announcement as a new message.
    Send,
    /// Store `message_id` as the ban's message in the channel.
    Store { message_id: u64 },
    /// Look up the message stored for the ban in the channel.
    LookUp,
    /// Edit the message `message_id` to show the announcement.
    Edit { message_id: u64 },
    /// The channel is done with; failures to send or edit are only logged,
    /// and a channel with no stored message for an edited ban is skipped.
    Done,
    /// The broadcast fails.
    Fail(DeliveryFailure),
}

/// The delivery decisions for one channel: a new ban (`Added`) is sent and
/// the id of the sent message stored; an edited ban (`Edited`) looks up the
/// stored message and edits it. Failing to store or to look up an id fails
/// the broadcast; failing to send or edit does not. A step that does not
/// belong to the event ends the channel.
pub open spec fn delivery_action(
    event_type: BanEventType,
    ban_id: i32,
    channel_id: u64,
    step: DeliveryStep,
) -> DeliveryAction {
    match event_type {
        BanEventType::Added => match step {
            DeliveryStep::Start => DeliveryAction::Send,
            DeliveryStep::Sent(Some(message_id)) => DeliveryAction::Store { message_id },
            DeliveryStep::Stored(false) => DeliveryAction::Fail(
                DeliveryFailure::SaveBanMessage { ban_id, channel_id },
            ),
            _ => DeliveryAction::Done,
        },
        BanEventType::Edited => match step {
            DeliveryStep::Start => DeliveryAction::LookUp,
            DeliveryStep::LookedUp(Err(())) => DeliveryAction::Fail(
                DeliveryFailure::LoadBanMessage { ban_id, channel_id },
            ),
            DeliveryStep::LookedUp(Ok(Some(message_id))) => DeliveryAction::Edit { message_id },
            _ => DeliveryAction::Done,
        },
    }
}

/// The next delivery action for a channel (see [`delivery_action`]).
pub fn next_delivery_action(
    event_type: BanEventType,
    ban_id: i32,
    channel_id: u64,
    step: DeliveryStep,
) -> (r: DeliveryAction)
    ensures
        r == delivery_action(event_type, ban_id, channel_id, step),
{
    match event_type {
        BanEventType::Added => match step {
            DeliveryStep::Start => DeliveryAction::Send,
            DeliveryStep::Sent(Some(message_id)) => DeliveryAction::Store { message_id },
            DeliveryStep::Stored(false) => DeliveryAction::Fail(
                DeliveryFailure::SaveBanMessage { ban_id, channel_id },
            ),
            _ => DeliveryAction::Done,
        },
        BanEventType::Edited => match step {
            DeliveryStep::Start => DeliveryAction::LookUp,
            DeliveryStep::LookedUp(Err(())) => DeliveryAction::Fail(
                DeliveryFailure::LoadBanMessage { ban_id, channel_id },
            ),
            DeliveryStep::LookedUp(Ok(Some(message_id))) => DeliveryAction::Edit { message_id },
            _ => DeliveryAction::Done,
        },
    }
}

/// The registered channels as listed for a broadcast.
#[derive(Clone, Copy, Debug, PartialEq, Eq, Structural)]
pub enum ChannelListing {
    /// Listing the channels failed.
    Failed,
    /// The channels were listed; `count` of them.
    Listed { count: usize },
}

/// How a channel's delivery task ended.
#[derive(Clone, Copy, Debug, PartialEq, Eq, Structural)]
pub enum TaskOutcome {
    /// The channel was done with.
    Delivered,
    /// The channel's delivery failed the broadcast.
    Failed(DeliveryFailure),
    /// The task could not be joined; this is only logged.
    Lost,
}

/// The first failure among the finished tasks, in the order they finished.
pub open spec fn first_failure(finished: Seq<TaskOutcome>) -> Option<DeliveryFailure>
    decreases finished.len(),
{
    if finished.len() == 0 {
        None
    } else {
        match finished[0] {
            TaskOutcome::Failed(f) => Some(f),
            _ => first_failure(finished.drop_first()),
        }
    }
}

/// The broadcast goes to the channels only when they were listed and there
/// are some; a failed or empty listing ends it without error.
pub open spec fn broadcast_proceeds(listing: ChannelListing) -> bool {
    listing matches ChannelListing::Listed { count } && count > 0
}

/// The result of a broadcast given the listing and the tasks finished so far:
/// `Ok` for a failed or empty listing, otherwise the first failed task's
/// failure, or `Ok` while none has failed.
pub open spec fn broadcast_result(listing: ChannelListing, finished: Seq<TaskOutcome>) -> Result<
    (),
    DeliveryFailure,
> {
    if !broadcast_proceeds(listing) {
        Ok(())
    } else {
        match first_failure(finished) {
            Some(f) => Err(f),
            None => Ok(()),
        }
    }
}

/// Whether the broadcast goes to the channels (see [`broadcast_proceeds`]).
pub fn broadcast_goes_ahead(listing: ChannelListing) -> (r: bool)
    ensures
        r == broadcast_proceeds(listing),
{
    match listing {
        ChannelListing::Failed => false,
        ChannelListing::Listed { count } => count > 0,
    }
}

/// The result of a broadcast so far (see [`broadcast_result`]); the broadcast
/// stops at the first `Err`.
pub fn broadcast_outcome(listing: ChannelListing, finished: &Vec<TaskOutcome>) -> (r: Result<
    (),
    DeliveryFailure,
>)
    ensures
        r == broadcast_result(listing, finished@),
{
    if !broadcast_goes_ahead(listing) {
        return Ok(());
    }
    let mut i: usize = 0;
    assert(finished@.subrange(0, finished.len() as int) =~= finished@);
    while i < finished.len()
        invariant
            i <= finished.len(),
            broadcast_proceeds(listing),
            first_failure(finished@.subrange(i as int, finished.len() as int)) == first_failure(
                finished@,
            ),
        decreases finished.len() - i,
    {
        let ghost rest = finished@.subrange(i as int, finished.len() as int);
        assert(rest[0] == finished@[i as int]);
        match finished[i] {
            TaskOutcome::Failed(f) => {
                return Err(f);
            },
            _ => {},
        }
        assert(rest.drop_first() =~= finished@.subrange(i + 1, finished.len() as int));
        i += 1;
    }
    assert(finished@.subrange(i as int, finished.len() as int) =~= Seq::<TaskOutcome>::empty());
    Ok(())
}

/// Each action follows only the step it belongs to: a new ban is sent at the
/// start and its id stored after sending; an edited ban is looked up at the
/// start and edited after the lookup; after storing or editing, the channel is
/// done or the broadcast fails. A channel's delivery thus takes at most two
/// actions before it ends.
pub proof fn lemma_delivery_ends(
    event_type: BanEventType,
    ban_id: i32,
    channel_id: u64,
    step: DeliveryStep,
)
    ensures
        delivery_action(event_type, ban_id, channel_id, step) matches DeliveryAction::Send
            ==> step is Start && event_type is Added,
        delivery_action(event_type, ban_id, channel_id, step) matches DeliveryAction::LookUp
            ==> step is Start && event_type is Edited,
        delivery_action(event_type, ban_id, channel_id, step) matches DeliveryAction::Store { .. }
            ==> step is Sent,
        delivery_action(event_type, ban_id, channel_id, step) matches DeliveryAction::Edit { .. }
            ==> step is LookedUp,
        (step is Stored || step is Edited) ==> (delivery_action(
            event_type,
            ban_id,
            channel_id,
            step,
        ) is Done || delivery_action(event_type, ban_id, channel_id, step) is Fail),
{
}

/// The broadcast fails exactly where storing the id of a sent message failed
/// (a new ban) or looking up the stored id failed (an edited ban), and the
/// failure names the ban and the channel. Editing, whether it succeeds or
/// not, ends the channel, as do a failed send and a missing stored id; a sent
/// message's id is what is stored, and the stored id is what is edited.
pub proof fn lemma_delivery_outcomes(
    event_type: BanEventType,
    ban_id: i32,
    channel_id: u64,
    step: DeliveryStep,
)
    ensures
        (delivery_action(event_type, ban_id, channel_id, step) is Fail) == ((event_type is Added
            && step matches DeliveryStep::Stored(false)) || (event_type is Edited
            && step matches DeliveryStep::LookedUp(Err(_)))),
        (delivery_action(event_type, ban_id, channel_id, step) matches DeliveryAction::Fail(f)
            ==> f == (if event_type is Added {
            DeliveryFailure::SaveBanMessage { ban_id, channel_id }
        } else {
            DeliveryFailure::LoadBanMessage { ban_id, channel_id }
        })),
        (step is Edited ==> (delivery_action(event_type, ban_id, channel_id, step) is Done)),
        (step matches DeliveryStep::Sent(None) ==> (delivery_action(
            event_type,
            ban_id,
            channel_id,
            step,
        ) is Done)),
        (step matches DeliveryStep::LookedUp(Ok(None)) ==> (delivery_action(
            event_type,
            ban_id,
            channel_id,
            step,
        ) is Done)),
        (event_type is Added ==> (step matches DeliveryStep::Sent(Some(m)) ==> delivery_action(
            event_type,
            ban_id,
            channel_id,
            step,
        ) == (DeliveryAction::Store { message_id: m }))),
        (event_type is Edited ==> (step matches DeliveryStep::LookedUp(Ok(Some(m)))
            ==> delivery_action(event_type, ban_id, channel_id, step) == (DeliveryAction::Edit {
            message_id: m,
        }))),
{
}

/// A broadcast that goes ahead fails exactly when some finished task failed,
/// and then with the failure of the first one to finish; a failed or empty
/// listing never fails.
pub proof fn lemma_broadcast_fails_on_first_failure(
    listing: ChannelListing,
    finished: Seq<TaskOutcome>,
)
    ensures
        (!broadcast_proceeds(listing) ==> (broadcast_result(listing, finished) is Ok)),
        (broadcast_proceeds(listing) ==> ((broadcast_result(listing, finished) is Err) == (exists|
            i: int,
        | 0 <= i < finished.len() && (#[trigger] finished[i] is Failed)))),
        (broadcast_result(listing, finished) matches Err(f) ==> (exists|i: int|
            0 <= i < finished.len() && #[trigger] finished[i] == TaskOutcome::Failed(f) && (forall|
                j: int,
            | 0 <= j < i ==> !(#[trigger] finished[j] is Failed)))),
    decreases finished.len(),
{
    if finished.len() > 0 {
        let rest = finished.drop_first();
        lemma_broadcast_fails_on_first_failure(listing, rest);
        if broadcast_proceeds(listing) {
            if first_failure(finished) is None {
                assert forall|i: int| 0 <= i < finished.len() implies !(#[trigger] finished[i] is Failed) by {
                    if i > 0 {
                        assert(finished[i] == rest[i - 1]);
                    }
                }
            }
            if let Err(f) = broadcast_result(listing, finished) {
                if finished[0] is Failed {
                    assert(finished[0] == TaskOutcome::Failed(f));
                } else {
                    let k = choose|k: int|
                        0 <= k < rest.len() && #[trigger] rest[k] == TaskOutcome::Failed(f)
                            && forall|j: int| 0 <= j < k ==> !(#[trigger] rest[j] is Failed);
                    assert(finished[k + 1] == TaskOutcome::Failed(f));
                    assert forall|j: int| 0 <= j < k + 1 implies !(#[trigger] finished[j] is Failed) by {
                        if j > 0 {
                            assert(finished[j] == rest[j - 1]);
                        }
                    }
                }
            }
        }
    }
}

} // verus!
