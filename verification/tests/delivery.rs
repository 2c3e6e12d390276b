use glowing_spork::delivery::{
    broadcast_goes_ahead, broadcast_outcome, next_delivery_action, ChannelListing, DeliveryAction,
    DeliveryFailure, DeliveryStep, TaskOutcome,
};
use glowing_spork::events::BanEventType;

#[test]
fn new_ban_is_sent_then_stored() {
    let a = BanEventType::Added;
    assert_eq!(next_delivery_action(a, 7, 42, DeliveryStep::Start), DeliveryAction::Send);
    assert_eq!(
        next_delivery_action(a, 7, 42, DeliveryStep::Sent(Some(900))),
        DeliveryAction::Store { message_id: 900 }
    );
    assert_eq!(next_delivery_action(a, 7, 42, DeliveryStep::Sent(None)), DeliveryAction::Done);
    assert_eq!(next_delivery_action(a, 7, 42, DeliveryStep::Stored(true)), DeliveryAction::Done);
    assert_eq!(
        next_delivery_action(a, 7, 42, DeliveryStep::Stored(false)),
        DeliveryAction::Fail(DeliveryFailure::SaveBanMessage { ban_id: 7, channel_id: 42 })
    );
}

#[test]
fn edited_ban_updates_the_stored_message() {
    let e = BanEventType::Edited;
    assert_eq!(next_delivery_action(e, 7, 42, DeliveryStep::Start), DeliveryAction::LookUp);
    assert_eq!(
        next_delivery_action(e, 7, 42, DeliveryStep::LookedUp(Ok(Some(900)))),
        DeliveryAction::Edit { message_id: 900 }
    );
    assert_eq!(next_delivery_action(e, 7, 42, DeliveryStep::LookedUp(Ok(None))), DeliveryAction::Done);
    assert_eq!(
        next_delivery_action(e, 7, 42, DeliveryStep::LookedUp(Err(()))),
        DeliveryAction::Fail(DeliveryFailure::LoadBanMessage { ban_id: 7, channel_id: 42 })
    );
    assert_eq!(next_delivery_action(e, 7, 42, DeliveryStep::Edited(false)), DeliveryAction::Done);
}

#[test]
fn broadcast_results() {
    assert!(!broadcast_goes_ahead(ChannelListing::Failed));
    assert!(!broadcast_goes_ahead(ChannelListing::Listed { count: 0 }));
    assert!(broadcast_goes_ahead(ChannelListing::Listed { count: 2 }));
    let fail = DeliveryFailure::SaveBanMessage { ban_id: 1, channel_id: 5 };
    let listed = ChannelListing::Listed { count: 3 };
    assert_eq!(broadcast_outcome(ChannelListing::Failed, &vec![TaskOutcome::Failed(fail)]), Ok(()));
    assert_eq!(broadcast_outcome(listed, &vec![TaskOutcome::Delivered, TaskOutcome::Lost]), Ok(()));
    let other = DeliveryFailure::LoadBanMessage { ban_id: 1, channel_id: 6 };
    assert_eq!(
        broadcast_outcome(
            listed,
            &vec![TaskOutcome::Delivered, TaskOutcome::Failed(fail), TaskOutcome::Failed(other)]
        ),
        Err(fail)
    );
}
