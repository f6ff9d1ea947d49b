use skirmish_script::definition::Hook;
use skirmish_script::dispatcher::Dispatcher;
use skirmish_script::events::{DispatchError, OwnerId, MAX_SUBSCRIPTIONS};

#[test]
fn dispatcher_only_routes_explicit_kinds() {
    let owner = OwnerId(7);
    let mut dispatcher = Dispatcher::default();
    let input = dispatcher.subscribe(owner, Hook::InputPressed).unwrap();
    let action = dispatcher.subscribe(owner, Hook::ActionEntered).unwrap();
    assert_eq!(dispatcher.dispatch(Hook::InputPressed), vec![input]);
    assert!(dispatcher.dispatch(Hook::Landed).is_empty());
    assert!(dispatcher.cancel(action));
    assert_eq!(dispatcher.len(), 1);
}

#[test]
fn identities_start_at_one_and_ascend() {
    let mut dispatcher = Dispatcher::new();
    let first = dispatcher.subscribe(OwnerId(1), Hook::Landed).unwrap();
    let second = dispatcher.subscribe(OwnerId(2), Hook::Landed).unwrap();
    let third = dispatcher.subscribe(OwnerId(1), Hook::Landed).unwrap();
    assert_eq!(first.get(), 1);
    assert_eq!(second.get(), 2);
    assert_eq!(third.get(), 3);
    assert_eq!(dispatcher.dispatch(Hook::Landed), vec![first, second, third]);
}

#[test]
fn cancelling_an_unknown_subscription_reports_false() {
    let mut dispatcher = Dispatcher::new();
    let id = dispatcher.subscribe(OwnerId(1), Hook::AfterHit).unwrap();
    assert!(dispatcher.cancel(id));
    assert!(!dispatcher.cancel(id));
    assert!(dispatcher.is_empty());
    assert!(dispatcher.dispatch(Hook::AfterHit).is_empty());
}

#[test]
fn cancel_owner_removes_only_that_owner() {
    let mut dispatcher = Dispatcher::new();
    let a = dispatcher.subscribe(OwnerId(1), Hook::BeforeHit).unwrap();
    let _b = dispatcher.subscribe(OwnerId(2), Hook::BeforeHit).unwrap();
    let c = dispatcher.subscribe(OwnerId(1), Hook::Landed).unwrap();
    let d = dispatcher.subscribe(OwnerId(3), Hook::BeforeHit).unwrap();
    dispatcher.cancel_owner(OwnerId(2));
    assert_eq!(dispatcher.len(), 3);
    assert_eq!(dispatcher.dispatch(Hook::BeforeHit), vec![a, d]);
    assert_eq!(dispatcher.dispatch(Hook::Landed), vec![c]);
}

#[test]
fn subscription_limit_is_enforced() {
    let mut dispatcher = Dispatcher::new();
    for _ in 0..MAX_SUBSCRIPTIONS {
        dispatcher.subscribe(OwnerId(1), Hook::StickChanged).unwrap();
    }
    assert_eq!(
        dispatcher.subscribe(OwnerId(1), Hook::StickChanged),
        Err(DispatchError::TooManySubscriptions)
    );
    assert_eq!(dispatcher.len(), MAX_SUBSCRIPTIONS);
}

#[test]
fn identities_are_not_reused_after_cancel() {
    let mut dispatcher = Dispatcher::new();
    let first = dispatcher.subscribe(OwnerId(1), Hook::Landed).unwrap();
    assert!(dispatcher.cancel(first));
    let second = dispatcher.subscribe(OwnerId(1), Hook::Landed).unwrap();
    assert_eq!(second.get(), 2);
}
