use lfg_core::Activity;
use lfg_core::Event;
use lfg_core::EventAction;
use lfg_core::EventEdit;
use lfg_core::EventId;
use lfg_core::EventManager;
use lfg_core::EventMember;
use lfg_core::EventSchedulerConfig;
use lfg_core::MemStore;
use lfg_core::ScheduledAction;

const T0: i64 = 1_000_000;

fn test_event(idx: u8, secs_from_start: i64) -> Event {
    let activity = Activity::Custom;
    Event::new(
        EventId { activity, idx },
        activity,
        T0 + secs_from_start,
        String::new(),
        activity.default_group_size(),
        false,
        EventMember {
            id: 1,
            name: String::from("default"),
        },
    )
}

fn manager_with(events: Vec<Event>) -> EventManager<MemStore> {
    EventManager::new(
        events,
        MemStore::new(),
        EventSchedulerConfig {
            alert: 10,
            cleanup: 30,
        },
        &Vec::new(),
        false,
        T0,
    )
    .expect("initial events are valid")
}

/// Every action due and fresh at `now`, in firing order.
fn due_actions(manager: &mut EventManager<MemStore>, now: i64) -> Vec<ScheduledAction> {
    let mut fired = Vec::new();
    while let Some(action) = manager.take_due_action(T0 + now) {
        fired.push(action);
    }
    fired
}

#[test]
fn test_scheduler_with_initial_events() {
    let mut manager = manager_with(vec![
        test_event(1, 90),
        test_event(2, 30),
        test_event(3, 50),
    ]);

    // t == 11
    assert!(due_actions(&mut manager, 11).is_empty());

    // t == 21
    let fired = due_actions(&mut manager, 21);
    assert_eq!(fired.len(), 1);
    assert_eq!(fired[0].id.idx, 2);
    assert_eq!(fired[0].action, EventAction::Alert);

    // t == 41
    let fired = due_actions(&mut manager, 41);
    assert_eq!(fired.len(), 1);
    assert_eq!(fired[0].id.idx, 3);
    assert_eq!(fired[0].action, EventAction::Alert);

    // t == 61
    let fired = due_actions(&mut manager, 61);
    assert_eq!(fired.len(), 1);
    assert_eq!(fired[0].id.idx, 2);
    assert_eq!(fired[0].action, EventAction::Cleanup);

    // t == 81: check that both actions occur, in firing order.
    let fired = due_actions(&mut manager, 81);
    assert_eq!(fired.len(), 2);
    assert_eq!(fired[0].id.idx, 1);
    assert_eq!(fired[0].action, EventAction::Alert);
    assert_eq!(fired[1].id.idx, 3);
    assert_eq!(fired[1].action, EventAction::Cleanup);

    // t == 121
    let fired = due_actions(&mut manager, 121);
    assert_eq!(fired.len(), 1);
    assert_eq!(fired[0].id.idx, 1);
    assert_eq!(fired[0].action, EventAction::Cleanup);
}

#[test]
fn test_scheduler_add_edit_delete() {
    let mut manager = manager_with(vec![test_event(1, 200), test_event(2, 40)]);
    let id1 = EventId {
        activity: Activity::Custom,
        idx: 1,
    };
    let id2 = EventId {
        activity: Activity::Custom,
        idx: 2,
    };

    // t == 21
    assert!(due_actions(&mut manager, 21).is_empty());

    // t == 31
    let fired = due_actions(&mut manager, 31);
    assert_eq!(fired.len(), 1);
    assert_eq!(fired[0].id.idx, 2);
    assert_eq!(fired[0].action, EventAction::Alert);

    // Edit both events, changing their times.
    // Note that event 1's alert doesn't fire, since its time is in the past.
    manager.edit_event(id1, EventEdit::Datetime(T0 + 30), T0 + 31).unwrap();
    manager.edit_event(id2, EventEdit::Datetime(T0 + 50), T0 + 31).unwrap();

    // t == 41
    let fired = due_actions(&mut manager, 41);
    assert_eq!(fired.len(), 1);
    assert_eq!(fired[0].id.idx, 2);
    assert_eq!(fired[0].action, EventAction::Alert);

    // Edit both events, but not changing their times.
    manager
        .edit_event(id1, EventEdit::Description(String::from("foo")), T0 + 41)
        .unwrap();
    manager
        .edit_event(id2, EventEdit::Description(String::from("foo")), T0 + 41)
        .unwrap();

    // t == 61
    let fired = due_actions(&mut manager, 61);
    assert_eq!(fired.len(), 1);
    assert_eq!(fired[0].id.idx, 1);
    assert_eq!(fired[0].action, EventAction::Cleanup);

    // Delete the remaining event and add a new one.
    manager.delete_event(id2, T0 + 61).unwrap();
    manager.add_event(test_event(4, 200), T0 + 61).unwrap();

    // t == 191
    let fired = due_actions(&mut manager, 191);
    assert_eq!(fired.len(), 1);
    assert_eq!(fired[0].id.idx, 4);
    assert_eq!(fired[0].action, EventAction::Alert);
}

// The next deadline is always the earliest pending action's firing time.
#[test]
fn next_deadline_tracks_earliest_action() {
    let mut manager = manager_with(vec![test_event(1, 90), test_event(2, 30)]);
    // Pending: alert@20, alert@80, cleanup@60, cleanup@120.
    assert_eq!(manager.next_deadline(), Some(T0 + 20));
    let fired = due_actions(&mut manager, 21);
    assert_eq!(fired.len(), 1);
    assert_eq!(manager.next_deadline(), Some(T0 + 60));
}
