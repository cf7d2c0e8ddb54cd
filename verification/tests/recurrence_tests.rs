use lfg_core::Activity;
use lfg_core::Event;
use lfg_core::EventId;
use lfg_core::EventManager;
use lfg_core::EventMember;
use lfg_core::EventSchedulerConfig;
use lfg_core::JoinKind;
use lfg_core::MemStore;
use lfg_core::WEEK_SECONDS;

const T: i64 = 1_000_000;

fn member(id: u64) -> EventMember {
    EventMember {
        id,
        name: String::from("user"),
    }
}

fn manager_with(events: Vec<Event>) -> EventManager<MemStore> {
    EventManager::new(
        events,
        MemStore::new(),
        EventSchedulerConfig {
            alert: 600,
            cleanup: 1800,
        },
        &Vec::new(),
        false,
        T,
    )
    .expect("initial events are valid")
}

fn recurring_event(idx: u8, datetime: i64) -> Event {
    let activity = Activity::IronBanner;
    let mut e = Event::new(
        EventId { activity, idx },
        activity,
        datetime,
        String::from("weekly"),
        6,
        false,
        member(1),
    );
    e.set_recur(true);
    e
}

#[test]
fn cleanup_non_recurring_removes_only() {
    let mut manager = manager_with(Vec::new());
    let (event, _) = manager
        .create_event(member(1), Activity::VaultOfGlass, T, String::new(), T)
        .unwrap();
    let (removed, _, recreated) = manager.cleanup_event(event.id(), T + 1800).unwrap();
    assert_eq!(removed.id(), event.id());
    assert!(recreated.is_none());
    assert_eq!(manager.len(), 0);
}

// Cleaning a recurring event up one grace period after its time recreates
// it exactly one week later, with empty participant lists.
#[test]
fn cleanup_recurring_advances_one_week() {
    let mut manager = manager_with(vec![recurring_event(3, T)]);
    let id = EventId {
        activity: Activity::IronBanner,
        idx: 3,
    };
    manager.join(id, member(2), JoinKind::Confirmed, T).unwrap();
    manager.join(id, member(4), JoinKind::Maybe, T).unwrap();

    let (removed, _, recreated) = manager.cleanup_event(id, T + 1800).unwrap();
    assert_eq!(removed.id(), id);
    let (new_event, _) = recreated.expect("recurring event is recreated");
    assert_eq!(new_event.datetime(), T + WEEK_SECONDS);
    assert!(new_event.recur());
    assert_eq!(new_event.activity(), Activity::IronBanner);
    assert_eq!(new_event.description(), "weekly");
    assert_eq!(new_event.group_size(), 6);
    assert!(new_event.confirmed().is_empty());
    assert!(new_event.alternates().is_empty());
    assert!(new_event.maybe().is_empty());
    // The old index is free again, so the recreated event takes a fresh one.
    assert_eq!(manager.len(), 1);
}

// A cleanup long after the event advances by as many whole weeks as it
// takes to land in the future.
#[test]
fn cleanup_recurring_skips_missed_weeks() {
    let mut manager = manager_with(vec![recurring_event(3, T)]);
    let id = EventId {
        activity: Activity::IronBanner,
        idx: 3,
    };
    // Ten weeks and a day have passed while the system was offline.
    let now = T + 10 * WEEK_SECONDS + 86400;
    let (_, _, recreated) = manager.cleanup_event(id, now).unwrap();
    let (new_event, _) = recreated.expect("recurring event is recreated");
    assert_eq!(new_event.datetime(), T + 11 * WEEK_SECONDS);
    assert!(new_event.datetime() > now);
    assert!(new_event.datetime() - WEEK_SECONDS <= now);
}

// A cleanup exactly one whole number of weeks later moves past that moment.
#[test]
fn cleanup_recurring_on_week_boundary() {
    let mut manager = manager_with(vec![recurring_event(3, T)]);
    let id = EventId {
        activity: Activity::IronBanner,
        idx: 3,
    };
    let now = T + 2 * WEEK_SECONDS;
    let (_, _, recreated) = manager.cleanup_event(id, now).unwrap();
    let (new_event, _) = recreated.expect("recurring event is recreated");
    assert_eq!(new_event.datetime(), T + 3 * WEEK_SECONDS);
}
