use lfg_core::Activity;
use lfg_core::Event;
use lfg_core::EventError;
use lfg_core::EventId;
use lfg_core::EventManager;
use lfg_core::EventMember;
use lfg_core::EventSchedulerConfig;
use lfg_core::JoinKind;
use lfg_core::MemStore;

const NOW: i64 = 1_000_000;

fn member(id: u64, name: &str) -> EventMember {
    EventMember {
        id,
        name: String::from(name),
    }
}

fn manager_with_override(allow_duplicate_join: bool) -> EventManager<MemStore> {
    EventManager::new(
        Vec::new(),
        MemStore::new(),
        EventSchedulerConfig {
            alert: 600,
            cleanup: 1800,
        },
        &Vec::new(),
        allow_duplicate_join,
        NOW,
    )
    .expect("empty collection is valid")
}

fn in_lists(event: &Event, id: u64) -> (bool, bool, bool) {
    (
        event.confirmed().iter().any(|m| m.id == id),
        event.alternates().iter().any(|m| m.id == id),
        event.maybe().iter().any(|m| m.id == id),
    )
}

#[test]
fn join_puts_member_in_exactly_one_list() {
    let mut manager = manager_with_override(false);
    let (event, _) = manager
        .create_event(member(1, "creator"), Activity::VaultOfGlass, 2_000_000, String::new(), NOW)
        .unwrap();
    let id = event.id();

    manager.join(id, member(2, "alt"), JoinKind::Alternate, NOW).unwrap();
    let current = manager.get_event(id).unwrap();
    assert_eq!(in_lists(current, 2), (false, true, false));

    let mut manager2 = manager_with_override(false);
    let (event2, _) = manager2
        .create_event(member(1, "creator"), Activity::VaultOfGlass, 2_000_000, String::new(), NOW)
        .unwrap();
    manager2.join(event2.id(), member(3, "maybe"), JoinKind::Maybe, NOW).unwrap();
    let current2 = manager2.get_event(event2.id()).unwrap();
    assert_eq!(in_lists(current2, 3), (false, false, true));
}

#[test]
fn join_again_fails_without_override() {
    let mut manager = manager_with_override(false);
    let (event, _) = manager
        .create_event(member(1, "creator"), Activity::VaultOfGlass, 2_000_000, String::new(), NOW)
        .unwrap();
    let id = event.id();

    manager.join(id, member(2, "user"), JoinKind::Confirmed, NOW).unwrap();
    // The same member joining again, under any kind, is refused.
    assert_eq!(
        manager.join(id, member(2, "user"), JoinKind::Confirmed, NOW),
        Err(EventError::AlreadyInEvent)
    );
    assert_eq!(
        manager.join(id, member(2, "user"), JoinKind::Maybe, NOW),
        Err(EventError::AlreadyInEvent)
    );
    // The creator is confirmed at creation, so they cannot join either.
    assert_eq!(
        manager.join(id, member(1, "creator"), JoinKind::Alternate, NOW),
        Err(EventError::AlreadyInEvent)
    );
}

#[test]
fn join_again_allowed_with_override() {
    let mut manager = manager_with_override(true);
    let (event, _) = manager
        .create_event(member(1, "creator"), Activity::VaultOfGlass, 2_000_000, String::new(), NOW)
        .unwrap();
    let id = event.id();

    manager.join(id, member(2, "user"), JoinKind::Confirmed, NOW).unwrap();
    manager.join(id, member(2, "user"), JoinKind::Confirmed, NOW).unwrap();
    let current = manager.get_event(id).unwrap();
    assert_eq!(current.confirmed().iter().filter(|m| m.id == 2).count(), 2);
}

#[test]
fn leave_after_join_removes_member() {
    let mut manager = manager_with_override(false);
    let (event, _) = manager
        .create_event(member(1, "creator"), Activity::VaultOfGlass, 2_000_000, String::new(), NOW)
        .unwrap();
    let id = event.id();

    manager.join(id, member(2, "user"), JoinKind::Alternate, NOW).unwrap();
    manager.leave(id, 2, NOW).unwrap();
    let current = manager.get_event(id).unwrap();
    assert_eq!(in_lists(current, 2), (false, false, false));
    // After leaving, joining under another kind succeeds.
    manager.join(id, member(2, "user"), JoinKind::Maybe, NOW).unwrap();
    let current = manager.get_event(id).unwrap();
    assert_eq!(in_lists(current, 2), (false, false, true));
}

#[test]
fn leave_absent_member_fails() {
    let mut manager = manager_with_override(false);
    let (event, _) = manager
        .create_event(member(1, "creator"), Activity::VaultOfGlass, 2_000_000, String::new(), NOW)
        .unwrap();
    assert_eq!(manager.leave(event.id(), 99, NOW), Err(EventError::NotInEvent));
}

#[test]
fn join_missing_event_fails() {
    let mut manager = manager_with_override(false);
    let id = EventId {
        activity: Activity::VaultOfGlass,
        idx: 9,
    };
    assert_eq!(
        manager.join(id, member(2, "user"), JoinKind::Confirmed, NOW),
        Err(EventError::NotFound)
    );
    assert_eq!(manager.leave(id, 2, NOW), Err(EventError::NotFound));
    assert_eq!(manager.delete_event(id, NOW), Err(EventError::NotFound));
}

#[test]
fn duplicate_initial_ids_rejected() {
    let creator = member(1, "creator");
    let e1 = Event::new(
        EventId {
            activity: Activity::VaultOfGlass,
            idx: 1,
        },
        Activity::VaultOfGlass,
        2_000_000,
        String::new(),
        6,
        false,
        creator.clone(),
    );
    let e2 = Event::new(
        EventId {
            activity: Activity::VaultOfGlass,
            idx: 1,
        },
        Activity::VaultOfGlass,
        3_000_000,
        String::new(),
        6,
        false,
        creator,
    );
    let r = EventManager::new(
        vec![e1, e2],
        MemStore::new(),
        EventSchedulerConfig {
            alert: 600,
            cleanup: 1800,
        },
        &Vec::new(),
        false,
        NOW,
    );
    assert!(matches!(r, Err(EventError::InvalidSnapshot)));
}

#[test]
fn add_event_with_taken_id_fails() {
    let mut manager = manager_with_override(false);
    let creator = member(1, "creator");
    let e1 = Event::new(
        EventId {
            activity: Activity::VaultOfGlass,
            idx: 1,
        },
        Activity::VaultOfGlass,
        2_000_000,
        String::new(),
        6,
        false,
        creator.clone(),
    );
    manager.add_event(e1, NOW).unwrap();
    let e2 = Event::new(
        EventId {
            activity: Activity::VaultOfGlass,
            idx: 1,
        },
        Activity::VaultOfGlass,
        3_000_000,
        String::new(),
        6,
        false,
        creator,
    );
    assert_eq!(manager.add_event(e2, NOW), Err(EventError::IdInUse));
}

#[test]
fn edit_datetime_clears_alert_message() {
    let mut manager = manager_with_override(false);
    let (event, _) = manager
        .create_event(member(1, "creator"), Activity::VaultOfGlass, 2_000_000, String::new(), NOW)
        .unwrap();
    let id = event.id();

    manager
        .alert_event(id, String::from("time to form up"), NOW)
        .unwrap();
    let current = manager.get_event(id).unwrap();
    assert!(current.alerted());
    assert_eq!(
        current.alert_protocol_message(),
        Some(String::from("time to form up"))
    );

    // A non-time edit keeps the frozen alert message.
    manager
        .edit_event(id, lfg_core::EventEdit::Description(String::from("x")), NOW)
        .unwrap();
    assert!(manager.get_event(id).unwrap().alerted());

    // Changing the scheduled time clears it.
    manager
        .edit_event(id, lfg_core::EventEdit::Datetime(2_500_000), NOW)
        .unwrap();
    let current = manager.get_event(id).unwrap();
    assert!(!current.alerted());
    assert_eq!(current.datetime(), 2_500_000);
}

#[test]
fn alert_members_are_full_groups_only() {
    let mut manager = manager_with_override(false);
    let (event, _) = manager
        .create_event(member(1, "creator"), Activity::Prophecy, 2_000_000, String::new(), NOW)
        .unwrap();
    let id = event.id();
    // Group size 3: creator plus four more members makes one full group and
    // a partial one.
    for uid in 2..=5u64 {
        manager
            .join(id, member(uid, "user"), JoinKind::Confirmed, NOW)
            .unwrap();
    }
    let (members, _) = manager.alert_event(id, String::from("go"), NOW).unwrap();
    let ids: Vec<u64> = members.iter().map(|m| m.id).collect();
    assert_eq!(ids, vec![1, 2, 3]);
}

#[test]
fn confirmed_groups_chunking() {
    let mut manager = manager_with_override(false);
    let (event, _) = manager
        .create_event(member(1, "creator"), Activity::Prophecy, 2_000_000, String::new(), NOW)
        .unwrap();
    let id = event.id();
    for uid in 2..=4u64 {
        manager
            .join(id, member(uid, "user"), JoinKind::Confirmed, NOW)
            .unwrap();
    }
    manager.join(id, member(5, "alt"), JoinKind::Alternate, NOW).unwrap();
    let current = manager.get_event(id).unwrap();
    let groups = current.confirmed_groups();
    // Five roster members with group size 3: one full group, then a partial
    // group led by a confirmed member.
    assert_eq!(groups.len(), 2);
    let first: Vec<(u64, bool)> = groups[0].iter().map(|p| (p.0.id, p.1)).collect();
    let second: Vec<(u64, bool)> = groups[1].iter().map(|p| (p.0.id, p.1)).collect();
    assert_eq!(first, vec![(1, false), (2, false), (3, false)]);
    assert_eq!(second, vec![(4, false), (5, true)]);
    // All alternates are absorbed into the partial group, so none is extra.
    assert_eq!(current.extra_alts().len(), 0);
}

#[test]
fn extra_alternates_beyond_partial_group() {
    let mut manager = manager_with_override(false);
    let (event, _) = manager
        .create_event(member(1, "creator"), Activity::Prophecy, 2_000_000, String::new(), NOW)
        .unwrap();
    let id = event.id();
    // One confirmed member and four alternates with group size 3: the first
    // two alternates complete the partial group, the last two are extra.
    for uid in 2..=5u64 {
        manager
            .join(id, member(uid, "alt"), JoinKind::Alternate, NOW)
            .unwrap();
    }
    let current = manager.get_event(id).unwrap();
    let extras: Vec<u64> = current.extra_alts().iter().map(|m| m.id).collect();
    assert_eq!(extras, vec![4, 5]);
}
