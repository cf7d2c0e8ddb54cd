use lfg_core::Activity;
use lfg_core::Event;
use lfg_core::EventError;
use lfg_core::EventId;
use lfg_core::EventManager;
use lfg_core::EventMember;
use lfg_core::EventSchedulerConfig;
use lfg_core::MemStore;

const VOG: Activity = Activity::VaultOfGlass;
const GOS: Activity = Activity::GardenOfSalvation;

fn event_id(activity: Activity, idx: u8) -> EventId {
    EventId { activity, idx }
}

fn test_member(id: u64) -> EventMember {
    EventMember {
        id,
        name: String::from("default"),
    }
}

fn test_manager() -> EventManager<MemStore> {
    EventManager::new(
        Vec::new(),
        MemStore::new(),
        EventSchedulerConfig {
            alert: 600,
            cleanup: 1800,
        },
        &Vec::new(),
        false,
        1_000_000,
    )
    .expect("empty collection is valid")
}

fn test_event(activity: Activity, idx: u8) -> Event {
    Event::new(
        event_id(activity, idx),
        activity,
        2_000_000,
        String::new(),
        activity.default_group_size(),
        false,
        test_member(1),
    )
}

fn add_events_to_manager(
    manager: &mut EventManager<MemStore>,
    activity: Activity,
    indexes: impl IntoIterator<Item = u8>,
) {
    for index in indexes {
        manager
            .add_event(test_event(activity, index), 1_000_000)
            .expect("Error while adding test events");
    }
}

#[test]
fn event_test_event_id_display() {
    assert_eq!(event_id(VOG, 42).id_string(), "vog42");
    assert_eq!(event_id(GOS, 128).id_string(), "gos128");
}

#[test]
fn mod_test_event_id_display() {
    assert_eq!(event_id(VOG, 42).id_string(), "vog42");
    assert_eq!(event_id(GOS, 128).id_string(), "gos128");
}

#[test]
fn event_test_next_id_advances() {
    let mut manager = test_manager();
    assert_eq!(manager.next_id(VOG).unwrap(), event_id(VOG, 1));
    assert_eq!(manager.next_id(VOG).unwrap(), event_id(VOG, 2));
    // Other activities are unaffected.
    assert_eq!(manager.next_id(GOS).unwrap(), event_id(GOS, 1));
    assert_eq!(manager.next_id(GOS).unwrap(), event_id(GOS, 2));
}

#[test]
fn mod_test_next_id_advances() {
    let mut manager = test_manager();
    assert_eq!(manager.next_id(VOG).unwrap(), event_id(VOG, 1));
    assert_eq!(manager.next_id(VOG).unwrap(), event_id(VOG, 2));
    assert_eq!(manager.next_id(GOS).unwrap(), event_id(GOS, 1));
    assert_eq!(manager.next_id(GOS).unwrap(), event_id(GOS, 2));
}

#[test]
fn event_test_next_id_gaps() {
    let mut manager = test_manager();
    add_events_to_manager(&mut manager, VOG, (1u8..=20).chain(23u8..=50));
    assert_eq!(manager.next_id(VOG).unwrap(), event_id(VOG, 21));
    assert_eq!(manager.next_id(VOG).unwrap(), event_id(VOG, 22));
    assert_eq!(manager.next_id(VOG).unwrap(), event_id(VOG, 51));
}

#[test]
fn mod_test_next_id_gaps() {
    let mut manager = test_manager();
    add_events_to_manager(&mut manager, VOG, (1u8..=20).chain(23u8..=50));
    assert_eq!(manager.next_id(VOG).unwrap(), event_id(VOG, 21));
    assert_eq!(manager.next_id(VOG).unwrap(), event_id(VOG, 22));
    assert_eq!(manager.next_id(VOG).unwrap(), event_id(VOG, 51));
}

#[test]
fn event_test_next_id_wraps() {
    let mut manager = test_manager();
    add_events_to_manager(&mut manager, VOG, (1u8..=41).chain(44u8..=255));
    assert_eq!(manager.next_id(VOG).unwrap(), event_id(VOG, 42));
    assert_eq!(manager.next_id(VOG).unwrap(), event_id(VOG, 43));
    // Will wrap around and find the still unused indexes.
    assert_eq!(manager.next_id(VOG).unwrap(), event_id(VOG, 42));
    assert_eq!(manager.next_id(VOG).unwrap(), event_id(VOG, 43));
    add_events_to_manager(&mut manager, VOG, std::iter::once(42));
    assert_eq!(manager.next_id(VOG).unwrap(), event_id(VOG, 43));
}

#[test]
fn mod_test_next_id_wraps() {
    let mut manager = test_manager();
    add_events_to_manager(&mut manager, VOG, (1u8..=41).chain(44u8..=255));
    assert_eq!(manager.next_id(VOG).unwrap(), event_id(VOG, 42));
    assert_eq!(manager.next_id(VOG).unwrap(), event_id(VOG, 43));
    assert_eq!(manager.next_id(VOG).unwrap(), event_id(VOG, 42));
    assert_eq!(manager.next_id(VOG).unwrap(), event_id(VOG, 43));
    add_events_to_manager(&mut manager, VOG, std::iter::once(42));
    assert_eq!(manager.next_id(VOG).unwrap(), event_id(VOG, 43));
}

#[test]
fn event_test_next_exhausted() {
    let mut manager = test_manager();
    add_events_to_manager(&mut manager, VOG, 1u8..=255);
    assert!(manager.next_id(VOG).is_err());
    // Other activities are unaffected.
    assert_eq!(manager.next_id(GOS).unwrap(), event_id(GOS, 1));
}

#[test]
fn mod_test_next_exhausted() {
    let mut manager = test_manager();
    add_events_to_manager(&mut manager, VOG, 1u8..=255);
    assert!(manager.next_id(VOG).is_err());
    assert_eq!(manager.next_id(GOS).unwrap(), event_id(GOS, 1));
}

#[test]
fn event_test_create_event() {
    let mut manager = test_manager();
    let t = 2_000_000;
    let user = test_member(7);
    assert_eq!(
        manager
            .create_event(user.clone(), VOG, t, String::new(), 1_000_000)
            .unwrap()
            .0
            .id(),
        event_id(VOG, 1)
    );
    assert_eq!(
        manager
            .create_event(user.clone(), VOG, t, String::new(), 1_000_000)
            .unwrap()
            .0
            .id(),
        event_id(VOG, 2)
    );
    assert_eq!(
        manager
            .create_event(user, GOS, t, String::new(), 1_000_000)
            .unwrap()
            .0
            .id(),
        event_id(GOS, 1)
    );
}

#[test]
fn mod_test_create_event() {
    let mut manager = test_manager();
    let t = 2_000_000;
    let user = test_member(7);
    assert_eq!(
        manager
            .create_event(user.clone(), VOG, t, String::new(), 1_000_000)
            .unwrap()
            .0
            .id(),
        event_id(VOG, 1)
    );
    assert_eq!(
        manager
            .create_event(user.clone(), VOG, t, String::new(), 1_000_000)
            .unwrap()
            .0
            .id(),
        event_id(VOG, 2)
    );
    assert_eq!(
        manager
            .create_event(user, GOS, t, String::new(), 1_000_000)
            .unwrap()
            .0
            .id(),
        event_id(GOS, 1)
    );
}

#[test]
fn next_exhaustion_error_kind() {
    let mut manager = test_manager();
    add_events_to_manager(&mut manager, VOG, 1u8..=255);
    assert_eq!(manager.next_id(VOG), Err(EventError::IdSpaceExhausted));
}

#[test]
fn id_string_digit_widths() {
    assert_eq!(event_id(Activity::Custom, 5).id_string(), "cust5");
    assert_eq!(event_id(Activity::KingsFall, 40).id_string(), "kf40");
    assert_eq!(event_id(Activity::KingsFall, 255).id_string(), "kf255");
}

// Parsing is the inverse of rendering, for every activity and sample
// sequence numbers of every digit width.
#[test]
fn parse_inverts_id_string() {
    for activity in Activity::all() {
        for idx in [1u8, 9, 10, 99, 100, 255] {
            let id = event_id(activity, idx);
            assert_eq!(EventId::parse(&id.id_string()), Some(id));
        }
    }
}

#[test]
fn parse_rejects_malformed_ids() {
    assert_eq!(EventId::parse(""), None);
    assert_eq!(EventId::parse("vog"), None);
    assert_eq!(EventId::parse("42"), None);
    assert_eq!(EventId::parse("zzz42"), None);
    assert_eq!(EventId::parse("vog256"), None);
    assert_eq!(EventId::parse("vog4x2"), None);
    assert_eq!(EventId::parse("vog042"), Some(event_id(VOG, 42)));
}
