use lfg_core::Activity;
use lfg_core::ActivityType;
use lfg_core::ChannelUpdate;
use lfg_core::EventFilter;
use lfg_core::EventManager;
use lfg_core::EventMember;
use lfg_core::EventSchedulerConfig;
use lfg_core::MemStore;
use lfg_core::RealTimeSource;
use lfg_core::TimeSource;

const NOW: i64 = 1_000_000;

fn member(id: u64) -> EventMember {
    EventMember {
        id,
        name: String::from("user"),
    }
}

// The manager fans every change out to each configured channel: only the
// channels whose filter admits the event get operations.
#[test]
fn fan_out_respects_channel_filters() {
    let filters = vec![
        EventFilter::ByType(ActivityType::Raid),
        EventFilter::ByType(ActivityType::Crucible),
        EventFilter::All,
    ];
    let mut manager = EventManager::new(
        Vec::new(),
        MemStore::new(),
        EventSchedulerConfig {
            alert: 600,
            cleanup: 1800,
        },
        &filters,
        false,
        NOW,
    )
    .unwrap();

    let (event, updates) = manager
        .create_event(member(1), Activity::VaultOfGlass, 2_000_000, String::new(), NOW)
        .unwrap();
    assert_eq!(updates.len(), 3);
    assert_eq!(updates[0], vec![ChannelUpdate::New(event.clone())]);
    assert_eq!(updates[1], vec![]);
    assert_eq!(updates[2], vec![ChannelUpdate::New(event.clone())]);

    assert_eq!(manager.channel_count(), 3);
    assert_eq!(manager.channel_at(0).events().len(), 1);
    assert_eq!(manager.channel_at(1).events().len(), 0);
    assert_eq!(manager.channel_at(2).events().len(), 1);

    let updates = manager.delete_event(event.id(), NOW).unwrap();
    assert_eq!(updates[0], vec![ChannelUpdate::Delete(0)]);
    assert_eq!(updates[1], vec![]);
    assert_eq!(updates[2], vec![ChannelUpdate::Delete(0)]);
    assert_eq!(manager.channel_at(0).events().len(), 0);
}

// The real clock reads a sensible current time.
#[test]
fn real_time_source_reads_the_clock() {
    let clock = RealTimeSource;
    let now = clock.utc_now();
    // After the early 2000s and before the library's far time bound.
    assert!(now > 1_000_000_000);
    assert!(now < lfg_core::MAX_EVENT_TIME);
}
