use lfg_core::Activity;
use lfg_core::ActivityType;
use lfg_core::ChannelEvents;
use lfg_core::ChannelUpdate;
use lfg_core::Event;
use lfg_core::EventChange;
use lfg_core::EventFilter;
use lfg_core::EventId;
use lfg_core::EventMember;

const HOUR: i64 = 3600;
const BASE: i64 = 1_000_000;

fn test_event(activity: Activity, idx: u8, hours_away: i64) -> Event {
    Event::new(
        EventId { activity, idx },
        activity,
        BASE + hours_away * HOUR,
        String::new(),
        activity.default_group_size(),
        false,
        EventMember {
            id: 1,
            name: String::from("default"),
        },
    )
}

fn with_datetime(event: &Event, datetime: i64) -> Event {
    let mut e = event.clone();
    e.set_datetime(datetime);
    e
}

fn new_action(event: &Event) -> ChannelUpdate {
    ChannelUpdate::New(event.clone())
}

fn update_action(event: &Event, idx: usize) -> ChannelUpdate {
    ChannelUpdate::Update(event.clone(), idx)
}

fn delete_action(idx: usize) -> ChannelUpdate {
    ChannelUpdate::Delete(idx)
}

#[test]
fn channel_add_update_delete_matching_event() {
    let mut chan = ChannelEvents::new(EventFilter::ByType(ActivityType::Raid), &Vec::new());

    let event = test_event(Activity::DeepStoneCrypt, 1, 0);
    assert_eq!(
        chan.apply_event_change(&EventChange::Added(event.clone())),
        vec![new_action(&event)]
    );

    let mut edited = event.clone();
    edited.set_group_size(4);
    assert_eq!(
        chan.apply_event_change(&EventChange::Edited(edited.clone())),
        vec![update_action(&edited, 0)]
    );

    assert_eq!(
        chan.apply_event_change(&EventChange::Deleted(edited.clone())),
        vec![delete_action(0)]
    );
}

#[test]
fn embed_add_update_delete_matching_event() {
    let mut chan = ChannelEvents::new(EventFilter::ByType(ActivityType::Raid), &Vec::new());

    let event = test_event(Activity::DeepStoneCrypt, 1, 0);
    assert_eq!(
        chan.apply_event_change(&EventChange::Added(event.clone())),
        vec![new_action(&event)]
    );

    let mut edited = event.clone();
    edited.set_group_size(4);
    assert_eq!(
        chan.apply_event_change(&EventChange::Edited(edited.clone())),
        vec![update_action(&edited, 0)]
    );

    assert_eq!(
        chan.apply_event_change(&EventChange::Deleted(edited.clone())),
        vec![delete_action(0)]
    );
}

fn add_edit_delete_earlier_events_scenario() {
    let mut chan = ChannelEvents::new(EventFilter::ByType(ActivityType::Raid), &Vec::new());

    let event1 = test_event(Activity::DeepStoneCrypt, 10, 0);
    let event2 = test_event(Activity::VaultOfGlass, 20, 1);
    let event3 = test_event(Activity::LastWish, 30, 2);

    // Add the latest event first.
    assert_eq!(
        chan.apply_event_change(&EventChange::Added(event3.clone())),
        vec![new_action(&event3)]
    );

    // Add the earliest event.
    assert_eq!(
        chan.apply_event_change(&EventChange::Added(event1.clone())),
        vec![update_action(&event1, 0), new_action(&event3)]
    );

    // Add the middle event.
    assert_eq!(
        chan.apply_event_change(&EventChange::Added(event2.clone())),
        vec![update_action(&event2, 1), new_action(&event3)]
    );

    // Update the time of the latest event so that it is now the earliest.
    let event0 = with_datetime(&event3, event3.datetime() - 4 * HOUR);
    assert_eq!(
        chan.apply_event_change(&EventChange::Edited(event0.clone())),
        vec![
            update_action(&event0, 0),
            update_action(&event1, 1),
            update_action(&event2, 2),
        ]
    );

    // Delete the middle event.
    assert_eq!(
        chan.apply_event_change(&EventChange::Deleted(event1.clone())),
        vec![delete_action(1)]
    );

    // Edit the earliest event so that it no longer matches the filter.
    let moved = Event::new(
        event0.id(),
        Activity::Presage,
        event0.datetime(),
        String::new(),
        event0.group_size(),
        false,
        EventMember {
            id: 1,
            name: String::from("default"),
        },
    );
    assert_eq!(
        chan.apply_event_change(&EventChange::Edited(moved)),
        vec![delete_action(0)]
    );
}

#[test]
fn channel_add_edit_delete_earlier_events_test() {
    add_edit_delete_earlier_events_scenario();
}

#[test]
fn embed_add_edit_delete_earlier_events_test() {
    add_edit_delete_earlier_events_scenario();
}

// Replaying every emitted operation against a plain ordered list reproduces
// the channel's filtered, sorted view.
#[test]
fn replaying_updates_tracks_the_view() {
    let mut chan = ChannelEvents::new(EventFilter::All, &Vec::new());
    let mut mirror: Vec<Event> = Vec::new();

    let changes = vec![
        EventChange::Added(test_event(Activity::DeepStoneCrypt, 1, 5)),
        EventChange::Added(test_event(Activity::VaultOfGlass, 2, 1)),
        EventChange::Added(test_event(Activity::Gambit, 3, 3)),
        EventChange::Edited(test_event(Activity::VaultOfGlass, 2, 9)),
        EventChange::Deleted(test_event(Activity::Gambit, 3, 3)),
        EventChange::Added(test_event(Activity::Prophecy, 4, 2)),
    ];
    for change in changes {
        for op in chan.apply_event_change(&change) {
            match op {
                ChannelUpdate::New(e) => mirror.push(e),
                ChannelUpdate::Update(e, i) => mirror[i] = e,
                ChannelUpdate::Delete(i) => {
                    mirror.remove(i);
                }
            }
        }
        assert_eq!(&mirror, chan.events());
    }
}

// After a restart the reconciliation operations bring any partially
// matching external list back to the channel's view.
#[test]
fn reconcile_repairs_external_list() {
    let mut chan = ChannelEvents::new(EventFilter::All, &Vec::new());
    let a = test_event(Activity::DeepStoneCrypt, 1, 1);
    let b = test_event(Activity::VaultOfGlass, 2, 2);
    let c = test_event(Activity::LastWish, 3, 3);
    chan.apply_event_change(&EventChange::Added(a.clone()));
    chan.apply_event_change(&EventChange::Added(b.clone()));
    chan.apply_event_change(&EventChange::Added(c.clone()));

    // Two external messages: the first already shows the right event, the
    // second is out of sync, and the third message is missing entirely.
    let ops = chan.reconcile(&vec![true, false], 2);
    assert_eq!(ops, vec![update_action(&b, 1), new_action(&c)]);

    // Five external messages for three events: the surplus two are deleted
    // from the tail down.
    let ops = chan.reconcile(&vec![true, true, true], 5);
    assert_eq!(ops, vec![delete_action(4), delete_action(3)]);

    // Replaying the repair against a drifted mirror reproduces the view.
    let mut mirror = vec![a.clone(), a.clone()];
    for op in chan.reconcile(&vec![true, false], 2) {
        match op {
            ChannelUpdate::New(e) => mirror.push(e),
            ChannelUpdate::Update(e, i) => mirror[i] = e,
            ChannelUpdate::Delete(i) => {
                mirror.remove(i);
            }
        }
    }
    assert_eq!(&mirror, chan.events());
}
