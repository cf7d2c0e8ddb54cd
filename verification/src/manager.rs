//! The orchestrator: create, join, leave, edit, delete, alert and cleanup,
//! each an atomic step that mutates the store, persists the snapshot, and
//! fans the change out to the scheduler and to every channel view.
//!
//! Every operation returns, per channel, the view operations the caller must
//! apply to the external representations; the snapshot is persisted before
//! those are handed back. A persistence failure is surfaced as the error of
//! a `Result`, which cannot also carry the computed operations; the
//! contracts instead pin the kept in-memory mutation, the rescheduled
//! actions and the post-failure channel views exactly, and the caller then
//! repairs its external representations through `reconcile` rather than
//! applying incremental operations.

use vstd::prelude::*;

use crate::activity::Activity;
use crate::event::ChangeView;
use crate::event::Event;
use crate::event::EventChange;
use crate::event::EventError;
use crate::event::EventId;
use crate::event::EventMember;
use crate::event::EventView;
use crate::event::event_wf;
use crate::scheduler::EventScheduler;
use crate::scheduler::EventSchedulerConfig;
use crate::scheduler::ScheduledAction;
use crate::scheduler::changed_pending;
use crate::store::EventStore;
use crate::store::Store;
use crate::store::events_view;
use crate::store::has_event;
use crate::store::collection_changed;
use crate::store::lemma_has_event_push;
use crate::store::lemma_has_event_remove;
use crate::store::lemma_has_event_update;
use crate::store::lookup_event;
use crate::sync::ChannelEvents;
use crate::sync::ChannelUpdate;
use crate::sync::EventFilter;
use crate::sync::apply_updates;
use crate::sync::changed_event_set;
use crate::sync::updates_view;

verus! {

/// Seconds in one week, the recurrence step.
pub const WEEK_SECONDS: i64 = 604800;

/// An injectable clock, so that tests can drive time by hand.
pub trait TimeSource {
    /// The current time, in seconds since the Unix epoch.
    fn utc_now(&self) -> i64;
}

/// Relies on chrono::Utc::now: the current time as seconds since the Unix
/// epoch. The result depends on the machine's clock, so nothing is promised
/// of it; on a machine whose clock reads before the Unix epoch the call
/// panics inside chrono.
#[verifier::external_body]
fn chrono_now_unix() -> i64 {
    chrono::Utc::now().timestamp()
}

/// The real clock.
#[derive(Debug)]
pub struct RealTimeSource;

impl TimeSource for RealTimeSource {
    fn utc_now(&self) -> i64 {
        chrono_now_unix()
    }
}

/// The scheduled time of the next occurrence of a recurring event whose
/// time was `datetime`, cleaned up at `now`: the original time advanced by
/// whole weeks, one more than fit between the two times.
pub open spec fn next_recurrence_spec(datetime: int, now: int) -> int {
    let d = now - datetime;
    let w = if d >= 0 {
        d / (WEEK_SECONDS as int)
    } else {
        -((-d) / (WEEK_SECONDS as int))
    };
    datetime + (w + 1) * (WEEK_SECONDS as int)
}

/// The scheduled time of the next occurrence of a recurring event.
pub fn next_recurrence(datetime: i64, now: i64) -> (r: i64)
    requires
        0 <= datetime <= crate::event::MAX_EVENT_TIME,
        0 <= now <= crate::event::MAX_EVENT_TIME,
    ensures
        r == next_recurrence_spec(datetime as int, now as int),
        0 <= r <= now + 2 * WEEK_SECONDS,
{
    if now >= datetime {
        let d = (now - datetime) as u64;
        let w = d / (WEEK_SECONDS as u64);
        proof {
            assert(w * (WEEK_SECONDS as u64) <= d) by (nonlinear_arith)
                requires
                    w == d / (WEEK_SECONDS as u64),
                    d >= 0,
            ;
        }
        proof {
            assert((w + 1) * (WEEK_SECONDS as u64) <= d + (WEEK_SECONDS as u64)) by (
            nonlinear_arith)
                requires
                    w * (WEEK_SECONDS as u64) <= d,
            ;
        }
        datetime + ((w + 1) * (WEEK_SECONDS as u64)) as i64
    } else {
        let d = (datetime - now) as u64;
        let wneg = d / (WEEK_SECONDS as u64);
        proof {
            assert(wneg * (WEEK_SECONDS as u64) <= d) by (nonlinear_arith)
                requires
                    wneg == d / (WEEK_SECONDS as u64),
                    d >= 0,
            ;
            assert(-((-((now - datetime) as int)) / (WEEK_SECONDS as int)) == -(wneg as int));
            assert(d < (wneg + 1) * (WEEK_SECONDS as u64)) by (nonlinear_arith)
                requires
                    wneg == d / (WEEK_SECONDS as u64),
                    d >= 0,
            ;
        }
        datetime + WEEK_SECONDS - (wneg as i64) * WEEK_SECONDS
    }
}

/// Recurrence advancement: cleaning up a recurring event whose time is now
/// past moves it to the first whole-week advance that lies in the future,
/// at least one full week after the original time.
pub proof fn lemma_recurrence_advancement(datetime: int, now: int)
    requires
        0 <= datetime <= now,
    ensures
        next_recurrence_spec(datetime, now) > now,
        next_recurrence_spec(datetime, now) - WEEK_SECONDS as int <= now,
        (next_recurrence_spec(datetime, now) - datetime) % (WEEK_SECONDS as int) == 0,
        next_recurrence_spec(datetime, now) >= datetime + WEEK_SECONDS as int,
{
    let wk = WEEK_SECONDS as int;
    let d = now - datetime;
    let w = d / wk;
    assert(d == wk * w + d % wk && 0 <= d % wk < wk) by {
        vstd::arithmetic::div_mod::lemma_fundamental_div_mod(d, wk);
        vstd::arithmetic::div_mod::lemma_mod_bound(d, wk);
    }
    assert(next_recurrence_spec(datetime, now) == datetime + (w + 1) * wk);
    assert((w + 1) * wk == w * wk + wk) by (nonlinear_arith);
    assert(w * wk == wk * w) by (nonlinear_arith);
    assert(w >= 0) by {
        vstd::arithmetic::div_mod::lemma_div_pos_is_pos(d, wk);
    }
    assert(((w + 1) * wk) % wk == 0) by {
        vstd::arithmetic::div_mod::lemma_mod_multiples_basic(w + 1, wk);
    }
}

/// A channel shows only events that exist in the collection.
pub open spec fn channel_consistent(c: ChannelEvents, events: Seq<EventView>) -> bool {
    forall|i: int|
        0 <= i < c.events_spec().len() ==> has_event(events, (#[trigger] c.events_spec()[i]).id)
}

/// The event manager for one community: the authoritative store, the action
/// scheduler, and one view channel per configured filter.
pub struct EventManager<S: Store> {
    store: EventStore<S>,
    scheduler: EventScheduler,
    channels: Vec<ChannelEvents>,
    allow_duplicate_join: bool,
}

impl<S: Store> EventManager<S> {
    /// The current collection of events.
    pub closed spec fn events_spec(self) -> Seq<EventView> {
        self.store.events_spec()
    }

    /// The history of persisted snapshots.
    pub closed spec fn saved_spec(self) -> Seq<Seq<EventView>> {
        self.store.saved_spec()
    }

    /// Where the identifier scan for an activity starts.
    pub closed spec fn counter_spec(self, activity: Activity) -> u8 {
        self.store.counter_spec(activity)
    }

    /// The pending timed actions.
    pub closed spec fn pending_spec(self) -> Set<ScheduledAction> {
        self.scheduler.pending()
    }

    /// The scheduler configuration.
    pub closed spec fn sched_config_spec(self) -> EventSchedulerConfig {
        self.scheduler.config_spec()
    }

    /// The view channels.
    pub closed spec fn channels_spec(self) -> Seq<ChannelEvents> {
        self.channels@
    }

    /// Whether the duplicate-join override is set.
    pub closed spec fn allow_duplicate_join_spec(self) -> bool {
        self.allow_duplicate_join
    }

    /// Internal consistency: store, scheduler and channels are well-formed,
    /// channels only show events that exist, and so do pending actions —
    /// at most one alert and one cleanup of them per event.
    pub closed spec fn wf(self) -> bool {
        &&& self.store.wf()
        &&& self.scheduler.wf()
        &&& crate::scheduler::pending_ids_exist(
            self.scheduler.pending(),
            self.store.events_spec(),
        )
        &&& crate::scheduler::pending_unique(self.scheduler.pending())
        &&& forall|i: int| 0 <= i < self.channels@.len() ==> (#[trigger] self.channels@[i]).wf()
        &&& forall|i: int|
            0 <= i < self.channels@.len() ==> channel_consistent(
                #[trigger] self.channels@[i],
                self.store.events_spec(),
            )
    }

    /// The collection is valid: every event is well-formed and identifiers
    /// are unique within it.
    pub proof fn lemma_events_valid(self)
        requires
            self.wf(),
        ensures
            crate::store::valid_events(self.events_spec()),
    {
        self.store.lemma_events_valid();
    }

    /// Every per-activity scan cursor lies in the usable index range, so an
    /// exhausted allocation really means all 255 indices of that activity
    /// are taken.
    pub proof fn lemma_counter_in_range(self, activity: Activity)
        requires
            self.wf(),
        ensures
            1 <= self.counter_spec(activity),
    {
        self.store.lemma_counter_in_range(activity);
    }

    /// At most one alert and one cleanup action are pending per event, and
    /// every pending action is for an event that exists.
    pub proof fn lemma_pending_action_unique(self)
        requires
            self.wf(),
        ensures
            crate::scheduler::pending_unique(self.pending_spec()),
            crate::scheduler::pending_ids_exist(self.pending_spec(), self.events_spec()),
    {
    }

    /// Fans one committed change out: reschedules the event's timed actions
    /// and rewrites every channel view, returning per channel the operations
    /// to apply externally.
    fn fan_out(&mut self, change: &EventChange, now: i64) -> (r: Vec<Vec<ChannelUpdate>>)
        requires
            old(self).scheduler.wf(),
            forall|i: int|
                0 <= i < old(self).channels@.len() ==> (#[trigger] old(self).channels@[i]).wf(),
            event_wf(change@.event()),
            change@ is Added ==> forall|i: int|
                0 <= i < old(self).channels@.len() ==> !has_event(
                    (#[trigger] old(self).channels@[i]).events_spec(),
                    change@.event().id,
                ),
        ensures
            final(self).store == old(self).store,
            final(self).allow_duplicate_join == old(self).allow_duplicate_join,
            final(self).scheduler.wf(),
            final(self).scheduler.config_spec() == old(self).scheduler.config_spec(),
            final(self).scheduler.pending() == changed_pending(
                old(self).scheduler.pending(),
                old(self).scheduler.config_spec(),
                change@,
                now as int,
            ),
            final(self).channels@.len() == old(self).channels@.len(),
            r@.len() == old(self).channels@.len(),
            forall|i: int|
                0 <= i < old(self).channels@.len() ==> {
                    let c0 = #[trigger] old(self).channels@[i];
                    let c1 = final(self).channels@[i];
                    &&& c1.wf()
                    &&& c1.filter_spec() == c0.filter_spec()
                    &&& c1.events_spec().to_set() == changed_event_set(
                        c0.events_spec().to_set(),
                        c0.filter_spec(),
                        change@,
                    )
                    &&& apply_updates(c0.events_spec(), updates_view(r@[i]@)) == c1.events_spec()
                    &&& updates_view(r@[i]@) == crate::sync::emitted_ops(
                        c0.events_spec(),
                        c1.events_spec(),
                        c0.filter_spec(),
                        change@,
                    )
                },
    {
        self.scheduler.event_changed(change, now);
        let ghost chans0 = self.channels@;
        let mut remaining: Vec<ChannelEvents> = Vec::new();
        core::mem::swap(&mut remaining, &mut self.channels);
        let mut done: Vec<ChannelEvents> = Vec::new();
        let mut all_updates: Vec<Vec<ChannelUpdate>> = Vec::new();
        let total = remaining.len();
        let mut i: usize = 0;
        while i < total
            invariant
                event_wf(change@.event()),
                change@ is Added ==> forall|k: int|
                    0 <= k < chans0.len() ==> !has_event(
                        (#[trigger] chans0[k]).events_spec(),
                        change@.event().id,
                    ),
                forall|k: int| 0 <= k < chans0.len() ==> (#[trigger] chans0[k]).wf(),
                total == chans0.len(),
                i <= total,
                remaining@ == chans0.skip(i as int),
                done@.len() == i,
                all_updates@.len() == i,
                forall|k: int|
                    0 <= k < i ==> {
                        let c0 = #[trigger] chans0[k];
                        let c1 = done@[k];
                        &&& c1.wf()
                        &&& c1.filter_spec() == c0.filter_spec()
                        &&& c1.events_spec().to_set() == changed_event_set(
                            c0.events_spec().to_set(),
                            c0.filter_spec(),
                            change@,
                        )
                        &&& apply_updates(c0.events_spec(), updates_view(all_updates@[k]@))
                            == c1.events_spec()
                        &&& updates_view(all_updates@[k]@) == crate::sync::emitted_ops(
                            c0.events_spec(),
                            c1.events_spec(),
                            c0.filter_spec(),
                            change@,
                        )
                    },
            decreases total - i,
        {
            let mut ch = remaining.remove(0);
            proof {
                assert(chans0.skip(i as int)[0] == chans0[i as int]);
                assert(remaining@ =~= chans0.skip(i + 1));
            }
            let ops = ch.apply_event_change(change);
            done.push(ch);
            all_updates.push(ops);
            i = i + 1;
        }
        self.channels = done;
        all_updates
    }
}

/// Channel lists after a fan-out: each keeps its filter, shows the changed
/// event set, and the emitted operations replay the old list into the new.
pub open spec fn channels_updated(
    chans0: Seq<ChannelEvents>,
    chans1: Seq<ChannelEvents>,
    updates: Seq<Vec<ChannelUpdate>>,
    c: ChangeView,
) -> bool {
    &&& chans1.len() == chans0.len()
    &&& updates.len() == chans0.len()
    &&& forall|i: int|
        0 <= i < chans0.len() ==> {
            let c0 = #[trigger] chans0[i];
            let c1 = chans1[i];
            &&& c1.wf()
            &&& c1.filter_spec() == c0.filter_spec()
            &&& c1.events_spec().to_set() == changed_event_set(
                c0.events_spec().to_set(),
                c0.filter_spec(),
                c,
            )
            &&& apply_updates(c0.events_spec(), updates_view(updates[i]@)) == c1.events_spec()
            &&& updates_view(updates[i]@) == crate::sync::emitted_ops(
                c0.events_spec(),
                c1.events_spec(),
                c0.filter_spec(),
                c,
            )
        }
}

/// A channel stays consistent with the collection across one change.
proof fn lemma_channel_consistency_step(
    c0: ChannelEvents,
    c1: ChannelEvents,
    events0: Seq<EventView>,
    events1: Seq<EventView>,
    c: ChangeView,
)
    requires
        channel_consistent(c0, events0),
        c1.events_spec().to_set() == changed_event_set(
            c0.events_spec().to_set(),
            c0.filter_spec(),
            c,
        ),
        collection_changed(events0, events1, c),
    ensures
        channel_consistent(c1, events1),
{
    assert forall|k: int| 0 <= k < c1.events_spec().len() implies has_event(
        events1,
        (#[trigger] c1.events_spec()[k]).id,
    ) by {
        let x = c1.events_spec()[k];
        assert(c1.events_spec().contains(x));
        assert(c1.events_spec().to_set().contains(x));
        match c {
            ChangeView::Added(v) => {
                if x == v {
                    assert(events1[events0.len() as int].id == v.id);
                } else {
                    assert(c0.events_spec().to_set().contains(x));
                    assert(c0.events_spec().contains(x));
                    let w = choose|w: int|
                        0 <= w < c0.events_spec().len() && c0.events_spec()[w] == x;
                    assert(has_event(events0, x.id));
                    lemma_has_event_push(events0, v, x.id);
                }
            },
            ChangeView::Edited(v) | ChangeView::Alert(v) => {
                let i = choose|i: int|
                    0 <= i < events0.len() && (#[trigger] events0[i]).id == v.id && events1
                        == events0.update(i, v);
                if x == v {
                    assert(events1[i].id == v.id);
                } else {
                    assert(c0.events_spec().to_set().filter(
                        |w: EventView| w.id != v.id,
                    ).contains(x));
                    assert(c0.events_spec().to_set().contains(x));
                    assert(c0.events_spec().contains(x));
                    let w = choose|w: int|
                        0 <= w < c0.events_spec().len() && c0.events_spec()[w] == x;
                    assert(has_event(events0, x.id));
                    lemma_has_event_update(events0, i, v, x.id);
                }
            },
            ChangeView::Deleted(v) => {
                let i = choose|i: int|
                    0 <= i < events0.len() && (#[trigger] events0[i]).id == v.id && events1
                        == events0.remove(i);
                assert(c0.events_spec().to_set().filter(|w: EventView| w.id != v.id).contains(x));
                assert(c0.events_spec().to_set().contains(x));
                assert(c0.events_spec().contains(x));
                let w = choose|w: int| 0 <= w < c0.events_spec().len() && c0.events_spec()[w] == x;
                assert(has_event(events0, x.id));
                lemma_has_event_remove(events0, i, x.id);
            },
        }
    }
}

impl<S: Store> EventManager<S> {
    /// The configuration and channel shape survive every operation.
    pub open spec fn keeps_shape(self, other: Self) -> bool {
        &&& other.sched_config_spec() == self.sched_config_spec()
        &&& other.allow_duplicate_join_spec() == self.allow_duplicate_join_spec()
        &&& other.channels_spec().len() == self.channels_spec().len()
        &&& forall|i: int|
            0 <= i < self.channels_spec().len() ==> (#[trigger] other.channels_spec()[
                i
            ]).filter_spec() == self.channels_spec()[i].filter_spec()
    }

    /// Builds a manager over an initial collection, typically a loaded
    /// snapshot: one view channel per filter, and every event's timed
    /// actions derived at `now`. Fails when the collection has a malformed
    /// event or a duplicated identifier.
    pub fn new(
        initial_events: Vec<Event>,
        store: S,
        sched_config: EventSchedulerConfig,
        filters: &Vec<EventFilter>,
        allow_duplicate_join: bool,
        now: i64,
    ) -> (r: Result<EventManager<S>, EventError>)
        ensures
            match r {
                Ok(m) => {
                    &&& crate::store::valid_events(events_view(initial_events@))
                    &&& m.wf()
                    &&& m.events_spec() == events_view(initial_events@)
                    &&& m.saved_spec() == store.saved()
                    &&& m.sched_config_spec() == sched_config
                    &&& m.allow_duplicate_join_spec() == allow_duplicate_join
                    &&& m.pending_spec() == crate::scheduler::all_derived_actions(
                        sched_config,
                        events_view(initial_events@),
                        now as int,
                    )
                    &&& m.channels_spec().len() == filters@.len()
                    &&& forall|i: int|
                        0 <= i < filters@.len() ==> (#[trigger] m.channels_spec()[
                            i
                        ]).filter_spec() == filters@[i] && m.channels_spec()[
                            i
                        ].events_spec().to_set() == events_view(initial_events@).to_set().filter(
                            |v: EventView| filters@[i].matches(v),
                        )
                    &&& forall|a: Activity| m.counter_spec(a) == 1
                },
                Err(e) => e == EventError::InvalidSnapshot && !crate::store::valid_events(
                    events_view(initial_events@),
                ),
            },
    {
        let ghost evs = events_view(initial_events@);
        let st = match EventStore::new(initial_events, store) {
            Ok(st) => st,
            Err(e) => {
                return Err(e);
            },
        };
        let stored_events = st.events();
        proof {
            assert forall|i: int| 0 <= i < stored_events@.len() implies (
            #[trigger] stored_events@[i]).wf() by {
                assert(events_view(stored_events@)[i] == stored_events@[i]@);
                assert(event_wf(evs[i]));
            }
        }
        let scheduler = EventScheduler::new(stored_events, sched_config, now);
        let mut channels: Vec<ChannelEvents> = Vec::new();
        let mut i: usize = 0;
        while i < filters.len()
            invariant
                evs == events_view(stored_events@),
                crate::store::valid_events(evs),
                i <= filters@.len(),
                channels@.len() == i,
                forall|k: int|
                    0 <= k < i ==> {
                        let c = #[trigger] channels@[k];
                        &&& c.wf()
                        &&& c.filter_spec() == filters@[k]
                        &&& c.events_spec().to_set() == evs.to_set().filter(
                            |v: EventView| filters@[k].matches(v),
                        )
                    },
            decreases filters@.len() - i,
        {
            let c = ChannelEvents::new(filters[i], stored_events);
            channels.push(c);
            i = i + 1;
        }
        let m = EventManager { store: st, scheduler, channels, allow_duplicate_join };
        proof {
            m.store.lemma_events_valid();
            crate::scheduler::lemma_all_derived_invariants(sched_config, evs, now as int);
            assert forall|k: int| 0 <= k < m.channels@.len() implies channel_consistent(
                #[trigger] m.channels@[k],
                m.store.events_spec(),
            ) by {
                let c = m.channels@[k];
                assert forall|j: int| 0 <= j < c.events_spec().len() implies has_event(
                    m.store.events_spec(),
                    (#[trigger] c.events_spec()[j]).id,
                ) by {
                    let x = c.events_spec()[j];
                    assert(c.events_spec().contains(x));
                    assert(c.events_spec().to_set().contains(x));
                    assert(evs.to_set().contains(x));
                    assert(evs.contains(x));
                    let w = choose|w: int| 0 <= w < evs.len() && evs[w] == x;
                    assert(evs[w].id == x.id);
                }
            }
        }
        Ok(m)
    }

    /// The persistence collaborator, for inspecting what has been saved.
    pub fn persistence(&self) -> (r: &S)
        ensures
            r.saved() == self.saved_spec(),
    {
        self.store.persistence()
    }

    /// Allocates the next identifier for `activity`: the first free sequence
    /// index found scanning forward (with wraparound) from the last
    /// allocated value.
    pub fn next_id(&mut self, activity: Activity) -> (r: Result<EventId, EventError>)
        requires
            old(self).wf(),
        ensures
            final(self).wf(),
            old(self).keeps_shape(*final(self)),
            final(self).events_spec() == old(self).events_spec(),
            final(self).saved_spec() == old(self).saved_spec(),
            final(self).pending_spec() == old(self).pending_spec(),
            final(self).channels_spec() == old(self).channels_spec(),
            forall|a: Activity|
                a != activity ==> final(self).counter_spec(a) == old(self).counter_spec(a),
            match r {
                Ok(id) => {
                    &&& id.activity == activity
                    &&& Some(id.idx) == crate::store::scan_free(
                        old(self).events_spec(),
                        activity,
                        old(self).counter_spec(activity),
                        255,
                    )
                    &&& !has_event(old(self).events_spec(), id)
                    &&& final(self).counter_spec(activity) == crate::store::succ_idx_spec(id.idx)
                },
                Err(e) => {
                    &&& e == EventError::IdSpaceExhausted
                    &&& crate::store::scan_free(
                        old(self).events_spec(),
                        activity,
                        old(self).counter_spec(activity),
                        255,
                    ) is None
                    &&& *final(self) == *old(self)
                },
            },
    {
        self.store.next_id(activity)
    }

    /// How many events exist.
    pub fn len(&self) -> (r: usize)
        ensures
            r == self.events_spec().len(),
    {
        self.store.len()
    }

    /// The whole collection, for snapshots and reconciliation.
    pub fn events(&self) -> (r: &Vec<Event>)
        ensures
            events_view(r@) == self.events_spec(),
    {
        self.store.events()
    }

    /// The event with identifier `id`, if it exists.
    pub fn get_event(&self, id: EventId) -> (r: Option<&Event>)
        requires
            self.wf(),
        ensures
            match r {
                Some(e) => has_event(self.events_spec(), id) && e@ == lookup_event(
                    self.events_spec(),
                    id,
                ),
                None => !has_event(self.events_spec(), id),
            },
    {
        self.store.get(id)
    }

    /// How many view channels are configured.
    pub fn channel_count(&self) -> (r: usize)
        ensures
            r == self.channels_spec().len(),
    {
        self.channels.len()
    }

    /// The view channel at position `i`, for reconciliation.
    pub fn channel_at(&self, i: usize) -> (r: &ChannelEvents)
        requires
            i < self.channels_spec().len(),
        ensures
            *r == self.channels_spec()[i as int],
    {
        &self.channels[i]
    }

    /// Commits an in-place replacement of the event at position `i` and
    /// fans the change out.
    fn commit_edited(&mut self, i: usize, new_event: Event, is_alert: bool, now: i64) -> (r: (
        Vec<Vec<ChannelUpdate>>,
        Result<(), EventError>,
    ))
        requires
            old(self).wf(),
            new_event.wf(),
            i < old(self).events_spec().len(),
            new_event@.id == old(self).events_spec()[i as int].id,
        ensures
            final(self).wf(),
            old(self).keeps_shape(*final(self)),
            final(self).events_spec() == old(self).events_spec().update(i as int, new_event@),
            forall|a: Activity| final(self).counter_spec(a) == old(self).counter_spec(a),
            final(self).pending_spec() == changed_pending(
                old(self).pending_spec(),
                old(self).sched_config_spec(),
                if is_alert {
                    ChangeView::Alert(new_event@)
                } else {
                    ChangeView::Edited(new_event@)
                },
                now as int,
            ),
            channels_updated(
                old(self).channels_spec(),
                final(self).channels_spec(),
                r.0@,
                if is_alert {
                    ChangeView::Alert(new_event@)
                } else {
                    ChangeView::Edited(new_event@)
                },
            ),
            match r.1 {
                Ok(()) => final(self).saved_spec() == old(self).saved_spec().push(
                    final(self).events_spec(),
                ),
                Err(e) => e == EventError::PersistenceFailure && final(self).saved_spec() == old(self).saved_spec(),
            },
    {
        let ghost events0 = self.events_spec();
        let ghost nv = new_event@;
        let ghost pending0 = self.scheduler.pending();
        let ghost cfg = self.scheduler.config_spec();
        let (change, saved) = self.store.commit_replace(i, new_event, is_alert);
        let ghost events1 = self.events_spec();
        let updates = self.fan_out(&change, now);
        proof {
            assert(collection_changed(events0, events1, change@)) by {
                assert(0 <= i < events0.len() && events0[i as int].id == nv.id && events1
                    == events0.update(i as int, nv));
            }
            crate::scheduler::lemma_pending_invariants_step(
                pending0,
                cfg,
                change@,
                now as int,
                events0,
                events1,
            );
            assert forall|k: int| 0 <= k < self.channels@.len() implies channel_consistent(
                #[trigger] self.channels@[k],
                self.store.events_spec(),
            ) by {
                lemma_channel_consistency_step(
                    old(self).channels@[k],
                    self.channels@[k],
                    events0,
                    events1,
                    change@,
                );
            }
            assert forall|k: int| 0 <= k < self.channels@.len() implies (#[trigger] self
                .channels@[k]).wf() by {
                assert(self.channels@[k].filter_spec() == old(self).channels@[
                    k
                ].filter_spec());
            }
        }
        (updates, saved)
    }
}

/// Channel lists after a change whose operations were not kept: each keeps
/// its filter and shows the changed event set.
pub open spec fn channels_changed_sets(
    chans0: Seq<ChannelEvents>,
    chans1: Seq<ChannelEvents>,
    c: ChangeView,
) -> bool {
    &&& chans1.len() == chans0.len()
    &&& forall|i: int|
        0 <= i < chans0.len() ==> {
            let c0 = #[trigger] chans0[i];
            let c1 = chans1[i];
            &&& c1.wf()
            &&& c1.filter_spec() == c0.filter_spec()
            &&& c1.events_spec().to_set() == changed_event_set(
                c0.events_spec().to_set(),
                c0.filter_spec(),
                c,
            )
        }
}

impl<S: Store> EventManager<S> {
    /// Adds `member` to one of the event's lists.
    ///
    /// Fails with `NotFound` when no such event exists and with
    /// `AlreadyInEvent` when the member is already in any of the event's
    /// lists (unless the duplicate-join override is set).
    pub fn join(&mut self, id: EventId, member: EventMember, kind: crate::event::JoinKind, now: i64)
        -> (r: Result<Vec<Vec<ChannelUpdate>>, EventError>)
        requires
            old(self).wf(),
        ensures
            final(self).wf(),
            old(self).keeps_shape(*final(self)),
            forall|a: Activity| final(self).counter_spec(a) == old(self).counter_spec(a),
            match r {
                Ok(updates) => {
                    let e0 = lookup_event(old(self).events_spec(), id);
                    let e1 = crate::event::joined_view(e0, member@, kind);
                    &&& has_event(old(self).events_spec(), id)
                    &&& (old(self).allow_duplicate_join_spec() || !crate::event::in_any_list(
                        e0,
                        member@.id,
                    ))
                    &&& crate::event::roster_len(e0) < crate::event::MAX_ROSTER as int
                    &&& final(self).events_spec() == old(self).events_spec().update(
                        crate::store::event_index(old(self).events_spec(), id),
                        e1,
                    )
                    &&& final(self).saved_spec() == old(self).saved_spec().push(
                        final(self).events_spec(),
                    )
                    &&& final(self).pending_spec() == changed_pending(
                        old(self).pending_spec(),
                        old(self).sched_config_spec(),
                        ChangeView::Edited(e1),
                        now as int,
                    )
                    &&& channels_updated(
                        old(self).channels_spec(),
                        final(self).channels_spec(),
                        updates@,
                        ChangeView::Edited(e1),
                    )
                },
                Err(e) => match e {
                    EventError::NotFound => !has_event(old(self).events_spec(), id) && *final(self) == *old(self),
                    EventError::AlreadyInEvent => {
                        &&& has_event(old(self).events_spec(), id)
                        &&& !old(self).allow_duplicate_join_spec()
                        &&& crate::event::in_any_list(
                            lookup_event(old(self).events_spec(), id),
                            member@.id,
                        )
                        &&& *final(self) == *old(self)
                    },
                    EventError::RosterFull => {
                        let e0 = lookup_event(old(self).events_spec(), id);
                        &&& has_event(old(self).events_spec(), id)
                        &&& (old(self).allow_duplicate_join_spec() || !crate::event::in_any_list(
                            e0,
                            member@.id,
                        ))
                        &&& crate::event::roster_len(e0) >= crate::event::MAX_ROSTER as int
                        &&& *final(self) == *old(self)
                    },
                    EventError::PersistenceFailure => {
                        let e0 = lookup_event(old(self).events_spec(), id);
                        let e1 = crate::event::joined_view(e0, member@, kind);
                        &&& has_event(old(self).events_spec(), id)
                        &&& (old(self).allow_duplicate_join_spec() || !crate::event::in_any_list(
                            e0,
                            member@.id,
                        ))
                        &&& crate::event::roster_len(e0) < crate::event::MAX_ROSTER as int
                        &&& final(self).events_spec() == old(self).events_spec().update(
                            crate::store::event_index(old(self).events_spec(), id),
                            e1,
                        )
                        &&& final(self).saved_spec() == old(self).saved_spec()
                        &&& final(self).pending_spec() == changed_pending(
                            old(self).pending_spec(),
                            old(self).sched_config_spec(),
                            ChangeView::Edited(e1),
                            now as int,
                        )
                        &&& channels_changed_sets(
                            old(self).channels_spec(),
                            final(self).channels_spec(),
                            ChangeView::Edited(e1),
                        )
                    },
                    _ => false,
                },
            },
    {
        let i = match self.store.find_index(id) {
            Some(i) => i,
            None => {
                return Err(EventError::NotFound);
            },
        };
        let mut e = self.store.event_at(i).clone();
        proof {
            self.store.lemma_events_valid();
            assert(e@ == old(self).events_spec()[i as int]);
            assert(crate::event::event_wf(e@));
            assert(i as int == crate::store::event_index(old(self).events_spec(), id));
        }
        match e.join(member, kind, self.allow_duplicate_join) {
            Ok(()) => {},
            Err(err) => {
                return Err(err);
            },
        }
        let (updates, saved) = self.commit_edited(i, e, false, now);
        match saved {
            Ok(()) => Ok(updates),
            Err(err) => Err(err),
        }
    }

    /// Removes the member from whichever of the event's lists contain them.
    ///
    /// Fails with `NotFound` when no such event exists and with `NotInEvent`
    /// when the member is in none of the lists.
    pub fn leave(&mut self, id: EventId, member_id: u64, now: i64) -> (r: Result<
        Vec<Vec<ChannelUpdate>>,
        EventError,
    >)
        requires
            old(self).wf(),
        ensures
            final(self).wf(),
            old(self).keeps_shape(*final(self)),
            forall|a: Activity| final(self).counter_spec(a) == old(self).counter_spec(a),
            match r {
                Ok(updates) => {
                    let e0 = lookup_event(old(self).events_spec(), id);
                    let e1 = crate::event::left_view(e0, member_id);
                    &&& has_event(old(self).events_spec(), id)
                    &&& crate::event::in_any_list(e0, member_id)
                    &&& final(self).events_spec() == old(self).events_spec().update(
                        crate::store::event_index(old(self).events_spec(), id),
                        e1,
                    )
                    &&& final(self).saved_spec() == old(self).saved_spec().push(
                        final(self).events_spec(),
                    )
                    &&& final(self).pending_spec() == changed_pending(
                        old(self).pending_spec(),
                        old(self).sched_config_spec(),
                        ChangeView::Edited(e1),
                        now as int,
                    )
                    &&& channels_updated(
                        old(self).channels_spec(),
                        final(self).channels_spec(),
                        updates@,
                        ChangeView::Edited(e1),
                    )
                },
                Err(e) => match e {
                    EventError::NotFound => !has_event(old(self).events_spec(), id) && *final(self) == *old(self),
                    EventError::NotInEvent => {
                        &&& has_event(old(self).events_spec(), id)
                        &&& !crate::event::in_any_list(
                            lookup_event(old(self).events_spec(), id),
                            member_id,
                        )
                        &&& *final(self) == *old(self)
                    },
                    EventError::PersistenceFailure => {
                        let e0 = lookup_event(old(self).events_spec(), id);
                        let e1 = crate::event::left_view(e0, member_id);
                        &&& has_event(old(self).events_spec(), id)
                        &&& crate::event::in_any_list(e0, member_id)
                        &&& final(self).events_spec() == old(self).events_spec().update(
                            crate::store::event_index(old(self).events_spec(), id),
                            e1,
                        )
                        &&& final(self).saved_spec() == old(self).saved_spec()
                        &&& final(self).pending_spec() == changed_pending(
                            old(self).pending_spec(),
                            old(self).sched_config_spec(),
                            ChangeView::Edited(e1),
                            now as int,
                        )
                        &&& channels_changed_sets(
                            old(self).channels_spec(),
                            final(self).channels_spec(),
                            ChangeView::Edited(e1),
                        )
                    },
                    _ => false,
                },
            },
    {
        let i = match self.store.find_index(id) {
            Some(i) => i,
            None => {
                return Err(EventError::NotFound);
            },
        };
        let mut e = self.store.event_at(i).clone();
        proof {
            self.store.lemma_events_valid();
            assert(e@ == old(self).events_spec()[i as int]);
            assert(crate::event::event_wf(e@));
            assert(i as int == crate::store::event_index(old(self).events_spec(), id));
        }
        match e.leave(member_id) {
            Ok(()) => {},
            Err(err) => {
                return Err(err);
            },
        }
        let (updates, saved) = self.commit_edited(i, e, false, now);
        match saved {
            Ok(()) => Ok(updates),
            Err(err) => Err(err),
        }
    }

    /// Applies a single-field edit to the event. An edit of the scheduled
    /// time clears any frozen alert message and reschedules the event's
    /// timed actions.
    pub fn edit_event(&mut self, id: EventId, edit: crate::event::EventEdit, now: i64) -> (r:
        Result<Vec<Vec<ChannelUpdate>>, EventError>)
        requires
            old(self).wf(),
            edit.valid(),
        ensures
            final(self).wf(),
            old(self).keeps_shape(*final(self)),
            forall|a: Activity| final(self).counter_spec(a) == old(self).counter_spec(a),
            match r {
                Ok(updates) => {
                    let e0 = lookup_event(old(self).events_spec(), id);
                    let e1 = crate::event::edited_view(e0, edit@);
                    &&& has_event(old(self).events_spec(), id)
                    &&& final(self).events_spec() == old(self).events_spec().update(
                        crate::store::event_index(old(self).events_spec(), id),
                        e1,
                    )
                    &&& final(self).saved_spec() == old(self).saved_spec().push(
                        final(self).events_spec(),
                    )
                    &&& final(self).pending_spec() == changed_pending(
                        old(self).pending_spec(),
                        old(self).sched_config_spec(),
                        ChangeView::Edited(e1),
                        now as int,
                    )
                    &&& channels_updated(
                        old(self).channels_spec(),
                        final(self).channels_spec(),
                        updates@,
                        ChangeView::Edited(e1),
                    )
                },
                Err(e) => match e {
                    EventError::NotFound => !has_event(old(self).events_spec(), id) && *final(self) == *old(self),
                    EventError::PersistenceFailure => {
                        let e0 = lookup_event(old(self).events_spec(), id);
                        let e1 = crate::event::edited_view(e0, edit@);
                        &&& has_event(old(self).events_spec(), id)
                        &&& final(self).events_spec() == old(self).events_spec().update(
                            crate::store::event_index(old(self).events_spec(), id),
                            e1,
                        )
                        &&& final(self).saved_spec() == old(self).saved_spec()
                        &&& final(self).pending_spec() == changed_pending(
                            old(self).pending_spec(),
                            old(self).sched_config_spec(),
                            ChangeView::Edited(e1),
                            now as int,
                        )
                        &&& channels_changed_sets(
                            old(self).channels_spec(),
                            final(self).channels_spec(),
                            ChangeView::Edited(e1),
                        )
                    },
                    _ => false,
                },
            },
    {
        let i = match self.store.find_index(id) {
            Some(i) => i,
            None => {
                return Err(EventError::NotFound);
            },
        };
        let mut e = self.store.event_at(i).clone();
        proof {
            self.store.lemma_events_valid();
            assert(e@ == old(self).events_spec()[i as int]);
            assert(crate::event::event_wf(e@));
            assert(i as int == crate::store::event_index(old(self).events_spec(), id));
        }
        e.apply_edit(edit);
        let (updates, saved) = self.commit_edited(i, e, false, now);
        match saved {
            Ok(()) => Ok(updates),
            Err(err) => Err(err),
        }
    }
}

/// The event value a creation builds: the creator its only confirmed
/// member, the group size the activity's default, no recurrence and no
/// alert.
pub open spec fn created_event_view(
    id: EventId,
    activity: Activity,
    datetime: int,
    description: Seq<char>,
    creator: crate::event::MemberView,
) -> EventView {
    EventView {
        id,
        activity,
        datetime,
        description,
        group_size: activity.default_group_size_spec() as int,
        recur: false,
        creator,
        confirmed: seq![creator],
        alternates: Seq::<crate::event::MemberView>::empty(),
        maybe: Seq::<crate::event::MemberView>::empty(),
        alert_message: None,
    }
}

/// The event value a recurring event's cleanup creates: the same activity,
/// description, group size and creator, empty participant lists, and the
/// time advanced to the next future occurrence.
pub open spec fn recurrence_view(e0: EventView, id: EventId, now: int) -> EventView {
    EventView {
        id,
        datetime: next_recurrence_spec(e0.datetime, now),
        recur: true,
        confirmed: Seq::<crate::event::MemberView>::empty(),
        alternates: Seq::<crate::event::MemberView>::empty(),
        maybe: Seq::<crate::event::MemberView>::empty(),
        alert_message: None,
        ..e0
    }
}

impl<S: Store> EventManager<S> {
    /// Commits a fresh event and fans the `Added` change out.
    fn commit_added(&mut self, event: Event, now: i64) -> (r: (
        Vec<Vec<ChannelUpdate>>,
        Result<(), EventError>,
    ))
        requires
            old(self).wf(),
            event.wf(),
            !has_event(old(self).events_spec(), event@.id),
        ensures
            final(self).wf(),
            old(self).keeps_shape(*final(self)),
            final(self).events_spec() == old(self).events_spec().push(event@),
            forall|a: Activity| final(self).counter_spec(a) == old(self).counter_spec(a),
            final(self).pending_spec() == changed_pending(
                old(self).pending_spec(),
                old(self).sched_config_spec(),
                ChangeView::Added(event@),
                now as int,
            ),
            channels_updated(
                old(self).channels_spec(),
                final(self).channels_spec(),
                r.0@,
                ChangeView::Added(event@),
            ),
            match r.1 {
                Ok(()) => final(self).saved_spec() == old(self).saved_spec().push(
                    final(self).events_spec(),
                ),
                Err(e) => e == EventError::PersistenceFailure && final(self).saved_spec() == old(self).saved_spec(),
            },
    {
        let ghost events0 = self.events_spec();
        let ghost nv = event@;
        proof {
            assert forall|k: int| 0 <= k < self.channels@.len() implies !has_event(
                (#[trigger] self.channels@[k]).events_spec(),
                nv.id,
            ) by {
                if has_event(self.channels@[k].events_spec(), nv.id) {
                    let w = choose|w: int|
                        0 <= w < self.channels@[k].events_spec().len() && #[trigger] self
                            .channels@[k].events_spec()[w].id == nv.id;
                    assert(has_event(events0, nv.id));
                }
            }
        }
        let ghost pending0 = self.scheduler.pending();
        let ghost cfg = self.scheduler.config_spec();
        let (change, saved) = self.store.commit_add(event);
        let ghost events1 = self.events_spec();
        let updates = self.fan_out(&change, now);
        proof {
            assert(collection_changed(events0, events1, change@));
            crate::scheduler::lemma_pending_invariants_step(
                pending0,
                cfg,
                change@,
                now as int,
                events0,
                events1,
            );
            assert forall|k: int| 0 <= k < self.channels@.len() implies channel_consistent(
                #[trigger] self.channels@[k],
                self.store.events_spec(),
            ) by {
                lemma_channel_consistency_step(
                    old(self).channels@[k],
                    self.channels@[k],
                    events0,
                    events1,
                    change@,
                );
            }
            assert forall|k: int| 0 <= k < self.channels@.len() implies (#[trigger] self
                .channels@[k]).wf() by {
                assert(self.channels@[k].filter_spec() == old(self).channels@[
                    k
                ].filter_spec());
            }
        }
        (updates, saved)
    }

    /// Commits the removal of the event at position `i` and fans the
    /// `Deleted` change out.
    fn commit_removed(&mut self, i: usize, now: i64) -> (r: (
        Event,
        Vec<Vec<ChannelUpdate>>,
        Result<(), EventError>,
    ))
        requires
            old(self).wf(),
            i < old(self).events_spec().len(),
        ensures
            final(self).wf(),
            old(self).keeps_shape(*final(self)),
            final(self).events_spec() == old(self).events_spec().remove(i as int),
            forall|a: Activity| final(self).counter_spec(a) == old(self).counter_spec(a),
            r.0@ == old(self).events_spec()[i as int],
            final(self).pending_spec() == changed_pending(
                old(self).pending_spec(),
                old(self).sched_config_spec(),
                ChangeView::Deleted(old(self).events_spec()[i as int]),
                now as int,
            ),
            channels_updated(
                old(self).channels_spec(),
                final(self).channels_spec(),
                r.1@,
                ChangeView::Deleted(old(self).events_spec()[i as int]),
            ),
            match r.2 {
                Ok(()) => final(self).saved_spec() == old(self).saved_spec().push(
                    final(self).events_spec(),
                ),
                Err(e) => e == EventError::PersistenceFailure && final(self).saved_spec() == old(self).saved_spec(),
            },
    {
        let ghost events0 = self.events_spec();
        proof {
            self.store.lemma_events_valid();
            assert(crate::event::event_wf(events0[i as int]));
        }
        let ghost pending0 = self.scheduler.pending();
        let ghost cfg = self.scheduler.config_spec();
        let (removed, change, saved) = self.store.commit_remove(i);
        let ghost events1 = self.events_spec();
        let updates = self.fan_out(&change, now);
        proof {
            assert(collection_changed(events0, events1, change@)) by {
                assert(0 <= i < events0.len() && events0[i as int].id == events0[i as int].id
                    && events1 == events0.remove(i as int));
            }
            crate::scheduler::lemma_pending_invariants_step(
                pending0,
                cfg,
                change@,
                now as int,
                events0,
                events1,
            );
            assert forall|k: int| 0 <= k < self.channels@.len() implies channel_consistent(
                #[trigger] self.channels@[k],
                self.store.events_spec(),
            ) by {
                lemma_channel_consistency_step(
                    old(self).channels@[k],
                    self.channels@[k],
                    events0,
                    events1,
                    change@,
                );
            }
            assert forall|k: int| 0 <= k < self.channels@.len() implies (#[trigger] self
                .channels@[k]).wf() by {
                assert(self.channels@[k].filter_spec() == old(self).channels@[
                    k
                ].filter_spec());
            }
        }
        (removed, updates, saved)
    }

    /// Creates a fresh event: allocates its identifier, confirms the creator
    /// as its first participant, commits it as `Added` and fans the change
    /// out.
    pub fn create_event(
        &mut self,
        creator: EventMember,
        activity: Activity,
        datetime: i64,
        description: String,
        now: i64,
    ) -> (r: Result<(Event, Vec<Vec<ChannelUpdate>>), EventError>)
        requires
            old(self).wf(),
            0 <= datetime <= crate::event::MAX_EVENT_TIME,
        ensures
            final(self).wf(),
            old(self).keeps_shape(*final(self)),
            forall|a: Activity|
                a != activity ==> final(self).counter_spec(a) == old(self).counter_spec(a),
            match crate::store::scan_free(
                old(self).events_spec(),
                activity,
                old(self).counter_spec(activity),
                255,
            ) {
                None => r == Err::<(Event, Vec<Vec<ChannelUpdate>>), EventError>(
                    EventError::IdSpaceExhausted,
                ) && *final(self) == *old(self),
                Some(idx) => {
                    let e = created_event_view(
                        EventId { activity, idx },
                        activity,
                        datetime as int,
                        description@,
                        creator@,
                    );
                    &&& !has_event(old(self).events_spec(), e.id)
                    &&& final(self).events_spec() == old(self).events_spec().push(e)
                    &&& final(self).counter_spec(activity) == crate::store::succ_idx_spec(idx)
                    &&& final(self).pending_spec() == changed_pending(
                        old(self).pending_spec(),
                        old(self).sched_config_spec(),
                        ChangeView::Added(e),
                        now as int,
                    )
                    &&& channels_changed_sets(
                        old(self).channels_spec(),
                        final(self).channels_spec(),
                        ChangeView::Added(e),
                    )
                    &&& match r {
                        Ok((ev, updates)) => ev@ == e
                            && final(self).saved_spec() == old(self).saved_spec().push(
                            final(self).events_spec(),
                        ) && channels_updated(
                            old(self).channels_spec(),
                            final(self).channels_spec(),
                            updates@,
                            ChangeView::Added(e),
                        ),
                        Err(er) => er == EventError::PersistenceFailure
                            && final(self).saved_spec() == old(self).saved_spec(),
                    }
                },
            },
    {
        let id = match self.store.next_id(activity) {
            Ok(id) => id,
            Err(err) => {
                return Err(err);
            },
        };
        let group_size = activity.default_group_size();
        let event = Event::new(id, activity, datetime, description, group_size, false, creator);
        proof {
            assert(event@ =~= created_event_view(
                id,
                activity,
                datetime as int,
                event@.description,
                event@.creator,
            ));
        }
        let snapshot = event.clone();
        let (updates, saved) = self.commit_added(event, now);
        match saved {
            Ok(()) => Ok((snapshot, updates)),
            Err(err) => Err(err),
        }
    }

    /// Adds a prebuilt event under its own identifier. Fails with `IdInUse`
    /// when an event with that identifier already exists.
    pub fn add_event(&mut self, event: Event, now: i64) -> (r: Result<
        Vec<Vec<ChannelUpdate>>,
        EventError,
    >)
        requires
            old(self).wf(),
            event.wf(),
        ensures
            final(self).wf(),
            old(self).keeps_shape(*final(self)),
            forall|a: Activity| final(self).counter_spec(a) == old(self).counter_spec(a),
            match r {
                Ok(updates) => {
                    &&& !has_event(old(self).events_spec(), event@.id)
                    &&& final(self).events_spec() == old(self).events_spec().push(event@)
                    &&& final(self).saved_spec() == old(self).saved_spec().push(
                        final(self).events_spec(),
                    )
                    &&& final(self).pending_spec() == changed_pending(
                        old(self).pending_spec(),
                        old(self).sched_config_spec(),
                        ChangeView::Added(event@),
                        now as int,
                    )
                    &&& channels_updated(
                        old(self).channels_spec(),
                        final(self).channels_spec(),
                        updates@,
                        ChangeView::Added(event@),
                    )
                },
                Err(e) => match e {
                    EventError::IdInUse => has_event(old(self).events_spec(), event@.id) && *final(self) == *old(self),
                    EventError::PersistenceFailure => {
                        &&& !has_event(old(self).events_spec(), event@.id)
                        &&& final(self).events_spec() == old(self).events_spec().push(event@)
                        &&& final(self).saved_spec() == old(self).saved_spec()
                        &&& final(self).pending_spec() == changed_pending(
                            old(self).pending_spec(),
                            old(self).sched_config_spec(),
                            ChangeView::Added(event@),
                            now as int,
                        )
                        &&& channels_changed_sets(
                            old(self).channels_spec(),
                            final(self).channels_spec(),
                            ChangeView::Added(event@),
                        )
                    },
                    _ => false,
                },
            },
    {
        match self.store.find_index(event.id()) {
            Some(_) => {
                return Err(EventError::IdInUse);
            },
            None => {},
        }
        let (updates, saved) = self.commit_added(event, now);
        match saved {
            Ok(()) => Ok(updates),
            Err(err) => Err(err),
        }
    }

    /// Deletes the event. Fails with `NotFound` when no such event exists.
    pub fn delete_event(&mut self, id: EventId, now: i64) -> (r: Result<
        Vec<Vec<ChannelUpdate>>,
        EventError,
    >)
        requires
            old(self).wf(),
        ensures
            final(self).wf(),
            old(self).keeps_shape(*final(self)),
            forall|a: Activity| final(self).counter_spec(a) == old(self).counter_spec(a),
            match r {
                Ok(updates) => {
                    let e0 = lookup_event(old(self).events_spec(), id);
                    &&& has_event(old(self).events_spec(), id)
                    &&& final(self).events_spec() == old(self).events_spec().remove(
                        crate::store::event_index(old(self).events_spec(), id),
                    )
                    &&& final(self).saved_spec() == old(self).saved_spec().push(
                        final(self).events_spec(),
                    )
                    &&& final(self).pending_spec() == changed_pending(
                        old(self).pending_spec(),
                        old(self).sched_config_spec(),
                        ChangeView::Deleted(e0),
                        now as int,
                    )
                    &&& channels_updated(
                        old(self).channels_spec(),
                        final(self).channels_spec(),
                        updates@,
                        ChangeView::Deleted(e0),
                    )
                },
                Err(e) => match e {
                    EventError::NotFound => !has_event(old(self).events_spec(), id) && *final(self) == *old(self),
                    EventError::PersistenceFailure => {
                        let e0 = lookup_event(old(self).events_spec(), id);
                        &&& has_event(old(self).events_spec(), id)
                        &&& final(self).events_spec() == old(self).events_spec().remove(
                            crate::store::event_index(old(self).events_spec(), id),
                        )
                        &&& final(self).saved_spec() == old(self).saved_spec()
                        &&& final(self).pending_spec() == changed_pending(
                            old(self).pending_spec(),
                            old(self).sched_config_spec(),
                            ChangeView::Deleted(e0),
                            now as int,
                        )
                        &&& channels_changed_sets(
                            old(self).channels_spec(),
                            final(self).channels_spec(),
                            ChangeView::Deleted(e0),
                        )
                    },
                    _ => false,
                },
            },
    {
        let i = match self.store.find_index(id) {
            Some(i) => i,
            None => {
                return Err(EventError::NotFound);
            },
        };
        let (_removed, updates, saved) = self.commit_removed(i, now);
        match saved {
            Ok(()) => Ok(updates),
            Err(err) => Err(err),
        }
    }
}

/// Whether a scheduled action is stale against the current collection: its
/// event is gone or its event's time has since changed.
pub open spec fn action_stale(a: ScheduledAction, events: Seq<EventView>) -> bool {
    ||| !has_event(events, a.id)
    ||| lookup_event(events, a.id).datetime != a.event_datetime as int
}

impl<S: Store> EventManager<S> {
    /// Fires the alert protocol for the event: freezes the alert message
    /// (rendered by the caller) and returns the members of every complete
    /// group, the ones to notify directly, beside the view operations.
    pub fn alert_event(&mut self, id: EventId, message: String, now: i64) -> (r: Result<
        (Vec<EventMember>, Vec<Vec<ChannelUpdate>>),
        EventError,
    >)
        requires
            old(self).wf(),
        ensures
            final(self).wf(),
            old(self).keeps_shape(*final(self)),
            forall|a: Activity| final(self).counter_spec(a) == old(self).counter_spec(a),
            match r {
                Ok((members, updates)) => {
                    let e0 = lookup_event(old(self).events_spec(), id);
                    let e1 = EventView { alert_message: Some(message@), ..e0 };
                    &&& has_event(old(self).events_spec(), id)
                    &&& crate::event::members_view(members@) == crate::event::roster_view(
                        e0,
                    ).take(crate::event::full_portion_len(e0))
                    &&& final(self).events_spec() == old(self).events_spec().update(
                        crate::store::event_index(old(self).events_spec(), id),
                        e1,
                    )
                    &&& final(self).saved_spec() == old(self).saved_spec().push(
                        final(self).events_spec(),
                    )
                    &&& final(self).pending_spec() == changed_pending(
                        old(self).pending_spec(),
                        old(self).sched_config_spec(),
                        ChangeView::Alert(e1),
                        now as int,
                    )
                    &&& channels_updated(
                        old(self).channels_spec(),
                        final(self).channels_spec(),
                        updates@,
                        ChangeView::Alert(e1),
                    )
                },
                Err(e) => match e {
                    EventError::NotFound => !has_event(old(self).events_spec(), id) && *final(self)
                        == *old(self),
                    EventError::PersistenceFailure => {
                        let e0 = lookup_event(old(self).events_spec(), id);
                        let e1 = EventView { alert_message: Some(message@), ..e0 };
                        &&& has_event(old(self).events_spec(), id)
                        &&& final(self).events_spec() == old(self).events_spec().update(
                            crate::store::event_index(old(self).events_spec(), id),
                            e1,
                        )
                        &&& final(self).saved_spec() == old(self).saved_spec()
                        &&& final(self).pending_spec() == changed_pending(
                            old(self).pending_spec(),
                            old(self).sched_config_spec(),
                            ChangeView::Alert(e1),
                            now as int,
                        )
                        &&& channels_changed_sets(
                            old(self).channels_spec(),
                            final(self).channels_spec(),
                            ChangeView::Alert(e1),
                        )
                    },
                    _ => false,
                },
            },
    {
        let i = match self.store.find_index(id) {
            Some(i) => i,
            None => {
                return Err(EventError::NotFound);
            },
        };
        let mut e = self.store.event_at(i).clone();
        proof {
            self.store.lemma_events_valid();
            assert(e@ == old(self).events_spec()[i as int]);
            assert(crate::event::event_wf(e@));
            assert(i as int == crate::store::event_index(old(self).events_spec(), id));
        }
        let members = e.trigger_alert_protocol(message);
        let (updates, saved) = self.commit_edited(i, e, true, now);
        match saved {
            Ok(()) => Ok((members, updates)),
            Err(err) => Err(err),
        }
    }

    /// Cleans a finished event up: deletes it, and if it recurs, creates the
    /// next occurrence at the first whole-week advance of its time that lies
    /// in the future, with empty participant lists. Returns the removed
    /// event, the view operations of the deletion, and, for a recurring
    /// event, the new event with the view operations of its addition.
    pub fn cleanup_event(&mut self, id: EventId, now: i64) -> (r: Result<
        (Event, Vec<Vec<ChannelUpdate>>, Option<(Event, Vec<Vec<ChannelUpdate>>)>),
        EventError,
    >)
        requires
            old(self).wf(),
            0 <= now,
            now + 2 * WEEK_SECONDS <= crate::event::MAX_EVENT_TIME,
        ensures
            final(self).wf(),
            old(self).keeps_shape(*final(self)),
            match r {
                Ok((removed, del_updates, recreated)) => {
                    let e0 = lookup_event(old(self).events_spec(), id);
                    let mid_events = old(self).events_spec().remove(
                        crate::store::event_index(old(self).events_spec(), id),
                    );
                    let mid_pending = changed_pending(
                        old(self).pending_spec(),
                        old(self).sched_config_spec(),
                        ChangeView::Deleted(e0),
                        now as int,
                    );
                    &&& has_event(old(self).events_spec(), id)
                    &&& removed@ == e0
                    &&& match recreated {
                        None => {
                            &&& !e0.recur
                            &&& final(self).events_spec() == mid_events
                            &&& final(self).saved_spec() == old(self).saved_spec().push(mid_events)
                            &&& final(self).pending_spec() == mid_pending
                            &&& forall|a: Activity|
                                final(self).counter_spec(a) == old(self).counter_spec(a)
                            &&& channels_updated(
                                old(self).channels_spec(),
                                final(self).channels_spec(),
                                del_updates@,
                                ChangeView::Deleted(e0),
                            )
                        },
                        Some((new_event, add_updates)) => {
                            &&& e0.recur
                            &&& new_event@.id.activity == e0.activity
                            &&& Some(new_event@.id.idx) == crate::store::scan_free(
                                mid_events,
                                e0.activity,
                                old(self).counter_spec(e0.activity),
                                255,
                            )
                            &&& new_event@ == recurrence_view(e0, new_event@.id, now as int)
                            &&& !has_event(mid_events, new_event@.id)
                            &&& final(self).events_spec() == mid_events.push(new_event@)
                            &&& final(self).saved_spec() == old(self).saved_spec().push(
                                mid_events,
                            ).push(final(self).events_spec())
                            &&& final(self).pending_spec() == changed_pending(
                                mid_pending,
                                old(self).sched_config_spec(),
                                ChangeView::Added(new_event@),
                                now as int,
                            )
                            &&& forall|a: Activity|
                                a != e0.activity ==> final(self).counter_spec(a) == old(
                                    self,
                                ).counter_spec(a)
                            &&& final(self).counter_spec(e0.activity)
                                == crate::store::succ_idx_spec(new_event@.id.idx)
                            &&& final(self).channels_spec().len() == old(
                                self,
                            ).channels_spec().len()
                            &&& del_updates@.len() == old(self).channels_spec().len()
                            &&& add_updates@.len() == old(self).channels_spec().len()
                            &&& forall|k: int|
                                0 <= k < old(self).channels_spec().len() ==> {
                                    let c0 = #[trigger] old(self).channels_spec()[k];
                                    let c1 = final(self).channels_spec()[k];
                                    let mid_list = apply_updates(
                                        c0.events_spec(),
                                        updates_view(del_updates@[k]@),
                                    );
                                    &&& apply_updates(mid_list, updates_view(add_updates@[k]@))
                                        == c1.events_spec()
                                    &&& c1.events_spec().to_set() == changed_event_set(
                                        changed_event_set(
                                            c0.events_spec().to_set(),
                                            c0.filter_spec(),
                                            ChangeView::Deleted(e0),
                                        ),
                                        c0.filter_spec(),
                                        ChangeView::Added(new_event@),
                                    )
                                }
                        },
                    }
                },
                Err(e) => {
                    let e0 = lookup_event(old(self).events_spec(), id);
                    let mid_events = old(self).events_spec().remove(
                        crate::store::event_index(old(self).events_spec(), id),
                    );
                    let mid_pending = changed_pending(
                        old(self).pending_spec(),
                        old(self).sched_config_spec(),
                        ChangeView::Deleted(e0),
                        now as int,
                    );
                    match e {
                        EventError::NotFound => !has_event(old(self).events_spec(), id) && *final(self) == *old(self),
                        EventError::IdSpaceExhausted => {
                            &&& has_event(old(self).events_spec(), id)
                            &&& e0.recur
                            &&& crate::store::scan_free(
                                mid_events,
                                e0.activity,
                                old(self).counter_spec(e0.activity),
                                255,
                            ) is None
                            &&& final(self).events_spec() == mid_events
                            &&& final(self).saved_spec() == old(self).saved_spec().push(mid_events)
                            &&& final(self).pending_spec() == mid_pending
                            &&& forall|a: Activity|
                                final(self).counter_spec(a) == old(self).counter_spec(a)
                            &&& channels_changed_sets(
                                old(self).channels_spec(),
                                final(self).channels_spec(),
                                ChangeView::Deleted(e0),
                            )
                        },
                        EventError::PersistenceFailure => {
                            &&& has_event(old(self).events_spec(), id)
                            &&& ({
                                // The deletion's save failed: nothing was persisted
                                // and the recurrence was not attempted.
                                ||| {
                                    &&& final(self).events_spec() == mid_events
                                    &&& final(self).saved_spec() == old(self).saved_spec()
                                    &&& final(self).pending_spec() == mid_pending
                                    &&& forall|a: Activity|
                                        final(self).counter_spec(a) == old(self).counter_spec(a)
                                    &&& channels_changed_sets(
                                        old(self).channels_spec(),
                                        final(self).channels_spec(),
                                        ChangeView::Deleted(e0),
                                    )
                                }
                                // The recreation's save failed: the deletion is
                                // persisted and the new occurrence is kept in memory.
                                ||| (e0.recur && match crate::store::scan_free(
                                    mid_events,
                                    e0.activity,
                                    old(self).counter_spec(e0.activity),
                                    255,
                                ) {
                                    Some(idx) => {
                                        let nv = recurrence_view(
                                            e0,
                                            EventId { activity: e0.activity, idx },
                                            now as int,
                                        );
                                        &&& final(self).events_spec() == mid_events.push(nv)
                                        &&& final(self).saved_spec() == old(
                                            self,
                                        ).saved_spec().push(mid_events)
                                        &&& final(self).pending_spec() == changed_pending(
                                            mid_pending,
                                            old(self).sched_config_spec(),
                                            ChangeView::Added(nv),
                                            now as int,
                                        )
                                        &&& forall|a: Activity|
                                            a != e0.activity ==> final(self).counter_spec(a)
                                                == old(self).counter_spec(a)
                                        &&& final(self).counter_spec(e0.activity)
                                            == crate::store::succ_idx_spec(idx)
                                        &&& final(self).channels_spec().len() == old(
                                            self,
                                        ).channels_spec().len()
                                        &&& forall|k: int|
                                            0 <= k < old(self).channels_spec().len() ==> {
                                                let c0 = #[trigger] old(self).channels_spec()[k];
                                                let c1 = final(self).channels_spec()[k];
                                                c1.events_spec().to_set() == changed_event_set(
                                                    changed_event_set(
                                                        c0.events_spec().to_set(),
                                                        c0.filter_spec(),
                                                        ChangeView::Deleted(e0),
                                                    ),
                                                    c0.filter_spec(),
                                                    ChangeView::Added(nv),
                                                )
                                            }
                                    },
                                    None => false,
                                })
                            })
                        },
                        _ => false,
                    }
                },
            },
    {
        let i = match self.store.find_index(id) {
            Some(i) => i,
            None => {
                return Err(EventError::NotFound);
            },
        };
        proof {
            self.store.lemma_events_valid();
            assert(crate::event::event_wf(old(self).events_spec()[i as int]));
            assert(i as int == crate::store::event_index(old(self).events_spec(), id));
        }
        let (removed, del_updates, saved) = self.commit_removed(i, now);
        let ghost mid_chans = self.channels_spec();
        match saved {
            Ok(()) => {},
            Err(err) => {
                return Err(err);
            },
        }
        if !removed.recur() {
            return Ok((removed, del_updates, None));
        }
        let next_time = next_recurrence(removed.datetime(), now);
        let new_id = match self.store.next_id(removed.activity()) {
            Ok(new_id) => new_id,
            Err(err) => {
                return Err(err);
            },
        };
        let new_event = removed.next_occurrence(new_id, next_time);
        proof {
            assert(new_event@ =~= recurrence_view(removed@, new_id, now as int));
        }
        let new_snapshot = new_event.clone();
        let (add_updates, saved2) = self.commit_added(new_event, now);
        proof {
            assert forall|k: int| 0 <= k < old(self).channels_spec().len() implies {
                let c0 = #[trigger] old(self).channels_spec()[k];
                let c1 = self.channels_spec()[k];
                c1.events_spec().to_set() == changed_event_set(
                    changed_event_set(
                        c0.events_spec().to_set(),
                        c0.filter_spec(),
                        ChangeView::Deleted(removed@),
                    ),
                    c0.filter_spec(),
                    ChangeView::Added(new_snapshot@),
                )
            } by {
                assert(mid_chans[k].events_spec().to_set() == changed_event_set(
                    old(self).channels_spec()[k].events_spec().to_set(),
                    old(self).channels_spec()[k].filter_spec(),
                    ChangeView::Deleted(removed@),
                ));
                assert(self.channels_spec()[k].events_spec().to_set() == changed_event_set(
                    mid_chans[k].events_spec().to_set(),
                    mid_chans[k].filter_spec(),
                    ChangeView::Added(new_snapshot@),
                ));
            }
        }
        match saved2 {
            Ok(()) => Ok((removed, del_updates, Some((new_snapshot, add_updates)))),
            Err(err) => Err(err),
        }
    }

    /// The earliest pending action that is due at `now` and still fresh:
    /// stale actions, whose event is gone or whose event's time has since
    /// changed, are silently dropped on the way. Nothing is returned while
    /// no pending action is due.
    pub fn take_due_action(&mut self, now: i64) -> (r: Option<ScheduledAction>)
        requires
            old(self).wf(),
        ensures
            final(self).wf(),
            old(self).keeps_shape(*final(self)),
            final(self).events_spec() == old(self).events_spec(),
            final(self).saved_spec() == old(self).saved_spec(),
            final(self).channels_spec() == old(self).channels_spec(),
            forall|a: Activity| final(self).counter_spec(a) == old(self).counter_spec(a),
            match r {
                Some(a) => {
                    &&& old(self).pending_spec().contains(a)
                    &&& a.action_datetime <= now
                    &&& !action_stale(a, old(self).events_spec())
                    &&& forall|b: ScheduledAction| #[trigger]
                        final(self).pending_spec().contains(b) <==> (old(
                            self,
                        ).pending_spec().contains(b) && crate::scheduler::action_lt(a, b))
                    &&& forall|b: ScheduledAction|
                        old(self).pending_spec().contains(b) && crate::scheduler::action_lt(b, a)
                            ==> b.action_datetime <= now && action_stale(
                            b,
                            old(self).events_spec(),
                        )
                },
                None => {
                    &&& forall|b: ScheduledAction| #[trigger]
                        final(self).pending_spec().contains(b) <==> (old(
                            self,
                        ).pending_spec().contains(b) && b.action_datetime > now)
                    &&& forall|b: ScheduledAction|
                        old(self).pending_spec().contains(b) && b.action_datetime <= now
                            ==> action_stale(b, old(self).events_spec())
                },
            },
    {
        loop
            invariant
                self.store == old(self).store,
                self.channels == old(self).channels,
                self.allow_duplicate_join == old(self).allow_duplicate_join,
                self.wf(),
                self.scheduler.config_spec() == old(self).scheduler.config_spec(),
                forall|b: ScheduledAction| #[trigger]
                    self.scheduler.pending().contains(b) ==> old(self).pending_spec().contains(b),
                forall|b: ScheduledAction|
                    old(self).pending_spec().contains(b) && !(#[trigger] self
                        .scheduler.pending().contains(b)) ==> b.action_datetime <= now
                        && action_stale(b, old(self).events_spec()),
                forall|b: ScheduledAction, c: ScheduledAction|
                    #[trigger] old(self).pending_spec().contains(b) && !self
                        .scheduler.pending().contains(b) && #[trigger] self
                        .scheduler.pending().contains(c) ==> crate::scheduler::action_lt(b, c),
            decreases self.scheduler.pending().len(),
        {
            let ghost pre = self.scheduler.pending();
            let popped = self.scheduler.pop_due(now);
            match popped {
                None => {
                    proof {
                        assert forall|b: ScheduledAction| #[trigger]
                            self.scheduler.pending().contains(b) <==> (old(
                                self,
                            ).pending_spec().contains(b) && b.action_datetime > now) by {
                            if old(self).pending_spec().contains(b) && b.action_datetime > now {
                                assert(pre.contains(b));
                            }
                        }
                        assert forall|b: ScheduledAction|
                            old(self).pending_spec().contains(b) && b.action_datetime
                                <= now implies action_stale(b, old(self).events_spec()) by {
                            if pre.contains(b) {
                                assert(false);
                            }
                            assert(!self.scheduler.pending().contains(b));
                        }
                    }
                    return None;
                },
                Some(a) => {
                    proof {
                        assert forall|b: ScheduledAction| #[trigger] self
                            .scheduler.pending().contains(b) implies crate::store::has_event(
                            self.store.events_spec(),
                            b.id,
                        ) by {
                            assert(pre.contains(b));
                        }
                        assert forall|b1: ScheduledAction, b2: ScheduledAction|
                            #[trigger] self.scheduler.pending().contains(b1) && #[trigger] self
                                .scheduler.pending().contains(b2) && b1.id == b2.id && b1.action
                                == b2.action implies b1 == b2 by {
                            assert(pre.contains(b1) && pre.contains(b2));
                        }
                    }
                    let stale: bool;
                    match self.store.find_index(a.id) {
                        None => {
                            stale = true;
                            proof {
                                assert(action_stale(a, old(self).events_spec()));
                            }
                        },
                        Some(idx) => {
                            let current = self.store.event_at(idx);
                            stale = current.datetime() != a.event_datetime;
                            proof {
                                assert(current@ == lookup_event(self.events_spec(), a.id));
                                if stale {
                                    assert(action_stale(a, old(self).events_spec()));
                                } else {
                                    assert(!action_stale(a, old(self).events_spec()));
                                }
                            }
                        },
                    }
                    if !stale {
                        proof {
                            assert forall|b: ScheduledAction| #[trigger] self
                                .scheduler.pending().contains(b) <==> (old(
                                self,
                            ).pending_spec().contains(b) && crate::scheduler::action_lt(
                                a,
                                b,
                            )) by {
                                if self.scheduler.pending().contains(b) {
                                    assert(pre.contains(b) && b != a);
                                    assert(crate::scheduler::action_lt(a, b));
                                    assert(old(self).pending_spec().contains(b));
                                }
                                if old(self).pending_spec().contains(b)
                                    && crate::scheduler::action_lt(a, b) {
                                    assert(b != a);
                                    if !pre.contains(b) {
                                        assert(crate::scheduler::action_lt(b, a)) by {
                                            assert(pre.contains(a));
                                        }
                                        assert(false);
                                    }
                                    assert(self.scheduler.pending().contains(b));
                                }
                            }
                            assert forall|b: ScheduledAction|
                                old(self).pending_spec().contains(b)
                                    && crate::scheduler::action_lt(b, a) implies b.action_datetime
                                <= now && action_stale(b, old(self).events_spec()) by {
                                if pre.contains(b) {
                                    assert(crate::scheduler::action_lt(a, b));
                                    assert(false);
                                }
                            }
                        }
                        return Some(a);
                    }
                },
            }
        }
    }

    /// When the next pending action fires, if any is pending.
    pub fn next_deadline(&self) -> (r: Option<i64>)
        requires
            self.wf(),
        ensures
            match r {
                Some(t) => {
                    &&& exists|a: ScheduledAction|
                        self.pending_spec().contains(a) && a.action_datetime == t
                    &&& forall|b: ScheduledAction|
                        self.pending_spec().contains(b) ==> t <= b.action_datetime
                },
                None => self.pending_spec() == Set::<ScheduledAction>::empty(),
            },
    {
        let r = self.scheduler.next_deadline();
        proof {
            match r {
                Some(t) => {
                    let a = choose|a: ScheduledAction|
                        self.scheduler.pending().contains(a) && a.action_datetime == t as int;
                    assert(self.pending_spec().contains(a) && a.action_datetime == t);
                },
                None => {},
            }
        }
        r
    }

    /// Whether the duplicate-join override is set.
    pub fn allow_duplicate_join(&self) -> (r: bool)
        ensures
            r == self.allow_duplicate_join_spec(),
    {
        self.allow_duplicate_join
    }

    /// The scheduler configuration.
    pub fn sched_config(&self) -> (r: EventSchedulerConfig)
        ensures
            r == self.sched_config_spec(),
    {
        self.scheduler.config()
    }
}


} // verus!
