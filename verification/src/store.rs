//! The authoritative event collection and its persistence.
//!
//! [`EventStore`] owns the events. Every committing mutation saves the whole
//! post-mutation collection to the [`Store`] collaborator before the change
//! is handed back for fan-out, so persisted state always reflects the latest
//! committed mutation. A failed save is surfaced but the in-memory mutation
//! is kept; the system then runs in a degraded, unsynced-to-disk state until
//! the next successful save.

use vstd::prelude::*;

use crate::activity::Activity;
use crate::event::ChangeView;
use crate::event::Event;
use crate::event::EventChange;
use crate::event::EventError;
use crate::event::EventId;
use crate::event::EventView;

verus! {

/// Spec-level value of an event list.
pub open spec fn events_view(s: Seq<Event>) -> Seq<EventView> {
    s.map_values(|e: Event| e@)
}

/// Whether the collection holds an event with the given identifier.
pub open spec fn has_event(s: Seq<EventView>, id: EventId) -> bool {
    exists|i: int| 0 <= i < s.len() && #[trigger] s[i].id == id
}

/// Durable snapshot persistence, as the store needs it: a sink that accepts
/// whole-collection snapshots. `saved()` is the history of snapshots the
/// sink has accepted, oldest first.
pub trait Store: Sized {
    /// The snapshots accepted so far, oldest first.
    spec fn saved(&self) -> Seq<Seq<EventView>>;

    /// Accepts one whole-collection snapshot, atomically: on failure the
    /// history is unchanged.
    fn save(&mut self, snapshot: &Vec<Event>) -> (r: Result<(), EventError>)
        ensures
            r is Ok ==> final(self).saved() == old(self).saved().push(events_view(snapshot@)),
            r is Err ==> final(self).saved() == old(self).saved() && r == Err::<(), EventError>(
                EventError::PersistenceFailure,
            ),
    ;
}

/// An in-memory [`Store`]: keeps the latest accepted snapshot, and the count
/// of accepted snapshots, for tests and for callers that persist the bytes
/// themselves.
pub struct MemStore {
    last: Option<Vec<Event>>,
    count: u64,
    history: Ghost<Seq<Seq<EventView>>>,
}

impl MemStore {
    /// Internal consistency of the recorded history.
    pub closed spec fn wf(self) -> bool {
        &&& self.count == self.history@.len()
        &&& match self.last {
            Some(v) => self.history@.len() > 0 && events_view(v@) == self.history@.last(),
            None => self.history@.len() == 0,
        }
    }

    /// A store that has accepted nothing yet.
    pub fn new() -> (r: MemStore)
        ensures
            r.saved() == Seq::<Seq<EventView>>::empty(),
            r.wf(),
    {
        MemStore { last: None, count: 0, history: Ghost(Seq::empty()) }
    }

    /// The latest accepted snapshot, if any.
    pub fn last_saved(&self) -> (r: &Option<Vec<Event>>)
        ensures
            self.wf() ==> match r {
                Some(v) => self.saved().len() > 0 && events_view(v@) == self.saved().last(),
                None => self.saved().len() == 0,
            },
    {
        &self.last
    }

    /// How many snapshots have been accepted.
    pub fn save_count(&self) -> (r: u64)
        ensures
            self.wf() ==> r == self.saved().len(),
    {
        self.count
    }
}

/// Copies an event list, preserving its spec-level value.
fn clone_events(v: &Vec<Event>) -> (r: Vec<Event>)
    ensures
        events_view(r@) == events_view(v@),
{
    let mut r: Vec<Event> = Vec::new();
    let mut i: usize = 0;
    while i < v.len()
        invariant
            i <= v@.len(),
            events_view(r@) == events_view(v@.take(i as int)),
        decreases v@.len() - i,
    {
        let ghost pre = r@;
        let e = v[i].clone();
        proof {
            assert(e@ == v@[i as int]@);
        }
        let ghost ev = e@;
        r.push(e);
        proof {
            assert(events_view(pre).len() == pre.len());
            assert(events_view(v@.take(i as int)).len() == i as int);
            assert(r@[i as int]@ == ev);
            assert forall|j: int| 0 <= j < i + 1 implies events_view(r@)[j] == events_view(
                v@.take(i + 1),
            )[j] by {
                if j < i {
                    assert(events_view(pre)[j] == events_view(v@.take(i as int))[j]);
                    assert(events_view(pre)[j] == pre[j]@);
                    assert(v@.take(i as int)[j] == v@[j]);
                }
                assert(v@.take(i + 1)[j] == v@[j]);
            }
            assert(events_view(r@) =~= events_view(v@.take(i + 1)));
        }
        i = i + 1;
    }
    proof {
        assert(v@.take(v@.len() as int) =~= v@);
    }
    r
}

impl Store for MemStore {
    closed spec fn saved(&self) -> Seq<Seq<EventView>> {
        self.history@
    }

    fn save(&mut self, snapshot: &Vec<Event>) -> (r: Result<(), EventError>)
        ensures
            r is Ok ==> final(self).saved() == old(self).saved().push(events_view(snapshot@)),
            r is Err ==> final(self).saved() == old(self).saved() && r == Err::<(), EventError>(
                EventError::PersistenceFailure,
            ),
            old(self).wf() ==> final(self).wf(),
            old(self).wf() ==> (r is Ok <==> old(self).saved().len() < u64::MAX),
    {
        if self.count == u64::MAX {
            return Err(EventError::PersistenceFailure);
        }
        self.last = Some(clone_events(snapshot));
        self.count = self.count + 1;
        proof {
            self.history@ = self.history@.push(events_view(snapshot@));
        }
        Ok(())
    }
}

/// The next sequence index after `n`, wrapping from the top of the range
/// back to 1 (index 0 is never used).
pub open spec fn succ_idx_spec(n: u8) -> u8 {
    if n >= 255 {
        1u8
    } else {
        (n + 1) as u8
    }
}

/// The next sequence index after `n`, wrapping back to 1.
pub fn succ_idx(n: u8) -> (r: u8)
    ensures
        r == succ_idx_spec(n),
{
    if n >= 255 {
        1
    } else {
        n + 1
    }
}

/// Scans forward from `start` (wrapping past 255 back to 1) for the first
/// sequence index not taken by any event of `activity`, giving up after
/// `fuel` candidates.
pub open spec fn scan_free(s: Seq<EventView>, activity: Activity, start: u8, fuel: nat) -> Option<
    u8,
>
    decreases fuel,
{
    if fuel == 0 {
        None
    } else if !has_event(s, EventId { activity, idx: start }) {
        Some(start)
    } else {
        scan_free(s, activity, succ_idx_spec(start), (fuel - 1) as nat)
    }
}

/// A collection of events is a valid store state when every event is
/// well-formed and identifiers are unique.
pub open spec fn valid_events(s: Seq<EventView>) -> bool {
    &&& forall|i: int| 0 <= i < s.len() ==> crate::event::event_wf(#[trigger] s[i])
    &&& forall|i: int, j: int| 0 <= i < j < s.len() ==> s[i].id != s[j].id
}

/// The position of the event with identifier `id`.
pub open spec fn event_index(s: Seq<EventView>, id: EventId) -> int {
    choose|i: int| 0 <= i < s.len() && #[trigger] s[i].id == id
}

/// The event value with identifier `id`.
pub open spec fn lookup_event(s: Seq<EventView>, id: EventId) -> EventView {
    s[event_index(s, id)]
}

/// The authoritative event collection. All mutations go through the
/// `commit_*` operations, which persist the post-mutation snapshot to the
/// store before returning the change for fan-out.
pub struct EventStore<S: Store> {
    events: Vec<Event>,
    next_idx: Vec<u8>,
    store: S,
}

impl<S: Store> EventStore<S> {
    /// The current collection of events.
    pub closed spec fn events_spec(self) -> Seq<EventView> {
        events_view(self.events@)
    }

    /// Where the scan for the next free index of `activity` starts.
    pub closed spec fn counter_spec(self, activity: Activity) -> u8 {
        self.next_idx@[crate::event::activity_ord_spec(activity)]
    }

    /// The history of snapshots the persistence collaborator has accepted.
    pub closed spec fn saved_spec(self) -> Seq<Seq<EventView>> {
        self.store.saved()
    }

    /// Internal consistency: valid events and one counter of at least 1 per
    /// catalog entry.
    pub closed spec fn wf(self) -> bool {
        &&& valid_events(self.events_spec())
        &&& self.next_idx@.len() == 29
        &&& forall|i: int| 0 <= i < 29 ==> 1 <= #[trigger] self.next_idx@[i]
    }

    /// A well-formed store holds a valid collection.
    pub proof fn lemma_events_valid(self)
        requires
            self.wf(),
        ensures
            valid_events(self.events_spec()),
    {
    }

    /// Every per-activity scan cursor lies in the usable index range, so an
    /// exhausted scan from it covers all 255 indices.
    pub proof fn lemma_counter_in_range(self, activity: Activity)
        requires
            self.wf(),
        ensures
            1 <= self.counter_spec(activity),
    {
        assert(0 <= crate::event::activity_ord_spec(activity) < 29);
    }

    /// Builds a store over an initial collection, typically a loaded
    /// snapshot. Fails when the collection has a malformed event or a
    /// duplicated identifier.
    pub fn new(initial: Vec<Event>, store: S) -> (r: Result<EventStore<S>, EventError>)
        ensures
            match r {
                Ok(st) => {
                    &&& st.events_spec() == events_view(initial@)
                    &&& st.wf()
                    &&& st.saved_spec() == store.saved()
                    &&& forall|a: Activity| st.counter_spec(a) == 1
                },
                Err(e) => e == EventError::InvalidSnapshot && !valid_events(events_view(initial@)),
            },
            r is Ok <==> valid_events(events_view(initial@)),
    {
        let ghost iv = events_view(initial@);
        let mut i: usize = 0;
        while i < initial.len()
            invariant
                iv == events_view(initial@),
                i <= initial@.len(),
                forall|j: int| 0 <= j < i ==> crate::event::event_wf(#[trigger] iv[j]),
                forall|j: int, k: int| 0 <= j < k < i ==> iv[j].id != iv[k].id,
            decreases initial@.len() - i,
        {
            proof {
                assert(iv[i as int] == initial@[i as int]@);
            }
            if !initial[i].check_wf() {
                return Err(EventError::InvalidSnapshot);
            }
            let id = initial[i].id();
            let mut j: usize = 0;
            while j < i
                invariant
                    iv == events_view(initial@),
                    i < initial@.len(),
                    j <= i,
                    id == iv[i as int].id,
                    forall|k: int| 0 <= k < j ==> #[trigger] iv[k].id != id,
                decreases i - j,
            {
                proof {
                    assert(iv[j as int] == initial@[j as int]@);
                }
                if initial[j].id() == id {
                    return Err(EventError::InvalidSnapshot);
                }
                j = j + 1;
            }
            i = i + 1;
        }
        proof {
            assert(valid_events(iv)) by {
                assert(forall|j: int, k: int|
                    0 <= j < k < iv.len() ==> iv[j].id != iv[k].id);
            }
        }
        let mut next_idx: Vec<u8> = Vec::new();
        let mut k: usize = 0;
        while k < 29
            invariant
                k <= 29,
                next_idx@.len() == k,
                forall|i2: int| 0 <= i2 < k ==> #[trigger] next_idx@[i2] == 1,
            decreases 29 - k,
        {
            next_idx.push(1);
            k = k + 1;
        }
        Ok(EventStore { events: initial, next_idx, store })
    }

    /// The persistence collaborator, for inspecting what has been saved.
    pub fn persistence(&self) -> (r: &S)
        ensures
            r.saved() == self.saved_spec(),
    {
        &self.store
    }

    /// How many events the collection holds.
    pub fn len(&self) -> (r: usize)
        ensures
            r == self.events_spec().len(),
    {
        proof {
            assert(self.events_spec().len() == self.events@.len());
        }
        self.events.len()
    }

    /// The event at position `i`.
    pub fn event_at(&self, i: usize) -> (r: &Event)
        requires
            i < self.events_spec().len(),
        ensures
            r@ == self.events_spec()[i as int],
    {
        proof {
            assert(self.events_spec().len() == self.events@.len());
            assert(self.events_spec()[i as int] == self.events@[i as int]@);
        }
        &self.events[i]
    }

    /// The whole collection, for snapshots and reconciliation.
    pub fn events(&self) -> (r: &Vec<Event>)
        ensures
            events_view(r@) == self.events_spec(),
    {
        &self.events
    }

    /// The position of the event with identifier `id`, if it exists.
    pub fn find_index(&self, id: EventId) -> (r: Option<usize>)
        requires
            self.wf(),
        ensures
            match r {
                Some(i) => i < self.events_spec().len() && self.events_spec()[i as int].id == id
                    && i == event_index(self.events_spec(), id) && has_event(
                    self.events_spec(),
                    id,
                ),
                None => !has_event(self.events_spec(), id),
            },
    {
        let ghost s = self.events_spec();
        let mut i: usize = 0;
        while i < self.events.len()
            invariant
                s == self.events_spec(),
                self.wf(),
                i <= self.events@.len(),
                s.len() == self.events@.len(),
                forall|j: int| 0 <= j < i ==> #[trigger] s[j].id != id,
            decreases self.events@.len() - i,
        {
            proof {
                assert(s[i as int] == self.events@[i as int]@);
            }
            if self.events[i].id() == id {
                proof {
                    assert(s[i as int].id == id);
                    let c = event_index(s, id);
                    assert(s[c].id == id);
                    if c != i as int {
                        if c < i as int {
                            assert(s[c].id != s[i as int].id);
                        } else {
                            assert(s[i as int].id != s[c].id);
                        }
                    }
                }
                return Some(i);
            }
            i = i + 1;
        }
        None
    }

    /// The event with identifier `id`, if it exists.
    pub fn get(&self, id: EventId) -> (r: Option<&Event>)
        requires
            self.wf(),
        ensures
            match r {
                Some(e) => has_event(self.events_spec(), id) && e@ == lookup_event(
                    self.events_spec(),
                    id,
                ),
                None => !has_event(self.events_spec(), id),
            },
    {
        match self.find_index(id) {
            Some(i) => Some(self.event_at(i)),
            None => None,
        }
    }

    /// Allocates the next identifier for `activity`: the first free sequence
    /// index found scanning forward (with wraparound) from the last
    /// allocated value. Fails with `IdSpaceExhausted` when every index of
    /// that activity is taken; other activities are unaffected.
    pub fn next_id(&mut self, activity: Activity) -> (r: Result<EventId, EventError>)
        requires
            old(self).wf(),
        ensures
            final(self).wf(),
            final(self).events_spec() == old(self).events_spec(),
            final(self).saved_spec() == old(self).saved_spec(),
            forall|a: Activity|
                a != activity ==> final(self).counter_spec(a) == old(self).counter_spec(a),
            match r {
                Ok(id) => {
                    &&& id.activity == activity
                    &&& Some(id.idx) == scan_free(
                        old(self).events_spec(),
                        activity,
                        old(self).counter_spec(activity),
                        255,
                    )
                    &&& !has_event(old(self).events_spec(), id)
                    &&& final(self).counter_spec(activity) == succ_idx_spec(id.idx)
                },
                Err(e) => {
                    &&& e == EventError::IdSpaceExhausted
                    &&& scan_free(
                        old(self).events_spec(),
                        activity,
                        old(self).counter_spec(activity),
                        255,
                    ) is None
                    &&& *final(self) == *old(self)
                },
            },
    {
        let ghost s = self.events_spec();
        let ord = crate::event::activity_ord(activity);
        let start = self.next_idx[ord];
        let mut n = start;
        let mut fuel: usize = 255;
        while fuel > 0
            invariant
                *self == *old(self),
                s == self.events_spec(),
                self.wf(),
                ord == crate::event::activity_ord_spec(activity),
                start == self.counter_spec(activity),
                fuel <= 255,
                scan_free(s, activity, start, 255) == scan_free(s, activity, n, fuel as nat),
            decreases fuel,
        {
            if !contains_event(&self.events, EventId { activity, idx: n }) {
                proof {
                    assert(scan_free(s, activity, n, fuel as nat) == Some(n));
                }
                let ord2 = crate::event::activity_ord(activity);
                let fresh = succ_idx(n);
                self.next_idx[ord2] = fresh;
                proof {
                    assert(start == old(self).counter_spec(activity));
                    assert(scan_free(s, activity, start, 255) == Some(n));
                    assert(s == old(self).events_spec());
                    assert(!has_event(old(self).events_spec(), EventId { activity, idx: n }));
                    assert(self.events_spec() == old(self).events_spec());
                    assert(self.saved_spec() == old(self).saved_spec());
                    assert(self.wf());
                    assert(self.counter_spec(activity) == succ_idx_spec(n));
                    assert forall|a: Activity| a != activity implies self.counter_spec(a) == old(
                        self,
                    ).counter_spec(a) by {
                        if crate::event::activity_ord_spec(a) == crate::event::activity_ord_spec(
                            activity,
                        ) {
                            crate::event::lemma_activity_ord_injective(a, activity);
                        }
                    }
                }
                return Ok(EventId { activity, idx: n });
            }
            proof {
                assert(has_event(s, EventId { activity, idx: n }));
                assert(scan_free(s, activity, n, fuel as nat) == scan_free(
                    s,
                    activity,
                    succ_idx_spec(n),
                    (fuel - 1) as nat,
                ));
            }
            n = succ_idx(n);
            fuel = fuel - 1;
        }
        Err(EventError::IdSpaceExhausted)
    }
}

/// Whether the collection holds an event with identifier `id`.
fn contains_event(v: &Vec<Event>, id: EventId) -> (r: bool)
    ensures
        r == has_event(events_view(v@), id),
{
    let ghost s = events_view(v@);
    let mut i: usize = 0;
    while i < v.len()
        invariant
            s == events_view(v@),
            i <= v@.len(),
            forall|j: int| 0 <= j < i ==> #[trigger] s[j].id != id,
        decreases v@.len() - i,
    {
        proof {
            assert(s[i as int] == v@[i as int]@);
        }
        if v[i].id() == id {
            proof {
                assert(s[i as int].id == id);
            }
            return true;
        }
        i = i + 1;
    }
    false
}

/// Pushing an event and then taking the view is taking the view and then
/// pushing the event's view.
proof fn lemma_events_view_push(v: Seq<Event>, e: Event)
    ensures
        events_view(v.push(e)) == events_view(v).push(e@),
{
    assert forall|j: int| 0 <= j < v.len() + 1 implies events_view(v.push(e))[j] == events_view(
        v,
    ).push(e@)[j] by {
        if j < v.len() {
            assert(v.push(e)[j] == v[j]);
        } else {
            assert(v.push(e)[j] == e);
        }
    }
    assert(events_view(v.push(e)) =~= events_view(v).push(e@));
}

/// Updating one slot and then taking the view is taking the view and then
/// updating that slot.
proof fn lemma_events_view_update(v: Seq<Event>, i: int, e: Event)
    requires
        0 <= i < v.len(),
    ensures
        events_view(v.update(i, e)) == events_view(v).update(i, e@),
{
    assert forall|j: int| 0 <= j < v.len() implies events_view(v.update(i, e))[j] == events_view(
        v,
    ).update(i, e@)[j] by {
        if j == i {
            assert(v.update(i, e)[j] == e);
        } else {
            assert(v.update(i, e)[j] == v[j]);
        }
    }
    assert(events_view(v.update(i, e)) =~= events_view(v).update(i, e@));
}

/// Removing one slot and then taking the view is taking the view and then
/// removing that slot.
proof fn lemma_events_view_remove(v: Seq<Event>, i: int)
    requires
        0 <= i < v.len(),
    ensures
        events_view(v.remove(i)) == events_view(v).remove(i),
{
    assert forall|j: int| 0 <= j < v.len() - 1 implies events_view(v.remove(i))[j] == events_view(
        v,
    ).remove(i)[j] by {
        if j < i {
            assert(v.remove(i)[j] == v[j]);
            assert(events_view(v).remove(i)[j] == events_view(v)[j]);
        } else {
            assert(v.remove(i)[j] == v[j + 1]);
            assert(events_view(v).remove(i)[j] == events_view(v)[j + 1]);
        }
    }
    assert(events_view(v.remove(i)) =~= events_view(v).remove(i));
}

impl<S: Store> EventStore<S> {
    /// Adds a fresh event and persists the post-mutation snapshot before
    /// returning the `Added` change for fan-out. On a persistence failure
    /// the in-memory addition is kept and the failure is surfaced beside
    /// the change.
    pub fn commit_add(&mut self, event: Event) -> (r: (EventChange, Result<(), EventError>))
        requires
            old(self).wf(),
            event.wf(),
            !has_event(old(self).events_spec(), event@.id),
        ensures
            final(self).wf(),
            final(self).events_spec() == old(self).events_spec().push(event@),
            forall|a: Activity| final(self).counter_spec(a) == old(self).counter_spec(a),
            r.0@ == ChangeView::Added(event@),
            match r.1 {
                Ok(()) => final(self).saved_spec() == old(self).saved_spec().push(
                    final(self).events_spec(),
                ),
                Err(e) => e == EventError::PersistenceFailure && final(self).saved_spec() == old(
                    self,
                ).saved_spec(),
            },
    {
        let ghost ev = event@;
        let snapshot_event = event.clone();
        self.events.push(event);
        proof {
            lemma_events_view_push(old(self).events@, snapshot_event);
            assert(events_view(self.events@) =~= events_view(old(self).events@).push(ev));
            let ns = self.events_spec();
            let os = old(self).events_spec();
            assert forall|i: int, j: int| 0 <= i < j < ns.len() implies ns[i].id != ns[j].id by {
                if j < os.len() {
                    assert(os[i].id != os[j].id);
                } else {
                    assert(ns[j] == ev);
                    assert(os[i].id != ev.id);
                }
            }
        }
        let saved = self.store.save(&self.events);
        (EventChange::Added(snapshot_event), saved)
    }

    /// Replaces the event at position `i` with a new snapshot carrying the
    /// same identifier, persists, and returns the `Edited` change (or
    /// `Alert`, for the alert protocol) for fan-out.
    pub fn commit_replace(&mut self, i: usize, event: Event, is_alert: bool) -> (r: (
        EventChange,
        Result<(), EventError>,
    ))
        requires
            old(self).wf(),
            event.wf(),
            i < old(self).events_spec().len(),
            event@.id == old(self).events_spec()[i as int].id,
        ensures
            final(self).wf(),
            final(self).events_spec() == old(self).events_spec().update(i as int, event@),
            forall|a: Activity| final(self).counter_spec(a) == old(self).counter_spec(a),
            r.0@ == (if is_alert {
                ChangeView::Alert(event@)
            } else {
                ChangeView::Edited(event@)
            }),
            match r.1 {
                Ok(()) => final(self).saved_spec() == old(self).saved_spec().push(
                    final(self).events_spec(),
                ),
                Err(e) => e == EventError::PersistenceFailure
                    && final(self).saved_spec() == old(self).saved_spec(),
            },
    {
        let ghost ev = event@;
        let snapshot_event = event.clone();
        proof {
            assert(self.events@.len() == self.events_spec().len());
        }
        let _replaced = self.events.remove(i);
        self.events.insert(i, event);
        proof {
            assert(self.events@ =~= old(self).events@.update(i as int, self.events@[i as int]));
            assert(self.events@[i as int]@ == ev);
            lemma_events_view_update(old(self).events@, i as int, self.events@[i as int]);
            assert(events_view(self.events@) == events_view(old(self).events@).update(
                i as int,
                ev,
            ));
            let ns = self.events_spec();
            let os = old(self).events_spec();
            assert forall|a: int, b: int| 0 <= a < b < ns.len() implies ns[a].id != ns[b].id by {
                assert(os[a].id != os[b].id);
                if a == i as int {
                    assert(ns[a].id == os[a].id);
                } else if b == i as int {
                    assert(ns[b].id == os[b].id);
                }
            }
        }
        let saved = self.store.save(&self.events);
        let change = if is_alert {
            EventChange::Alert(snapshot_event)
        } else {
            EventChange::Edited(snapshot_event)
        };
        (change, saved)
    }

    /// Removes the event at position `i`, persists, and returns the removed
    /// event together with the `Deleted` change for fan-out.
    pub fn commit_remove(&mut self, i: usize) -> (r: (Event, EventChange, Result<
        (),
        EventError,
    >))
        requires
            old(self).wf(),
            i < old(self).events_spec().len(),
        ensures
            final(self).wf(),
            final(self).events_spec() == old(self).events_spec().remove(i as int),
            forall|a: Activity| final(self).counter_spec(a) == old(self).counter_spec(a),
            r.0@ == old(self).events_spec()[i as int],
            r.1@ == ChangeView::Deleted(old(self).events_spec()[i as int]),
            match r.2 {
                Ok(()) => final(self).saved_spec() == old(self).saved_spec().push(
                    final(self).events_spec(),
                ),
                Err(e) => e == EventError::PersistenceFailure
                    && final(self).saved_spec() == old(self).saved_spec(),
            },
    {
        proof {
            assert(self.events@.len() == self.events_spec().len());
            assert(self.events_spec()[i as int] == self.events@[i as int]@);
        }
        let removed = self.events.remove(i);
        let snapshot_event = removed.clone();
        proof {
            lemma_events_view_remove(old(self).events@, i as int);
            let ns = self.events_spec();
            let os = old(self).events_spec();
            assert forall|a: int, b: int| 0 <= a < b < ns.len() implies ns[a].id != ns[b].id by {
                let a0 = if a < i as int {
                    a
                } else {
                    a + 1
                };
                let b0 = if b < i as int {
                    b
                } else {
                    b + 1
                };
                assert(ns[a] == os[a0]);
                assert(ns[b] == os[b0]);
                assert(os[a0].id != os[b0].id);
            }
        }
        let saved = self.store.save(&self.events);
        (removed, EventChange::Deleted(snapshot_event), saved)
    }
}

/// The index reached after `k` forward steps (with wraparound) from `start`.
pub open spec fn advance_idx(start: u8, k: nat) -> u8
    decreases k,
{
    if k == 0 {
        start
    } else {
        succ_idx_spec(advance_idx(start, (k - 1) as nat))
    }
}

/// Stepping first and advancing after is advancing one step further.
proof fn lemma_advance_shift(start: u8, k: nat)
    ensures
        advance_idx(succ_idx_spec(start), k) == advance_idx(start, k + 1),
    decreases k,
{
    if k == 0 {
        assert(advance_idx(start, 1) == succ_idx_spec(advance_idx(start, 0)));
    } else {
        lemma_advance_shift(start, (k - 1) as nat);
        assert(advance_idx(succ_idx_spec(start), k) == succ_idx_spec(
            advance_idx(succ_idx_spec(start), (k - 1) as nat),
        ));
        assert(advance_idx(start, k + 1) == succ_idx_spec(advance_idx(start, k)));
    }
}

/// What the scan returns: the first free index along the forward walk from
/// `start`, every earlier candidate being taken; or, when the fuel runs
/// out, every candidate along the walk taken.
pub proof fn lemma_scan_free_first(s: Seq<EventView>, activity: Activity, start: u8, fuel: nat)
    ensures
        match scan_free(s, activity, start, fuel) {
            Some(n) => exists|d: nat|
                d < fuel && #[trigger] advance_idx(start, d) == n && !has_event(
                    s,
                    EventId { activity, idx: n },
                ) && forall|k: nat|
                    k < d ==> has_event(s, EventId { activity, idx: advance_idx(start, k) }),
            None => forall|k: nat|
                k < fuel ==> has_event(s, EventId { activity, idx: advance_idx(start, k) }),
        },
    decreases fuel,
{
    if fuel == 0 {
    } else if !has_event(s, EventId { activity, idx: start }) {
        let d: nat = 0;
        assert(advance_idx(start, d) == start);
        assert(forall|k: nat|
            k < d ==> has_event(s, EventId { activity, idx: advance_idx(start, k) }));
    } else {
        lemma_scan_free_first(s, activity, succ_idx_spec(start), (fuel - 1) as nat);
        match scan_free(s, activity, succ_idx_spec(start), (fuel - 1) as nat) {
            Some(n) => {
                let d2 = choose|d2: nat|
                    d2 < (fuel - 1) as nat && #[trigger] advance_idx(succ_idx_spec(start), d2)
                        == n && !has_event(s, EventId { activity, idx: n }) && forall|k: nat|
                        k < d2 ==> has_event(
                            s,
                            EventId { activity, idx: advance_idx(succ_idx_spec(start), k) },
                        );
                lemma_advance_shift(start, d2);
                let d = d2 + 1;
                assert(advance_idx(start, d) == n);
                assert forall|k: nat| k < d implies has_event(
                    s,
                    EventId { activity, idx: advance_idx(start, k) },
                ) by {
                    if k == 0 {
                        assert(advance_idx(start, k) == start);
                    } else {
                        assert(has_event(
                            s,
                            EventId {
                                activity,
                                idx: advance_idx(succ_idx_spec(start), (k - 1) as nat),
                            },
                        ));
                        lemma_advance_shift(start, (k - 1) as nat);
                    }
                }
            },
            None => {
                assert forall|k: nat| k < fuel implies has_event(
                    s,
                    EventId { activity, idx: advance_idx(start, k) },
                ) by {
                    if k == 0 {
                        assert(advance_idx(start, k) == start);
                    } else {
                        assert(has_event(
                            s,
                            EventId {
                                activity,
                                idx: advance_idx(succ_idx_spec(start), (k - 1) as nat),
                            },
                        ));
                        lemma_advance_shift(start, (k - 1) as nat);
                    }
                }
            },
        }
    }
}

/// The forward walk in closed form: wrapping around the range `1..=255`.
proof fn lemma_advance_formula(start: u8, k: nat)
    requires
        1 <= start <= 255,
    ensures
        advance_idx(start, k) == ((start - 1 + k) % 255) + 1,
    decreases k,
{
    if k == 0 {
        assert((start - 1) % 255 == start - 1) by {
            vstd::arithmetic::div_mod::lemma_small_mod((start - 1) as nat, 255);
        }
    } else {
        lemma_advance_formula(start, (k - 1) as nat);
        let prev = advance_idx(start, (k - 1) as nat);
        let a = start - 1 + k - 1;
        assert(prev == a % 255 + 1);
        assert(0 <= a % 255 < 255) by {
            vstd::arithmetic::div_mod::lemma_mod_bound(a, 255);
        }
        if a % 255 == 254 {
            assert(prev == 255);
            assert(advance_idx(start, k) == 1);
            assert((a + 1) % 255 == 0) by {
                vstd::arithmetic::div_mod::lemma_mod_adds(a, 1, 255);
                vstd::arithmetic::div_mod::lemma_small_mod(1nat, 255);
                vstd::arithmetic::div_mod::lemma_mod_self_0(255);
            }
        } else {
            assert(prev < 255);
            assert(advance_idx(start, k) == prev + 1);
            assert((a + 1) % 255 == a % 255 + 1) by {
                vstd::arithmetic::div_mod::lemma_mod_adds(a, 1, 255);
                vstd::arithmetic::div_mod::lemma_small_mod(1nat, 255);
            }
        }
    }
}

/// Identifier exhaustion: when a full-fuel scan finds nothing, every
/// sequence index of that activity — all 255 of them — is taken. Other
/// activities are untouched by the claim.
pub proof fn lemma_scan_exhausted(s: Seq<EventView>, activity: Activity, start: u8)
    requires
        1 <= start,
        scan_free(s, activity, start, 255) is None,
    ensures
        forall|idx: u8| 1 <= idx ==> has_event(s, EventId { activity, idx }),
{
    lemma_scan_free_first(s, activity, start, 255);
    assert forall|idx: u8| 1 <= idx implies has_event(s, EventId { activity, idx }) by {
        let k = (if idx >= start {
            idx - start
        } else {
            255 - start + idx
        }) as nat;
        assert(k < 255);
        lemma_advance_formula(start, k);
        assert((start - 1 + k) % 255 == idx - 1) by {
            if idx >= start {
                assert(start - 1 + k == idx - 1);
                vstd::arithmetic::div_mod::lemma_small_mod((idx - 1) as nat, 255);
            } else {
                assert(start - 1 + k == 255 + idx - 1);
                assert((255 + idx - 1) % 255 == (idx - 1) % 255) by {
                    vstd::arithmetic::div_mod::lemma_mod_adds(255, (idx - 1) as int, 255);
                    vstd::arithmetic::div_mod::lemma_mod_self_0(255);
                }
                vstd::arithmetic::div_mod::lemma_small_mod((idx - 1) as nat, 255);
            }
        }
        assert(advance_idx(start, k) == idx);
        assert(has_event(s, EventId { activity, idx: advance_idx(start, k) }));
    }
}

/// How the event collection itself moves under a change.
pub open spec fn collection_changed(
    events0: Seq<EventView>,
    events1: Seq<EventView>,
    c: ChangeView,
) -> bool {
    match c {
        ChangeView::Added(v) => events1 == events0.push(v),
        ChangeView::Edited(v) | ChangeView::Alert(v) => exists|i: int|
            0 <= i < events0.len() && (#[trigger] events0[i]).id == v.id && events1
                == events0.update(i, v),
        ChangeView::Deleted(v) => exists|i: int|
            0 <= i < events0.len() && (#[trigger] events0[i]).id == v.id && events1
                == events0.remove(i),
    }
}

/// An identifier other than `skipped` survives a push.
pub proof fn lemma_has_event_push(events: Seq<EventView>, v: EventView, id: EventId)
    requires
        has_event(events, id),
    ensures
        has_event(events.push(v), id),
{
    let w = choose|w: int| 0 <= w < events.len() && #[trigger] events[w].id == id;
    assert(events.push(v)[w].id == id);
}

/// An identifier other than the replaced one survives an update that keeps
/// the slot's identifier.
pub proof fn lemma_has_event_update(events: Seq<EventView>, i: int, v: EventView, id: EventId)
    requires
        0 <= i < events.len(),
        events[i].id == v.id,
        has_event(events, id),
        id != v.id,
    ensures
        has_event(events.update(i, v), id),
{
    let w = choose|w: int| 0 <= w < events.len() && #[trigger] events[w].id == id;
    assert(w != i);
    assert(events.update(i, v)[w].id == id);
}

/// An identifier other than the removed one survives a removal.
pub proof fn lemma_has_event_remove(events: Seq<EventView>, i: int, id: EventId)
    requires
        0 <= i < events.len(),
        has_event(events, id),
        id != events[i].id,
    ensures
        has_event(events.remove(i), id),
{
    let w = choose|w: int| 0 <= w < events.len() && #[trigger] events[w].id == id;
    assert(w != i);
    if w < i {
        assert(events.remove(i)[w].id == id);
    } else {
        assert(events.remove(i)[w - 1].id == id);
    }
}


/// An identifier that the change does not delete survives the change.
pub proof fn lemma_has_event_step(
    events0: Seq<EventView>,
    events1: Seq<EventView>,
    c: ChangeView,
    id: EventId,
)
    requires
        collection_changed(events0, events1, c),
        has_event(events0, id),
        c is Deleted ==> id != c.event().id,
    ensures
        has_event(events1, id),
{
    match c {
        ChangeView::Added(v) => {
            lemma_has_event_push(events0, v, id);
        },
        ChangeView::Edited(v) | ChangeView::Alert(v) => {
            let i = choose|i: int|
                0 <= i < events0.len() && (#[trigger] events0[i]).id == v.id && events1
                    == events0.update(i, v);
            if id == v.id {
                assert(events1[i].id == id);
            } else {
                lemma_has_event_update(events0, i, v, id);
            }
        },
        ChangeView::Deleted(v) => {
            let i = choose|i: int|
                0 <= i < events0.len() && (#[trigger] events0[i]).id == v.id && events1
                    == events0.remove(i);
            lemma_has_event_remove(events0, i, id);
        },
    }
}

} // verus!
