//! Keeping an ordered external view in sync with the event collection.
//!
//! A [`ChannelEvents`] holds the filtered, sorted list of events shown in one
//! channel: one external representation (a message) per event, ordered by
//! scheduled time and then by identifier. For every event change it emits the
//! operations — update a slot, delete a slot, append a slot — that bring the
//! external ordered list in line, speaking only of positions: the consumer
//! owns the mapping from positions to message handles. Replaying the emitted
//! operations against the previous list reproduces the new filtered, sorted
//! list exactly; that is proved as part of each operation's contract.

use vstd::prelude::*;

use crate::activity::ActivityType;
use crate::event::ChangeView;
use crate::event::Event;
use crate::event::EventChange;
use crate::event::EventId;
use crate::event::EventView;
use crate::store::events_view;
use crate::store::has_event;

verus! {

/// Which events a channel shows.
#[derive(Clone, Copy, Debug, PartialEq, Eq, Structural)]
pub enum EventFilter {
    /// Every event.
    All,
    /// Only events whose activity belongs to the given type.
    ByType(ActivityType),
}

impl EventFilter {
    /// Whether the filter admits an event value.
    pub open spec fn matches(self, v: EventView) -> bool {
        match self {
            EventFilter::All => true,
            EventFilter::ByType(t) => v.activity.activity_type_spec() == t,
        }
    }

    /// Whether the filter admits an event.
    pub fn matches_event(&self, e: &Event) -> (r: bool)
        ensures
            r == self.matches(e@),
    {
        match self {
            EventFilter::All => true,
            EventFilter::ByType(t) => e.activity().activity_type() == *t,
        }
    }
}

/// Display order of events: by scheduled time, then by identifier.
pub open spec fn event_lt(a: EventView, b: EventView) -> bool {
    ||| a.datetime < b.datetime
    ||| (a.datetime == b.datetime && a.id.key_spec() < b.id.key_spec())
}

/// Events with distinct identifiers are ordered one way or the other.
pub proof fn lemma_event_order_total(a: EventView, b: EventView)
    requires
        a.id != b.id,
    ensures
        event_lt(a, b) || event_lt(b, a),
{
    if !event_lt(a, b) && !event_lt(b, a) {
        crate::event::lemma_event_id_key_injective(a.id, b.id);
    }
}

/// Runtime form of the display order.
fn event_lt_exec(a: &Event, b: &Event) -> (r: bool)
    ensures
        r == event_lt(a@, b@),
{
    let da = a.datetime();
    let db = b.datetime();
    if da != db {
        da < db
    } else {
        a.id().key() < b.id().key()
    }
}

/// Strictly ascending event list.
pub open spec fn sorted_events(s: Seq<EventView>) -> bool {
    forall|i: int, j: int| 0 <= i < j < s.len() ==> event_lt(#[trigger] s[i], #[trigger] s[j])
}

/// A single operation against the external ordered list.
#[derive(Debug, PartialEq, Eq)]
pub enum ChannelUpdate {
    /// Create a new representation at the end of the list for the event.
    New(Event),
    /// Replace the representation at the position with the event's.
    Update(Event, usize),
    /// Delete the representation at the position.
    Delete(usize),
}

/// Spec-level value of a [`ChannelUpdate`].
#[verifier::ext_equal]
pub enum UpdateView {
    New(EventView),
    Update(EventView, int),
    Delete(int),
}

impl View for ChannelUpdate {
    type V = UpdateView;

    open spec fn view(&self) -> UpdateView {
        match self {
            ChannelUpdate::New(e) => UpdateView::New(e@),
            ChannelUpdate::Update(e, i) => UpdateView::Update(e@, *i as int),
            ChannelUpdate::Delete(i) => UpdateView::Delete(*i as int),
        }
    }
}

/// Spec-level value of an operation list.
pub open spec fn updates_view(ops: Seq<ChannelUpdate>) -> Seq<UpdateView> {
    ops.map_values(|u: ChannelUpdate| u@)
}

/// One operation applied to an ordered list of event values.
pub open spec fn apply_one(list: Seq<EventView>, op: UpdateView) -> Seq<EventView> {
    match op {
        UpdateView::New(v) => list.push(v),
        UpdateView::Update(v, i) => if 0 <= i < list.len() {
            list.update(i, v)
        } else {
            list
        },
        UpdateView::Delete(i) => if 0 <= i < list.len() {
            list.remove(i)
        } else {
            list
        },
    }
}

/// A whole operation list replayed, in order, against an ordered list.
pub open spec fn apply_updates(list: Seq<EventView>, ops: Seq<UpdateView>) -> Seq<EventView>
    decreases ops.len(),
{
    if ops.len() == 0 {
        list
    } else {
        apply_updates(apply_one(list, ops[0]), ops.drop_first())
    }
}

/// Replaying one more operation is applying it to the replayed list.
pub proof fn lemma_apply_updates_push(list: Seq<EventView>, ops: Seq<UpdateView>, op: UpdateView)
    ensures
        apply_updates(list, ops.push(op)) == apply_one(apply_updates(list, ops), op),
    decreases ops.len(),
{
    if ops.len() == 0 {
        assert(ops.push(op)[0] == op);
        assert(ops.push(op).drop_first() =~= Seq::<UpdateView>::empty());
        assert(apply_updates(list, ops.push(op)) == apply_updates(
            apply_one(list, op),
            Seq::<UpdateView>::empty(),
        ));
        assert(apply_updates(apply_one(list, op), Seq::<UpdateView>::empty()) == apply_one(
            list,
            op,
        ));
        assert(apply_updates(list, ops) == list);
    } else {
        assert(ops.push(op)[0] == ops[0]);
        assert(ops.push(op).drop_first() =~= ops.drop_first().push(op));
        lemma_apply_updates_push(apply_one(list, ops[0]), ops.drop_first(), op);
    }
}

/// The set of events a channel shows after a change: for an edit, a deletion
/// or an alert the event's old entry goes; for an addition, an edit or an
/// alert the new snapshot enters if the filter admits it.
pub open spec fn changed_event_set(
    base: Set<EventView>,
    filter: EventFilter,
    c: ChangeView,
) -> Set<EventView> {
    match c {
        ChangeView::Added(v) => if filter.matches(v) {
            base.insert(v)
        } else {
            base
        },
        ChangeView::Edited(v) | ChangeView::Alert(v) => {
            let removed = base.filter(|w: EventView| w.id != v.id);
            if filter.matches(v) {
                removed.insert(v)
            } else {
                removed
            }
        },
        ChangeView::Deleted(v) => base.filter(|w: EventView| w.id != v.id),
    }
}

/// The update operations for the slots in `[lo, hi)` of `list`, in order.
pub open spec fn update_ops_range(list: Seq<EventView>, lo: int, hi: int) -> Seq<UpdateView> {
    Seq::new(
        if hi >= lo {
            (hi - lo) as nat
        } else {
            0
        },
        |t: int| UpdateView::Update(list[lo + t], lo + t),
    )
}

/// The position of the event with identifier `id` in a display list.
pub open spec fn position_of_id(s: Seq<EventView>, id: EventId) -> int {
    choose|i: int| 0 <= i < s.len() && #[trigger] s[i].id == id
}

/// The operations the derivation table prescribes, from the old entry's
/// position and the new entry's position against the post-change list: a
/// pure removal is one delete; a pure insertion updates every shifted slot
/// and appends exactly one new slot; a move updates every slot between the
/// two positions, inclusive.
pub open spec fn derived_ops(
    old_idx: Option<int>,
    new_idx: Option<int>,
    list: Seq<EventView>,
) -> Seq<UpdateView> {
    match (old_idx, new_idx) {
        (None, None) => Seq::<UpdateView>::empty(),
        (Some(o), None) => seq![UpdateView::Delete(o)],
        (None, Some(n)) => update_ops_range(list, n, list.len() - 1).push(
            UpdateView::New(list.last()),
        ),
        (Some(o), Some(n)) => update_ops_range(
            list,
            if o <= n {
                o
            } else {
                n
            },
            (if o <= n {
                n
            } else {
                o
            }) + 1,
        ),
    }
}

/// The exact operations one change emits: the changed event's position in
/// the previous list (when the change replaces or removes an entry) and its
/// position in the new list (when the filter admits the new snapshot) drive
/// the derivation table.
pub open spec fn emitted_ops(
    l0: Seq<EventView>,
    l2: Seq<EventView>,
    filter: EventFilter,
    c: ChangeView,
) -> Seq<UpdateView> {
    let v = c.event();
    let old_idx: Option<int> = if !(c is Added) && has_event(l0, v.id) {
        Some(position_of_id(l0, v.id))
    } else {
        None
    };
    let new_idx: Option<int> = if !(c is Deleted) && filter.matches(v) {
        Some(position_of_id(l2, v.id))
    } else {
        None
    };
    derived_ops(old_idx, new_idx, l2)
}

/// Membership in a list with one element inserted.
pub proof fn lemma_insert_membership(s: Seq<EventView>, k: int, v: EventView, x: EventView)
    requires
        0 <= k <= s.len(),
    ensures
        s.insert(k, v).contains(x) <==> s.contains(x) || x == v,
{
    let t = s.insert(k, v);
    if t.contains(x) {
        let w = choose|w: int| 0 <= w < t.len() && t[w] == x;
        if w < k {
            assert(s[w] == x);
        } else if w == k {
        } else {
            assert(s[w - 1] == x);
        }
    }
    if s.contains(x) {
        let w = choose|w: int| 0 <= w < s.len() && s[w] == x;
        if w < k {
            assert(t[w] == x);
        } else {
            assert(t[w + 1] == x);
        }
    }
    if x == v {
        assert(t[k] == x);
    }
}

/// The filtered, sorted list of events shown in one channel.
pub struct ChannelEvents {
    filter: EventFilter,
    events: Vec<Event>,
}

impl ChannelEvents {
    /// The filter this channel shows events through.
    pub closed spec fn filter_spec(self) -> EventFilter {
        self.filter
    }

    /// The events shown, in display order.
    pub closed spec fn events_spec(self) -> Seq<EventView> {
        events_view(self.events@)
    }

    /// The displayed list is strictly sorted by scheduled time and then by
    /// identifier, holds at most one entry per identifier, and every entry
    /// passes the filter. This is the display order the channel promises:
    /// `new` establishes it and `apply_event_change` keeps it.
    pub open spec fn wf(self) -> bool {
        &&& sorted_events(self.events_spec())
        &&& forall|i: int, j: int|
            0 <= i < j < self.events_spec().len() ==> self.events_spec()[i].id
                != self.events_spec()[j].id
        &&& forall|i: int|
            0 <= i < self.events_spec().len() ==> self.filter_spec().matches(
                #[trigger] self.events_spec()[i],
            )
    }

    /// The filter this channel shows events through.
    pub fn filter(&self) -> (r: EventFilter)
        ensures
            r == self.filter_spec(),
    {
        self.filter
    }

    /// The events shown, in display order.
    pub fn events(&self) -> (r: &Vec<Event>)
        ensures
            events_view(r@) == self.events_spec(),
    {
        &self.events
    }

    /// The position of the event with identifier `id`, if it is shown.
    fn position_of(&self, id: EventId) -> (r: Option<usize>)
        ensures
            match r {
                Some(i) => i < self.events_spec().len() && self.events_spec()[i as int].id == id,
                None => !has_event(self.events_spec(), id),
            },
    {
        let ghost s = self.events_spec();
        let mut i: usize = 0;
        while i < self.events.len()
            invariant
                s == self.events_spec(),
                s.len() == self.events@.len(),
                i <= self.events@.len(),
                forall|j: int| 0 <= j < i ==> #[trigger] s[j].id != id,
            decreases self.events@.len() - i,
        {
            proof {
                assert(s[i as int] == self.events@[i as int]@);
            }
            if self.events[i].id() == id {
                return Some(i);
            }
            i = i + 1;
        }
        None
    }

    /// Builds the channel list from the initial events: those the filter
    /// admits, in display order.
    pub fn new(filter: EventFilter, initial_events: &Vec<Event>) -> (r: ChannelEvents)
        requires
            crate::store::valid_events(events_view(initial_events@)),
        ensures
            r.wf(),
            r.filter_spec() == filter,
            r.events_spec().to_set() == events_view(initial_events@).to_set().filter(
                |v: EventView| filter.matches(v),
            ),
    {
        let ghost evs = events_view(initial_events@);
        let mut r = ChannelEvents { filter, events: Vec::new() };
        proof {
            assert(r.events_spec() =~= Seq::<EventView>::empty());
            assert(r.events_spec().to_set() =~= evs.take(0).to_set().filter(
                |v: EventView| filter.matches(v),
            ));
        }
        let mut i: usize = 0;
        while i < initial_events.len()
            invariant
                evs == events_view(initial_events@),
                crate::store::valid_events(evs),
                evs.len() == initial_events@.len(),
                i <= initial_events@.len(),
                r.wf(),
                r.filter_spec() == filter,
                r.events_spec().to_set() == evs.take(i as int).to_set().filter(
                    |v: EventView| filter.matches(v),
                ),
            decreases initial_events@.len() - i,
        {
            proof {
                assert(evs[i as int] == initial_events@[i as int]@);
            }
            let e = &initial_events[i];
            let ghost pre_list = r.events_spec();
            let ghost pre_set = r.events_spec().to_set();
            let m = filter.matches_event(e);
            if m {
                proof {
                    assert forall|k: int|
                        0 <= k < pre_list.len() implies #[trigger] pre_list[k].id != e@.id by {
                        assert(pre_set.contains(pre_list[k]));
                        assert(evs.take(i as int).to_set().contains(pre_list[k]));
                        assert(evs.take(i as int).contains(pre_list[k]));
                        let w = choose|w: int|
                            0 <= w < evs.take(i as int).len() && #[trigger] evs.take(
                                i as int,
                            )[w] == pre_list[k];
                        assert(evs[w] == pre_list[k]);
                        assert(evs[w].id != evs[i as int].id);
                    }
                }
                let inserted_at = r.insert_sorted(e);
                proof {
                    let kk = inserted_at as int;
                    assert forall|x: EventView| #[trigger]
                        r.events_spec().to_set().contains(x) == (pre_set.contains(x) || x
                            == evs[i as int]) by {
                        lemma_insert_membership(pre_list, kk, e@, x);
                    }
                }
            }
            proof {
                assert forall|x: EventView| #[trigger]
                    r.events_spec().to_set().contains(x) == evs.take(i + 1).to_set().filter(
                        |v2: EventView| filter.matches(v2),
                    ).contains(x) by {
                    assert(evs.take(i + 1).contains(x) == (evs.take(i as int).contains(x) || x
                        == evs[i as int])) by {
                        if evs.take(i + 1).contains(x) {
                            let w = choose|w: int|
                                0 <= w < evs.take(i + 1).len() && #[trigger] evs.take(
                                    i + 1,
                                )[w] == x;
                            if w < i {
                                assert(evs.take(i as int)[w] == x);
                            }
                        }
                        if evs.take(i as int).contains(x) {
                            let w = choose|w: int|
                                0 <= w < evs.take(i as int).len() && #[trigger] evs.take(
                                    i as int,
                                )[w] == x;
                            assert(evs.take(i + 1)[w] == x);
                        }
                        if x == evs[i as int] {
                            assert(evs.take(i + 1)[i as int] == x);
                        }
                    }
                    if !m && x == evs[i as int] {
                        assert(!filter.matches(x));
                    }
                }
                assert(r.events_spec().to_set() =~= evs.take(i + 1).to_set().filter(
                    |v: EventView| filter.matches(v),
                ));
            }
            i = i + 1;
        }
        proof {
            assert(evs.take(evs.len() as int) =~= evs);
        }
        r
    }

    /// Inserts an event the filter admits at its display position; the
    /// position is returned.
    fn insert_sorted(&mut self, e: &Event) -> (r: usize)
        requires
            old(self).wf(),
            old(self).filter_spec().matches(e@),
            forall|i: int|
                0 <= i < old(self).events_spec().len() ==> (#[trigger] old(
                    self,
                ).events_spec()[i]).id != e@.id,
        ensures
            final(self).wf(),
            final(self).filter_spec() == old(self).filter_spec(),
            r <= old(self).events_spec().len(),
            final(self).events_spec() == old(self).events_spec().insert(r as int, e@),
    {
        let ghost l = self.events_spec();
        let mut k: usize = 0;
        while k < self.events.len()
            invariant
                *self == *old(self),
                l == self.events_spec(),
                l.len() == self.events@.len(),
                k <= l.len(),
                old(self).wf(),
                old(self).filter_spec().matches(e@),
                forall|i: int| 0 <= i < l.len() ==> (#[trigger] l[i]).id != e@.id,
                forall|j: int| 0 <= j < k ==> event_lt(#[trigger] l[j], e@),
            decreases self.events@.len() - k,
        {
            proof {
                assert(l[k as int] == self.events@[k as int]@);
            }
            if !event_lt_exec(&self.events[k], e) {
                proof {
                    lemma_event_order_total(l[k as int], e@);
                    assert(event_lt(e@, l[k as int]));
                }
                self.insert_at(k, e);
                return k;
            }
            k = k + 1;
        }
        self.insert_at(k, e);
        k
    }

    /// Inserts an event at position `k`, which its display order demands.
    fn insert_at(&mut self, k: usize, e: &Event)
        requires
            old(self).wf(),
            old(self).filter_spec().matches(e@),
            k <= old(self).events_spec().len(),
            forall|i: int|
                0 <= i < old(self).events_spec().len() ==> (#[trigger] old(
                    self,
                ).events_spec()[i]).id != e@.id,
            forall|j: int| 0 <= j < k ==> event_lt(#[trigger] old(self).events_spec()[j], e@),
            k < old(self).events_spec().len() ==> event_lt(e@, old(self).events_spec()[k as int]),
        ensures
            final(self).wf(),
            final(self).filter_spec() == old(self).filter_spec(),
            final(self).events_spec() == old(self).events_spec().insert(k as int, e@),
    {
        let ghost l = self.events_spec();
        proof {
            assert(l.len() == self.events@.len());
        }
        let copy = e.clone();
        let ghost cv = copy@;
        self.events.insert(k, copy);
        proof {
            assert(cv == e@);
            assert(self.events@[k as int]@ == cv);
            assert forall|j: int| 0 <= j < self.events_spec().len() implies #[trigger] self
                .events_spec()[j] == l.insert(k as int, cv)[j] by {
                assert(self.events_spec()[j] == self.events@[j]@);
                if j < k as int {
                    assert(self.events@[j] == old(self).events@[j]);
                    assert(l[j] == old(self).events@[j]@);
                } else if j > k as int {
                    assert(self.events@[j] == old(self).events@[j - 1]);
                    assert(l[j - 1] == old(self).events@[j - 1]@);
                }
            }
            assert(self.events_spec() =~= l.insert(k as int, cv));
            let f = self.events_spec();
            assert forall|x: int, y: int| 0 <= x < y < f.len() implies event_lt(
                #[trigger] f[x],
                #[trigger] f[y],
            ) by {
                let xi = if x < k as int {
                    x
                } else {
                    x - 1
                };
                let yi = if y < k as int {
                    y
                } else {
                    y - 1
                };
                if x == k as int {
                    assert(f[x] == cv);
                    assert(f[y] == l[yi]);
                    assert(yi >= k as int);
                    assert(event_lt(e@, l[k as int]));
                    if yi > k as int {
                        assert(event_lt(l[k as int], l[yi]));
                    }
                } else if y == k as int {
                    assert(f[y] == cv);
                    assert(f[x] == l[xi]);
                    assert(xi < k as int);
                } else {
                    assert(f[x] == l[xi] && f[y] == l[yi]);
                }
            }
            assert forall|x: int, y: int| 0 <= x < y < f.len() implies f[x].id != f[y].id by {
                assert(event_lt(f[x], f[y]));
                if f[x].id == f[y].id {
                    assert(f[x].id.key_spec() == f[y].id.key_spec());
                }
            }
        }
    }
}

/// Taking the view of one more operation is appending its view.
proof fn lemma_updates_view_push(ops: Seq<ChannelUpdate>, u: ChannelUpdate)
    ensures
        updates_view(ops.push(u)) == updates_view(ops).push(u@),
{
    assert forall|j: int| 0 <= j < ops.len() + 1 implies updates_view(ops.push(u))[j]
        == updates_view(ops).push(u@)[j] by {
        if j < ops.len() {
            assert(ops.push(u)[j] == ops[j]);
        } else {
            assert(ops.push(u)[j] == u);
        }
    }
    assert(updates_view(ops.push(u)) =~= updates_view(ops).push(u@));
}

impl ChannelEvents {
    /// Removes the event at position `i`.
    fn remove_at(&mut self, i: usize)
        requires
            old(self).wf(),
            i < old(self).events_spec().len(),
        ensures
            final(self).wf(),
            final(self).filter_spec() == old(self).filter_spec(),
            final(self).events_spec() == old(self).events_spec().remove(i as int),
    {
        let ghost l = self.events_spec();
        proof {
            assert(l.len() == self.events@.len());
        }
        let _removed = self.events.remove(i);
        proof {
            assert forall|j: int| 0 <= j < self.events_spec().len() implies #[trigger] self
                .events_spec()[j] == l.remove(i as int)[j] by {
                assert(self.events_spec()[j] == self.events@[j]@);
                if j < i as int {
                    assert(self.events@[j] == old(self).events@[j]);
                    assert(l.remove(i as int)[j] == l[j]);
                    assert(l[j] == old(self).events@[j]@);
                } else {
                    assert(self.events@[j] == old(self).events@[j + 1]);
                    assert(l.remove(i as int)[j] == l[j + 1]);
                    assert(l[j + 1] == old(self).events@[j + 1]@);
                }
            }
            assert(self.events_spec() =~= l.remove(i as int));
            let f = self.events_spec();
            assert forall|x: int, y: int| 0 <= x < y < f.len() implies event_lt(
                #[trigger] f[x],
                #[trigger] f[y],
            ) && f[x].id != f[y].id by {
                let xi = if x < i as int {
                    x
                } else {
                    x + 1
                };
                let yi = if y < i as int {
                    y
                } else {
                    y + 1
                };
                assert(f[x] == l[xi] && f[y] == l[yi]);
            }
        }
    }

    /// Applies one event change and emits the operations that bring the
    /// external ordered list in line: replaying them against the previous
    /// list reproduces the new filtered, sorted list exactly.
    pub fn apply_event_change(&mut self, change: &EventChange) -> (r: Vec<ChannelUpdate>)
        requires
            old(self).wf(),
            change@ is Added ==> !has_event(old(self).events_spec(), change@.event().id),
        ensures
            final(self).wf(),
            final(self).filter_spec() == old(self).filter_spec(),
            final(self).events_spec().to_set() == changed_event_set(
                old(self).events_spec().to_set(),
                old(self).filter_spec(),
                change@,
            ),
            apply_updates(old(self).events_spec(), updates_view(r@)) == final(self).events_spec(),
            updates_view(r@) == emitted_ops(
                old(self).events_spec(),
                final(self).events_spec(),
                old(self).filter_spec(),
                change@,
            ),
    {
        let ghost l0 = self.events_spec();
        let ghost target_id = change@.event().id;
        let ghost wf0 = old(self).wf();

        // Step 1: drop the event's old entry, if it was shown.
        let old_idx: Option<usize> = match change {
            EventChange::Edited(ev) | EventChange::Deleted(ev) | EventChange::Alert(ev) => {
                match self.position_of(ev.id()) {
                    Some(i) => {
                        self.remove_at(i);
                        Some(i)
                    },
                    None => None,
                }
            },
            EventChange::Added(_) => None,
        };
        let ghost l1 = self.events_spec();
        let ghost spec_old_idx: Option<int> = if !(change@ is Added) && has_event(l0, target_id) {
            Some(position_of_id(l0, target_id))
        } else {
            None
        };
        proof {
            match old_idx {
                Some(i) => {
                    assert(l0[i as int].id == target_id);
                    assert(has_event(l0, target_id));
                    let c = position_of_id(l0, target_id);
                    assert(l0[c].id == target_id);
                    if c != i as int {
                        if c < i as int {
                            assert(l0[c].id != l0[i as int].id);
                        } else {
                            assert(l0[i as int].id != l0[c].id);
                        }
                    }
                    assert(spec_old_idx == Some(i as int));
                },
                None => {
                    assert(spec_old_idx is None);
                },
            }
            match old_idx {
                Some(i) => {
                    assert(l1 == l0.remove(i as int));
                    assert forall|x: int|
                        0 <= x < l1.len() implies #[trigger] l1[x].id != target_id by {
                        let xi = if x < i as int {
                            x
                        } else {
                            x + 1
                        };
                        assert(l1[x] == l0[xi]);
                        if xi != i as int {
                            if xi < i as int {
                                assert(l0[xi].id != l0[i as int].id);
                            } else {
                                assert(l0[i as int].id != l0[xi].id);
                            }
                        }
                    }
                    assert forall|x: EventView| #[trigger]
                        l1.to_set().contains(x) == l0.to_set().filter(
                            |w: EventView| w.id != target_id,
                        ).contains(x) by {
                        if l1.contains(x) {
                            let w = choose|w: int| 0 <= w < l1.len() && l1[w] == x;
                            let wi = if w < i as int {
                                w
                            } else {
                                w + 1
                            };
                            assert(l0[wi] == x);
                            assert(l1[w].id != target_id);
                        }
                        if l0.contains(x) && x.id != target_id {
                            let w = choose|w: int| 0 <= w < l0.len() && l0[w] == x;
                            if w < i as int {
                                assert(l1[w] == x);
                            } else if w > i as int {
                                assert(l1[w - 1] == x);
                            } else {
                                assert(l0[i as int].id == target_id);
                            }
                        }
                    }
                    assert(l1.to_set() =~= l0.to_set().filter(
                        |w: EventView| w.id != target_id,
                    ));
                },
                None => {
                    assert(l1 == l0);
                    if !(change@ is Added) {
                        assert(!has_event(l0, target_id));
                        assert forall|x: EventView| #[trigger]
                            l1.to_set().contains(x) == l0.to_set().filter(
                                |w: EventView| w.id != target_id,
                            ).contains(x) by {
                            if l0.contains(x) {
                                let w = choose|w: int| 0 <= w < l0.len() && l0[w] == x;
                                assert(l0[w].id != target_id);
                            }
                        }
                        assert(l1.to_set() =~= l0.to_set().filter(
                            |w: EventView| w.id != target_id,
                        ));
                    }
                },
            }
        }

        // Step 2: insert the new snapshot, if the filter still admits it.
        let new_idx: Option<usize> = match change {
            EventChange::Added(ev) | EventChange::Edited(ev) | EventChange::Alert(ev) => {
                if self.filter.matches_event(ev) {
                    proof {
                        if change@ is Added {
                            assert forall|x: int|
                                0 <= x < l1.len() implies #[trigger] l1[x].id != target_id by {
                                assert(l1.contains(l1[x]));
                                assert(!has_event(l0, target_id));
                            }
                        }
                    }
                    let k = self.insert_sorted(ev);
                    Some(k)
                } else {
                    None
                }
            },
            EventChange::Deleted(_) => None,
        };
        let ghost l2 = self.events_spec();
        let ghost spec_new_idx: Option<int> = if !(change@ is Deleted) && old(
            self,
        ).filter_spec().matches(change@.event()) {
            Some(position_of_id(l2, change@.event().id))
        } else {
            None
        };
        proof {
            match new_idx {
                Some(k) => {
                    assert(l2 == l1.insert(k as int, change@.event()));
                    assert(l2[k as int] == change@.event());
                    assert(l2[k as int].id == target_id);
                    let c = position_of_id(l2, target_id);
                    assert(l2[c].id == target_id);
                    assert(self.wf());
                    if c != k as int {
                        if c < k as int {
                            assert(l2[c].id != l2[k as int].id);
                        } else {
                            assert(l2[k as int].id != l2[c].id);
                        }
                    }
                    assert(spec_new_idx == Some(k as int));
                },
                None => {
                    assert(spec_new_idx is None);
                },
            }
            match new_idx {
                Some(k) => {
                    assert(l2 == l1.insert(k as int, change@.event()));
                    assert forall|x: EventView| #[trigger]
                        l2.to_set().contains(x) == l1.to_set().insert(
                            change@.event(),
                        ).contains(x) by {
                        lemma_insert_membership(l1, k as int, change@.event(), x);
                    }
                    assert(l2.to_set() =~= l1.to_set().insert(change@.event()));
                },
                None => {
                    assert(l2 == l1);
                },
            }
            assert(l2.to_set() == changed_event_set(
                l0.to_set(),
                old(self).filter_spec(),
                change@,
            ));
        }

        // Step 3: derive the operations from the two positions.
        let mut ops: Vec<ChannelUpdate> = Vec::new();
        proof {
            assert(updates_view(ops@) =~= Seq::<UpdateView>::empty());
        }
        match (old_idx, new_idx) {
            (None, None) => {
                proof {
                    assert(l2 == l0);
                    assert(updates_view(ops@) =~= derived_ops(spec_old_idx, spec_new_idx, l2));
                }
            },
            (None, Some(newk)) => {
                self.emit_insert_ops(&mut ops, newk, Ghost(l0));
                proof {
                    assert(updates_view(ops@) == derived_ops(spec_old_idx, spec_new_idx, l2));
                }
            },
            (Some(oldi), None) => {
                ops.push(ChannelUpdate::Delete(oldi));
                proof {
                    lemma_updates_view_push(Seq::empty(), ChannelUpdate::Delete(oldi));
                    lemma_apply_updates_push(
                        l0,
                        Seq::empty(),
                        UpdateView::Delete(oldi as int),
                    );
                    assert(updates_view(ops@) =~= Seq::<UpdateView>::empty().push(
                        UpdateView::Delete(oldi as int),
                    ));
                    assert(apply_updates(l0, updates_view(ops@)) == l0.remove(oldi as int));
                    assert(updates_view(ops@) =~= derived_ops(spec_old_idx, spec_new_idx, l2));
                }
            },
            (Some(oldi), Some(newk)) => {
                self.emit_move_ops(&mut ops, oldi, newk, Ghost(l0), Ghost(l1));
                proof {
                    assert(updates_view(ops@) == derived_ops(spec_old_idx, spec_new_idx, l2));
                }
            },
        }
        proof {
            assert(updates_view(ops@) == emitted_ops(l0, l2, old(self).filter_spec(), change@));
        }
        ops
    }
}

/// `base` with the slots in `[lo, hi)` replaced by the corresponding slots
/// of `with`: the intermediate states of a replay.
pub open spec fn updated_prefix(
    base: Seq<EventView>,
    with: Seq<EventView>,
    lo: int,
    hi: int,
) -> Seq<EventView> {
    Seq::new(
        base.len(),
        |x: int|
            if lo <= x < hi {
                with[x]
            } else {
                base[x]
            },
    )
}

impl ChannelEvents {
    /// Emits the operations for a pure insertion at `newk`: the tail of the
    /// list shifts down one position, each shifted slot is updated, and one
    /// new slot is appended.
    fn emit_insert_ops(&self, ops: &mut Vec<ChannelUpdate>, newk: usize, l0: Ghost<Seq<EventView>>)
        requires
            old(ops)@.len() == 0,
            newk <= l0@.len(),
            self.events_spec().len() == l0@.len() + 1,
            forall|x: int| 0 <= x < newk ==> #[trigger] self.events_spec()[x] == l0@[x],
            forall|x: int|
                newk < x < self.events_spec().len() ==> #[trigger] self.events_spec()[x] == l0@[x
                    - 1],
        ensures
            apply_updates(l0@, updates_view(final(ops)@)) == self.events_spec(),
            updates_view(final(ops)@) == update_ops_range(
                self.events_spec(),
                newk as int,
                self.events_spec().len() - 1,
            ).push(UpdateView::New(self.events_spec().last())),
    {
        let ghost l2 = self.events_spec();
        let n = self.events.len();
        proof {
            assert(l2.len() == self.events@.len());
            assert(apply_updates(l0@, updates_view(ops@)) == l0@) by {
                assert(updates_view(ops@) =~= Seq::<UpdateView>::empty());
            }
            assert(updated_prefix(l0@, l2, newk as int, newk as int) =~= l0@);
            assert(updates_view(ops@) =~= update_ops_range(l2, newk as int, newk as int));
        }
        let mut j = newk;
        while j < n - 1
            invariant
                newk <= j <= n - 1,
                n == self.events@.len(),
                l2 == self.events_spec(),
                l2.len() == n,
                l2.len() == l0@.len() + 1,
                apply_updates(l0@, updates_view(ops@)) == updated_prefix(
                    l0@,
                    l2,
                    newk as int,
                    j as int,
                ),
                updates_view(ops@) == update_ops_range(l2, newk as int, j as int),
            decreases n - j,
        {
            proof {
                assert(l2[j as int] == self.events@[j as int]@);
            }
            let e = self.events[j].clone();
            let ghost pre_vec = ops@;
            let ghost before = updates_view(ops@);
            ops.push(ChannelUpdate::Update(e, j));
            proof {
                assert(updates_view(ops@) == before.push(UpdateView::Update(l2[j as int], j as int))) by {
                    lemma_updates_view_push(pre_vec, ops@.last());
                }
                lemma_apply_updates_push(l0@, before, UpdateView::Update(l2[j as int], j as int));
                assert(updated_prefix(l0@, l2, newk as int, j as int).update(j as int, l2[j as int])
                    =~= updated_prefix(l0@, l2, newk as int, j + 1));
                assert(update_ops_range(l2, newk as int, j as int).push(
                    UpdateView::Update(l2[j as int], j as int),
                ) =~= update_ops_range(l2, newk as int, j + 1));
            }
            j = j + 1;
        }
        proof {
            assert(l2[n - 1] == self.events@[n - 1]@);
        }
        let last = self.events[n - 1].clone();
        let ghost pre_vec = ops@;
            let ghost before = updates_view(ops@);
        ops.push(ChannelUpdate::New(last));
        proof {
            assert(updates_view(ops@) == before.push(UpdateView::New(l2[n - 1]))) by {
                    lemma_updates_view_push(pre_vec, ops@.last());
                }
            lemma_apply_updates_push(l0@, before, UpdateView::New(l2[n - 1]));
            assert(updated_prefix(l0@, l2, newk as int, n - 1).push(l2[n - 1]) =~= l2);
            assert(l2.last() == l2[n - 1]);
        }
    }

    /// Emits the operations for a removal at `oldi` combined with an
    /// insertion at `newk`: every slot between the two positions is updated
    /// in place.
    fn emit_move_ops(
        &self,
        ops: &mut Vec<ChannelUpdate>,
        oldi: usize,
        newk: usize,
        l0: Ghost<Seq<EventView>>,
        l1: Ghost<Seq<EventView>>,
    )
        requires
            old(ops)@.len() == 0,
            oldi < l0@.len(),
            l1@ == l0@.remove(oldi as int),
            newk <= l1@.len(),
            self.events_spec().len() == l1@.len() + 1,
            forall|x: int| 0 <= x < newk ==> #[trigger] self.events_spec()[x] == l1@[x],
            forall|x: int|
                newk < x < self.events_spec().len() ==> #[trigger] self.events_spec()[x] == l1@[x
                    - 1],
        ensures
            apply_updates(l0@, updates_view(final(ops)@)) == self.events_spec(),
            updates_view(final(ops)@) == update_ops_range(
                self.events_spec(),
                if oldi <= newk {
                    oldi as int
                } else {
                    newk as int
                },
                (if oldi <= newk {
                    newk as int
                } else {
                    oldi as int
                }) + 1,
            ),
    {
        let ghost l2 = self.events_spec();
        let n = self.events.len();
        let lo = if oldi < newk {
            oldi
        } else {
            newk
        };
        let hi = if oldi < newk {
            newk
        } else {
            oldi
        };
        proof {
            assert(l2.len() == self.events@.len());
            assert(l2.len() == l0@.len());
            assert(apply_updates(l0@, updates_view(ops@)) == l0@) by {
                assert(updates_view(ops@) =~= Seq::<UpdateView>::empty());
            }
            assert(updated_prefix(l0@, l2, lo as int, lo as int) =~= l0@);
            assert(updates_view(ops@) =~= update_ops_range(l2, lo as int, lo as int));
            assert forall|x: int| 0 <= x < n && !(lo <= x <= hi) implies #[trigger] l2[x]
                == l0@[x] by {
                if x < lo as int {
                    assert(l2[x] == l1@[x]);
                    assert(l1@[x] == l0@[x]);
                } else {
                    assert(l2[x] == l1@[x - 1]);
                    assert(l1@[x - 1] == l0@[x]);
                }
            }
        }
        let mut j = lo;
        while j <= hi
            invariant
                lo <= j <= hi + 1,
                hi < n,
                n == self.events@.len(),
                l2 == self.events_spec(),
                l2.len() == n,
                apply_updates(l0@, updates_view(ops@)) == updated_prefix(
                    l0@,
                    l2,
                    lo as int,
                    j as int,
                ),
                updates_view(ops@) == update_ops_range(l2, lo as int, j as int),
                l2.len() == l0@.len(),
            decreases hi + 1 - j,
        {
            proof {
                assert(l2[j as int] == self.events@[j as int]@);
            }
            let e = self.events[j].clone();
            let ghost pre_vec = ops@;
            let ghost before = updates_view(ops@);
            ops.push(ChannelUpdate::Update(e, j));
            proof {
                assert(updates_view(ops@) == before.push(UpdateView::Update(l2[j as int], j as int))) by {
                    lemma_updates_view_push(pre_vec, ops@.last());
                }
                lemma_apply_updates_push(l0@, before, UpdateView::Update(l2[j as int], j as int));
                assert(updated_prefix(l0@, l2, lo as int, j as int).update(j as int, l2[j as int])
                    =~= updated_prefix(l0@, l2, lo as int, j + 1));
                assert(update_ops_range(l2, lo as int, j as int).push(
                    UpdateView::Update(l2[j as int], j as int),
                ) =~= update_ops_range(l2, lo as int, j + 1));
            }
            j = j + 1;
        }
        proof {
            assert(updated_prefix(l0@, l2, lo as int, hi + 1) =~= l2);
        }
    }
}

/// Whether an external list agrees with the channel list wherever it is
/// reported in sync.
pub open spec fn matches_where_in_sync(
    ext: Seq<EventView>,
    events: Seq<EventView>,
    in_sync: Seq<bool>,
) -> bool {
    forall|i: int| 0 <= i < in_sync.len() && in_sync[i] ==> ext[i] == events[i]
}

/// An external list with its first `k` slots (up to the channel list's
/// length) overwritten by the channel list.
pub open spec fn patched_up_to(ext: Seq<EventView>, events: Seq<EventView>, k: int) -> Seq<
    EventView,
> {
    Seq::new(
        ext.len(),
        |x: int|
            if x < k && x < events.len() {
                events[x]
            } else {
                ext[x]
            },
    )
}

/// The update operations reconciliation emits for the overlapping slots
/// from position `i` on: one update per out-of-sync position, in order.
pub open spec fn out_of_sync_ops(
    events: Seq<EventView>,
    in_sync: Seq<bool>,
    i: int,
) -> Seq<UpdateView>
    decreases in_sync.len() - i,
{
    if i < 0 || i >= in_sync.len() {
        Seq::<UpdateView>::empty()
    } else {
        let rest = out_of_sync_ops(events, in_sync, i + 1);
        if !in_sync[i] {
            seq![UpdateView::Update(events[i], i)] + rest
        } else {
            rest
        }
    }
}

/// The exact operations reconciliation emits: an update for every
/// out-of-sync overlapping slot, then deletions of the surplus slots from
/// the tail down, or appends of the channel's missing tail.
pub open spec fn reconcile_ops(
    events: Seq<EventView>,
    in_sync: Seq<bool>,
    current_len: int,
) -> Seq<UpdateView> {
    let head = out_of_sync_ops(events, in_sync, 0);
    if current_len > events.len() {
        head + Seq::new(
            (current_len - events.len()) as nat,
            |t: int| UpdateView::Delete(current_len - 1 - t),
        )
    } else {
        head + Seq::new(
            (events.len() - current_len) as nat,
            |t: int| UpdateView::New(events[current_len + t]),
        )
    }
}

impl ChannelEvents {
    /// The operations that bring an external ordered list back in line with
    /// this channel after a restart or a failure. The external list holds
    /// `current_len` representations; `in_sync[i]` reports whether the one
    /// at position `i` already shows the channel's event at `i`. Out-of-sync
    /// slots are updated, surplus slots are deleted from the tail down, and
    /// missing slots are appended; replaying the operations against any such
    /// external list yields the channel's list exactly.
    pub fn reconcile(&self, in_sync: &Vec<bool>, current_len: usize) -> (r: Vec<ChannelUpdate>)
        requires
            in_sync@.len() == if current_len <= self.events_spec().len() {
                current_len as int
            } else {
                self.events_spec().len() as int
            },
        ensures
            forall|ext: Seq<EventView>|
                ext.len() == current_len && matches_where_in_sync(
                    ext,
                    self.events_spec(),
                    in_sync@,
                ) ==> #[trigger] apply_updates(ext, updates_view(r@)) == self.events_spec(),
            updates_view(r@) == reconcile_ops(self.events_spec(), in_sync@, current_len as int),
    {
        let ghost evs = self.events_spec();
        let n = self.events.len();
        proof {
            assert(evs.len() == n);
        }
        let m = in_sync.len();
        let mut ops: Vec<ChannelUpdate> = Vec::new();
        proof {
            assert(updates_view(ops@) =~= Seq::<UpdateView>::empty());
            assert(out_of_sync_ops(evs, in_sync@, 0) =~= updates_view(ops@) + out_of_sync_ops(
                evs,
                in_sync@,
                0,
            ));
            assert forall|ext: Seq<EventView>|
                ext.len() == current_len && matches_where_in_sync(
                    ext,
                    evs,
                    in_sync@,
                ) implies #[trigger] apply_updates(ext, updates_view(ops@)) == patched_up_to(
                ext,
                evs,
                0,
            ) by {
                assert(patched_up_to(ext, evs, 0) =~= ext);
            }
        }
        let mut i: usize = 0;
        while i < m
            invariant
                evs == self.events_spec(),
                evs.len() == n,
                m == in_sync@.len(),
                m <= current_len,
                m <= n,
                i <= m,
                forall|ext: Seq<EventView>|
                    ext.len() == current_len && matches_where_in_sync(ext, evs, in_sync@)
                        ==> #[trigger] apply_updates(ext, updates_view(ops@)) == patched_up_to(
                        ext,
                        evs,
                        i as int,
                    ),
                out_of_sync_ops(evs, in_sync@, 0) == updates_view(ops@) + out_of_sync_ops(
                    evs,
                    in_sync@,
                    i as int,
                ),
            decreases m - i,
        {
            let ghost pre_vec = ops@;
            let ghost pre_ops = updates_view(ops@);
            if !in_sync[i] {
                proof {
                    assert(evs[i as int] == self.events@[i as int]@);
                }
                let e = self.events[i].clone();
                let ghost u = UpdateView::Update(e@, i as int);
                ops.push(ChannelUpdate::Update(e, i));
                proof {
                    assert(updates_view(ops@) == pre_ops.push(u)) by {
                        lemma_updates_view_push(pre_vec, ops@.last());
                    }
                    assert(out_of_sync_ops(evs, in_sync@, i as int) == seq![u]
                        + out_of_sync_ops(evs, in_sync@, i + 1));
                    assert(pre_ops.push(u) + out_of_sync_ops(evs, in_sync@, i + 1) =~= pre_ops + (
                    seq![u] + out_of_sync_ops(evs, in_sync@, i + 1)));
                }
            } else {
                proof {
                    assert(out_of_sync_ops(evs, in_sync@, i as int) == out_of_sync_ops(
                        evs,
                        in_sync@,
                        i + 1,
                    ));
                }
            }
            proof {
                assert forall|ext: Seq<EventView>|
                    ext.len() == current_len && matches_where_in_sync(
                        ext,
                        evs,
                        in_sync@,
                    ) implies #[trigger] apply_updates(ext, updates_view(ops@)) == patched_up_to(
                    ext,
                    evs,
                    i + 1,
                ) by {
                    assert(apply_updates(ext, pre_ops) == patched_up_to(ext, evs, i as int));
                    if !in_sync@[i as int] {
                        lemma_apply_updates_push(
                            ext,
                            pre_ops,
                            UpdateView::Update(evs[i as int], i as int),
                        );
                        assert(patched_up_to(ext, evs, i as int).update(i as int, evs[i as int])
                            =~= patched_up_to(ext, evs, i + 1));
                    } else {
                        assert(ext[i as int] == evs[i as int]);
                        assert(patched_up_to(ext, evs, i as int) =~= patched_up_to(
                            ext,
                            evs,
                            i + 1,
                        ));
                    }
                }
            }
            i = i + 1;
        }
        proof {
            assert(out_of_sync_ops(evs, in_sync@, m as int) == Seq::<UpdateView>::empty());
            assert(updates_view(ops@) + Seq::<UpdateView>::empty() =~= updates_view(ops@));
            assert(updates_view(ops@) == out_of_sync_ops(evs, in_sync@, 0));
        }
        if current_len > n {
            // Surplus representations: delete from the tail down, so every
            // position stays in range as the list shrinks.
            let mut j = current_len;
            proof {
                assert(updates_view(ops@) =~= out_of_sync_ops(evs, in_sync@, 0) + Seq::new(
                    (current_len - j) as nat,
                    |t: int| UpdateView::Delete(current_len as int - 1 - t),
                ));
            }
            while j > n
                invariant
                    evs == self.events_spec(),
                    evs.len() == n,
                    m == n,
                    n <= j <= current_len,
                    current_len > n,
                    forall|ext: Seq<EventView>|
                        ext.len() == current_len && matches_where_in_sync(ext, evs, in_sync@)
                            ==> #[trigger] apply_updates(ext, updates_view(ops@))
                            == patched_up_to(ext, evs, n as int).take(j as int),
                    updates_view(ops@) == out_of_sync_ops(evs, in_sync@, 0) + Seq::new(
                        (current_len - j) as nat,
                        |t: int| UpdateView::Delete(current_len as int - 1 - t),
                    ),
                decreases j,
            {
                let ghost pre_vec = ops@;
            let ghost pre_ops = updates_view(ops@);
                ops.push(ChannelUpdate::Delete(j - 1));
                proof {
                    let u = UpdateView::Delete(j - 1);
                    assert(updates_view(ops@) == pre_ops.push(u)) by {
                        lemma_updates_view_push(pre_vec, ops@.last());
                    }
                    assert(pre_ops.push(u) =~= out_of_sync_ops(evs, in_sync@, 0) + Seq::new(
                        (current_len - (j - 1)) as nat,
                        |t: int| UpdateView::Delete(current_len as int - 1 - t),
                    ));
                    assert forall|ext: Seq<EventView>|
                        ext.len() == current_len && matches_where_in_sync(
                            ext,
                            evs,
                            in_sync@,
                        ) implies #[trigger] apply_updates(ext, updates_view(ops@))
                        == patched_up_to(ext, evs, n as int).take(j - 1) by {
                        assert(apply_updates(ext, pre_ops) == patched_up_to(
                            ext,
                            evs,
                            n as int,
                        ).take(j as int));
                        lemma_apply_updates_push(ext, pre_ops, u);
                        assert(patched_up_to(ext, evs, n as int).take(j as int).remove(j - 1)
                            =~= patched_up_to(ext, evs, n as int).take(j - 1));
                    }
                }
                j = j - 1;
            }
            proof {
                assert forall|ext: Seq<EventView>|
                    ext.len() == current_len && matches_where_in_sync(
                        ext,
                        evs,
                        in_sync@,
                    ) implies #[trigger] apply_updates(ext, updates_view(ops@)) == evs by {
                    assert(apply_updates(ext, updates_view(ops@)) == patched_up_to(
                        ext,
                        evs,
                        n as int,
                    ).take(n as int));
                    assert(patched_up_to(ext, evs, n as int).take(n as int) =~= evs);
                }
            }
        } else {
            // Missing representations: append the channel's tail.
            let mut j = current_len;
            proof {
                assert(updates_view(ops@) =~= out_of_sync_ops(evs, in_sync@, 0) + Seq::new(
                    (j - current_len) as nat,
                    |t: int| UpdateView::New(evs[current_len + t]),
                ));
                assert forall|ext: Seq<EventView>|
                    ext.len() == current_len && matches_where_in_sync(
                        ext,
                        evs,
                        in_sync@,
                    ) implies #[trigger] apply_updates(ext, updates_view(ops@)) == evs.take(
                    j as int,
                ) by {
                    assert(apply_updates(ext, updates_view(ops@)) == patched_up_to(
                        ext,
                        evs,
                        m as int,
                    ));
                    assert(patched_up_to(ext, evs, m as int) =~= evs.take(j as int));
                }
            }
            while j < n
                invariant
                    evs == self.events_spec(),
                    evs.len() == n,
                    current_len <= j <= n,
                    forall|ext: Seq<EventView>|
                        ext.len() == current_len && matches_where_in_sync(ext, evs, in_sync@)
                            ==> #[trigger] apply_updates(ext, updates_view(ops@)) == evs.take(
                            j as int,
                        ),
                    updates_view(ops@) == out_of_sync_ops(evs, in_sync@, 0) + Seq::new(
                        (j - current_len) as nat,
                        |t: int| UpdateView::New(evs[current_len as int + t]),
                    ),
                decreases n - j,
            {
                let ghost pre_vec = ops@;
            let ghost pre_ops = updates_view(ops@);
                proof {
                    assert(evs[j as int] == self.events@[j as int]@);
                }
                let e = self.events[j].clone();
                let ghost u = UpdateView::New(e@);
                ops.push(ChannelUpdate::New(e));
                proof {
                    assert(updates_view(ops@) == pre_ops.push(u)) by {
                        lemma_updates_view_push(pre_vec, ops@.last());
                    }
                    assert(pre_ops.push(u) =~= out_of_sync_ops(evs, in_sync@, 0) + Seq::new(
                        (j + 1 - current_len) as nat,
                        |t: int| UpdateView::New(evs[current_len as int + t]),
                    ));
                    assert forall|ext: Seq<EventView>|
                        ext.len() == current_len && matches_where_in_sync(
                            ext,
                            evs,
                            in_sync@,
                        ) implies #[trigger] apply_updates(ext, updates_view(ops@)) == evs.take(
                        j + 1,
                    ) by {
                        assert(apply_updates(ext, pre_ops) == evs.take(j as int));
                        lemma_apply_updates_push(ext, pre_ops, u);
                        assert(evs.take(j as int).push(evs[j as int]) =~= evs.take(j + 1));
                    }
                }
                j = j + 1;
            }
            proof {
                assert(evs.take(n as int) =~= evs);
            }
        }
        ops
    }
}

} // verus!
