//! Time-driven actions: alerts before events and cleanup after them.
//!
//! For every event two actions are derived: an `Alert` that fires an alert
//! lead before the scheduled time and a `Cleanup` that fires a grace period
//! after it. The scheduler keeps the pending actions as a set ordered by
//! firing time, rederives them when events change, and hands out due actions
//! in firing order. Actions already in the past at derivation time are
//! discarded, and each pending action remembers the event time it was derived
//! from, so that a later lookup can tell a stale action from a fresh one.

use vstd::prelude::*;

use crate::event::ChangeView;
use crate::event::Event;
use crate::event::EventChange;
use crate::event::EventId;
use crate::event::EventView;
use crate::event::event_wf;

verus! {

/// What a scheduled action does when it fires.
#[derive(Clone, Copy, Debug, PartialEq, Eq, Structural)]
pub enum EventAction {
    /// Alert event participants that the event is about to start.
    Alert,
    /// Clean up a past event, deleting it and (if needed) creating the next
    /// event for recurring events.
    Cleanup,
}

/// Order of the action kinds, for the total order on actions.
pub open spec fn action_kind_ord(a: EventAction) -> int {
    match a {
        EventAction::Alert => 0,
        EventAction::Cleanup => 1,
    }
}

/// A pending timed action: when it fires, for which event, what it does,
/// and the event time it was derived from (the staleness guard).
#[derive(Clone, Copy, Debug, PartialEq, Eq, Structural)]
pub struct ScheduledAction {
    /// When the action fires, in seconds since the Unix epoch.
    pub action_datetime: i64,
    /// The event the action is for.
    pub id: EventId,
    /// What the action does.
    pub action: EventAction,
    /// The event's scheduled time when the action was derived. If the event's
    /// current time differs when the action is due, the action is stale.
    pub event_datetime: i64,
}

impl ScheduledAction {
    /// Whether the action's firing time has been reached at `now`.
    pub fn expired(&self, now: i64) -> (r: bool)
        ensures
            r == (self.action_datetime <= now),
    {
        self.action_datetime <= now
    }
}

/// Strict total order on actions: by firing time, then event identifier,
/// then action kind, then the derived event time.
pub open spec fn action_lt(a: ScheduledAction, b: ScheduledAction) -> bool {
    ||| a.action_datetime < b.action_datetime
    ||| (a.action_datetime == b.action_datetime && a.id.key_spec() < b.id.key_spec())
    ||| (a.action_datetime == b.action_datetime && a.id.key_spec() == b.id.key_spec()
        && action_kind_ord(a.action) < action_kind_ord(b.action))
    ||| (a.action_datetime == b.action_datetime && a.id.key_spec() == b.id.key_spec()
        && action_kind_ord(a.action) == action_kind_ord(b.action) && a.event_datetime
        < b.event_datetime)
}

/// Any two distinct actions are ordered one way or the other.
pub proof fn lemma_action_order_total(a: ScheduledAction, b: ScheduledAction)
    ensures
        a == b || action_lt(a, b) || action_lt(b, a),
{
    if !action_lt(a, b) && !action_lt(b, a) {
        crate::event::lemma_event_id_key_injective(a.id, b.id);
        assert(a.action == b.action);
    }
}

/// Runtime form of the strict order on actions.
fn action_lt_exec(a: &ScheduledAction, b: &ScheduledAction) -> (r: bool)
    ensures
        r == action_lt(*a, *b),
{
    if a.action_datetime != b.action_datetime {
        return a.action_datetime < b.action_datetime;
    }
    let ka = a.id.key();
    let kb = b.id.key();
    if ka != kb {
        return ka < kb;
    }
    let oa: u8 = match a.action {
        EventAction::Alert => 0,
        EventAction::Cleanup => 1,
    };
    let ob: u8 = match b.action {
        EventAction::Alert => 0,
        EventAction::Cleanup => 1,
    };
    if oa != ob {
        return oa < ob;
    }
    a.event_datetime < b.event_datetime
}

/// Strictly ascending, hence duplicate-free, action list.
pub open spec fn sorted_actions(s: Seq<ScheduledAction>) -> bool {
    forall|i: int, j: int| 0 <= i < j < s.len() ==> action_lt(#[trigger] s[i], #[trigger] s[j])
}

/// Configuration of the timed actions derived from each event.
#[derive(Clone, Copy, Debug, PartialEq, Eq, Structural)]
pub struct EventSchedulerConfig {
    /// Seconds before an event's scheduled time to trigger the alert.
    pub alert: u32,
    /// Seconds after an event's scheduled time to clean up the event.
    pub cleanup: u32,
}

/// The alert action derived from an event: it fires an alert lead before
/// the scheduled time.
pub open spec fn alert_action(config: EventSchedulerConfig, v: EventView) -> ScheduledAction {
    ScheduledAction {
        action_datetime: (v.datetime - config.alert) as i64,
        id: v.id,
        action: EventAction::Alert,
        event_datetime: v.datetime as i64,
    }
}

/// The cleanup action derived from an event: it fires a grace period after
/// the scheduled time.
pub open spec fn cleanup_action(config: EventSchedulerConfig, v: EventView) -> ScheduledAction {
    ScheduledAction {
        action_datetime: (v.datetime + config.cleanup) as i64,
        id: v.id,
        action: EventAction::Cleanup,
        event_datetime: v.datetime as i64,
    }
}

/// The actions derived from one event at time `now`: the alert and cleanup
/// actions, except those whose firing time is already past.
pub open spec fn derived_actions(config: EventSchedulerConfig, v: EventView, now: int) -> Set<
    ScheduledAction,
> {
    let base = Set::<ScheduledAction>::empty();
    let with_alert = if alert_action(config, v).action_datetime > now {
        base.insert(alert_action(config, v))
    } else {
        base
    };
    if cleanup_action(config, v).action_datetime > now {
        with_alert.insert(cleanup_action(config, v))
    } else {
        with_alert
    }
}

/// Both derived actions depend only on the event's identifier and scheduled
/// time: editing any other field of an event never changes firing times.
pub proof fn lemma_derived_actions_time_only(
    config: EventSchedulerConfig,
    v1: EventView,
    v2: EventView,
    now: int,
)
    requires
        v1.id == v2.id,
        v1.datetime == v2.datetime,
    ensures
        derived_actions(config, v1, now) == derived_actions(config, v2, now),
{
}

/// The firing times of an event's actions: the alert fires exactly the
/// alert lead before the scheduled time, the cleanup exactly the grace
/// period after it, and no other action is ever derived for the event —
/// so at most one alert and one cleanup are pending per event, and neither
/// fires before its time.
pub proof fn lemma_derived_action_times(config: EventSchedulerConfig, v: EventView, now: int)
    requires
        event_wf(v),
    ensures
        alert_action(config, v).action_datetime == v.datetime - config.alert,
        cleanup_action(config, v).action_datetime == v.datetime + config.cleanup,
        forall|a: ScheduledAction| #[trigger]
            derived_actions(config, v, now).contains(a) ==> a.id == v.id && a.action_datetime
                > now && a.event_datetime == v.datetime && (a.action == EventAction::Alert ==> a
                == alert_action(config, v)) && (a.action == EventAction::Cleanup ==> a
                == cleanup_action(config, v)),
{
}

impl EventSchedulerConfig {
    /// The two actions derived from `event`: its alert and its cleanup.
    pub fn actions_for_event(&self, event: &Event) -> (r: (ScheduledAction, ScheduledAction))
        requires
            event.wf(),
        ensures
            r.0 == alert_action(*self, event@),
            r.1 == cleanup_action(*self, event@),
    {
        let dt = event.datetime();
        let alert = ScheduledAction {
            action_datetime: dt - (self.alert as i64),
            id: event.id(),
            action: EventAction::Alert,
            event_datetime: dt,
        };
        let cleanup = ScheduledAction {
            action_datetime: dt + (self.cleanup as i64),
            id: event.id(),
            action: EventAction::Cleanup,
            event_datetime: dt,
        };
        (alert, cleanup)
    }
}

/// Membership in a filtered sequence.
proof fn lemma_filter_membership<A>(s: Seq<A>, pred: spec_fn(A) -> bool, x: A)
    ensures
        s.filter(pred).contains(x) <==> s.contains(x) && pred(x),
    decreases s.len(),
{
    reveal(Seq::filter);
    if s.len() == 0 {
    } else {
        lemma_filter_membership(s.drop_last(), pred, x);
        if s.contains(x) && pred(x) {
            if x == s.last() {
                assert(s.filter(pred).last() == x);
                assert(s.filter(pred).contains(x));
            } else {
                let w = choose|w: int| 0 <= w < s.len() && s[w] == x;
                assert(s.drop_last()[w] == x);
                assert(s.drop_last().contains(x));
                assert(s.drop_last().filter(pred).contains(x));
                let w2 = choose|w2: int|
                    0 <= w2 < s.drop_last().filter(pred).len() && s.drop_last().filter(pred)[w2]
                        == x;
                assert(s.filter(pred)[w2] == x);
            }
        }
        if s.filter(pred).contains(x) {
            let w = choose|w: int| 0 <= w < s.filter(pred).len() && s.filter(pred)[w] == x;
            if pred(s.last()) && w == s.filter(pred).len() - 1 {
                assert(x == s.last());
                assert(s[s.len() - 1] == x);
                assert(s.contains(x));
            } else {
                assert(s.drop_last().filter(pred)[w] == x);
                assert(s.drop_last().filter(pred).contains(x));
                assert(s.drop_last().contains(x));
                let w3 = choose|w3: int| 0 <= w3 < s.drop_last().len() && s.drop_last()[w3] == x;
                assert(s[w3] == x);
                assert(s.contains(x));
            }
        }
    }
}

/// Filtering a strictly sorted list keeps it strictly sorted.
proof fn lemma_filter_sorted(s: Seq<ScheduledAction>, pred: spec_fn(ScheduledAction) -> bool)
    requires
        sorted_actions(s),
    ensures
        sorted_actions(s.filter(pred)),
    decreases s.len(),
{
    reveal(Seq::filter);
    if s.len() == 0 {
    } else {
        assert(sorted_actions(s.drop_last())) by {
            assert(forall|i: int, j: int|
                0 <= i < j < s.drop_last().len() ==> action_lt(
                    #[trigger] s.drop_last()[i],
                    #[trigger] s.drop_last()[j],
                ));
        }
        lemma_filter_sorted(s.drop_last(), pred);
        let f = s.filter(pred);
        let fd = s.drop_last().filter(pred);
        if pred(s.last()) {
            assert(f == fd.push(s.last()));
            assert forall|i: int, j: int| 0 <= i < j < f.len() implies action_lt(
                #[trigger] f[i],
                #[trigger] f[j],
            ) by {
                if j < fd.len() {
                    assert(f[i] == fd[i] && f[j] == fd[j]);
                } else {
                    assert(f[j] == s.last());
                    assert(f[i] == fd[i]);
                    assert(fd.contains(fd[i]));
                    lemma_filter_membership(s.drop_last(), pred, fd[i]);
                    let w = choose|w: int|
                        0 <= w < s.drop_last().len() && s.drop_last()[w] == fd[i];
                    assert(s[w] == fd[i]);
                    assert(action_lt(s[w], s[s.len() - 1]));
                }
            }
        }
    }
}

/// The pending actions of an [`EventScheduler`].
pub open spec fn actions_set(s: Seq<ScheduledAction>) -> Set<ScheduledAction> {
    s.to_set()
}

/// Inserts `a` at position `i` of a sorted action list.
fn insert_at(v: &mut Vec<ScheduledAction>, i: usize, a: ScheduledAction)
    requires
        sorted_actions(old(v)@),
        i <= old(v)@.len(),
        forall|j: int| 0 <= j < i ==> action_lt(#[trigger] old(v)@[j], a),
        i < old(v)@.len() ==> action_lt(a, old(v)@[i as int]),
    ensures
        sorted_actions(final(v)@),
        final(v)@.to_set() == old(v)@.to_set().insert(a),
{
    let ghost pre = v@;
    v.insert(i, a);
    proof {
        assert forall|x: int, y: int| 0 <= x < y < v@.len() implies action_lt(
            #[trigger] v@[x],
            #[trigger] v@[y],
        ) by {
            let xi = if x < i as int {
                x
            } else {
                x - 1
            };
            let yi = if y < i as int {
                y
            } else {
                y - 1
            };
            if x == i as int {
                assert(v@[x] == a);
                assert(v@[y] == pre[yi]);
                assert(action_lt(a, pre[i as int]));
                if yi > i as int {
                    assert(action_lt(pre[i as int], pre[yi]));
                }
            } else if y == i as int {
                assert(v@[y] == a);
                assert(v@[x] == pre[xi]);
                assert(action_lt(pre[xi], a));
            } else {
                assert(v@[x] == pre[xi]);
                assert(v@[y] == pre[yi]);
            }
        }
        assert forall|x: ScheduledAction| #[trigger]
            v@.to_set().contains(x) == pre.to_set().insert(a).contains(x) by {
            if v@.contains(x) {
                let w = choose|w: int| 0 <= w < v@.len() && v@[w] == x;
                if w == i as int {
                } else if w < i as int {
                    assert(pre[w] == x);
                } else {
                    assert(pre[w - 1] == x);
                }
            }
            if x == a {
                assert(v@[i as int] == x);
            } else if pre.contains(x) {
                let w = choose|w: int| 0 <= w < pre.len() && pre[w] == x;
                if w < i as int {
                    assert(v@[w] == x);
                } else {
                    assert(v@[w + 1] == x);
                }
            }
        }
        assert(v@.to_set() =~= pre.to_set().insert(a));
    }
}

/// Inserts an action into a sorted action list, keeping it sorted and
/// duplicate-free.
fn insert_action(v: &mut Vec<ScheduledAction>, a: ScheduledAction)
    requires
        sorted_actions(old(v)@),
    ensures
        sorted_actions(final(v)@),
        final(v)@.to_set() == old(v)@.to_set().insert(a),
{
    let mut i: usize = 0;
    while i < v.len()
        invariant
            *v == *old(v),
            sorted_actions(v@),
            i <= v@.len(),
            forall|j: int| 0 <= j < i ==> action_lt(#[trigger] v@[j], a),
        decreases v@.len() - i,
    {
        let here = v[i];
        if !action_lt_exec(&here, &a) {
            if here == a {
                proof {
                    assert(v@.contains(a));
                    assert(v@.to_set() =~= old(v)@.to_set().insert(a));
                }
                return ;
            }
            proof {
                lemma_action_order_total(here, a);
                assert(action_lt(a, v@[i as int]));
            }
            insert_at(v, i, a);
            return ;
        }
        i = i + 1;
    }
    insert_at(v, i, a);
}

/// Removes every action for the given event from a sorted action list.
fn remove_actions_for(v: &mut Vec<ScheduledAction>, id: EventId)
    requires
        sorted_actions(old(v)@),
    ensures
        sorted_actions(final(v)@),
        final(v)@.to_set() == old(v)@.to_set().filter(|a: ScheduledAction| a.id != id),
{
    let ghost orig = v@;
    let mut out: Vec<ScheduledAction> = Vec::new();
    let mut i: usize = 0;
    while i < v.len()
        invariant
            v@ == orig,
            sorted_actions(orig),
            i <= orig.len(),
            out@ == orig.take(i as int).filter(|a: ScheduledAction| a.id != id),
        decreases orig.len() - i,
    {
        proof {
            reveal(Seq::filter);
            assert(orig.take(i + 1).drop_last() =~= orig.take(i as int));
            assert(orig.take(i + 1).last() == orig[i as int]);
        }
        let x = v[i];
        if !(x.id == id) {
            out.push(x);
        }
        i = i + 1;
    }
    proof {
        assert(orig.take(orig.len() as int) =~= orig);
        lemma_filter_sorted(orig, |a: ScheduledAction| a.id != id);
        assert forall|x: ScheduledAction| #[trigger]
            out@.to_set().contains(x) == orig.to_set().filter(
                |a: ScheduledAction| a.id != id,
            ).contains(x) by {
            lemma_filter_membership(orig, |a: ScheduledAction| a.id != id, x);
        }
        assert(out@.to_set() =~= orig.to_set().filter(|a: ScheduledAction| a.id != id));
    }
    *v = out;
}

/// Tracks the pending timed actions derived from all events and hands them
/// out once due, in firing order.
pub struct EventScheduler {
    actions: Vec<ScheduledAction>,
    config: EventSchedulerConfig,
}

impl EventScheduler {
    /// The pending actions.
    pub closed spec fn pending(self) -> Set<ScheduledAction> {
        self.actions@.to_set()
    }

    /// The configured alert lead and cleanup grace.
    pub closed spec fn config_spec(self) -> EventSchedulerConfig {
        self.config
    }

    /// The pending actions are kept strictly ordered.
    pub closed spec fn wf(self) -> bool {
        sorted_actions(self.actions@)
    }

    /// The configured alert lead and cleanup grace.
    pub fn config(&self) -> (r: EventSchedulerConfig)
        ensures
            r == self.config_spec(),
    {
        self.config
    }

    /// A scheduler with no pending actions.
    pub fn new_empty(config: EventSchedulerConfig) -> (r: EventScheduler)
        ensures
            r.wf(),
            r.pending() == Set::<ScheduledAction>::empty(),
            r.config_spec() == config,
    {
        let r = EventScheduler { actions: Vec::new(), config };
        proof {
            assert(r.actions@.to_set() =~= Set::<ScheduledAction>::empty());
        }
        r
    }

    /// Derives and enqueues the two actions for one event, discarding those
    /// already past at `now`.
    fn schedule_event(&mut self, event: &Event, now: i64)
        requires
            old(self).wf(),
            event.wf(),
        ensures
            final(self).wf(),
            final(self).config_spec() == old(self).config_spec(),
            final(self).pending() == old(self).pending().union(
                derived_actions(old(self).config_spec(), event@, now as int),
            ),
    {
        let (alert, cleanup) = self.config.actions_for_event(event);
        let ghost mid = self.pending();
        let ghost cfg = self.config;
        if !alert.expired(now) {
            insert_action(&mut self.actions, alert);
        }
        let ghost mid2 = self.pending();
        if !cleanup.expired(now) {
            insert_action(&mut self.actions, cleanup);
        }
        proof {
            assert(self.pending() =~= mid.union(derived_actions(cfg, event@, now as int)));
        }
    }

    /// Builds a scheduler over the initial events, deriving each event's
    /// actions at `now`.
    pub fn new(initial_events: &Vec<Event>, config: EventSchedulerConfig, now: i64) -> (r:
        EventScheduler)
        requires
            forall|i: int|
                0 <= i < initial_events@.len() ==> (#[trigger] initial_events@[i]).wf(),
        ensures
            r.wf(),
            r.config_spec() == config,
            r.pending() == all_derived_actions(
                config,
                crate::store::events_view(initial_events@),
                now as int,
            ),
    {
        let ghost evs = crate::store::events_view(initial_events@);
        let mut r = EventScheduler::new_empty(config);
        let mut i: usize = 0;
        while i < initial_events.len()
            invariant
                evs == crate::store::events_view(initial_events@),
                forall|k: int|
                    0 <= k < initial_events@.len() ==> (#[trigger] initial_events@[k]).wf(),
                i <= initial_events@.len(),
                r.wf(),
                r.config_spec() == config,
                r.pending() == all_derived_actions(config, evs.take(i as int), now as int),
            decreases initial_events@.len() - i,
        {
            proof {
                assert(evs[i as int] == initial_events@[i as int]@);
            }
            r.schedule_event(&initial_events[i], now);
            proof {
                assert(evs.take(i + 1).drop_last() =~= evs.take(i as int));
                assert(evs.take(i + 1).last() == evs[i as int]);
            }
            i = i + 1;
        }
        proof {
            assert(evs.take(evs.len() as int) =~= evs);
        }
        r
    }

    /// Applies an event change: for an edit or a deletion every pending
    /// action of that event is dropped, and for an addition or an edit the
    /// event's two actions are rederived at `now`. An alert change leaves
    /// the schedule alone, since it does not move the event's time.
    pub fn event_changed(&mut self, change: &EventChange, now: i64)
        requires
            old(self).wf(),
            event_wf(change@.event()),
        ensures
            final(self).wf(),
            final(self).config_spec() == old(self).config_spec(),
            final(self).pending() == changed_pending(
                old(self).pending(),
                old(self).config_spec(),
                change@,
                now as int,
            ),
    {
        match change {
            EventChange::Edited(event) | EventChange::Deleted(event) => {
                remove_actions_for(&mut self.actions, event.id());
            },
            EventChange::Added(_) => {},
            EventChange::Alert(_) => {},
        }
        match change {
            EventChange::Added(event) | EventChange::Edited(event) => {
                self.schedule_event(event, now);
            },
            EventChange::Deleted(_) => {},
            EventChange::Alert(_) => {},
        }
    }

    /// The earliest pending action, if it is due at `now`: it is removed
    /// from the pending set and returned. Nothing is returned while no
    /// pending action is due.
    pub fn pop_due(&mut self, now: i64) -> (r: Option<ScheduledAction>)
        requires
            old(self).wf(),
        ensures
            final(self).wf(),
            final(self).config_spec() == old(self).config_spec(),
            match r {
                Some(a) => {
                    &&& old(self).pending().contains(a)
                    &&& a.action_datetime <= now
                    &&& final(self).pending() == old(self).pending().remove(a)
                    &&& final(self).pending().len() < old(self).pending().len()
                    &&& forall|b: ScheduledAction|
                        old(self).pending().contains(b) && b != a ==> action_lt(a, b)
                },
                None => {
                    &&& final(self).pending() == old(self).pending()
                    &&& forall|b: ScheduledAction|
                        old(self).pending().contains(b) ==> b.action_datetime > now
                },
            },
    {
        if self.actions.len() == 0 {
            proof {
                assert(forall|b: ScheduledAction| !old(self).pending().contains(b));
            }
            return None;
        }
        let first = self.actions[0];
        if first.action_datetime > now {
            proof {
                assert forall|b: ScheduledAction|
                    old(self).pending().contains(b) implies b.action_datetime > now by {
                    let w = choose|w: int| 0 <= w < self.actions@.len() && self.actions@[w] == b;
                    if w > 0 {
                        assert(action_lt(self.actions@[0], self.actions@[w]));
                    }
                }
            }
            return None;
        }
        let ghost pre = self.actions@;
        let a = self.actions.remove(0);
        proof {
            broadcast use vstd::seq_lib::seq_to_set_is_finite;
            assert(a == pre[0]);
            assert(pre.to_set().finite());
            assert(pre.to_set().contains(a));
            assert(pre.to_set().remove(a).len() < pre.to_set().len());
            assert forall|b: ScheduledAction|
                old(self).pending().contains(b) && b != a implies action_lt(a, b) by {
                let w = choose|w: int| 0 <= w < pre.len() && pre[w] == b;
                if w > 0 {
                    assert(action_lt(pre[0], pre[w]));
                }
            }
            assert forall|x: ScheduledAction| #[trigger]
                self.actions@.to_set().contains(x) == old(self).pending().remove(a).contains(
                    x,
                ) by {
                if self.actions@.contains(x) {
                    let w = choose|w: int|
                        0 <= w < self.actions@.len() && self.actions@[w] == x;
                    assert(pre[w + 1] == x);
                    assert(action_lt(pre[0], pre[w + 1]));
                    assert(x != a);
                }
                if pre.contains(x) && x != a {
                    let w = choose|w: int| 0 <= w < pre.len() && pre[w] == x;
                    if w == 0 {
                        assert(x == a);
                    } else {
                        assert(self.actions@[w - 1] == x);
                    }
                }
            }
            assert(self.actions@.to_set() =~= old(self).pending().remove(a));
        }
        Some(a)
    }

    /// When the next pending action fires, if any is pending.
    pub fn next_deadline(&self) -> (r: Option<i64>)
        requires
            self.wf(),
        ensures
            match r {
                Some(t) => {
                    &&& exists|a: ScheduledAction|
                        self.pending().contains(a) && a.action_datetime == t
                    &&& forall|b: ScheduledAction|
                        self.pending().contains(b) ==> t <= b.action_datetime
                },
                None => self.pending() == Set::<ScheduledAction>::empty(),
            },
    {
        if self.actions.len() == 0 {
            proof {
                assert(self.actions@.to_set() =~= Set::<ScheduledAction>::empty());
            }
            return None;
        }
        let first = self.actions[0];
        proof {
            assert(self.actions@.contains(self.actions@[0]));
            assert(self.pending().contains(first) && first.action_datetime
                == first.action_datetime);
            assert forall|b: ScheduledAction|
                self.pending().contains(b) implies first.action_datetime <= b.action_datetime by {
                let w = choose|w: int| 0 <= w < self.actions@.len() && self.actions@[w] == b;
                if w > 0 {
                    assert(action_lt(self.actions@[0], self.actions@[w]));
                }
            }
        }
        Some(first.action_datetime)
    }
}

/// The union of every event's derived actions.
pub open spec fn all_derived_actions(
    config: EventSchedulerConfig,
    events: Seq<EventView>,
    now: int,
) -> Set<ScheduledAction>
    decreases events.len(),
{
    if events.len() == 0 {
        Set::empty()
    } else {
        all_derived_actions(config, events.drop_last(), now).union(
            derived_actions(config, events.last(), now),
        )
    }
}

/// The pending set after an event change is applied: an edit or deletion
/// drops the event's actions, an addition or edit rederives them at `now`.
pub open spec fn changed_pending(
    p: Set<ScheduledAction>,
    config: EventSchedulerConfig,
    c: ChangeView,
    now: int,
) -> Set<ScheduledAction> {
    match c {
        ChangeView::Added(v) => p.union(derived_actions(config, v, now)),
        ChangeView::Edited(v) => p.filter(|a: ScheduledAction| a.id != v.id).union(
            derived_actions(config, v, now),
        ),
        ChangeView::Deleted(v) => p.filter(|a: ScheduledAction| a.id != v.id),
        ChangeView::Alert(_) => p,
    }
}

/// Every pending action belongs to an event that exists.
pub open spec fn pending_ids_exist(p: Set<ScheduledAction>, events: Seq<EventView>) -> bool {
    forall|a: ScheduledAction| #[trigger]
        p.contains(a) ==> crate::store::has_event(events, a.id)
}

/// At most one pending action per event and action kind.
pub open spec fn pending_unique(p: Set<ScheduledAction>) -> bool {
    forall|a1: ScheduledAction, a2: ScheduledAction|
        #[trigger] p.contains(a1) && #[trigger] p.contains(a2) && a1.id == a2.id && a1.action
            == a2.action ==> a1 == a2
}

/// The initial derivation satisfies both pending-set invariants: each action
/// belongs to one of the events, and no event contributes two actions of
/// one kind.
pub proof fn lemma_all_derived_invariants(
    config: EventSchedulerConfig,
    evs: Seq<EventView>,
    now: int,
)
    requires
        crate::store::valid_events(evs),
    ensures
        pending_ids_exist(all_derived_actions(config, evs, now), evs),
        pending_unique(all_derived_actions(config, evs, now)),
    decreases evs.len(),
{
    if evs.len() == 0 {
    } else {
        let rest = evs.drop_last();
        let last = evs.last();
        assert(crate::store::valid_events(rest)) by {
            assert(forall|i: int| 0 <= i < rest.len() ==> rest[i] == evs[i]);
        }
        lemma_all_derived_invariants(config, rest, now);
        lemma_derived_action_times(config, last, now);
        let p = all_derived_actions(config, evs, now);
        assert forall|a: ScheduledAction| #[trigger] p.contains(a) implies crate::store::has_event(
            evs,
            a.id,
        ) by {
            if all_derived_actions(config, rest, now).contains(a) {
                assert(crate::store::has_event(rest, a.id));
                let w = choose|w: int| 0 <= w < rest.len() && #[trigger] rest[w].id == a.id;
                assert(evs[w].id == a.id);
            } else {
                assert(derived_actions(config, last, now).contains(a));
                assert(evs[evs.len() - 1].id == a.id);
            }
        }
        assert forall|a1: ScheduledAction, a2: ScheduledAction|
            #[trigger] p.contains(a1) && #[trigger] p.contains(a2) && a1.id == a2.id && a1.action
                == a2.action implies a1 == a2 by {
            let in_rest1 = all_derived_actions(config, rest, now).contains(a1);
            let in_rest2 = all_derived_actions(config, rest, now).contains(a2);
            if in_rest1 && !in_rest2 {
                assert(crate::store::has_event(rest, a1.id));
                let w = choose|w: int| 0 <= w < rest.len() && #[trigger] rest[w].id == a1.id;
                assert(derived_actions(config, last, now).contains(a2));
                assert(a2.id == last.id);
                assert(evs[w].id == evs[evs.len() - 1].id);
                assert(false);
            } else if !in_rest1 && in_rest2 {
                assert(crate::store::has_event(rest, a2.id));
                let w = choose|w: int| 0 <= w < rest.len() && #[trigger] rest[w].id == a2.id;
                assert(derived_actions(config, last, now).contains(a1));
                assert(a1.id == last.id);
                assert(evs[w].id == evs[evs.len() - 1].id);
                assert(false);
            } else if !in_rest1 && !in_rest2 {
                assert(derived_actions(config, last, now).contains(a1));
                assert(derived_actions(config, last, now).contains(a2));
            }
        }
    }
}

/// One event change preserves both pending-set invariants.
pub proof fn lemma_pending_invariants_step(
    p0: Set<ScheduledAction>,
    config: EventSchedulerConfig,
    c: ChangeView,
    now: int,
    events0: Seq<EventView>,
    events1: Seq<EventView>,
)
    requires
        pending_ids_exist(p0, events0),
        pending_unique(p0),
        crate::store::collection_changed(events0, events1, c),
        event_wf(c.event()),
        c is Added ==> !crate::store::has_event(events0, c.event().id),
    ensures
        pending_ids_exist(changed_pending(p0, config, c, now), events1),
        pending_unique(changed_pending(p0, config, c, now)),
{
    let v = c.event();
    let p1 = changed_pending(p0, config, c, now);
    let d = derived_actions(config, v, now);
    let keep = |b: ScheduledAction| b.id != v.id;
    lemma_derived_action_times(config, v, now);
    match c {
        ChangeView::Added(_) => {
            assert(p1 =~= p0.union(d));
        },
        ChangeView::Edited(_) => {
            assert(p1 =~= p0.filter(keep).union(d));
        },
        ChangeView::Alert(_) => {
            assert(p1 =~= p0);
        },
        ChangeView::Deleted(_) => {
            assert(p1 =~= p0.filter(keep));
        },
    }
    assert forall|a: ScheduledAction| #[trigger] p1.contains(a) implies crate::store::has_event(
        events1,
        a.id,
    ) by {
        match c {
            ChangeView::Added(_) => {
                if p0.contains(a) {
                    crate::store::lemma_has_event_step(events0, events1, c, a.id);
                } else {
                    assert(d.contains(a));
                    assert(events1[events0.len() as int].id == v.id);
                }
            },
            ChangeView::Edited(_) => {
                if p0.contains(a) && a.id != v.id {
                    crate::store::lemma_has_event_step(events0, events1, c, a.id);
                } else {
                    assert(d.contains(a));
                    let i = choose|i: int|
                        0 <= i < events0.len() && (#[trigger] events0[i]).id == v.id && events1
                            == events0.update(i, v);
                    assert(events1[i].id == v.id);
                }
            },
            ChangeView::Alert(_) => {
                assert(p0.contains(a));
                crate::store::lemma_has_event_step(events0, events1, c, a.id);
            },
            ChangeView::Deleted(_) => {
                assert(p0.contains(a) && a.id != v.id);
                crate::store::lemma_has_event_step(events0, events1, c, a.id);
            },
        }
    }
    assert forall|a1: ScheduledAction, a2: ScheduledAction|
        #[trigger] p1.contains(a1) && #[trigger] p1.contains(a2) && a1.id == a2.id && a1.action
            == a2.action implies a1 == a2 by {
        match c {
            ChangeView::Added(_) => {
                if p0.contains(a1) && !p0.contains(a2) {
                    assert(crate::store::has_event(events0, a1.id));
                    assert(d.contains(a2));
                    assert(a2.id == v.id);
                    assert(false);
                } else if !p0.contains(a1) && p0.contains(a2) {
                    assert(crate::store::has_event(events0, a2.id));
                    assert(d.contains(a1));
                    assert(a1.id == v.id);
                    assert(false);
                } else if !p0.contains(a1) && !p0.contains(a2) {
                    assert(d.contains(a1) && d.contains(a2));
                }
            },
            ChangeView::Alert(_) => {},
            ChangeView::Edited(_) => {
                let kept1 = p0.contains(a1) && a1.id != v.id;
                let kept2 = p0.contains(a2) && a2.id != v.id;
                if kept1 && !kept2 {
                    assert(d.contains(a2));
                    assert(a2.id == v.id);
                    assert(false);
                } else if !kept1 && kept2 {
                    assert(d.contains(a1));
                    assert(a1.id == v.id);
                    assert(false);
                } else if !kept1 && !kept2 {
                    assert(d.contains(a1) && d.contains(a2));
                }
            },
            ChangeView::Deleted(_) => {},
        }
    }
}

} // verus!
