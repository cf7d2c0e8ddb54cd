//! The event data model: identifiers, members, and the event aggregate.
//!
//! An [`Event`] is a scheduled group activity with a roster of participants
//! split into three lists (confirmed, alternates, maybe). A member belongs to
//! at most one list at a time; `join` and `leave` preserve that invariant.
//! Changing the scheduled time clears any frozen alert message.

use vstd::prelude::*;

use crate::activity::Activity;

verus! {

/// Latest representable scheduled time (seconds since the Unix epoch,
/// midnight at the turn of the year 10000). Keeping times below this bound
/// leaves headroom for schedule arithmetic without overflow.
pub const MAX_EVENT_TIME: i64 = 253402300800;

/// Errors surfaced by event and event-collection operations.
#[derive(Clone, Copy, Debug, PartialEq, Eq, Structural)]
pub enum EventError {
    /// No event with the given identifier exists.
    NotFound,
    /// The member is already in one of the event's lists.
    AlreadyInEvent,
    /// The member is in none of the event's lists.
    NotInEvent,
    /// Every sequence number for the activity kind is taken.
    IdSpaceExhausted,
    /// Saving the collection snapshot failed; the in-memory mutation is kept.
    PersistenceFailure,
    /// A loaded collection held a malformed event or a duplicated identifier.
    InvalidSnapshot,
    /// The member list cannot grow any further.
    RosterFull,
    /// An event with this identifier already exists.
    IdInUse,
}

impl EventError {
    /// A short description of the error.
    pub fn message(&self) -> (r: &'static str)
        ensures
            r@ == self.message_spec(),
    {
        match self {
            EventError::NotFound => "Event does not exist",
            EventError::AlreadyInEvent => "User already in event",
            EventError::NotInEvent => "User wasn't in the event",
            EventError::IdSpaceExhausted => "Maximum number of events created",
            EventError::PersistenceFailure => "Failed to persist events",
            EventError::InvalidSnapshot => "Stored events are invalid",
            EventError::RosterFull => "Event roster is full",
            EventError::IdInUse => "Event already exists with this ID",
        }
    }

    pub open spec fn message_spec(self) -> Seq<char> {
        match self {
            EventError::NotFound => "Event does not exist"@,
            EventError::AlreadyInEvent => "User already in event"@,
            EventError::NotInEvent => "User wasn't in the event"@,
            EventError::IdSpaceExhausted => "Maximum number of events created"@,
            EventError::PersistenceFailure => "Failed to persist events"@,
            EventError::InvalidSnapshot => "Stored events are invalid"@,
            EventError::RosterFull => "Event roster is full"@,
            EventError::IdInUse => "Event already exists with this ID"@,
        }
    }
}

/// Unique identifier for an event: an activity plus a per-activity sequence
/// number. Rendered as the activity's prefix followed by the decimal number,
/// for example `vog42`.
#[derive(Clone, Copy, Debug, Hash, PartialEq, Eq, Structural)]
pub struct EventId {
    pub activity: Activity,
    pub idx: u8,
}

/// Position of an activity in the catalog, used to order identifiers.
pub open spec fn activity_ord_spec(a: Activity) -> int {
    match a {
        Activity::KingsFall => 0,
        Activity::VowOfTheDisciple => 1,
        Activity::VaultOfGlass => 2,
        Activity::DeepStoneCrypt => 3,
        Activity::GardenOfSalvation => 4,
        Activity::LastWish => 5,
        Activity::Duality => 6,
        Activity::GraspOfAvarice => 7,
        Activity::Prophecy => 8,
        Activity::PitOfHeresy => 9,
        Activity::ShatteredThrone => 10,
        Activity::IronBanner => 11,
        Activity::TrialsOfOsiris => 12,
        Activity::Quickplay => 13,
        Activity::Competitive => 14,
        Activity::PrivateMatch => 15,
        Activity::OtherPvP => 16,
        Activity::Gambit => 17,
        Activity::Grandmaster => 18,
        Activity::Nightfall => 19,
        Activity::Wellspring => 20,
        Activity::Harbinger => 21,
        Activity::Presage => 22,
        Activity::Story => 23,
        Activity::OtherPvE => 24,
        Activity::Override => 25,
        Activity::Battleground => 26,
        Activity::WrathbornHunt => 27,
        Activity::Custom => 28,
    }
}

/// Position of an activity in the catalog, used to order identifiers.
pub fn activity_ord(a: Activity) -> (r: usize)
    ensures
        r == activity_ord_spec(a),
        0 <= r < 29,
{
    let r: usize = match a {
        Activity::KingsFall => 0,
        Activity::VowOfTheDisciple => 1,
        Activity::VaultOfGlass => 2,
        Activity::DeepStoneCrypt => 3,
        Activity::GardenOfSalvation => 4,
        Activity::LastWish => 5,
        Activity::Duality => 6,
        Activity::GraspOfAvarice => 7,
        Activity::Prophecy => 8,
        Activity::PitOfHeresy => 9,
        Activity::ShatteredThrone => 10,
        Activity::IronBanner => 11,
        Activity::TrialsOfOsiris => 12,
        Activity::Quickplay => 13,
        Activity::Competitive => 14,
        Activity::PrivateMatch => 15,
        Activity::OtherPvP => 16,
        Activity::Gambit => 17,
        Activity::Grandmaster => 18,
        Activity::Nightfall => 19,
        Activity::Wellspring => 20,
        Activity::Harbinger => 21,
        Activity::Presage => 22,
        Activity::Story => 23,
        Activity::OtherPvE => 24,
        Activity::Override => 25,
        Activity::Battleground => 26,
        Activity::WrathbornHunt => 27,
        Activity::Custom => 28,
    };
    r
}

impl EventId {
    /// Total-order key: identifiers are ordered by activity, then index.
    pub open spec fn key_spec(self) -> int {
        activity_ord_spec(self.activity) * 256 + self.idx
    }

    /// Total-order key: identifiers are ordered by activity, then index.
    pub fn key(&self) -> (r: u32)
        ensures
            r == self.key_spec(),
    {
        (activity_ord(self.activity) as u32) * 256 + (self.idx as u32)
    }
}

/// Distinct activities have distinct catalog positions.
pub proof fn lemma_activity_ord_injective(a: Activity, b: Activity)
    requires
        activity_ord_spec(a) == activity_ord_spec(b),
    ensures
        a == b,
{
}

/// Equal keys mean equal identifiers.
pub proof fn lemma_event_id_key_injective(a: EventId, b: EventId)
    requires
        a.key_spec() == b.key_spec(),
    ensures
        a == b,
{
    assert(activity_ord_spec(a.activity) == activity_ord_spec(b.activity) && a.idx == b.idx);
}

/// A participant snapshot: opaque user identifier and the display name seen
/// at join time.
#[derive(Debug, PartialEq, Eq)]
pub struct EventMember {
    pub id: u64,
    pub name: String,
}

/// Spec-level value of an [`EventMember`].
#[verifier::ext_equal]
pub struct MemberView {
    pub id: u64,
    pub name: Seq<char>,
}

impl View for EventMember {
    type V = MemberView;

    open spec fn view(&self) -> MemberView {
        MemberView { id: self.id, name: self.name@ }
    }
}

impl Clone for EventMember {
    fn clone(&self) -> (r: Self)
        ensures
            r@ == self@,
    {
        EventMember { id: self.id, name: self.name.clone() }
    }
}

/// Which participant list a member asks to join.
#[derive(Clone, Copy, Debug, PartialEq, Eq, Structural)]
pub enum JoinKind {
    Confirmed,
    Alternate,
    Maybe,
}

/// Whether some member of `s` has the identifier `id`.
pub open spec fn has_member_id(s: Seq<MemberView>, id: u64) -> bool {
    exists|i: int| 0 <= i < s.len() && #[trigger] s[i].id == id
}

/// `s` with every member whose identifier is `id` removed.
pub open spec fn without_id(s: Seq<MemberView>, id: u64) -> Seq<MemberView> {
    s.filter(|m: MemberView| m.id != id)
}

/// Spec-level value of a member list.
pub open spec fn members_view(s: Seq<EventMember>) -> Seq<MemberView> {
    s.map_values(|m: EventMember| m@)
}

/// Removes every member with identifier `id` from `v`; reports whether any
/// was present.
fn remove_member(v: &mut Vec<EventMember>, id: u64) -> (removed: bool)
    ensures
        members_view(final(v)@) == without_id(members_view(old(v)@), id),
        removed == has_member_id(members_view(old(v)@), id),
{
    let ghost orig = members_view(old(v)@);
    let mut out: Vec<EventMember> = Vec::new();
    let mut removed = false;
    let mut i: usize = 0;
    while i < v.len()
        invariant
            i <= v@.len(),
            members_view(v@) == orig,
            members_view(out@) == without_id(orig.take(i as int), id),
            removed == has_member_id(orig.take(i as int), id),
        decreases v@.len() - i,
    {
        proof {
            reveal(Seq::filter);
            assert(orig.take(i + 1).drop_last() =~= orig.take(i as int));
            assert(orig.take(i + 1).last() == orig[i as int]);
            assert(members_view(v@)[i as int] == v@[i as int]@);
        }
        if v[i].id == id {
            removed = true;
            proof {
                assert(has_member_id(orig.take(i + 1), id)) by {
                    assert(orig.take(i + 1)[i as int].id == id);
                }
            }
        } else {
            out.push(v[i].clone());
            proof {
                assert(members_view(out@) =~= without_id(orig.take(i + 1), id));
                assert(has_member_id(orig.take(i + 1), id) == has_member_id(
                    orig.take(i as int),
                    id,
                )) by {
                    if has_member_id(orig.take(i + 1), id) {
                        let w = choose|w: int|
                            0 <= w < orig.take(i + 1).len() && #[trigger] orig.take(i + 1)[w].id == id;
                        assert(w < i);
                        assert(orig.take(i as int)[w].id == id);
                    } else {
                        if has_member_id(orig.take(i as int), id) {
                            let w = choose|w: int|
                                0 <= w < orig.take(i as int).len() && #[trigger] orig.take(i as int)[w].id == id;
                            assert(orig.take(i + 1)[w].id == id);
                        }
                    }
                }
            }
        }
        if removed && v[i].id != id {
            proof {
                assert(has_member_id(orig.take(i + 1), id)) by {
                    let w = choose|w: int|
                        0 <= w < orig.take(i as int).len() && #[trigger] orig.take(i as int)[w].id == id;
                    assert(orig.take(i + 1)[w].id == id);
                }
            }
        }
        i = i + 1;
    }
    proof {
        assert(orig.take(v@.len() as int) =~= orig);
    }
    *v = out;
    removed
}

/// One decimal digit as a character.
pub open spec fn digit_char(d: int) -> char {
    if d == 0 { '0' }
    else if d == 1 { '1' }
    else if d == 2 { '2' }
    else if d == 3 { '3' }
    else if d == 4 { '4' }
    else if d == 5 { '5' }
    else if d == 6 { '6' }
    else if d == 7 { '7' }
    else if d == 8 { '8' }
    else { '9' }
}

/// Decimal rendering of a byte-sized number, without leading zeroes.
pub open spec fn dec_str_u8(n: u8) -> Seq<char> {
    if n < 10 {
        seq![digit_char(n as int)]
    } else if n < 100 {
        seq![digit_char(n as int / 10), digit_char(n as int % 10)]
    } else {
        seq![
            digit_char(n as int / 100),
            digit_char((n as int / 10) % 10),
            digit_char(n as int % 10),
        ]
    }
}

/// One decimal digit as a string slice.
fn digit_str(d: u8) -> (r: &'static str)
    requires
        d < 10,
    ensures
        r@ == seq![digit_char(d as int)],
{
    proof {
        reveal_strlit("0");
        reveal_strlit("1");
        reveal_strlit("2");
        reveal_strlit("3");
        reveal_strlit("4");
        reveal_strlit("5");
        reveal_strlit("6");
        reveal_strlit("7");
        reveal_strlit("8");
        reveal_strlit("9");
    }
    let r = match d {
        0 => "0",
        1 => "1",
        2 => "2",
        3 => "3",
        4 => "4",
        5 => "5",
        6 => "6",
        7 => "7",
        8 => "8",
        _ => "9",
    };
    proof {
        assert(r@ =~= seq![digit_char(d as int)]);
    }
    r
}

impl EventId {
    /// Canonical rendering of an identifier: activity prefix followed by the
    /// decimal index, for example `vog42`.
    pub open spec fn id_string_spec(self) -> Seq<char> {
        self.activity.id_prefix_spec() + dec_str_u8(self.idx)
    }

    /// Canonical rendering of an identifier: activity prefix followed by the
    /// decimal index, for example `vog42`.
    pub fn id_string(&self) -> (r: String)
        ensures
            r@ == self.id_string_spec(),
    {
        let mut s = self.activity.id_prefix().to_owned();
        let n = self.idx;
        if n >= 100 {
            s.append(digit_str(n / 100));
            s.append(digit_str((n / 10) % 10));
            s.append(digit_str(n % 10));
        } else if n >= 10 {
            s.append(digit_str(n / 10));
            s.append(digit_str(n % 10));
        } else {
            s.append(digit_str(n));
        }
        proof {
            assert(s@ =~= self.id_string_spec());
        }
        s
    }
}

/// A scheduled group event: the aggregate root of the library.
///
/// The scheduled time and the frozen alert message are kept private so that
/// every change of the time also clears the alert message.
#[derive(Debug, PartialEq, Eq)]
pub struct Event {
    id: EventId,
    activity: Activity,
    datetime: i64,
    description: String,
    group_size: u8,
    recur: bool,
    creator: EventMember,
    confirmed: Vec<EventMember>,
    alternates: Vec<EventMember>,
    maybe: Vec<EventMember>,
    alert_message: Option<String>,
}

/// Spec-level value of an [`Event`].
#[verifier::ext_equal]
pub struct EventView {
    pub id: EventId,
    pub activity: Activity,
    pub datetime: int,
    pub description: Seq<char>,
    pub group_size: int,
    pub recur: bool,
    pub creator: MemberView,
    pub confirmed: Seq<MemberView>,
    pub alternates: Seq<MemberView>,
    pub maybe: Seq<MemberView>,
    pub alert_message: Option<Seq<char>>,
}

impl View for Event {
    type V = EventView;

    closed spec fn view(&self) -> EventView {
        EventView {
            id: self.id,
            activity: self.activity,
            datetime: self.datetime as int,
            description: self.description@,
            group_size: self.group_size as int,
            recur: self.recur,
            creator: self.creator@,
            confirmed: members_view(self.confirmed@),
            alternates: members_view(self.alternates@),
            maybe: members_view(self.maybe@),
            alert_message: match self.alert_message {
                Some(ref m) => Some(m@),
                None => None,
            },
        }
    }
}

/// Upper bound on the combined roster size, so that length arithmetic cannot
/// overflow.
pub const MAX_ROSTER: usize = 1000000;

/// Whether `id` is in any of the event's three lists.
pub open spec fn in_any_list(v: EventView, id: u64) -> bool {
    has_member_id(v.confirmed, id) || has_member_id(v.alternates, id) || has_member_id(v.maybe, id)
}

/// Combined roster size of an event value.
pub open spec fn roster_len(v: EventView) -> int {
    v.confirmed.len() + v.alternates.len() + v.maybe.len() as int
}

/// The event value after `m` joins the `kind` list.
pub open spec fn joined_view(v: EventView, m: MemberView, kind: JoinKind) -> EventView {
    match kind {
        JoinKind::Confirmed => EventView { confirmed: v.confirmed.push(m), ..v },
        JoinKind::Alternate => EventView { alternates: v.alternates.push(m), ..v },
        JoinKind::Maybe => EventView { maybe: v.maybe.push(m), ..v },
    }
}

/// The event value after the member with identifier `id` leaves every list.
pub open spec fn left_view(v: EventView, id: u64) -> EventView {
    EventView {
        confirmed: without_id(v.confirmed, id),
        alternates: without_id(v.alternates, id),
        maybe: without_id(v.maybe, id),
        ..v
    }
}

/// The confirmed roster followed by the alternates: the members considered
/// when groups are formed.
pub open spec fn roster_view(v: EventView) -> Seq<MemberView> {
    v.confirmed + v.alternates
}

/// Length of the part of the roster that forms complete groups.
pub open spec fn full_portion_len(v: EventView) -> int {
    (roster_view(v).len() as int / v.group_size) * v.group_size
}

/// Removing an identifier that occurs nowhere leaves a list unchanged.
pub proof fn lemma_without_id_absent(s: Seq<MemberView>, id: u64)
    requires
        !has_member_id(s, id),
    ensures
        without_id(s, id) == s,
    decreases s.len(),
{
    reveal(Seq::filter);
    if s.len() == 0 {
        assert(without_id(s, id) =~= s);
    } else {
        assert(!has_member_id(s.drop_last(), id)) by {
            if has_member_id(s.drop_last(), id) {
                let w = choose|w: int|
                    0 <= w < s.drop_last().len() && #[trigger] s.drop_last()[w].id == id;
                assert(s[w].id == id);
            }
        }
        lemma_without_id_absent(s.drop_last(), id);
        assert(s.last().id != id) by {
            assert(s[s.len() - 1].id != id);
        }
        assert(without_id(s, id) =~= s);
    }
}

impl Clone for Event {
    fn clone(&self) -> (r: Self)
        ensures
            r@ == self@,
    {
        let r = Event {
            id: self.id,
            activity: self.activity,
            datetime: self.datetime,
            description: self.description.clone(),
            group_size: self.group_size,
            recur: self.recur,
            creator: self.creator.clone(),
            confirmed: clone_members(&self.confirmed),
            alternates: clone_members(&self.alternates),
            maybe: clone_members(&self.maybe),
            alert_message: match &self.alert_message {
                Some(m) => Some(m.clone()),
                None => None,
            },
        };
        proof {
            assert(r@.alert_message == self@.alert_message);
        }
        r
    }
}

/// Copies a member list, preserving its spec-level value.
fn clone_members(v: &Vec<EventMember>) -> (r: Vec<EventMember>)
    ensures
        members_view(r@) == members_view(v@),
{
    let mut r: Vec<EventMember> = Vec::new();
    let mut i: usize = 0;
    while i < v.len()
        invariant
            i <= v@.len(),
            members_view(r@) == members_view(v@.take(i as int)),
        decreases v@.len() - i,
    {
        let ghost pre = r@;
        let m = v[i].clone();
        proof {
            assert(m@ == v@[i as int]@);
        }
        let ghost mv = m@;
        r.push(m);
        proof {
            assert(members_view(pre).len() == pre.len());
            assert(members_view(v@.take(i as int)).len() == i as int);
            assert(r@[i as int]@ == mv);
            assert forall|j: int| 0 <= j < i + 1 implies members_view(r@)[j] == members_view(
                v@.take(i + 1),
            )[j] by {
                if j < i {
                    assert(members_view(pre)[j] == members_view(v@.take(i as int))[j]);
                    assert(members_view(pre)[j] == pre[j]@);
                    assert(v@.take(i as int)[j] == v@[j]);
                }
                assert(v@.take(i + 1)[j] == v@[j]);
            }
            assert(members_view(r@) =~= members_view(v@.take(i + 1)));
        }
        i = i + 1;
    }
    proof {
        assert(v@.take(v@.len() as int) =~= v@);
    }
    r
}

/// Well-formedness of an event value: positive group size, a representable
/// scheduled time, and a roster small enough for length arithmetic.
pub open spec fn event_wf(v: EventView) -> bool {
    &&& 1 <= v.group_size
    &&& 0 <= v.datetime <= MAX_EVENT_TIME as int
    &&& roster_len(v) <= MAX_ROSTER as int
}

impl Event {
    /// Well-formedness: positive group size, a representable scheduled time,
    /// and a roster small enough for length arithmetic.
    pub open spec fn wf(self) -> bool {
        event_wf(self@)
    }

    /// Runtime form of the well-formedness predicate, for values that come
    /// from outside (a loaded snapshot).
    pub fn check_wf(&self) -> (r: bool)
        ensures
            r == self.wf(),
    {
        let c = self.confirmed.len();
        let a = self.alternates.len();
        let m = self.maybe.len();
        proof {
            assert(self@.confirmed.len() == c);
            assert(self@.alternates.len() == a);
            assert(self@.maybe.len() == m);
        }
        if c > MAX_ROSTER || a > MAX_ROSTER || m > MAX_ROSTER {
            return false;
        }
        self.group_size >= 1 && self.datetime >= 0 && self.datetime <= MAX_EVENT_TIME && c + a + m
            <= MAX_ROSTER
    }

    /// Builds a fresh event. The creator starts as its only confirmed member;
    /// the alternates and maybe lists start empty, and no alert has fired.
    pub fn new(
        id: EventId,
        activity: Activity,
        datetime: i64,
        description: String,
        group_size: u8,
        recur: bool,
        creator: EventMember,
    ) -> (r: Event)
        requires
            1 <= group_size,
            0 <= datetime <= MAX_EVENT_TIME,
        ensures
            r@ == (EventView {
                id,
                activity,
                datetime: datetime as int,
                description: description@,
                group_size: group_size as int,
                recur,
                creator: creator@,
                confirmed: seq![creator@],
                alternates: Seq::<MemberView>::empty(),
                maybe: Seq::<MemberView>::empty(),
                alert_message: None,
            }),
            r.wf(),
    {
        let confirmed_creator = creator.clone();
        let r = Event {
            id,
            activity,
            datetime,
            description,
            group_size,
            recur,
            creator,
            confirmed: vec![confirmed_creator],
            alternates: Vec::new(),
            maybe: Vec::new(),
            alert_message: None,
        };
        proof {
            assert(members_view(r.confirmed@) =~= seq![r.creator@]);
            assert(members_view(r.alternates@) =~= Seq::<MemberView>::empty());
            assert(members_view(r.maybe@) =~= Seq::<MemberView>::empty());
        }
        r
    }

    /// The event's identifier.
    pub fn id(&self) -> (r: EventId)
        ensures
            r == self@.id,
    {
        self.id
    }

    /// The event's activity.
    pub fn activity(&self) -> (r: Activity)
        ensures
            r == self@.activity,
    {
        self.activity
    }

    /// The scheduled time, in seconds since the Unix epoch.
    pub fn datetime(&self) -> (r: i64)
        ensures
            r == self@.datetime,
    {
        self.datetime
    }

    /// The event's free-text description.
    pub fn description(&self) -> (r: &String)
        ensures
            r@ == self@.description,
    {
        &self.description
    }

    /// How many members form one group.
    pub fn group_size(&self) -> (r: u8)
        ensures
            r == self@.group_size,
    {
        self.group_size
    }

    /// Whether the event recurs weekly.
    pub fn recur(&self) -> (r: bool)
        ensures
            r == self@.recur,
    {
        self.recur
    }

    /// The member who created the event.
    pub fn creator(&self) -> (r: &EventMember)
        ensures
            r@ == self@.creator,
    {
        &self.creator
    }

    /// The confirmed participants, in join order.
    pub fn confirmed(&self) -> (r: &Vec<EventMember>)
        ensures
            members_view(r@) == self@.confirmed,
    {
        &self.confirmed
    }

    /// The alternate participants, in join order.
    pub fn alternates(&self) -> (r: &Vec<EventMember>)
        ensures
            members_view(r@) == self@.alternates,
    {
        &self.alternates
    }

    /// The tentative participants, in join order.
    pub fn maybe(&self) -> (r: &Vec<EventMember>)
        ensures
            members_view(r@) == self@.maybe,
    {
        &self.maybe
    }

    /// Changes the scheduled time. Any frozen alert message becomes stale and
    /// is cleared.
    pub fn set_datetime(&mut self, new: i64)
        requires
            0 <= new <= MAX_EVENT_TIME,
        ensures
            final(self)@ == (EventView {
                datetime: new as int,
                alert_message: None,
                ..old(self)@
            }),
            old(self).wf() ==> final(self).wf(),
    {
        self.datetime = new;
        self.alert_message = None;
    }

    /// Replaces the description.
    pub fn set_description(&mut self, new: String)
        ensures
            final(self)@ == (EventView { description: new@, ..old(self)@ }),
            old(self).wf() ==> final(self).wf(),
    {
        self.description = new;
    }

    /// Replaces the group size.
    pub fn set_group_size(&mut self, new: u8)
        requires
            1 <= new,
        ensures
            final(self)@ == (EventView { group_size: new as int, ..old(self)@ }),
            old(self).wf() ==> final(self).wf(),
    {
        self.group_size = new;
    }

    /// Turns weekly recurrence on or off.
    pub fn set_recur(&mut self, new: bool)
        ensures
            final(self)@ == (EventView { recur: new, ..old(self)@ }),
            old(self).wf() ==> final(self).wf(),
    {
        self.recur = new;
    }

    /// Adds `member` to the requested list.
    ///
    /// Fails with `AlreadyInEvent` when the member is already in any of the
    /// three lists, unless the duplicate-join override is set, and with
    /// `RosterFull` when the roster has reached its size bound.
    pub fn join(&mut self, member: EventMember, kind: JoinKind, allow_duplicate: bool) -> (r:
        Result<(), EventError>)
        ensures
            r == (if !allow_duplicate && in_any_list(old(self)@, member@.id) {
                Err::<(), EventError>(EventError::AlreadyInEvent)
            } else if roster_len(old(self)@) >= MAX_ROSTER as int {
                Err::<(), EventError>(EventError::RosterFull)
            } else {
                Ok::<(), EventError>(())
            }),
            r is Ok ==> final(self)@ == joined_view(old(self)@, member@, kind),
            r is Err ==> *final(self) == *old(self),
            old(self).wf() ==> final(self).wf(),
    {
        if !allow_duplicate {
            let in_confirmed = contains_member(&self.confirmed, member.id);
            let in_alternates = contains_member(&self.alternates, member.id);
            let in_maybe = contains_member(&self.maybe, member.id);
            if in_confirmed || in_alternates || in_maybe {
                return Err(EventError::AlreadyInEvent);
            }
        }
        let c = self.confirmed.len();
        let a = self.alternates.len();
        let m = self.maybe.len();
        proof {
            assert(c == self@.confirmed.len());
            assert(a == self@.alternates.len());
            assert(m == self@.maybe.len());
        }
        if c >= MAX_ROSTER || a >= MAX_ROSTER || m >= MAX_ROSTER || c + a + m >= MAX_ROSTER {
            return Err(EventError::RosterFull);
        }
        match kind {
            JoinKind::Confirmed => {
                self.confirmed.push(member);
                proof {
                    assert(members_view(self.confirmed@) =~= old(self)@.confirmed.push(
                        members_view(self.confirmed@).last(),
                    ));
                }
            },
            JoinKind::Alternate => {
                self.alternates.push(member);
                proof {
                    assert(members_view(self.alternates@) =~= old(self)@.alternates.push(
                        members_view(self.alternates@).last(),
                    ));
                }
            },
            JoinKind::Maybe => {
                self.maybe.push(member);
                proof {
                    assert(members_view(self.maybe@) =~= old(self)@.maybe.push(
                        members_view(self.maybe@).last(),
                    ));
                }
            },
        }
        Ok(())
    }

    /// Removes the member with identifier `member_id` from whichever lists
    /// contain them. Fails with `NotInEvent` when no list does.
    pub fn leave(&mut self, member_id: u64) -> (r: Result<(), EventError>)
        ensures
            final(self)@ == left_view(old(self)@, member_id),
            r is Ok <==> in_any_list(old(self)@, member_id),
            r is Err ==> r == Err::<(), EventError>(EventError::NotInEvent),
            old(self).wf() ==> final(self).wf(),
    {
        let removed_confirmed = remove_member(&mut self.confirmed, member_id);
        let removed_alternates = remove_member(&mut self.alternates, member_id);
        let removed_maybe = remove_member(&mut self.maybe, member_id);
        proof {
            broadcast use vstd::seq_lib::group_seq_lib_default;
            assert(self@.confirmed.len() <= old(self)@.confirmed.len());
            assert(self@.alternates.len() <= old(self)@.alternates.len());
            assert(self@.maybe.len() <= old(self)@.maybe.len());
        }
        if removed_confirmed || removed_alternates || removed_maybe {
            Ok(())
        } else {
            Err(EventError::NotInEvent)
        }
    }

    /// Whether the alert protocol has fired for this event.
    pub fn alerted(&self) -> (r: bool)
        ensures
            r == (self@.alert_message is Some),
    {
        self.alert_message.is_some()
    }

    /// The frozen alert message, if the alert protocol has fired.
    pub fn alert_protocol_message(&self) -> (r: Option<String>)
        ensures
            match r {
                Some(m) => self@.alert_message == Some(m@),
                None => self@.alert_message is None,
            },
    {
        match &self.alert_message {
            Some(m) => Some(m.clone()),
            None => None,
        }
    }

    /// The members that form complete groups: the longest prefix of the
    /// confirmed-then-alternates roster whose length is a whole number of
    /// groups.
    pub fn full_group_members(&self) -> (r: Vec<EventMember>)
        requires
            self.wf(),
        ensures
            members_view(r@) == roster_view(self@).take(full_portion_len(self@)),
    {
        let c = self.confirmed.len();
        let a = self.alternates.len();
        let total = c + a;
        let gs = self.group_size as usize;
        proof {
            assert((total as int / gs as int) * gs as int <= total as int) by (nonlinear_arith)
                requires
                    gs as int >= 1,
                    total as int >= 0,
            ;
        }
        let full = (total / gs) * gs;
        let mut r: Vec<EventMember> = Vec::new();
        let mut i: usize = 0;
        while i < full
            invariant
                full <= total,
                total == c + a,
                c == self@.confirmed.len(),
                a == self@.alternates.len(),
                full == full_portion_len(self@),
                i <= full,
                members_view(r@) == roster_view(self@).take(i as int),
            decreases full - i,
        {
            let ghost pre = r@;
            let ghost mv: MemberView;
            if i < c {
                let m = self.confirmed[i].clone();
                proof {
                    assert(members_view(self.confirmed@)[i as int] == self.confirmed@[i as int]@);
                    assert(m@ == self@.confirmed[i as int]);
                    assert(roster_view(self@)[i as int] == self@.confirmed[i as int]);
                    mv = m@;
                }
                r.push(m);
            } else {
                let m = self.alternates[i - c].clone();
                proof {
                    assert(members_view(self.alternates@)[i - c] == self.alternates@[i - c]@);
                    assert(m@ == self@.alternates[i - c]);
                    assert(roster_view(self@)[i as int] == self@.alternates[i - c]);
                    mv = m@;
                }
                r.push(m);
            }
            proof {
                assert(roster_view(self@).take(i as int).len() == i as int);
                assert(pre.len() == i as int);
                assert(r@[i as int]@ == mv);
                assert(mv == roster_view(self@)[i as int]);
                assert forall|j: int| 0 <= j < i + 1 implies members_view(r@)[j] == roster_view(
                    self@,
                ).take(i + 1)[j] by {
                    if j < i {
                        assert(members_view(pre)[j] == roster_view(self@).take(i as int)[j]);
                        assert(members_view(pre)[j] == pre[j]@);
                    }
                }
                assert(members_view(r@) =~= roster_view(self@).take(i + 1));
            }
            i = i + 1;
        }
        r
    }

    /// Rebuilds an event from its stored parts, typically a deserialized
    /// snapshot entry.
    pub fn from_parts(
        id: EventId,
        activity: Activity,
        datetime: i64,
        description: String,
        group_size: u8,
        recur: bool,
        creator: EventMember,
        confirmed: Vec<EventMember>,
        alternates: Vec<EventMember>,
        maybe: Vec<EventMember>,
        alert_message: Option<String>,
    ) -> (r: Event)
        ensures
            r@ == (EventView {
                id,
                activity,
                datetime: datetime as int,
                description: description@,
                group_size: group_size as int,
                recur,
                creator: creator@,
                confirmed: members_view(confirmed@),
                alternates: members_view(alternates@),
                maybe: members_view(maybe@),
                alert_message: match alert_message {
                    Some(m) => Some(m@),
                    None => None,
                },
            }),
    {
        Event {
            id,
            activity,
            datetime,
            description,
            group_size,
            recur,
            creator,
            confirmed,
            alternates,
            maybe,
            alert_message,
        }
    }

    /// The next occurrence of a recurring event: the same activity,
    /// description, group size and creator, with empty participant lists,
    /// no alert, and recurrence kept.
    pub fn next_occurrence(&self, id: EventId, datetime: i64) -> (r: Event)
        requires
            0 <= datetime <= MAX_EVENT_TIME,
            1 <= self@.group_size,
        ensures
            r@ == (EventView {
                id,
                datetime: datetime as int,
                recur: true,
                confirmed: Seq::<MemberView>::empty(),
                alternates: Seq::<MemberView>::empty(),
                maybe: Seq::<MemberView>::empty(),
                alert_message: None,
                ..self@
            }),
            r.wf(),
    {
        let r = Event {
            id,
            activity: self.activity,
            datetime,
            description: self.description.clone(),
            group_size: self.group_size,
            recur: true,
            creator: self.creator.clone(),
            confirmed: Vec::new(),
            alternates: Vec::new(),
            maybe: Vec::new(),
            alert_message: None,
        };
        proof {
            assert(members_view(r.confirmed@) =~= Seq::<MemberView>::empty());
            assert(members_view(r.alternates@) =~= Seq::<MemberView>::empty());
            assert(members_view(r.maybe@) =~= Seq::<MemberView>::empty());
        }
        r
    }

    /// Freezes the alert message and returns the members of every complete
    /// group, the ones to notify that the event is about to start.
    pub fn trigger_alert_protocol(&mut self, message: String) -> (r: Vec<EventMember>)
        requires
            old(self).wf(),
        ensures
            final(self)@ == (EventView { alert_message: Some(message@), ..old(self)@ }),
            members_view(r@) == roster_view(old(self)@).take(full_portion_len(old(self)@)),
            final(self).wf(),
    {
        let members = self.full_group_members();
        self.alert_message = Some(message);
        members
    }
}

/// Whether any member of `v` has the identifier `id`.
pub fn contains_member(v: &Vec<EventMember>, id: u64) -> (r: bool)
    ensures
        r == has_member_id(members_view(v@), id),
{
    let mut i: usize = 0;
    while i < v.len()
        invariant
            i <= v@.len(),
            forall|j: int| 0 <= j < i ==> #[trigger] members_view(v@)[j].id != id,
        decreases v@.len() - i,
    {
        if v[i].id == id {
            proof {
                assert(members_view(v@)[i as int].id == id);
            }
            return true;
        }
        proof {
            assert(members_view(v@)[i as int].id == v@[i as int]@.id);
        }
        i = i + 1;
    }
    false
}

/// A change to the event collection, carrying the resulting snapshot
/// (the post-change value, or the removed value for `Deleted`).
#[derive(Debug)]
pub enum EventChange {
    /// New event added.
    Added(Event),
    /// Event deleted.
    Deleted(Event),
    /// Event edited by user.
    Edited(Event),
    /// Alert protocol initiated.
    Alert(Event),
}

/// Spec-level value of an [`EventChange`].
#[verifier::ext_equal]
pub enum ChangeView {
    Added(EventView),
    Deleted(EventView),
    Edited(EventView),
    Alert(EventView),
}

impl View for EventChange {
    type V = ChangeView;

    open spec fn view(&self) -> ChangeView {
        match self {
            EventChange::Added(e) => ChangeView::Added(e@),
            EventChange::Deleted(e) => ChangeView::Deleted(e@),
            EventChange::Edited(e) => ChangeView::Edited(e@),
            EventChange::Alert(e) => ChangeView::Alert(e@),
        }
    }
}

impl ChangeView {
    /// The event value the change carries.
    pub open spec fn event(self) -> EventView {
        match self {
            ChangeView::Added(e) => e,
            ChangeView::Deleted(e) => e,
            ChangeView::Edited(e) => e,
            ChangeView::Alert(e) => e,
        }
    }
}

impl EventChange {
    /// The event snapshot the change carries.
    pub fn event(&self) -> (r: &Event)
        ensures
            r@ == self@.event(),
    {
        match self {
            EventChange::Added(e) => e,
            EventChange::Deleted(e) => e,
            EventChange::Edited(e) => e,
            EventChange::Alert(e) => e,
        }
    }
}

impl Clone for EventChange {
    fn clone(&self) -> (r: Self)
        ensures
            r@ == self@,
    {
        match self {
            EventChange::Added(e) => EventChange::Added(e.clone()),
            EventChange::Deleted(e) => EventChange::Deleted(e.clone()),
            EventChange::Edited(e) => EventChange::Edited(e.clone()),
            EventChange::Alert(e) => EventChange::Alert(e.clone()),
        }
    }
}

/// A single-field edit applied to an event.
#[derive(Debug)]
pub enum EventEdit {
    /// Change the scheduled time (seconds since the Unix epoch).
    Datetime(i64),
    /// Replace the description.
    Description(String),
    /// Change the group size.
    GroupSize(u8),
    /// Turn weekly recurrence on or off.
    Recur(bool),
}

/// Spec-level value of an [`EventEdit`].
#[verifier::ext_equal]
pub enum EditView {
    Datetime(int),
    Description(Seq<char>),
    GroupSize(int),
    Recur(bool),
}

impl View for EventEdit {
    type V = EditView;

    open spec fn view(&self) -> EditView {
        match self {
            EventEdit::Datetime(t) => EditView::Datetime(*t as int),
            EventEdit::Description(d) => EditView::Description(d@),
            EventEdit::GroupSize(g) => EditView::GroupSize(*g as int),
            EventEdit::Recur(b) => EditView::Recur(*b),
        }
    }
}

impl EventEdit {
    /// Whether the edit's value is acceptable.
    pub open spec fn valid(self) -> bool {
        match self@ {
            EditView::Datetime(t) => 0 <= t <= MAX_EVENT_TIME as int,
            EditView::GroupSize(g) => 1 <= g,
            _ => true,
        }
    }
}

/// The event value after an edit. An edit of the scheduled time clears the
/// frozen alert message; no other edit touches it.
pub open spec fn edited_view(v: EventView, e: EditView) -> EventView {
    match e {
        EditView::Datetime(t) => EventView { datetime: t, alert_message: None, ..v },
        EditView::Description(d) => EventView { description: d, ..v },
        EditView::GroupSize(g) => EventView { group_size: g, ..v },
        EditView::Recur(b) => EventView { recur: b, ..v },
    }
}

impl Event {
    /// Applies a single-field edit.
    pub fn apply_edit(&mut self, edit: EventEdit)
        requires
            edit.valid(),
        ensures
            final(self)@ == edited_view(old(self)@, edit@),
            old(self).wf() ==> final(self).wf(),
    {
        match edit {
            EventEdit::Datetime(t) => self.set_datetime(t),
            EventEdit::Description(d) => self.set_description(d),
            EventEdit::GroupSize(g) => self.set_group_size(g),
            EventEdit::Recur(b) => self.set_recur(b),
        }
    }
}



/// Join exclusion: after a member absent from every list joins, they are in
/// exactly the requested list and in no other.
pub proof fn lemma_join_exclusive(v: EventView, m: MemberView, kind: JoinKind)
    requires
        !in_any_list(v, m.id),
    ensures
        in_any_list(joined_view(v, m, kind), m.id),
        has_member_id(joined_view(v, m, kind).confirmed, m.id) <==> kind == JoinKind::Confirmed,
        has_member_id(joined_view(v, m, kind).alternates, m.id) <==> kind == JoinKind::Alternate,
        has_member_id(joined_view(v, m, kind).maybe, m.id) <==> kind == JoinKind::Maybe,
{
    let v1 = joined_view(v, m, kind);
    match kind {
        JoinKind::Confirmed => {
            assert(v1.confirmed[v.confirmed.len() as int].id == m.id);
        },
        JoinKind::Alternate => {
            assert(v1.alternates[v.alternates.len() as int].id == m.id);
        },
        JoinKind::Maybe => {
            assert(v1.maybe[v.maybe.len() as int].id == m.id);
        },
    }
}

/// Filtering out an identifier that only the pushed member carries restores
/// the original list.
proof fn lemma_without_id_push(s: Seq<MemberView>, m: MemberView)
    requires
        !has_member_id(s, m.id),
    ensures
        without_id(s.push(m), m.id) == s,
{
    reveal(Seq::filter);
    assert(s.push(m).drop_last() =~= s);
    assert(s.push(m).last() == m);
    lemma_without_id_absent(s, m.id);
}

/// Join/leave round trip: a member absent from every list who joins and
/// then leaves restores the event value exactly.
pub proof fn lemma_leave_after_join(v: EventView, m: MemberView, kind: JoinKind)
    requires
        !in_any_list(v, m.id),
    ensures
        in_any_list(joined_view(v, m, kind), m.id),
        left_view(joined_view(v, m, kind), m.id) == v,
{
    lemma_join_exclusive(v, m, kind);
    let v1 = joined_view(v, m, kind);
    lemma_without_id_absent(v.confirmed, m.id);
    lemma_without_id_absent(v.alternates, m.id);
    lemma_without_id_absent(v.maybe, m.id);
    match kind {
        JoinKind::Confirmed => {
            lemma_without_id_push(v.confirmed, m);
        },
        JoinKind::Alternate => {
            lemma_without_id_push(v.alternates, m);
        },
        JoinKind::Maybe => {
            lemma_without_id_push(v.maybe, m);
        },
    }
    assert(left_view(v1, m.id) =~= v);
}

/// The confirmed-then-alternates roster, each member flagged as an
/// alternate or not.
pub open spec fn roster_pairs(v: EventView) -> Seq<(MemberView, bool)> {
    v.confirmed.map_values(|m: MemberView| (m, false)) + v.alternates.map_values(
        |m: MemberView| (m, true),
    )
}

/// Spec-level value of a flagged member list.
pub open spec fn pairs_view(s: Seq<(EventMember, bool)>) -> Seq<(MemberView, bool)> {
    s.map_values(|p: (EventMember, bool)| (p.0@, p.1))
}

/// How many groups are displayed: every complete group, plus the trailing
/// partial group when its first member is confirmed rather than an
/// alternate.
pub open spec fn groups_count(v: EventView) -> int {
    let total = v.confirmed.len() + v.alternates.len() as int;
    let gs = v.group_size;
    let full = total / gs;
    if total % gs == 0 {
        full
    } else if full * gs < v.confirmed.len() {
        full + 1
    } else {
        full
    }
}

impl Event {
    /// Copies the flagged roster member at position `i`.
    fn roster_pair_at(&self, i: usize) -> (r: (EventMember, bool))
        requires
            self.wf(),
            i < roster_pairs(self@).len(),
        ensures
            (r.0@, r.1) == roster_pairs(self@)[i as int],
    {
        let c = self.confirmed.len();
        proof {
            assert(self@.confirmed.len() == c);
            assert(roster_pairs(self@).len() == self@.confirmed.len() + self@.alternates.len());
        }
        if i < c {
            let m = self.confirmed[i].clone();
            proof {
                assert(members_view(self.confirmed@)[i as int] == self.confirmed@[i as int]@);
                assert(roster_pairs(self@)[i as int] == (self@.confirmed[i as int], false));
            }
            (m, false)
        } else {
            let m = self.alternates[i - c].clone();
            proof {
                assert(members_view(self.alternates@)[i - c] == self.alternates@[i - c]@);
                assert(roster_pairs(self@)[i as int] == (self@.alternates[i - c], true));
            }
            (m, true)
        }
    }

    /// The participants chunked into display groups: the confirmed members
    /// followed by the alternates, split into groups of the event's group
    /// size; the trailing partial group is shown only when it starts with a
    /// confirmed member.
    pub fn confirmed_groups(&self) -> (r: Vec<Vec<(EventMember, bool)>>)
        requires
            self.wf(),
        ensures
            r@.len() == groups_count(self@),
            forall|g: int|
                0 <= g < r@.len() ==> pairs_view((#[trigger] r@[g])@) == roster_pairs(
                    self@,
                ).subrange(
                    g * self@.group_size,
                    if (g + 1) * self@.group_size <= roster_pairs(self@).len() {
                        (g + 1) * self@.group_size
                    } else {
                        roster_pairs(self@).len() as int
                    },
                ),
    {
        let gs = self.group_size as usize;
        let c = self.confirmed.len();
        let a = self.alternates.len();
        let total = c + a;
        let ghost rp = roster_pairs(self@);
        proof {
            assert(rp.len() == total);
            assert(self@.confirmed.len() == c);
        }
        let mut r: Vec<Vec<(EventMember, bool)>> = Vec::new();
        let mut pos: usize = 0;
        proof {
            assert(r@.len() * gs as int == 0) by (nonlinear_arith)
                requires
                    r@.len() == 0,
            ;
        }
        while pos + gs <= total
            invariant
                self.wf(),
                gs == self@.group_size,
                c == self@.confirmed.len(),
                total == c + self@.alternates.len(),
                rp == roster_pairs(self@),
                rp.len() == total,
                pos <= total,
                pos == r@.len() * gs,
                forall|g: int|
                    0 <= g < r@.len() ==> pairs_view((#[trigger] r@[g])@) == rp.subrange(
                        g * gs as int,
                        (g + 1) * gs as int,
                    ),
            decreases total - pos,
        {
            let group = self.collect_pairs(pos, pos + gs);
            let ghost glen = r@.len();
            r.push(group);
            proof {
                assert((glen + 1) * gs as int == glen * gs as int + gs as int) by (
                nonlinear_arith);
                assert forall|g: int|
                    0 <= g < r@.len() implies pairs_view((#[trigger] r@[g])@) == rp.subrange(
                    g * gs as int,
                    (g + 1) * gs as int,
                ) by {
                    if g < glen {
                        assert(r@[g] == r@.drop_last()[g]);
                    } else {
                        assert(g == glen);
                        assert(r@[g] == r@.last());
                    }
                }
            }
            pos = pos + gs;
        }
        let ghost full = r@.len();
        proof {
            assert(full == total as int / gs as int && (total - full * gs as int) == total as int
                % gs as int) by {
                vstd::arithmetic::div_mod::lemma_fundamental_div_mod_converse(
                    total as int,
                    gs as int,
                    full as int,
                    total - full * gs as int,
                );
            }
        }
        if pos < total && pos < c {
            let group = self.collect_pairs(pos, total);
            let ghost glen = r@.len();
            r.push(group);
            proof {
                assert(groups_count(self@) == full + 1);
                assert forall|g: int|
                    0 <= g < r@.len() implies pairs_view((#[trigger] r@[g])@) == rp.subrange(
                    g * gs as int,
                    if (g + 1) * gs as int <= rp.len() {
                        (g + 1) * gs as int
                    } else {
                        rp.len() as int
                    },
                ) by {
                    if g < glen {
                        assert(r@[g] == r@.drop_last()[g]);
                        assert((g + 1) * gs as int <= glen * gs as int) by (nonlinear_arith)
                            requires
                                g + 1 <= glen,
                                gs as int >= 1,
                        ;
                    } else {
                        assert(g == glen);
                        assert(r@[g] == r@.last());
                        assert((g + 1) * gs as int > rp.len()) by (nonlinear_arith)
                            requires
                                g == glen,
                                glen * gs as int == pos,
                                pos < rp.len(),
                                rp.len() < pos + gs as int,
                                gs as int >= 1,
                        ;
                    }
                }
            }
        } else {
            proof {
                if pos == total {
                    assert(groups_count(self@) == full);
                } else {
                    assert(total as int % gs as int != 0);
                    assert(pos >= c);
                    assert(groups_count(self@) == full);
                }
                assert forall|g: int|
                    0 <= g < r@.len() implies pairs_view((#[trigger] r@[g])@) == rp.subrange(
                    g * gs as int,
                    if (g + 1) * gs as int <= rp.len() {
                        (g + 1) * gs as int
                    } else {
                        rp.len() as int
                    },
                ) by {
                    assert((g + 1) * gs as int <= full * gs as int) by (nonlinear_arith)
                        requires
                            g + 1 <= full,
                            gs as int >= 1,
                    ;
                }
            }
        }
        r
    }

    /// Copies the flagged roster members in positions `[from, to)`.
    fn collect_pairs(&self, from: usize, to: usize) -> (r: Vec<(EventMember, bool)>)
        requires
            self.wf(),
            from <= to <= roster_pairs(self@).len(),
        ensures
            pairs_view(r@) == roster_pairs(self@).subrange(from as int, to as int),
    {
        let mut r: Vec<(EventMember, bool)> = Vec::new();
        let mut i = from;
        while i < to
            invariant
                self.wf(),
                from <= i <= to <= roster_pairs(self@).len(),
                pairs_view(r@) == roster_pairs(self@).subrange(from as int, i as int),
            decreases to - i,
        {
            let ghost pre = r@;
            let p = self.roster_pair_at(i);
            let ghost pv = (p.0@, p.1);
            r.push(p);
            proof {
                assert(pairs_view(pre).len() == pre.len());
                assert(roster_pairs(self@).subrange(from as int, i as int).len() == i - from);
                assert(pairs_view(r@)[i - from as int] == pv);
                assert forall|j: int| 0 <= j < i + 1 - from implies pairs_view(r@)[j]
                    == roster_pairs(self@).subrange(from as int, i + 1)[j] by {
                    if j < i - from {
                        assert(pairs_view(pre)[j] == roster_pairs(self@).subrange(
                            from as int,
                            i as int,
                        )[j]);
                        assert(pairs_view(pre)[j] == (pre[j].0@, pre[j].1));
                    }
                }
                assert(pairs_view(r@) =~= roster_pairs(self@).subrange(from as int, i + 1));
            }
            i = i + 1;
        }
        r
    }

    /// The trailing alternates beyond what fills the last partial group:
    /// shown separately as extra alternates.
    pub fn extra_alts(&self) -> (r: Vec<EventMember>)
        requires
            self.wf(),
        ensures
            members_view(r@) == self@.alternates.skip(extra_alts_skip(self@)),
    {
        let c = self.confirmed.len();
        let a = self.alternates.len();
        let total = c + a;
        let gs = self.group_size as usize;
        let partial = total % gs;
        let skip = if a >= partial {
            a - partial
        } else {
            a
        };
        proof {
            assert(self@.alternates.len() == a);
            assert(skip == extra_alts_skip(self@));
        }
        let mut r: Vec<EventMember> = Vec::new();
        let mut i = skip;
        while i < a
            invariant
                self.wf(),
                a == self@.alternates.len(),
                skip <= i <= a,
                members_view(r@) == self@.alternates.subrange(skip as int, i as int),
            decreases a - i,
        {
            let ghost pre = r@;
            let m = self.alternates[i].clone();
            proof {
                assert(members_view(self.alternates@)[i as int] == self.alternates@[i as int]@);
            }
            let ghost mv = m@;
            r.push(m);
            proof {
                assert(members_view(pre).len() == pre.len());
                assert(members_view(r@)[i - skip as int] == mv);
                assert(members_view(r@) =~= self@.alternates.subrange(skip as int, i + 1));
            }
            i = i + 1;
        }
        proof {
            assert(self@.alternates.subrange(skip as int, a as int) =~= self@.alternates.skip(
                skip as int,
            ));
        }
        r
    }
}

/// How many leading alternates are counted into the display groups rather
/// than shown as extras.
pub open spec fn extra_alts_skip(v: EventView) -> int {
    let total = v.confirmed.len() + v.alternates.len() as int;
    let partial = total % v.group_size;
    if v.alternates.len() >= partial {
        v.alternates.len() - partial
    } else {
        v.alternates.len() as int
    }
}

/// An ASCII letter.
pub open spec fn is_ascii_alpha_char(c: char) -> bool {
    (97 <= c as u32 && c as u32 <= 122) || (65 <= c as u32 && c as u32 <= 90)
}

/// A decimal digit character.
pub open spec fn is_digit_char(c: char) -> bool {
    48 <= c as u32 && c as u32 <= 57
}

/// The value of a decimal digit character.
pub open spec fn digit_char_val(c: char) -> int {
    c as u32 - 48
}

/// How many leading characters of `s` are ASCII letters.
pub open spec fn alpha_prefix_len(s: Seq<char>) -> int
    decreases s.len(),
{
    if s.len() == 0 {
        0
    } else if !is_ascii_alpha_char(s[0]) {
        0
    } else {
        1 + alpha_prefix_len(s.drop_first())
    }
}

/// The leading-letter count is the first position holding a non-letter.
proof fn lemma_alpha_prefix_len_is(s: Seq<char>, k: int)
    requires
        0 <= k <= s.len(),
        forall|j: int| 0 <= j < k ==> is_ascii_alpha_char(#[trigger] s[j]),
        k < s.len() ==> !is_ascii_alpha_char(s[k]),
    ensures
        alpha_prefix_len(s) == k,
    decreases s.len(),
{
    if k == 0 {
    } else {
        assert(is_ascii_alpha_char(s[0]));
        assert forall|j: int| 0 <= j < k - 1 implies is_ascii_alpha_char(
            #[trigger] s.drop_first()[j],
        ) by {
            assert(s.drop_first()[j] == s[j + 1]);
        }
        assert(k - 1 < s.drop_first().len() ==> !is_ascii_alpha_char(s.drop_first()[k - 1]));
        lemma_alpha_prefix_len_is(s.drop_first(), k - 1);
    }
}

/// Whether every character is a decimal digit.
pub open spec fn all_digit_chars(s: Seq<char>) -> bool {
    forall|i: int| 0 <= i < s.len() ==> is_digit_char(#[trigger] s[i])
}

/// The numeric value of a decimal digit string (leading zeroes allowed).
pub open spec fn dec_value(s: Seq<char>) -> int
    decreases s.len(),
{
    if s.len() == 0 {
        0
    } else {
        dec_value(s.drop_last()) * 10 + digit_char_val(s.last())
    }
}

/// A digit string's value is never negative.
proof fn lemma_dec_value_nonneg(s: Seq<char>)
    requires
        all_digit_chars(s),
    ensures
        dec_value(s) >= 0,
    decreases s.len(),
{
    if s.len() > 0 {
        assert forall|i: int| 0 <= i < s.drop_last().len() implies is_digit_char(
            #[trigger] s.drop_last()[i],
        ) by {
            assert(s.drop_last()[i] == s[i]);
        }
        lemma_dec_value_nonneg(s.drop_last());
        assert(is_digit_char(s[s.len() - 1]));
    }
}

/// Extending a digit string never shrinks its value.
proof fn lemma_dec_value_monotone(s: Seq<char>, j: int)
    requires
        all_digit_chars(s),
        0 <= j <= s.len(),
    ensures
        dec_value(s) >= dec_value(s.take(j)),
    decreases s.len(),
{
    if j == s.len() {
        assert(s.take(j) =~= s);
    } else {
        assert forall|i: int| 0 <= i < s.drop_last().len() implies is_digit_char(
            #[trigger] s.drop_last()[i],
        ) by {
            assert(s.drop_last()[i] == s[i]);
        }
        lemma_dec_value_monotone(s.drop_last(), j);
        assert(s.drop_last().take(j) =~= s.take(j));
        lemma_dec_value_nonneg(s.drop_last());
        assert(is_digit_char(s[s.len() - 1]));
    }
}

/// What parsing an identifier string yields: the leading letters name an
/// activity by its prefix, and the rest is the decimal sequence number.
pub open spec fn parse_id_spec(s: Seq<char>) -> Option<EventId> {
    let k = alpha_prefix_len(s);
    let digits = s.skip(k);
    if k == s.len() {
        None
    } else if !all_digit_chars(digits) {
        None
    } else if dec_value(digits) > 255 {
        None
    } else {
        match Activity::activity_of_prefix_spec(s.take(k)) {
            Some(a) => Some(EventId { activity: a, idx: dec_value(digits) as u8 }),
            None => None,
        }
    }
}

/// Whether `c` is an ASCII letter.
fn is_alpha(c: char) -> (r: bool)
    ensures
        r == is_ascii_alpha_char(c),
{
    let u = c as u32;
    (97 <= u && u <= 122) || (65 <= u && u <= 90)
}

/// The count of leading ASCII letters.
fn alpha_prefix_count(s: &str) -> (r: usize)
    ensures
        r == alpha_prefix_len(s@),
        r <= s@.len(),
{
    let len = s.unicode_len();
    let mut k: usize = 0;
    while k < len
        invariant
            len == s@.len(),
            k <= len,
            forall|j: int| 0 <= j < k ==> is_ascii_alpha_char(#[trigger] s@[j]),
        decreases len - k,
    {
        let c = s.get_char(k);
        if !is_alpha(c) {
            proof {
                lemma_alpha_prefix_len_is(s@, k as int);
            }
            return k;
        }
        k = k + 1;
    }
    proof {
        lemma_alpha_prefix_len_is(s@, len as int);
    }
    k
}

impl EventId {
    /// Parses the canonical identifier form: an activity's prefix followed
    /// by the decimal sequence number, as `id_string` renders it.
    pub fn parse(s: &str) -> (r: Option<EventId>)
        ensures
            r == parse_id_spec(s@),
    {
        let len = s.unicode_len();
        let k = alpha_prefix_count(s);
        let ghost digits = s@.skip(k as int);
        if k == len {
            return None;
        }
        let mut acc: u32 = 0;
        let mut i = k;
        while i < len
            invariant
                len == s@.len(),
                k == alpha_prefix_len(s@),
                digits == s@.skip(k as int),
                k <= i <= len,
                k < len,
                acc <= 255,
                acc == dec_value(s@.subrange(k as int, i as int)),
                forall|j: int| 0 <= j < i - k ==> is_digit_char(#[trigger] digits[j]),
            decreases len - i,
        {
            let c = s.get_char(i);
            let u = c as u32;
            if !(48 <= u && u <= 57) {
                proof {
                    assert(digits[i - k as int] == s@[i as int]);
                    assert(!is_digit_char(digits[i - k as int]));
                }
                return None;
            }
            proof {
                assert(s@.subrange(k as int, i + 1).drop_last() =~= s@.subrange(
                    k as int,
                    i as int,
                ));
                assert(s@.subrange(k as int, i + 1).last() == s@[i as int]);
                assert(digits[i - k as int] == s@[i as int]);
            }
            acc = acc * 10 + (u - 48);
            if acc > 255 {
                proof {
                    if all_digit_chars(digits) {
                        lemma_dec_value_monotone(digits, i + 1 - k as int);
                        assert(digits.take(i + 1 - k as int) =~= s@.subrange(k as int, i + 1));
                        assert(dec_value(digits) > 255);
                    }
                }
                return None;
            }
            i = i + 1;
        }
        proof {
            assert(s@.subrange(k as int, len as int) =~= digits);
            assert forall|j: int| 0 <= j < digits.len() implies is_digit_char(
                #[trigger] digits[j],
            ) by {}
        }
        let prefix = s.substring_char(0, k);
        proof {
            assert(prefix@ =~= s@.take(k as int));
        }
        match Activity::activity_with_id_prefix(prefix) {
            Some(activity) => Some(EventId { activity, idx: acc as u8 }),
            None => None,
        }
    }
}

} // verus!
