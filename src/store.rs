//! Reminders and the store that holds them until their trigger time has
//! passed. A reminder is due when its trigger time is strictly earlier than
//! the instant it is asked about; the due query and the cleanup use the same
//! comparison, so a cleanup removes exactly what the due query found.

use vstd::prelude::*;
use crate::timestamp::Timestamp;

verus! {

/// A reminder as it is stored: who asked, where, for what, and when.
#[derive(Debug)]
pub struct Reminder {
    /// Given by the store on creation; `None` before.
    pub id: Option<i32>,
    pub user_id: String,
    pub message_id: String,
    pub message_content: String,
    pub trigger_time: Timestamp,
    pub channel_id: String,
}

/// The value of a reminder.
pub struct ReminderModel {
    pub id: Option<i32>,
    pub user_id: Seq<char>,
    pub message_id: Seq<char>,
    pub message_content: Seq<char>,
    pub trigger_time: Timestamp,
    pub channel_id: Seq<char>,
}

impl View for Reminder {
    type V = ReminderModel;

    open spec fn view(&self) -> ReminderModel {
        ReminderModel {
            id: self.id,
            user_id: self.user_id@,
            message_id: self.message_id@,
            message_content: self.message_content@,
            trigger_time: self.trigger_time,
            channel_id: self.channel_id@,
        }
    }
}

/// The same reminder with the given identity.
pub open spec fn with_identity(m: ReminderModel, id: i32) -> ReminderModel {
    ReminderModel { id: Some(id), ..m }
}

/// Two reminders that agree on every field but the identity.
pub open spec fn same_fields(a: ReminderModel, b: ReminderModel) -> bool {
    a.user_id == b.user_id && a.message_id == b.message_id && a.message_content
        == b.message_content && a.trigger_time == b.trigger_time && a.channel_id == b.channel_id
}

pub open spec fn is_due(r: ReminderModel, now: Timestamp) -> bool {
    r.trigger_time.micros < now.micros
}

/// The reminders of `s` that are due at `now`, in their order in `s`.
pub open spec fn due_in(s: Seq<ReminderModel>, now: Timestamp) -> Seq<ReminderModel>
    decreases s.len(),
{
    if s.len() == 0 {
        Seq::empty()
    } else if is_due(s.last(), now) {
        due_in(s.drop_last(), now).push(s.last())
    } else {
        due_in(s.drop_last(), now)
    }
}

/// The reminders of `s` that are not yet due at `now`, in their order in `s`.
pub open spec fn pending_in(s: Seq<ReminderModel>, now: Timestamp) -> Seq<ReminderModel>
    decreases s.len(),
{
    if s.len() == 0 {
        Seq::empty()
    } else if is_due(s.last(), now) {
        pending_in(s.drop_last(), now)
    } else {
        pending_in(s.drop_last(), now).push(s.last())
    }
}

/// Every reminder has an identity below `next`, and identities increase
/// along the sequence, so that no two are equal.
pub open spec fn identities_ordered(s: Seq<ReminderModel>, next: int) -> bool {
    1 <= next <= i32::MAX && (forall|i: int|
        0 <= i < s.len() ==> (#[trigger] s[i]).id is Some && 1 <= s[i].id->0 < next) && (forall|
        i: int,
        j: int,
    | 0 <= i < j < s.len() ==> (#[trigger] s[i]).id->0 < (#[trigger] s[j]).id->0)
}

/// Asking twice for what is due at `now`, with no change to the store in
/// between, gives the same reminders in the same order.
pub proof fn lemma_find_due_repeatable(
    s: Seq<ReminderModel>,
    now: Timestamp,
    first: Seq<ReminderModel>,
    second: Seq<ReminderModel>,
)
    requires
        first == due_in(s, now),
        second == due_in(s, now),
    ensures
        first == second,
        first.to_set() == second.to_set(),
{
}

/// A reminder that was created and has come due is found again with every
/// field as it was given, beside the identity that creation gave it.
pub proof fn lemma_round_trip(
    before: Seq<ReminderModel>,
    candidate: ReminderModel,
    id: i32,
    now: Timestamp,
)
    requires
        is_due(candidate, now),
    ensures
        due_in(before.push(with_identity(candidate, id)), now) == due_in(before, now).push(
            with_identity(candidate, id),
        ),
        same_fields(due_in(before.push(with_identity(candidate, id)), now).last(), candidate),
        due_in(before.push(with_identity(candidate, id)), now).last().id == Some(id),
{
    let s = before.push(with_identity(candidate, id));
    assert(s.drop_last() =~= before);
}

/// Nothing that remains after removing what is due at `now` is due.
proof fn lemma_pending_not_due(s: Seq<ReminderModel>, now: Timestamp)
    ensures
        forall|k: int|
            0 <= k < pending_in(s, now).len() ==> !is_due(#[trigger] pending_in(s, now)[k], now),
        pending_in(s, now).len() <= s.len(),
    decreases s.len(),
{
    if s.len() > 0 {
        lemma_pending_not_due(s.drop_last(), now);
    }
}

/// Nothing is due among reminders none of which is due.
proof fn lemma_due_in_none_due(s: Seq<ReminderModel>, now: Timestamp)
    requires
        forall|k: int| 0 <= k < s.len() ==> !is_due(#[trigger] s[k], now),
    ensures
        due_in(s, now) == Seq::<ReminderModel>::empty(),
    decreases s.len(),
{
    if s.len() > 0 {
        assert(!is_due(s[s.len() - 1], now));
        lemma_due_in_none_due(s.drop_last(), now);
    }
}

/// After the reminders due at `now` are removed, none is found due at `now`.
pub proof fn lemma_cleanup_leaves_nothing_due(s: Seq<ReminderModel>, now: Timestamp)
    ensures
        due_in(pending_in(s, now), now) == Seq::<ReminderModel>::empty(),
{
    lemma_pending_not_due(s, now);
    lemma_due_in_none_due(pending_in(s, now), now);
}

/// A reminder of `s` is found by the due query when it is due, and is kept
/// by the cleanup when it is not.
pub proof fn lemma_membership(s: Seq<ReminderModel>, now: Timestamp, i: int)
    requires
        0 <= i < s.len(),
    ensures
        is_due(s[i], now) ==> due_in(s, now).contains(s[i]),
        !is_due(s[i], now) ==> pending_in(s, now).contains(s[i]),
        is_due(s[i], now) ==> !pending_in(s, now).contains(s[i]),
    decreases s.len(),
{
    lemma_pending_not_due(s, now);
    if i == s.len() - 1 {
        if is_due(s[i], now) {
            assert(due_in(s, now).last() == s[i]);
        } else {
            assert(pending_in(s, now).last() == s[i]);
        }
    } else {
        lemma_membership(s.drop_last(), now, i);
        assert(s.drop_last()[i] == s[i]);
        if is_due(s[i], now) {
            let d = due_in(s.drop_last(), now);
            let j = choose|j: int| 0 <= j < d.len() && d[j] == s[i];
            if is_due(s.last(), now) {
                assert(due_in(s, now)[j] == s[i]);
            }
        } else {
            let d = pending_in(s.drop_last(), now);
            let j = choose|j: int| 0 <= j < d.len() && d[j] == s[i];
            if !is_due(s.last(), now) {
                assert(pending_in(s, now)[j] == s[i]);
            }
        }
    }
}

/// Two reminders held by a well-formed store, however close in time they
/// were created, have distinct identities; each is found by the due query
/// once due and removed by the cleanup only once due, whatever the other is.
pub proof fn lemma_distinct_reminders(store: ReminderStore, i: int, j: int, now: Timestamp)
    requires
        store.wf(),
        0 <= i < store@.len(),
        0 <= j < store@.len(),
        i != j,
    ensures
        store@[i].id != store@[j].id,
        is_due(store@[i], now) ==> due_in(store@, now).contains(store@[i]),
        is_due(store@[i], now) ==> !pending_in(store@, now).contains(store@[i]),
        !is_due(store@[i], now) ==> pending_in(store@, now).contains(store@[i]),
        is_due(store@[j], now) ==> due_in(store@, now).contains(store@[j]),
        is_due(store@[j], now) ==> !pending_in(store@, now).contains(store@[j]),
        !is_due(store@[j], now) ==> pending_in(store@, now).contains(store@[j]),
{
    if i < j {
        assert(store@[i].id->0 < store@[j].id->0);
    } else {
        assert(store@[j].id->0 < store@[i].id->0);
    }
    lemma_membership(store@, now, i);
    lemma_membership(store@, now, j);
}

/// Why the store refused a reminder.
#[derive(Clone, Copy, Debug, PartialEq, Eq, Structural)]
pub enum StoreError {
    /// Every identity that the store can give has been given.
    IdentitiesExhausted,
}

/// A copy of a reminder.
pub fn copy_reminder(r: &Reminder) -> (c: Reminder)
    ensures
        c@ == r@,
{
    Reminder {
        id: r.id,
        user_id: r.user_id.clone(),
        message_id: r.message_id.clone(),
        message_content: r.message_content.clone(),
        trigger_time: r.trigger_time,
        channel_id: r.channel_id.clone(),
    }
}

/// Reminders in the order of their creation.
pub struct ReminderStore {
    records: Vec<Reminder>,
    next_id: i32,
}

impl View for ReminderStore {
    type V = Seq<ReminderModel>;

    closed spec fn view(&self) -> Seq<ReminderModel> {
        self.records@.map_values(|r: Reminder| r@)
    }
}

impl ReminderStore {
    /// The identity that the next creation gives.
    pub closed spec fn next_identity(&self) -> int {
        self.next_id as int
    }

    pub open spec fn wf(&self) -> bool {
        identities_ordered(self@, self.next_identity())
    }

    pub fn new() -> (r: ReminderStore)
        ensures
            r.wf(),
            r@ == Seq::<ReminderModel>::empty(),
            r.next_identity() == 1,
    {
        let r = ReminderStore { records: Vec::new(), next_id: 1 };
        assert(r@ =~= Seq::<ReminderModel>::empty());
        r
    }

    pub fn len(&self) -> (r: usize)
        ensures
            r == self@.len(),
    {
        self.records.len()
    }

    /// Stores a reminder under a new identity and returns the stored record.
    /// Any identity that `candidate` holds is replaced.
    pub fn create(&mut self, candidate: Reminder) -> (r: Result<Reminder, StoreError>)
        requires
            old(self).wf(),
        ensures
            final(self).wf(),
            old(self).next_identity() < i32::MAX <==> r is Ok,
            match r {
                Ok(rec) => {
                    &&& rec@ == with_identity(candidate@, old(self).next_identity() as i32)
                    &&& final(self)@ == old(self)@.push(rec@)
                    &&& final(self).next_identity() == old(self).next_identity() + 1
                },
                Err(e) => {
                    &&& e == StoreError::IdentitiesExhausted
                    &&& final(self)@ == old(self)@
                    &&& final(self).next_identity() == old(self).next_identity()
                },
            },
    {
        if self.next_id == i32::MAX {
            return Err(StoreError::IdentitiesExhausted);
        }
        let rec = Reminder { id: Some(self.next_id), ..candidate };
        let stored = copy_reminder(&rec);
        let ghost before = self.records@;
        self.records.push(stored);
        self.next_id = self.next_id + 1;
        assert(self.records@.map_values(|r: Reminder| r@) =~= before.map_values(|r: Reminder| r@).push(
            rec@,
        ));
        Ok(rec)
    }

    /// Every reminder that is due at `now`, in the order of creation.
    pub fn find_due(&self, now: Timestamp) -> (r: Vec<Reminder>)
        ensures
            r@.map_values(|x: Reminder| x@) == due_in(self@, now),
    {
        let mut found: Vec<Reminder> = Vec::new();
        let mut i: usize = 0;
        while i < self.records.len()
            invariant
                i <= self.records@.len(),
                found@.map_values(|x: Reminder| x@) == due_in(self@.subrange(0, i as int), now),
            decreases self.records@.len() - i,
        {
            let ghost before = found@;
            let ghost s = self@;
            assert(s.subrange(0, i + 1).drop_last() =~= s.subrange(0, i as int));
            if self.records[i].trigger_time.micros < now.micros {
                found.push(copy_reminder(&self.records[i]));
                assert(found@.map_values(|x: Reminder| x@) =~= before.map_values(|x: Reminder| x@).push(
                    s[i as int],
                ));
            }
            i = i + 1;
        }
        assert(self@.subrange(0, self.records@.len() as int) =~= self@);
        found
    }

    /// Removes every reminder that is due at `now`; returns how many left.
    pub fn delete_due(&mut self, now: Timestamp) -> (r: usize)
        requires
            old(self).wf(),
        ensures
            final(self).wf(),
            final(self)@ == pending_in(old(self)@, now),
            final(self).next_identity() == old(self).next_identity(),
            r == old(self)@.len() - final(self)@.len(),
    {
        let ghost s = self@;
        let mut kept: Vec<Reminder> = Vec::new();
        let mut i: usize = 0;
        while i < self.records.len()
            invariant
                i <= self.records@.len(),
                s == self@,
                self.wf(),
                kept@.len() <= i,
                kept@.map_values(|x: Reminder| x@) == pending_in(s.subrange(0, i as int), now),
                forall|m: int|
                    0 <= m < kept@.len() ==> (#[trigger] kept@[m]).id is Some && 1 <= kept@[m].id->0
                        < self.next_identity(),
                forall|m: int, k: int|
                    0 <= m < kept@.len() && i <= k < s.len() ==> (#[trigger] kept@[m]).id->0 < (
                    #[trigger] s[k]).id->0,
                forall|m1: int, m2: int|
                    0 <= m1 < m2 < kept@.len() ==> (#[trigger] kept@[m1]).id->0 < (
                    #[trigger] kept@[m2]).id->0,
            decreases self.records@.len() - i,
        {
            let ghost before = kept@;
            assert(s.subrange(0, i + 1).drop_last() =~= s.subrange(0, i as int));
            assert(s[i as int] == self.records@[i as int]@);
            if !(self.records[i].trigger_time.micros < now.micros) {
                kept.push(copy_reminder(&self.records[i]));
                assert(kept@.map_values(|x: Reminder| x@) =~= before.map_values(|x: Reminder| x@).push(
                    s[i as int],
                ));
                assert forall|m: int, k: int|
                    0 <= m < kept@.len() && i + 1 <= k < s.len() implies (
                    #[trigger] kept@[m]).id->0 < (#[trigger] s[k]).id->0 by {
                    if m < before.len() {
                        assert(before[m] == kept@[m]);
                        assert(s[i as int].id->0 < s[k].id->0);
                    }
                }
                assert forall|m1: int, m2: int|
                    0 <= m1 < m2 < kept@.len() implies (#[trigger] kept@[m1]).id->0 < (
                    #[trigger] kept@[m2]).id->0 by {
                    if m2 == before.len() {
                        assert(before[m1] == kept@[m1]);
                    } else {
                        assert(before[m1] == kept@[m1]);
                        assert(before[m2] == kept@[m2]);
                    }
                }
            }
            i = i + 1;
        }
        assert(s.subrange(0, s.len() as int) =~= s);
        let removed = self.records.len() - kept.len();
        self.records = kept;
        removed
    }
}

} // verus!
