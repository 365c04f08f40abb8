//! The persisted history model and the reconciliation writer.
//!
//! The store holds the relational content the reconciliation engine
//! reads and writes: membership periods, their causes, trial periods
//! and the settings table.  `apply_events` applies one snapshot's
//! events transactionally: either every effect lands or the store is
//! left untouched, and a contradiction with the open-period invariant
//! is reported, never repaired.

use vstd::prelude::*;
use crate::domain::{Date, Event, Member, StorageError, ReconcileError};
use crate::classify::{classify, has_dup, spec_classify};

verus! {

/// One half-open interval of continuous membership for one member id.
#[derive(Clone, Copy, Debug, PartialEq)]
pub struct MembershipPeriod {
    pub nr: i32,
    pub id: i32,
    pub start: Date,
    pub end: Option<Date>,
}

/// Why a period was closed; present exactly for closed periods.
#[derive(Clone, Debug, PartialEq)]
pub struct MembershipCause {
    pub nr: i32,
    pub kicked: bool,
    pub cause: String,
}

/// A probationary interval, tracked with the same open/close
/// semantics as a membership period but without a cause.
#[derive(Clone, Copy, Debug, PartialEq)]
pub struct TrialPeriod {
    pub id: i32,
    pub start: Date,
    pub end: Option<Date>,
}

/// One row of the process-wide key/value settings table.
#[derive(Clone, Debug, PartialEq)]
pub struct Setting {
    pub key: String,
    pub value: String,
}

/// The persisted history: append-only periods with their causes,
/// trials, settings, and the next record number to assign.
#[derive(Debug)]
pub struct Store {
    pub memberships: Vec<MembershipPeriod>,
    pub causes: Vec<MembershipCause>,
    pub trials: Vec<TrialPeriod>,
    pub settings: Vec<Setting>,
    pub next_nr: i32,
}

/// Period `i` is an open period of member `id`.
pub open spec fn open_at(ms: Seq<MembershipPeriod>, i: int, id: i32) -> bool {
    0 <= i < ms.len() && ms[i].id == id && ms[i].end is None
}

/// Index of the first open period of `id` at or after `lo`, or -1.
pub open spec fn first_open_from(ms: Seq<MembershipPeriod>, id: i32, lo: int) -> int
    decreases ms.len() - lo when 0 <= lo <= ms.len()
{
    if lo < 0 || lo >= ms.len() {
        -1
    } else if open_at(ms, lo, id) {
        lo
    } else {
        first_open_from(ms, id, lo + 1)
    }
}

pub open spec fn first_open_index(ms: Seq<MembershipPeriod>, id: i32) -> int {
    first_open_from(ms, id, 0)
}

/// The member currently has an open period.
pub open spec fn has_open(ms: Seq<MembershipPeriod>, id: i32) -> bool {
    exists|i: int| open_at(ms, i, id)
}

pub proof fn lemma_first_open_props(ms: Seq<MembershipPeriod>, id: i32, lo: int)
    requires
        0 <= lo <= ms.len(),
    ensures
        ({
            let r = first_open_from(ms, id, lo);
            &&& (r == -1 || (lo <= r < ms.len() && open_at(ms, r, id)))
            &&& (r == -1 ==> forall|q: int| lo <= q < ms.len() ==> !open_at(ms, q, id))
            &&& (forall|q: int| lo <= q < r ==> !open_at(ms, q, id))
        }),
    decreases ms.len() - lo,
{
    if lo < ms.len() && !open_at(ms, lo, id) {
        lemma_first_open_props(ms, id, lo + 1);
    } else if lo < ms.len() {
        lemma_first_open_props(ms, id, lo + 1);
    }
}

/// The open member ids, in store order.
pub open spec fn open_ids_of(ms: Seq<MembershipPeriod>) -> Seq<i32>
    decreases ms.len(),
{
    if ms.len() == 0 {
        Seq::empty()
    } else {
        let rest = open_ids_of(ms.drop_last());
        if ms.last().end is None {
            rest.push(ms.last().id)
        } else {
            rest
        }
    }
}

/// The writer's working state while one snapshot's events apply: the
/// evolving periods, the next free record number, and the record
/// numbers closed so far (each will receive a pending cause).
#[verifier::ext_equal]
pub struct ApplyState {
    pub ms: Seq<MembershipPeriod>,
    pub next_nr: int,
    pub closed: Seq<i32>,
}

/// One event against the working state.  A join of an id that is
/// already open, a leave of an id that is not open exactly once, and a
/// close date before the open date are invariant violations; record
/// number exhaustion is reported separately.  A continue changes
/// nothing.
pub open spec fn spec_apply_one(st: ApplyState, ev: Event, date: Date) -> Result<
    ApplyState,
    StorageError,
> {
    match ev {
        Event::Join(id) => {
            if first_open_index(st.ms, id) >= 0 {
                Err(StorageError::InvariantViolation)
            } else if st.next_nr >= i32::MAX {
                Err(StorageError::NrExhausted)
            } else {
                Ok(
                    ApplyState {
                        ms: st.ms.push(
                            MembershipPeriod {
                                nr: st.next_nr as i32,
                                id,
                                start: date,
                                end: None,
                            },
                        ),
                        next_nr: st.next_nr + 1,
                        closed: st.closed,
                    },
                )
            }
        },
        Event::Continue(_) => Ok(st),
        Event::Leave(id) => {
            let i = first_open_index(st.ms, id);
            if i == -1 {
                Err(StorageError::InvariantViolation)
            } else if exists|j: int| j != i && open_at(st.ms, j, id) {
                Err(StorageError::InvariantViolation)
            } else if date.day < st.ms[i].start.day {
                Err(StorageError::InvariantViolation)
            } else {
                Ok(
                    ApplyState {
                        ms: st.ms.update(
                            i,
                            MembershipPeriod {
                                nr: st.ms[i].nr,
                                id: st.ms[i].id,
                                start: st.ms[i].start,
                                end: Some(date),
                            },
                        ),
                        next_nr: st.next_nr,
                        closed: st.closed.push(st.ms[i].nr),
                    },
                )
            }
        },
    }
}

/// The whole event list, applied left to right; the first failure
/// aborts the transaction.
pub open spec fn spec_apply(st: ApplyState, events: Seq<Event>, date: Date) -> Result<
    ApplyState,
    StorageError,
>
    decreases events.len(),
{
    if events.len() == 0 {
        Ok(st)
    } else {
        match spec_apply_one(st, events[0], date) {
            Ok(st2) => spec_apply(st2, events.subrange(1, events.len() as int), date),
            Err(e) => Err(e),
        }
    }
}

/// The view of the cause text attached to a close that no external
/// classification has resolved yet.
pub open spec fn pending_cause_text() -> Seq<char> {
    "pending"@
}

/// The initial working state of one transaction over a store.
pub open spec fn init_state(s: Store) -> ApplyState {
    ApplyState { ms: s.memberships@, next_nr: s.next_nr as int, closed: Seq::empty() }
}

/// How a store after a committed transaction relates to the store
/// before it: periods and next number as computed by `spec_apply`, one
/// pending, not-kicked cause appended per closed record number, and
/// trials and settings untouched.
pub open spec fn committed(pre: Store, post: Store, events: Seq<Event>, date: Date) -> bool {
    let out = spec_apply(init_state(pre), events, date);
    &&& out is Ok
    &&& post.memberships@ == out->Ok_0.ms
    &&& post.next_nr == out->Ok_0.next_nr
    &&& post.trials@ == pre.trials@
    &&& post.settings@ == pre.settings@
    &&& post.causes@.len() == pre.causes@.len() + out->Ok_0.closed.len()
    &&& (forall|k: int| 0 <= k < pre.causes@.len() ==> post.causes@[k] == pre.causes@[k])
    &&& (forall|k: int|
        0 <= k < out->Ok_0.closed.len() ==> {
            let c = post.causes@[pre.causes@.len() + k];
            c.nr == #[trigger] out->Ok_0.closed[k] && c.kicked == false && c.cause@
                == pending_cause_text()
        })
}

fn first_open_exec(ms: &Vec<MembershipPeriod>, id: i32) -> (r: Option<usize>)
    ensures
        match r {
            None => first_open_index(ms@, id) == -1,
            Some(i) => first_open_index(ms@, id) == i,
        },
{
    let mut k: usize = 0;
    while k < ms.len()
        invariant
            k <= ms.len(),
            forall|q: int| 0 <= q < k ==> !open_at(ms@, q, id),
        decreases ms.len() - k,
    {
        if ms[k].id == id && ms[k].end.is_none() {
            assert(open_at(ms@, k as int, id));
            proof {
                lemma_first_open_props(ms@, id, 0);
                let fm = first_open_index(ms@, id);
                if fm >= 0 {
                    assert(open_at(ms@, fm, id));
                }
            }
            return Some(k);
        }
        k += 1;
    }
    proof {
        lemma_first_open_props(ms@, id, 0);
        let fm = first_open_index(ms@, id);
        if fm >= 0 {
            assert(open_at(ms@, fm, id));
        }
    }
    None
}

fn another_open_exec(ms: &Vec<MembershipPeriod>, id: i32, skip: usize) -> (b: bool)
    ensures
        b == exists|j: int| j != skip && open_at(ms@, j, id),
{
    let mut k: usize = 0;
    while k < ms.len()
        invariant
            k <= ms.len(),
            forall|q: int| 0 <= q < k && q != skip ==> !open_at(ms@, q, id),
        decreases ms.len() - k,
    {
        if k != skip && ms[k].id == id && ms[k].end.is_none() {
            assert(open_at(ms@, k as int, id));
            return true;
        }
        k += 1;
    }
    false
}

fn copy_periods(v: &Vec<MembershipPeriod>) -> (r: Vec<MembershipPeriod>)
    ensures
        r@ == v@,
{
    let mut r: Vec<MembershipPeriod> = Vec::new();
    let mut k: usize = 0;
    while k < v.len()
        invariant
            k <= v.len(),
            r@ == v@.subrange(0, k as int),
        decreases v.len() - k,
    {
        r.push(v[k]);
        proof {
            assert(v@.subrange(0, (k + 1) as int).drop_last() =~= v@.subrange(0, k as int));
            assert(r@ =~= v@.subrange(0, (k + 1) as int));
        }
        k += 1;
    }
    assert(v@.subrange(0, v@.len() as int) =~= v@);
    r
}

/// The open member ids of the store, in store order.
pub fn open_member_ids(store: &Store) -> (r: Vec<i32>)
    ensures
        r@ == open_ids_of(store.memberships@),
{
    let mut r: Vec<i32> = Vec::new();
    let mut k: usize = 0;
    while k < store.memberships.len()
        invariant
            k <= store.memberships.len(),
            r@ == open_ids_of(store.memberships@.subrange(0, k as int)),
        decreases store.memberships.len() - k,
    {
        proof {
            assert(store.memberships@.subrange(0, (k + 1) as int).drop_last()
                =~= store.memberships@.subrange(0, k as int));
            assert(store.memberships@.subrange(0, (k + 1) as int).last() == store.memberships@[
                k as int
            ]);
        }
        if store.memberships[k].end.is_none() {
            r.push(store.memberships[k].id);
        }
        k += 1;
    }
    assert(store.memberships@.subrange(0, store.memberships@.len() as int)
        =~= store.memberships@);
    r
}

/// Apply one snapshot's events in one transaction: on success every
/// effect lands, on failure the store is untouched and the first
/// violation is reported.
#[verifier::loop_isolation(false)]
pub fn apply_events(store: &mut Store, events: &Vec<Event>, date: Date) -> (r: Result<
    (),
    StorageError,
>)
    ensures
        match r {
            Ok(_) => committed(*old(store), *final(store), events@, date),
            Err(e) => spec_apply(init_state(*old(store)), events@, date) == Err::<
                ApplyState,
                StorageError,
            >(e) && *final(store) == *old(store),
        },
{
    let mut ms = copy_periods(&store.memberships);
    let mut next_nr: i32 = store.next_nr;
    let mut closed: Vec<i32> = Vec::new();
    let ghost st0 = init_state(*store);
    proof {
        assert(events@.subrange(0, events@.len() as int) =~= events@);
        assert(closed@ =~= Seq::<i32>::empty());
        assert(ApplyState { ms: ms@, next_nr: next_nr as int, closed: closed@ } =~= st0);
    }
    let mut k: usize = 0;
    while k < events.len()
        invariant
            k <= events.len(),
            spec_apply(st0, events@, date) == spec_apply(
                ApplyState { ms: ms@, next_nr: next_nr as int, closed: closed@ },
                events@.subrange(k as int, events@.len() as int),
                date,
            ),
        decreases events.len() - k,
    {
        let ghost pre_st = ApplyState { ms: ms@, next_nr: next_nr as int, closed: closed@ };
        let ghost rest = events@.subrange(k as int, events@.len() as int);
        proof {
            assert(rest[0] == events@[k as int]);
            assert(rest.subrange(1, rest.len() as int) =~= events@.subrange(
                (k + 1) as int,
                events@.len() as int,
            ));
        }
        let ev = events[k];
        match ev {
            Event::Join(id) => {
                match first_open_exec(&ms, id) {
                    Some(_) => {
                        proof {
                            assert(spec_apply(st0, events@, date) == Err::<
                                ApplyState,
                                StorageError,
                            >(StorageError::InvariantViolation));
                        }
                        return Err(StorageError::InvariantViolation);
                    },
                    None => {
                        if next_nr == i32::MAX {
                            proof {
                                assert(spec_apply(st0, events@, date) == Err::<
                                    ApplyState,
                                    StorageError,
                                >(StorageError::NrExhausted));
                            }
                            return Err(StorageError::NrExhausted);
                        }
                        ms.push(MembershipPeriod { nr: next_nr, id, start: date, end: None });
                        next_nr = next_nr + 1;
                        proof {
                            assert(spec_apply_one(pre_st, events@[k as int], date) matches Ok(st2)
                                && st2 =~= (ApplyState {
                                ms: ms@,
                                next_nr: next_nr as int,
                                closed: closed@,
                            }));
                        }
                    },
                }
            },
            Event::Continue(_) => {},
            Event::Leave(id) => {
                match first_open_exec(&ms, id) {
                    None => {
                        proof {
                            assert(spec_apply(st0, events@, date) == Err::<
                                ApplyState,
                                StorageError,
                            >(StorageError::InvariantViolation));
                        }
                        return Err(StorageError::InvariantViolation);
                    },
                    Some(i) => {
                        if another_open_exec(&ms, id, i) {
                            proof {
                                assert(spec_apply(st0, events@, date) == Err::<
                                    ApplyState,
                                    StorageError,
                                >(StorageError::InvariantViolation));
                            }
                            return Err(StorageError::InvariantViolation);
                        }
                        proof {
                            lemma_first_open_props(ms@, id, 0);
                        }
                        let p = ms[i];
                        if date.day < p.start.day {
                            proof {
                                assert(spec_apply(st0, events@, date) == Err::<
                                    ApplyState,
                                    StorageError,
                                >(StorageError::InvariantViolation));
                            }
                            return Err(StorageError::InvariantViolation);
                        }
                        ms.set(
                            i,
                            MembershipPeriod { nr: p.nr, id: p.id, start: p.start, end: Some(date) },
                        );
                        closed.push(p.nr);
                        proof {
                            assert(spec_apply_one(pre_st, events@[k as int], date) matches Ok(st2)
                                && st2 =~= (ApplyState {
                                ms: ms@,
                                next_nr: next_nr as int,
                                closed: closed@,
                            }));
                        }
                    },
                }
            },
        }
        k += 1;
    }
    proof {
        assert(events@.subrange(events@.len() as int, events@.len() as int).len() == 0);
        assert(spec_apply(st0, events@, date) matches Ok(st2) && st2 =~= (ApplyState {
            ms: ms@,
            next_nr: next_nr as int,
            closed: closed@,
        }));
    }
    store.memberships = ms;
    store.next_nr = next_nr;
    let ghost mid = *store;
    let ghost pre_causes = store.causes@;
    let mut c: usize = 0;
    while c < closed.len()
        invariant
            c <= closed.len(),
            store.causes@.len() == pre_causes.len() + c,
            forall|k: int| 0 <= k < pre_causes.len() ==> store.causes@[k] == pre_causes[k],
            forall|k: int|
                0 <= k < c ==> {
                    let cc = store.causes@[pre_causes.len() + k];
                    cc.nr == #[trigger] closed@[k] && cc.kicked == false && cc.cause@
                        == pending_cause_text()
                },
            store.memberships@ == mid.memberships@,
            store.next_nr == mid.next_nr,
            store.trials@ == mid.trials@,
            store.settings@ == mid.settings@,
        decreases closed.len() - c,
    {
        let text = "pending".to_owned();
        store.causes.push(MembershipCause { nr: closed[c], kicked: false, cause: text });
        c += 1;
    }
    Ok(())
}

/// One reconciliation round: classify the snapshot against the open
/// ids as of now, then commit the events in one transaction.  On any
/// error the store is untouched.
pub fn reconcile(store: &mut Store, snapshot: &Vec<Member>, date: Date) -> (r: Result<
    Vec<Event>,
    ReconcileError,
>)
    ensures
        ({
            let open = open_ids_of(old(store).memberships@);
            let evs = spec_classify(snapshot@, open);
            match r {
                Ok(events) => !has_dup(snapshot@) && events@ == evs && committed(
                    *old(store),
                    *final(store),
                    evs,
                    date,
                ),
                Err(ReconcileError::Ambiguous(_)) => has_dup(snapshot@) && *final(store) == *old(
                    store,
                ),
                Err(ReconcileError::Storage(e)) => !has_dup(snapshot@) && spec_apply(
                    init_state(*old(store)),
                    evs,
                    date,
                ) == Err::<ApplyState, StorageError>(e) && *final(store) == *old(store),
            }
        }),
{
    let open = open_member_ids(store);
    let events = match classify(snapshot, &open) {
        Ok(evs) => evs,
        Err(e) => {
            return Err(ReconcileError::Ambiguous(e));
        },
    };
    match apply_events(store, &events, date) {
        Ok(_) => Ok(events),
        Err(e) => Err(ReconcileError::Storage(e)),
    }
}

} // verus!
