//! Trial periods: the same open/close transition table as full
//! membership, applied to the trial table, independently of the
//! membership classification and without causes.

use vstd::prelude::*;
use crate::domain::{Date, Event, Member, ReconcileError, StorageError};
use crate::classify::{classify, has_dup, spec_classify};
use crate::store::{Store, TrialPeriod};

verus! {

/// Trial `i` is an open trial of member `id`.
pub open spec fn trial_open_at(ts: Seq<TrialPeriod>, i: int, id: i32) -> bool {
    0 <= i < ts.len() && ts[i].id == id && ts[i].end is None
}

/// Index of the first open trial of `id` at or after `lo`, or -1.
pub open spec fn first_open_trial_from(ts: Seq<TrialPeriod>, id: i32, lo: int) -> int
    decreases ts.len() - lo when 0 <= lo <= ts.len()
{
    if lo < 0 || lo >= ts.len() {
        -1
    } else if trial_open_at(ts, lo, id) {
        lo
    } else {
        first_open_trial_from(ts, id, lo + 1)
    }
}

pub open spec fn first_open_trial(ts: Seq<TrialPeriod>, id: i32) -> int {
    first_open_trial_from(ts, id, 0)
}

pub proof fn lemma_first_open_trial_props(ts: Seq<TrialPeriod>, id: i32, lo: int)
    requires
        0 <= lo <= ts.len(),
    ensures
        ({
            let r = first_open_trial_from(ts, id, lo);
            &&& (r == -1 || (lo <= r < ts.len() && trial_open_at(ts, r, id)))
            &&& (r == -1 ==> forall|q: int| lo <= q < ts.len() ==> !trial_open_at(ts, q, id))
            &&& (forall|q: int| lo <= q < r ==> !trial_open_at(ts, q, id))
        }),
    decreases ts.len() - lo,
{
    if lo < ts.len() {
        lemma_first_open_trial_props(ts, id, lo + 1);
    }
}

/// The member ids with an open trial, in store order.
pub open spec fn open_trial_ids_of(ts: Seq<TrialPeriod>) -> Seq<i32>
    decreases ts.len(),
{
    if ts.len() == 0 {
        Seq::empty()
    } else {
        let rest = open_trial_ids_of(ts.drop_last());
        if ts.last().end is None {
            rest.push(ts.last().id)
        } else {
            rest
        }
    }
}

/// One event against the trial table: open on join, close on leave,
/// nothing on continue; a doubled open trial or a close before the
/// opening day is a violation, never repaired.
pub open spec fn spec_apply_trial_one(ts: Seq<TrialPeriod>, ev: Event, date: Date) -> Result<
    Seq<TrialPeriod>,
    StorageError,
> {
    match ev {
        Event::Join(id) => {
            if first_open_trial(ts, id) >= 0 {
                Err(StorageError::InvariantViolation)
            } else {
                Ok(ts.push(TrialPeriod { id, start: date, end: None }))
            }
        },
        Event::Continue(_) => Ok(ts),
        Event::Leave(id) => {
            let i = first_open_trial(ts, id);
            if i == -1 {
                Err(StorageError::InvariantViolation)
            } else if exists|j: int| j != i && trial_open_at(ts, j, id) {
                Err(StorageError::InvariantViolation)
            } else if date.day < ts[i].start.day {
                Err(StorageError::InvariantViolation)
            } else {
                Ok(ts.update(i, TrialPeriod { id: ts[i].id, start: ts[i].start, end: Some(date) }))
            }
        },
    }
}

/// The whole event list against the trial table, left to right.
pub open spec fn spec_apply_trials(ts: Seq<TrialPeriod>, events: Seq<Event>, date: Date) -> Result<
    Seq<TrialPeriod>,
    StorageError,
>
    decreases events.len(),
{
    if events.len() == 0 {
        Ok(ts)
    } else {
        match spec_apply_trial_one(ts, events[0], date) {
            Ok(ts2) => spec_apply_trials(ts2, events.subrange(1, events.len() as int), date),
            Err(e) => Err(e),
        }
    }
}

/// The open trial ids of the store, in store order.
pub fn open_trial_ids(store: &Store) -> (r: Vec<i32>)
    ensures
        r@ == open_trial_ids_of(store.trials@),
{
    let mut r: Vec<i32> = Vec::new();
    let mut k: usize = 0;
    while k < store.trials.len()
        invariant
            k <= store.trials.len(),
            r@ == open_trial_ids_of(store.trials@.subrange(0, k as int)),
        decreases store.trials.len() - k,
    {
        proof {
            assert(store.trials@.subrange(0, (k + 1) as int).drop_last() =~= store.trials@.subrange(
                0,
                k as int,
            ));
            assert(store.trials@.subrange(0, (k + 1) as int).last() == store.trials@[k as int]);
        }
        if store.trials[k].end.is_none() {
            r.push(store.trials[k].id);
        }
        k += 1;
    }
    assert(store.trials@.subrange(0, store.trials@.len() as int) =~= store.trials@);
    r
}

fn first_open_trial_exec(ts: &Vec<TrialPeriod>, id: i32) -> (r: Option<usize>)
    ensures
        match r {
            None => first_open_trial(ts@, id) == -1,
            Some(i) => first_open_trial(ts@, id) == i,
        },
{
    let mut k: usize = 0;
    while k < ts.len()
        invariant
            k <= ts.len(),
            forall|q: int| 0 <= q < k ==> !trial_open_at(ts@, q, id),
        decreases ts.len() - k,
    {
        if ts[k].id == id && ts[k].end.is_none() {
            assert(trial_open_at(ts@, k as int, id));
            proof {
                lemma_first_open_trial_props(ts@, id, 0);
                let fm = first_open_trial(ts@, id);
                if fm >= 0 {
                    assert(trial_open_at(ts@, fm, id));
                }
            }
            return Some(k);
        }
        k += 1;
    }
    proof {
        lemma_first_open_trial_props(ts@, id, 0);
        let fm = first_open_trial(ts@, id);
        if fm >= 0 {
            assert(trial_open_at(ts@, fm, id));
        }
    }
    None
}

fn another_open_trial_exec(ts: &Vec<TrialPeriod>, id: i32, skip: usize) -> (b: bool)
    ensures
        b == exists|j: int| j != skip && trial_open_at(ts@, j, id),
{
    let mut k: usize = 0;
    while k < ts.len()
        invariant
            k <= ts.len(),
            forall|q: int| 0 <= q < k && q != skip ==> !trial_open_at(ts@, q, id),
        decreases ts.len() - k,
    {
        if k != skip && ts[k].id == id && ts[k].end.is_none() {
            assert(trial_open_at(ts@, k as int, id));
            return true;
        }
        k += 1;
    }
    false
}

fn copy_trials(v: &Vec<TrialPeriod>) -> (r: Vec<TrialPeriod>)
    ensures
        r@ == v@,
{
    let mut r: Vec<TrialPeriod> = Vec::new();
    let mut k: usize = 0;
    while k < v.len()
        invariant
            k <= v.len(),
            r@ == v@.subrange(0, k as int),
        decreases v.len() - k,
    {
        r.push(v[k]);
        proof {
            assert(r@ =~= v@.subrange(0, (k + 1) as int));
        }
        k += 1;
    }
    assert(v@.subrange(0, v@.len() as int) =~= v@);
    r
}

/// Apply one snapshot's events to the trial table in one transaction:
/// on success the table is exactly as computed, on failure the store
/// is untouched.
#[verifier::loop_isolation(false)]
pub fn apply_trial_events(store: &mut Store, events: &Vec<Event>, date: Date) -> (r: Result<
    (),
    StorageError,
>)
    ensures
        match r {
            Ok(_) => {
                &&& spec_apply_trials(old(store).trials@, events@, date) == Ok::<
                    Seq<TrialPeriod>,
                    StorageError,
                >(final(store).trials@)
                &&& final(store).memberships@ == old(store).memberships@
                &&& final(store).causes@ == old(store).causes@
                &&& final(store).settings@ == old(store).settings@
                &&& final(store).next_nr == old(store).next_nr
            },
            Err(e) => spec_apply_trials(old(store).trials@, events@, date) == Err::<
                Seq<TrialPeriod>,
                StorageError,
            >(e) && *final(store) == *old(store),
        },
{
    let mut ts = copy_trials(&store.trials);
    proof {
        assert(events@.subrange(0, events@.len() as int) =~= events@);
    }
    let mut k: usize = 0;
    while k < events.len()
        invariant
            k <= events.len(),
            spec_apply_trials(old(store).trials@, events@, date) == spec_apply_trials(
                ts@,
                events@.subrange(k as int, events@.len() as int),
                date,
            ),
        decreases events.len() - k,
    {
        let ghost pre = ts@;
        let ghost rest = events@.subrange(k as int, events@.len() as int);
        proof {
            assert(rest[0] == events@[k as int]);
            assert(rest.subrange(1, rest.len() as int) =~= events@.subrange(
                (k + 1) as int,
                events@.len() as int,
            ));
        }
        let ev = events[k];
        match ev {
            Event::Join(id) => {
                match first_open_trial_exec(&ts, id) {
                    Some(_) => {
                        return Err(StorageError::InvariantViolation);
                    },
                    None => {
                        ts.push(TrialPeriod { id, start: date, end: None });
                    },
                }
            },
            Event::Continue(_) => {},
            Event::Leave(id) => {
                match first_open_trial_exec(&ts, id) {
                    None => {
                        return Err(StorageError::InvariantViolation);
                    },
                    Some(i) => {
                        if another_open_trial_exec(&ts, id, i) {
                            return Err(StorageError::InvariantViolation);
                        }
                        proof {
                            lemma_first_open_trial_props(ts@, id, 0);
                        }
                        let p = ts[i];
                        if date.day < p.start.day {
                            return Err(StorageError::InvariantViolation);
                        }
                        ts.set(i, TrialPeriod { id: p.id, start: p.start, end: Some(date) });
                    },
                }
            },
        }
        k += 1;
    }
    proof {
        assert(events@.subrange(events@.len() as int, events@.len() as int).len() == 0);
    }
    store.trials = ts;
    Ok(())
}

/// One trial reconciliation round: classify the trial roster against
/// the open trials as of now, then commit in one transaction.
pub fn reconcile_trials(store: &mut Store, snapshot: &Vec<Member>, date: Date) -> (r: Result<
    Vec<Event>,
    ReconcileError,
>)
    ensures
        ({
            let evs = spec_classify(snapshot@, open_trial_ids_of(old(store).trials@));
            match r {
                Ok(events) => {
                    &&& !has_dup(snapshot@)
                    &&& events@ == evs
                    &&& spec_apply_trials(old(store).trials@, evs, date) == Ok::<
                        Seq<TrialPeriod>,
                        StorageError,
                    >(final(store).trials@)
                    &&& final(store).memberships@ == old(store).memberships@
                    &&& final(store).causes@ == old(store).causes@
                    &&& final(store).settings@ == old(store).settings@
                    &&& final(store).next_nr == old(store).next_nr
                },
                Err(ReconcileError::Ambiguous(_)) => has_dup(snapshot@) && *final(store) == *old(
                    store,
                ),
                Err(ReconcileError::Storage(e)) => !has_dup(snapshot@) && spec_apply_trials(
                    old(store).trials@,
                    evs,
                    date,
                ) == Err::<Seq<TrialPeriod>, StorageError>(e) && *final(store) == *old(store),
            }
        }),
{
    let open = open_trial_ids(store);
    let events = match classify(snapshot, &open) {
        Ok(evs) => evs,
        Err(e) => {
            return Err(ReconcileError::Ambiguous(e));
        },
    };
    match apply_trial_events(store, &events, date) {
        Ok(_) => Ok(events),
        Err(e) => Err(ReconcileError::Storage(e)),
    }
}

} // verus!
