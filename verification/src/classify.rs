//! The membership classifier: a pure function from one observed
//! snapshot and the currently open member ids to an ordered list of
//! transition events.
//!
//! Per member the table is: not open and present is a join, open and
//! present is a continue, open and absent is a leave, neither is a
//! no-op.  A duplicate member id inside one snapshot rejects the whole
//! snapshot; no events are emitted.

use vstd::prelude::*;
use crate::domain::{AmbiguousInputError, Event, Member};

verus! {

/// Some record of the snapshot carries this member id.
pub open spec fn snap_has_id(snap: Seq<Member>, id: i32) -> bool {
    exists|i: int| 0 <= i < snap.len() && snap[i].id == id
}

/// Two records of the snapshot share one member id.
pub open spec fn has_dup(snap: Seq<Member>) -> bool {
    exists|i: int, j: int| 0 <= i < j < snap.len() && snap[i].id == snap[j].id
}

/// Joins and continues, in snapshot order: a member already open
/// continues, any other member joins.
pub open spec fn member_events(snap: Seq<Member>, open: Seq<i32>) -> Seq<Event>
    decreases snap.len(),
{
    if snap.len() == 0 {
        Seq::empty()
    } else {
        member_events(snap.drop_last(), open).push(
            if open.contains(snap.last().id) {
                Event::Continue(snap.last().id)
            } else {
                Event::Join(snap.last().id)
            },
        )
    }
}

/// Leaves, in store order: every open id that the snapshot no longer
/// carries is closed.
pub open spec fn leave_events(open: Seq<i32>, snap: Seq<Member>) -> Seq<Event>
    decreases open.len(),
{
    if open.len() == 0 {
        Seq::empty()
    } else {
        let rest = leave_events(open.drop_last(), snap);
        if snap_has_id(snap, open.last()) {
            rest
        } else {
            rest.push(Event::Leave(open.last()))
        }
    }
}

/// The ordered event list for one snapshot: joins and continues in
/// snapshot order, then leaves in store order.
pub open spec fn spec_classify(snap: Seq<Member>, open: Seq<i32>) -> Seq<Event> {
    member_events(snap, open) + leave_events(open, snap)
}

fn vec_contains_i32(v: &Vec<i32>, x: i32) -> (b: bool)
    ensures
        b == v@.contains(x),
{
    let mut k: usize = 0;
    while k < v.len()
        invariant
            k <= v.len(),
            forall|j: int| 0 <= j < k ==> v@[j] != x,
        decreases v.len() - k,
    {
        if v[k] == x {
            assert(v@[k as int] == x);
            return true;
        }
        k += 1;
    }
    false
}

fn snapshot_has_id(snap: &Vec<Member>, id: i32) -> (b: bool)
    ensures
        b == snap_has_id(snap@, id),
{
    let mut k: usize = 0;
    while k < snap.len()
        invariant
            k <= snap.len(),
            forall|j: int| 0 <= j < k ==> snap@[j].id != id,
        decreases snap.len() - k,
    {
        if snap[k].id == id {
            assert(snap@[k as int].id == id);
            return true;
        }
        k += 1;
    }
    false
}

/// Classify one snapshot against the open ids.  Either the snapshot
/// holds a duplicate id and is rejected whole, or the exact ordered
/// event list of the transition table is returned.
pub fn classify(snapshot: &Vec<Member>, open_ids: &Vec<i32>) -> (r: Result<
    Vec<Event>,
    AmbiguousInputError,
>)
    ensures
        match r {
            Ok(events) => !has_dup(snapshot@) && events@ == spec_classify(snapshot@, open_ids@),
            Err(e) => has_dup(snapshot@) && exists|i: int, j: int|
                0 <= i < j < snapshot@.len() && snapshot@[i].id == snapshot@[j].id && snapshot@[
                    j
                ].id == e.id,
        },
{
    let mut i: usize = 1;
    while i < snapshot.len()
        invariant
            i >= 1,
            forall|a: int, b: int| 0 <= a < b < i ==> snapshot@[a].id != snapshot@[b].id,
        decreases snapshot.len() - i,
    {
        let mut j: usize = 0;
        while j < i
            invariant
                j <= i < snapshot.len(),
                forall|a: int| 0 <= a < j ==> snapshot@[a].id != snapshot@[i as int].id,
            decreases i - j,
        {
            if snapshot[j].id == snapshot[i].id {
                assert(snapshot@[j as int].id == snapshot@[i as int].id);
                return Err(AmbiguousInputError { id: snapshot[i].id });
            }
            j += 1;
        }
        i += 1;
    }
    let mut events: Vec<Event> = Vec::new();
    let mut k: usize = 0;
    while k < snapshot.len()
        invariant
            k <= snapshot.len(),
            events@ == member_events(snapshot@.subrange(0, k as int), open_ids@),
        decreases snapshot.len() - k,
    {
        let id = snapshot[k].id;
        let ev = if vec_contains_i32(open_ids, id) {
            Event::Continue(id)
        } else {
            Event::Join(id)
        };
        events.push(ev);
        proof {
            assert(snapshot@.subrange(0, (k + 1) as int).drop_last() =~= snapshot@.subrange(
                0,
                k as int,
            ));
            assert(snapshot@.subrange(0, (k + 1) as int).last() == snapshot@[k as int]);
        }
        k += 1;
    }
    assert(snapshot@.subrange(0, snapshot@.len() as int) =~= snapshot@);
    let ghost me = member_events(snapshot@, open_ids@);
    let mut t: usize = 0;
    while t < open_ids.len()
        invariant
            t <= open_ids.len(),
            events@ == me + leave_events(open_ids@.subrange(0, t as int), snapshot@),
            me == member_events(snapshot@, open_ids@),
        decreases open_ids.len() - t,
    {
        let id = open_ids[t];
        proof {
            assert(open_ids@.subrange(0, (t + 1) as int).drop_last() =~= open_ids@.subrange(
                0,
                t as int,
            ));
            assert(open_ids@.subrange(0, (t + 1) as int).last() == open_ids@[t as int]);
        }
        if !snapshot_has_id(snapshot, id) {
            events.push(Event::Leave(id));
        }
        t += 1;
    }
    assert(open_ids@.subrange(0, open_ids@.len() as int) =~= open_ids@);
    Ok(events)
}

} // verus!
