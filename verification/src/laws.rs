//! The reconciliation laws: history integrity under application of
//! classified events, idempotence of re-applying one snapshot, and the
//! guarantees behind one leave.

use vstd::prelude::*;
use crate::domain::{Date, Event, Member};
use crate::classify::{leave_events, member_events, snap_has_id, spec_classify};
use crate::store::{
    committed, first_open_index, has_open, init_state, lemma_first_open_props, open_at,
    open_ids_of, spec_apply, spec_apply_one, ApplyState, MembershipPeriod, Store,
};

verus! {

/// At most one open period per member id.
pub open spec fn open_unique(ms: Seq<MembershipPeriod>) -> bool {
    forall|i: int, j: int|
        0 <= i < j < ms.len() && open_at(ms, i, ms[i].id) && open_at(ms, j, ms[j].id) ==> ms[i].id
            != ms[j].id
}

/// Every closed period closes no earlier than it opened.
pub open spec fn dates_ok(ms: Seq<MembershipPeriod>) -> bool {
    forall|i: int|
        0 <= i < ms.len() ==> (#[trigger] ms[i].end matches Some(e) ==> ms[i].start.day <= e.day)
}

/// Applying a concatenation is applying the parts in turn.
pub proof fn lemma_apply_append(st: ApplyState, a: Seq<Event>, b: Seq<Event>, d: Date)
    ensures
        spec_apply(st, a + b, d) == (match spec_apply(st, a, d) {
            Ok(m) => spec_apply(m, b, d),
            Err(e) => Err(e),
        }),
    decreases a.len(),
{
    if a.len() == 0 {
        assert(a + b =~= b);
    } else {
        assert((a + b)[0] == a[0]);
        match spec_apply_one(st, a[0], d) {
            Ok(m) => {
                lemma_apply_append(m, a.subrange(1, a.len() as int), b, d);
                assert((a + b).subrange(1, (a + b).len() as int) =~= a.subrange(1, a.len() as int)
                    + b);
            },
            Err(e) => {
                assert((a + b).subrange(1, (a + b).len() as int) =~= a.subrange(1, a.len() as int)
                    + b);
            },
        }
    }
}

/// One successful event preserves the open-period invariant and the
/// closed history: existing periods keep number, id and opening date,
/// a closed period is never touched, and an end is only ever set to
/// the application date.
pub proof fn lemma_apply_one_preserves(st: ApplyState, ev: Event, d: Date, st2: ApplyState)
    requires
        open_unique(st.ms),
        spec_apply_one(st, ev, d) == Ok::<ApplyState, crate::domain::StorageError>(st2),
    ensures
        open_unique(st2.ms),
        dates_ok(st.ms) ==> dates_ok(st2.ms),
        st2.ms.len() >= st.ms.len(),
        forall|i: int|
            0 <= i < st.ms.len() ==> (#[trigger] st2.ms[i]).nr == st.ms[i].nr && st2.ms[i].id
                == st.ms[i].id && st2.ms[i].start == st.ms[i].start,
        forall|i: int|
            0 <= i < st.ms.len() && st.ms[i].end is Some ==> #[trigger] st2.ms[i] == st.ms[i],
        forall|i: int|
            0 <= i < st.ms.len() ==> (#[trigger] st2.ms[i]).end == st.ms[i].end || st2.ms[i].end
                == Some(d),
        st2.next_nr >= st.next_nr,
{
    match ev {
        Event::Join(id) => {
            lemma_first_open_props(st.ms, id, 0);
            assert forall|i: int, j: int|
                0 <= i < j < st2.ms.len() && open_at(st2.ms, i, st2.ms[i].id) && open_at(
                    st2.ms,
                    j,
                    st2.ms[j].id,
                ) implies st2.ms[i].id != st2.ms[j].id by {
                assert(open_at(st.ms, i, st.ms[i].id));
                if j < st.ms.len() {
                    assert(open_at(st.ms, j, st.ms[j].id));
                } else {
                    if st.ms[i].id == id {
                        assert(open_at(st.ms, i, id));
                    }
                }
            }
        },
        Event::Continue(_) => {},
        Event::Leave(id) => {
            lemma_first_open_props(st.ms, id, 0);
            assert forall|i: int, j: int|
                0 <= i < j < st2.ms.len() && open_at(st2.ms, i, st2.ms[i].id) && open_at(
                    st2.ms,
                    j,
                    st2.ms[j].id,
                ) implies st2.ms[i].id != st2.ms[j].id by {
                assert(open_at(st.ms, i, st.ms[i].id));
                assert(open_at(st.ms, j, st.ms[j].id));
            }
        },
    }
}

/// One successful event records the number of every period it closes:
/// earlier entries stay, a period closed during the event lands in the
/// list, and each new entry names a period that was open, or not yet
/// present, before.
pub proof fn lemma_apply_one_closed(st: ApplyState, ev: Event, d: Date, st2: ApplyState)
    requires
        spec_apply_one(st, ev, d) == Ok::<ApplyState, crate::domain::StorageError>(st2),
    ensures
        st2.closed.len() >= st.closed.len(),
        forall|k: int| 0 <= k < st.closed.len() ==> #[trigger] st2.closed[k] == st.closed[k],
        forall|i: int|
            0 <= i < st.ms.len() && (#[trigger] st.ms[i]).end is None && st2.ms[i].end is Some
                ==> st2.closed.contains(st.ms[i].nr),
        forall|i: int|
            0 <= i < st2.ms.len() && (#[trigger] st2.ms[i]).end is Some ==> (0 <= i < st.ms.len()
                && st.ms[i].end is Some) || st2.closed.contains(st2.ms[i].nr),
        forall|k: int|
            st.closed.len() <= k < st2.closed.len() ==> exists|i: int|
                0 <= i < st2.ms.len() && st2.ms[i].nr == #[trigger] st2.closed[k] && st2.ms[
                    i
                ].end is Some && (st.ms.len() <= i || st.ms[i].end is None),
{
    match ev {
        Event::Join(_) => {},
        Event::Continue(_) => {},
        Event::Leave(id) => {
            let ifo = first_open_index(st.ms, id);
            lemma_first_open_props(st.ms, id, 0);
            assert forall|i: int|
                0 <= i < st.ms.len() && (#[trigger] st.ms[i]).end is None && st2.ms[i].end is Some
                    implies st2.closed.contains(st.ms[i].nr) by {
                assert(i == ifo);
                assert(st2.closed[st2.closed.len() - 1] == st.ms[ifo].nr);
            }
            assert forall|i: int|
                0 <= i < st2.ms.len() && (#[trigger] st2.ms[i]).end is Some implies (0 <= i
                    < st.ms.len() && st.ms[i].end is Some) || st2.closed.contains(
                    st2.ms[i].nr,
                ) by {
                if i == ifo {
                    assert(st2.closed[st2.closed.len() - 1] == st2.ms[ifo].nr);
                }
            }
            assert forall|k: int|
                st.closed.len() <= k < st2.closed.len() implies exists|i: int|
                    0 <= i < st2.ms.len() && st2.ms[i].nr == #[trigger] st2.closed[k] && st2.ms[
                        i
                    ].end is Some && (st.ms.len() <= i || st.ms[i].end is None) by {
                assert(st2.ms[ifo].nr == st2.closed[k] && st2.ms[ifo].end is Some && st.ms[
                    ifo
                ].end is None);
            }
        },
    }
}

/// A whole successful application preserves the open-period invariant
/// and never rewrites closed history.
pub proof fn lemma_apply_preserves(st: ApplyState, evs: Seq<Event>, d: Date, st2: ApplyState)
    requires
        open_unique(st.ms),
        spec_apply(st, evs, d) == Ok::<ApplyState, crate::domain::StorageError>(st2),
    ensures
        open_unique(st2.ms),
        dates_ok(st.ms) ==> dates_ok(st2.ms),
        st2.ms.len() >= st.ms.len(),
        forall|i: int|
            0 <= i < st.ms.len() ==> (#[trigger] st2.ms[i]).nr == st.ms[i].nr && st2.ms[i].id
                == st.ms[i].id && st2.ms[i].start == st.ms[i].start,
        forall|i: int|
            0 <= i < st.ms.len() && st.ms[i].end is Some ==> #[trigger] st2.ms[i] == st.ms[i],
        forall|i: int|
            0 <= i < st.ms.len() ==> (#[trigger] st2.ms[i]).end == st.ms[i].end || st2.ms[i].end
                == Some(d),
        st2.next_nr >= st.next_nr,
        st2.closed.len() >= st.closed.len(),
        forall|k: int| 0 <= k < st.closed.len() ==> #[trigger] st2.closed[k] == st.closed[k],
        forall|i: int|
            0 <= i < st.ms.len() && (#[trigger] st.ms[i]).end is None && st2.ms[i].end is Some
                ==> st2.closed.contains(st.ms[i].nr),
    decreases evs.len(),
{
    if evs.len() == 0 {
    } else {
        let mid = spec_apply_one(st, evs[0], d)->Ok_0;
        lemma_apply_one_preserves(st, evs[0], d, mid);
        lemma_apply_one_closed(st, evs[0], d, mid);
        lemma_apply_preserves(mid, evs.subrange(1, evs.len() as int), d, st2);
        assert forall|i: int|
            0 <= i < st.ms.len() && (#[trigger] st.ms[i]).end is None && st2.ms[i].end is Some
                implies st2.closed.contains(st.ms[i].nr) by {
            if mid.ms[i].end is Some {
                let k = choose|k: int| 0 <= k < mid.closed.len() && mid.closed[k] == st.ms[i].nr;
                assert(st2.closed[k] == st.ms[i].nr);
            } else {
                assert(mid.ms[i].nr == st.ms[i].nr);
            }
        }
    }
}


/// Applying a single event is one step.
proof fn lemma_apply_single(st: ApplyState, ev: Event, d: Date)
    ensures
        spec_apply(st, seq![ev], d) == (match spec_apply_one(st, ev, d) {
            Ok(m) => Ok(m),
            Err(e) => Err(e),
        }),
{
    let s = seq![ev];
    assert(s[0] == ev);
    let sub = s.subrange(1, 1);
    assert(sub.len() == 0);
    match spec_apply_one(st, ev, d) {
        Ok(m) => {
            assert(spec_apply(m, sub, d) == Ok::<ApplyState, crate::domain::StorageError>(m));
        },
        Err(_) => {},
    }
}

/// Applying no events changes nothing.
proof fn lemma_apply_empty(st: ApplyState, evs: Seq<Event>, d: Date)
    requires
        evs.len() == 0,
    ensures
        spec_apply(st, evs, d) == Ok::<ApplyState, crate::domain::StorageError>(st),
{
}

/// Dropping the last record changes which ids a snapshot carries only
/// by that record's id.
proof fn lemma_snap_has_drop(snap: Seq<Member>)
    requires
        snap.len() > 0,
    ensures
        forall|id: i32| #[trigger]
            snap_has_id(snap, id) <==> (snap_has_id(snap.drop_last(), id) || snap.last().id == id),
{
    assert forall|id: i32|
        snap_has_id(snap, id) <==> (snap_has_id(snap.drop_last(), id)
            || snap.last().id == id) by {
        if snap_has_id(snap, id) {
            let i = choose|i: int| 0 <= i < snap.len() && snap[i].id == id;
            if i < snap.len() - 1 {
                assert(snap.drop_last()[i].id == id);
            }
        }
        if snap_has_id(snap.drop_last(), id) {
            let i = choose|i: int| 0 <= i < snap.drop_last().len() && snap.drop_last()[i].id == id;
            assert(snap[i].id == id);
        }
        if snap.last().id == id {
            assert(snap[snap.len() - 1].id == id);
        }
    }
}

/// Dropping the last id of a list changes containment only by that id.
proof fn lemma_contains_drop(open: Seq<i32>)
    requires
        open.len() > 0,
    ensures
        forall|id: i32| #[trigger]
            open.contains(id) <==> (open.drop_last().contains(id) || open.last() == id),
{
    assert forall|id: i32|
        open.contains(id) <==> (open.drop_last().contains(id) || open.last() == id) by {
        if open.contains(id) {
            let i = choose|i: int| 0 <= i < open.len() && open[i] == id;
            if i < open.len() - 1 {
                assert(open.drop_last()[i] == id);
            }
        }
        if open.drop_last().contains(id) {
            let i = choose|i: int| 0 <= i < open.drop_last().len() && open.drop_last()[i] == id;
            assert(open[i] == id);
        }
        if open.last() == id {
            assert(open[open.len() - 1] == id);
        }
    }
}

/// The open ids of a history are exactly the ids with an open period.
pub proof fn lemma_open_ids_contains(ms: Seq<MembershipPeriod>)
    ensures
        forall|id: i32| #[trigger] open_ids_of(ms).contains(id) <==> has_open(ms, id),
    decreases ms.len(),
{
    if ms.len() == 0 {
        assert forall|id: i32| #[trigger] open_ids_of(ms).contains(id) <==> has_open(ms, id) by {
            if has_open(ms, id) {
                let i = choose|i: int| open_at(ms, i, id);
            }
            if open_ids_of(ms).contains(id) {
                assert(open_ids_of(ms).len() == 0);
            }
        }
    } else {
        let dl = ms.drop_last();
        lemma_open_ids_contains(dl);
        assert forall|id: i32| #[trigger] open_ids_of(ms).contains(id) <==> has_open(ms, id) by {
            let oi = open_ids_of(ms);
            let oid = open_ids_of(dl);
            if oi.contains(id) {
                let k = choose|k: int| 0 <= k < oi.len() && oi[k] == id;
                if ms.last().end is None && k == oi.len() - 1 {
                    assert(open_at(ms, ms.len() - 1, id));
                } else {
                    assert(oid[k] == id);
                    assert(oid.contains(id));
                    let i = choose|i: int| open_at(dl, i, id);
                    assert(open_at(ms, i, id));
                }
            }
            if has_open(ms, id) {
                let i = choose|i: int| open_at(ms, i, id);
                if i < ms.len() - 1 {
                    assert(open_at(dl, i, id));
                    assert(oid.contains(id));
                    let k = choose|k: int| 0 <= k < oid.len() && oid[k] == id;
                    assert(oi[k] == id);
                } else {
                    assert(oi[oi.len() - 1] == id);
                }
            }
        }
    }
}

/// Applying the join/continue part of a snapshot opens exactly the
/// snapshot ids that the open list did not already carry.
proof fn lemma_members_phase(st: ApplyState, snap: Seq<Member>, open: Seq<i32>, d: Date, stm: ApplyState)
    requires
        spec_apply(st, member_events(snap, open), d) == Ok::<
            ApplyState,
            crate::domain::StorageError,
        >(stm),
    ensures
        forall|id: i32| #[trigger]
            has_open(stm.ms, id) <==> (has_open(st.ms, id) || (snap_has_id(snap, id)
                && !open.contains(id))),
        stm.closed == st.closed,
        st.ms.len() <= stm.ms.len(),
        forall|j: int|
            st.ms.len() <= j < stm.ms.len() ==> snap_has_id(snap, (#[trigger] stm.ms[j]).id),
        forall|i: int|
            0 <= i < st.ms.len() ==> #[trigger] stm.ms[i] == st.ms[i],
    decreases snap.len(),
{
    if snap.len() == 0 {
        assert(member_events(snap, open) == Seq::<Event>::empty());
        lemma_apply_empty(st, member_events(snap, open), d);
        assert(stm == st);
        assert forall|id: i32| #[trigger]
            has_open(stm.ms, id) <==> (has_open(st.ms, id) || (snap_has_id(snap, id)
                && !open.contains(id))) by {
            if snap_has_id(snap, id) {
                let i = choose|i: int| 0 <= i < snap.len() && snap[i].id == id;
            }
        }
    } else {
        let dl = snap.drop_last();
        let m = snap.last();
        let me = member_events(snap, open);
        let med = member_events(dl, open);
        let ev = if open.contains(m.id) {
            Event::Continue(m.id)
        } else {
            Event::Join(m.id)
        };
        assert(me =~= med + seq![ev]);
        lemma_apply_append(st, med, seq![ev], d);
        let mid = spec_apply(st, med, d)->Ok_0;
        lemma_members_phase(st, dl, open, d, mid);
        lemma_snap_has_drop(snap);
        lemma_apply_single(mid, ev, d);
        match ev {
            Event::Continue(_) => {
                assert(stm == mid);
            },
            Event::Join(id) => {
                assert(stm.ms == mid.ms.push(
                    MembershipPeriod { nr: mid.next_nr as i32, id, start: d, end: None },
                ));
                assert forall|x: i32| #[trigger]
                    has_open(stm.ms, x) <==> (has_open(mid.ms, x) || x == id) by {
                    if has_open(stm.ms, x) {
                        let i = choose|i: int| open_at(stm.ms, i, x);
                        if i < mid.ms.len() {
                            assert(open_at(mid.ms, i, x));
                        }
                    }
                    if has_open(mid.ms, x) {
                        let i = choose|i: int| open_at(mid.ms, i, x);
                        assert(open_at(stm.ms, i, x));
                    }
                    if x == id {
                        assert(open_at(stm.ms, stm.ms.len() - 1, x));
                    }
                }
                assert(snap_has_id(snap, id)) by {
                    assert(snap[snap.len() - 1].id == id);
                }
            },
            Event::Leave(_) => {
                assert(false);
            },
        }
    }
}

/// Applying the leave part closes exactly the listed open ids that the
/// snapshot no longer carries.
proof fn lemma_leaves_phase(st: ApplyState, open: Seq<i32>, snap: Seq<Member>, d: Date, st1: ApplyState)
    requires
        spec_apply(st, leave_events(open, snap), d) == Ok::<
            ApplyState,
            crate::domain::StorageError,
        >(st1),
    ensures
        forall|id: i32| #[trigger]
            has_open(st1.ms, id) <==> (has_open(st.ms, id) && !(open.contains(id)
                && !snap_has_id(snap, id))),
        st1.ms.len() == st.ms.len(),
        st1.next_nr == st.next_nr,
    decreases open.len(),
{
    if open.len() == 0 {
        assert(leave_events(open, snap) == Seq::<Event>::empty());
        lemma_apply_empty(st, leave_events(open, snap), d);
        assert(st1 == st);
        assert forall|id: i32| #[trigger]
            has_open(st1.ms, id) <==> (has_open(st.ms, id) && !(open.contains(id)
                && !snap_has_id(snap, id))) by {
            if open.contains(id) {
                let i = choose|i: int| 0 <= i < open.len() && open[i] == id;
            }
        }
    } else {
        let dl = open.drop_last();
        let x = open.last();
        let le = leave_events(open, snap);
        let led = leave_events(dl, snap);
        lemma_contains_drop(open);
        if snap_has_id(snap, x) {
            assert(le == led);
            lemma_leaves_phase(st, dl, snap, d, st1);
        } else {
            assert(le =~= led + seq![Event::Leave(x)]);
            lemma_apply_append(st, led, seq![Event::Leave(x)], d);
            let mid = spec_apply(st, led, d)->Ok_0;
            lemma_leaves_phase(st, dl, snap, d, mid);
            lemma_apply_single(mid, Event::Leave(x), d);
            let i = first_open_index(mid.ms, x);
            lemma_first_open_props(mid.ms, x, 0);
            assert(st1.ms == mid.ms.update(
                i,
                MembershipPeriod {
                    nr: mid.ms[i].nr,
                    id: mid.ms[i].id,
                    start: mid.ms[i].start,
                    end: Some(d),
                },
            ));
            assert forall|y: i32| #[trigger]
                has_open(st1.ms, y) <==> (has_open(mid.ms, y) && y != x) by {
                if has_open(st1.ms, y) {
                    let j = choose|j: int| open_at(st1.ms, j, y);
                    assert(j != i);
                    assert(open_at(mid.ms, j, y));
                    if y == x {
                        assert(open_at(mid.ms, j, x) && j != i);
                    }
                }
                if has_open(mid.ms, y) && y != x {
                    let j = choose|j: int| open_at(mid.ms, j, y);
                    assert(j != i);
                    assert(open_at(st1.ms, j, y));
                }
            }
        }
    }
}

/// After one snapshot's events commit, the open members are exactly
/// the snapshot's members: joins opened the new ones, leaves closed
/// the absent ones, continues changed nothing.
pub proof fn lemma_apply_classified_opens(st: ApplyState, snap: Seq<Member>, d: Date, st1: ApplyState)
    requires
        spec_apply(st, spec_classify(snap, open_ids_of(st.ms)), d) == Ok::<
            ApplyState,
            crate::domain::StorageError,
        >(st1),
    ensures
        forall|id: i32| #[trigger] has_open(st1.ms, id) <==> snap_has_id(snap, id),
{
    let open = open_ids_of(st.ms);
    let me = member_events(snap, open);
    let le = leave_events(open, snap);
    lemma_apply_append(st, me, le, d);
    let mid = spec_apply(st, me, d)->Ok_0;
    lemma_members_phase(st, snap, open, d, mid);
    lemma_leaves_phase(mid, open, snap, d, st1);
    lemma_open_ids_contains(st.ms);
}

/// A snapshot whose members are all already open classifies to
/// continue events alone, which change nothing.
proof fn lemma_continues_identity(st: ApplyState, snap: Seq<Member>, open: Seq<i32>, d: Date)
    requires
        forall|k: int| 0 <= k < snap.len() ==> open.contains((#[trigger] snap[k]).id),
    ensures
        spec_apply(st, member_events(snap, open), d) == Ok::<
            ApplyState,
            crate::domain::StorageError,
        >(st),
    decreases snap.len(),
{
    if snap.len() > 0 {
        let dl = snap.drop_last();
        assert(forall|k: int| 0 <= k < dl.len() ==> (#[trigger] dl[k]) == snap[k]);
        lemma_continues_identity(st, dl, open, d);
        let ev = Event::Continue(snap.last().id);
        assert(open.contains(snap[snap.len() - 1].id));
        assert(member_events(snap, open) =~= member_events(dl, open) + seq![ev]);
        lemma_apply_append(st, member_events(dl, open), seq![ev], d);
        lemma_apply_single(st, ev, d);
    }
}

/// An open list wholly carried by the snapshot produces no leaves.
proof fn lemma_no_leaves(open: Seq<i32>, snap: Seq<Member>)
    requires
        forall|k: int| 0 <= k < open.len() ==> snap_has_id(snap, #[trigger] open[k]),
    ensures
        leave_events(open, snap) == Seq::<Event>::empty(),
    decreases open.len(),
{
    if open.len() > 0 {
        let dl = open.drop_last();
        assert(forall|k: int| 0 <= k < dl.len() ==> (#[trigger] dl[k]) == open[k]);
        lemma_no_leaves(dl, snap);
        assert(snap_has_id(snap, open[open.len() - 1]));
    }
}

/// Idempotence: once a snapshot has committed, classifying and
/// applying the same snapshot again, against the post-commit state and
/// at any date, is a no-op: the same periods, the same next record
/// number, nothing closed and so no new cause.
pub proof fn lemma_reconcile_idempotent(
    st: ApplyState,
    snap: Seq<Member>,
    d1: Date,
    d2: Date,
    st1: ApplyState,
)
    requires
        spec_apply(st, spec_classify(snap, open_ids_of(st.ms)), d1) == Ok::<
            ApplyState,
            crate::domain::StorageError,
        >(st1),
    ensures
        ({
            let fresh = ApplyState { ms: st1.ms, next_nr: st1.next_nr, closed: Seq::empty() };
            spec_apply(fresh, spec_classify(snap, open_ids_of(st1.ms)), d2) == Ok::<
                ApplyState,
                crate::domain::StorageError,
            >(fresh)
        }),
{
    let fresh = ApplyState { ms: st1.ms, next_nr: st1.next_nr, closed: Seq::empty() };
    let open1 = open_ids_of(st1.ms);
    lemma_apply_classified_opens(st, snap, d1, st1);
    lemma_open_ids_contains(st1.ms);
    assert forall|k: int| 0 <= k < snap.len() implies open1.contains((#[trigger] snap[k]).id) by {
        assert(snap_has_id(snap, snap[k].id));
    }
    assert forall|k: int| 0 <= k < open1.len() implies snap_has_id(snap, #[trigger] open1[k]) by {
        assert(open1.contains(open1[k]));
    }
    lemma_continues_identity(fresh, snap, open1, d2);
    lemma_no_leaves(open1, snap);
    assert(spec_classify(snap, open1) =~= member_events(snap, open1));
    lemma_apply_append(fresh, member_events(snap, open1), leave_events(open1, snap), d2);
    assert(leave_events(open1, snap) =~= Seq::<Event>::empty());
}

/// Join/continue events are never leaves.
proof fn lemma_member_events_no_leave(snap: Seq<Member>, open: Seq<i32>)
    ensures
        forall|k: int|
            0 <= k < member_events(snap, open).len() ==> !((#[trigger] member_events(snap, open)[
                k
            ]) is Leave),
    decreases snap.len(),
{
    if snap.len() > 0 {
        lemma_member_events_no_leave(snap.drop_last(), open);
    }
}

/// Every leave event names a listed open id that the snapshot no
/// longer carries.
proof fn lemma_leave_events_elems(open: Seq<i32>, snap: Seq<Member>)
    ensures
        forall|k: int|
            0 <= k < leave_events(open, snap).len() ==> (#[trigger] leave_events(open, snap)[
                k
            ]) is Leave && open.contains(leave_events(open, snap)[k]->Leave_0) && !snap_has_id(
                snap,
                leave_events(open, snap)[k]->Leave_0,
            ),
    decreases open.len(),
{
    if open.len() > 0 {
        lemma_leave_events_elems(open.drop_last(), snap);
        lemma_contains_drop(open);
    }
}

/// An open id the snapshot no longer carries produces a leave event.
proof fn lemma_leave_exists(open: Seq<i32>, snap: Seq<Member>, id: i32)
    requires
        open.contains(id),
        !snap_has_id(snap, id),
    ensures
        exists|k: int|
            0 <= k < leave_events(open, snap).len() && leave_events(open, snap)[k] == Event::Leave(
                id,
            ),
    decreases open.len(),
{
    let le = leave_events(open, snap);
    let dl = open.drop_last();
    lemma_contains_drop(open);
    if open.last() == id {
        assert(le[le.len() - 1] == Event::Leave(id));
    } else {
        lemma_leave_exists(dl, snap, id);
        let led = leave_events(dl, snap);
        let k = choose|k: int| 0 <= k < led.len() && led[k] == Event::Leave(id);
        assert(le[k] == Event::Leave(id));
    }
}

/// Distinct listed ids produce pairwise distinct leave events.
proof fn lemma_leave_events_distinct(open: Seq<i32>, snap: Seq<Member>)
    requires
        forall|i: int, j: int| 0 <= i < j < open.len() ==> open[i] != open[j],
    ensures
        forall|k: int, l: int|
            0 <= k < l < leave_events(open, snap).len() ==> leave_events(open, snap)[k]
                != leave_events(open, snap)[l],
    decreases open.len(),
{
    if open.len() > 0 {
        let dl = open.drop_last();
        assert(forall|i: int| 0 <= i < dl.len() ==> (#[trigger] dl[i]) == open[i]);
        lemma_leave_events_distinct(dl, snap);
        lemma_leave_events_elems(dl, snap);
        let le = leave_events(open, snap);
        let led = leave_events(dl, snap);
        if !snap_has_id(snap, open.last()) {
            assert forall|k: int, l: int|
                0 <= k < l < le.len() implies le[k] != le[l] by {
                if l == le.len() - 1 {
                    assert(le[k] == led[k]);
                    assert(led[k]->Leave_0 == le[k]->Leave_0);
                    if le[k] == le[l] {
                        assert(dl.contains(le[k]->Leave_0));
                        let i = choose|i: int| 0 <= i < dl.len() && dl[i] == le[k]->Leave_0;
                        assert(open[i] == open.last());
                    }
                } else {
                    assert(le[k] == led[k] && le[l] == led[l]);
                }
            }
        }
    }
}

/// Under the open-period invariant the open id list is duplicate-free.
pub proof fn lemma_open_ids_distinct(ms: Seq<MembershipPeriod>)
    requires
        open_unique(ms),
    ensures
        forall|i: int, j: int|
            0 <= i < j < open_ids_of(ms).len() ==> open_ids_of(ms)[i] != open_ids_of(ms)[j],
    decreases ms.len(),
{
    if ms.len() > 0 {
        let dl = ms.drop_last();
        assert(open_unique(dl)) by {
            assert(forall|i: int| 0 <= i < dl.len() ==> (#[trigger] dl[i]) == ms[i]);
        }
        lemma_open_ids_distinct(dl);
        lemma_open_ids_contains(dl);
        let oi = open_ids_of(ms);
        let oid = open_ids_of(dl);
        if ms.last().end is None {
            assert forall|i: int, j: int|
                0 <= i < j < oi.len() implies oi[i] != oi[j] by {
                if j == oi.len() - 1 {
                    assert(oi[i] == oid[i]);
                    if oi[i] == ms.last().id {
                        assert(oid.contains(ms.last().id)) by {
                            assert(oid[i] == ms.last().id);
                        }
                        assert(has_open(dl, ms.last().id));
                        let p = choose|p: int| open_at(dl, p, ms.last().id);
                        assert(open_at(ms, p, ms[p].id));
                        assert(open_at(ms, ms.len() - 1, ms[ms.len() - 1].id));
                        assert(false);
                    }
                } else {
                    assert(oi[i] == oid[i] && oi[j] == oid[j]);
                }
            }
        }
    }
}

/// A member open before a snapshot that no longer carries it gets
/// exactly one leave event, and its one open period is closed at the
/// snapshot date with number, id and opening date untouched; closed
/// periods of the member stay exactly as they were, and no new period
/// of the member appears.
pub proof fn lemma_leave_event_once(
    st: ApplyState,
    snap: Seq<Member>,
    d: Date,
    st1: ApplyState,
    id: i32,
)
    requires
        open_unique(st.ms),
        has_open(st.ms, id),
        !snap_has_id(snap, id),
        spec_apply(st, spec_classify(snap, open_ids_of(st.ms)), d) == Ok::<
            ApplyState,
            crate::domain::StorageError,
        >(st1),
    ensures
        ({
            let evs = spec_classify(snap, open_ids_of(st.ms));
            exists|k: int|
                0 <= k < evs.len() && evs[k] == Event::Leave(id) && (forall|l: int|
                    0 <= l < evs.len() && l != k ==> evs[l] != Event::Leave(id))
        }),
        !has_open(st1.ms, id),
        forall|i: int|
            open_at(st.ms, i, id) ==> (#[trigger] st1.ms[i]).end == Some(d) && st1.ms[i].nr
                == st.ms[i].nr && st1.ms[i].id == id && st1.ms[i].start == st.ms[i].start,
        forall|i: int|
            0 <= i < st.ms.len() && st.ms[i].id == id && st.ms[i].end is Some ==> #[trigger] st1.ms[
                i
            ] == st.ms[i],
        forall|j: int| st.ms.len() <= j < st1.ms.len() ==> (#[trigger] st1.ms[j]).id != id,
        forall|i: int| open_at(st.ms, i, id) ==> st1.closed.contains((#[trigger] st.ms[i]).nr),
{
    let open = open_ids_of(st.ms);
    let me = member_events(snap, open);
    let le = leave_events(open, snap);
    let evs = spec_classify(snap, open);
    lemma_open_ids_contains(st.ms);
    lemma_open_ids_distinct(st.ms);
    lemma_member_events_no_leave(snap, open);
    lemma_leave_events_elems(open, snap);
    lemma_leave_events_distinct(open, snap);
    lemma_leave_exists(open, snap, id);
    let k0 = choose|k: int| 0 <= k < le.len() && le[k] == Event::Leave(id);
    assert(evs[me.len() + k0] == Event::Leave(id));
    assert forall|l: int|
        0 <= l < evs.len() && l != me.len() + k0 implies evs[l] != Event::Leave(id) by {
        if l < me.len() {
            assert(evs[l] == me[l]);
        } else {
            assert(evs[l] == le[l - me.len()]);
        }
    }
    lemma_apply_classified_opens(st, snap, d, st1);
    lemma_apply_preserves(st, evs, d, st1);
    lemma_apply_append(st, me, le, d);
    let mid = spec_apply(st, me, d)->Ok_0;
    lemma_members_phase(st, snap, open, d, mid);
    lemma_apply_preserves(st, me, d, mid);
    lemma_apply_preserves(mid, le, d, st1);
    lemma_leaves_phase(mid, open, snap, d, st1);
    assert(!has_open(st1.ms, id));
    assert forall|i: int|
        open_at(st.ms, i, id) implies (#[trigger] st1.ms[i]).end == Some(d) && st1.ms[i].nr
            == st.ms[i].nr && st1.ms[i].id == id && st1.ms[i].start == st.ms[i].start by {
        assert(!open_at(st1.ms, i, id));
        assert(0 <= i < st.ms.len());
        assert(st1.ms[i].end == st.ms[i].end || st1.ms[i].end == Some(d));
    }
    assert forall|j: int|
        st.ms.len() <= j < st1.ms.len() implies (#[trigger] st1.ms[j]).id != id by {
        assert(st1.ms.len() == mid.ms.len());
        assert(snap_has_id(snap, mid.ms[j].id));
        assert(st1.ms[j].id == mid.ms[j].id);
    }
}

/// Serialized reconciliation preserves the open-period invariant:
/// after two snapshots commit one after the other, in either content,
/// at most one open period per member remains.
pub proof fn lemma_serialized_reconciles_keep_invariant(
    st: ApplyState,
    s1: Seq<Member>,
    d1: Date,
    st1: ApplyState,
    s2: Seq<Member>,
    d2: Date,
    st2: ApplyState,
)
    requires
        open_unique(st.ms),
        spec_apply(st, spec_classify(s1, open_ids_of(st.ms)), d1) == Ok::<
            ApplyState,
            crate::domain::StorageError,
        >(st1),
        spec_apply(
            ApplyState { ms: st1.ms, next_nr: st1.next_nr, closed: Seq::empty() },
            spec_classify(s2, open_ids_of(st1.ms)),
            d2,
        ) == Ok::<ApplyState, crate::domain::StorageError>(st2),
    ensures
        open_unique(st1.ms),
        open_unique(st2.ms),
{
    lemma_apply_preserves(st, spec_classify(s1, open_ids_of(st.ms)), d1, st1);
    let fresh = ApplyState { ms: st1.ms, next_nr: st1.next_nr, closed: Seq::empty() };
    lemma_apply_preserves(fresh, spec_classify(s2, open_ids_of(st1.ms)), d2, st2);
}

/// Every record number lies below the next free one, and no two
/// periods share one.
pub open spec fn nrs_ok(ms: Seq<MembershipPeriod>, next_nr: int) -> bool {
    &&& 0 < next_nr <= i32::MAX
    &&& forall|i: int| 0 <= i < ms.len() ==> (#[trigger] ms[i]).nr < next_nr
    &&& forall|i: int, j: int|
        0 <= i < j < ms.len() ==> (#[trigger] ms[i]).nr != (#[trigger] ms[j]).nr
}

/// One successful event assigns only fresh record numbers.
proof fn lemma_apply_one_nrs(st: ApplyState, ev: Event, d: Date, st2: ApplyState)
    requires
        nrs_ok(st.ms, st.next_nr),
        spec_apply_one(st, ev, d) == Ok::<ApplyState, crate::domain::StorageError>(st2),
    ensures
        nrs_ok(st2.ms, st2.next_nr),
{
    match ev {
        Event::Join(_) => {
            assert forall|i: int, j: int|
                0 <= i < j < st2.ms.len() implies (#[trigger] st2.ms[i]).nr != (
            #[trigger] st2.ms[j]).nr by {
                assert(st.ms[i].nr < st.next_nr);
                if j < st.ms.len() {
                    assert(st.ms[i].nr != st.ms[j].nr);
                }
            }
            assert forall|i: int| 0 <= i < st2.ms.len() implies (#[trigger] st2.ms[i]).nr
                < st2.next_nr by {
                if i < st.ms.len() {
                    assert(st.ms[i].nr < st.next_nr);
                }
            }
        },
        Event::Continue(_) => {},
        Event::Leave(id) => {
            lemma_first_open_props(st.ms, id, 0);
            assert forall|i: int, j: int|
                0 <= i < j < st2.ms.len() implies (#[trigger] st2.ms[i]).nr != (
            #[trigger] st2.ms[j]).nr by {
                assert(st.ms[i].nr != st.ms[j].nr);
            }
            assert forall|i: int| 0 <= i < st2.ms.len() implies (#[trigger] st2.ms[i]).nr
                < st2.next_nr by {
                assert(st.ms[i].nr < st.next_nr);
            }
        },
    }
}

/// A whole successful application assigns only fresh record numbers.
pub proof fn lemma_apply_nrs(st: ApplyState, evs: Seq<Event>, d: Date, st2: ApplyState)
    requires
        nrs_ok(st.ms, st.next_nr),
        spec_apply(st, evs, d) == Ok::<ApplyState, crate::domain::StorageError>(st2),
    ensures
        nrs_ok(st2.ms, st2.next_nr),
    decreases evs.len(),
{
    if evs.len() > 0 {
        let mid = spec_apply_one(st, evs[0], d)->Ok_0;
        lemma_apply_one_nrs(st, evs[0], d, mid);
        lemma_apply_nrs(mid, evs.subrange(1, evs.len() as int), d, st2);
    }
}

/// The store invariants survive every committed snapshot: at most one
/// open period per member, closes never before opens, record numbers
/// fresh and distinct, and the open members are exactly the
/// snapshot's.
pub proof fn lemma_committed_preserves_invariants(pre: Store, post: Store, snap: Seq<Member>, d: Date)
    requires
        open_unique(pre.memberships@),
        dates_ok(pre.memberships@),
        nrs_ok(pre.memberships@, pre.next_nr as int),
        committed(pre, post, spec_classify(snap, open_ids_of(pre.memberships@)), d),
    ensures
        open_unique(post.memberships@),
        dates_ok(post.memberships@),
        nrs_ok(post.memberships@, post.next_nr as int),
        forall|id: i32| #[trigger] has_open(post.memberships@, id) <==> snap_has_id(snap, id),
{
    let evs = spec_classify(snap, open_ids_of(pre.memberships@));
    let st = init_state(pre);
    let st1 = spec_apply(st, evs, d)->Ok_0;
    lemma_apply_preserves(st, evs, d, st1);
    lemma_apply_nrs(st, evs, d, st1);
    lemma_apply_classified_opens(st, snap, d, st1);
}

} // verus!
