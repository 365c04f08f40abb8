use clantool::domain::{Date, Event, Member, ReconcileError};
use clantool::classify::classify;
use clantool::store::{open_member_ids, reconcile, Store};
use clantool::trial::{open_trial_ids, reconcile_trials};

fn member(id: i32, name: &str) -> Member {
    Member {
        name: name.to_owned(),
        id,
        exp: 100,
        contribution: 10,
    }
}

fn empty_store() -> Store {
    Store {
        memberships: Vec::new(),
        causes: Vec::new(),
        trials: Vec::new(),
        settings: Vec::new(),
        next_nr: 1,
    }
}

fn open_count(store: &Store, id: i32) -> usize {
    store
        .memberships
        .iter()
        .filter(|p| p.id == id && p.end.is_none())
        .count()
}

#[test]
fn join_then_leave_closes_with_pending_cause() {
    let mut store = empty_store();
    let snap1 = vec![member(1, "a")];
    let events = reconcile(&mut store, &snap1, Date { day: 10 }).unwrap();
    assert_eq!(events, vec![Event::Join(1)]);
    assert_eq!(1, store.memberships.len());
    assert_eq!(1, store.memberships[0].nr);
    assert_eq!(Date { day: 10 }, store.memberships[0].start);
    assert!(store.memberships[0].end.is_none());
    assert_eq!(0, store.causes.len());

    let snap2: Vec<Member> = Vec::new();
    let events = reconcile(&mut store, &snap2, Date { day: 12 }).unwrap();
    assert_eq!(events, vec![Event::Leave(1)]);
    assert_eq!(1, store.memberships.len());
    assert_eq!(Some(Date { day: 12 }), store.memberships[0].end);
    assert_eq!(1, store.causes.len());
    assert_eq!(1, store.causes[0].nr);
    assert_eq!(false, store.causes[0].kicked);
    assert_eq!("pending", store.causes[0].cause);
    assert_eq!(0, open_count(&store, 1));
}

#[test]
fn reconcile_is_idempotent() {
    let mut store = empty_store();
    let snap = vec![member(1, "a"), member(2, "b")];
    reconcile(&mut store, &snap, Date { day: 5 }).unwrap();
    let periods_before = store.memberships.clone();
    let causes_before = store.causes.len();
    let next_before = store.next_nr;

    let events = reconcile(&mut store, &snap, Date { day: 6 }).unwrap();
    assert_eq!(events, vec![Event::Continue(1), Event::Continue(2)]);
    assert_eq!(periods_before, store.memberships);
    assert_eq!(causes_before, store.causes.len());
    assert_eq!(next_before, store.next_nr);
}

#[test]
fn rejoining_opens_a_new_period() {
    let mut store = empty_store();
    reconcile(&mut store, &vec![member(1, "a")], Date { day: 1 }).unwrap();
    reconcile(&mut store, &Vec::new(), Date { day: 2 }).unwrap();
    reconcile(&mut store, &vec![member(1, "a")], Date { day: 3 }).unwrap();
    assert_eq!(2, store.memberships.len());
    assert_eq!(Some(Date { day: 2 }), store.memberships[0].end);
    assert!(store.memberships[1].end.is_none());
    assert_eq!(2, store.memberships[1].nr);
    assert_eq!(1, open_count(&store, 1));
}

#[test]
fn duplicate_id_rejects_snapshot_with_no_events() {
    let mut store = empty_store();
    let snap = vec![member(7, "a"), member(8, "b"), member(7, "c")];
    match reconcile(&mut store, &snap, Date { day: 1 }) {
        Err(ReconcileError::Ambiguous(e)) => assert_eq!(7, e.id),
        other => panic!("expected an ambiguous snapshot, got {:?}", other),
    }
    assert_eq!(0, store.memberships.len());
    assert_eq!(1, store.next_nr);

    let open = open_member_ids(&store);
    match classify(&snap, &open) {
        Err(e) => assert_eq!(7, e.id),
        Ok(evs) => panic!("expected no events, got {:?}", evs),
    }
}

#[test]
fn classify_orders_joins_continues_then_leaves() {
    let snap = vec![member(1, "a"), member(3, "c")];
    let open = vec![2, 3];
    let events = classify(&snap, &open).unwrap();
    assert_eq!(
        events,
        vec![Event::Join(1), Event::Continue(3), Event::Leave(2)]
    );
}

#[test]
fn serialized_snapshots_keep_one_open_period() {
    let mut store = empty_store();
    let snap_a = vec![member(1, "a"), member(2, "b")];
    let snap_b = vec![member(2, "b"), member(3, "c")];
    reconcile(&mut store, &snap_a, Date { day: 1 }).unwrap();
    reconcile(&mut store, &snap_b, Date { day: 2 }).unwrap();
    for id in [1, 2, 3] {
        assert!(open_count(&store, id) <= 1, "member {} has two open periods", id);
    }
    assert_eq!(0, open_count(&store, 1));
    assert_eq!(1, open_count(&store, 2));
    assert_eq!(1, open_count(&store, 3));
}

#[test]
fn trial_periods_follow_the_same_table() {
    let mut store = empty_store();
    let events = reconcile_trials(&mut store, &vec![member(4, "d")], Date { day: 1 }).unwrap();
    assert_eq!(events, vec![Event::Join(4)]);
    assert_eq!(1, store.trials.len());
    assert!(store.trials[0].end.is_none());
    assert_eq!(vec![4], open_trial_ids(&store));

    let events = reconcile_trials(&mut store, &Vec::new(), Date { day: 3 }).unwrap();
    assert_eq!(events, vec![Event::Leave(4)]);
    assert_eq!(Some(Date { day: 3 }), store.trials[0].end);
    assert!(open_trial_ids(&store).is_empty());
    assert_eq!(0, store.memberships.len());
    assert_eq!(0, store.causes.len());
}
