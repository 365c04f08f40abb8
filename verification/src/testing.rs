//! The scoped harness: an isolated, initially empty schema instance
//! with guaranteed teardown, and helpers that seed the store with
//! members, periods, causes, trials and settings.

use vstd::prelude::*;
use crate::domain::{Date, Member};
use crate::laws::nrs_ok;
use crate::store::{MembershipCause, MembershipPeriod, Setting, Store, TrialPeriod};

verus! {

/// Relies on rand::random: an arbitrary value of the drawn type;
/// nothing is promised of it.
pub assume_specification<T>[ rand::random::<T> ]() -> (r: T)
    where
        rand::distributions::Standard: rand::distributions::Distribution<T>,
;

/// The connection pool's sizing; at least two connections can be held
/// at once, so a scope guard and the operation under test never
/// deadlock.
#[derive(Clone, Copy, Debug, PartialEq, Eq, Structural)]
pub struct Pool {
    pub min_conn: u32,
    pub max_conn: u32,
}

/// One handle on the schema instance: the discovered schema objects
/// and the relational content.
#[derive(Debug)]
pub struct PooledConn {
    pub tables: Vec<String>,
    pub views: Vec<String>,
    pub store: Store,
}

/// Scoped cleanup of everything a test created: on teardown the
/// registered views go first, then the tables in reverse creation
/// order; a disabled guard leaves everything in place.  Teardown is
/// the explicit `cleanup` call, which takes the connection it acts
/// on; it does not run on scope exit by itself.
#[derive(Debug)]
pub struct CleanupGuard {
    pub pool: Pool,
    pub tables: Vec<String>,
    pub views: Vec<String>,
    pub disabled: bool,
}

/// A name list holds a name, compared by content.
pub open spec fn listed(names: Seq<String>, name: Seq<char>) -> bool {
    exists|k: int| 0 <= k < names.len() && names[k]@ == name
}

/// The names that survive dropping every listed one, in order.
pub open spec fn drop_listed(have: Seq<String>, listed_names: Seq<String>) -> Seq<String>
    decreases have.len(),
{
    if have.len() == 0 {
        Seq::empty()
    } else {
        let rest = drop_listed(have.drop_last(), listed_names);
        if listed(listed_names, have.last()@) {
            rest
        } else {
            rest.push(have.last())
        }
    }
}

/// The table names of the persisted schema, in creation order.
pub open spec fn schema_table_names() -> Seq<Seq<char>> {
    seq!["membership"@, "membership_cause"@, "member_trial"@, "settings"@]
}

impl CleanupGuard {
    /// A fresh, enabled guard with nothing registered.
    pub fn new(pool: Pool) -> (g: CleanupGuard)
        ensures
            g.pool == pool,
            g.tables@.len() == 0,
            g.views@.len() == 0,
            !g.disabled,
    {
        CleanupGuard { pool, tables: Vec::new(), views: Vec::new(), disabled: false }
    }

    /// Register one more table to drop on cleanup.
    pub fn add_table(&mut self, table: String)
        ensures
            final(self).tables@ == old(self).tables@.push(table),
            final(self).views@ == old(self).views@,
            final(self).pool == old(self).pool,
            final(self).disabled == old(self).disabled,
    {
        self.tables.push(table);
    }

    /// Tear down everything this guard registered: views first, then
    /// tables in reverse creation order; a disabled guard changes
    /// nothing.  The rows of the store go with their tables.
    pub fn cleanup(&mut self, conn: &mut PooledConn)
        ensures
            old(self).disabled ==> *final(conn) == *old(conn) && *final(self) == *old(self),
            !old(self).disabled ==> {
                &&& final(conn).views@ == drop_listed(old(conn).views@, old(self).views@)
                &&& final(conn).tables@ == drop_listed(old(conn).tables@, old(self).tables@)
                &&& final(self).tables@.len() == 0
                &&& final(self).views@ == old(self).views@
                &&& final(self).pool == old(self).pool
                &&& final(self).disabled == old(self).disabled
            },
    {
        if self.disabled {
            return ;
        }
        let kept_views = remove_listed(&conn.views, &self.views);
        conn.views = kept_views;
        let kept_tables = remove_listed(&conn.tables, &self.tables);
        conn.tables = kept_tables;
        self.tables = Vec::new();
    }
}

/// Does a name list hold this name?
fn name_listed(names: &Vec<String>, name: &String) -> (b: bool)
    ensures
        b == listed(names@, name@),
{
    let mut k: usize = 0;
    while k < names.len()
        invariant
            k <= names.len(),
            forall|j: int| 0 <= j < k ==> names@[j]@ != name@,
        decreases names.len() - k,
    {
        if names[k] == *name {
            assert(names@[k as int]@ == name@);
            return true;
        }
        k += 1;
    }
    false
}

/// The names of `have` that are not listed, in order.
fn remove_listed(have: &Vec<String>, listed_names: &Vec<String>) -> (r: Vec<String>)
    ensures
        r@ == drop_listed(have@, listed_names@),
{
    let mut r: Vec<String> = Vec::new();
    let mut k: usize = 0;
    while k < have.len()
        invariant
            k <= have.len(),
            r@ == drop_listed(have@.subrange(0, k as int), listed_names@),
        decreases have.len() - k,
    {
        proof {
            assert(have@.subrange(0, (k + 1) as int).drop_last() =~= have@.subrange(0, k as int));
            assert(have@.subrange(0, (k + 1) as int).last() == have@[k as int]);
        }
        if !name_listed(listed_names, &have[k]) {
            let name = have[k].clone();
            assert(name == have@[k as int]);
            r.push(name);
        }
        k += 1;
    }
    assert(have@.subrange(0, have@.len() as int) =~= have@);
    r
}

/// Connect to the isolated schema instance: a pool sized so that at
/// least two connections can be held at once.
pub fn connect_db() -> (p: Pool)
    ensures
        p.min_conn >= 2,
        p.max_conn >= p.min_conn,
{
    Pool { min_conn: 6, max_conn: 100 }
}

/// The schema instance must be empty before a test sets up its
/// tables; a populated one is never touched.
pub fn verify_empty_db(conn: &mut PooledConn)
    requires
        old(conn).tables@.len() == 0,
    ensures
        *final(conn) == *old(conn),
{
}

/// Create the persisted schema in an empty instance and register
/// every created table with a fresh guard.
pub fn setup_tables(pool: Pool, conn: &mut PooledConn) -> (g: CleanupGuard)
    requires
        old(conn).tables@.len() == 0,
    ensures
        final(conn).tables@.map_values(|s: String| s@) == schema_table_names(),
        final(conn).views@ == old(conn).views@,
        final(conn).store == old(conn).store,
        g.tables@ == final(conn).tables@,
        g.views@.len() == 0,
        g.pool == pool,
        !g.disabled,
{
    let mut guard = CleanupGuard::new(pool);
    let mut tables: Vec<String> = Vec::new();
    tables.push("membership".to_owned());
    tables.push("membership_cause".to_owned());
    tables.push("member_trial".to_owned());
    tables.push("settings".to_owned());
    assert(tables@.map_values(|s: String| s@) =~= schema_table_names());
    let registered = copy_names(&tables);
    conn.tables = tables;
    guard.tables = registered;
    guard
}

/// A by-content copy of a name list.
fn copy_names(v: &Vec<String>) -> (r: Vec<String>)
    ensures
        r@ == v@,
{
    let mut r: Vec<String> = Vec::new();
    let mut k: usize = 0;
    while k < v.len()
        invariant
            k <= v.len(),
            r@ == v@.subrange(0, k as int),
        decreases v.len() - k,
    {
        let name = v[k].clone();
        assert(name == v@[k as int]);
        r.push(name);
        proof {
            assert(r@ =~= v@.subrange(0, (k + 1) as int));
        }
        k += 1;
    }
    assert(v@.subrange(0, v@.len() as int) =~= v@);
    r
}

/// One empty, isolated schema instance with the persisted schema set
/// up, and the guard that tears it down.
pub fn setup_db() -> (r: (PooledConn, CleanupGuard))
    ensures
        r.0.tables@.map_values(|s: String| s@) == schema_table_names(),
        r.0.views@.len() == 0,
        r.0.store.memberships@.len() == 0,
        r.0.store.causes@.len() == 0,
        r.0.store.trials@.len() == 0,
        r.0.store.settings@.len() == 0,
        r.0.store.next_nr == 1,
        r.1.tables@ == r.0.tables@,
        !r.1.disabled,
{
    let pool = connect_db();
    let mut conn = PooledConn {
        tables: Vec::new(),
        views: Vec::new(),
        store: Store {
            memberships: Vec::new(),
            causes: Vec::new(),
            trials: Vec::new(),
            settings: Vec::new(),
            next_nr: 1,
        },
    };
    verify_empty_db(&mut conn);
    let guard = setup_tables(pool, &mut conn);
    (conn, guard)
}

/// Build one member value from its parts.
pub fn create_member(name: &str, id: i32, exp: i64, contribution: i32) -> (m: Member)
    ensures
        m.name@ == name@,
        m.id == id,
        m.exp == exp,
        m.contribution == contribution,
{
    Member { name: name.to_owned(), id, exp, contribution }
}

/// Insert one membership period and return its record number, which
/// is positive and distinct from every existing one.
pub fn insert_membership(conn: &mut PooledConn, id: &i32, join: &Date, leave: Option<&Date>) -> (nr:
    i32)
    requires
        nrs_ok(old(conn).store.memberships@, old(conn).store.next_nr as int),
        old(conn).store.next_nr < i32::MAX,
    ensures
        nr == old(conn).store.next_nr,
        nr > 0,
        forall|k: int|
            0 <= k < old(conn).store.memberships@.len() ==> (#[trigger] old(
                conn,
            ).store.memberships@[k]).nr != nr,
        nrs_ok(final(conn).store.memberships@, final(conn).store.next_nr as int),
        final(conn).store.memberships@ == old(conn).store.memberships@.push(
            MembershipPeriod {
                nr,
                id: *id,
                start: *join,
                end: match leave {
                    Some(d) => Some(*d),
                    None => None,
                },
            },
        ),
        final(conn).store.next_nr == old(conn).store.next_nr + 1,
        final(conn).store.causes@ == old(conn).store.causes@,
        final(conn).store.trials@ == old(conn).store.trials@,
        final(conn).store.settings@ == old(conn).store.settings@,
        final(conn).tables@ == old(conn).tables@,
        final(conn).views@ == old(conn).views@,
{
    let nr = conn.store.next_nr;
    let end = match leave {
        Some(d) => Some(*d),
        None => None,
    };
    conn.store.memberships.push(MembershipPeriod { nr, id: *id, start: *join, end });
    conn.store.next_nr = nr + 1;
    proof {
        let ghost ms = conn.store.memberships@;
        let ghost oms = old(conn).store.memberships@;
        assert forall|i: int, j: int| 0 <= i < j < ms.len() implies (#[trigger] ms[i]).nr != (
        #[trigger] ms[j]).nr by {
            assert(oms[i].nr < old(conn).store.next_nr);
            if j < oms.len() {
                assert(oms[i].nr != oms[j].nr);
            }
        }
        assert forall|i: int| 0 <= i < ms.len() implies (#[trigger] ms[i]).nr < conn.store.next_nr
            as int by {
            if i < oms.len() {
                assert(oms[i].nr < old(conn).store.next_nr);
            }
        }
    }
    nr
}

/// Attach a cause to a closed period's record number.
pub fn insert_membership_cause(conn: &mut PooledConn, nr: &i32, cause: &str, kicked: bool)
    ensures
        final(conn).store.causes@.len() == old(conn).store.causes@.len() + 1,
        forall|k: int|
            0 <= k < old(conn).store.causes@.len() ==> final(conn).store.causes@[k] == old(
                conn,
            ).store.causes@[k],
        ({
            let c = final(conn).store.causes@.last();
            c.nr == *nr && c.kicked == kicked && c.cause@ == cause@
        }),
        final(conn).store.memberships@ == old(conn).store.memberships@,
        final(conn).store.trials@ == old(conn).store.trials@,
        final(conn).store.settings@ == old(conn).store.settings@,
        final(conn).store.next_nr == old(conn).store.next_nr,
        final(conn).tables@ == old(conn).tables@,
        final(conn).views@ == old(conn).views@,
{
    let text = cause.to_owned();
    conn.store.causes.push(MembershipCause { nr: *nr, kicked, cause: text });
}

/// Insert one full membership: a closed period with its cause.
pub fn insert_full_membership(
    conn: &mut PooledConn,
    id: &i32,
    join: &Date,
    leave: &Date,
    cause: &str,
    kicked: bool,
) -> (nr: i32)
    requires
        nrs_ok(old(conn).store.memberships@, old(conn).store.next_nr as int),
        old(conn).store.next_nr < i32::MAX,
    ensures
        nr == old(conn).store.next_nr,
        nr > 0,
        nrs_ok(final(conn).store.memberships@, final(conn).store.next_nr as int),
        final(conn).store.memberships@ == old(conn).store.memberships@.push(
            MembershipPeriod { nr, id: *id, start: *join, end: Some(*leave) },
        ),
        final(conn).store.next_nr == old(conn).store.next_nr + 1,
        final(conn).store.causes@.len() == old(conn).store.causes@.len() + 1,
        ({
            let c = final(conn).store.causes@.last();
            c.nr == nr && c.kicked == kicked && c.cause@ == cause@
        }),
{
    let nr = insert_membership(conn, id, join, Some(leave));
    insert_membership_cause(conn, &nr, cause, kicked);
    nr
}

/// Open a trial period for a member.
pub fn insert_trial(conn: &mut PooledConn, id: &i32, start: &Date)
    ensures
        final(conn).store.trials@ == old(conn).store.trials@.push(
            TrialPeriod { id: *id, start: *start, end: None },
        ),
        final(conn).store.memberships@ == old(conn).store.memberships@,
        final(conn).store.causes@ == old(conn).store.causes@,
        final(conn).store.settings@ == old(conn).store.settings@,
        final(conn).store.next_nr == old(conn).store.next_nr,
{
    conn.store.trials.push(TrialPeriod { id: *id, start: *start, end: None });
}

/// Insert one key/value row into the settings table.
pub fn insert_settings(conn: &mut PooledConn, key: &str, value: &str)
    ensures
        final(conn).store.settings@.len() == old(conn).store.settings@.len() + 1,
        forall|k: int|
            0 <= k < old(conn).store.settings@.len() ==> final(conn).store.settings@[k] == old(
                conn,
            ).store.settings@[k],
        ({
            let s = final(conn).store.settings@.last();
            s.key@ == key@ && s.value@ == value@
        }),
        final(conn).store.memberships@ == old(conn).store.memberships@,
        final(conn).store.causes@ == old(conn).store.causes@,
        final(conn).store.trials@ == old(conn).store.trials@,
        final(conn).store.next_nr == old(conn).store.next_nr,
{
    conn.store.settings.push(Setting { key: key.to_owned(), value: value.to_owned() });
}

/// One random open-or-closed date pair: the opening day comes from the
/// drawn word plus the retry offset, and a closed pair closes `dist`
/// days later, never before it opened.
pub fn datepair_from(from_raw: u16, dist: u8, open_end: bool, offset: i64) -> (r: (
    Date,
    Option<Date>,
))
    requires
        offset + 0xFFFF + 0xFF <= i64::MAX,
    ensures
        r.0.day == from_raw + offset,
        r.1 == if open_end {
            Option::<Date>::None
        } else {
            Some(Date { day: (r.0.day + dist) as i64 })
        },
{
    let day: i64 = from_raw as i64 + offset;
    let end = if open_end {
        None
    } else {
        Some(Date { day: day + dist as i64 })
    };
    (Date { day }, end)
}

/// Seed `amount` membership periods with random dates for one member,
/// no two opening on the same day.  Returns false when the retry
/// budget for distinct opening days runs out; whatever was inserted
/// before that stays.
#[verifier::loop_isolation(false)]
pub fn insert_random_membership(conn: &mut PooledConn, id: i32, amount: usize) -> (ok: bool)
    requires
        nrs_ok(old(conn).store.memberships@, old(conn).store.next_nr as int),
        old(conn).store.next_nr + amount < i32::MAX,
    ensures
        final(conn).store.memberships@.len() <= old(conn).store.memberships@.len() + amount,
        ok ==> final(conn).store.memberships@.len() == old(conn).store.memberships@.len() + amount,
        forall|k: int|
            0 <= k < old(conn).store.memberships@.len() ==> final(conn).store.memberships@[k]
                == old(conn).store.memberships@[k],
        forall|k: int|
            old(conn).store.memberships@.len() <= k < final(conn).store.memberships@.len() ==> {
                let p = #[trigger] final(conn).store.memberships@[k];
                p.id == id && (p.end matches Some(e) ==> p.start.day <= e.day)
            },
        forall|k: int, l: int|
            old(conn).store.memberships@.len() <= k < l < final(conn).store.memberships@.len()
                ==> (#[trigger] final(conn).store.memberships@[k]).start.day != (
            #[trigger] final(conn).store.memberships@[l]).start.day,
        nrs_ok(final(conn).store.memberships@, final(conn).store.next_nr as int),
        final(conn).store.causes@ == old(conn).store.causes@,
        final(conn).store.trials@ == old(conn).store.trials@,
        final(conn).store.settings@ == old(conn).store.settings@,
{
    let mut used: Vec<i64> = Vec::new();
    let mut inserted: usize = 0;
    while inserted < amount
        invariant
            inserted <= amount,
            conn.store.next_nr == old(conn).store.next_nr + inserted,
            conn.store.memberships@.len() == old(conn).store.memberships@.len() + inserted,
            forall|k: int|
                0 <= k < old(conn).store.memberships@.len() ==> conn.store.memberships@[k] == old(
                    conn,
                ).store.memberships@[k],
            forall|k: int|
                old(conn).store.memberships@.len() <= k < conn.store.memberships@.len() ==> {
                    let p = #[trigger] conn.store.memberships@[k];
                    p.id == id && (p.end matches Some(e) ==> p.start.day <= e.day)
                },
            forall|k: int, l: int|
                old(conn).store.memberships@.len() <= k < l < conn.store.memberships@.len() ==> (
                #[trigger] conn.store.memberships@[k]).start.day != (
                #[trigger] conn.store.memberships@[l]).start.day,
            forall|k: int|
                old(conn).store.memberships@.len() <= k < conn.store.memberships@.len()
                    ==> used@.contains((#[trigger] conn.store.memberships@[k]).start.day),
            nrs_ok(conn.store.memberships@, conn.store.next_nr as int),
            conn.store.causes@ == old(conn).store.causes@,
            conn.store.trials@ == old(conn).store.trials@,
            conn.store.settings@ == old(conn).store.settings@,
        decreases amount - inserted,
    {
        let mut retries: i64 = 0;
        let mut placed = false;
        while retries <= 100 && !placed
            invariant
                0 <= retries <= 101,
                conn.store.next_nr == old(conn).store.next_nr + inserted + (if placed {
                    1int
                } else {
                    0int
                }),
                conn.store.memberships@.len() == old(conn).store.memberships@.len() + inserted + (
                if placed {
                    1int
                } else {
                    0int
                }),
                inserted < amount,
                forall|k: int|
                    0 <= k < old(conn).store.memberships@.len() ==> conn.store.memberships@[k]
                        == old(conn).store.memberships@[k],
                forall|k: int|
                    old(conn).store.memberships@.len() <= k < conn.store.memberships@.len() ==> {
                        let p = #[trigger] conn.store.memberships@[k];
                        p.id == id && (p.end matches Some(e) ==> p.start.day <= e.day)
                    },
                forall|k: int, l: int|
                    old(conn).store.memberships@.len() <= k < l < conn.store.memberships@.len() ==> (
                    #[trigger] conn.store.memberships@[k]).start.day != (
                    #[trigger] conn.store.memberships@[l]).start.day,
                forall|k: int|
                    old(conn).store.memberships@.len() <= k < conn.store.memberships@.len()
                        ==> used@.contains((#[trigger] conn.store.memberships@[k]).start.day),
                nrs_ok(conn.store.memberships@, conn.store.next_nr as int),
                conn.store.causes@ == old(conn).store.causes@,
                conn.store.trials@ == old(conn).store.trials@,
                conn.store.settings@ == old(conn).store.settings@,
            decreases 101 - retries + (if placed {
                0int
            } else {
                1int
            }),
        {
            if placed {
                break ;
            }
            let from_raw: u16 = rand::random::<u16>();
            let dist: u8 = rand::random::<u8>();
            let open_end: bool = rand::random::<bool>();
            let (from, to) = datepair_from(from_raw, dist, open_end, retries);
            if !day_used(&used, from.day) {
                let ghost used_before = used@;
                used.push(from.day);
                proof {
                    assert(used@[used@.len() - 1] == from.day);
                    assert forall|d: i64| used_before.contains(d) implies used@.contains(d) by {
                        let w = choose|w: int| 0 <= w < used_before.len() && used_before[w] == d;
                        assert(used@[w] == d);
                    }
                }
                match to {
                    Some(d) => {
                        insert_membership(conn, &id, &from, Some(&d));
                    },
                    None => {
                        insert_membership(conn, &id, &from, None);
                    },
                }
                placed = true;
            }
            retries = retries + 1;
        }
        if !placed {
            return false;
        }
        inserted += 1;
    }
    true
}

/// Is this opening day taken already?
fn day_used(used: &Vec<i64>, day: i64) -> (b: bool)
    ensures
        b == used@.contains(day),
{
    let mut k: usize = 0;
    while k < used.len()
        invariant
            k <= used.len(),
            forall|j: int| 0 <= j < k ==> used@[j] != day,
        decreases used.len() - k,
    {
        if used[k] == day {
            assert(used@[k as int] == day);
            return true;
        }
        k += 1;
    }
    false
}

} // verus!
