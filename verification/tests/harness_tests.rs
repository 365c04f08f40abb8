use clantool::domain::Date;
use clantool::schema::{scan_statement, StatementKind};
use clantool::testing::{
    connect_db, create_member, insert_full_membership, insert_membership,
    insert_membership_cause, insert_random_membership, insert_settings, insert_trial, setup_db,
    CleanupGuard,
};

/// Test connection
#[test]
fn connection_test() {
    connect_db();
}

/// Test table setup
#[test]
fn setup_tables_test() {
    let (_conn, _guard) = setup_db();
}

/// Verify view statement scanning
#[test]
fn test_view_regex() {
    {
        let test_1 = "CREATE OR REPLACE VIEW `ranked` AS";
        let (kind, a, n) = scan_statement(test_1).unwrap();
        assert_eq!(StatementKind::View, kind);
        assert_eq!("ranked", &test_1[a..a + n]);
    }
    {
        let test_2 = "CREATE OR REPLACE VIEW `ranked` AS";
        let (kind, a, n) = scan_statement(test_2).unwrap();
        assert_eq!(StatementKind::View, kind);
        assert_eq!("ranked", &test_2[a..a + n]);
    }
}

#[test]
fn scan_statement_kinds() {
    let table = "CREATE TABLE `membership` (`nr` int)";
    let (kind, a, n) = scan_statement(table).unwrap();
    assert_eq!(StatementKind::Table, kind);
    assert_eq!("membership", &table[a..a + n]);

    let plain = "CREATE VIEW `ranked` AS";
    let (kind, a, n) = scan_statement(plain).unwrap();
    assert_eq!(StatementKind::View, kind);
    assert_eq!("ranked", &plain[a..a + n]);

    assert!(scan_statement("INSERT INTO `membership` VALUES (1)").is_none());
}

#[test]
fn setup_db_creates_the_schema() {
    let (conn, guard) = setup_db();
    assert_eq!(
        vec!["membership", "membership_cause", "member_trial", "settings"],
        conn.tables
    );
    assert_eq!(conn.tables, guard.tables);
    assert!(conn.store.memberships.is_empty());
    assert!(!guard.disabled);
}

#[test]
fn cleanup_drops_registered_tables() {
    let (mut conn, mut guard) = setup_db();
    guard.cleanup(&mut conn);
    assert!(conn.tables.is_empty());
    assert!(guard.tables.is_empty());
}

#[test]
fn disabled_guard_leaves_everything() {
    let (mut conn, mut guard) = setup_db();
    guard.disabled = true;
    guard.cleanup(&mut conn);
    assert_eq!(4, conn.tables.len());
}

#[test]
fn add_table_registers_one_more() {
    let pool = connect_db();
    let mut guard = CleanupGuard::new(pool);
    guard.add_table("extra".to_owned());
    assert_eq!(vec!["extra"], guard.tables);
}

#[test]
fn create_member_builds_the_value() {
    let m = create_member("Dr.Alptraum", 9926942, 10826457, 6830);
    assert_eq!("Dr.Alptraum", m.name);
    assert_eq!(9926942, m.id);
    assert_eq!(10826457, m.exp);
    assert_eq!(6830, m.contribution);
}

#[test]
fn insert_helpers_fill_the_store() {
    let (mut conn, _guard) = setup_db();
    let nr = insert_membership(&mut conn, &5, &Date { day: 100 }, None);
    assert_eq!(1, nr);
    let nr2 = insert_full_membership(
        &mut conn,
        &5,
        &Date { day: 10 },
        &Date { day: 20 },
        "left on their own",
        false,
    );
    assert_eq!(2, nr2);
    insert_membership_cause(&mut conn, &nr, "removed", true);
    insert_trial(&mut conn, &5, &Date { day: 100 });
    insert_settings(&mut conn, "poll", "daily");

    assert_eq!(2, conn.store.memberships.len());
    assert_eq!(2, conn.store.causes.len());
    assert_eq!("left on their own", conn.store.causes[0].cause);
    assert_eq!("removed", conn.store.causes[1].cause);
    assert!(conn.store.causes[1].kicked);
    assert_eq!(1, conn.store.trials.len());
    assert!(conn.store.trials[0].end.is_none());
    assert_eq!("poll", conn.store.settings[0].key);
    assert_eq!("daily", conn.store.settings[0].value);
}

#[test]
fn random_memberships_have_distinct_openings() {
    let (mut conn, _guard) = setup_db();
    let ok = insert_random_membership(&mut conn, 9, 20);
    assert!(ok);
    assert_eq!(20, conn.store.memberships.len());
    let mut starts: Vec<i64> = conn.store.memberships.iter().map(|p| p.start.day).collect();
    starts.sort();
    starts.dedup();
    assert_eq!(20, starts.len());
    for p in &conn.store.memberships {
        assert_eq!(9, p.id);
        if let Some(e) = p.end {
            assert!(p.start.day <= e.day);
        }
    }
}
