//! Discovery of schema objects from create statements: a statement
//! either creates a table, creates or replaces a view (with or
//! without the replace clause), or is not recognised.  The scoped
//! harness uses the discovered kind to order teardown: views are
//! dropped before tables.

use vstd::prelude::*;
use vstd::string::StringSliceAdditionalSpecFns;
use crate::scan::{find_capture, first_match_from, run_len, CharClass};

verus! {

/// The kind of schema object one create statement makes.
#[derive(Clone, Copy, Debug, PartialEq, Eq, Structural)]
pub enum StatementKind {
    Table,
    View,
}

/// Literal bytes before a created table's name: `CREATE TABLE ` and a
/// backtick.
pub open spec fn table_prefix() -> Seq<u8> {
    seq![67, 82, 69, 65, 84, 69, 32, 84, 65, 66, 76, 69, 32, 96]
}

/// Literal bytes after a created table's name: a backtick, a space
/// and an opening parenthesis.
pub open spec fn table_suffix() -> Seq<u8> {
    seq![96, 32, 40]
}

/// Literal bytes before a replaced view's name: `CREATE OR REPLACE
/// VIEW ` and a backtick.
pub open spec fn view_replace_prefix() -> Seq<u8> {
    seq![67, 82, 69, 65, 84, 69, 32, 79, 82, 32, 82, 69, 80, 76, 65, 67, 69, 32, 86, 73, 69, 87, 32, 96]
}

/// Literal bytes before a plainly created view's name: `CREATE VIEW `
/// and a backtick.
pub open spec fn view_plain_prefix() -> Seq<u8> {
    seq![67, 82, 69, 65, 84, 69, 32, 86, 73, 69, 87, 32, 96]
}

/// Literal bytes after a created view's name: a backtick and ` AS`.
pub open spec fn view_suffix() -> Seq<u8> {
    seq![96, 32, 65, 83]
}

/// What scanning a statement yields: the object kind and the byte span
/// (start, length) of its name, table patterns first, then the two
/// view patterns.
pub open spec fn spec_scan_statement(s: Seq<u8>) -> Option<(StatementKind, int, int)> {
    let t = first_match_from(s, table_prefix(), table_suffix(), false, CharClass::NameChars, 0);
    let v1 = first_match_from(
        s,
        view_replace_prefix(),
        view_suffix(),
        false,
        CharClass::NameChars,
        0,
    );
    let v2 = first_match_from(s, view_plain_prefix(), view_suffix(), false, CharClass::NameChars, 0);
    if t >= 0 {
        let a = t + table_prefix().len();
        Some((StatementKind::Table, a, run_len(s, CharClass::NameChars, a)))
    } else if v1 >= 0 {
        let a = v1 + view_replace_prefix().len();
        Some((StatementKind::View, a, run_len(s, CharClass::NameChars, a)))
    } else if v2 >= 0 {
        let a = v2 + view_plain_prefix().len();
        Some((StatementKind::View, a, run_len(s, CharClass::NameChars, a)))
    } else {
        None
    }
}

fn table_prefix_bytes() -> (v: Vec<u8>)
    ensures
        v@ == table_prefix(),
{
    let mut v: Vec<u8> = Vec::new();
    v.push(67);
    v.push(82);
    v.push(69);
    v.push(65);
    v.push(84);
    v.push(69);
    v.push(32);
    v.push(84);
    v.push(65);
    v.push(66);
    v.push(76);
    v.push(69);
    v.push(32);
    v.push(96);
    assert(v@ =~= table_prefix());
    v
}

fn table_suffix_bytes() -> (v: Vec<u8>)
    ensures
        v@ == table_suffix(),
{
    let mut v: Vec<u8> = Vec::new();
    v.push(96);
    v.push(32);
    v.push(40);
    assert(v@ =~= table_suffix());
    v
}

fn view_replace_prefix_bytes() -> (v: Vec<u8>)
    ensures
        v@ == view_replace_prefix(),
{
    let mut v: Vec<u8> = Vec::new();
    v.push(67);
    v.push(82);
    v.push(69);
    v.push(65);
    v.push(84);
    v.push(69);
    v.push(32);
    v.push(79);
    v.push(82);
    v.push(32);
    v.push(82);
    v.push(69);
    v.push(80);
    v.push(76);
    v.push(65);
    v.push(67);
    v.push(69);
    v.push(32);
    v.push(86);
    v.push(73);
    v.push(69);
    v.push(87);
    v.push(32);
    v.push(96);
    assert(v@ =~= view_replace_prefix());
    v
}

fn view_plain_prefix_bytes() -> (v: Vec<u8>)
    ensures
        v@ == view_plain_prefix(),
{
    let mut v: Vec<u8> = Vec::new();
    v.push(67);
    v.push(82);
    v.push(69);
    v.push(65);
    v.push(84);
    v.push(69);
    v.push(32);
    v.push(86);
    v.push(73);
    v.push(69);
    v.push(87);
    v.push(32);
    v.push(96);
    assert(v@ =~= view_plain_prefix());
    v
}

fn view_suffix_bytes() -> (v: Vec<u8>)
    ensures
        v@ == view_suffix(),
{
    let mut v: Vec<u8> = Vec::new();
    v.push(96);
    v.push(32);
    v.push(65);
    v.push(83);
    assert(v@ =~= view_suffix());
    v
}

/// Scan one create statement for the object it creates and the byte
/// span of the object's name.
pub fn scan_statement(stmt: &str) -> (r: Option<(StatementKind, usize, usize)>)
    ensures
        ({
            let spec = spec_scan_statement(stmt.spec_bytes());
            match r {
                None => spec is None,
                Some((kind, a, n)) => spec == Some((kind, a as int, n as int)),
            }
        }),
{
    let s = stmt.as_bytes();
    let tp = table_prefix_bytes();
    let ts = table_suffix_bytes();
    if let Some((a, n)) = find_capture(s, tp.as_slice(), ts.as_slice(), false, CharClass::NameChars) {
        return Some((StatementKind::Table, a, n));
    }
    let vp1 = view_replace_prefix_bytes();
    let vs = view_suffix_bytes();
    if let Some((a, n)) = find_capture(s, vp1.as_slice(), vs.as_slice(), false, CharClass::NameChars) {
        return Some((StatementKind::View, a, n));
    }
    let vp2 = view_plain_prefix_bytes();
    if let Some((a, n)) = find_capture(s, vp2.as_slice(), vs.as_slice(), false, CharClass::NameChars) {
        return Some((StatementKind::View, a, n));
    }
    None
}

} // verus!
