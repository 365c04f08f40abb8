//! The extractor: typed decoding of the external payloads.
//!
//! `parse_clan` reads the four clan statistics out of markup.  Each of
//! the four patterns is matched independently so that a partial
//! upstream markup change is diagnosed by field; a missing pattern
//! yields an error naming exactly that field, and a digit run beyond
//! the field's numeric bound is an error, never a silent truncation.
//!
//! `parse_all_member` and `parse_profile` go through the named typed
//! decodes of the payload module, so their contracts fix the result
//! over the input text alone: a marker-less record is silently
//! excluded, a marker-bearing record missing a field rejects the
//! whole roster with the exact field-named error, and the sentinel
//! status code is the valid does-not-exist outcome.

use vstd::prelude::*;
use vstd::string::StringSliceAdditionalSpecFns;
use crate::domain::{Clan, Field, Member, ParseError, StatField};
use crate::payload::{
    decode_profile, decode_roster_head, decode_roster_record, profile_doc_of, record_view,
    roster_head_of, roster_record_of, RawProfile, RawRecord, RawRosterHead, RecordDoc,
};
use crate::scan::{
    capture_of, digits_value, digits_value_capped, find_capture, first_match_from,
    lemma_run_len_class, run_len, CharClass,
};

verus! {

/// Literal markup before the digit run of one statistic: the bytes of
/// `<div>` for the member count, and of `<div class="match_details">`
/// for the three match counters.
pub open spec fn stat_prefix(f: StatField) -> Seq<u8> {
    match f {
        StatField::Members => seq![60, 100, 105, 118, 62],
        _ => seq![60, 100, 105, 118, 32, 99, 108, 97, 115, 115, 61, 34, 109, 97, 116, 99, 104, 95, 100, 101, 116, 97, 105, 108, 115, 34, 62],
    }
}

/// Literal markup after the digit run of one statistic: the bytes of
/// `<br><span>Wins</span>`, `<br><span>Losses</span>` and
/// `<br><span>Draws</span>` for the match counters, and of
/// `Clan members` for the member count.
pub open spec fn stat_suffix(f: StatField) -> Seq<u8> {
    match f {
        StatField::Wins => seq![60, 98, 114, 62, 60, 115, 112, 97, 110, 62, 87, 105, 110, 115, 60, 47, 115, 112, 97, 110, 62],
        StatField::Losses => seq![60, 98, 114, 62, 60, 115, 112, 97, 110, 62, 76, 111, 115, 115, 101, 115, 60, 47, 115, 112, 97, 110, 62],
        StatField::Draws => seq![60, 98, 114, 62, 60, 115, 112, 97, 110, 62, 68, 114, 97, 119, 115, 60, 47, 115, 112, 97, 110, 62],
        StatField::Members => seq![67, 108, 97, 110, 32, 109, 101, 109, 98, 101, 114, 115],
    }
}

/// Whether one stray non-newline byte may stand between the run and
/// the suffix.
pub open spec fn stat_gap(f: StatField) -> bool {
    f is Members
}

/// The numeric bound of the field: a count of members is 8-bit, the
/// match counters are 16-bit.
pub open spec fn stat_cap(f: StatField) -> int {
    if f is Members {
        255
    } else {
        65535
    }
}

/// The pattern of statistic `f` occurs somewhere in the markup.
pub open spec fn stat_found(s: Seq<u8>, f: StatField) -> bool {
    first_match_from(s, stat_prefix(f), stat_suffix(f), stat_gap(f), CharClass::Digits, 0) >= 0
}

/// The decimal value captured by the leftmost occurrence of the
/// pattern of `f`.
pub open spec fn stat_value(s: Seq<u8>, f: StatField) -> int {
    digits_value(capture_of(s, stat_prefix(f), stat_suffix(f), stat_gap(f), CharClass::Digits))
}

/// What `parse_clan` returns for a markup payload, byte for byte: the
/// fields are probed in the order wins, draws, losses, members, and
/// the first missing pattern or out-of-range value decides the error.
pub open spec fn spec_parse_clan(s: Seq<u8>) -> Result<Clan, ParseError> {
    if !stat_found(s, StatField::Wins) {
        Err(ParseError::PatternNotFound(StatField::Wins))
    } else if stat_value(s, StatField::Wins) > stat_cap(StatField::Wins) {
        Err(ParseError::ValueOutOfRange(StatField::Wins))
    } else if !stat_found(s, StatField::Draws) {
        Err(ParseError::PatternNotFound(StatField::Draws))
    } else if stat_value(s, StatField::Draws) > stat_cap(StatField::Draws) {
        Err(ParseError::ValueOutOfRange(StatField::Draws))
    } else if !stat_found(s, StatField::Losses) {
        Err(ParseError::PatternNotFound(StatField::Losses))
    } else if stat_value(s, StatField::Losses) > stat_cap(StatField::Losses) {
        Err(ParseError::ValueOutOfRange(StatField::Losses))
    } else if !stat_found(s, StatField::Members) {
        Err(ParseError::PatternNotFound(StatField::Members))
    } else if stat_value(s, StatField::Members) > stat_cap(StatField::Members) {
        Err(ParseError::ValueOutOfRange(StatField::Members))
    } else {
        Ok(
            Clan {
                members: stat_value(s, StatField::Members) as u8,
                wins: stat_value(s, StatField::Wins) as u16,
                losses: stat_value(s, StatField::Losses) as u16,
                draws: stat_value(s, StatField::Draws) as u16,
            },
        )
    }
}

fn stat_prefix_bytes(f: StatField) -> (v: Vec<u8>)
    ensures
        v@ == stat_prefix(f),
{
    let mut v: Vec<u8> = Vec::new();
    match f {
        StatField::Members => {
            v.push(60);
            v.push(100);
            v.push(105);
            v.push(118);
            v.push(62);
        }
        _ => {
            v.push(60);
            v.push(100);
            v.push(105);
            v.push(118);
            v.push(32);
            v.push(99);
            v.push(108);
            v.push(97);
            v.push(115);
            v.push(115);
            v.push(61);
            v.push(34);
            v.push(109);
            v.push(97);
            v.push(116);
            v.push(99);
            v.push(104);
            v.push(95);
            v.push(100);
            v.push(101);
            v.push(116);
            v.push(97);
            v.push(105);
            v.push(108);
            v.push(115);
            v.push(34);
            v.push(62);
        }
    }
    assert(v@ =~= stat_prefix(f));
    v
}

fn stat_suffix_bytes(f: StatField) -> (v: Vec<u8>)
    ensures
        v@ == stat_suffix(f),
{
    let mut v: Vec<u8> = Vec::new();
    match f {
        StatField::Wins => {
            v.push(60);
            v.push(98);
            v.push(114);
            v.push(62);
            v.push(60);
            v.push(115);
            v.push(112);
            v.push(97);
            v.push(110);
            v.push(62);
            v.push(87);
            v.push(105);
            v.push(110);
            v.push(115);
            v.push(60);
            v.push(47);
            v.push(115);
            v.push(112);
            v.push(97);
            v.push(110);
            v.push(62);
        }
        StatField::Losses => {
            v.push(60);
            v.push(98);
            v.push(114);
            v.push(62);
            v.push(60);
            v.push(115);
            v.push(112);
            v.push(97);
            v.push(110);
            v.push(62);
            v.push(76);
            v.push(111);
            v.push(115);
            v.push(115);
            v.push(101);
            v.push(115);
            v.push(60);
            v.push(47);
            v.push(115);
            v.push(112);
            v.push(97);
            v.push(110);
            v.push(62);
        }
        StatField::Draws => {
            v.push(60);
            v.push(98);
            v.push(114);
            v.push(62);
            v.push(60);
            v.push(115);
            v.push(112);
            v.push(97);
            v.push(110);
            v.push(62);
            v.push(68);
            v.push(114);
            v.push(97);
            v.push(119);
            v.push(115);
            v.push(60);
            v.push(47);
            v.push(115);
            v.push(112);
            v.push(97);
            v.push(110);
            v.push(62);
        }
        StatField::Members => {
            v.push(67);
            v.push(108);
            v.push(97);
            v.push(110);
            v.push(32);
            v.push(109);
            v.push(101);
            v.push(109);
            v.push(98);
            v.push(101);
            v.push(114);
            v.push(115);
        }
    }
    assert(v@ =~= stat_suffix(f));
    v
}

/// Probe one statistic: find its pattern and read the captured value.
fn stat_field_value(s: &[u8], f: StatField) -> (r: Result<u32, ParseError>)
    ensures
        ({
            let found = stat_found(s@, f);
            let v = stat_value(s@, f);
            match r {
                Ok(x) => found && v <= stat_cap(f) && x == v,
                Err(e) => (!found && e == ParseError::PatternNotFound(f)) || (found && v > stat_cap(
                    f,
                ) && e == ParseError::ValueOutOfRange(f)),
            }
        }),
{
    let pre = stat_prefix_bytes(f);
    let suf = stat_suffix_bytes(f);
    let gap = match f {
        StatField::Members => true,
        _ => false,
    };
    let cap: u32 = match f {
        StatField::Members => 255,
        _ => 65535,
    };
    match find_capture(s, pre.as_slice(), suf.as_slice(), gap, CharClass::Digits) {
        None => Err(ParseError::PatternNotFound(f)),
        Some((a, n)) => {
            assert forall|j: int| a <= j < a + n implies crate::scan::class_holds(
                CharClass::Digits,
                s@[j],
            ) by {
                lemma_run_len_class(s@, CharClass::Digits, a as int, j - a);
            }
            proof {
                assert(capture_of(s@, stat_prefix(f), stat_suffix(f), stat_gap(f), CharClass::Digits)
                    =~= s@.subrange(a as int, (a + n) as int));
            }
            match digits_value_capped(s, a, n, cap) {
                Some(x) => Ok(x),
                None => Err(ParseError::ValueOutOfRange(f)),
            }
        },
    }
}

/// Parse a clan markup payload into the four aggregate counters.
pub fn parse_clan(input: &str) -> (r: Result<Clan, ParseError>)
    ensures
        r == spec_parse_clan(input.spec_bytes()),
{
    let s = input.as_bytes();
    let wins = match stat_field_value(s, StatField::Wins) {
        Ok(x) => x,
        Err(e) => {
            return Err(e);
        },
    };
    let draws = match stat_field_value(s, StatField::Draws) {
        Ok(x) => x,
        Err(e) => {
            return Err(e);
        },
    };
    let losses = match stat_field_value(s, StatField::Losses) {
        Ok(x) => x,
        Err(e) => {
            return Err(e);
        },
    };
    let members = match stat_field_value(s, StatField::Members) {
        Ok(x) => x,
        Err(e) => {
            return Err(e);
        },
    };
    Ok(
        Clan {
            members: members as u8,
            wins: wins as u16,
            losses: losses as u16,
            draws: draws as u16,
        },
    )
}

/// Exact assembly of one member from its four independently read
/// fields: the first failing field, in the order name, id, experience,
/// contribution, decides the error; with all four present the member
/// is built from exactly those values.
pub open spec fn spec_member_from_parts(
    name: Result<String, ParseError>,
    id: Result<i32, ParseError>,
    exp: Result<i64, ParseError>,
    contribution: Result<i32, ParseError>,
) -> Result<Member, ParseError> {
    match name {
        Err(e) => Err(e),
        Ok(n) => match id {
            Err(e) => Err(e),
            Ok(i) => match exp {
                Err(e) => Err(e),
                Ok(x) => match contribution {
                    Err(e) => Err(e),
                    Ok(c) => Ok(Member { name: n, id: i, exp: x, contribution: c }),
                },
            },
        },
    }
}

/// Combine the four field reads of one marker-bearing record.
pub fn member_from_parts(
    name: Result<String, ParseError>,
    id: Result<i32, ParseError>,
    exp: Result<i64, ParseError>,
    contribution: Result<i32, ParseError>,
) -> (r: Result<Member, ParseError>)
    ensures
        r == spec_member_from_parts(name, id, exp, contribution),
{
    match name {
        Err(e) => Err(e),
        Ok(n) => match id {
            Err(e) => Err(e),
            Ok(i) => match exp {
                Err(e) => Err(e),
                Ok(x) => match contribution {
                    Err(e) => Err(e),
                    Ok(c) => Ok(Member { name: n, id: i, exp: x, contribution: c }),
                },
            },
        },
    }
}

/// Exact folding of per-record outcomes into a roster: the first
/// record error, in roster order, rejects the whole roster; otherwise
/// the members are the parsed records in order, with the non-member
/// records silently excluded.
pub open spec fn spec_collect_members(rs: Seq<Result<Option<Member>, ParseError>>) -> Result<
    Seq<Member>,
    ParseError,
>
    decreases rs.len(),
{
    if rs.len() == 0 {
        Ok(Seq::empty())
    } else {
        match rs[0] {
            Err(e) => Err(e),
            Ok(None) => spec_collect_members(rs.subrange(1, rs.len() as int)),
            Ok(Some(m)) => match spec_collect_members(rs.subrange(1, rs.len() as int)) {
                Err(e) => Err(e),
                Ok(t) => Ok(seq![m] + t),
            },
        }
    }
}

/// Fold the per-record outcomes of one roster.
#[verifier::loop_isolation(false)]
pub fn collect_members(rs: Vec<Result<Option<Member>, ParseError>>) -> (r: Result<
    Vec<Member>,
    ParseError,
>)
    ensures
        match r {
            Ok(v) => spec_collect_members(rs@) == Ok::<Seq<Member>, ParseError>(v@),
            Err(e) => spec_collect_members(rs@) == Err::<Seq<Member>, ParseError>(e),
        },
{
    let mut rest = rs;
    let mut acc: Vec<Member> = Vec::new();
    let ghost whole = rest@;
    proof {
        assert(whole.subrange(0, whole.len() as int) =~= whole);
    }
    while rest.len() > 0
        invariant
            spec_collect_members(whole) == (match spec_collect_members(rest@) {
                Ok(t) => Ok::<Seq<Member>, ParseError>(acc@ + t),
                Err(e) => Err::<Seq<Member>, ParseError>(e),
            }),
        decreases rest.len(),
    {
        let ghost pre = rest@;
        let head = rest.remove(0);
        proof {
            assert(pre.subrange(1, pre.len() as int) =~= rest@);
        }
        match head {
            Err(e) => {
                proof {
                    assert(pre[0] == Err::<Option<Member>, ParseError>(e));
                    assert(spec_collect_members(pre) == Err::<Seq<Member>, ParseError>(e));
                }
                return Err(e);
            },
            Ok(None) => {
                proof {
                    assert(pre[0] == Ok::<Option<Member>, ParseError>(None));
                    assert(spec_collect_members(pre) == spec_collect_members(rest@));
                }
            },
            Ok(Some(m)) => {
                let ghost acc_old = acc@;
                proof {
                    assert(pre[0] == Ok::<Option<Member>, ParseError>(Some(m)));
                    assert(spec_collect_members(pre) == (match spec_collect_members(rest@) {
                        Ok(t) => Ok::<Seq<Member>, ParseError>(seq![m] + t),
                        Err(e) => Err::<Seq<Member>, ParseError>(e),
                    }));
                }
                acc.push(m);
                proof {
                    assert(acc@ =~= acc_old.push(m));
                    match spec_collect_members(rest@) {
                        Ok(t) => {
                            assert(spec_collect_members(whole) == Ok::<Seq<Member>, ParseError>(
                                acc_old + (seq![m] + t),
                            ));
                            assert(acc@ + t =~= acc_old + (seq![m] + t));
                        },
                        Err(e) => {
                            assert(spec_collect_members(whole) == Err::<Seq<Member>, ParseError>(
                                e,
                            ));
                        },
                    }
                }
            },
        }
    }
    proof {
        assert(rest@.len() == 0);
        assert(acc@ + Seq::<Member>::empty() =~= acc@);
    }
    Ok(acc)
}

/// Spec-level image of one parsed member.
pub struct MemberView {
    pub name: Seq<char>,
    pub id: i32,
    pub exp: i64,
    pub contribution: i32,
}

/// Spec-level image of a parse error, with diagnostic text as a
/// character sequence.
pub enum ParseErrorView {
    Syntax(Seq<char>),
    MissingValue(Field),
    NoString(Field),
    NoI32(Field),
    NoI64(Field),
    EmptyHeader,
    PatternNotFound(StatField),
    ValueOutOfRange(StatField),
}

pub open spec fn member_view(m: Member) -> MemberView {
    MemberView { name: m.name@, id: m.id, exp: m.exp, contribution: m.contribution }
}

pub open spec fn pe_view(e: ParseError) -> ParseErrorView {
    match e {
        ParseError::Syntax(s) => ParseErrorView::Syntax(s@),
        ParseError::MissingValue(f) => ParseErrorView::MissingValue(f),
        ParseError::NoString(f) => ParseErrorView::NoString(f),
        ParseError::NoI32(f) => ParseErrorView::NoI32(f),
        ParseError::NoI64(f) => ParseErrorView::NoI64(f),
        ParseError::EmptyHeader => ParseErrorView::EmptyHeader,
        ParseError::PatternNotFound(f) => ParseErrorView::PatternNotFound(f),
        ParseError::ValueOutOfRange(f) => ParseErrorView::ValueOutOfRange(f),
    }
}

pub open spec fn outcome_view(r: Result<Option<Member>, ParseError>) -> Result<
    Option<MemberView>,
    ParseErrorView,
> {
    match r {
        Ok(None) => Ok(None),
        Ok(Some(m)) => Ok(Some(member_view(m))),
        Err(e) => Err(pe_view(e)),
    }
}

/// What one decoded record yields: no marker, no member and no error;
/// with the marker, the first defective field in the order name, id,
/// experience, contribution decides the exact error, and with all
/// four present the member is built from exactly those values.
pub open spec fn spec_parse_member(rec: RecordDoc) -> Result<Option<MemberView>, ParseErrorView> {
    if !rec.has_marker {
        Ok(None)
    } else {
        match rec.name {
            None => Err(ParseErrorView::MissingValue(Field::Name)),
            Some(None) => Err(ParseErrorView::NoString(Field::Name)),
            Some(Some(nm)) => match rec.id {
                None => Err(ParseErrorView::MissingValue(Field::Usn)),
                Some(None) => Err(ParseErrorView::NoI32(Field::Usn)),
                Some(Some(id)) => match rec.exp {
                    None => Err(ParseErrorView::MissingValue(Field::XpPoint)),
                    Some(None) => Err(ParseErrorView::NoI64(Field::XpPoint)),
                    Some(Some(exp)) => match rec.contribution {
                        None => Err(ParseErrorView::MissingValue(Field::Contribution)),
                        Some(None) => Err(ParseErrorView::NoI32(Field::Contribution)),
                        Some(Some(c)) => Ok(
                            Some(MemberView { name: nm, id, exp, contribution: c }),
                        ),
                    },
                },
            },
        }
    }
}

/// The per-record outcomes of a roster payload, in roster order.
pub open spec fn spec_record_outcomes(s: Seq<char>, n: int) -> Seq<
    Result<Option<MemberView>, ParseErrorView>,
> {
    Seq::new(n as nat, |i: int| spec_parse_member(roster_record_of(s, i)))
}

/// The view-level fold of per-record outcomes, mirroring
/// `spec_collect_members`.
pub open spec fn spec_collect_views(rs: Seq<Result<Option<MemberView>, ParseErrorView>>) -> Result<
    Seq<MemberView>,
    ParseErrorView,
>
    decreases rs.len(),
{
    if rs.len() == 0 {
        Ok(Seq::empty())
    } else {
        match rs[0] {
            Err(e) => Err(e),
            Ok(None) => spec_collect_views(rs.subrange(1, rs.len() as int)),
            Ok(Some(m)) => match spec_collect_views(rs.subrange(1, rs.len() as int)) {
                Err(e) => Err(e),
                Ok(t) => Ok(seq![m] + t),
            },
        }
    }
}

/// What `parse_all_member` returns for a payload, over the named
/// decode: a syntax error first, then the total count (absent or
/// ill-typed is the exact field error), then the fold of every
/// account record.
pub open spec fn spec_parse_all_member(s: Seq<char>) -> Result<
    (Seq<MemberView>, i32),
    ParseErrorView,
> {
    let h = roster_head_of(s);
    match h.syntax_error {
        Some(m) => Err(ParseErrorView::Syntax(m)),
        None => match h.total {
            None => Err(ParseErrorView::MissingValue(Field::TotalCount)),
            Some(None) => Err(ParseErrorView::NoI32(Field::TotalCount)),
            Some(Some(t)) => match spec_collect_views(spec_record_outcomes(s, h.member_count)) {
                Err(e) => Err(e),
                Ok(ms) => Ok((ms, t)),
            },
        },
    }
}

/// The status code that means the account does not exist: a valid
/// empty outcome, not a failure.
pub open spec fn spec_sentinel(err_id: Option<Option<i32>>) -> bool {
    err_id == Some(Some(-702i32))
}

/// What `parse_profile` returns for a payload, over the named decode:
/// a syntax error first; the sentinel status code is the valid
/// does-not-exist outcome; an empty header record list, and an absent
/// or non-string name, are the exact errors.
pub open spec fn spec_parse_profile(s: Seq<char>) -> Result<Option<Seq<char>>, ParseErrorView> {
    let d = profile_doc_of(s);
    match d.syntax_error {
        Some(m) => Err(ParseErrorView::Syntax(m)),
        None => if spec_sentinel(d.err_id) {
            Ok(None)
        } else if d.header_len == 0 {
            Err(ParseErrorView::EmptyHeader)
        } else {
            match d.nick {
                None => Err(ParseErrorView::MissingValue(Field::Nick)),
                Some(None) => Err(ParseErrorView::NoString(Field::Nick)),
                Some(Some(nm)) => Ok(Some(nm)),
            }
        },
    }
}

pub open spec fn roster_result_view(r: Result<(Vec<Member>, i32), ParseError>) -> Result<
    (Seq<MemberView>, i32),
    ParseErrorView,
> {
    match r {
        Ok((ms, t)) => Ok((ms@.map(|i: int, m: Member| member_view(m)), t)),
        Err(e) => Err(pe_view(e)),
    }
}

pub open spec fn profile_result_view(r: Result<Option<String>, ParseError>) -> Result<
    Option<Seq<char>>,
    ParseErrorView,
> {
    match r {
        Ok(None) => Ok(None),
        Ok(Some(s)) => Ok(Some(s@)),
        Err(e) => Err(pe_view(e)),
    }
}

/// Read a decoded string field out of a record.
fn get_string_value(v: Option<Option<String>>, f: Field) -> (r: Result<String, ParseError>)
    ensures
        r == (match v {
            None => Err::<String, ParseError>(ParseError::MissingValue(f)),
            Some(None) => Err::<String, ParseError>(ParseError::NoString(f)),
            Some(Some(s)) => Ok::<String, ParseError>(s),
        }),
{
    match v {
        None => Err(ParseError::MissingValue(f)),
        Some(None) => Err(ParseError::NoString(f)),
        Some(Some(s)) => Ok(s),
    }
}

/// Read a decoded 32-bit integer field out of a record.
fn get_i32_value(v: Option<Option<i32>>, f: Field) -> (r: Result<i32, ParseError>)
    ensures
        r == (match v {
            None => Err::<i32, ParseError>(ParseError::MissingValue(f)),
            Some(None) => Err::<i32, ParseError>(ParseError::NoI32(f)),
            Some(Some(x)) => Ok::<i32, ParseError>(x),
        }),
{
    match v {
        None => Err(ParseError::MissingValue(f)),
        Some(None) => Err(ParseError::NoI32(f)),
        Some(Some(x)) => Ok(x),
    }
}

/// Read a decoded 64-bit integer field out of a record.
fn get_i64_value(v: Option<Option<i64>>, f: Field) -> (r: Result<i64, ParseError>)
    ensures
        r == (match v {
            None => Err::<i64, ParseError>(ParseError::MissingValue(f)),
            Some(None) => Err::<i64, ParseError>(ParseError::NoI64(f)),
            Some(Some(x)) => Ok::<i64, ParseError>(x),
        }),
{
    match v {
        None => Err(ParseError::MissingValue(f)),
        Some(None) => Err(ParseError::NoI64(f)),
        Some(Some(x)) => Ok(x),
    }
}

/// The membership predicate: a record is a current member exactly
/// when it carries the marker key with a non-null value.
pub fn check_is_member(rec: &RawRecord) -> (b: bool)
    ensures
        b == record_view(*rec).has_marker,
{
    rec.has_marker
}

/// Parse one decoded account record: a record without the marker is
/// no member and no error; a marker-bearing record missing any
/// required field is the exact field-named error.
pub fn parse_member(rec: RawRecord) -> (r: Result<Option<Member>, ParseError>)
    ensures
        outcome_view(r) == spec_parse_member(record_view(rec)),
{
    if !check_is_member(&rec) {
        return Ok(None);
    }
    let name = get_string_value(rec.name, Field::Name);
    let id = get_i32_value(rec.id, Field::Usn);
    let exp = get_i64_value(rec.exp, Field::XpPoint);
    let contribution = get_i32_value(rec.contribution, Field::Contribution);
    match member_from_parts(name, id, exp, contribution) {
        Ok(m) => Ok(Some(m)),
        Err(e) => Err(e),
    }
}

/// Folds with matching per-element views fold to matching results.
proof fn lemma_collect_views_match(
    rs: Seq<Result<Option<Member>, ParseError>>,
    vs: Seq<Result<Option<MemberView>, ParseErrorView>>,
)
    requires
        rs.len() == vs.len(),
        forall|j: int| 0 <= j < rs.len() ==> outcome_view(#[trigger] rs[j]) == vs[j],
    ensures
        ({
            match (spec_collect_members(rs), spec_collect_views(vs)) {
                (Ok(ms), Ok(mv)) => ms.map(|i: int, m: Member| member_view(m)) == mv,
                (Err(e), Err(ev)) => pe_view(e) == ev,
                _ => false,
            }
        }),
    decreases rs.len(),
{
    if rs.len() > 0 {
        let rt = rs.subrange(1, rs.len() as int);
        let vt = vs.subrange(1, vs.len() as int);
        assert(forall|j: int| 0 <= j < rt.len() ==> outcome_view(#[trigger] rt[j]) == vt[j]);
        lemma_collect_views_match(rt, vt);
        match rs[0] {
            Err(_) => {},
            Ok(None) => {},
            Ok(Some(m)) => {
                match (spec_collect_members(rt), spec_collect_views(vt)) {
                    (Ok(ms), Ok(mv)) => {
                        assert((seq![m] + ms).map(|i: int, mm: Member| member_view(mm)) =~= seq![
                            member_view(m),
                        ] + ms.map(|i: int, mm: Member| member_view(mm)));
                    },
                    _ => {},
                }
            },
        }
    }
}

/// Parse a roster payload: the total count, then every account
/// record, keeping exactly the marker-bearing records; the first
/// defective marker-bearing record rejects the whole roster.
#[verifier::loop_isolation(false)]
pub fn parse_all_member(input: &str) -> (r: Result<(Vec<Member>, i32), ParseError>)
    ensures
        roster_result_view(r) == spec_parse_all_member(input@),
{
    let head = decode_roster_head(input);
    let RawRosterHead { syntax_error, total, member_count } = head;
    match syntax_error {
        Some(msg) => {
            return Err(ParseError::Syntax(msg));
        },
        None => {},
    }
    let total = match get_i32_value(total, Field::TotalCount) {
        Ok(t) => t,
        Err(e) => {
            return Err(e);
        },
    };
    let mut results: Vec<Result<Option<Member>, ParseError>> = Vec::new();
    let mut i: usize = 0;
    while i < member_count
        invariant
            i <= member_count,
            results@.len() == i,
            forall|j: int|
                0 <= j < i ==> outcome_view(#[trigger] results@[j]) == spec_parse_member(
                    roster_record_of(input@, j),
                ),
        decreases member_count - i,
    {
        let rec = decode_roster_record(input, i);
        let outcome = parse_member(rec);
        results.push(outcome);
        i += 1;
    }
    proof {
        let vs = spec_record_outcomes(input@, member_count as int);
        assert(vs.len() == results@.len());
        assert(forall|j: int|
            0 <= j < results@.len() ==> outcome_view(#[trigger] results@[j]) == vs[j]);
        lemma_collect_views_match(results@, vs);
    }
    match collect_members(results) {
        Ok(ms) => Ok((ms, total)),
        Err(e) => Err(e),
    }
}

/// Parse a profile payload: the sentinel status code means the
/// account does not exist, a valid outcome; an empty header record
/// list or a missing name is an error.
pub fn parse_profile(input: &str) -> (r: Result<Option<String>, ParseError>)
    ensures
        profile_result_view(r) == spec_parse_profile(input@),
{
    let p = decode_profile(input);
    let RawProfile { syntax_error, err_id, header_len, nick } = p;
    match syntax_error {
        Some(msg) => {
            return Err(ParseError::Syntax(msg));
        },
        None => {},
    }
    let sentinel = match err_id {
        Some(Some(code)) => code == -702,
        _ => false,
    };
    if sentinel {
        return Ok(None);
    }
    if header_len == 0 {
        return Err(ParseError::EmptyHeader);
    }
    match get_string_value(nick, Field::Nick) {
        Ok(nm) => Ok(Some(nm)),
        Err(e) => Err(e),
    }
}

} // verus!
