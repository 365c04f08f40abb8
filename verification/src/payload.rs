//! Typed decoding of the JSON payloads: one trusted decode step per
//! payload kind turns the untrusted tree into a plain record of
//! optional fields, and an uninterpreted name ties that record to the
//! input text, so that the extractor's own contracts can fix their
//! results over the input alone.
//!
//! A field decodes to `None` when its key is absent (or null), to
//! `Some(None)` when the key is present but the value has the wrong
//! type, and to `Some(Some(v))` otherwise.

use vstd::prelude::*;

verus! {

/// One roster account record, decoded to plain fields: whether the
/// record carries the membership marker key (with a non-null value),
/// and the four required member fields.
#[derive(Clone, Debug, PartialEq)]
pub struct RawRecord {
    pub has_marker: bool,
    pub name: Option<Option<String>>,
    pub id: Option<Option<i32>>,
    pub exp: Option<Option<i64>>,
    pub contribution: Option<Option<i32>>,
}

/// The roster payload head: the decoder's syntax diagnostic, the
/// total-count field, and how many entries the account array holds.
#[derive(Clone, Debug)]
pub struct RawRosterHead {
    pub syntax_error: Option<String>,
    pub total: Option<Option<i32>>,
    pub member_count: usize,
}

/// The profile payload: the decoder's syntax diagnostic, the status
/// code field, the header record count, and the first header record's
/// name field.
#[derive(Clone, Debug)]
pub struct RawProfile {
    pub syntax_error: Option<String>,
    pub err_id: Option<Option<i32>>,
    pub header_len: usize,
    pub nick: Option<Option<String>>,
}

/// Spec-level image of one decoded roster record.
pub struct RecordDoc {
    pub has_marker: bool,
    pub name: Option<Option<Seq<char>>>,
    pub id: Option<Option<i32>>,
    pub exp: Option<Option<i64>>,
    pub contribution: Option<Option<i32>>,
}

/// Spec-level image of the decoded roster head.
pub struct RosterHeadDoc {
    pub syntax_error: Option<Seq<char>>,
    pub total: Option<Option<i32>>,
    pub member_count: int,
}

/// Spec-level image of the decoded profile payload.
pub struct ProfileDoc {
    pub syntax_error: Option<Seq<char>>,
    pub err_id: Option<Option<i32>>,
    pub header_len: int,
    pub nick: Option<Option<Seq<char>>>,
}

pub open spec fn record_view(r: RawRecord) -> RecordDoc {
    RecordDoc {
        has_marker: r.has_marker,
        name: match r.name {
            None => None,
            Some(None) => Some(None),
            Some(Some(s)) => Some(Some(s@)),
        },
        id: r.id,
        exp: r.exp,
        contribution: r.contribution,
    }
}

pub open spec fn roster_head_view(r: RawRosterHead) -> RosterHeadDoc {
    RosterHeadDoc {
        syntax_error: match r.syntax_error {
            None => None,
            Some(s) => Some(s@),
        },
        total: r.total,
        member_count: r.member_count as int,
    }
}

pub open spec fn profile_view(r: RawProfile) -> ProfileDoc {
    ProfileDoc {
        syntax_error: match r.syntax_error {
            None => None,
            Some(s) => Some(s@),
        },
        err_id: r.err_id,
        header_len: r.header_len as int,
        nick: match r.nick {
            None => None,
            Some(None) => Some(None),
            Some(Some(s)) => Some(Some(s@)),
        },
    }
}

/// What decoding the head of a roster payload yields, as a function
/// of the payload text alone.
pub uninterp spec fn roster_head_of(s: Seq<char>) -> RosterHeadDoc;

/// What decoding account record `i` of a roster payload yields, as a
/// function of the payload text and the index alone.
pub uninterp spec fn roster_record_of(s: Seq<char>, i: int) -> RecordDoc;

/// What decoding a profile payload yields, as a function of the
/// payload text alone.
pub uninterp spec fn profile_doc_of(s: Seq<char>) -> ProfileDoc;

/// Relies on json::parse (a syntax failure becomes the diagnostic
/// text via json::Error's Display impl), JsonValue's str indexing and
/// take (an absent key reads as null), is_null, as_i32 and
/// JsonValue::members (array entries; none for a non-array).
#[verifier::external_body]
pub(crate) fn decode_roster_head(input: &str) -> (r: RawRosterHead)
    ensures
        roster_head_view(r) == roster_head_of(input@),
{
    match json::parse(input) {
        Err(e) => RawRosterHead { syntax_error: Some(format!("{}", e)), total: None, member_count: 0 },
        Ok(mut v) => {
            let t = v["Total_Count"].take();
            let total = if t.is_null() { None } else { Some(t.as_i32()) };
            let member_count = v["members"].members().count();
            RawRosterHead { syntax_error: None, total, member_count }
        },
    }
}

/// Relies on json::parse, JsonValue's str and usize indexing and take
/// (absent paths read as null; the restructuring its mutable indexing
/// performs on missing paths stays inside the discarded tree),
/// is_null, take_string, as_i32 and as_i64.  A payload with a syntax
/// error decodes every record as all-absent.
#[verifier::external_body]
pub(crate) fn decode_roster_record(input: &str, i: usize) -> (r: RawRecord)
    ensures
        record_view(r) == roster_record_of(input@, i as int),
{
    let mut parsed = json::parse(input).unwrap_or(json::JsonValue::Null);
    let rec = &mut parsed["members"][i];
    let has_marker = !rec["position_title"].is_null();
    let mut n = rec["name"].take();
    let name = if n.is_null() { None } else { Some(n.take_string()) };
    let u = rec["USN"].take();
    let id = if u.is_null() { None } else { Some(u.as_i32()) };
    let x = rec["xp_point"].take();
    let exp = if x.is_null() { None } else { Some(x.as_i64()) };
    let c = rec["contribution"].take();
    let contribution = if c.is_null() { None } else { Some(c.as_i32()) };
    RawRecord { has_marker, name, id, exp, contribution }
}

/// Relies on json::parse, JsonValue's str and usize indexing and
/// take, as_i32, len (array or object entry count, 0 otherwise),
/// is_null and take_string.
#[verifier::external_body]
pub(crate) fn decode_profile(input: &str) -> (r: RawProfile)
    ensures
        profile_view(r) == profile_doc_of(input@),
{
    match json::parse(input) {
        Err(e) => RawProfile { syntax_error: Some(format!("{}", e)), err_id: None, header_len: 0, nick: None },
        Ok(mut v) => {
            let eid = v["p_o_ErrID"].take();
            let err_id = if eid.is_null() { None } else { Some(eid.as_i32()) };
            let mut head = v["dsProfileHeaderInfo"].take();
            let header_len = head.len();
            let mut nk = head[0]["NICK"].take();
            let nick = if nk.is_null() { None } else { Some(nk.take_string()) };
            RawProfile { syntax_error: None, err_id, header_len, nick }
        },
    }
}

} // verus!
