use clantool::domain::{Clan, Field, Member, ParseError, StatField};
use clantool::extract::{check_is_member, parse_all_member, parse_clan, parse_member, parse_profile};
use clantool::payload::RawRecord;

fn record(has_marker: bool, name: &str, id: i32, exp: i64, contribution: i32) -> RawRecord {
    RawRecord {
        has_marker,
        name: Some(Some(name.to_owned())),
        id: Some(Some(id)),
        exp: Some(Some(exp)),
        contribution: Some(Some(contribution)),
    }
}

const PROFILE_VALID: &str = r#"{"p_o_ErrID":0,"dsProfileHeaderInfo":[{"NICK":"Dr.Alptraum","LEVEL":12}]}"#;
const PROFILE_INVALID: &str = r#"{"p_o_ErrID":-702,"dsProfileHeaderInfo":[]}"#;

const MEMBERS_JSON: &str = r#"{"Total_Count":56,"members":[
 {"position_title":"Member","name":"Dr.Alptraum","USN":9926942,"xp_point":10826457,"contribution":6830},
 {"name":"OldAccount","USN":123,"xp_point":1,"contribution":0}
]}"#;

const MEMBER_I64_JSON: &str = r#"{"Total_Count":1,"members":[
 {"position_title":"Member","name":"BigExp","USN":1,"xp_point":5000000000,"contribution":2}
]}"#;

const CLAN_HTTP: &str = "<html><body>\
<div>35 Clan members</div>\
<div class=\"match_details\">12324<br><span>Wins</span></div>\
<div class=\"match_details\">7195<br><span>Losses</span></div>\
<div class=\"match_details\">449<br><span>Draws</span></div>\
</body></html>";

#[test]
fn parse_profile_test() {
    assert_eq!(
        Some("Dr.Alptraum".to_owned()),
        parse_profile(PROFILE_VALID).unwrap()
    );
    assert_eq!(None, parse_profile(PROFILE_INVALID).unwrap());
}

/// Test full parsing of parse_all_member
#[test]
fn parse_all_member_test() {
    let mut var = Vec::new();
    var.push(Member {
        name: String::from("Dr.Alptraum"),
        id: 9926942,
        exp: 10826457,
        contribution: 6830,
    });
    let (r, total) = parse_all_member(MEMBERS_JSON).unwrap();
    assert_eq!(var, r);
    assert_eq!(56, total);
}

/// Test parsing of single member function parse_member
#[test]
fn parse_member_test() {
    let pmember = record(true, "Dr.Alptraum", 9926942, 14444738, 9639);
    let output = parse_member(pmember).unwrap();
    let mem_thomas = Member {
        name: String::from("Dr.Alptraum"),
        id: 9926942,
        exp: 14444738,
        contribution: 9639,
    };
    assert_eq!(output, Some(mem_thomas));
}

/// Test for non-member detection
#[test]
fn parse_member_invalid_test() {
    let pmember = record(false, "Dr.Alptraum", 9926942, 14444738, 9639);
    let output = parse_member(pmember).unwrap();
    assert_eq!(output, None);
}

#[test]
fn check_member_test() {
    let valid_member = record(true, "Dr.Alptraum", 9926942, 10826457, 6830);
    let invalid_member = record(false, "OldAccount", 123, 1, 0);
    assert_eq!(true, check_is_member(&valid_member));
    assert_eq!(false, check_is_member(&invalid_member));
}

#[test]
fn parse_member_field_error_order() {
    let rec = RawRecord {
        has_marker: true,
        name: Some(None),
        id: None,
        exp: Some(Some(1)),
        contribution: Some(Some(2)),
    };
    match parse_member(rec) {
        Err(ParseError::NoString(Field::Name)) => {}
        other => panic!("expected the name error first, got {:?}", other),
    }
}

/// Test clan parsing parse_clan
#[test]
fn parse_clan_test() {
    let clan = Clan {
        members: 35,
        wins: 12324,
        losses: 7195,
        draws: 449,
    };
    let parsed_clan = parse_clan(CLAN_HTTP).unwrap();
    assert_eq!(parsed_clan, clan);
}

#[test]
fn check_member_i64_exp_test() {
    let (r, total) = parse_all_member(MEMBER_I64_JSON).unwrap();
    assert_eq!(1, total);
    assert_eq!(5000000000i64, r[0].exp);
}

#[test]
fn parse_clan_missing_pattern_names_field() {
    let no_wins = "<div>35 Clan members</div>\
<div class=\"match_details\">7195<br><span>Losses</span></div>\
<div class=\"match_details\">449<br><span>Draws</span></div>";
    match parse_clan(no_wins) {
        Err(ParseError::PatternNotFound(StatField::Wins)) => {}
        other => panic!("expected missing wins, got {:?}", other),
    }
    let no_losses = "<div>35 Clan members</div>\
<div class=\"match_details\">12324<br><span>Wins</span></div>\
<div class=\"match_details\">449<br><span>Draws</span></div>";
    match parse_clan(no_losses) {
        Err(ParseError::PatternNotFound(StatField::Losses)) => {}
        other => panic!("expected missing losses, got {:?}", other),
    }
    let no_draws = "<div>35 Clan members</div>\
<div class=\"match_details\">12324<br><span>Wins</span></div>\
<div class=\"match_details\">7195<br><span>Losses</span></div>";
    match parse_clan(no_draws) {
        Err(ParseError::PatternNotFound(StatField::Draws)) => {}
        other => panic!("expected missing draws, got {:?}", other),
    }
    let no_members = "<div class=\"match_details\">12324<br><span>Wins</span></div>\
<div class=\"match_details\">7195<br><span>Losses</span></div>\
<div class=\"match_details\">449<br><span>Draws</span></div>";
    match parse_clan(no_members) {
        Err(ParseError::PatternNotFound(StatField::Members)) => {}
        other => panic!("expected missing members, got {:?}", other),
    }
}

#[test]
fn parse_clan_overflow_is_an_error() {
    let big_wins = "<div>35 Clan members</div>\
<div class=\"match_details\">70000<br><span>Wins</span></div>\
<div class=\"match_details\">7195<br><span>Losses</span></div>\
<div class=\"match_details\">449<br><span>Draws</span></div>";
    match parse_clan(big_wins) {
        Err(ParseError::ValueOutOfRange(StatField::Wins)) => {}
        other => panic!("expected wins out of range, got {:?}", other),
    }
    let big_members = "<div>300 Clan members</div>\
<div class=\"match_details\">12324<br><span>Wins</span></div>\
<div class=\"match_details\">7195<br><span>Losses</span></div>\
<div class=\"match_details\">449<br><span>Draws</span></div>";
    match parse_clan(big_members) {
        Err(ParseError::ValueOutOfRange(StatField::Members)) => {}
        other => panic!("expected member count out of range, got {:?}", other),
    }
}

#[test]
fn parse_clan_leading_zeros_are_value() {
    let padded = "<div>035 Clan members</div>\
<div class=\"match_details\">0012324<br><span>Wins</span></div>\
<div class=\"match_details\">7195<br><span>Losses</span></div>\
<div class=\"match_details\">449<br><span>Draws</span></div>";
    let clan = parse_clan(padded).unwrap();
    assert_eq!(35, clan.members);
    assert_eq!(12324, clan.wins);
}

#[test]
fn parse_profile_errors() {
    match parse_profile("this is not json") {
        Err(ParseError::Syntax(_)) => {}
        other => panic!("expected a syntax error, got {:?}", other),
    }
    match parse_profile(r#"{"p_o_ErrID":0,"dsProfileHeaderInfo":[]}"#) {
        Err(ParseError::EmptyHeader) => {}
        other => panic!("expected an empty header error, got {:?}", other),
    }
    match parse_profile(r#"{"p_o_ErrID":0,"dsProfileHeaderInfo":[{"LEVEL":3}]}"#) {
        Err(ParseError::MissingValue(Field::Nick)) => {}
        other => panic!("expected a missing nick, got {:?}", other),
    }
    match parse_profile(r#"{"p_o_ErrID":0,"dsProfileHeaderInfo":[{"NICK":7}]}"#) {
        Err(ParseError::NoString(Field::Nick)) => {}
        other => panic!("expected nick to be no string, got {:?}", other),
    }
}

#[test]
fn parse_all_member_field_errors() {
    let missing_name = r#"{"Total_Count":1,"members":[
 {"position_title":"Member","USN":1,"xp_point":2,"contribution":3}
]}"#;
    match parse_all_member(missing_name) {
        Err(ParseError::MissingValue(Field::Name)) => {}
        other => panic!("expected a missing name, got {:?}", other),
    }
    let bad_id = r#"{"Total_Count":1,"members":[
 {"position_title":"Member","name":"x","USN":"oops","xp_point":2,"contribution":3}
]}"#;
    match parse_all_member(bad_id) {
        Err(ParseError::NoI32(Field::Usn)) => {}
        other => panic!("expected a bad id, got {:?}", other),
    }
    let missing_total = r#"{"members":[]}"#;
    match parse_all_member(missing_total) {
        Err(ParseError::MissingValue(Field::TotalCount)) => {}
        other => panic!("expected a missing total count, got {:?}", other),
    }
}
