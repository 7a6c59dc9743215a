//! Identifiers, progress records, progress updates and their string forms.

use popusk::comps_appearance::{
    entitybase_to_fullinfo_string, entitybase_to_oneline_string, entitytype_to_string,
    parse_string_to_integer, parse_string_to_tags, progress_from_string, progress_to_string,
    progress_update_from_string, tags_to_string, trim_str, AppearanceParseError,
};
use popusk::comps_interaction::libentity_has_progress;
use popusk::id::{parse_u64_dec, u64_to_dec_string};
use popusk::storage::{filename_from_id, id_from_filename};
use popusk::{EntityBase, EntityType, Progress, ProgressUpdate, ProgressUpdateError, ID};

#[test]
fn decimal_rendering() {
    assert_eq!(u64_to_dec_string(0), "0");
    assert_eq!(u64_to_dec_string(7), "7");
    assert_eq!(u64_to_dec_string(1234567890), "1234567890");
    assert_eq!(u64_to_dec_string(u64::MAX), "18446744073709551615");
}

#[test]
fn decimal_parsing() {
    assert_eq!(parse_u64_dec("0").unwrap(), 0);
    assert_eq!(parse_u64_dec("9876").unwrap(), 9876);
    assert_eq!(parse_u64_dec("18446744073709551615").unwrap(), u64::MAX);
    assert!(parse_u64_dec("").is_err());
    assert!(parse_u64_dec("12a").is_err());
    assert!(parse_u64_dec("-3").is_err());
    assert!(parse_u64_dec("18446744073709551616").is_err());
}

#[test]
fn identifier_round_trips_through_its_decimal_form() {
    for v in [0u64, 1, 9, 10, 4095, u64::MAX] {
        let name = filename_from_id(ID(v));
        assert_eq!(id_from_filename(&name).unwrap(), ID(v));
    }
}

#[test]
fn progress_construction_and_clamping() {
    let mut p = Progress::new(5);
    assert_eq!(p.passed(), 0);
    assert_eq!(p.ceiling(), 5);
    p.forward_by(3);
    assert_eq!(p.passed(), 3);
    p.forward_by(100);
    assert_eq!(p.passed(), 5);
    p.backward_by(2);
    assert_eq!(p.passed(), 3);
    p.backward_by(100);
    assert_eq!(p.passed(), 0);
    p.set_passed(4);
    assert_eq!(p.passed(), 4);
}

#[test]
fn progress_update_set_is_checked() {
    let mut p = Progress::with_passed(2, 5);
    let r = ProgressUpdate::set(7).execute_for(&mut p);
    assert_eq!(
        r,
        Err(ProgressUpdateError::InvalidPassedValue { invalid_passed_val: 7, ceiling: 5 })
    );
    assert_eq!(p.passed(), 2);
    assert_eq!(ProgressUpdate::set(4).execute_for(&mut p), Ok(()));
    assert_eq!(p.passed(), 4);
}

#[test]
fn progress_update_relative_moves_clamp() {
    let mut p = Progress::with_passed(2, 5);
    assert_eq!(ProgressUpdate::increase(100).execute_for(&mut p), Ok(()));
    assert_eq!(p.passed(), 5);
    assert_eq!(ProgressUpdate::decrease(100).execute_for(&mut p), Ok(()));
    assert_eq!(p.passed(), 0);
    assert_eq!(ProgressUpdate::leave().execute_for(&mut p), Ok(()));
    assert_eq!(p.passed(), 0);
    assert_eq!(p.ceiling(), 5);
}

#[test]
fn entity_types_render_lower_case() {
    assert_eq!(entitytype_to_string(EntityType::Section), "section");
    assert_eq!(entitytype_to_string(EntityType::Document), "document");
    assert_eq!(entitytype_to_string(EntityType::Regular), "regular");
}

#[test]
fn only_documents_carry_progress() {
    assert!(libentity_has_progress(EntityType::Document));
    assert!(!libentity_has_progress(EntityType::Section));
    assert!(!libentity_has_progress(EntityType::Regular));
}

#[test]
fn tags_parse_with_trimming() {
    let tags = parse_string_to_tags("rust, verus ,  proofs");
    assert_eq!(tags, vec!["rust", "verus", "proofs"]);
    assert_eq!(parse_string_to_tags("one"), vec!["one"]);
}

#[test]
fn trimming_strips_blanks() {
    assert_eq!(trim_str("  a b \t"), "a b");
    assert_eq!(trim_str("x"), "x");
    assert_eq!(trim_str("   "), "");
}

#[test]
fn progress_strings_round_trip() {
    let p = Progress::with_passed(3, 5);
    assert_eq!(progress_to_string(&p), "3/5");
    let q = progress_from_string("3/5").unwrap();
    assert_eq!(q.passed(), 3);
    assert_eq!(q.ceiling(), 5);
}

#[test]
fn progress_string_rejections() {
    assert_eq!(
        progress_from_string("35"),
        Err(AppearanceParseError::MissingSeparator)
    );
    assert_eq!(
        progress_from_string("a/5"),
        Err(AppearanceParseError::NotAnInteger)
    );
    assert_eq!(
        progress_from_string("6/5"),
        Err(AppearanceParseError::PassedAboveCeiling)
    );
    assert_eq!(
        progress_from_string("0/0"),
        Err(AppearanceParseError::ZeroCeiling)
    );
}

#[test]
fn progress_update_strings() {
    assert_eq!(
        progress_update_from_string("+3").unwrap(),
        ProgressUpdate::Increase(3)
    );
    assert_eq!(
        progress_update_from_string("-2").unwrap(),
        ProgressUpdate::Decrease(2)
    );
    assert_eq!(
        progress_update_from_string("7").unwrap(),
        ProgressUpdate::SetTo(7)
    );
    assert_eq!(
        progress_update_from_string(""),
        Err(AppearanceParseError::EmptyUpdate)
    );
    assert_eq!(
        progress_update_from_string("+x"),
        Err(AppearanceParseError::NotAnInteger)
    );
}

#[test]
fn integer_parsing_for_humans() {
    assert_eq!(parse_string_to_integer("42").unwrap(), 42);
    assert_eq!(
        parse_string_to_integer("4 2"),
        Err(AppearanceParseError::NotAnInteger)
    );
}

#[test]
fn tag_list_rendering() {
    assert_eq!(tags_to_string(&vec![]), "<no tags>");
    assert_eq!(
        tags_to_string(&vec!["a".to_string(), "b".to_string()]),
        "a, b"
    );
}

#[test]
fn entitybase_renderings() {
    let base = EntityBase::new(
        ID(3),
        "guide".to_string(),
        EntityType::Document,
        vec!["rust".to_string(), "verus".to_string()],
    );
    assert_eq!(
        entitybase_to_oneline_string(&base),
        "{ id: 3, name: 'guide' }"
    );
    assert_eq!(
        entitybase_to_fullinfo_string(&base),
        "Name: 'guide'\nID: 3\nType: document\nTags: rust, verus"
    );
}

#[test]
fn entitybase_accessors() {
    let mut base = EntityBase::new(ID(1), "n".to_string(), EntityType::Regular, vec![]);
    assert_eq!(base.id(), ID(1));
    assert_eq!(base.name().as_str(), "n");
    assert_eq!(base.etype(), EntityType::Regular);
    assert!(base.tags().is_empty());
    *base.name_mut() = "m".to_string();
    base.tags_mut().push("t".to_string());
    let (id, name, etype, tags) = base.destruct();
    assert_eq!(id, ID(1));
    assert_eq!(name, "m");
    assert_eq!(etype, EntityType::Regular);
    assert_eq!(tags, vec!["t".to_string()]);
}
