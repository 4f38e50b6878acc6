use std::collections::HashMap;
use vbf::types::display_name::{DisplayName, DisplayNameError};
use vbf::types::key::{Key, KeyError};
use vbf::types::quantity::{Angle, Distance, QuantityError, RotationalSpeed, Speed};
use vbf::types::revision::{RevisionError, StateRevision};
use vbf::types::time::{EventSequence, SimDuration, SimTime, TimeError};
use vbf::types::uid::{EntityUid, IdParseError};

#[test]
fn generated_entity_uid_is_non_nil_v7() {
    let uid = EntityUid::new();
    let uuid = uuid::Uuid::from_u128(uid.as_uuid());
    assert!(!uuid.is_nil());
    assert_eq!(uuid.get_version_num(), 7);
}

#[test]
fn generated_entity_uids_are_distinct_and_ordered() {
    let first = EntityUid::new();
    let second = EntityUid::new();
    assert_ne!(first, second);
    assert!(first < second);
}

#[test]
fn uid_round_trips_through_text() {
    let original = EntityUid::new();
    let restored: EntityUid = original.to_string().parse().expect("generated UID should parse");
    assert_eq!(original, restored);
}

#[test]
fn valid_vbf_key_is_accepted() {
    let key = Key::new("entity.us.42crs.baker.m8_b12").expect("key should be valid");
    assert_eq!(key.as_str(), "entity.us.42crs.baker.m8_b12");
}

#[test]
fn malformed_keys_are_rejected() {
    for candidate in [
        "",
        ".entity",
        "entity.",
        "entity..vehicle",
        "Entity.us",
        "entity.US",
        "_entity",
        "-entity",
        "entity us",
        "entity/us",
        "entity:us",
        "véhicule.us",
    ] {
        assert!(Key::new(candidate).is_err(), "{candidate:?} should fail");
    }
}

#[test]
fn key_supports_borrowed_hashmap_lookup() {
    let key = Key::new("entity.us.m8_b12").expect("valid key");
    let mut map = HashMap::new();
    map.insert(key, 42);
    assert_eq!(map.get("entity.us.m8_b12"), Some(&42));
}

#[test]
fn display_name_accepts_unicode_and_internal_spaces() {
    let name = DisplayName::new("HMS Småland (J19)").expect("valid display name");
    assert_eq!(name.as_str(), "HMS Småland (J19)");
}

#[test]
fn malformed_display_names_are_rejected() {
    assert!(matches!(DisplayName::new("   "), Err(DisplayNameError::Empty)));
    assert!(matches!(
        DisplayName::new(" M8 B-12 "),
        Err(DisplayNameError::LeadingOrTrailingWhitespace)
    ));
    assert!(DisplayName::new("M8\nB-12").is_err());
    assert!(DisplayName::new("M8\tB-12").is_err());
}

#[test]
fn initial_revision_is_zero() {
    assert_eq!(StateRevision::initial().get(), 0);
}

#[test]
fn revision_advances_monotonically() {
    let r0 = StateRevision::initial();
    let r1 = r0.next().expect("revision should advance");
    let r2 = r1.next().expect("revision should advance");
    assert!(r0 < r1);
    assert!(r1 < r2);
}

#[test]
fn revision_overflow_is_detected() {
    let maximum = StateRevision::new(u64::MAX);
    assert_eq!(maximum.next(), Err(RevisionError::Overflow));
}

#[test]
fn time_addition_uses_integer_milliseconds() {
    let start = SimTime::from_millis(10_000);
    let duration = SimDuration::from_seconds(8).expect("valid duration");
    assert_eq!((start + duration).expect("no overflow").as_millis(), 18_000);
}

#[test]
fn equal_sim_times_can_have_distinct_sequence() {
    let time_a = SimTime::from_millis(858_000);
    let time_b = SimTime::from_millis(858_000);
    let seq_a = EventSequence::new(431);
    let seq_b = seq_a.next().expect("sequence should advance");
    assert_eq!(time_a, time_b);
    assert!(seq_a < seq_b);
}

// ----------------------------------------------------------------------
// Further cases
// ----------------------------------------------------------------------

#[test]
fn key_errors_name_the_defect() {
    assert_eq!(Key::new(""), Err(KeyError::Empty));
    assert_eq!(Key::new(".entity"), Err(KeyError::EmptySegment { segment: 0 }));
    assert_eq!(Key::new("entity."), Err(KeyError::EmptySegment { segment: 1 }));
    assert_eq!(Key::new("entity..x"), Err(KeyError::EmptySegment { segment: 1 }));
    assert_eq!(
        Key::new("Entity"),
        Err(KeyError::InvalidSegmentStart { segment: 0, character: 'E' })
    );
    assert_eq!(
        Key::new("entity.uS"),
        Err(KeyError::InvalidCharacter { segment: 1, character_index: 1, character: 'S' })
    );
    let long = "a".repeat(256);
    assert_eq!(Key::new(&long), Err(KeyError::TooLong { actual: 256, maximum: 255 }));
    assert!(Key::new(&"a".repeat(255)).is_ok());
}

#[test]
fn key_segments_split_on_dots() {
    let key = Key::new("entity.us.m8-b12").unwrap();
    assert_eq!(key.segments(), vec!["entity".to_string(), "us".to_string(), "m8-b12".to_string()]);
    assert_eq!(key.into_string(), "entity.us.m8-b12");
}

#[test]
fn key_error_messages() {
    assert_eq!(KeyError::Empty.message(), "key cannot be empty");
}

#[test]
fn display_name_control_character_is_located() {
    assert_eq!(
        DisplayName::new("M8\nB-12"),
        Err(DisplayNameError::ControlCharacter { index: 2, character: '\n' })
    );
    assert_eq!(DisplayName::new(""), Err(DisplayNameError::Empty));
}

#[test]
fn uid_text_is_hyphenated_lowercase() {
    let uid = EntityUid::from_uuid(0x0123_4567_89ab_cdef_0123_4567_89ab_cdef).unwrap();
    assert_eq!(uid.to_string(), "01234567-89ab-cdef-0123-456789abcdef");
    let parsed = EntityUid::parse_text("01234567-89AB-CDEF-0123-456789ABCDEF").unwrap();
    assert_eq!(parsed, uid);
}

#[test]
fn nil_uid_is_rejected() {
    assert!(matches!(EntityUid::from_uuid(0), Err(IdParseError::NilUuid)));
    assert!(matches!(EntityUid::try_from(0u128), Err(IdParseError::NilUuid)));
    assert!(matches!(
        EntityUid::parse_text("00000000-0000-0000-0000-000000000000"),
        Err(IdParseError::NilUuid)
    ));
    assert!(matches!(EntityUid::parse_text("not-a-uuid"), Err(IdParseError::InvalidUuid(_))));
}

#[test]
fn angle_is_normalized() {
    assert_eq!(Angle::from_whole_millidegrees(450_000).as_millidegrees(), 90_000);
    assert_eq!(Angle::from_whole_millidegrees(-90_000).as_millidegrees(), 270_000);
    assert_eq!(Angle::from_millidegrees(360_000), Err(QuantityError::OutOfRange));
    assert_eq!(Angle::from_millidegrees(359_999).unwrap().as_millidegrees(), 359_999);
}

#[test]
fn integer_quantities_keep_their_units() {
    assert_eq!(Distance::from_millimetres(327_400).as_millimetres(), 327_400);
    assert_eq!(Speed::from_mm_per_second(10_000).as_mm_per_second(), 10_000);
    assert_eq!(RotationalSpeed::from_milli_rpm(350_250).as_milli_rpm(), 350_250);
    assert_eq!(Distance::zero().as_millimetres(), 0);
}

#[test]
fn durations_and_time_arithmetic() {
    assert_eq!(SimDuration::from_millis(-1), Err(TimeError::NegativeDuration));
    assert_eq!(SimDuration::from_seconds(i64::MAX), Err(TimeError::Overflow));
    let late = SimTime::from_millis(i64::MAX);
    assert_eq!(late.checked_add(SimDuration::from_millis(1).unwrap()), Err(TimeError::Overflow));
    let t = SimTime::from_millis(5_000);
    assert_eq!((t - SimDuration::from_millis(7_000).unwrap()).unwrap().as_millis(), -2_000);
    assert_eq!(EventSequence::new(u64::MAX).next(), None);
    assert_eq!(EventSequence::zero().get(), 0);
}

#[test]
fn texts_of_errors_quote_their_input() {
    assert_eq!(
        DisplayNameError::ControlCharacter { index: 2, character: '\n' }.message(),
        "display name contains control character '\\n' at position 2"
    );
    assert_eq!(
        KeyError::InvalidSegmentStart { segment: 1, character: 'X' }.message(),
        "key segment 1 begins with invalid character 'X'"
    );
    let err = EntityUid::parse_text("not-a-uuid").unwrap_err();
    let expected = format!("invalid UUID: {}", uuid::Uuid::parse_str("not-a-uuid").unwrap_err());
    assert_eq!(err.message(), expected);
    assert_eq!(IdParseError::NilUuid.message(), "nil UUID is not permitted as a VBF identifier");
}

#[test]
fn time_operators_agree_with_checked_arithmetic() {
    let t = SimTime::from_millis(10_000);
    let d = SimDuration::from_seconds(8).unwrap();
    assert_eq!(t.checked_add(d), Ok(SimTime::from_millis(18_000)));
    assert_eq!(t + d, t.checked_add(d));
    assert_eq!(t - d, t.checked_sub(d));
    assert_eq!(
        SimTime::from_millis(i64::MAX).checked_add(SimDuration::from_millis(1).unwrap()),
        Err(TimeError::Overflow)
    );
}

#[test]
fn key_segments_join_back_to_the_key() {
    let key = Key::new("entity.us.42crs.baker.m8_b12").unwrap();
    let segments = key.segments();
    assert!(segments.iter().all(|s| !s.is_empty()));
    assert_eq!(segments.join("."), key.as_str());
    assert_eq!(segments.len(), 5);
}

#[test]
fn nil_uid_is_rejected_from_uuid_value() {
    assert!(matches!(EntityUid::try_from(0u128), Err(IdParseError::NilUuid)));
    assert!(matches!(EntityUid::from_uuid(0), Err(IdParseError::NilUuid)));
}

#[test]
fn duration_rejects_negative_millis() {
    assert_eq!(SimDuration::from_millis(-1), Err(TimeError::NegativeDuration));
}

#[test]
fn quantities_are_ordered_by_their_units() {
    assert!(Distance::from_millimetres(1) < Distance::from_millimetres(2));
    assert!(StateRevision::initial() < StateRevision::initial().next().unwrap());
    let a = EventSequence::new(431);
    assert!(a < a.next().unwrap());
    assert!(SimTime::from_millis(-5) < SimTime::zero());
}
