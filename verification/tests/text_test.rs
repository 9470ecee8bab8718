use korun::clock::Timestamp;
use korun::clock::{MAX_SECS, MIN_SECS};
use korun::ids::{new_session_id, session_id_text};
use korun::text::{decimal_text, same_text};

fn at(secs: i64, nanos: u32) -> Timestamp {
    Timestamp::from_parts(secs, nanos).unwrap()
}

#[test]
fn numbers_in_decimal() {
    for n in [0, 7, 10, 99, 100, 1024, 18446744073709551615u64] {
        assert_eq!(decimal_text(n), n.to_string());
    }
}

#[test]
fn texts_are_compared_by_character() {
    assert!(same_text("añ", "añ"));
    assert!(!same_text("a", "A"));
    assert!(same_text("", ""));
    assert!(!same_text("ab", "a"));
}

#[test]
fn times_as_text() {
    let t = at(1_773_662_400, 0);
    assert_eq!(t.to_rfc3339(), "2026-03-16T12:00:00+00:00");
    assert_eq!(t.to_rfc3339_zulu(), "2026-03-16T12:00:00Z");
    let t = at(1_773_662_400, 5_000_000);
    assert_eq!(t.to_rfc3339(), "2026-03-16T12:00:00.005+00:00");
    assert_eq!(t.to_rfc3339_zulu(), "2026-03-16T12:00:00.005Z");
    let t = at(-1, 1);
    assert_eq!(t.to_rfc3339_zulu(), "1969-12-31T23:59:59.000000001Z");
}

#[test]
fn serialized_times_are_the_same_text() {
    for (secs, nanos) in [(0, 0), (1_773_662_400, 123_456_789), (-5, 1_000), (7, 10_000_000)] {
        let time = chrono::DateTime::<chrono::Utc>::from_timestamp(secs, nanos).unwrap();
        let quoted = format!("\"{}\"", at(secs, nanos).to_rfc3339_zulu());
        assert_eq!(serde_json::to_string(&time).unwrap(), quoted);
    }
}

#[test]
fn times_are_bounded_by_the_calendar() {
    assert!(Timestamp::from_parts(0, 1_000_000_000).is_none());
    assert!(Timestamp::from_parts(MAX_SECS + 1, 0).is_none());
    assert!(Timestamp::from_parts(MIN_SECS - 1, 0).is_none());
    assert!(at(MAX_SECS, 999_999_999).to_rfc3339().starts_with("+262142-12-31T23:59:59"));
    assert!(at(MIN_SECS, 0).to_rfc3339().starts_with("-262143-01-01T00:00:00"));
    assert!(chrono::DateTime::from_timestamp(MAX_SECS + 1, 0).is_none());
    assert!(chrono::DateTime::from_timestamp(MIN_SECS - 1, 0).is_none());
}

#[test]
fn the_clock_is_after_1970() {
    let t = Timestamp::now();
    assert!(t.secs() > 0);
    assert!(t.nanos() < 1_000_000_000);
}

#[test]
fn milliseconds_between_times() {
    assert_eq!(at(10, 0).millis_since(&at(7, 0)), 3_000);
    assert_eq!(at(10, 1_999_999).millis_since(&at(10, 0)), 1);
    assert_eq!(at(10, 0).millis_since(&at(9, 999_999_999)), 0);
    assert_eq!(at(7, 0).millis_since(&at(10, 0)), 0);
    assert_eq!(at(10, 5).millis_since(&at(10, 5)), 0);
}

#[test]
fn identifiers_as_text() {
    assert_eq!(session_id_text(0), "00000000-0000-0000-0000-000000000000");
    assert_eq!(
        session_id_text(0x9b2d6c33_8b13_4c51_8cd0_8de7d8f4ef01),
        "9b2d6c33-8b13-4c51-8cd0-8de7d8f4ef01"
    );
    assert_eq!(session_id_text(u128::MAX), "ffffffff-ffff-ffff-ffff-ffffffffffff");
}

#[test]
fn new_identifiers_are_random_uuids() {
    let mut seen = Vec::new();
    for _ in 0..100 {
        let id = new_session_id();
        let text = session_id_text(id);
        assert_eq!(text.as_bytes()[14], b'4');
        assert!(matches!(text.as_bytes()[19], b'8' | b'9' | b'a' | b'b'));
        assert!(!seen.contains(&text));
        seen.push(text);
    }
}

#[test]
fn times_are_told_apart_by_their_text() {
    let secs = [MIN_SECS, -62_167_219_201, -62_167_219_200, -1, 0, 1, 253_402_300_799, 253_402_300_800, MAX_SECS];
    let nanos = [0, 1, 1_000, 1_001, 10_000, 1_000_000, 1_000_001, 5_000_000, 50_000_000, 500_000_000, 999_999_999];
    let mut seen = Vec::new();
    for s in secs {
        for n in nanos {
            let text = at(s, n).to_rfc3339_zulu();
            let back = chrono::DateTime::parse_from_rfc3339(&text);
            if let Ok(back) = back {
                assert_eq!((back.timestamp(), back.timestamp_subsec_nanos()), (s, n));
            }
            assert!(!seen.contains(&text), "{text}");
            seen.push(text);
        }
    }
}
