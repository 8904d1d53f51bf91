//! End-to-end behavior of the reformatter on concrete lines, calibrated from
//! a fixed reference instant so the expected outputs are stable.

use retime::{Fragment, Reformatter, Resolution};

/// Reference instant: 2024-04-01T18:13:20Z.
const NOW: i64 = 1_712_000_000;

/// Threshold of eight years, UTC, unquoted: the configuration the concrete
/// scenarios assume. Lower second bound 1_459_712_000 (ten digits).
fn utc8() -> Reformatter {
    Reformatter::with_now(NOW, 8, false, false)
}

#[test]
fn millis_detected_short_run_passed_through() {
    let r = utc8();
    assert_eq!(
        r.reformat_line("1709152989456 test 3 b 12768987 c"),
        "2024-02-28T20:43:09.456Z test 3 b 12768987 c"
    );
}

#[test]
fn nanos_detected() {
    let r = utc8();
    assert_eq!(
        r.reformat_line("...at event time 1705882498431161301"),
        "...at event time 2024-01-22T00:14:58.431161301Z"
    );
}

#[test]
fn seconds_detected_multibyte_preserved() {
    let r = utc8();
    assert_eq!(
        r.reformat_line("Deserialization\u{b5}s=547.261 1709152989"),
        "Deserialization\u{b5}s=547.261 2024-02-28T20:43:09Z"
    );
}

#[test]
fn localized_output_has_offset_not_z() {
    let r = Reformatter::with_now(NOW, 8, true, false);
    let out = r.reformat_line("1712070452000000000");
    assert!(!out.is_empty());
    assert!(!out.ends_with('Z'));
}

#[test]
fn quoted_timestamp_surroundings_unquoted() {
    let r = Reformatter::with_now(NOW, 8, false, true);
    assert_eq!(
        r.reformat_line("at 1709152989 end"),
        "at \"2024-02-28T20:43:09Z\" end"
    );
}

#[test]
fn empty_line_unchanged() {
    let r = utc8();
    assert_eq!(r.reformat_line(""), "");
}

#[test]
fn line_without_digits_unchanged() {
    let r = utc8();
    assert_eq!(r.reformat_line("no numbers here!"), "no numbers here!");
}

#[test]
fn line_of_only_a_timestamp() {
    let r = utc8();
    assert_eq!(r.reformat_line("1709152989"), "2024-02-28T20:43:09Z");
}

#[test]
fn run_too_short_unchanged() {
    // Nine digits, one short of the lower second bound's print length.
    let r = utc8();
    assert_eq!(r.reformat_line("145971200"), "145971200");
}

#[test]
fn run_overflowing_i64_unchanged() {
    let r = utc8();
    assert_eq!(
        r.reformat_line("99999999999999999999"),
        "99999999999999999999"
    );
}

#[test]
fn run_outside_all_ranges_unchanged() {
    let r = utc8();
    assert_eq!(r.reformat_line("9999999999"), "9999999999");
}

#[test]
fn upper_second_bound_is_exclusive() {
    let r = utc8();
    // upper_s == NOW + 8 * 365 * 86_400 == 1_964_288_000.
    assert_eq!(r.reformat_line("1964288000"), "1964288000");
    let hit = r.reformat_line("1964287999");
    assert_ne!(hit, "1964287999");
    assert!(hit.ends_with('Z'));
}

#[test]
fn lower_second_bound_is_inclusive() {
    let r = utc8();
    let hit = r.reformat_line("1459712000");
    assert_ne!(hit, "1459712000");
    assert!(hit.ends_with('Z'));
}

#[test]
fn lookahead_is_one_character() {
    let r = utc8();
    // 'x' is the lookahead after the run; the lone '2' behind it is a fresh,
    // too-short run of its own.
    assert_eq!(
        r.reformat_line("1709152989x2"),
        "2024-02-28T20:43:09Zx2"
    );
}

#[test]
fn two_timestamps_in_one_line() {
    let r = utc8();
    assert_eq!(
        r.reformat_line("a 1709152989 b 1709152990 c"),
        "a 2024-02-28T20:43:09Z b 2024-02-28T20:43:10Z c"
    );
}

#[test]
fn negative_lower_bound_counts_sign_in_min_len() {
    // now = 1000 s, one year back crosses the epoch: lower == -31_535_000,
    // whose rendering "-31535000" is nine characters.
    let r = Reformatter::with_now(1000, 1, false, false);
    assert_eq!(r.min_len, 9);
    assert_eq!(r.reformat_line("12345678"), "12345678");
    assert_eq!(
        r.reformat_line("123456789"),
        "1970-01-02T10:17:36.789Z"
    );
}

#[test]
fn classify_picks_ranges_in_order() {
    let r = utc8();
    assert_eq!(
        r.classify(1_709_152_989),
        Some((1_709_152_989_000_000_000, Resolution::Secs))
    );
    assert_eq!(
        r.classify(1_709_152_989_456),
        Some((1_709_152_989_456_000_000, Resolution::Millis))
    );
    assert_eq!(
        r.classify(1_705_882_498_431_161_301),
        Some((1_705_882_498_431_161_301, Resolution::Nanos))
    );
    assert_eq!(r.classify(42), None);
}

#[test]
fn scan_splits_line_into_fragments() {
    let r = utc8();
    let chars: Vec<char> = "a 1709152989!".chars().collect();
    let frags = r.scan_chars(&chars);
    assert_eq!(frags.len(), 3);
    match &frags[0] {
        Fragment::Literal(text) => assert_eq!(text.iter().collect::<String>(), "a "),
        Fragment::Stamp { .. } => panic!("leading text must be literal"),
    }
    match &frags[1] {
        Fragment::Stamp { digits, ns, res } => {
            assert_eq!(digits.iter().collect::<String>(), "1709152989");
            assert_eq!(*ns, 1_709_152_989_000_000_000);
            assert_eq!(*res, Resolution::Secs);
        },
        Fragment::Literal(_) => panic!("the digit run must be classified"),
    }
    match &frags[2] {
        Fragment::Literal(text) => assert_eq!(text.iter().collect::<String>(), "!"),
        Fragment::Stamp { .. } => panic!("the lookahead must be literal"),
    }
    // Text behind the lookahead starts a fresh round of the scan and comes
    // out as one more literal fragment.
    let chars: Vec<char> = "a 1709152989!b".chars().collect();
    let frags = r.scan_chars(&chars);
    assert_eq!(frags.len(), 4);
    match &frags[3] {
        Fragment::Literal(text) => assert_eq!(text.iter().collect::<String>(), "b"),
        Fragment::Stamp { .. } => panic!("text behind the lookahead must be literal"),
    }
}

#[test]
fn fragment_sources_cover_line() {
    let r = utc8();
    let input = "start \u{3bc}1709152989456\u{3bc} 99999999999999999999 x7 end";
    let chars: Vec<char> = input.chars().collect();
    let frags = r.scan_chars(&chars);
    let mut rebuilt = String::new();
    for frag in &frags {
        match frag {
            Fragment::Literal(text) => rebuilt.extend(text.iter()),
            Fragment::Stamp { digits, .. } => rebuilt.extend(digits.iter()),
        }
    }
    assert_eq!(rebuilt, input);
}

#[test]
fn checked_constructor_rejects_oversized_window() {
    assert!(Reformatter::checked_with_now(NOW, i32::MAX, false, false).is_none());
    assert!(Reformatter::checked_with_now(NOW, 8, false, false).is_some());
    assert!(Reformatter::checked_with_now(NOW, -8, false, false).is_some());
}

#[test]
fn threshold_sign_is_ignored() {
    let pos = Reformatter::with_now(NOW, 8, false, false);
    let neg = Reformatter::with_now(NOW, -8, false, false);
    assert_eq!(pos.lower_s, neg.lower_s);
    assert_eq!(pos.upper_s, neg.upper_s);
    assert_eq!(pos.min_len, neg.min_len);
}

#[test]
fn wall_clock_constructor_reformats() {
    let r = Reformatter::new(8, false, false).expect("an eight-year window calibrates");
    assert_eq!(r.reformat_line("plain text 42"), "plain text 42");
    assert!(Reformatter::new(i32::MAX, false, false).is_none());
}

#[test]
fn format_instant_utc_millis() {
    let r = utc8();
    let out: String = r
        .format_instant(1_709_152_989_456_000_000, Resolution::Millis)
        .iter()
        .collect();
    assert_eq!(out, "2024-02-28T20:43:09.456Z");
}

#[test]
fn format_instant_before_epoch() {
    let r = Reformatter::with_now(1000, 1, false, false);
    let out: String = r
        .format_instant(-1, Resolution::Nanos)
        .iter()
        .collect();
    assert_eq!(out, "1969-12-31T23:59:59.999999999Z");
}
