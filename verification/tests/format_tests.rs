use hostfacts::format_num::{parse_grouped, select_unit, MemUnit, TierPolicy};
use hostfacts::report::{
    bar_segments, docker_status_intent, drives_panel_height, gauge_slots, percent_used,
    unit_state_intent, volume_descriptor, volume_line, volume_padding, DisplayIntent,
};
use hostfacts::services::systemd::UnitState;

#[test]
fn test_bytes() {
    assert_eq!(MemUnit::B(100).to_display_string(), String::from("100B"));
}

#[test]
fn test_kilobytes() {
    assert_eq!(MemUnit::KB(1_000_000).to_display_string(), String::from("1,000KB"));
}

#[test]
fn test_kibibytes() {
    assert_eq!(MemUnit::KiB(1_048_576).to_display_string(), String::from("1,024KiB"));
}

#[test]
fn test_megabytes() {
    assert_eq!(MemUnit::MB(10_000_000_000).to_display_string(), String::from("10,000MB"));
}

#[test]
fn test_mebibytes() {
    assert_eq!(MemUnit::MiB(12_073_741_824).to_display_string(), String::from("11,514MiB"));
}

#[test]
fn test_gigabytes() {
    assert_eq!(MemUnit::GB(100_000_000_000_000).to_display_string(), String::from("100,000GB"));
}

#[test]
fn test_gibibytes() {
    assert_eq!(MemUnit::GiB(244_099_511_627_776).to_display_string(), String::from("227,335GiB"));
}

#[test]
fn test_terabytes() {
    assert_eq!(
        MemUnit::TB(100_000_000_000_000_000).to_display_string(),
        String::from("100,000TB")
    );
}

#[test]
fn test_tebibytes() {
    assert_eq!(
        MemUnit::TiB(256_384_512_768_896_128).to_display_string(),
        String::from("233,180TiB")
    );
}

#[test]
fn test_petabytes() {
    assert_eq!(
        MemUnit::PB(100_000_000_000_000_000_000).to_display_string(),
        String::from("100,000PB")
    );
}

#[test]
fn test_pebibytes() {
    assert_eq!(
        MemUnit::PiB(128_256_384_512_768_896_128).to_display_string(),
        String::from("113,914PiB")
    );
}

#[test]
fn grouping_layouts_match_table() {
    assert_eq!(MemUnit::B(0).format(), String::from("0"));
    assert_eq!(MemUnit::B(42).format(), String::from("42 "));
    assert_eq!(MemUnit::B(100).format(), String::from("100"));
    assert_eq!(MemUnit::B(1_234).format(), String::from("1,234"));
    assert_eq!(MemUnit::B(12_345).format(), String::from("12,345"));
    assert_eq!(MemUnit::B(123_456).format(), String::from("123,456"));
    assert_eq!(MemUnit::B(1_234_567).format(), String::from("1,234,567"));
    assert_eq!(MemUnit::B(12_345_678).format(), String::from("12,345,678"));
    assert_eq!(MemUnit::B(123_456_789).format(), String::from("123,456,789"));
    assert_eq!(MemUnit::B(1_234_567_890).format(), String::from("1234567890"));
}

#[test]
fn formatting_is_pure() {
    let first = MemUnit::MiB(12_073_741_824).to_display_string();
    let second = MemUnit::MiB(12_073_741_824).to_display_string();
    assert_eq!(first, second);
}

#[test]
fn grouped_output_parses_back() {
    assert_eq!(parse_grouped(&MemUnit::MiB(12_073_741_824).format()), Some(11_514));
    assert_eq!(parse_grouped(&MemUnit::B(42).format()), Some(42));
    assert_eq!(parse_grouped(&MemUnit::B(1_234_567_890).format()), Some(1_234_567_890));
    assert_eq!(parse_grouped("1,000"), Some(1000));
}

#[test]
fn parse_grouped_rejects_junk() {
    assert_eq!(parse_grouped(""), None);
    assert_eq!(parse_grouped(", "), None);
    assert_eq!(parse_grouped("12x"), None);
    assert_eq!(parse_grouped("999999999999999999999999999999999999999999"), None);
    assert_eq!(parse_grouped("340282366920938463463374607431768211456"), None);
}

#[test]
fn round_trip_across_magnitudes() {
    let mut power: u128 = 1;
    for _ in 0..38 {
        for value in [power - 1, power, power + 1] {
            let rendered = MemUnit::B(value).format();
            assert_eq!(parse_grouped(&rendered), Some(value));
        }
        power *= 10;
    }
}

#[test]
fn largest_value_is_ungrouped() {
    let s = MemUnit::B(u128::MAX).format();
    assert_eq!(s, String::from("340282366920938463463374607431768211455"));
    assert_eq!(parse_grouped(&s), Some(u128::MAX));
}

#[test]
fn bar_segments_fixture() {
    assert_eq!(bar_segments(50, 100, 20), (10, 10));
}

#[test]
fn bar_segments_sum_to_width() {
    for used in 0..=30u64 {
        for width in 0..=25usize {
            let (filled, empty) = bar_segments(used, 30, width);
            assert_eq!(filled + empty, width);
        }
    }
}

#[test]
fn bar_segments_boundaries() {
    assert_eq!(bar_segments(0, 100, 7), (0, 7));
    assert_eq!(bar_segments(100, 100, 7), (7, 0));
    assert_eq!(bar_segments(50, 100, 0), (0, 0));
    assert_eq!(bar_segments(1, 3, 10), (4, 6));
}

#[test]
fn percent_rounds_up() {
    assert_eq!(percent_used(100, 0), 100);
    assert_eq!(percent_used(100, 100), 0);
    assert_eq!(percent_used(3, 1), 67);
    assert_eq!(percent_used(3, 2), 34);
}

#[test]
fn tier_policies() {
    assert!(matches!(select_unit(TierPolicy::Report, 999_999_999), MemUnit::MB(_)));
    assert!(matches!(select_unit(TierPolicy::Report, 1_000_000_000), MemUnit::GB(_)));
    assert!(matches!(select_unit(TierPolicy::Dashboard, 999), MemUnit::B(_)));
    assert!(matches!(select_unit(TierPolicy::Dashboard, 1_000), MemUnit::KB(_)));
    assert!(matches!(select_unit(TierPolicy::Dashboard, 1_000_000), MemUnit::MB(_)));
    assert!(matches!(select_unit(TierPolicy::Dashboard, 1_000_000_000), MemUnit::GB(_)));
    assert!(matches!(select_unit(TierPolicy::Dashboard, 1_000_000_000_000), MemUnit::TB(_)));
    assert!(matches!(select_unit(TierPolicy::Dashboard, 1_000_000_000_000_000), MemUnit::PB(_)));
    assert!(
        matches!(select_unit(TierPolicy::Dashboard, 1_000_000_000_000_000_000), MemUnit::B(_))
    );
}

#[test]
fn volume_descriptor_fixture() {
    let d = volume_descriptor(250_000_000_000, 100_000_000_000, TierPolicy::Report);
    assert_eq!(d, String::from("60% out of 250GB"));
}

#[test]
fn volume_line_right_aligns() {
    let line = volume_line(
        "/",
        250_000_000_000,
        100_000_000_000,
        40,
        13,
        TierPolicy::Report,
    );
    assert_eq!(line, String::from("/          60% out of 250GB"));
    assert_eq!(line.chars().count() + 13, 40);
}

#[test]
fn volume_padding_clamps() {
    assert_eq!(volume_padding(10, 20, 13, 16), 0);
    assert_eq!(volume_padding(40, 1, 13, 16), 10);
}

#[test]
fn gauge_slots_any_count() {
    assert_eq!(gauge_slots(0), Vec::<u16>::new());
    assert_eq!(gauge_slots(3), vec![2, 2, 2]);
    assert_eq!(gauge_slots(7).len(), 7);
    assert_eq!(drives_panel_height(3), 8);
}

#[test]
fn intents() {
    assert_eq!(unit_state_intent(&UnitState::Masked), DisplayIntent::Critical);
    assert_eq!(unit_state_intent(&UnitState::Disabled), DisplayIntent::Critical);
    assert_eq!(unit_state_intent(&UnitState::Enabled), DisplayIntent::Success);
    assert_eq!(unit_state_intent(&UnitState::Static), DisplayIntent::Info);
    assert_eq!(docker_status_intent("Up 3 hours"), DisplayIntent::Success);
    assert_eq!(docker_status_intent("Exited (0) 2 days ago"), DisplayIntent::Critical);
}
