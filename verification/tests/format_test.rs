use hotspot_hub::format::{
    byte_unit, format_connected_count, format_duration, format_last_updated, format_status, ByteUnit,
};
use hotspot_hub::model::{MetricAvailability, SessionStatus};

#[test]
fn formats_duration_as_hours_and_minutes() {
    assert_eq!(format_duration(8_280_000), "2h 18m");
}

#[test]
fn formats_duration_under_an_hour_as_minutes() {
    assert_eq!(format_duration(0), "0m");
    assert_eq!(format_duration(59_999), "0m");
    assert_eq!(format_duration(3_599_999), "59m");
    assert_eq!(format_duration(3_600_000), "1h 0m");
}

#[test]
fn formats_long_durations() {
    assert_eq!(format_duration(u64::MAX), "5124095576030h 25m");
}

#[test]
fn chooses_byte_units_by_powers_of_thousand() {
    assert_eq!(byte_unit(0), ByteUnit::Bytes);
    assert_eq!(byte_unit(999), ByteUnit::Bytes);
    assert_eq!(byte_unit(1_000), ByteUnit::Kilobytes);
    assert_eq!(byte_unit(999_999), ByteUnit::Kilobytes);
    assert_eq!(byte_unit(1_000_000), ByteUnit::Megabytes);
    assert_eq!(byte_unit(1_800_000_000), ByteUnit::Gigabytes);
}

#[test]
fn formats_statuses() {
    assert_eq!(format_status(SessionStatus::Stable), "Stable");
    assert_eq!(format_status(SessionStatus::Attention), "Attention");
    assert_eq!(format_status(SessionStatus::Risk), "Risk");
    assert_eq!(format_status(SessionStatus::Unknown), "Unknown");
}

#[test]
fn formats_restricted_connected_count_without_zero() {
    assert_eq!(format_connected_count(&MetricAvailability::Available(4)), "4");
    assert_eq!(format_connected_count(&MetricAvailability::Available(0)), "0");
    assert_eq!(
        format_connected_count(&MetricAvailability::Unavailable {
            reason: "Connected count restricted by system".into(),
        }),
        "Restricted"
    );
}

#[test]
fn formats_last_update() {
    assert_eq!(format_last_updated(Some(1_234)), "Updated 1234");
    assert_eq!(format_last_updated(None), "Waiting for first sample");
}
