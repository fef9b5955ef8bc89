use vstd::prelude::*;
use vstd::string::StringExecFns;
use crate::model::{MetricAvailability, SessionStatus};
use crate::text::{decimal, push_decimal};

verus! {

/// The text of a session's length: whole hours and minutes, `"2h 18m"`, or
/// only minutes, `"5m"`, under an hour.
pub open spec fn duration_text(milliseconds: u64) -> Seq<char> {
    let total_minutes = milliseconds / 60_000;
    let hours = total_minutes / 60;
    let minutes = total_minutes % 60;
    if hours > 0 {
        decimal(hours as nat) + "h "@ + decimal(minutes as nat) + "m"@
    } else {
        decimal(minutes as nat) + "m"@
    }
}

pub fn format_duration(milliseconds: u64) -> (text: String)
    ensures
        text@ == duration_text(milliseconds),
{
    let total_minutes = milliseconds / 60_000;
    let hours = total_minutes / 60;
    let minutes = total_minutes % 60;
    let mut text = String::new();
    if hours > 0 {
        push_decimal(&mut text, hours);
        text.append("h ");
    }
    push_decimal(&mut text, minutes);
    text.append("m");
    text
}

/// The unit in which an amount of bytes is shown.
#[derive(Clone, Copy, Debug, PartialEq, Eq, Structural)]
pub enum ByteUnit {
    Bytes,
    Kilobytes,
    Megabytes,
    Gigabytes,
}

/// The unit for `bytes`: the largest of GB, MB and KB (in powers of 1000)
/// that `bytes` reaches, else bytes.
pub open spec fn unit_for(bytes: u64) -> ByteUnit {
    if bytes >= 1_000_000_000 {
        ByteUnit::Gigabytes
    } else if bytes >= 1_000_000 {
        ByteUnit::Megabytes
    } else if bytes >= 1_000 {
        ByteUnit::Kilobytes
    } else {
        ByteUnit::Bytes
    }
}

pub fn byte_unit(bytes: u64) -> (unit: ByteUnit)
    ensures
        unit == unit_for(bytes),
{
    if bytes >= 1_000_000_000 {
        ByteUnit::Gigabytes
    } else if bytes >= 1_000_000 {
        ByteUnit::Megabytes
    } else if bytes >= 1_000 {
        ByteUnit::Kilobytes
    } else {
        ByteUnit::Bytes
    }
}

/// The word shown for a session status.
pub open spec fn status_text(status: SessionStatus) -> Seq<char> {
    match status {
        SessionStatus::Stable => "Stable"@,
        SessionStatus::Attention => "Attention"@,
        SessionStatus::Risk => "Risk"@,
        SessionStatus::Unknown => "Unknown"@,
    }
}

pub fn format_status(status: SessionStatus) -> (text: String)
    ensures
        text@ == status_text(status),
{
    match status {
        SessionStatus::Stable => String::from_str("Stable"),
        SessionStatus::Attention => String::from_str("Attention"),
        SessionStatus::Risk => String::from_str("Risk"),
        SessionStatus::Unknown => String::from_str("Unknown"),
    }
}

/// The text of the connected-device count: the number, or `Restricted` when it
/// cannot be read (never `0`).
pub open spec fn connected_count_text(value: MetricAvailability<u32>) -> Seq<char> {
    match value {
        MetricAvailability::Available(count) => decimal(count as nat),
        MetricAvailability::Unavailable { .. } => "Restricted"@,
    }
}

/// An unreadable connected-device count is never shown as zero devices.
pub proof fn lemma_restricted_count_is_not_zero(value: MetricAvailability<u32>)
    requires
        value is Unavailable,
    ensures
        connected_count_text(value) != connected_count_text(MetricAvailability::Available(0)),
{
    reveal_strlit("Restricted");
    assert(connected_count_text(value).len() == 10);
    assert(decimal(0).len() == 1);
}

pub fn format_connected_count(value: &MetricAvailability<u32>) -> (text: String)
    ensures
        text@ == connected_count_text(*value),
{
    match value {
        MetricAvailability::Available(count) => {
            let mut text = String::new();
            push_decimal(&mut text, *count as u64);
            text
        },
        MetricAvailability::Unavailable { .. } => String::from_str("Restricted"),
    }
}

/// The text of when the dashboard was last updated.
pub open spec fn last_updated_text(last_updated_millis: Option<u64>) -> Seq<char> {
    match last_updated_millis {
        Some(value) => "Updated "@ + decimal(value as nat),
        None => "Waiting for first sample"@,
    }
}

pub fn format_last_updated(last_updated_millis: Option<u64>) -> (text: String)
    ensures
        text@ == last_updated_text(last_updated_millis),
{
    match last_updated_millis {
        Some(value) => {
            let mut text = String::from_str("Updated ");
            push_decimal(&mut text, value);
            text
        },
        None => String::from_str("Waiting for first sample"),
    }
}

} // verus!
