//! The dashboard's per-line status computation.

use vstd::prelude::*;
use crate::timedate::{DateVal, iso_date_of, iso_date};
use crate::text::from_chars;

verus! {

/// One line as the dashboard shows it.
#[derive(Debug, Clone)]
pub struct DashboardLine {
    pub id: i64,
    pub name: String,
    pub active: bool,
    pub pending_files: i64,
    pub error_files: i64,
    pub last_processed: Option<String>,
    pub total_processed: i64,
    pub status: String,
    pub site: Option<String>,
}

/// The status a line earns: stopped when inactive; running while the last
/// processing is recent; alert when it ages past the check interval, or
/// when no last processing can be read; stopped past the alert interval.
pub open spec fn line_status_of(
    active: bool,
    age_minutes: Option<i64>,
    interval_check: i64,
    interval_alert: i64,
) -> Seq<char> {
    if !active {
        "ARRET"@
    } else {
        match age_minutes {
            Some(m) => if m <= interval_check {
                "MARCHE"@
            } else if m <= interval_alert {
                "ALERTE"@
            } else {
                "ARRET"@
            },
            None => "ALERTE"@,
        }
    }
}

/// Compute a line's dashboard status from the minutes elapsed since its
/// last processed file; `None` means no readable last-processed time.
pub fn line_status(
    active: bool,
    age_minutes: Option<i64>,
    interval_check: i64,
    interval_alert: i64,
) -> (r: String)
    ensures
        r@ == line_status_of(active, age_minutes, interval_check, interval_alert),
{
    if !active {
        return String::from_str("ARRET");
    }
    match age_minutes {
        Some(m) => {
            if m <= interval_check {
                String::from_str("MARCHE")
            } else if m <= interval_alert {
                String::from_str("ALERTE")
            } else {
                String::from_str("ARRET")
            }
        },
        None => String::from_str("ALERTE"),
    }
}

/// A file the dashboard counts as pending: the line's prefix and the
/// `.TMP` extension, without regard to case.
pub open spec fn pending_file(name: Seq<char>, prefix: Seq<char>) -> bool {
    let up = crate::text::ascii_upper_of(name);
    crate::text::ends_with(up, ".TMP"@) && crate::text::has_sub(
        up,
        crate::text::ascii_upper_of(prefix),
    )
}

/// Decide whether a file counts toward a line's pending total.
pub fn is_pending_file(name: &str, prefix: &str) -> (r: bool)
    ensures
        r == pending_file(name@, prefix@),
{
    let up = crate::text::ascii_upper(&crate::text::to_chars(name));
    let pu = crate::text::ascii_upper(&crate::text::to_chars(prefix));
    crate::text::ends_with_sub(&up, &crate::text::to_chars(".TMP")) && crate::text::contains_sub(
        &up,
        &pu,
    )
}

/// `YYYY-MM-DD%`, the pattern that matches today's audit rows.
pub open spec fn today_pattern_of(d: DateVal) -> Seq<char> {
    iso_date_of(d) + seq!['%']
}

/// Build the pattern that counts today's processed files.
pub fn today_pattern(d: &DateVal) -> (r: String)
    requires
        d.wf(),
    ensures
        r@ == today_pattern_of(*d),
{
    let mut v = iso_date(d);
    v.push('%');
    from_chars(&v)
}

} // verus!
