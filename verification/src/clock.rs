use vstd::prelude::*;

verus! {

/// Relies on chrono::Utc::now and chrono::DateTime::timestamp: the current
/// time as whole seconds since the Unix epoch. Nothing is assumed of the
/// value; it depends on the machine's clock.
#[verifier::external_body]
pub(crate) fn now_seconds() -> (r: i64) {
    chrono::Utc::now().timestamp()
}

/// Relies on chrono::Local::now, NaiveDate::and_hms_opt and
/// TimeZone::from_local_datetime: the UTC timestamps at which the current
/// local calendar day begins and ends. Nothing is assumed of the values;
/// they depend on the machine's clock and time zone.
#[verifier::external_body]
pub(crate) fn today_local_bounds() -> (r: (i64, i64)) {
    let today = chrono::Local::now().date_naive();
    let s = today.and_hms_opt(0, 0, 0).unwrap();
    let e = s + chrono::Duration::days(1);
    let sl = chrono::TimeZone::from_local_datetime(&chrono::Local, &s).earliest();
    let el = chrono::TimeZone::from_local_datetime(&chrono::Local, &e).earliest();
    let s_ts = match sl { Some(d) => d.timestamp(), None => s.and_utc().timestamp() };
    let e_ts = match el { Some(d) => d.timestamp(), None => e.and_utc().timestamp() };
    (s_ts, e_ts)
}

/// Relies on chrono::NaiveDate::from_ymd_opt, NaiveDate::and_hms_opt and
/// TimeZone::from_local_datetime: the UTC timestamp at which the given
/// local calendar day begins. chrono documents `from_ymd_opt` as `Some`
/// for any valid calendar date in this range, and midnight always exists
/// as a wall-clock reading or has an earliest successor; a day the zone
/// skips falls back to the UTC reading. The value depends on the
/// machine's time zone.
#[verifier::external_body]
pub(crate) fn local_midnight_ts(y: i32, m: u32, d: u32) -> (r: Option<i64>)
    requires
        0 <= y <= 9999,
        crate::date::valid_ymd(y as int, m as int, d as int),
    ensures
        r is Some,
{
    match chrono::NaiveDate::from_ymd_opt(y, m, d) {
        Some(nd) => match nd.and_hms_opt(0, 0, 0) {
            Some(ndt) => match chrono::TimeZone::from_local_datetime(&chrono::Local, &ndt)
                .earliest() {
                Some(dt) => Some(dt.timestamp()),
                None => Some(ndt.and_utc().timestamp()),
            },
            None => None,
        },
        None => None,
    }
}

} // verus!
