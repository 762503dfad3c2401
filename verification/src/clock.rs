//! The one place the library asks the machine for the time: the
//! current local calendar date, through chrono. Commands take the
//! current date as an argument, so everything past this point is
//! verified for every date the clock could hand back.

use crate::date::Date;
use crate::date::date_ok;
use crate::date::days_in_month;
use crate::date::valid_date;
use vstd::prelude::*;

verus! {

/// Relies on `chrono::Local::now` and the `Datelike` accessors of the
/// `NaiveDate` it carries: a `NaiveDate` is a real proleptic Gregorian
/// calendar date, its month is 1 to 12 and its day is 1 to the length
/// of that month. Which date comes back depends on the clock, so
/// nothing more is promised.
#[verifier::external_body]
fn today_ymd() -> (r: (i64, u32, u32))
    ensures
        1 <= r.1 <= 12,
        1 <= r.2 <= days_in_month(r.0 as int, r.1 as int),
{
    let d = chrono::Local::now().date_naive();
    (chrono::Datelike::year(&d) as i64, chrono::Datelike::month(&d), chrono::Datelike::day(&d))
}

/// The current local calendar date, or `None` should the clock stand
/// outside the four-digit years the checklist can carry.
pub fn current_date() -> (res: Option<Date>)
    ensures
        res matches Some(d) ==> valid_date(d),
{
    let (y, m, dd) = today_ymd();
    if 0 <= y && y <= 9999 {
        let d = Date { year: y as u32, month: m, day: dd };
        if date_ok(&d) {
            Some(d)
        } else {
            None
        }
    } else {
        None
    }
}

} // verus!
