use std::fmt::Write;
use vstd::prelude::*;

verus! {

/// Days since 1970-01-01 of the date that `s` writes in the strftime-style
/// format `fmt`, or `None` where `s` does not parse as a whole date.
pub uninterp spec fn parsed_date_days(s: Seq<char>, fmt: Seq<char>) -> Option<i32>;

/// The text of the date `days` after 1970-01-01 in the strftime-style
/// format `fmt`, or `None` where the date is out of range or the format
/// cannot render a date.
pub uninterp spec fn formatted_date(days: i32, fmt: Seq<char>) -> Option<Seq<char>>;

/// Relies on chrono's `NaiveDate::parse_from_str`, which depends on its two
/// arguments alone; the date found is handed back as its day count
/// (`NaiveDate::to_epoch_days`).
#[verifier::external_body]
pub(crate) fn parse_date_days(s: &str, fmt: &str) -> (r: Option<i32>)
    ensures
        r == parsed_date_days(s@, fmt@),
{
    chrono::NaiveDate::parse_from_str(s, fmt).ok().map(|d| d.to_epoch_days())
}

/// Relies on chrono's `NaiveDate::from_epoch_days` and on its `format`,
/// whose output depends on the date and the format alone; a format that
/// cannot render a date reports a formatting error, handed back as `None`.
#[verifier::external_body]
pub(crate) fn format_date_days(days: i32, fmt: &str) -> (r: Option<String>)
    ensures
        match r {
            Some(s) => formatted_date(days, fmt@) == Some(s@),
            None => formatted_date(days, fmt@) == None::<Seq<char>>,
        },
{
    let date = chrono::NaiveDate::from_epoch_days(days)?;
    let mut out = String::new();
    match write!(out, "{}", date.format(fmt)) {
        Ok(()) => Some(out),
        Err(_) => None,
    }
}

} // verus!
