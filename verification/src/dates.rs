//! Calendar dates, read in a bank's pattern and written in another.

use vstd::prelude::*;

verus! {

/// The text of the calendar date that `cell` spells under the `strftime`
/// pattern `from`, written under the pattern `to`; `None` where `cell` does
/// not spell a date under `from` or `to` cannot be written for a date.
pub uninterp spec fn date_rewritten(cell: Seq<char>, from: Seq<char>, to: Seq<char>) -> Option<
    Seq<char>,
>;

/// Parses `cell` with `chrono::NaiveDate::parse_from_str` under `from` and
/// writes the date with `NaiveDate::format` under `to`. The contract only
/// names the outcome: it is a function of the three texts, and a failure of
/// either step is reported as `None`.
#[verifier::external_body]
pub(crate) fn rewrite_date(cell: &str, from: &str, to: &str) -> (out: Option<String>)
    ensures
        crate::text::option_text(out) == date_rewritten(cell@, from@, to@),
{
    let date = chrono::NaiveDate::parse_from_str(cell, from).ok()?;
    let mut out = String::new();
    date.format(to).write_to(&mut out).ok()?;
    Some(out)
}

} // verus!
