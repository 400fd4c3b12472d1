//! Locale-aware month and weekday names.
//!
//! A locale is named by an identifier such as `en_US` or `ru_RU`. Russian
//! month names come from this library's own table, as its one registered
//! name table; every other name is looked up in `chrono`'s locale data
//! through trusted wrappers. An identifier that `chrono` does not know is
//! reported, never silently substituted.

use vstd::prelude::*;

verus! {

/// Whether `chrono`'s locale data knows the identifier: exactly the
/// condition under which `chrono::Locale::from_str` succeeds.
pub uninterp spec fn locale_recognized(id: Seq<char>) -> bool;

/// The full month name that `chrono`'s `format_localized` with `%B`
/// yields for a month in a recognized locale.
pub uninterp spec fn month_name_of(id: Seq<char>, month: int) -> Seq<char>;

/// The abbreviated weekday name that `chrono`'s `format_localized` with
/// `%a` yields for a weekday (0 = Sunday .. 6 = Saturday) in a
/// recognized locale.
pub uninterp spec fn weekday_name_of(id: Seq<char>, weekday: int) -> Seq<char>;

/// Relies on `chrono::Locale::from_str`, which accepts exactly the locale
/// identifiers chrono's tables know, and on `NaiveDate::format_localized`
/// with `%B`: the month's full name, a function of the month number and
/// the locale alone (the year is arbitrary; `from_ymd_opt` accepts day 1
/// of every month).
#[verifier::external_body]
pub(crate) fn chrono_month_name(month: u8, locale_id: &str) -> (r: Option<String>)
    requires
        1 <= month <= 12,
    ensures
        r is Some <==> locale_recognized(locale_id@),
        r is Some ==> r->0@ == month_name_of(locale_id@, month as int),
{
    let loc = match <chrono::Locale as core::str::FromStr>::from_str(locale_id) {
        Ok(l) => l,
        Err(_) => {
            return None;
        },
    };
    let date = chrono::NaiveDate::from_ymd_opt(2000, month as u32, 1)?;
    Some(date.format_localized("%B", loc).to_string())
}

/// Relies on `chrono::Locale::from_str` and `NaiveDate::format_localized`
/// with `%a`: the weekday's abbreviated name, a function of the weekday
/// and the locale alone. January 2023 opened on a Sunday, so its day
/// `1 + w` falls on weekday `w` (0 = Sunday .. 6 = Saturday).
#[verifier::external_body]
pub(crate) fn chrono_weekday_name(weekday: u8, locale_id: &str) -> (r: Option<String>)
    requires
        weekday < 7,
    ensures
        r is Some <==> locale_recognized(locale_id@),
        r is Some ==> r->0@ == weekday_name_of(locale_id@, weekday as int),
{
    let loc = match <chrono::Locale as core::str::FromStr>::from_str(locale_id) {
        Ok(l) => l,
        Err(_) => {
            return None;
        },
    };
    let date = chrono::NaiveDate::from_ymd_opt(2023, 1, 1 + weekday as u32)?;
    Some(date.format_localized("%a", loc).to_string())
}

/// The library's own Russian month-name table.
pub open spec fn month_name_ru(m: int) -> Seq<char> {
    if m == 1 {
        "Январь"@
    } else if m == 2 {
        "Февраль"@
    } else if m == 3 {
        "Март"@
    } else if m == 4 {
        "Апрель"@
    } else if m == 5 {
        "Май"@
    } else if m == 6 {
        "Июнь"@
    } else if m == 7 {
        "Июль"@
    } else if m == 8 {
        "Август"@
    } else if m == 9 {
        "Сентябрь"@
    } else if m == 10 {
        "Октябрь"@
    } else if m == 11 {
        "Ноябрь"@
    } else {
        "Декабрь"@
    }
}

/// The Russian name of a month, from the library's own table.
pub fn russian_month_name(month: u8) -> (r: String)
    requires
        1 <= month <= 12,
    ensures
        r@ == month_name_ru(month as int),
{
    if month == 1 {
        "Январь".to_string()
    } else if month == 2 {
        "Февраль".to_string()
    } else if month == 3 {
        "Март".to_string()
    } else if month == 4 {
        "Апрель".to_string()
    } else if month == 5 {
        "Май".to_string()
    } else if month == 6 {
        "Июнь".to_string()
    } else if month == 7 {
        "Июль".to_string()
    } else if month == 8 {
        "Август".to_string()
    } else if month == 9 {
        "Сентябрь".to_string()
    } else if month == 10 {
        "Октябрь".to_string()
    } else if month == 11 {
        "Ноябрь".to_string()
    } else {
        "Декабрь".to_string()
    }
}

} // verus!
