//! Validity of what an offline authority signs.

use vstd::prelude::*;

verus! {

/// Milliseconds of a day.
pub const DAY_MS: i64 = 86_400_000;

/// Why a validity is refused.
#[derive(Clone, Copy, Debug, PartialEq, Eq, Structural)]
pub enum ValidityError {
    /// It must last a day at least.
    NotPositive,
    /// It ends beyond what a clock counts.
    ExpiryOverflows,
}

/// A validity in milliseconds.
pub fn duration_ms(days: u32) -> (result: Result<i64, ValidityError>)
    ensures
        match result {
            Ok(duration) => days > 0 && duration == days * 86_400_000,
            Err(error) => days == 0 && error == ValidityError::NotPositive,
        },
{
    if days == 0 {
        return Err(ValidityError::NotPositive);
    }
    Ok(days as i64 * DAY_MS)
}

/// When a validity that begins now ends.
pub fn expiry(now_ms: i64, days: u32) -> (result: Result<i64, ValidityError>)
    ensures
        match result {
            Ok(end) => days > 0 && end == now_ms + days * 86_400_000,
            Err(error) => {
                ||| days == 0 && error == ValidityError::NotPositive
                ||| days > 0 && now_ms + days * 86_400_000 > i64::MAX && error
                    == ValidityError::ExpiryOverflows
            },
        },
{
    match duration_ms(days) {
        Err(error) => Err(error),
        Ok(duration) => match now_ms.checked_add(duration) {
            None => Err(ValidityError::ExpiryOverflows),
            Some(end) => Ok(end),
        },
    }
}

} // verus!
