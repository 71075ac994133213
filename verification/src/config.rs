//! Integer settings read from the environment, and the limits applied to history queries.
use vstd::prelude::*;
use crate::text::{concat, parse_usize, parsed_usize};

verus! {

/// The error for a setting that is not a number.
pub open spec fn not_a_number(key: Seq<char>) -> Seq<char> {
    key + " must be a number"@
}

/// The value of the setting `key`: `default` when it is unset, the number it holds when it
/// parses as a `usize`, and an error naming the key otherwise.
pub fn parse_env_usize(key: &str, value: Option<&str>, default: usize) -> (res: Result<
    usize,
    String,
>)
    ensures
        match value {
            None => res == Ok::<usize, String>(default),
            Some(v) => match parsed_usize(v@) {
                Some(n) => res matches Ok(m) && m == n,
                None => res matches Err(e) && e@ == not_a_number(key@),
            },
        },
{
    match value {
        None => Ok(default),
        Some(v) => match parse_usize(v) {
            Some(n) => Ok(n),
            None => Err(concat(key, " must be a number")),
        },
    }
}

/// The default number of entries a history listing returns.
pub const DEFAULT_HISTORY_LIMIT: usize = 300;

/// The default number of sessions a session listing returns.
pub const DEFAULT_SESSIONS_LIMIT: usize = 200;

/// The largest number of entries or sessions a listing returns.
pub const MAX_LISTING_LIMIT: usize = 2000;

/// The limit asked for, or `default` when none was, kept within 1 to 2000.
pub open spec fn clamped_limit(requested: Option<usize>, default: usize) -> usize {
    let want = match requested {
        Some(l) => l,
        None => default,
    };
    if want < 1 {
        1
    } else if want > MAX_LISTING_LIMIT {
        MAX_LISTING_LIMIT
    } else {
        want
    }
}

/// The number of items a listing returns for a query.
pub fn listing_limit(requested: Option<usize>, default: usize) -> (res: usize)
    ensures
        res == clamped_limit(requested, default),
        1 <= res <= MAX_LISTING_LIMIT,
{
    let want = match requested {
        Some(l) => l,
        None => default,
    };
    if want < 1 {
        1
    } else if want > MAX_LISTING_LIMIT {
        MAX_LISTING_LIMIT
    } else {
        want
    }
}

} // verus!
