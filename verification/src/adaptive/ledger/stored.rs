//! What a database holds of the ledger, read back.
//!
//! Databases count in wider integers than the ledger does, and name the
//! tenant that has no name by the empty text.
use vstd::prelude::*;

use crate::text::opt_str;

verus! {

/// A stored count: 0 where it does not fit.
pub open spec fn fitting(n: i64) -> u32 {
    if 0 <= n <= u32::MAX {
        n as u32
    } else {
        0
    }
}

/// Reads a stored count.
pub fn stored_count(n: i64) -> (r: u32)
    ensures
        r == fitting(n),
{
    if 0 <= n && n <= u32::MAX as i64 {
        n as u32
    } else {
        0
    }
}

/// A count that may be stored in either width: the wide one where it is there
/// and fits, and else the narrow one, and else 0.
pub open spec fn either_width(wide: Option<i64>, narrow: Option<i32>) -> u32 {
    if wide is Some && 0 <= wide->0 <= u32::MAX {
        wide->0 as u32
    } else if narrow is Some && 0 <= narrow->0 {
        narrow->0 as u32
    } else {
        0
    }
}

/// Reads a count that may be stored in either width.
pub fn as_u32(wide: Option<i64>, narrow: Option<i32>) -> (r: u32)
    ensures
        r == either_width(wide, narrow),
{
    match wide {
        Some(n) => {
            if 0 <= n && n <= u32::MAX as i64 {
                return n as u32;
            }
        },
        None => {},
    }
    match narrow {
        Some(n) => {
            if 0 <= n {
                return n as u32;
            }
        },
        None => {},
    }
    0
}

/// The number after the largest one stored; 1 where nothing is.
pub open spec fn number_after(current: Option<i64>) -> int {
    match current {
        Some(n) => n + 1,
        None => 1,
    }
}

/// The next number of a table.
pub fn next_seq(current: Option<i64>) -> (r: i64)
    requires
        current is Some ==> current->0 < i64::MAX,
    ensures
        r == number_after(current),
{
    match current {
        Some(n) => n + 1,
        None => 1,
    }
}

/// The name a tenant's rows are stored under; nobody's are stored under the
/// empty text.
pub open spec fn bucket_of(scope: Option<Seq<char>>) -> Seq<char> {
    match scope {
        Some(name) => name,
        None => ""@,
    }
}

/// The name a tenant's rows are stored under.
pub fn bucket(scope: Option<&str>) -> (r: &str)
    ensures
        r@ == bucket_of(opt_str(scope)),
{
    match scope {
        Some(name) => name,
        None => "",
    }
}

/// Numbers grow: a row stored later has a larger number than every one before.
pub proof fn numbers_grow(current: Option<i64>)
    ensures
        current is Some ==> number_after(current) > current->0,
{
}

} // verus!
