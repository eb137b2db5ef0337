//! Sizes of memory and of volumes, as they are written in a spec.

use crate::decimal::{parse_unsigned, unsigned_of};
use crate::text::{chars_of, string_of};
use vstd::prelude::*;

verus! {

/// Why a part of a spec was refused.
#[derive(Debug, Clone, PartialEq, Eq)]
pub enum SpecError {
    /// Not an amount of processor cores; holds the text as it was given.
    InvalidCpu(String),
    /// Not a size; holds the text as it was given.
    InvalidMemory(String),
}

/// How many bytes the unit at the end of a size stands for; a size without a unit is in bytes.
pub open spec fn unit_of(s: Seq<char>) -> nat {
    if s.len() == 0 {
        1
    } else if s.last() == 'K' || s.last() == 'k' {
        1024
    } else if s.last() == 'M' || s.last() == 'm' {
        1024 * 1024
    } else if s.last() == 'G' || s.last() == 'g' {
        1024 * 1024 * 1024
    } else {
        1
    }
}

/// A size without its unit.
pub open spec fn without_unit(s: Seq<char>) -> Seq<char> {
    if unit_of(s) == 1 {
        s
    } else {
        s.drop_last()
    }
}

/// How many bytes a size stands for: a positive number of its units, if that many bytes can be counted.
pub open spec fn memory_bytes(s: Seq<char>) -> Option<nat> {
    match unsigned_of(without_unit(s), u64::MAX as nat) {
        Some(n) => if n > 0 && n * unit_of(s) <= u64::MAX {
            Some(n * unit_of(s))
        } else {
            None
        },
        None => None,
    }
}

/// What a call of [`parse_memory_bytes`] or [`parse_zfs_quota`] on `s` returns.
pub open spec fn size_result(s: Seq<char>, r: Result<u64, SpecError>) -> bool {
    match memory_bytes(s) {
        Some(n) => r == Ok::<u64, SpecError>(n as u64),
        None => r matches Err(SpecError::InvalidMemory(given)) && given@ == s,
    }
}

/// Reads a size: a positive number, with an optional unit K, M or G in either case.
pub fn parse_memory_bytes(s: &str) -> (r: Result<u64, SpecError>)
    ensures
        size_result(s@, r),
{
    let chars = chars_of(s);
    let multiplier: u64 = if chars.len() == 0 {
        1
    } else {
        let last = chars[chars.len() - 1];
        if last == 'K' || last == 'k' {
            1024
        } else if last == 'M' || last == 'm' {
            1024 * 1024
        } else if last == 'G' || last == 'g' {
            1024 * 1024 * 1024
        } else {
            1
        }
    };
    let digits: usize = if multiplier == 1 {
        chars.len()
    } else {
        chars.len() - 1
    };
    let number = string_of(&chars, 0, digits);
    assert(number@ =~= without_unit(s@));
    match parse_unsigned(number.as_str(), u64::MAX) {
        Some(n) => {
            if n > 0 {
                if let Some(bytes) = n.checked_mul(multiplier) {
                    return Ok(bytes);
                }
            }
            Err(SpecError::InvalidMemory(s.to_owned()))
        },
        None => Err(SpecError::InvalidMemory(s.to_owned())),
    }
}

/// Reads the quota of a volume, which is written as a size of memory is.
pub fn parse_zfs_quota(s: &str) -> (r: Result<u64, SpecError>)
    ensures
        size_result(s@, r),
{
    parse_memory_bytes(s)
}

/// Sizes are read without regard to the case of their unit.
pub proof fn law_unit_case(digits: Seq<char>)
    ensures
        memory_bytes(digits.push('K')) == memory_bytes(digits.push('k')),
        memory_bytes(digits.push('M')) == memory_bytes(digits.push('m')),
        memory_bytes(digits.push('G')) == memory_bytes(digits.push('g')),
{
    assert(digits.push('K').drop_last() =~= digits);
    assert(digits.push('k').drop_last() =~= digits);
    assert(digits.push('M').drop_last() =~= digits);
    assert(digits.push('m').drop_last() =~= digits);
    assert(digits.push('G').drop_last() =~= digits);
    assert(digits.push('g').drop_last() =~= digits);
}

} // verus!
