//! How many processors and how much memory a node has, as `sysctl` tells it.

use crate::decimal::{law_errors_tell_numbers_apart, number_error, number_error_of, parse_unsigned, unsigned_of};
use crate::text::{chars_of, from_utf8_lossy, text_of, trim, trimmed};
use vstd::prelude::*;
use vstd::string::*;

verus! {

/// The variable that holds the number of processors.
pub const CPU_VARIABLE: &'static str = "hw.ncpu";

/// The variable that holds the size of the memory.
pub const MEMORY_VARIABLE: &'static str = "hw.physmem";

/// How `sysctl -n` ended.
pub struct SysctlOutput {
    pub success: bool,
    /// The exit status in words.
    pub status: String,
    pub stdout: Vec<u8>,
}

/// A text, or a reason why there is none, by what they hold.
pub open spec fn told(r: Result<String, String>) -> Result<Seq<char>, Seq<char>> {
    match r {
        Ok(s) => Ok(s@),
        Err(e) => Err(e@),
    }
}

/// The value of a variable, from how `sysctl -n` ended or why it could not be started.
pub fn sysctl_value(name: &str, ran: Result<SysctlOutput, String>) -> (r: Result<String, String>)
    ensures
        told(r) == match ran {
            Err(e) => Err("failed to run sysctl -n "@ + name@ + ": "@ + e@),
            Ok(output) => if output.success {
                Ok(trimmed(text_of(output.stdout@)))
            } else {
                Err("sysctl -n "@ + name@ + " exited with "@ + output.status@)
            },
        },
{
    match ran {
        Err(e) => {
            let mut out = "failed to run sysctl -n ".to_owned();
            out.append(name);
            out.append(": ");
            out.append(e.as_str());
            Err(out)
        },
        Ok(output) => {
            if !output.success {
                let mut out = "sysctl -n ".to_owned();
                out.append(name);
                out.append(" exited with ");
                out.append(output.status.as_str());
                return Err(out);
            }
            let text = from_utf8_lossy(output.stdout.as_slice());
            let chars = chars_of(text.as_str());
            let n: usize = chars.len();
            assert(chars@.subrange(0, n as int) =~= chars@);
            Ok(trim(&chars, 0, n))
        },
    }
}

/// The size of the memory, from the value of its variable.
pub fn memory_size(text: &str) -> (r: Result<u64, String>)
    ensures
        match r {
            Ok(n) => unsigned_of(text@, u64::MAX as nat) == Some(n as nat),
            Err(e) => number_error_of(text@, u64::MAX as nat) matches Some(why) && e@ == "invalid hw.physmem value: "@
                + why.text(),
        },
{
    proof {
        law_errors_tell_numbers_apart(text@, u64::MAX as nat);
    }
    match number_error(text, u64::MAX) {
        Some(why) => {
            let mut out = "invalid hw.physmem value: ".to_owned();
            out.append(why.message());
            Err(out)
        },
        None => Ok(parse_unsigned(text, u64::MAX).unwrap()),
    }
}

} // verus!
