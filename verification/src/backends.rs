//! Process enumeration strategies. Each one turns what the operating system
//! hands out (a directory listing, a kernel buffer, the output of a command)
//! into records of process id and short command name.

use crate::text::{string_of, trim_bounds, trimmed, chars_of};
use vstd::prelude::*;
use vstd::slice::slice_subrange;

pub mod linuxps;
pub mod netbsd_sysctl;
pub mod stps;

verus! {

/// The record of process `pid` whose command name reads `comm`: the name is
/// trimmed, and a process without a name has no record.
pub open spec fn record_of(pid: i32, comm: Seq<char>) -> Option<(i32, Seq<char>)> {
    if trimmed(comm).len() == 0 {
        None
    } else {
        Some((pid, trimmed(comm)))
    }
}

/// Builds the record of one process from its id and the text of its command name.
pub fn named_record(pid: i32, comm: &str) -> (r: Option<(i32, String)>)
    ensures
        r.deep_view() == record_of(pid, comm@),
{
    let chars = chars_of(comm);
    let (a, b) = trim_bounds(chars.as_slice());
    if a == b {
        None
    } else {
        let name = string_of(slice_subrange(chars.as_slice(), a, b));
        Some((pid, name))
    }
}

} // verus!
