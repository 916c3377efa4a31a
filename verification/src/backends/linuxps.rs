//! Filesystem-walk strategy: every process has a directory under `/proc`
//! named by its id, with the short command name in the file `comm`.

use crate::backends::{named_record, record_of};
use crate::text::{chars_of, decimal_i32, decimal_string, decimal_text, parse_i32};
use vstd::prelude::*;
use vstd::string::StringExecFns;

verus! {

/// Enumerates processes by walking the per-process directories under `/proc`.
pub struct LinuxPsBackend;

/// The path of the file that holds the command name of process `pid`.
pub open spec fn comm_path_of(pid: i32) -> Seq<char> {
    "/proc/"@ + decimal_text(pid as int) + "/comm"@
}

impl LinuxPsBackend {
    /// Whether the machine has a `/proc` directory. Trusted: this asks the file
    /// system through `Path::is_dir`, and nothing is claimed of the answer.
    #[verifier::external_body]
    pub fn available() -> bool {
        std::path::Path::new("/proc").is_dir()
    }

    /// The process id that a directory entry of `/proc` stands for, if its
    /// name is one.
    pub fn entry_pid(entry: &str) -> (r: Option<i32>)
        ensures
            r == decimal_i32(entry@),
    {
        let chars = chars_of(entry);
        parse_i32(chars.as_slice())
    }

    /// The path of the file to read for the command name of process `pid`.
    pub fn comm_path(pid: i32) -> (path: String)
        ensures
            path@ == comm_path_of(pid),
    {
        let mut path = String::from_str("/proc/");
        let digits = decimal_string(pid);
        path.append(digits.as_str());
        path.append("/comm");
        path
    }

    /// The record of process `pid`, given what its `comm` file holds. A
    /// process whose name is empty once trimmed is left out.
    pub fn record(pid: i32, comm: &str) -> (r: Option<(i32, String)>)
        ensures
            r.deep_view() == record_of(pid, comm@),
    {
        named_record(pid, comm)
    }
}

} // verus!
