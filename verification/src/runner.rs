//! Building the shell invocation: fail-fast wrapping and exit-code mapping.
//!
//! The command string is treated as opaque shell source; the only transform
//! is the fail-fast preamble, so that the first failing statement of a
//! multi-line command stops the whole script.

use vstd::prelude::*;

verus! {

/// The script handed to the shell: the fail-fast preamble, then the command
/// unchanged.
pub open spec fn fail_fast_view(cmd: Seq<char>) -> Seq<char> {
    "set -e\n"@ + cmd
}

/// Wrap a command with the fail-fast preamble. The command text itself is
/// neither inspected nor transformed.
pub fn fail_fast_script(cmd: &str) -> (r: String)
    ensures
        r@ == fail_fast_view(cmd@),
{
    String::from_str("set -e\n").concat(cmd)
}

/// The exit code reported for a finished shell: the shell's own code, or 1
/// where the platform reports none (the shell was ended by a signal).
pub fn exit_code(code: Option<i32>) -> (r: i32)
    ensures
        match code {
            Some(c) => r == c,
            None => r == 1,
        },
{
    match code {
        Some(c) => c,
        None => 1,
    }
}

} // verus!
