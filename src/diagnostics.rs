//! The lines that the shim writes to its error stream when a run fails.

use vstd::prelude::*;
use vstd::string::StringExecFns;
use crate::shims::ShimError;
use crate::text::{chars_of, string_of, strip_cr, sub_chars};

verus! {

broadcast use vstd::string::group_string_axioms;

/// The line for a configuration that could not be loaded.
pub fn load_failure_message(e: &ShimError) -> (r: String)
    ensures
        r@ == "Error while loading shim: "@ + e.description@ + "\n"@,
{
    let mut r = "Error while loading shim: ".to_owned();
    r.append(e.description.as_str());
    r.append("\n");
    r
}

/// The line for a target that could not be started, with the system's
/// account of why.
pub fn spawn_failure_message(target: &str, reason: &str) -> (r: String)
    ensures
        r@ == "Error while spawning target program `"@ + target@ + "`: "@ + reason@ + "\n"@,
{
    let mut r = "Error while spawning target program `".to_owned();
    r.append(target);
    r.append("`: ");
    r.append(reason);
    r.append("\n");
    r
}

/// The line for a target whose end or exit code could not be read, with
/// the system's account of why.
pub fn wait_failure_message(target: &str, reason: &str) -> (r: String)
    ensures
        r@ == "Error while waiting target program `"@ + target@ + "`: "@ + reason@ + "\n"@,
{
    let mut r = "Error while waiting target program `".to_owned();
    r.append(target);
    r.append("`: ");
    r.append(reason);
    r.append("\n");
    r
}

/// `s` without one trailing line break (`\n`, `\r\n` or `\r`).
pub open spec fn without_line_break(s: Seq<char>) -> Seq<char> {
    if s.len() > 0 && s.last() == '\n' {
        strip_cr(s.drop_last())
    } else {
        strip_cr(s)
    }
}

/// A system message without the line break that ends it.
pub fn trim_system_message(s: &str) -> (r: String)
    ensures
        r@ == without_line_break(s@),
{
    let cs = chars_of(s);
    let mut n = cs.len();
    if n > 0 && cs[n - 1] == '\n' {
        n -= 1;
    }
    if n > 0 && cs[n - 1] == '\r' {
        n -= 1;
    }
    let r = sub_chars(&cs, 0, n);
    assert(r@ =~= without_line_break(s@));
    string_of(&r)
}

} // verus!
