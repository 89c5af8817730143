//! The closing line of a run.

use vstd::prelude::*;
use vstd::string::StringExecFns;
use crate::text::{decimal, push_decimal};

verus! {

/// The closing line for `websites` endpoints checked with `workers`
/// workers.
pub open spec fn summary_text(websites: nat, workers: nat) -> Seq<char> {
    "Finished checking "@ + decimal(websites) + " websites with "@ + decimal(workers)
        + " workers."@
}

/// The line that closes a run: how many endpoints were checked, and with
/// how many workers.
pub fn summary_line(websites: usize, workers: usize) -> (line: String)
    ensures
        line@ == summary_text(websites as nat, workers as nat),
{
    let mut line = "Finished checking ".to_owned();
    push_decimal(&mut line, websites as u64);
    line.append(" websites with ");
    push_decimal(&mut line, workers as u64);
    line.append(" workers.");
    line
}

} // verus!
