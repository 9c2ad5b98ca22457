//! What the program says when it is started the wrong way.

use vstd::prelude::*;
use vstd::string::StringExecFns;

verus! {

/// The usage line for a program started as `program_name`.
pub open spec fn usage_message(program_name: Seq<char>) -> Seq<char> {
    "Usage: "@ + program_name + " [player name] [(host [port]|(client [ip] [port])]"@
}

/// Builds the usage line for a program started as `program_name`.
pub fn format_usage_message(program_name: &str) -> (message: String)
    ensures
        message@ == usage_message(program_name@),
{
    let mut message = String::from_str("Usage: ");
    message.append(program_name);
    message.append(" [player name] [(host [port]|(client [ip] [port])]");
    message
}

} // verus!
