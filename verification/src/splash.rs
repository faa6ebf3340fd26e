//! The text of the usage line and of the splash screen.
use vstd::prelude::*;
use vstd::string::*;
use crate::text::{decimal, decimal_spec};

verus! {

/// How many files are worked on at once: no limit.
pub const MAX_WORKERS: Option<usize> = None;

/// The usage line for the program called `program`.
pub open spec fn usage_spec(program: Seq<char>) -> Seq<char> {
    "Usage: "@ + program + " <files...>"@
}

/// The usage line: `Usage: <program> <files...>`.
pub fn usage_text(program: &str) -> (r: String)
    ensures
        r@ == usage_spec(program@),
{
    let mut r = String::from_str("Usage: ");
    r.append(program);
    r.append(" <files...>");
    r
}

/// The splash screen's line for a feature: ` +name<TAB>description` when
/// it was built in, ` -name` when not.
pub open spec fn feature_spec(name: Seq<char>, desc: Seq<char>, enabled: bool) -> Seq<char> {
    if enabled {
        " +"@ + name + "\t"@ + desc
    } else {
        " -"@ + name
    }
}

/// The line for one feature (`name` may carry colour codes).
pub fn feature_line(name: &str, desc: &str, enabled: bool) -> (r: String)
    ensures
        r@ == feature_spec(name@, desc@, enabled),
{
    if enabled {
        let mut r = String::from_str(" +");
        r.append(name);
        r.append("\t");
        r.append(desc);
        r
    } else {
        let mut r = String::from_str(" -");
        r.append(name);
        r
    }
}

/// How a limit on simultaneous work reads: its number, or `unlimited`.
pub open spec fn limit_spec(limit: Option<usize>) -> Seq<char> {
    match limit {
        Some(n) => decimal_spec(n as nat),
        None => "unlimited"@,
    }
}

/// The limit on simultaneous work as the splash screen shows it.
pub fn limit_text(limit: Option<usize>) -> (r: String)
    ensures
        r@ == limit_spec(limit),
{
    match limit {
        Some(n) => decimal(n),
        None => String::from_str("unlimited"),
    }
}

} // verus!
