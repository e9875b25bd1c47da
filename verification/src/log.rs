//! Log levels.
use vstd::prelude::*;
use crate::bindings::{to_uppercase, upper_text};
use crate::text::str_eq;

verus! {

/// The tracing filter level for a configured level name: its upper-case form chooses
/// `trace`, `debug`, `warn` or `error`; anything else is `info`.
pub open spec fn normalize_level_spec(level: Seq<char>) -> Seq<char> {
    let u = upper_text(level);
    if u == "TRACE"@ {
        "trace"@
    } else if u == "DEBUG"@ {
        "debug"@
    } else if u == "WARN"@ {
        "warn"@
    } else if u == "ERROR"@ {
        "error"@
    } else {
        "info"@
    }
}

/// The tracing filter level for a configured log level.
pub fn normalize_level(level: &str) -> (r: &'static str)
    ensures
        r@ == normalize_level_spec(level@),
{
    let upper = to_uppercase(level);
    let u = upper.as_str();
    if str_eq(u, "TRACE") {
        "trace"
    } else if str_eq(u, "DEBUG") {
        "debug"
    } else if str_eq(u, "WARN") {
        "warn"
    } else if str_eq(u, "ERROR") {
        "error"
    } else {
        "info"
    }
}

} // verus!
