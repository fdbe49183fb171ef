//! The outcome of one test run against a server, as a report shows it.

use vstd::prelude::*;

verus! {

/// How a test run against one address of a server ended.
#[derive(Debug, Clone, Copy, PartialEq, Eq, Structural)]
pub enum RunOutcome {
    Tested,
    NetworkError,
    JsonError,
    RdapDataError,
    InternalError,
    Skipped,
}

/// The name of an outcome in SCREAMING_SNAKE_CASE.
pub open spec fn outcome_name(o: RunOutcome) -> Seq<char> {
    match o {
        RunOutcome::Tested => "TESTED"@,
        RunOutcome::NetworkError => "NETWORK_ERROR"@,
        RunOutcome::JsonError => "JSON_ERROR"@,
        RunOutcome::RdapDataError => "RDAP_DATA_ERROR"@,
        RunOutcome::InternalError => "INTERNAL_ERROR"@,
        RunOutcome::Skipped => "SKIPPED"@,
    }
}

/// The Markdown of an outcome: a tested run in bold, a skipped one plain, a failed one in
/// emphasis.
pub open spec fn outcome_md(o: RunOutcome) -> Seq<char> {
    match o {
        RunOutcome::Tested => "**"@ + outcome_name(o) + "**"@,
        RunOutcome::Skipped => outcome_name(o),
        _ => "*"@ + outcome_name(o) + "*"@,
    }
}

impl RunOutcome {
    /// The name of the outcome in SCREAMING_SNAKE_CASE.
    pub fn to_name(&self) -> (r: &'static str)
        ensures
            r@ == outcome_name(*self),
    {
        match self {
            RunOutcome::Tested => "TESTED",
            RunOutcome::NetworkError => "NETWORK_ERROR",
            RunOutcome::JsonError => "JSON_ERROR",
            RunOutcome::RdapDataError => "RDAP_DATA_ERROR",
            RunOutcome::InternalError => "INTERNAL_ERROR",
            RunOutcome::Skipped => "SKIPPED",
        }
    }

    /// The outcome as Markdown.
    pub fn to_md(&self) -> (r: String)
        ensures
            r@ == outcome_md(*self),
    {
        let name = self.to_name();
        match self {
            RunOutcome::Tested => String::from_str("**").concat(name).concat("**"),
            RunOutcome::Skipped => String::from_str(name),
            _ => String::from_str("*").concat(name).concat("*"),
        }
    }
}

} // verus!
