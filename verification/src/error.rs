use vstd::prelude::*;
use vstd::string::StringExecFns;

verus! {

/// A regex construct that the compiler rejects because matching it would
/// need backtracking, which the generated matchers do not do.
#[derive(Clone, Copy, Debug)]
pub enum Construct {
    Alternation,
    NonGreedyRepetition,
}

/// The errors of the compile pipeline. Matching itself is total and never
/// fails.
#[derive(Clone, Debug)]
pub enum Error {
    /// The pattern was rejected by the pattern parser.
    InvalidPattern(String),
    /// The pattern parsed, but uses a construct the compiler rejects.
    UnsupportedConstruct(Construct),
    /// The requested matcher name is not a valid identifier.
    InvalidIdentifier(String),
    /// The pattern has more capture slots, the whole match included, than
    /// the capture store's bitmask can track.
    CaptureLimitExceeded,
}

/// The diagnostic text for an error.
pub open spec fn spec_message(e: Error) -> Seq<char> {
    match e {
        Error::InvalidPattern(m) => "invalid pattern: "@ + m@,
        Error::UnsupportedConstruct(Construct::Alternation) => "unsupported construct: alternation"@,
        Error::UnsupportedConstruct(Construct::NonGreedyRepetition) => "unsupported construct: non-greedy repetition"@,
        Error::InvalidIdentifier(m) => "invalid identifier: "@ + m@,
        Error::CaptureLimitExceeded => "more than 63 capture slots"@,
    }
}

impl Error {
    /// Renders the error as a short diagnostic.
    pub fn message(&self) -> (r: String)
        ensures
            r@ == spec_message(*self),
    {
        match self {
            Error::InvalidPattern(m) => {
                let mut s = String::new();
                s.append("invalid pattern: ");
                s.append(m.as_str());
                s
            },
            Error::UnsupportedConstruct(Construct::Alternation) => {
                let mut s = String::new();
                s.append("unsupported construct: alternation");
                s
            },
            Error::UnsupportedConstruct(Construct::NonGreedyRepetition) => {
                let mut s = String::new();
                s.append("unsupported construct: non-greedy repetition");
                s
            },
            Error::InvalidIdentifier(m) => {
                let mut s = String::new();
                s.append("invalid identifier: ");
                s.append(m.as_str());
                s
            },
            Error::CaptureLimitExceeded => {
                let mut s = String::new();
                s.append("more than 63 capture slots");
                s
            },
        }
    }
}

} // verus!
