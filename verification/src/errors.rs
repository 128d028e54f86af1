use vstd::prelude::*;
use vstd::string::StringExecFns;

verus! {

/// The error kinds the route library reports: the compiler rejects a template
/// with one of the first four, the reverser rejects bindings with the last two.
#[derive(Clone, Copy, Debug, PartialEq, Eq, Structural)]
pub enum RouteError {
    /// `{` and `}` nesting in the template does not close.
    UnbalancedBraces,
    /// A placeholder name is malformed.
    InvalidTemplate,
    /// A per-variable regex fails to parse, or is explicitly empty.
    InvalidSubPattern,
    /// The same variable name is used twice in one template.
    DuplicateVariable,
    /// A binding omits a required variable.
    MissingVariable,
    /// A binding value fails its validator.
    InvalidVariable,
}

impl RouteError {
    /// The fixed text that introduces this error kind in a report.
    pub open spec fn spec_prefix(self) -> Seq<char> {
        match self {
            RouteError::UnbalancedBraces => "mux: unbalanced braces in "@,
            RouteError::InvalidTemplate => "mux: invalid placeholder name in "@,
            RouteError::InvalidSubPattern => "mux: invalid subpattern in "@,
            RouteError::DuplicateVariable => "mux: duplicated route variable in "@,
            RouteError::MissingVariable => "mux: missing route variable for "@,
            RouteError::InvalidVariable => "mux: invalid route variable for "@,
        }
    }

    /// A report of the error that carries the offending template along.
    pub fn message(&self, template: &str) -> (r: String)
        ensures
            r@ == self.spec_prefix() + template@,
    {
        let prefix: &str = match self {
            RouteError::UnbalancedBraces => "mux: unbalanced braces in ",
            RouteError::InvalidTemplate => "mux: invalid placeholder name in ",
            RouteError::InvalidSubPattern => "mux: invalid subpattern in ",
            RouteError::DuplicateVariable => "mux: duplicated route variable in ",
            RouteError::MissingVariable => "mux: missing route variable for ",
            RouteError::InvalidVariable => "mux: invalid route variable for ",
        };
        let mut r = prefix.to_owned();
        r.append(template);
        r
    }
}

} // verus!
