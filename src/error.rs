use vstd::prelude::*;

verus! {

/// A configuration error, found before any input is read.
#[derive(Clone, Debug)]
pub enum FilterError {
    /// A malformed attribute selection.
    Parse(String),
    /// A malformed claim filter expression.
    InvalidClaim(String),
}

impl FilterError {
    /// The message carried by the error.
    pub fn message(&self) -> (r: &String)
        ensures
            *r == match self {
                FilterError::Parse(m) => *m,
                FilterError::InvalidClaim(m) => *m,
            },
    {
        match self {
            FilterError::Parse(m) => m,
            FilterError::InvalidClaim(m) => m,
        }
    }

    /// The error as it is shown to a user.
    pub fn to_string(&self) -> (r: String)
        ensures
            r@ == match self {
                FilterError::Parse(m) => "Parse error: "@ + m@,
                FilterError::InvalidClaim(m) => "Invalid claim filter: "@ + m@,
            },
    {
        let mut r = match self {
            FilterError::Parse(_) => String::from_str("Parse error: "),
            FilterError::InvalidClaim(_) => String::from_str("Invalid claim filter: "),
        };
        r.append(self.message().as_str());
        r
    }
}

} // verus!
