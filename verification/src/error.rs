//! Errors raised while planning a rename.

use vstd::prelude::*;

verus! {

/// The ways a single file's rename plan, or the whole run, can fail.
#[derive(Debug, Clone, Copy, PartialEq, Eq, Structural)]
pub enum RenamerError {
    /// The pattern did not match the file name; the file is skipped.
    InvalidPattern,
    /// A field to be zero-padded begins with `-`; padding such a value
    /// would disguise the sign, so this file's plan is abandoned.
    NegativeValue,
    /// A placeholder width in the template is too large to use; this is a
    /// configuration error and ends the run before any plan is built.
    MalformedTemplate,
}

impl RenamerError {
    /// A short description of the error.
    pub fn message(&self) -> (r: &'static str)
        ensures
            r@ == spec_message(*self),
    {
        match self {
            RenamerError::InvalidPattern => "Invalid pattern provided",
            RenamerError::NegativeValue => "Negative value for a zero-padded field",
            RenamerError::MalformedTemplate => "Malformed width in the new-name template",
        }
    }
}

/// The character-level contents of a string-or-error result.
pub open spec fn res_view(r: Result<String, RenamerError>) -> Result<Seq<char>, RenamerError> {
    match r {
        Ok(s) => Ok(s@),
        Err(e) => Err(e),
    }
}

/// The description `message` returns for each error.
pub open spec fn spec_message(e: RenamerError) -> Seq<char> {
    match e {
        RenamerError::InvalidPattern => "Invalid pattern provided"@,
        RenamerError::NegativeValue => "Negative value for a zero-padded field"@,
        RenamerError::MalformedTemplate => "Malformed width in the new-name template"@,
    }
}

} // verus!
