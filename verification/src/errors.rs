//! Error values of the review library, with the user-facing message each
//! carries.

use vstd::prelude::*;

verus! {

/// Everything that can go wrong in the library.  Parsing diff text is not
/// here: malformed diff input degrades, it does not fail.
#[derive(Debug, Clone, PartialEq, Eq)]
pub enum ReviewError {
    /// A commit range had more or fewer than two `..`-separated parts.
    InvalidRangeFormat,
    /// A commit range left its start or end ref empty.
    RangeRefsEmpty,
    /// A branch name was empty.
    BranchNameEmpty,
    /// A branch name started or ended with `-`.
    BranchNameDashEdge,
    /// A branch name started or ended with `.`.
    BranchNameDotEdge,
    /// A branch name contained `..`.
    BranchNameDotDot,
    /// A branch name exceeded the storage key limit after sanitization.
    BranchNameTooLong,
    /// A branch name sanitized to nothing.
    BranchNameEmptyAfter,
    /// A repository operation failed; the message is the backend's.
    Repo { message: String },
    /// A persisted comment unit could not be decoded.
    MalformedNote,
}

/// The text [`ReviewError::message`] returns for each variant.
pub open spec fn spec_message(e: ReviewError) -> Seq<char> {
    match e {
        ReviewError::InvalidRangeFormat => "Invalid range format. Use <ref> or <start>..<end>"@,
        ReviewError::RangeRefsEmpty => "Invalid range format. Both start and end refs must be specified"@,
        ReviewError::BranchNameEmpty => "Branch name cannot be empty"@,
        ReviewError::BranchNameDashEdge => "Branch name cannot start or end with '-'"@,
        ReviewError::BranchNameDotEdge => "Branch name cannot start or end with '.'"@,
        ReviewError::BranchNameDotDot => "Branch name cannot contain '..'"@,
        ReviewError::BranchNameTooLong => "Sanitized branch name too long"@,
        ReviewError::BranchNameEmptyAfter => "Branch name became empty after sanitization"@,
        ReviewError::Repo { message } => message@,
        ReviewError::MalformedNote => "Failed to parse comments JSON"@,
    }
}

impl ReviewError {
    /// The user-facing description of this error.
    pub fn message(&self) -> (r: String)
        ensures
            r@ == spec_message(*self),
    {
        match self {
            ReviewError::InvalidRangeFormat => {
                let mut s = String::new();
                s.append("Invalid range format. Use <ref> or <start>..<end>");
                s
            }
            ReviewError::RangeRefsEmpty => {
                let mut s = String::new();
                s.append("Invalid range format. Both start and end refs must be specified");
                s
            }
            ReviewError::BranchNameEmpty => {
                let mut s = String::new();
                s.append("Branch name cannot be empty");
                s
            }
            ReviewError::BranchNameDashEdge => {
                let mut s = String::new();
                s.append("Branch name cannot start or end with '-'");
                s
            }
            ReviewError::BranchNameDotEdge => {
                let mut s = String::new();
                s.append("Branch name cannot start or end with '.'");
                s
            }
            ReviewError::BranchNameDotDot => {
                let mut s = String::new();
                s.append("Branch name cannot contain '..'");
                s
            }
            ReviewError::BranchNameTooLong => {
                let mut s = String::new();
                s.append("Sanitized branch name too long");
                s
            }
            ReviewError::BranchNameEmptyAfter => {
                let mut s = String::new();
                s.append("Branch name became empty after sanitization");
                s
            }
            ReviewError::Repo { message } => message.clone(),
            ReviewError::MalformedNote => {
                let mut s = String::new();
                s.append("Failed to parse comments JSON");
                s
            }
        }
    }
}

} // verus!
