//! Error taxonomy of the audit core.
//!
//! None of these errors is recovered from locally: every one aborts the
//! call chain that raised it.
use vstd::prelude::*;

verus! {

/// Why a repository reference URL could not be parsed into a remote identity.
#[derive(Clone, Copy, Debug, PartialEq, Eq, Structural)]
pub enum ParseIssue {
    /// The string is not an absolute URL.
    InvalidUrl,
    /// The URL has no host.
    NoHost,
    /// The URL has no port and its scheme has no known default port.
    NoPort,
    /// The URL path is not of the form `/owner/repository[.git]`.
    BadPathFormat,
}

/// A provider response is missing a field the algorithm depends on.
#[derive(Clone, Copy, Debug, PartialEq, Eq, Structural)]
pub enum DataIssue {
    /// A pull request record carries no HTML link.
    PrWithoutHtmlUrl,
    /// A review record carries no commit id.
    ReviewWithoutCommitId,
    /// A review record carries no submission time.
    ReviewWithoutSubmittedAt,
    /// A review record carries no author.
    ReviewWithoutUser,
    /// A pull request has zero commits, so it has no head commit.
    PrWithoutCommits,
}

/// A provider response exceeds a size or pagination limit that the
/// implemented access pattern cannot handle.
#[derive(Clone, Copy, Debug, PartialEq, Eq, Structural)]
pub enum InvariantIssue {
    /// A response spans more than one page.
    ExtraPage,
    /// A pull request holds more commits than one page can carry.
    TooManyCommits,
}

/// Everything that can go wrong in the audit core.
#[derive(Clone, Copy, Debug, PartialEq, Eq, Structural)]
pub enum AuditError {
    /// A malformed remote URL.
    Parse(ParseIssue),
    /// A missing per-host credential.
    Auth,
    /// A network or API call failure.
    Transport,
    /// A response missing a required field.
    Data(DataIssue),
    /// A pagination or size limit was exceeded.
    Invariant(InvariantIssue),
}

impl AuditError {
    /// The human-readable description of this error.
    pub open spec fn spec_message(self) -> Seq<char> {
        match self {
            AuditError::Parse(ParseIssue::InvalidUrl) => "can't parse remote"@,
            AuditError::Parse(ParseIssue::NoHost) => "remote has no host"@,
            AuditError::Parse(ParseIssue::NoPort) => "remote has no port"@,
            AuditError::Parse(ParseIssue::BadPathFormat) => (
            "remote URLs are expected to be in the format of https://domain.com/owner/repo.git"@),
            AuditError::Auth => "missing token env variable"@,
            AuditError::Transport => "API request failed"@,
            AuditError::Data(DataIssue::PrWithoutHtmlUrl) => "pr without an html link!?"@,
            AuditError::Data(DataIssue::ReviewWithoutCommitId) => "review has no commit_id"@,
            AuditError::Data(DataIssue::ReviewWithoutSubmittedAt) => "review has no submitted_at"@,
            AuditError::Data(DataIssue::ReviewWithoutUser) => "review has no user"@,
            AuditError::Data(DataIssue::PrWithoutCommits) => "PR contains no commits"@,
            AuditError::Invariant(InvariantIssue::ExtraPage) => (
            "found more than one page for associated_prs"@),
            AuditError::Invariant(InvariantIssue::TooManyCommits) => (
            "found more than 250 commits which requires a different api endpoint per doc"@),
        }
    }

    /// The human-readable description, as an owned string.
    pub fn message(&self) -> (r: String)
        ensures
            r@ == self.spec_message(),
    {
        match self {
            AuditError::Parse(ParseIssue::InvalidUrl) => "can't parse remote".to_owned(),
            AuditError::Parse(ParseIssue::NoHost) => "remote has no host".to_owned(),
            AuditError::Parse(ParseIssue::NoPort) => "remote has no port".to_owned(),
            AuditError::Parse(ParseIssue::BadPathFormat) => {
                "remote URLs are expected to be in the format of https://domain.com/owner/repo.git".to_owned()
            },
            AuditError::Auth => "missing token env variable".to_owned(),
            AuditError::Transport => "API request failed".to_owned(),
            AuditError::Data(DataIssue::PrWithoutHtmlUrl) => "pr without an html link!?".to_owned(),
            AuditError::Data(DataIssue::ReviewWithoutCommitId) => "review has no commit_id".to_owned(),
            AuditError::Data(DataIssue::ReviewWithoutSubmittedAt) => "review has no submitted_at".to_owned(),
            AuditError::Data(DataIssue::ReviewWithoutUser) => "review has no user".to_owned(),
            AuditError::Data(DataIssue::PrWithoutCommits) => "PR contains no commits".to_owned(),
            AuditError::Invariant(InvariantIssue::ExtraPage) => {
                "found more than one page for associated_prs".to_owned()
            },
            AuditError::Invariant(InvariantIssue::TooManyCommits) => {
                "found more than 250 commits which requires a different api endpoint per doc".to_owned()
            },
        }
    }
}

} // verus!
