//! The ways in which a request, a page or a project can fail.

use vstd::prelude::*;

verus! {

/// Why a request to the remote service brought no usable answer.
#[derive(Clone, Debug)]
pub enum FetchError {
    /// The service refused the credential.
    Unauthorized,
    /// The request did not get through, or no answer came back.
    Transport(String),
    /// An answer came back whose body is no list of commit records.
    Parse(String),
}

/// Why a project failed.
#[derive(Clone, Debug)]
pub enum ProjectError {
    /// The number of pages could not be learnt.
    ProbeFailed(String),
    /// The service refused the credential. Nothing more is asked of it for
    /// this project.
    Unauthorized,
    /// A page could not be fetched.
    FetchFailed(String),
    /// A page arrived with a malformed body.
    ParseFailed(String),
    /// The sink rejected a write.
    PersistFailed(String),
    /// The project has more records than an aggregate counts.
    AggregateFull,
}

impl FetchError {
    /// What a failed probe means for its project: a refused credential stays
    /// what it is, any other failure is a failed probe with the same cause.
    pub open spec fn spec_probe_error(self) -> ProjectError {
        match self {
            FetchError::Unauthorized => ProjectError::Unauthorized,
            FetchError::Transport(cause) => ProjectError::ProbeFailed(cause),
            FetchError::Parse(cause) => ProjectError::ProbeFailed(cause),
        }
    }

    /// What a failed page means for its project: a refused credential stays
    /// what it is, a transport failure is a failed fetch and a malformed body
    /// a failed parse, each with the same cause.
    pub open spec fn spec_page_error(self) -> ProjectError {
        match self {
            FetchError::Unauthorized => ProjectError::Unauthorized,
            FetchError::Transport(cause) => ProjectError::FetchFailed(cause),
            FetchError::Parse(cause) => ProjectError::ParseFailed(cause),
        }
    }

    /// Whether the service refused the credential.
    pub fn is_unauthorized(&self) -> (b: bool)
        ensures
            b == (self is Unauthorized),
    {
        match self {
            FetchError::Unauthorized => true,
            _ => false,
        }
    }

    /// What a failed probe means for its project.
    pub fn probe_error(self) -> (e: ProjectError)
        ensures
            e == self.spec_probe_error(),
    {
        match self {
            FetchError::Unauthorized => ProjectError::Unauthorized,
            FetchError::Transport(cause) => ProjectError::ProbeFailed(cause),
            FetchError::Parse(cause) => ProjectError::ProbeFailed(cause),
        }
    }

    /// What a failed page means for its project.
    pub fn page_error(self) -> (e: ProjectError)
        ensures
            e == self.spec_page_error(),
    {
        match self {
            FetchError::Unauthorized => ProjectError::Unauthorized,
            FetchError::Transport(cause) => ProjectError::FetchFailed(cause),
            FetchError::Parse(cause) => ProjectError::ParseFailed(cause),
        }
    }
}

impl ProjectError {
    /// Whether the service refused the credential.
    pub fn is_unauthorized(&self) -> (b: bool)
        ensures
            b == (self is Unauthorized),
    {
        match self {
            ProjectError::Unauthorized => true,
            _ => false,
        }
    }

    /// A short description of the failure.
    pub open spec fn spec_describe(self) -> Seq<char> {
        match self {
            ProjectError::ProbeFailed(cause) => "probe failed: "@ + cause@,
            ProjectError::Unauthorized => "unauthorized"@,
            ProjectError::FetchFailed(cause) => "fetch failed: "@ + cause@,
            ProjectError::ParseFailed(cause) => "parse failed: "@ + cause@,
            ProjectError::PersistFailed(cause) => "persist failed: "@ + cause@,
            ProjectError::AggregateFull => "aggregate full"@,
        }
    }

    /// A short description of the failure.
    pub fn describe(&self) -> (s: String)
        ensures
            s@ == self.spec_describe(),
    {
        match self {
            ProjectError::ProbeFailed(cause) => "probe failed: ".to_owned().concat(cause.as_str()),
            ProjectError::Unauthorized => "unauthorized".to_owned(),
            ProjectError::FetchFailed(cause) => "fetch failed: ".to_owned().concat(cause.as_str()),
            ProjectError::ParseFailed(cause) => "parse failed: ".to_owned().concat(cause.as_str()),
            ProjectError::PersistFailed(cause) => "persist failed: ".to_owned().concat(
                cause.as_str(),
            ),
            ProjectError::AggregateFull => "aggregate full".to_owned(),
        }
    }
}

} // verus!
