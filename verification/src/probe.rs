//! Reading the answer to a probe: how many pages a project's history has.

use vstd::prelude::*;
use crate::error::{FetchError, ProjectError};
use crate::text::{parse_u16, parsed_u16};

verus! {

/// The status with which the service refuses a credential.
pub const UNAUTHORIZED: u16 = 401;

/// The number of pages of a history whose probe names none.
pub const DEFAULT_PAGES: u16 = 1;

/// What the answer to a probe holds: its status, and the value of the header
/// that carries the number of pages, where that header is present.
#[derive(Clone, Debug)]
pub struct ProbeResponse {
    pub status: u16,
    pub total_pages: Option<String>,
}

/// The number of pages that a header value announces: the number it writes,
/// or `DEFAULT_PAGES` where there is no header or it writes no number.
pub open spec fn announced_pages(header: Option<Seq<char>>) -> u16 {
    match header {
        None => DEFAULT_PAGES,
        Some(value) => match parsed_u16(value) {
            Some(n) => n,
            None => DEFAULT_PAGES,
        },
    }
}

/// The header value of a response, as plain text.
pub open spec fn header_of(response: &ProbeResponse) -> Option<Seq<char>> {
    match response.total_pages {
        None => None,
        Some(value) => Some(value@),
    }
}

/// The number of pages that a probe's answer announces. A refused credential
/// fails the probe; any other answer announces the number in its header, or
/// one page where that is missing or no number.
pub fn total_pages(response: &ProbeResponse) -> (r: Result<u16, ProjectError>)
    ensures
        response.status == UNAUTHORIZED ==> r == Err::<u16, ProjectError>(ProjectError::Unauthorized),
        response.status != UNAUTHORIZED ==> r == Ok::<u16, ProjectError>(
            announced_pages(header_of(response)),
        ),
{
    if response.status == UNAUTHORIZED {
        return Err(ProjectError::Unauthorized);
    }
    match &response.total_pages {
        None => Ok(DEFAULT_PAGES),
        Some(value) => match parse_u16(value.as_str()) {
            Some(n) => Ok(n),
            None => Ok(DEFAULT_PAGES),
        },
    }
}

/// What a probe's outcome says of its project: the number of pages where an
/// answer came, and where none came the failure as the project reports it.
pub open spec fn spec_probe_outcome(outcome: Result<ProbeResponse, FetchError>) -> Result<u16, ProjectError> {
    match outcome {
        Ok(response) => if response.status == UNAUTHORIZED {
            Err(ProjectError::Unauthorized)
        } else {
            Ok(announced_pages(header_of(&response)))
        },
        Err(e) => Err(e.spec_probe_error()),
    }
}

/// What a probe's outcome says of its project.
pub fn probe_outcome(outcome: Result<ProbeResponse, FetchError>) -> (r: Result<u16, ProjectError>)
    ensures
        r == spec_probe_outcome(outcome),
{
    match outcome {
        Ok(response) => total_pages(&response),
        Err(e) => Err(e.probe_error()),
    }
}

} // verus!
