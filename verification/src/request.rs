//! The requests that a run sends: a metadata-only probe for the number of
//! pages of a project's history, and one request per page of it.

use vstd::prelude::*;
use crate::config::ProjectId;
use crate::text::{decimal, push_decimal};

verus! {

/// Number of records that one page request asks for.
pub const PAGE_SIZE: u8 = 100;

/// Name of the request header that carries the credential.
pub const TOKEN_HEADER: &'static str = "PRIVATE-TOKEN";

/// Name of the response header that carries the number of pages.
pub const TOTAL_PAGES_HEADER: &'static str = "X-Total-Pages";

/// The page number of the probe. Pages of data count from one.
pub const PROBE_PAGE: u16 = 0;

/// How a request asks: for headers only, or for the body as well.
#[derive(Clone, Copy, Debug, PartialEq, Eq, Structural)]
pub enum Method {
    Head,
    Get,
}

/// One request to the remote service.
#[derive(Clone, Debug)]
pub struct PageRequest {
    pub method: Method,
    /// The absolute URL, query included.
    pub url: String,
    /// The credential, to be sent in the header `TOKEN_HEADER`.
    pub token: String,
}

/// The method by which a page is asked for: the probe asks for headers only.
pub open spec fn spec_method(page: u16) -> Method {
    if page == PROBE_PAGE {
        Method::Head
    } else {
        Method::Get
    }
}

/// The path of a project's commit history, relative to the service's address.
pub open spec fn spec_commits_path(project: ProjectId) -> Seq<char> {
    "api/v4/projects/"@ + decimal(project.0 as nat) + "/repository/commits/"@
}

/// The query that asks for page `page`: `PAGE_SIZE` records of all branches,
/// with the statistics of each commit.
pub open spec fn spec_query(page: u16) -> Seq<char> {
    "page="@ + decimal(page as nat) + "&per_page="@ + decimal(PAGE_SIZE as nat)
        + "&all=true&with_stats=true"@
}

/// The request for page `page` of the history at `endpoint`.
pub open spec fn spec_request(endpoint: Seq<char>, token: Seq<char>, page: u16, r: PageRequest) -> bool {
    &&& r.method == spec_method(page)
    &&& r.url@ == endpoint + "?"@ + spec_query(page)
    &&& r.token@ == token
}

/// The URL that results when `base` is parsed as an absolute URL and `path`
/// is resolved against it, in its serialised form; `None` where `base` is no
/// absolute URL or `path` cannot be resolved against it.
pub uninterp spec fn joined_url(base: Seq<char>, path: Seq<char>) -> Option<Seq<char>>;

/// Resolves `path` against `base`. `base` is parsed with `Url::parse`, `path`
/// is resolved against the result with `Url::join`, and what comes back is
/// the serialisation of the URL that results (`Url::as_str`). The contract
/// gives that text the name `joined_url` and claims only that it depends on
/// nothing but the two arguments.
#[verifier::external_body]
fn join_url(base: &str, path: &str) -> (r: Option<String>)
    ensures
        r is Some <==> joined_url(base@, path@) is Some,
        r matches Some(u) ==> joined_url(base@, path@) == Some(u@),
{
    match http_types::Url::parse(base) {
        Ok(b) => match b.join(path) {
            Ok(u) => Some(u.as_str().to_string()),
            Err(_) => None,
        },
        Err(_) => None,
    }
}

/// The method by which a page is asked for.
pub fn method_for(page: u16) -> (m: Method)
    ensures
        m == spec_method(page),
{
    if page == PROBE_PAGE {
        Method::Head
    } else {
        Method::Get
    }
}

/// The path of a project's commit history, relative to the service's address.
pub fn commits_path(project: ProjectId) -> (p: String)
    ensures
        p@ == spec_commits_path(project),
{
    let mut p = "api/v4/projects/".to_owned();
    push_decimal(&mut p, project.0 as u64);
    p.append("/repository/commits/");
    p
}

/// The query that asks for page `page`.
pub fn query_string(page: u16) -> (q: String)
    ensures
        q@ == spec_query(page),
{
    let mut q = "page=".to_owned();
    push_decimal(&mut q, page as u64);
    q.append("&per_page=");
    push_decimal(&mut q, PAGE_SIZE as u64);
    q.append("&all=true&with_stats=true");
    q
}

/// The request for page `page` of the history at `endpoint`: a probe for
/// page 0, a fetch for any other.
pub fn request_to(endpoint: String, token: &str, page: u16) -> (r: PageRequest)
    ensures
        spec_request(endpoint@, token@, page, r),
{
    let mut url = endpoint;
    url.append("?");
    let q = query_string(page);
    url.append(q.as_str());
    PageRequest { method: method_for(page), url, token: token.to_owned() }
}

/// The request for page `page` of a project's history on the service at
/// `addr`: `None` where `addr` is no absolute URL that the path of the
/// history can be resolved against.
pub fn page_request(addr: &str, token: &str, project: ProjectId, page: u16) -> (r: Option<PageRequest>)
    ensures
        r is Some <==> joined_url(addr@, spec_commits_path(project)) is Some,
        r matches Some(req) ==> spec_request(
            joined_url(addr@, spec_commits_path(project))->0,
            token@,
            page,
            req,
        ),
{
    let path = commits_path(project);
    match join_url(addr, path.as_str()) {
        Some(endpoint) => Some(request_to(endpoint, token, page)),
        None => None,
    }
}

} // verus!
