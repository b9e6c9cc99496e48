use vstd::prelude::*;

verus! {

use vstd::string::StringExecFns;
use crate::json::{parse_create_issue, parse_create_issue_spec};
use crate::strutil::str_eq;

/// One HTTP response: the status code and the body sent back.
pub struct HttpResponse {
    pub status: u16,
    pub body: String,
}

/// Where a request goes: the issue-creation endpoint answers a POST to its
/// one path, and every other request is looked up in the static bundle.
#[derive(Debug, Clone, Copy, PartialEq, Eq, Structural)]
pub enum Route {
    IssueApi,
    StaticAsset,
}

pub open spec fn route_of(method: Seq<char>, path: Seq<char>) -> Route {
    if method == "POST"@ && path == "/api/issue"@ {
        Route::IssueApi
    } else {
        Route::StaticAsset
    }
}

/// Routes one request by its method and path.
pub fn dispatch(method: &str, path: &str) -> (r: Route)
    ensures
        r == route_of(method@, path@),
{
    if str_eq(method, "POST") && str_eq(path, "/api/issue") {
        Route::IssueApi
    } else {
        Route::StaticAsset
    }
}

/// The response for a static-asset lookup: the asset as found, or "not
/// found" when no file stands at the requested path.
pub fn static_response(asset: Option<Vec<u8>>) -> (r: (u16, Vec<u8>))
    ensures
        asset matches Some(b) ==> r.0 == 200 && r.1@ == b@,
        asset is None ==> r.0 == 404 && r.1@ == Seq::<u8>::empty(),
{
    match asset {
        Some(b) => (200, b),
        None => (404, Vec::new()),
    }
}

/// Everything the outbound issue-creation call needs.
pub struct IssueParams {
    pub project_id: u64,
    pub title: String,
    pub description: String,
    pub confidential: bool,
}

/// Reads one request body and either hands back the parameters for the
/// remote call, or rejects the request at once, before any remote call is
/// made, when the body is not a well-formed create-issue request.
pub fn issue_request(body: &str, project_id: u64) -> (r: Result<IssueParams, HttpResponse>)
    ensures
        match parse_create_issue_spec(body@) {
            Some(f) => r matches Ok(p) && p.project_id == project_id && p.title@ == f.title
                && p.description@ == f.description && p.confidential == f.confidential,
            None => r matches Err(resp) && resp.status == 400 && resp.body@
                == "Invalid Issue request body"@,
        },
{
    match parse_create_issue(body) {
        Some(ci) => Ok(
            IssueParams {
                project_id,
                title: ci.title,
                description: ci.description,
                confidential: ci.confidential,
            },
        ),
        None => Err(HttpResponse { status: 400, body: "Invalid Issue request body".to_owned() }),
    }
}

/// The response for one completed remote call: success is answered as
/// "created" with the remote service's body passed through unchanged, and a
/// failure as a client error whose message carries the underlying cause.
pub fn issue_response(outcome: Result<String, String>) -> (r: HttpResponse)
    ensures
        outcome matches Ok(b) ==> r.status == 201 && r.body@ == b@,
        outcome matches Err(e) ==> r.status == 400 && r.body@ == "Failed to create Issue: "@ + e@,
{
    match outcome {
        Ok(b) => HttpResponse { status: 201, body: b },
        Err(e) => {
            let mut msg = String::from_str("Failed to create Issue: ");
            msg.append(e.as_str());
            HttpResponse { status: 400, body: msg }
        },
    }
}

} // verus!
