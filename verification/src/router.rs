//! Dispatch of one GET request, and the headers of a file response.
//!
//! Each request is handled independently: the path is resolved first, and a
//! request that fails resolution is rejected before any filesystem access.
//! Only then does the caller probe the resolved path once, and the decision
//! follows from that live probe alone — never from the shape of the path.

use vstd::prelude::*;
use vstd::string::*;

verus! {

/// What one live filesystem probe of the resolved path reported.
#[derive(Clone, Copy, PartialEq, Eq, Debug, Structural)]
pub enum PathKind {
    /// The path does not exist.
    Missing,
    /// The path is a directory.
    Directory,
    /// The path is a regular file (or anything that is not a directory).
    File,
}

/// The decision for one GET request.
#[derive(Clone, Copy, PartialEq, Eq, Debug, Structural)]
pub enum ServeDecision {
    /// The request path escaped the served root; reject it with no
    /// filesystem access.
    Forbidden,
    /// The resolved path does not exist.
    NotFound,
    /// The resolved path is a directory: list it.
    ShowListing,
    /// The resolved path is a file: send its bytes.
    SendFile,
}

/// Decides one GET request from the two facts that determine it: whether
/// resolution accepted the path, and what the probe of the resolved path
/// found. A missing path is absence, never a server error; directory or
/// file is decided by the probe, not by the path's shape.
pub fn dispatch_get(resolved: bool, probe: PathKind) -> (d: ServeDecision)
    ensures
        !resolved ==> d == ServeDecision::Forbidden,
        resolved && probe == PathKind::Missing ==> d == ServeDecision::NotFound,
        resolved && probe == PathKind::Directory ==> d == ServeDecision::ShowListing,
        resolved && probe == PathKind::File ==> d == ServeDecision::SendFile,
{
    if !resolved {
        ServeDecision::Forbidden
    } else {
        match probe {
            PathKind::Missing => ServeDecision::NotFound,
            PathKind::Directory => ServeDecision::ShowListing,
            PathKind::File => ServeDecision::SendFile,
        }
    }
}

/// The HTTP status that announces a decision: success for the two serving
/// branches, the rejection status for an escape, and the absence status for
/// a missing path.
pub fn http_status(d: ServeDecision) -> (s: u16)
    ensures
        d == ServeDecision::Forbidden ==> s == 403,
        d == ServeDecision::NotFound ==> s == 404,
        d == ServeDecision::ShowListing ==> s == 200,
        d == ServeDecision::SendFile ==> s == 200,
{
    match d {
        ServeDecision::Forbidden => 403,
        ServeDecision::NotFound => 404,
        ServeDecision::ShowListing => 200,
        ServeDecision::SendFile => 200,
    }
}

/// The content-disposition header of a file response: inline, with the
/// file's own name preserved for the browser.
pub fn content_disposition(filename: &str) -> (r: String)
    ensures
        r@ == "inline; filename=\""@ + filename@ + "\""@,
{
    let r = "inline; filename=\"".to_owned().concat(filename).concat("\"");
    proof {
        assert(r@ =~= "inline; filename=\""@ + filename@ + "\""@);
    }
    r
}

} // verus!
