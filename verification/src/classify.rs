//! Response classification: a pure function from one probe response to a
//! discovery decision, and the follow-up decision after a single redirect.
use vstd::prelude::*;
use crate::ScanResult;
use crate::catalog::{is_backup_file_extension, matches_backup_catalog};

verus! {

/// What to do with a probe response.
pub enum ProbeAction {
    /// The response does not indicate a backup artifact.
    NoDiscovery,
    /// The response confirms a likely backup artifact.
    Discovery(ScanResult),
    /// The response redirects a catalog-matching URL: follow one hop,
    /// then decide with [`classify_redirect`].
    FollowRedirect,
}

/// The response has a Content-Length smaller than 100 bytes, the footprint of
/// an error page rather than an artifact.
pub open spec fn too_small(content_length: Option<u64>) -> bool {
    match content_length {
        Some(n) => n < 100,
        None => false,
    }
}

/// Classifies one HEAD response.
///
/// 200: a discovery exactly when the URL matches the backup catalog and the
/// reported size, if any, is at least 100 bytes; `verified` echoes the
/// caller's verify flag. 403: a discovery exactly when the URL matches the
/// catalog, never verified. 3xx: follow one redirect exactly when the URL
/// matches the catalog and a Location header is present. Everything else:
/// no discovery.
pub fn classify_response(
    url: &str,
    status: u16,
    content_type: Option<String>,
    content_length: Option<u64>,
    has_location: bool,
    verify_content: bool,
) -> (a: ProbeAction)
    ensures
        status == 200 && matches_backup_catalog(url@) && !too_small(content_length) ==> (a matches
            ProbeAction::Discovery(r) && r.url@ == url@ && r.status_code == 200 && r.content_type
            == content_type && r.content_length == content_length && r.verified == verify_content),
        status == 200 && !(matches_backup_catalog(url@) && !too_small(content_length)) ==> a matches
            ProbeAction::NoDiscovery,
        status == 403 && matches_backup_catalog(url@) ==> (a matches ProbeAction::Discovery(r)
            && r.url@ == url@ && r.status_code == 403 && r.content_type == content_type
            && r.content_length == content_length && !r.verified),
        status == 403 && !matches_backup_catalog(url@) ==> a matches ProbeAction::NoDiscovery,
        300 <= status < 400 && matches_backup_catalog(url@) && has_location ==> a matches
            ProbeAction::FollowRedirect,
        300 <= status < 400 && !(matches_backup_catalog(url@) && has_location) ==> a matches
            ProbeAction::NoDiscovery,
        !(status == 200 || status == 403 || 300 <= status < 400) ==> a matches
            ProbeAction::NoDiscovery,
{
    if status == 200 {
        if !is_backup_file_extension(url) {
            return ProbeAction::NoDiscovery;
        }
        if let Some(size) = content_length {
            if size < 100 {
                return ProbeAction::NoDiscovery;
            }
        }
        ProbeAction::Discovery(
            ScanResult {
                url: String::from_str(url),
                status_code: 200,
                content_type,
                content_length,
                verified: verify_content,
            },
        )
    } else if status == 403 {
        if !is_backup_file_extension(url) {
            return ProbeAction::NoDiscovery;
        }
        ProbeAction::Discovery(
            ScanResult {
                url: String::from_str(url),
                status_code: 403,
                content_type,
                content_length,
                verified: false,
            },
        )
    } else if 300 <= status && status < 400 {
        if is_backup_file_extension(url) && has_location {
            ProbeAction::FollowRedirect
        } else {
            ProbeAction::NoDiscovery
        }
    } else {
        ProbeAction::NoDiscovery
    }
}

/// Decides after following one redirect of a catalog-matching URL: a success
/// status on the redirect target yields a discovery keyed by the original
/// URL, never verified; anything else yields none.
pub fn classify_redirect(
    url: &str,
    redirect_status: u16,
    content_type: Option<String>,
    content_length: Option<u64>,
) -> (r: Option<ScanResult>)
    ensures
        200 <= redirect_status < 300 ==> (r matches Some(d) && d.url@ == url@ && d.status_code
            == redirect_status && d.content_type == content_type && d.content_length
            == content_length && !d.verified),
        !(200 <= redirect_status < 300) ==> r is None,
{
    if 200 <= redirect_status && redirect_status < 300 {
        Some(
            ScanResult {
                url: String::from_str(url),
                status_code: redirect_status,
                content_type,
                content_length,
                verified: false,
            },
        )
    } else {
        None
    }
}

} // verus!
