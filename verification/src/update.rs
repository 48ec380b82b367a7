//! The startup update check's decision logic: given the latest published
//! release descriptor and the running build's version, decide whether a
//! newer build exists. Fetching the descriptor is I/O and lives outside
//! the library; nothing here can prevent the server from starting.

use vstd::prelude::*;

verus! {

/// A published release descriptor, as the release feed reports it.
#[derive(Default, Debug, Clone, PartialEq)]
pub struct Release {
    pub url: String,
    pub assets_url: String,
    pub upload_url: String,
    pub html_url: String,
    pub id: i64,
    pub author: Author,
    pub node_id: String,
    pub tag_name: String,
    pub target_commitish: String,
    pub name: String,
    pub draft: bool,
    pub prerelease: bool,
    pub created_at: String,
    pub published_at: String,
    pub assets: Vec<Asset>,
    pub tarball_url: String,
    pub zipball_url: String,
    pub body: String,
}

/// The account that published a release.
#[derive(Default, Debug, Clone, PartialEq)]
pub struct Author {
    pub login: String,
    pub id: i64,
    pub node_id: String,
    pub avatar_url: String,
    pub gravatar_id: String,
    pub url: String,
    pub html_url: String,
    pub followers_url: String,
    pub following_url: String,
    pub gists_url: String,
    pub starred_url: String,
    pub subscriptions_url: String,
    pub organizations_url: String,
    pub repos_url: String,
    pub events_url: String,
    pub received_events_url: String,
    pub type_field: String,
    pub site_admin: bool,
}

/// A downloadable artifact attached to a release.
#[derive(Default, Debug, Clone, PartialEq)]
pub struct Asset {
    pub url: String,
    pub id: i64,
    pub node_id: String,
    pub name: String,
    pub label: String,
    pub uploader: Uploader,
    pub content_type: String,
    pub state: String,
    pub size: i64,
    pub download_count: i64,
    pub created_at: String,
    pub updated_at: String,
    pub browser_download_url: String,
}

/// The account that uploaded an asset.
#[derive(Default, Debug, Clone, PartialEq)]
pub struct Uploader {
    pub login: String,
    pub id: i64,
    pub node_id: String,
    pub avatar_url: String,
    pub gravatar_id: String,
    pub url: String,
    pub html_url: String,
    pub followers_url: String,
    pub following_url: String,
    pub gists_url: String,
    pub starred_url: String,
    pub subscriptions_url: String,
    pub organizations_url: String,
    pub repos_url: String,
    pub events_url: String,
    pub received_events_url: String,
    pub type_field: String,
    pub site_admin: bool,
}

/// What the update check concluded.
#[derive(Clone, Copy, Debug, PartialEq, Eq, Structural)]
pub enum UpdateStatus {
    /// The published version orders strictly above the running one.
    UpdateAvailable,
    /// The published version does not order above the running one.
    UpToDate,
    /// One of the version strings is not a version number; the check is
    /// inconclusive and must not keep the server from starting.
    Unknown,
}

/// Whether version string `a` orders strictly above `b` under the version
/// comparison rules, or `None` when the comparison fails. The ordering
/// depends on the two strings alone.
pub uninterp spec fn version_newer(a: Seq<char>, b: Seq<char>) -> Option<bool>;

/// Relies on `version_compare::compare`: it orders two version strings,
/// its rare failure maps to `None`, and its result depends on the two
/// strings alone.
#[verifier::external_body]
fn version_is_newer(a: &str, b: &str) -> (r: Option<bool>)
    ensures
        r == version_newer(a@, b@),
{
    match version_compare::compare(a, b) {
        Err(()) => None,
        Ok(version_compare::Cmp::Gt) => Some(true),
        Ok(_) => Some(false),
    }
}

/// Decides the update check from a release descriptor and the running
/// build's version: an update exists exactly when the published tag
/// orders strictly above the running version.
pub fn update_decision(release: &Release, current_version: &str) -> (r: UpdateStatus)
    ensures
        match version_newer(release.tag_name@, current_version@) {
            Some(true) => r == UpdateStatus::UpdateAvailable,
            Some(false) => r == UpdateStatus::UpToDate,
            None => r == UpdateStatus::Unknown,
        },
{
    match version_is_newer(release.tag_name.as_str(), current_version) {
        Some(true) => UpdateStatus::UpdateAvailable,
        Some(false) => UpdateStatus::UpToDate,
        None => UpdateStatus::Unknown,
    }
}

} // verus!
