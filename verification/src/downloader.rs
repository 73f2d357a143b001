//! Where the template comes from: a local directory or a GitHub release, and
//! the decisions taken while resolving it.

use vstd::prelude::*;
use crate::constants::{GITHUB_API_BASE, TEMPLATE_REPO_URL};
use crate::text::text_eq;
use crate::json::{json_string_field, spec_parse_json, tree_string_field};

verus! {

/// Where the template source comes from.
pub enum TemplateSource {
    /// A local directory (for development and testing).
    Local(String),
    /// A GitHub release, optionally a specific version tag.
    GitHub { version: Option<String> },
}

/// Why a local template directory cannot be used.
#[derive(Clone, Copy, Debug, PartialEq, Eq, Structural)]
pub enum LocalSourceError {
    /// The path does not exist.
    Missing,
    /// The path is not a directory.
    NotADirectory,
    /// The directory holds no template manifest.
    NoManifest,
}

/// Why the latest release tag could not be read from the GitHub answer.
#[derive(Clone, Copy, Debug, PartialEq, Eq, Structural)]
pub enum TagError {
    /// The answer is not JSON.
    InvalidJson,
    /// The answer has no string `tag_name`.
    MissingTagName,
}

/// Picks the template source: an explicit `--source` path first, then the
/// environment's template path when it exists, else a GitHub release of
/// `cli_version` (the latest when none is given).
pub fn resolve_source(
    cli_source: Option<String>,
    env_path: Option<String>,
    env_path_exists: bool,
    cli_version: Option<String>,
) -> (r: TemplateSource)
    ensures
        cli_source matches Some(p) ==> r == TemplateSource::Local(p),
        cli_source is None && env_path is Some && env_path_exists ==> r == TemplateSource::Local(
            env_path->0,
        ),
        cli_source is None && !(env_path is Some && env_path_exists) ==> (r == (TemplateSource::GitHub {
            version: cli_version,
        })),
{
    if let Some(path) = cli_source {
        return TemplateSource::Local(path);
    }
    if let Some(path) = env_path {
        if env_path_exists {
            return TemplateSource::Local(path);
        }
    }
    TemplateSource::GitHub { version: cli_version }
}

/// Whether a local template directory can be used, given whether its path
/// exists, is a directory and holds the manifest; the first failing check
/// decides the error.
pub fn check_local_source(exists: bool, is_dir: bool, has_manifest: bool) -> (r: Result<(), LocalSourceError>)
    ensures
        !exists ==> (r matches Err(e) && e == LocalSourceError::Missing),
        exists && !is_dir ==> (r matches Err(e) && e == LocalSourceError::NotADirectory),
        exists && is_dir && !has_manifest ==> (r matches Err(e) && e == LocalSourceError::NoManifest),
        exists && is_dir && has_manifest ==> (r is Ok),
{
    if !exists {
        Err(LocalSourceError::Missing)
    } else if !is_dir {
        Err(LocalSourceError::NotADirectory)
    } else if !has_manifest {
        Err(LocalSourceError::NoManifest)
    } else {
        Ok(())
    }
}

/// Whether a cached template of `tag` is used instead of downloading: it must
/// exist, and "main" (which has no stable version) is always downloaded.
pub fn use_cached_template(tag: &str, cache_exists: bool) -> (r: bool)
    ensures
        r == (cache_exists && tag@ != "main"@),
{
    cache_exists && !text_eq(tag, "main")
}

/// The URL of the tar.gz archive of `tag` ("main" names the main branch).
pub fn archive_url(tag: &str) -> (r: String)
    ensures
        r@ == TEMPLATE_REPO_URL@ + "/archive/refs/"@ + (if tag@ == "main"@ {
            "heads/main"@
        } else {
            "tags/"@ + tag@
        }) + ".tar.gz"@,
{
    let mut url = TEMPLATE_REPO_URL.to_owned();
    url.append("/archive/refs/");
    if text_eq(tag, "main") {
        url.append("heads/main");
    } else {
        url.append("tags/");
        url.append(tag);
    }
    url.append(".tar.gz");
    url
}

/// The GitHub API URL that answers with the latest release.
pub fn latest_release_url() -> (r: String)
    ensures
        r@ == GITHUB_API_BASE@ + "/releases/latest"@,
{
    let mut url = GITHUB_API_BASE.to_owned();
    url.append("/releases/latest");
    url
}

/// The release tag, given whether the GitHub answer was a success and what its
/// `tag_name` field holds: without a release (no success) the main branch is
/// used.
pub fn tag_from_release_field(success: bool, tag_field: Option<Option<String>>) -> (r: Result<String, TagError>)
    ensures
        !success ==> (r matches Ok(t) && t@ == "main"@),
        success ==> (match tag_field {
            None => r matches Err(e) && e == TagError::InvalidJson,
            Some(None) => r matches Err(e) && e == TagError::MissingTagName,
            Some(Some(t)) => r matches Ok(u) && u@ == t@,
        }),
{
    if !success {
        return Ok("main".to_owned());
    }
    match tag_field {
        None => Err(TagError::InvalidJson),
        Some(None) => Err(TagError::MissingTagName),
        Some(Some(t)) => Ok(t),
    }
}

/// The latest release tag from the GitHub answer: "main" when the request was
/// not a success (no release yet), else the `tag_name` of the JSON body.
pub fn latest_tag_from_response(success: bool, body: &str) -> (r: Result<String, TagError>)
    ensures
        !success ==> (r matches Ok(t) && t@ == "main"@),
        success ==> (match spec_parse_json(body@) {
            None => r matches Err(e) && e == TagError::InvalidJson,
            Some(t) => match tree_string_field(t, "tag_name"@) {
                None => r matches Err(e) && e == TagError::MissingTagName,
                Some(tag) => r matches Ok(u) && u@ == tag,
            },
        }),
{
    if !success {
        return tag_from_release_field(false, None);
    }
    let field = json_string_field(body, "tag_name");
    tag_from_release_field(true, field)
}

} // verus!
