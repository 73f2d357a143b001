//! Where templates come from and where they are kept.

use vstd::prelude::*;

verus! {

/// The template repository on GitHub.
pub const TEMPLATE_REPO_URL: &'static str = "https://github.com/WeaveITMeta/Weave-Template";

/// The GitHub API base of the template repository.
pub const GITHUB_API_BASE: &'static str = "https://api.github.com/repos/WeaveITMeta/Weave-Template";

/// The manifest file at the root of a template.
pub const MANIFEST_FILENAME: &'static str = "weave.manifest.toml";

/// The directory under the user's cache directory that holds templates.
pub const CACHE_DIR_NAME: &'static str = "weave-cli";

/// The environment variable that names a local template directory.
pub const ENV_TEMPLATE_PATH: &'static str = "WEAVE_TEMPLATE_PATH";

} // verus!
