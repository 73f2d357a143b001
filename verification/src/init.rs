//! The decisions of the `init` and `update` commands that do not touch the
//! file system: naming the project, judging whether a directory is empty, the
//! closing instructions, and when a cached template is refreshed.

use vstd::prelude::*;
use crate::screens::decimal;
use crate::text::text_eq;

verus! {

/// The project name when scaffolding into the current directory: the
/// directory's name, or "my-project" when it has none.
pub fn current_dir_project_name(dir_name: Option<String>) -> (r: String)
    ensures
        dir_name matches Some(n) ==> r@ == n@,
        dir_name is None ==> r@ == "my-project"@,
{
    match dir_name {
        Some(n) => n,
        None => "my-project".to_owned(),
    }
}

/// Whether a directory entry makes the current directory count as not
/// empty: common dotfiles that do not conflict with a project are ignored.
pub fn counts_as_content(entry_name: &str) -> (r: bool)
    ensures
        r == !(entry_name@ == ".git"@ || entry_name@ == ".gitignore"@ || entry_name@ == ".env"@
            || entry_name@ == ".vscode"@ || entry_name@ == ".idea"@),
{
    !(text_eq(entry_name, ".git") || text_eq(entry_name, ".gitignore") || text_eq(entry_name, ".env")
        || text_eq(entry_name, ".vscode") || text_eq(entry_name, ".idea"))
}

/// The texts of the next steps after scaffolding, unnumbered.
pub open spec fn next_step_texts(project_name: Seq<char>, in_current_directory: bool, skip_install: bool) -> Seq<
    Seq<char>,
> {
    (if in_current_directory {
        Seq::empty()
    } else {
        seq!["cd "@ + project_name]
    }) + seq!["Copy .env.example to .env and fill in your keys"@] + (if skip_install {
        seq!["bun install"@]
    } else {
        Seq::empty()
    }) + seq!["bun dev"@]
}

/// A numbered step line.
pub open spec fn step_line(n: nat, text: Seq<char>) -> Seq<char> {
    "    "@ + decimal(n) + ". "@ + text
}

fn push_step(lines: &mut Vec<String>, text: &str)
    requires
        old(lines)@.len() < 10,
    ensures
        final(lines)@.len() == old(lines)@.len() + 1,
        forall|i: int| 0 <= i < old(lines)@.len() ==> final(lines)@[i] == old(lines)@[i],
        final(lines)@[old(lines)@.len() as int]@ == step_line((old(lines)@.len() + 1) as nat, text@),
{
    let mut line = "    ".to_owned();
    let n = lines.len() + 1;
    line.append(crate::screens::decimal_string((n as u16)).as_str());
    line.append(". ");
    line.append(text);
    lines.push(line);
}

/// The numbered lines of next steps printed after scaffolding: change into
/// the project (unless it is the current directory), fill in the .env file,
/// install dependencies (when that was skipped), start the dev server.
pub fn next_steps(project_name: &str, in_current_directory: bool, skip_install: bool) -> (r: Vec<String>)
    ensures
        r@.len() == next_step_texts(project_name@, in_current_directory, skip_install).len(),
        forall|i: int|
            0 <= i < r@.len() ==> #[trigger] r@[i]@ == step_line(
                (i + 1) as nat,
                next_step_texts(project_name@, in_current_directory, skip_install)[i],
            ),
{
    let mut lines: Vec<String> = Vec::new();
    if !in_current_directory {
        let mut cd = "cd ".to_owned();
        cd.append(project_name);
        push_step(&mut lines, cd.as_str());
    }
    push_step(&mut lines, "Copy .env.example to .env and fill in your keys");
    if skip_install {
        push_step(&mut lines, "bun install");
    }
    push_step(&mut lines, "bun dev");
    lines
}

/// What `update` does with the cached copy of the latest release.
#[derive(Clone, Copy, Debug, PartialEq, Eq, Structural)]
pub enum UpdatePlan {
    /// The cache is current: nothing to do.
    UpToDate,
    /// Remove the cached copy, then download it again.
    Redownload,
    /// Download the release.
    Download,
}

/// The update plan: a cached latest release is kept unless `force`, in which
/// case it is downloaded again; without a cached copy it is downloaded.
pub fn plan_update(cache_exists: bool, force: bool) -> (r: UpdatePlan)
    ensures
        cache_exists && !force ==> r == UpdatePlan::UpToDate,
        cache_exists && force ==> r == UpdatePlan::Redownload,
        !cache_exists ==> r == UpdatePlan::Download,
{
    if cache_exists && !force {
        UpdatePlan::UpToDate
    } else if cache_exists && force {
        UpdatePlan::Redownload
    } else {
        UpdatePlan::Download
    }
}

} // verus!
