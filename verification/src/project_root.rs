//! Where the configuration file of a project is: in the working directory, in an ancestor
//! up to the Git root, or else at the Git root (or the working directory outside Git).
//!
//! Directories are given as the ancestors of the working directory, nearest first
//! (index 0 is the working directory itself), each with what it holds.
use vstd::prelude::*;

verus! {

/// The name of the configuration file.
pub const CONFIG_FILE_NAME: &'static str = "project-links.toml";

/// The first ancestor that holds a `.git` entry.
pub open spec fn spec_git_root(has_git: Seq<bool>) -> Option<int> {
    first_true(has_git, 0)
}

/// The first index from `i` on where `s` holds.
pub open spec fn first_true(s: Seq<bool>, i: int) -> Option<int>
    decreases s.len() - i,
{
    if i < 0 || i >= s.len() {
        None
    } else if s[i] {
        Some(i)
    } else {
        first_true(s, i + 1)
    }
}

/// The first index in `from..=to` where `s` holds.
pub open spec fn first_true_upto(s: Seq<bool>, from: int, to: int) -> Option<int>
    decreases s.len() - from,
{
    if from < 0 || from >= s.len() || from > to {
        None
    } else if s[from] {
        Some(from)
    } else {
        first_true_upto(s, from + 1, to)
    }
}

/// The directory of the configuration and the Git root, as ancestor indices.
#[derive(Debug, Clone, Copy, PartialEq, Eq, Structural)]
pub struct ConfigLocation {
    pub project_dir: usize,
    pub git_root: Option<usize>,
}

pub open spec fn opt_int(o: Option<usize>) -> Option<int> {
    match o {
        Some(i) => Some(i as int),
        None => None,
    }
}

/// Where the configuration file is: the working directory when it holds the file; else,
/// inside Git, the nearest ancestor above it that holds the file, searching no higher than
/// the Git root (so nothing above a working directory that is itself the Git root), or else
/// the Git root; outside Git, the working directory.
pub open spec fn spec_resolve_config_path(has_config: Seq<bool>, has_git: Seq<bool>) -> (int, Option<int>) {
    let git = spec_git_root(has_git);
    if has_config[0] {
        (0, git)
    } else {
        match git {
            Some(root) => match first_true_upto(has_config, 1, root) {
                Some(a) => (a, git),
                None => (root, git),
            },
            None => (0, None),
        }
    }
}

/// The first ancestor that holds a `.git` entry.
pub fn find_git_root(has_git: &Vec<bool>) -> (r: Option<usize>)
    ensures
        opt_int(r) == spec_git_root(has_git@),
        r matches Some(i) ==> i < has_git@.len(),
{
    let mut i: usize = 0;
    while i < has_git.len()
        invariant
            i <= has_git@.len(),
            first_true(has_git@, 0) == first_true(has_git@, i as int),
        decreases has_git.len() - i,
    {
        if has_git[i] {
            return Some(i);
        }
        i = i + 1;
    }
    None
}

/// Where the configuration file is: the working directory when it holds the file;
/// else, inside Git, the nearest ancestor that holds it up to the Git root, or the Git root;
/// outside Git, the working directory.
pub fn resolve_config_path(has_config: &Vec<bool>, has_git: &Vec<bool>) -> (r: ConfigLocation)
    requires
        has_config@.len() >= 1,
        has_git@.len() == has_config@.len(),
    ensures
        (r.project_dir as int, opt_int(r.git_root)) == spec_resolve_config_path(has_config@, has_git@),
{
    if has_config[0] {
        return ConfigLocation { project_dir: 0, git_root: find_git_root(has_git) };
    }
    let git_root = find_git_root(has_git);
    match git_root {
        Some(root) => {
            let mut a: usize = 1;
            #[verifier::loop_isolation(false)]
            while a < has_config.len() && a <= root
                invariant
                    1 <= a,
                    root < has_config@.len(),
                    first_true_upto(has_config@, 1, root as int) == first_true_upto(
                        has_config@,
                        a as int,
                        root as int,
                    ),
                decreases has_config.len() - a,
            {
                if has_config[a] {
                    assert(first_true_upto(has_config@, a as int, root as int) == Some(a as int));
                    return ConfigLocation { project_dir: a, git_root };
                }
                a = a + 1;
            }
            ConfigLocation { project_dir: root, git_root }
        },
        None => ConfigLocation { project_dir: 0, git_root: None },
    }
}

} // verus!
