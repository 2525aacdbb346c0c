use plinks::project_root::{find_git_root, resolve_config_path, ConfigLocation, CONFIG_FILE_NAME};

// The ancestors of the working directory, nearest first; each flag says whether that
// directory holds the configuration file or a `.git` entry.

#[test]
fn current_directory_config_wins() {
    // temp (with .git and the file), /tmp, /
    let resolved = resolve_config_path(&vec![true, false, false], &vec![true, false, false]);
    assert_eq!(resolved, ConfigLocation { project_dir: 0, git_root: Some(0) });
    assert_eq!(CONFIG_FILE_NAME, "project-links.toml");
}

#[test]
fn ancestor_config_is_found() {
    // c, b, a, repo (with .git and the file), temp, /tmp, /
    let has_config = vec![false, false, false, true, false, false, false];
    let has_git = vec![false, false, false, true, false, false, false];
    let resolved = resolve_config_path(&has_config, &has_git);
    assert_eq!(resolved.project_dir, 3);
}

#[test]
fn git_root_fallback_is_used_when_no_file_exists() {
    // nested, repo (with .git), temp, /tmp, /
    let has_config = vec![false; 5];
    let has_git = vec![false, true, false, false, false];
    let resolved = resolve_config_path(&has_config, &has_git);
    assert_eq!(resolved.project_dir, 1);
    assert_eq!(resolved.git_root, Some(1));
}

#[test]
fn no_git_root_falls_back_to_cwd() {
    // plain, temp, /tmp, /
    let resolved = resolve_config_path(&vec![false; 4], &vec![false; 4]);
    assert_eq!(resolved.project_dir, 0);
}

// ---------------------------------------------------------------------------

#[test]
fn search_stops_at_the_git_root() {
    // cwd, repo (with .git), above (with a file)
    let resolved = resolve_config_path(&vec![false, false, true], &vec![false, true, false]);
    assert_eq!(resolved, ConfigLocation { project_dir: 1, git_root: Some(1) });
}

#[test]
fn working_directory_at_git_root_searches_no_ancestor() {
    // cwd (with .git), parent (with a file), above (with a file)
    let resolved = resolve_config_path(&vec![false, true, true], &vec![true, false, false]);
    assert_eq!(resolved, ConfigLocation { project_dir: 0, git_root: Some(0) });
    assert_eq!(find_git_root(&vec![false, true, true]), Some(1));
    assert_eq!(find_git_root(&vec![false, false]), None);
}
