use plinks::cli::{AddArgs, Cli, Command, ListArgs, OpenArgs, RemoveArgs};
use plinks::config::{Config, LinkEntry};
use plinks::error::Error;
use plinks::project_root::resolve_config_path;
use plinks::str_map::StrMap;
use plinks::text::byte_len;
use plinks::{render_table, run, Outcome};

const PATH: &str = "/work/project-links.toml";

/// A project directory held in memory: the configuration file, if written, and the URLs
/// opened so far.
struct Project {
    file: Option<String>,
    opened: Vec<String>,
}

impl Project {
    fn new() -> Self {
        Project {
            file: None,
            opened: Vec::new(),
        }
    }

    fn config(&self) -> Option<Config> {
        self.file.as_deref().map(parse_config)
    }

    /// Runs a command line against the project as the program does, and returns what it
    /// prints.
    fn run(&mut self, command: Option<Command>) -> Result<String, Error> {
        let cli = Cli {
            version_flag: None,
            command,
        };
        match run(cli, self.config(), PATH)? {
            Outcome::Open(urls) => {
                self.opened.extend(urls);
                Ok(String::new())
            }
            Outcome::Print(text) => Ok(text),
            Outcome::Write { text, message } => {
                self.file = Some(text);
                Ok(message)
            }
            Outcome::Manage => Ok(String::new()),
        }
    }
}

/// Reads a configuration file as the program does.
fn parse_config(text: &str) -> Config {
    let table: toml::Table = text.parse().unwrap();
    let version = table
        .get("version")
        .map(|v| v.as_integer().unwrap() as u32)
        .unwrap_or(1);
    let mut links = StrMap::new();
    if let Some(toml::Value::Table(entries)) = table.get("links") {
        for (primary, value) in entries {
            let entry = value.as_table().unwrap();
            let list = |key: &str| -> Vec<String> {
                entry
                    .get(key)
                    .map(|v| {
                        v.as_array()
                            .unwrap()
                            .iter()
                            .map(|s| s.as_str().unwrap().to_string())
                            .collect()
                    })
                    .unwrap_or_default()
            };
            links.insert(
                primary.clone(),
                LinkEntry {
                    url: entry["url"].as_str().unwrap().to_string(),
                    aliases: list("aliases"),
                    tags: list("tags"),
                    note: entry.get("note").map(|n| n.as_str().unwrap().to_string()),
                },
            );
        }
    }
    Config { version, links }.validate_and_normalize().unwrap()
}

fn strings(items: &[&str]) -> Vec<String> {
    items.iter().map(|s| s.to_string()).collect()
}

fn add(primary: &str, url: &str, aliases: &[&str], tags: &[&str]) -> Option<Command> {
    Some(Command::Add(AddArgs {
        primary: primary.into(),
        url: url.into(),
        aliases: strings(aliases),
        tags: strings(tags),
        note: None,
        force: false,
    }))
}

fn open_name(name: &str) -> Option<Command> {
    Some(Command::Open(OpenArgs {
        name: Some(name.into()),
        tag: None,
    }))
}

fn remove(primary: &str) -> Option<Command> {
    Some(Command::Remove(RemoveArgs {
        primary: primary.into(),
    }))
}

#[test]
fn add_creates_file_when_absent() {
    let mut project = Project::new();
    project.run(add("docs", "https://docs.rs", &[], &[])).unwrap();
    assert!(project.file.is_some());
}

#[test]
fn add_stores_aliases_tags_and_note() {
    let mut project = Project::new();
    project
        .run(Some(Command::Add(AddArgs {
            primary: "docs".into(),
            url: "https://docs.rs".into(),
            aliases: strings(&["api", "rust"]),
            tags: strings(&["docs", "rust"]),
            note: Some("Reference".into()),
            force: false,
        })))
        .unwrap();

    let config = project.config().unwrap();
    let entry = config.links.get("docs").unwrap();
    assert_eq!(entry.aliases, vec!["api", "rust"]);
    assert_eq!(entry.tags, vec!["docs", "rust"]);
    assert_eq!(entry.note.as_deref(), Some("Reference"));
}

#[test]
fn add_rejects_collisions() {
    let mut project = Project::new();
    project
        .run(add("docs", "https://docs.rs", &["api"], &[]))
        .unwrap();
    let err = project
        .run(add("db", "https://db.example", &["api"], &[]))
        .unwrap_err();

    assert!(err.message().contains("alias 'api'"));
}

#[test]
fn add_force_replaces_same_primary_entry() {
    let mut project = Project::new();
    project
        .run(add("docs", "https://docs.rs", &["api"], &[]))
        .unwrap();
    project
        .run(Some(Command::Add(AddArgs {
            primary: "docs".into(),
            url: "https://example.com/new".into(),
            aliases: strings(&["guide"]),
            tags: vec![],
            note: None,
            force: true,
        })))
        .unwrap();

    let config = project.config().unwrap();
    let entry = config.links.get("docs").unwrap();
    assert_eq!(entry.url, "https://example.com/new");
    assert_eq!(entry.aliases, vec!["guide"]);
}

#[test]
fn open_resolves_primary_and_alias() {
    let mut project = Project::new();
    project
        .run(add("docs", "https://docs.rs", &["api"], &[]))
        .unwrap();
    project.run(open_name("docs")).unwrap();
    project.run(open_name("api")).unwrap();

    assert_eq!(
        project.opened,
        vec!["https://docs.rs".to_string(), "https://docs.rs".to_string()]
    );
}

#[test]
fn open_tag_selects_all_matches_in_sorted_order() {
    let mut project = Project::new();
    project
        .run(add("b", "https://b.example", &[], &["shared"]))
        .unwrap();
    project
        .run(add("a", "https://a.example", &[], &["shared"]))
        .unwrap();

    project
        .run(Some(Command::Open(OpenArgs {
            name: None,
            tag: Some("shared".into()),
        })))
        .unwrap();
    assert_eq!(
        project.opened,
        vec![
            "https://a.example".to_string(),
            "https://b.example".to_string()
        ]
    );
}

#[test]
fn list_filters_and_displays_rows() {
    let mut project = Project::new();
    project
        .run(add("docs", "https://docs.rs", &["api"], &["rust"]))
        .unwrap();
    project
        .run(add("jira", "https://jira.example", &[], &["ops"]))
        .unwrap();

    let output = project
        .run(Some(Command::List(ListArgs {
            tag: Some("rust".into()),
        })))
        .unwrap();
    assert!(output.contains("PRIMARY"));
    assert!(output.contains("docs"));
    assert!(output.contains("api"));
    assert!(!output.contains("jira"));
}

#[test]
fn remove_deletes_by_primary_only() {
    let mut project = Project::new();
    project
        .run(add("docs", "https://docs.rs", &["api"], &[]))
        .unwrap();
    project.run(remove("docs")).unwrap();

    let config = project.config().unwrap();
    assert!(config.links.is_empty());
}

#[test]
fn remove_does_not_accept_extra_alias() {
    let mut project = Project::new();
    project
        .run(add("docs", "https://docs.rs", &["api"], &[]))
        .unwrap();
    let err = project.run(remove("api")).unwrap_err();
    assert!(err.message().contains("does not exist"));
}

#[test]
fn git_root_resolution_is_used_from_nested_directory() {
    // ancestors of `repo/nested/work`: work, nested, repo, and the directory above
    let location = resolve_config_path(
        &vec![false, false, false, false],
        &vec![false, false, true, false],
    );
    assert_eq!(location.project_dir, 2);
    assert_eq!(location.git_root, Some(2));
}

#[test]
fn no_args_defaults_to_manage_command() {
    let cli = Cli {
        version_flag: None,
        command: None,
    };
    assert!(cli.command.is_none());
    assert!(matches!(run(cli, None, PATH).unwrap(), Outcome::Manage));
}

#[test]
fn add_without_force_refuses_existing_primary() {
    let mut project = Project::new();
    project.run(add("docs", "https://docs.rs", &[], &[])).unwrap();
    let err = project
        .run(add("Docs", "https://other.example", &[], &[]))
        .unwrap_err();
    assert_eq!(
        err,
        Error::PrimaryExistsUseForce {
            primary: "docs".into()
        }
    );
    assert_eq!(
        err.message(),
        "primary alias 'docs' already exists; pass --force to replace it"
    );
}

#[test]
fn add_reports_where_it_saved() {
    let mut project = Project::new();
    let message = project.run(add("docs", "https://docs.rs", &[], &[])).unwrap();
    assert_eq!(message, format!("Saved link 'docs' to {PATH}.\n"));
    assert_eq!(
        project.file.as_deref(),
        Some("version = 1\n\n[links]\n\n[links.docs]\nurl = \"https://docs.rs\"\n")
    );
    let message = project.run(remove("docs")).unwrap();
    assert_eq!(message, "Removed link 'docs'.\n");
}

#[test]
fn commands_without_file_report_missing_config() {
    let mut project = Project::new();
    let err = project.run(open_name("docs")).unwrap_err();
    assert_eq!(err, Error::NoConfigFile { path: PATH.into() });
    let err = project.run(remove("docs")).unwrap_err();
    assert_eq!(err, Error::NoConfigFile { path: PATH.into() });
}

#[test]
fn open_reports_unknown_name_and_tag() {
    let mut project = Project::new();
    project.run(add("docs", "https://docs.rs", &[], &[])).unwrap();
    let err = project.run(open_name("jira")).unwrap_err();
    assert_eq!(
        err,
        Error::NoLinkForAlias {
            alias: "jira".into()
        }
    );
    let err = project
        .run(Some(Command::Open(OpenArgs {
            name: None,
            tag: Some("ops".into()),
        })))
        .unwrap_err();
    assert_eq!(err, Error::NoLinksForTag { tag: "ops".into() });
    let err = project
        .run(Some(Command::Open(OpenArgs {
            name: None,
            tag: None,
        })))
        .unwrap_err();
    assert_eq!(err, Error::MissingName);
}

#[test]
fn list_of_empty_project_says_so() {
    let mut project = Project::new();
    project.run(add("docs", "https://docs.rs", &[], &[])).unwrap();
    project.run(remove("docs")).unwrap();
    let output = project
        .run(Some(Command::List(ListArgs { tag: None })))
        .unwrap();
    assert_eq!(output, "No links stored in project-links.toml.\n");
    let output = project
        .run(Some(Command::List(ListArgs {
            tag: Some("rust".into()),
        })))
        .unwrap();
    assert_eq!(output, "No links found for tag 'rust'.\n");
}

#[test]
fn render_table_pads_columns() {
    let headers = strings(&["A", "BB"]);
    let rows = vec![strings(&["xyz", "1"]), strings(&["", "22"])];
    assert_eq!(
        render_table(&headers, &rows),
        "A   | BB\n----+---\nxyz | 1 \n    | 22\n"
    );
}

#[test]
fn byte_len_counts_utf8_bytes() {
    for s in ["", "abc", "é", "日本", "🦀x"] {
        assert_eq!(byte_len(s), s.len() as u128);
    }
}

#[test]
fn removed_link_is_no_longer_found() {
    let mut project = Project::new();
    project
        .run(add("docs", "https://docs.rs", &["api"], &[]))
        .unwrap();
    project
        .run(add("jira", "https://jira.example", &[], &[]))
        .unwrap();
    project.run(remove("docs")).unwrap();
    let err = project.run(open_name("docs")).unwrap_err();
    assert_eq!(
        err,
        Error::NoLinkForAlias {
            alias: "docs".into()
        }
    );
    let err = project.run(open_name("api")).unwrap_err();
    assert_eq!(err, Error::NoLinkForAlias { alias: "api".into() });
    project.run(open_name("jira")).unwrap();
    assert_eq!(project.opened, vec!["https://jira.example".to_string()]);
}

#[test]
fn added_link_opens_under_normalized_names() {
    let mut project = Project::new();
    project
        .run(add(" Docs ", " https://docs.rs ", &["API", "Rust"], &[]))
        .unwrap();
    project.run(open_name("DOCS")).unwrap();
    project.run(open_name("api")).unwrap();
    project.run(open_name(" rust")).unwrap();
    assert_eq!(project.opened, vec!["https://docs.rs".to_string(); 3]);
}
