use plinks::config::{CandidateLink, Config};
use plinks::lookup::{build_alias_index, links_for_tag, resolve_alias};

fn config_with(links: &[(&str, &[&str], &[&str])]) -> Config {
    let mut config = Config::default();
    for (primary, aliases, tags) in links {
        config
            .save_link(
                None,
                CandidateLink::new(
                    primary.to_string(),
                    format!("https://{primary}.example"),
                    aliases.iter().map(|a| a.to_string()).collect(),
                    tags.iter().map(|t| t.to_string()).collect(),
                    None,
                )
                .unwrap(),
            )
            .unwrap();
    }
    config
}

#[test]
fn resolves_primary_alias() {
    let mut config = Config::default();
    config
        .save_link(
            None,
            CandidateLink::new("docs".into(), "https://docs.rs".into(), vec![], vec![], None)
                .unwrap(),
        )
        .unwrap();

    let resolved = resolve_alias(&config, "docs").unwrap().unwrap();
    assert_eq!(resolved.primary, "docs");
}

#[test]
fn resolves_extra_alias() {
    let mut config = Config::default();
    config
        .save_link(
            None,
            CandidateLink::new(
                "docs".into(),
                "https://docs.rs".into(),
                vec!["rust".into()],
                vec![],
                None,
            )
            .unwrap(),
        )
        .unwrap();

    let resolved = resolve_alias(&config, "rust").unwrap().unwrap();
    assert_eq!(resolved.primary, "docs");
}

#[test]
fn exact_matching_only() {
    let mut config = Config::default();
    config
        .save_link(
            None,
            CandidateLink::new("docs".into(), "https://docs.rs".into(), vec![], vec![], None)
                .unwrap(),
        )
        .unwrap();

    assert!(resolve_alias(&config, "doc").unwrap().is_none());
}

#[test]
fn tag_filter_returns_sorted_results() {
    let mut config = Config::default();
    config
        .save_link(
            None,
            CandidateLink::new(
                "b".into(),
                "https://b.example".into(),
                vec![],
                vec!["shared".into()],
                None,
            )
            .unwrap(),
        )
        .unwrap();
    config
        .save_link(
            None,
            CandidateLink::new(
                "a".into(),
                "https://a.example".into(),
                vec![],
                vec!["shared".into()],
                None,
            )
            .unwrap(),
        )
        .unwrap();

    let primaries = links_for_tag(&config, "shared")
        .into_iter()
        .map(|link| link.primary.to_string())
        .collect::<Vec<_>>();
    assert_eq!(primaries, vec!["a", "b"]);
}

// ---------------------------------------------------------------------------

#[test]
fn every_name_of_every_link_resolves_to_it() {
    let config = config_with(&[("docs", &["api", "rust"], &[]), ("jira", &["tickets"], &[])]);
    for (name, primary) in [("docs", "docs"), ("api", "docs"), ("rust", "docs"), ("jira", "jira"), ("tickets", "jira")] {
        let link = resolve_alias(&config, name).unwrap().unwrap();
        assert_eq!(link.primary, primary);
        assert_eq!(link.entry.url, format!("https://{primary}.example"));
    }
    assert!(resolve_alias(&config, "Docs").unwrap().is_none());
}

#[test]
fn alias_index_maps_each_name_to_its_owner() {
    let config = config_with(&[("docs", &["api"], &[]), ("b", &[], &[])]);
    let index = build_alias_index(&config).unwrap();
    assert_eq!(index.len(), 3);
    assert_eq!(index.get("api").unwrap(), "docs");
    assert_eq!(index.get("docs").unwrap(), "docs");
    assert_eq!(index.get("b").unwrap(), "b");
    assert_eq!(index.key_at(0), "api");
}

#[test]
fn tag_filter_skips_untagged_links() {
    let config = config_with(&[("a", &[], &["x"]), ("b", &[], &["y"]), ("c", &[], &["x", "y"])]);
    let primaries: Vec<&str> = links_for_tag(&config, "y").iter().map(|l| l.primary).collect();
    assert_eq!(primaries, vec!["b", "c"]);
    assert!(links_for_tag(&config, "z").is_empty());
}

#[test]
fn alias_index_has_one_entry_per_name() {
    let config = config_with(&[("docs", &["api", "rust"], &[]), ("jira", &[], &["ops"])]);
    assert!(config.validate_namespace().is_ok());
    let index = build_alias_index(&config).unwrap();
    assert_eq!(index.len(), 4);
    for (name, owner) in [("api", "docs"), ("docs", "docs"), ("jira", "jira"), ("rust", "docs")] {
        assert_eq!(index.get(name).unwrap(), owner);
    }
    assert!(index.get("ops").is_none());
}
