use plinks::config::{
    config_text, normalize_alias, normalize_primary, normalize_tag, CandidateLink, Config,
    LinkEntry,
};
use plinks::error::{Error, NameKind};
use plinks::foreign::{UrlError, UrlErrorKind};
use plinks::str_map::StrMap;

/// Builds a configuration from TOML text the way the program reads the file: every table under
/// `links` becomes a raw entry under its key, then the whole is checked and normalized.
fn config_from_toml(text: &str) -> Result<Config, Error> {
    let table: toml::Table = text.parse().unwrap();
    let version = table
        .get("version")
        .map(|v| v.as_integer().unwrap() as u32)
        .unwrap_or(1);
    let mut links = StrMap::new();
    if let Some(toml::Value::Table(entries)) = table.get("links") {
        for (primary, value) in entries {
            let entry = value.as_table().unwrap();
            let list = |key: &str| -> Vec<String> {
                entry
                    .get(key)
                    .map(|v| {
                        v.as_array()
                            .unwrap()
                            .iter()
                            .map(|s| s.as_str().unwrap().to_string())
                            .collect()
                    })
                    .unwrap_or_default()
            };
            links.insert(
                primary.clone(),
                LinkEntry {
                    url: entry["url"].as_str().unwrap().to_string(),
                    aliases: list("aliases"),
                    tags: list("tags"),
                    note: entry.get("note").map(|n| n.as_str().unwrap().to_string()),
                },
            );
        }
    }
    Config { version, links }.validate_and_normalize()
}

fn entry(url: &str, aliases: &[&str]) -> LinkEntry {
    LinkEntry {
        url: url.into(),
        aliases: aliases.iter().map(|a| a.to_string()).collect(),
        tags: vec![],
        note: None,
    }
}

#[test]
fn parse_minimal_config() {
    let parsed = config_from_toml(
        r#"
            version = 1

            [links.docs]
            url = "https://docs.rs"
            "#,
    )
    .unwrap();

    assert_eq!(parsed.links.get("docs").unwrap().url, "https://docs.rs");
    assert!(parsed.links.get("docs").unwrap().aliases.is_empty());
}

#[test]
fn parse_full_config() {
    let parsed = config_from_toml(
        r#"
            version = 1

            [links.db]
            url = "postgres://localhost:5432/app"
            aliases = ["database", "postgres"]
            tags = ["backend", "local"]
            note = "Local development database"
            "#,
    )
    .unwrap();

    let entry = parsed.links.get("db").unwrap();
    assert_eq!(entry.aliases, vec!["database", "postgres"]);
    assert_eq!(entry.tags, vec!["backend", "local"]);
    assert_eq!(entry.note.as_deref(), Some("Local development database"));
}

#[test]
fn canonical_write_sorts_links_aliases_and_tags() {
    let mut config = Config::default();
    config
        .save_link(
            None,
            CandidateLink::new(
                "b".into(),
                "https://b.example".into(),
                vec!["z".into(), "alt".into()],
                vec!["two".into(), "one".into()],
                Some(" note ".into()),
            )
            .unwrap(),
        )
        .unwrap();
    config
        .save_link(
            None,
            CandidateLink::new("a".into(), "https://a.example".into(), vec![], vec![], None)
                .unwrap(),
        )
        .unwrap();

    let text = config.canonical_toml();
    let expected = r#"version = 1

[links]

[links.a]
url = "https://a.example"

[links.b]
url = "https://b.example"
aliases = ["alt", "z"]
tags = ["one", "two"]
note = "note"
"#;
    assert_eq!(text, expected);
}

#[test]
fn duplicate_aliases_across_entries_are_rejected() {
    let mut links = StrMap::new();
    links.insert("one".into(), entry("https://one.example", &["shared"]));
    links.insert("two".into(), entry("https://two.example", &["shared"]));
    let config = Config { version: 1, links };

    assert!(config.validate_and_normalize().is_err());
}

#[test]
fn extra_alias_matching_primary_is_rejected() {
    let mut links = StrMap::new();
    links.insert("db".into(), entry("https://example.com", &["db"]));
    let config = Config { version: 1, links };

    assert!(config.validate_and_normalize().is_err());
}

#[test]
fn duplicate_primaries_after_normalization_are_rejected() {
    let mut links = StrMap::new();
    links.insert("Docs".into(), entry("https://docs.rs", &[]));
    links.insert("docs".into(), entry("https://example.com", &[]));
    let config = Config { version: 1, links };

    assert!(config.validate_and_normalize().is_err());
}

#[test]
fn invalid_alias_and_tag_are_rejected() {
    assert!(normalize_alias("Bad Alias").is_err());
    assert!(normalize_tag("*bad").is_err());
}

#[test]
fn whitespace_note_becomes_none() {
    let candidate = CandidateLink::new(
        "docs".into(),
        "https://docs.rs".into(),
        vec![],
        vec![],
        Some("   ".into()),
    )
    .unwrap();

    assert_eq!(candidate.entry.note, None);
}

#[test]
fn invalid_url_is_rejected() {
    assert!(CandidateLink::new("docs".into(), "not a url".into(), vec![], vec![], None).is_err());
}

#[test]
fn custom_scheme_url_is_accepted() {
    let candidate = CandidateLink::new(
        "editor".into(),
        "vscode://file/tmp/test".into(),
        vec![],
        vec![],
        None,
    )
    .unwrap();

    assert_eq!(candidate.entry.url, "vscode://file/tmp/test");
}

// ---------------------------------------------------------------------------

#[test]
fn names_are_trimmed_and_lowercased() {
    assert_eq!(normalize_primary("  Docs-API_2 ").unwrap(), "docs-api_2");
    assert_eq!(normalize_alias("\tRUST\n").unwrap(), "rust");
}

#[test]
fn name_errors_name_the_first_problem() {
    let e = normalize_primary("   ").unwrap_err();
    assert_eq!(e, Error::EmptyName { kind: NameKind::Primary });
    assert_eq!(e.message(), "primary alias cannot be empty");

    let e = normalize_tag("-x").unwrap_err();
    assert_eq!(e.message(), "tag '-x' must start with a letter or number");

    let e = normalize_alias("Bad Alias").unwrap_err();
    assert_eq!(e.message(), "alias 'bad alias' contains invalid character ' '");
}

#[test]
fn normalizing_a_name_twice_changes_nothing() {
    for raw in ["  Docs ", "A_b-C", "x"] {
        let once = normalize_primary(raw).unwrap();
        assert_eq!(normalize_primary(&once).unwrap(), once);
    }
}

#[test]
fn duplicate_alias_in_one_link_is_rejected_smallest_first() {
    let err = CandidateLink::new(
        "docs".into(),
        "https://docs.rs".into(),
        vec!["zz".into(), "b".into(), "ZZ".into(), "B".into()],
        vec![],
        None,
    )
    .unwrap_err();
    assert_eq!(err.message(), "duplicate alias 'b'");
}

#[test]
fn primary_among_aliases_is_rejected() {
    let err = CandidateLink::new(
        "docs".into(),
        "https://docs.rs".into(),
        vec!["Docs".into()],
        vec![],
        None,
    )
    .unwrap_err();
    assert_eq!(err.message(), "primary alias 'docs' cannot also appear in aliases");
}

#[test]
fn tags_are_sorted_and_deduplicated() {
    let c = CandidateLink::new(
        "docs".into(),
        "https://docs.rs".into(),
        vec![],
        vec!["rust".into(), "API".into(), "api".into()],
        None,
    )
    .unwrap();
    assert_eq!(c.entry.tags, vec!["api", "rust"]);
}

#[test]
fn url_is_trimmed_and_invalid_url_reported() {
    let c = CandidateLink::new("d".into(), "  https://x.example ".into(), vec![], vec![], None)
        .unwrap();
    assert_eq!(c.entry.url, "https://x.example");
    let err = CandidateLink::new("d".into(), " not a url ".into(), vec![], vec![], None)
        .unwrap_err();
    assert_eq!(err.message(), "invalid URL 'not a url'");
}

#[test]
fn unsupported_version_is_rejected() {
    let err = Config { version: 2, links: StrMap::new() }
        .validate_and_normalize()
        .unwrap_err();
    assert_eq!(err, Error::UnsupportedVersion { version: 2 });
    assert_eq!(err.message(), "unsupported config version 2; expected 1");
}

#[test]
fn namespace_collision_names_first_owner() {
    let mut links = StrMap::new();
    links.insert("one".into(), entry("https://one.example", &["shared"]));
    links.insert("two".into(), entry("https://two.example", &["shared"]));
    let err = Config { version: 1, links }.validate_namespace().unwrap_err();
    assert_eq!(err.message(), "alias 'shared' is already used by primary alias 'one'");
}

#[test]
fn duplicate_primary_message() {
    let mut links = StrMap::new();
    links.insert("Docs".into(), entry("https://docs.rs", &[]));
    links.insert("docs".into(), entry("https://example.com", &[]));
    let err = Config { version: 1, links }.validate_and_normalize().unwrap_err();
    assert_eq!(err.message(), "primary alias 'docs' is duplicated");
}

#[test]
fn save_link_refuses_existing_primary_and_keeps_config() {
    let mut config = Config::default();
    let c = CandidateLink::new("docs".into(), "https://docs.rs".into(), vec![], vec![], None)
        .unwrap();
    config.save_link(None, c.clone()).unwrap();
    let before = config.clone();
    let err = config.save_link(None, c).unwrap_err();
    assert_eq!(err.message(), "primary alias 'docs' already exists");
    assert_eq!(config, before);
}

#[test]
fn save_link_replaces_original_and_reports_missing_original() {
    let mut config = Config::default();
    let c = CandidateLink::new("docs".into(), "https://docs.rs".into(), vec!["api".into()], vec![], None)
        .unwrap();
    config.save_link(None, c).unwrap();
    let renamed = CandidateLink::new("guide".into(), "https://guide.example".into(), vec!["api".into()], vec![], None)
        .unwrap();
    config.save_link(Some("DOCS"), renamed).unwrap();
    assert!(config.links.get("docs").is_none());
    assert_eq!(config.links.get("guide").unwrap().aliases, vec!["api"]);

    let again = CandidateLink::new("x".into(), "https://x.example".into(), vec![], vec![], None)
        .unwrap();
    let err = config.save_link(Some("docs"), again).unwrap_err();
    assert_eq!(err.message(), "primary alias 'docs' does not exist");
}

#[test]
fn written_text_reads_back_to_the_same_config() {
    let mut config = Config::default();
    config
        .save_link(
            None,
            CandidateLink::new(
                "docs".into(),
                "https://docs.rs/\"quoted\"".into(),
                vec!["api".into()],
                vec!["rust".into()],
                Some("Tab\there".into()),
            )
            .unwrap(),
        )
        .unwrap();
    let text = config_text(&config).unwrap();
    let again = config_from_toml(&text).unwrap();
    assert_eq!(again, config.clone().validate_and_normalize().unwrap());
    let again_text = config_text(&again).unwrap();
    assert_eq!(again_text, text);
}

#[test]
fn default_entry_is_empty() {
    let e = LinkEntry::default();
    assert_eq!(e.url, "");
    assert!(e.aliases.is_empty() && e.tags.is_empty() && e.note.is_none());
    assert_eq!(plinks::config::default_version(), 1);
}

#[test]
fn parsed_url_is_kept_and_parse_error_is_reported() {
    let ok = plinks::normalize::check_parsed_url(
        "https://docs.rs".into(),
        Ok(url::Url::parse("https://docs.rs").unwrap()),
    );
    assert_eq!(ok, Ok("https://docs.rs".to_string()));
    let refusal = || UrlError {
        kind: UrlErrorKind::RelativeUrlWithoutBase,
        source: url::ParseError::RelativeUrlWithoutBase,
    };
    let err = plinks::normalize::check_parsed_url("not a url".into(), Err(refusal())).unwrap_err();
    assert_eq!(
        err,
        Error::InvalidUrl {
            url: "not a url".into(),
            cause: refusal()
        }
    );
    assert_eq!(err.message(), "invalid URL 'not a url'");
}

#[test]
fn section_text_frames_written_values() {
    assert_eq!(
        plinks::config::section_text("docs", "\"u\"", None, Some("[\"a\"]"), Some("'n'")),
        "\n[links.docs]\nurl = \"u\"\ntags = [\"a\"]\nnote = 'n'\n"
    );
    assert_eq!(
        plinks::config::section_text("x", "U", Some("A"), None, None),
        "\n[links.x]\nurl = U\naliases = A\n"
    );
}

/// The reason the URL parser gives for a refused URL.
fn refusal_of(url: &str) -> (UrlErrorKind, url::ParseError) {
    match CandidateLink::new("d".into(), url.into(), vec![], vec![], None).unwrap_err() {
        Error::InvalidUrl { cause, .. } => (cause.kind, cause.source),
        other => panic!("unexpected error {other:?}"),
    }
}

#[test]
fn refused_url_carries_the_parser_reason() {
    assert_eq!(
        refusal_of("not a url"),
        (UrlErrorKind::RelativeUrlWithoutBase, url::ParseError::RelativeUrlWithoutBase)
    );
    assert_eq!(
        refusal_of("http://"),
        (UrlErrorKind::EmptyHost, url::ParseError::EmptyHost)
    );
    assert_eq!(
        refusal_of("http://[::1"),
        (UrlErrorKind::InvalidIpv6Address, url::ParseError::InvalidIpv6Address)
    );
    assert_eq!(
        refusal_of("http://example.com:99999"),
        (UrlErrorKind::InvalidPort, url::ParseError::InvalidPort)
    );
}
