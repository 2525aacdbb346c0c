use plinks::config::{config_text, CandidateLink, Config, LinkEntry};
use plinks::error::Error;
use plinks::tui::editor::{EditorState, Field};
use plinks::tui::events::{handle_key, EventResult, KeyCode, KeyEvent, KeyEventKind, KeyModifiers};
use plinks::tui::state::{App, Mode, StatusKind};
use plinks::tui::view::{centered_margin, detail_values, footer_keys, status_line, table_rows};
use plinks::tui::{
    deleted_message, finish_copy, finish_open, load_or_default, next_action, persist_delete,
    persist_edit, reload_from_disk, LoadedSnapshot, LoopAction, Persist,
};

fn key(code: KeyCode) -> KeyEvent {
    KeyEvent::new(code, KeyModifiers::empty())
}

fn release_key(code: KeyCode) -> KeyEvent {
    KeyEvent::new_with_kind(code, KeyModifiers::empty(), KeyEventKind::Release)
}

fn link(primary: &str, url: &str, aliases: &[&str], tags: &[&str]) -> CandidateLink {
    CandidateLink::new(
        primary.into(),
        url.into(),
        aliases.iter().map(|a| a.to_string()).collect(),
        tags.iter().map(|t| t.to_string()).collect(),
        None,
    )
    .unwrap()
}

fn sample_app() -> App {
    let mut config = Config::default();
    config
        .save_link(None, link("docs", "https://docs.rs", &["api"], &["rust"]))
        .unwrap();
    App::new(config)
}

fn editor_of(app: &App) -> &EditorState {
    match &app.mode {
        Mode::Editor(editor) => editor,
        _ => panic!("expected editor mode"),
    }
}

#[test]
fn build_candidate_from_editor() {
    let editor = EditorState {
        original_primary: None,
        original_url: None,
        original_aliases: None,
        original_tags: None,
        original_note: None,
        primary: "Docs".into(),
        url: "https://docs.rs".into(),
        aliases: "Rust, api".into(),
        tags: "guide, rust".into(),
        note: " docs ".into(),
        active_field: Field::Primary,
        error: None,
    };

    let candidate = editor.build_candidate().unwrap();
    assert_eq!(candidate.primary, "docs");
    assert_eq!(candidate.entry.aliases, vec!["api", "rust"]);
    assert_eq!(candidate.entry.tags, vec!["guide", "rust"]);
    assert_eq!(candidate.entry.note.as_deref(), Some("docs"));
}

#[test]
fn dirty_tracking_only_flags_actual_changes() {
    let mut editor = EditorState::new();
    assert!(!editor.is_dirty());

    editor.primary = "docs".into();
    assert!(editor.is_dirty());

    let entry = LinkEntry {
        url: "https://docs.rs".into(),
        aliases: vec!["api".into()],
        tags: vec!["rust".into()],
        note: Some("Reference".into()),
    };
    let mut existing = EditorState::from_existing("docs", &entry);
    assert!(!existing.is_dirty());

    existing.note = "Changed".into();
    assert!(existing.is_dirty());
}

#[test]
fn ignores_release_events_in_filter_mode() {
    let mut app = sample_app();
    app.mode = Mode::Filter;

    assert_eq!(
        handle_key(&mut app, key(KeyCode::Char('a'))).unwrap(),
        EventResult::NoAction
    );
    assert_eq!(app.filter, "a");

    assert_eq!(
        handle_key(&mut app, release_key(KeyCode::Char('a'))).unwrap(),
        EventResult::NoAction
    );
    assert_eq!(app.filter, "a");
}

#[test]
fn ignores_release_events_in_editor_mode() {
    let mut app = sample_app();
    app.begin_new();

    assert_eq!(
        handle_key(&mut app, key(KeyCode::Char('a'))).unwrap(),
        EventResult::NoAction
    );
    assert_eq!(editor_of(&app).primary, "a");

    assert_eq!(
        handle_key(&mut app, release_key(KeyCode::Char('a'))).unwrap(),
        EventResult::NoAction
    );
    assert_eq!(editor_of(&app).primary, "a");
}

#[test]
fn ignores_release_events_for_tab_navigation() {
    let mut app = sample_app();
    app.begin_new();

    assert_eq!(
        handle_key(&mut app, key(KeyCode::Tab)).unwrap(),
        EventResult::NoAction
    );
    assert_eq!(editor_of(&app).active_field, Field::Url);

    assert_eq!(
        handle_key(&mut app, release_key(KeyCode::Tab)).unwrap(),
        EventResult::NoAction
    );
    assert_eq!(editor_of(&app).active_field, Field::Url);
}

#[test]
fn yanks_selected_link_in_normal_mode() {
    let mut app = sample_app();

    assert_eq!(
        handle_key(&mut app, key(KeyCode::Char('y'))).unwrap(),
        EventResult::YankSelected
    );
}

#[test]
fn save_conflict_reloads_on_disk_state() {
    let mut initial = Config::default();
    initial
        .save_link(None, link("docs", "https://docs.rs", &[], &[]))
        .unwrap();
    let initial_text = config_text(&initial).unwrap();

    let mut app = App::new(initial);
    let mut snapshot = Some(initial_text);

    let mut external = Config::default();
    external
        .save_link(None, link("jira", "https://jira.example", &[], &[]))
        .unwrap();
    let external_text = config_text(&external).unwrap();
    let on_disk = Some(external_text.clone());

    let plan = persist_edit(
        &app.config,
        &snapshot,
        &on_disk,
        None,
        link("db", "postgres://localhost:5432/app", &[], &[]),
    )
    .unwrap();
    assert!(matches!(plan, Persist::Conflict));

    let err = Error::ChangedOnDisk;
    reload_from_disk(
        &mut app,
        LoadedSnapshot {
            config: external,
            raw: Some(external_text.clone()),
        },
        &mut snapshot,
    );

    assert!(err.message().contains("changed on disk"));
    assert!(app.config.links.contains_key("jira"));
    assert_eq!(snapshot, Some(external_text));
    assert_eq!(on_disk, snapshot.clone());
}

#[test]
fn filter_narrows_visible_rows() {
    let mut config = Config::default();
    config
        .save_link(None, link("docs", "https://docs.rs", &["api"], &["rust"]))
        .unwrap();
    config
        .save_link(None, link("jira", "https://jira.example", &[], &["ops"]))
        .unwrap();

    let mut app = App::new(config);
    app.filter = "rust".into();
    assert_eq!(app.visible_primaries(), vec!["docs"]);
}

#[test]
fn create_edit_and_delete_states_transition() {
    let mut config = Config::default();
    config
        .save_link(None, link("docs", "https://docs.rs", &[], &[]))
        .unwrap();
    let mut app = App::new(config);

    app.begin_new();
    assert!(matches!(app.mode, Mode::Editor(_)));

    app.mode = Mode::Normal;
    app.begin_edit().unwrap();
    assert!(matches!(app.mode, Mode::Editor(_)));

    app.mode = Mode::Normal;
    app.begin_delete().unwrap();
    assert!(matches!(app.mode, Mode::DeleteConfirm));
}

#[test]
fn save_without_conflict_writes_canonical_text() {
    let app = sample_app();
    let text = config_text(&app.config).unwrap();
    let snapshot = Some(text.clone());
    let plan = persist_edit(
        &app.config,
        &snapshot,
        &snapshot,
        None,
        link("jira", "https://jira.example", &[], &["ops"]),
    )
    .unwrap();
    match plan {
        Persist::Write { config, text } => {
            assert!(config.links.contains_key("docs"));
            assert!(config.links.contains_key("jira"));
            assert_eq!(text, config_text(&config).unwrap());
        }
        Persist::Conflict => panic!("no conflict expected"),
    }
}

#[test]
fn save_refuses_alias_collision() {
    let app = sample_app();
    let snapshot: Option<String> = None;
    let err = persist_edit(
        &app.config,
        &snapshot,
        &snapshot,
        None,
        link("jira", "https://jira.example", &["api"], &[]),
    )
    .unwrap_err();
    assert_eq!(
        err,
        Error::AliasInUse {
            alias: "api".into(),
            owner: "docs".into()
        }
    );
}

#[test]
fn delete_removes_link_and_refuses_missing_one() {
    let app = sample_app();
    let snapshot: Option<String> = None;
    match persist_delete(&app.config, &snapshot, &snapshot, "docs").unwrap() {
        Persist::Write { config, text } => {
            assert!(config.links.is_empty());
            assert_eq!(text, "version = 1\n\n[links]\n");
        }
        Persist::Conflict => panic!("no conflict expected"),
    }
    let err = persist_delete(&app.config, &snapshot, &snapshot, "jira").unwrap_err();
    assert_eq!(
        err,
        Error::PrimaryGone {
            primary: "jira".into()
        }
    );
    let changed = Some("version = 1\n".to_string());
    assert!(matches!(
        persist_delete(&app.config, &snapshot, &changed, "docs").unwrap(),
        Persist::Conflict
    ));
}

#[test]
fn o_opens_and_y_copies_selected_url() {
    let mut app = sample_app();
    let result = handle_key(&mut app, key(KeyCode::Char('o'))).unwrap();
    assert_eq!(result, EventResult::OpenSelected);
    match next_action(&mut app, result) {
        LoopAction::Open { primary, url } => {
            assert_eq!(primary, "docs");
            assert_eq!(url, "https://docs.rs");
        }
        other => panic!("unexpected action {other:?}"),
    }
    match next_action(&mut app, EventResult::YankSelected) {
        LoopAction::Copy { primary, url } => {
            assert_eq!(primary, "docs");
            assert_eq!(url, "https://docs.rs");
        }
        other => panic!("unexpected action {other:?}"),
    }
    finish_copy(&mut app, "docs", None);
    assert_eq!(
        status_line(&app),
        (Some(StatusKind::Info), "Copied 'docs'".to_string())
    );
    finish_open(&mut app, "docs", Some("no browser".into()));
    assert_eq!(
        status_line(&app),
        (Some(StatusKind::Error), "no browser".to_string())
    );
}

#[test]
fn open_without_selection_reports_error() {
    let mut app = App::new(Config::default());
    assert!(matches!(
        next_action(&mut app, EventResult::OpenSelected),
        LoopAction::Continue
    ));
    assert_eq!(
        status_line(&app),
        (Some(StatusKind::Error), "No link selected".to_string())
    );
}

#[test]
fn q_quits_and_ctrl_s_saves_from_editor() {
    let mut app = sample_app();
    assert_eq!(
        handle_key(&mut app, key(KeyCode::Char('q'))).unwrap(),
        EventResult::Quit
    );
    app.begin_new();
    handle_key(&mut app, key(KeyCode::Char('x'))).unwrap();
    let ctrl_s = KeyEvent::new(KeyCode::Char('s'), KeyModifiers::control());
    match handle_key(&mut app, ctrl_s).unwrap() {
        EventResult::SaveEditor(editor) => assert_eq!(editor.primary, "x"),
        other => panic!("unexpected result {other:?}"),
    }
    assert!(matches!(
        handle_key(&mut app, key(KeyCode::Esc)).unwrap(),
        EventResult::NoAction
    ));
    assert!(matches!(app.mode, Mode::DiscardConfirm(_)));
}

#[test]
fn editor_backspace_and_field_cycle() {
    let mut editor = EditorState::new();
    editor.insert_char('a');
    editor.insert_char('b');
    editor.backspace();
    assert_eq!(editor.primary, "a");
    editor.previous_field();
    assert_eq!(editor.active_field, Field::Note);
    for _ in 0..5 {
        editor.next_field();
    }
    assert_eq!(editor.active_field, Field::Note);
}

#[test]
fn rows_and_details_of_selected_link() {
    let app = sample_app();
    assert_eq!(
        table_rows(&app),
        vec![vec![
            "docs".to_string(),
            "api".to_string(),
            "rust".to_string(),
            "https://docs.rs".to_string()
        ]]
    );
    let details = detail_values(&app).unwrap();
    assert_eq!(details[0], "docs");
    assert_eq!(details[1], "https://docs.rs");
    assert!(!footer_keys(&app.mode).is_empty());
}

#[test]
fn load_or_default_starts_empty() {
    let snapshot = load_or_default(None);
    assert!(snapshot.config.links.is_empty());
    assert_eq!(snapshot.config.version, 1);
    assert!(snapshot.raw.is_none());
}

#[test]
fn deleted_message_names_link() {
    assert_eq!(deleted_message("docs"), "Deleted 'docs'");
    assert_eq!(centered_margin(60), 20);
}
