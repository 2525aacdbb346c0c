//! The interactive view: its form, state, key handling and the decisions of its loop.
//!
//! The loop itself (terminal, disk, browser, clipboard) runs outside the library; each
//! decision it takes between two pieces of outside work is a function here.
pub mod editor;
pub mod events;
pub mod state;
pub mod view;

use vstd::prelude::*;

use crate::config::{
    canonical_text, config_text, spec_config_normalize, spec_save_link, CandidateLink, Config,
    ConfigView, LoadedConfig,
};
use crate::error::{message_of, Error, ErrorView};
use crate::normalize::opt_view;
use crate::str_map::{map_get, map_remove, Duplicate};
use crate::text::{push_str, str_eq};
use crate::tui::editor::{EditorState, EditorView};
use crate::tui::events::{EventResult, EventResultView};
use crate::tui::state::{
    selected_of, spec_ensure_selection, App, AppView, Mode, ModeView, StatusKind,
};

verus! {

/// A configuration as the view starts from it, with the text it was read from, if any.
#[derive(Debug, Clone)]
pub struct LoadedSnapshot {
    pub config: Config,
    pub raw: Option<String>,
}

/// The snapshot for what was found on disk: the configuration read, or an empty one.
pub fn load_or_default(loaded: Option<LoadedConfig>) -> (r: LoadedSnapshot)
    ensures
        match loaded {
            Some(l) => r.config@ == l.config@ && opt_view(r.raw) == Some(l.raw@),
            None => r.config@ == (ConfigView { version: 1, links: Seq::empty() }) && r.raw is None,
        },
{
    match loaded {
        Some(document) => LoadedSnapshot { config: document.config, raw: Some(document.raw) },
        None => LoadedSnapshot { config: Config::default(), raw: None },
    }
}

/// The text of the informative message after a reload.
pub open spec fn reloaded_text() -> Seq<char> {
    "Reloaded from disk"@
}

/// Takes in what was read from disk: new configuration, normal mode, a visible selection.
pub fn reload_from_disk(app: &mut App, loaded: LoadedSnapshot, snapshot: &mut Option<String>)
    ensures
        final(app)@ == (AppView {
            status: Some((StatusKind::Info, reloaded_text())),
            mode: ModeView::Normal,
            ..spec_ensure_selection(AppView { config: loaded.config@, ..old(app)@ })
        }),
        opt_view(*final(snapshot)) == opt_view(loaded.raw),
{
    app.config = loaded.config;
    app.ensure_selection();
    app.mode = Mode::Normal;
    app.set_info("Reloaded from disk".to_owned());
    *snapshot = loaded.raw;
}

/// What to do to persist a change.
#[derive(Debug)]
pub enum Persist {
    /// The file changed since it was read: reload it and report the conflict.
    Conflict,
    /// Write `text` and take `config` as the new state.
    Write { config: Config, text: String },
}

pub enum PersistView {
    Conflict,
    Write { config: ConfigView, text: Seq<char> },
}

impl View for Persist {
    type V = PersistView;

    open spec fn view(&self) -> PersistView {
        match self {
            Persist::Conflict => PersistView::Conflict,
            Persist::Write { config, text } => PersistView::Write { config: config@, text: text@ },
        }
    }
}

pub open spec fn res_persist(r: Result<Persist, Error>) -> Result<PersistView, ErrorView> {
    match r {
        Ok(p) => Ok(p@),
        Err(e) => Err(e@),
    }
}

/// What persisting `next` amounts to: its checked canonical text, or why it is refused.
pub open spec fn spec_write(next: ConfigView) -> Result<PersistView, ErrorView> {
    match spec_config_normalize(next) {
        Err(e) => Err(e),
        Ok(n) => Ok(PersistView::Write { config: next, text: canonical_text(n) }),
    }
}

/// How to save an edit, given the text read when the view last loaded or wrote the file
/// (`snapshot`) and the text on disk now (`current`).
pub open spec fn spec_plan_edit(
    config: ConfigView,
    snapshot: Option<Seq<char>>,
    current: Option<Seq<char>>,
    original: Option<Seq<char>>,
    cand: crate::config::CandidateView,
) -> Result<PersistView, ErrorView> {
    if current != snapshot {
        Ok(PersistView::Conflict)
    } else {
        match spec_save_link(config, original, cand) {
            Err(e) => Err(e),
            Ok(next) => spec_write(next),
        }
    }
}

/// How to delete the link `primary`.
pub open spec fn spec_plan_delete(
    config: ConfigView,
    snapshot: Option<Seq<char>>,
    current: Option<Seq<char>>,
    primary: Seq<char>,
) -> Result<PersistView, ErrorView> {
    if current != snapshot {
        Ok(PersistView::Conflict)
    } else if map_get(config.links, primary) is None {
        Err(ErrorView::PrimaryGone { primary })
    } else {
        spec_write(ConfigView { links: map_remove(config.links, primary), ..config })
    }
}

fn same_text(a: &Option<String>, b: &Option<String>) -> (r: bool)
    ensures
        r == (opt_view(*a) == opt_view(*b)),
{
    match (a, b) {
        (Some(x), Some(y)) => str_eq(x.as_str(), y.as_str()),
        (None, None) => true,
        _ => false,
    }
}

fn write_plan(next: Config) -> (r: Result<Persist, Error>)
    ensures
        res_persist(r) == spec_write(next@),
{
    let text = config_text(&next)?;
    Ok(Persist::Write { config: next, text })
}

/// Decides how to save an edit: report a conflict if the file changed on disk, else the
/// configuration with the candidate saved and the text to write for it.
pub fn persist_edit(
    config: &Config,
    snapshot: &Option<String>,
    current: &Option<String>,
    original_primary: Option<&str>,
    candidate: CandidateLink,
) -> (r: Result<Persist, Error>)
    ensures
        res_persist(r) == spec_plan_edit(
            config@,
            opt_view(*snapshot),
            opt_view(*current),
            match original_primary {
                Some(o) => Some(o@),
                None => None,
            },
            candidate@,
        ),
{
    if !same_text(current, snapshot) {
        return Ok(Persist::Conflict);
    }
    let mut next = config.duplicate();
    next.save_link(original_primary, candidate)?;
    write_plan(next)
}

/// Decides how to delete a link: report a conflict if the file changed on disk, else the
/// configuration without the link and the text to write for it.
pub fn persist_delete(
    config: &Config,
    snapshot: &Option<String>,
    current: &Option<String>,
    primary: &str,
) -> (r: Result<Persist, Error>)
    ensures
        res_persist(r) == spec_plan_delete(
            config@,
            opt_view(*snapshot),
            opt_view(*current),
            primary@,
        ),
{
    if !same_text(current, snapshot) {
        return Ok(Persist::Conflict);
    }
    let mut next = config.duplicate();
    match next.links.remove(primary) {
        Some(_) => {},
        None => return Err(Error::PrimaryGone { primary: primary.to_owned() }),
    }
    write_plan(next)
}

/// Takes a written configuration as the new state, with an informative message.
pub fn commit_written(app: &mut App, config: Config, text: String, info: String, snapshot: &mut Option<String>)
    ensures
        final(app)@ == (AppView {
            status: Some((StatusKind::Info, info@)),
            ..spec_ensure_selection(AppView { config: config@, ..old(app)@ })
        }),
        opt_view(*final(snapshot)) == Some(text@),
{
    app.config = config;
    app.ensure_selection();
    app.set_info(info);
    *snapshot = Some(text);
}

/// What the loop does after a key.
#[derive(Debug)]
pub enum LoopAction {
    /// Nothing outside the view.
    Continue,
    /// Leave the view.
    Quit,
    /// Read the file again.
    Reload,
    /// Open the link `primary` at `url`.
    Open { primary: String, url: String },
    /// Copy the URL of the link `primary`.
    Copy { primary: String, url: String },
    /// Save the form, replacing `original` if given.
    Save { original: Option<String>, candidate: CandidateLink },
    /// Delete the link `primary`.
    Delete { primary: String },
}

pub enum LoopActionView {
    Continue,
    Quit,
    Reload,
    Open { primary: Seq<char>, url: Seq<char> },
    Copy { primary: Seq<char>, url: Seq<char> },
    Save { original: Option<Seq<char>>, candidate: crate::config::CandidateView },
    Delete { primary: Seq<char> },
}

impl View for LoopAction {
    type V = LoopActionView;

    open spec fn view(&self) -> LoopActionView {
        match self {
            LoopAction::Continue => LoopActionView::Continue,
            LoopAction::Quit => LoopActionView::Quit,
            LoopAction::Reload => LoopActionView::Reload,
            LoopAction::Open { primary, url } => LoopActionView::Open { primary: primary@, url: url@ },
            LoopAction::Copy { primary, url } => LoopActionView::Copy { primary: primary@, url: url@ },
            LoopAction::Save { original, candidate } => LoopActionView::Save {
                original: opt_view(*original),
                candidate: candidate@,
            },
            LoopAction::Delete { primary } => LoopActionView::Delete { primary: primary@ },
        }
    }
}

/// The message shown when no link is selected for an action.
pub open spec fn no_selection_text() -> Seq<char> {
    "No link selected"@
}

/// The state with an error message in the status area.
pub open spec fn with_error(v: AppView, text: Seq<char>) -> AppView {
    AppView { status: Some((StatusKind::Error, text)), ..v }
}

/// The selected link's URL, for an action on it.
pub open spec fn spec_selected_link(v: AppView) -> Option<(Seq<char>, Seq<char>)> {
    match selected_of(v) {
        Some(p) => match map_get(v.config.links, p) {
            Some(e) => Some((p, e.url)),
            None => None,
        },
        None => None,
    }
}

/// The form with its error message set.
pub open spec fn editor_with_error(e: EditorView, text: Seq<char>) -> EditorView {
    EditorView { error: Some(text), ..e }
}

/// The state, and the next action, for what a key asked of the loop.
pub open spec fn spec_next_action(v: AppView, result: EventResultView) -> (AppView, LoopActionView) {
    match result {
        EventResultView::NoAction => (v, LoopActionView::Continue),
        EventResultView::Quit => (v, LoopActionView::Quit),
        EventResultView::Reload => (v, LoopActionView::Reload),
        EventResultView::OpenSelected => match selected_of(v) {
            None => (with_error(v, no_selection_text()), LoopActionView::Continue),
            Some(p) => match spec_selected_link(v) {
                Some((p2, url)) => (v, LoopActionView::Open { primary: p2, url }),
                None => (v, LoopActionView::Continue),
            },
        },
        EventResultView::YankSelected => match selected_of(v) {
            None => (with_error(v, no_selection_text()), LoopActionView::Continue),
            Some(p) => match spec_selected_link(v) {
                Some((p2, url)) => (v, LoopActionView::Copy { primary: p2, url }),
                None => (v, LoopActionView::Continue),
            },
        },
        EventResultView::SaveEditor(e) => match crate::config::spec_candidate(
            e.primary,
            e.url,
            crate::text::csv_items(e.aliases),
            crate::text::csv_items(e.tags),
            Some(e.note),
        ) {
            Ok(c) => (v, LoopActionView::Save { original: e.original_primary, candidate: c }),
            Err(x) => (
                match v.mode {
                    ModeView::Editor(cur) => AppView {
                        mode: ModeView::Editor(editor_with_error(cur, message_of(x))),
                        ..v
                    },
                    _ => v,
                },
                LoopActionView::Continue,
            ),
        },
        EventResultView::ConfirmDelete => match selected_of(v) {
            None => (with_error(v, no_selection_text()), LoopActionView::Continue),
            Some(p) => (v, LoopActionView::Delete { primary: p }),
        },
    }
}

fn set_editor_error(app: &mut App, text: String)
    ensures
        final(app)@ == match old(app)@.mode {
            ModeView::Editor(cur) => AppView {
                mode: ModeView::Editor(editor_with_error(cur, text@)),
                ..old(app)@
            },
            _ => old(app)@,
        },
{
    let editor = match &app.mode {
        Mode::Editor(state) => state.duplicate(),
        _ => return ,
    };
    let mut editor = editor;
    editor.error = Some(text);
    app.mode = Mode::Editor(editor);
}

fn selected_link(app: &App) -> (r: Option<(String, String)>)
    ensures
        match r {
            Some((p, u)) => spec_selected_link(app@) == Some((p@, u@)),
            None => spec_selected_link(app@) is None,
        },
{
    let primary = app.selected_primary()?;
    match app.config.links.get(primary.as_str()) {
        Some(entry) => Some((primary, entry.url.clone())),
        None => None,
    }
}

/// Decides what the loop does for what a key asked of it.
pub fn next_action(app: &mut App, result: EventResult) -> (r: LoopAction)
    ensures
        (final(app)@, r@) == spec_next_action(old(app)@, result@),
{
    match result {
        EventResult::NoAction => LoopAction::Continue,
        EventResult::Quit => LoopAction::Quit,
        EventResult::Reload => LoopAction::Reload,
        EventResult::OpenSelected => {
            if app.selected_primary().is_none() {
                app.set_error("No link selected".to_owned());
                return LoopAction::Continue;
            }
            match selected_link(app) {
                Some((primary, url)) => LoopAction::Open { primary, url },
                None => LoopAction::Continue,
            }
        },
        EventResult::YankSelected => {
            if app.selected_primary().is_none() {
                app.set_error("No link selected".to_owned());
                return LoopAction::Continue;
            }
            match selected_link(app) {
                Some((primary, url)) => LoopAction::Copy { primary, url },
                None => LoopAction::Continue,
            }
        },
        EventResult::SaveEditor(editor) => match editor.build_candidate() {
            Ok(candidate) => LoopAction::Save { original: editor.original_primary, candidate },
            Err(err) => {
                set_editor_error(app, err.message());
                LoopAction::Continue
            },
        },
        EventResult::ConfirmDelete => match app.selected_primary() {
            Some(primary) => LoopAction::Delete { primary },
            None => {
                app.set_error("No link selected".to_owned());
                LoopAction::Continue
            },
        },
    }
}

/// `'` + primary + `'` after a word.
pub open spec fn about_link(word: Seq<char>, primary: Seq<char>) -> Seq<char> {
    word + " '"@ + primary + "'"@
}

fn message_about(word: &str, primary: &str) -> (r: String)
    ensures
        r@ == about_link(word@, primary@),
{
    let mut s = String::new();
    push_str(&mut s, word);
    push_str(&mut s, " '");
    push_str(&mut s, primary);
    push_str(&mut s, "'");
    assert(s@ =~= about_link(word@, primary@));
    s
}

/// After opening a link: its name in an informative message, or why it failed.
pub fn finish_open(app: &mut App, primary: &str, failure: Option<String>)
    ensures
        final(app)@ == match failure {
            Some(f) => with_error(old(app)@, f@),
            None => AppView {
                status: Some((StatusKind::Info, about_link("Opened"@, primary@))),
                ..old(app)@
            },
        },
{
    match failure {
        Some(text) => app.set_error(text),
        None => app.set_info(message_about("Opened", primary)),
    }
}

/// After copying a link: its name in an informative message, or why it failed.
pub fn finish_copy(app: &mut App, primary: &str, failure: Option<String>)
    ensures
        final(app)@ == match failure {
            Some(f) => with_error(old(app)@, f@),
            None => AppView {
                status: Some((StatusKind::Info, about_link("Copied"@, primary@))),
                ..old(app)@
            },
        },
{
    match failure {
        Some(text) => app.set_error(text),
        None => app.set_info(message_about("Copied", primary)),
    }
}

/// After saving the form: back to normal mode, or the failure shown in the status area
/// and in the form.
pub fn finish_save(app: &mut App, failure: Option<String>)
    ensures
        final(app)@ == match failure {
            Some(f) => match old(app)@.mode {
                ModeView::Editor(cur) => AppView {
                    mode: ModeView::Editor(editor_with_error(cur, f@)),
                    ..with_error(old(app)@, f@)
                },
                _ => with_error(old(app)@, f@),
            },
            None => AppView { mode: ModeView::Normal, ..old(app)@ },
        },
{
    match failure {
        Some(text) => {
            app.set_error(text.clone());
            set_editor_error(app, text);
        },
        None => app.mode = Mode::Normal,
    }
}

/// After deleting a link: back to normal mode, or the failure in the status area.
pub fn finish_delete(app: &mut App, failure: Option<String>)
    ensures
        final(app)@ == match failure {
            Some(f) => with_error(old(app)@, f@),
            None => AppView { mode: ModeView::Normal, ..old(app)@ },
        },
{
    match failure {
        Some(text) => app.set_error(text),
        None => app.mode = Mode::Normal,
    }
}

/// The informative message after a link is deleted.
pub fn deleted_message(primary: &str) -> (r: String)
    ensures
        r@ == about_link("Deleted"@, primary@),
{
    message_about("Deleted", primary)
}

} // verus!
