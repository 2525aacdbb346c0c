//! What each key does in each mode of the interactive view.
use vstd::prelude::*;

use crate::error::{message_of, Error, ErrorView};
use crate::str_map::Duplicate;
use crate::text::{pop_char, push_char};
use crate::tui::editor::{
    spec_is_dirty, spec_next_field, spec_previous_field, with_field_text, field_text,
    EditorState, EditorView,
};
use crate::tui::state::{
    move_fits, moved_table, spec_begin_delete, spec_begin_edit, spec_ensure_selection, App,
    AppView, Mode, ModeView, StatusKind,
};

verus! {

/// A key, as the terminal reports it.
#[derive(Debug, Clone, Copy, PartialEq, Eq, Structural)]
pub enum KeyCode {
    Char(char),
    Up,
    Down,
    Enter,
    Esc,
    Tab,
    BackTab,
    Backspace,
    /// Any other key; no mode acts on it.
    Other,
}

/// Whether a key went down, repeats, or went up.
#[derive(Debug, Clone, Copy, PartialEq, Eq, Structural)]
pub enum KeyEventKind {
    Press,
    Repeat,
    Release,
}

/// The modifier keys held with a key; the view only looks at Control.
#[derive(Debug, Clone, Copy, PartialEq, Eq, Structural)]
pub struct KeyModifiers {
    pub control: bool,
}

impl KeyModifiers {
    /// No modifier.
    pub fn empty() -> (r: Self)
        ensures
            !r.control,
    {
        KeyModifiers { control: false }
    }

    /// The Control modifier.
    pub fn control() -> (r: Self)
        ensures
            r.control,
    {
        KeyModifiers { control: true }
    }
}

/// A key event.
#[derive(Debug, Clone, Copy, PartialEq, Eq, Structural)]
pub struct KeyEvent {
    pub code: KeyCode,
    pub modifiers: KeyModifiers,
    pub kind: KeyEventKind,
}

impl KeyEvent {
    /// A key press.
    pub fn new(code: KeyCode, modifiers: KeyModifiers) -> (r: Self)
        ensures
            r == (KeyEvent { code, modifiers, kind: KeyEventKind::Press }),
    {
        KeyEvent { code, modifiers, kind: KeyEventKind::Press }
    }

    /// A key event of the given kind.
    pub fn new_with_kind(code: KeyCode, modifiers: KeyModifiers, kind: KeyEventKind) -> (r: Self)
        ensures
            r == (KeyEvent { code, modifiers, kind }),
    {
        KeyEvent { code, modifiers, kind }
    }
}

/// What the loop around the view has to do after a key.
#[derive(Debug, Clone, PartialEq, Eq)]
pub enum EventResult {
    NoAction,
    Quit,
    Reload,
    OpenSelected,
    YankSelected,
    SaveEditor(Box<EditorState>),
    ConfirmDelete,
}

pub enum EventResultView {
    NoAction,
    Quit,
    Reload,
    OpenSelected,
    YankSelected,
    SaveEditor(EditorView),
    ConfirmDelete,
}

impl View for EventResult {
    type V = EventResultView;

    open spec fn view(&self) -> EventResultView {
        match self {
            EventResult::NoAction => EventResultView::NoAction,
            EventResult::Quit => EventResultView::Quit,
            EventResult::Reload => EventResultView::Reload,
            EventResult::OpenSelected => EventResultView::OpenSelected,
            EventResult::YankSelected => EventResultView::YankSelected,
            EventResult::SaveEditor(e) => EventResultView::SaveEditor((**e)@),
            EventResult::ConfirmDelete => EventResultView::ConfirmDelete,
        }
    }
}

// ---------------------------------------------------------------------------
// Specifications
// ---------------------------------------------------------------------------

/// The state with an error message in the status area when an action was refused.
pub open spec fn report(v: AppView, r: Result<(), ErrorView>) -> AppView {
    match r {
        Ok(_) => v,
        Err(e) => AppView { status: Some((StatusKind::Error, message_of(e))), ..v },
    }
}

/// The text without its last character, if any.
pub open spec fn pop_text(s: Seq<char>) -> Seq<char> {
    if s.len() > 0 {
        s.drop_last()
    } else {
        s
    }
}

/// A key in normal mode.
pub open spec fn spec_normal(v: AppView, code: KeyCode) -> (AppView, EventResultView) {
    match code {
        KeyCode::Char('q') => (v, EventResultView::Quit),
        KeyCode::Char('j') | KeyCode::Down => (
            AppView { table: moved_table(v, 1), ..v },
            EventResultView::NoAction,
        ),
        KeyCode::Char('k') | KeyCode::Up => (
            AppView { table: moved_table(v, -1), ..v },
            EventResultView::NoAction,
        ),
        KeyCode::Char('/') => (AppView { mode: ModeView::Filter, ..v }, EventResultView::NoAction),
        KeyCode::Char('n') => (
            AppView { mode: ModeView::Editor(crate::tui::editor::empty_editor()), ..v },
            EventResultView::NoAction,
        ),
        KeyCode::Char('e') | KeyCode::Enter => (
            report(spec_begin_edit(v).0, spec_begin_edit(v).1),
            EventResultView::NoAction,
        ),
        KeyCode::Char('d') => (
            report(spec_begin_delete(v).0, spec_begin_delete(v).1),
            EventResultView::NoAction,
        ),
        KeyCode::Char('r') => (v, EventResultView::Reload),
        KeyCode::Char('o') => (v, EventResultView::OpenSelected),
        KeyCode::Char('y') => (v, EventResultView::YankSelected),
        _ => (v, EventResultView::NoAction),
    }
}

/// A key while the filter is typed.
pub open spec fn spec_filter(v: AppView, code: KeyCode) -> AppView {
    match code {
        KeyCode::Esc | KeyCode::Enter => AppView { mode: ModeView::Normal, ..v },
        KeyCode::Backspace => spec_ensure_selection(AppView { filter: pop_text(v.filter), ..v }),
        KeyCode::Char(ch) => spec_ensure_selection(AppView { filter: v.filter.push(ch), ..v }),
        _ => v,
    }
}

/// A key in the form `e`.
pub open spec fn spec_editor(v: AppView, e: EditorView, key: KeyEvent) -> (AppView, EventResultView) {
    let f = e.active_field;
    match key.code {
        KeyCode::Esc => if spec_is_dirty(e) {
            (AppView { mode: ModeView::DiscardConfirm(e), ..v }, EventResultView::NoAction)
        } else {
            (AppView { mode: ModeView::Normal, ..v }, EventResultView::NoAction)
        },
        KeyCode::Tab => (
            AppView { mode: ModeView::Editor(EditorView { active_field: spec_next_field(f), ..e }), ..v },
            EventResultView::NoAction,
        ),
        KeyCode::BackTab => (
            AppView {
                mode: ModeView::Editor(EditorView { active_field: spec_previous_field(f), ..e }),
                ..v
            },
            EventResultView::NoAction,
        ),
        KeyCode::Backspace => (
            AppView {
                mode: ModeView::Editor(with_field_text(e, f, pop_text(field_text(e, f)))),
                ..v
            },
            EventResultView::NoAction,
        ),
        KeyCode::Char(ch) => if ch == 's' && key.modifiers.control {
            (v, EventResultView::SaveEditor(e))
        } else {
            (
                AppView {
                    mode: ModeView::Editor(with_field_text(e, f, field_text(e, f).push(ch))),
                    ..v
                },
                EventResultView::NoAction,
            )
        },
        _ => (v, EventResultView::NoAction),
    }
}

/// A key while deleting is to be confirmed.
pub open spec fn spec_delete_confirm(v: AppView, code: KeyCode) -> (AppView, EventResultView) {
    match code {
        KeyCode::Char('y') => (v, EventResultView::ConfirmDelete),
        KeyCode::Char('n') | KeyCode::Esc => (AppView { mode: ModeView::Normal, ..v }, EventResultView::NoAction),
        _ => (v, EventResultView::NoAction),
    }
}

/// A key while discarding the edits of `e` is to be confirmed.
pub open spec fn spec_discard_confirm(v: AppView, e: EditorView, code: KeyCode) -> AppView {
    match code {
        KeyCode::Char('y') => AppView { mode: ModeView::Normal, ..v },
        KeyCode::Char('n') | KeyCode::Esc => AppView { mode: ModeView::Editor(e), ..v },
        _ => v,
    }
}

/// The state after a key, and what the loop has to do. A released key does nothing.
pub open spec fn spec_handle_key(v: AppView, key: KeyEvent) -> (AppView, EventResultView) {
    if key.kind == KeyEventKind::Release {
        (v, EventResultView::NoAction)
    } else {
        match v.mode {
            ModeView::Normal => spec_normal(v, key.code),
            ModeView::Filter => (spec_filter(v, key.code), EventResultView::NoAction),
            ModeView::Editor(e) => spec_editor(v, e, key),
            ModeView::DeleteConfirm => spec_delete_confirm(v, key.code),
            ModeView::DiscardConfirm(e) => (spec_discard_confirm(v, e, key.code), EventResultView::NoAction),
        }
    }
}

/// Moving the selection with this key stays within machine integers.
pub open spec fn key_fits(v: AppView, key: KeyEvent) -> bool {
    key.kind != KeyEventKind::Release && v.mode is Normal ==> match key.code {
        KeyCode::Char('j') | KeyCode::Down => move_fits(v, 1),
        KeyCode::Char('k') | KeyCode::Up => move_fits(v, -1),
        _ => true,
    }
}

// ---------------------------------------------------------------------------
// Executable functions
// ---------------------------------------------------------------------------

fn report_error(app: &mut App, r: Result<(), Error>)
    ensures
        final(app)@ == report(old(app)@, crate::config::res_unit(r)),
{
    if let Err(err) = r {
        app.set_error(err.message());
    }
}

/// Applies a key to the state and tells the loop what to do next.
pub fn handle_key(app: &mut App, key: KeyEvent) -> (r: Result<EventResult, Error>)
    requires
        key_fits(old(app)@, key),
    ensures
        r matches Ok(res) && (final(app)@, res@) == spec_handle_key(old(app)@, key),
{
    if key.kind == KeyEventKind::Release {
        return Ok(EventResult::NoAction);
    }
    match &app.mode {
        Mode::Normal => Ok(handle_normal_mode(app, key)),
        Mode::Filter => Ok(handle_filter_mode(app, key)),
        Mode::Editor(_) => Ok(handle_editor_mode(app, key)),
        Mode::DeleteConfirm => Ok(handle_delete_confirm_mode(app, key)),
        Mode::DiscardConfirm(_) => Ok(handle_discard_confirm_mode(app, key)),
    }
}

fn handle_normal_mode(app: &mut App, key: KeyEvent) -> (r: EventResult)
    requires
        old(app)@.mode is Normal,
        key_fits(old(app)@, key),
        key.kind != KeyEventKind::Release,
    ensures
        (final(app)@, r@) == spec_normal(old(app)@, key.code),
{
    match key.code {
        KeyCode::Char('q') => EventResult::Quit,
        KeyCode::Char('j') | KeyCode::Down => {
            app.move_selection(1);
            EventResult::NoAction
        },
        KeyCode::Char('k') | KeyCode::Up => {
            app.move_selection(-1);
            EventResult::NoAction
        },
        KeyCode::Char('/') => {
            app.mode = Mode::Filter;
            EventResult::NoAction
        },
        KeyCode::Char('n') => {
            app.begin_new();
            EventResult::NoAction
        },
        KeyCode::Char('e') | KeyCode::Enter => {
            let r = app.begin_edit();
            report_error(app, r);
            EventResult::NoAction
        },
        KeyCode::Char('d') => {
            let r = app.begin_delete();
            report_error(app, r);
            EventResult::NoAction
        },
        KeyCode::Char('r') => EventResult::Reload,
        KeyCode::Char('o') => EventResult::OpenSelected,
        KeyCode::Char('y') => EventResult::YankSelected,
        _ => EventResult::NoAction,
    }
}

fn handle_filter_mode(app: &mut App, key: KeyEvent) -> (r: EventResult)
    requires
        old(app)@.mode is Filter,
    ensures
        final(app)@ == spec_filter(old(app)@, key.code),
        r@ == EventResultView::NoAction,
{
    match key.code {
        KeyCode::Esc => {
            app.mode = Mode::Normal;
            EventResult::NoAction
        },
        KeyCode::Backspace => {
            let _ = pop_char(&mut app.filter);
            app.ensure_selection();
            EventResult::NoAction
        },
        KeyCode::Enter => {
            app.mode = Mode::Normal;
            EventResult::NoAction
        },
        KeyCode::Char(ch) => {
            push_char(&mut app.filter, ch);
            app.ensure_selection();
            EventResult::NoAction
        },
        _ => EventResult::NoAction,
    }
}

fn handle_editor_mode(app: &mut App, key: KeyEvent) -> (r: EventResult)
    requires
        old(app)@.mode is Editor,
        key.kind != KeyEventKind::Release,
    ensures
        (final(app)@, r@) == spec_editor(old(app)@, old(app)@.mode->Editor_0, key),
{
    let editor = match &app.mode {
        Mode::Editor(editor) => editor.duplicate(),
        _ => {
            return EventResult::NoAction;
        },
    };
    let mut editor = editor;
    match key.code {
        KeyCode::Esc => {
            if editor.is_dirty() {
                app.mode = Mode::DiscardConfirm(editor);
            } else {
                app.mode = Mode::Normal;
            }
            EventResult::NoAction
        },
        KeyCode::Tab => {
            editor.next_field();
            app.mode = Mode::Editor(editor);
            EventResult::NoAction
        },
        KeyCode::BackTab => {
            editor.previous_field();
            app.mode = Mode::Editor(editor);
            EventResult::NoAction
        },
        KeyCode::Backspace => {
            editor.backspace();
            app.mode = Mode::Editor(editor);
            EventResult::NoAction
        },
        KeyCode::Char(ch) => {
            if ch == 's' && key.modifiers.control {
                EventResult::SaveEditor(Box::new(editor))
            } else {
                editor.insert_char(ch);
                app.mode = Mode::Editor(editor);
                EventResult::NoAction
            }
        },
        _ => EventResult::NoAction,
    }
}

fn handle_delete_confirm_mode(app: &mut App, key: KeyEvent) -> (r: EventResult)
    requires
        old(app)@.mode is DeleteConfirm,
    ensures
        (final(app)@, r@) == spec_delete_confirm(old(app)@, key.code),
{
    match key.code {
        KeyCode::Char('y') => EventResult::ConfirmDelete,
        KeyCode::Char('n') | KeyCode::Esc => {
            app.mode = Mode::Normal;
            EventResult::NoAction
        },
        _ => EventResult::NoAction,
    }
}

fn handle_discard_confirm_mode(app: &mut App, key: KeyEvent) -> (r: EventResult)
    requires
        old(app)@.mode is DiscardConfirm,
    ensures
        final(app)@ == spec_discard_confirm(old(app)@, old(app)@.mode->DiscardConfirm_0, key.code),
        r@ == EventResultView::NoAction,
{
    let editor = match &app.mode {
        Mode::DiscardConfirm(editor) => editor.duplicate(),
        _ => {
            return EventResult::NoAction;
        },
    };
    match key.code {
        KeyCode::Char('y') => {
            app.mode = Mode::Normal;
            EventResult::NoAction
        },
        KeyCode::Char('n') | KeyCode::Esc => {
            app.mode = Mode::Editor(editor);
            EventResult::NoAction
        },
        _ => EventResult::NoAction,
    }
}

} // verus!
