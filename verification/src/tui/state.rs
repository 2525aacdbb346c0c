//! The state of the interactive view: the configuration, the filter, the mode and the selection.
use vstd::prelude::*;

use crate::config::{Config, ConfigView, LinkEntry, LinkEntryView};
use crate::error::{Error, ErrorView};
use crate::normalize::opt_view;
use crate::str_map::{map_get, Duplicate};
use crate::text::{
    contains_sub, contains_substring, join, join_strings, lower, to_ascii_lowercase, trim,
    trim_str,
};
use crate::tui::editor::{empty_editor, or_empty, EditorState, EditorView};

verus! {

/// Whether a status message reports success or failure.
#[derive(Debug, Clone, Copy, PartialEq, Eq, Structural)]
pub enum StatusKind {
    Info,
    Error,
}

/// The message shown in the status area.
#[derive(Debug, Clone, PartialEq, Eq)]
pub struct StatusMessage {
    pub kind: StatusKind,
    pub text: String,
}

/// What the keys act on.
#[derive(Debug, Clone)]
pub enum Mode {
    Normal,
    Filter,
    Editor(EditorState),
    DeleteConfirm,
    DiscardConfirm(EditorState),
}

pub enum ModeView {
    Normal,
    Filter,
    Editor(EditorView),
    DeleteConfirm,
    DiscardConfirm(EditorView),
}

impl View for Mode {
    type V = ModeView;

    open spec fn view(&self) -> ModeView {
        match self {
            Mode::Normal => ModeView::Normal,
            Mode::Filter => ModeView::Filter,
            Mode::Editor(e) => ModeView::Editor(e@),
            Mode::DeleteConfirm => ModeView::DeleteConfirm,
            Mode::DiscardConfirm(e) => ModeView::DiscardConfirm(e@),
        }
    }
}

impl Duplicate for Mode {
    fn duplicate(&self) -> (r: Self) {
        match self {
            Mode::Normal => Mode::Normal,
            Mode::Filter => Mode::Filter,
            Mode::Editor(e) => Mode::Editor(e.duplicate()),
            Mode::DeleteConfirm => Mode::DeleteConfirm,
            Mode::DiscardConfirm(e) => Mode::DiscardConfirm(e.duplicate()),
        }
    }
}

/// Which row of the table is selected, and the first row shown.
#[derive(Debug, Clone, Copy, Default, PartialEq, Eq)]
pub struct TableState {
    pub offset: usize,
    pub selected: Option<usize>,
}

impl TableState {
    /// The selected row.
    pub fn selected(&self) -> (r: Option<usize>)
        ensures
            r == self.selected,
    {
        self.selected
    }

    /// Selects a row, or none; selecting none shows the table from its first row.
    pub fn select(&mut self, index: Option<usize>)
        ensures
            final(self).selected == index,
            final(self).offset == if index is None {
                0
            } else {
                old(self).offset
            },
    {
        self.selected = index;
        if index.is_none() {
            self.offset = 0;
        }
    }
}

/// Everything the interactive view keeps between two keys.
#[derive(Debug, Clone)]
pub struct App {
    pub config: Config,
    pub filter: String,
    pub mode: Mode,
    pub status: Option<StatusMessage>,
    pub table_state: TableState,
}

pub struct AppView {
    pub config: ConfigView,
    pub filter: Seq<char>,
    pub mode: ModeView,
    pub status: Option<(StatusKind, Seq<char>)>,
    pub table: TableState,
}

impl View for App {
    type V = AppView;

    open spec fn view(&self) -> AppView {
        AppView {
            config: self.config@,
            filter: self.filter@,
            mode: self.mode@,
            status: match self.status {
                Some(m) => Some((m.kind, m.text@)),
                None => None,
            },
            table: self.table_state,
        }
    }
}

// ---------------------------------------------------------------------------
// Specifications
// ---------------------------------------------------------------------------

/// The filter as it is matched: trimmed and lowercased.
pub open spec fn query_of(filter: Seq<char>) -> Seq<char> {
    lower(trim(filter))
}

/// Whether a link matches the query: in its primary name, URL, aliases, tags or note,
/// compared in ASCII lowercase.
pub open spec fn link_matches(p: Seq<char>, e: LinkEntryView, q: Seq<char>) -> bool {
    ||| q.len() == 0
    ||| contains_sub(lower(p), q)
    ||| contains_sub(lower(e.url), q)
    ||| contains_sub(lower(join(e.aliases, " "@)), q)
    ||| contains_sub(lower(join(e.tags, " "@)), q)
    ||| contains_sub(lower(or_empty(e.note)), q)
}

/// The primary names of the links that match the query, in key order.
pub open spec fn visible(links: Seq<(Seq<char>, LinkEntryView)>, q: Seq<char>) -> Seq<Seq<char>>
    decreases links.len(),
{
    if links.len() == 0 {
        Seq::empty()
    } else {
        let r = visible(links.drop_last(), q);
        if link_matches(links.last().0, links.last().1, q) {
            r.push(links.last().0)
        } else {
            r
        }
    }
}

/// The rows the table shows for a state.
pub open spec fn visible_of(v: AppView) -> Seq<Seq<char>> {
    visible(v.config.links, query_of(v.filter))
}

/// The selected row, or the first row when none is selected.
pub open spec fn selected_index(v: AppView) -> int {
    match v.table.selected {
        Some(i) => i as int,
        None => 0,
    }
}

/// The primary name of the selected row, the first row when none is selected.
pub open spec fn selected_of(v: AppView) -> Option<Seq<char>> {
    let rows = visible_of(v);
    if selected_index(v) < rows.len() {
        Some(rows[selected_index(v)])
    } else {
        None
    }
}

/// The table after selecting `index`.
pub open spec fn table_select(t: TableState, index: Option<usize>) -> TableState {
    TableState {
        offset: if index is None {
            0
        } else {
            t.offset
        },
        selected: index,
    }
}

/// The table with its selection kept on a visible row.
pub open spec fn ensured_table(v: AppView) -> TableState {
    let n = visible_of(v).len();
    if n == 0 {
        table_select(v.table, None)
    } else {
        table_select(v.table, Some(clamp(selected_index(v), 0, n - 1) as usize))
    }
}

/// The table with its selection moved by `delta` rows, kept on a visible row.
pub open spec fn moved_table(v: AppView, delta: int) -> TableState {
    let n = visible_of(v).len();
    if n == 0 {
        table_select(v.table, None)
    } else {
        table_select(v.table, Some(clamp(selected_index(v) + delta, 0, n - 1) as usize))
    }
}

/// The state with the selection kept on a visible row.
pub open spec fn spec_ensure_selection(v: AppView) -> AppView {
    AppView { table: ensured_table(v), ..v }
}

/// The state, and the outcome, after asking to edit the selected link.
pub open spec fn spec_begin_edit(v: AppView) -> (AppView, Result<(), ErrorView>) {
    match selected_of(v) {
        None => (v, Err(ErrorView::NoLinkSelected)),
        Some(p) => match map_get(v.config.links, p) {
            None => (v, Err(ErrorView::SelectedLinkMissing)),
            Some(entry) => (
                AppView { mode: ModeView::Editor(crate::tui::editor::existing_editor(p, entry)), ..v },
                Ok(()),
            ),
        },
    }
}

/// The state, and the outcome, after asking to delete the selected link.
pub open spec fn spec_begin_delete(v: AppView) -> (AppView, Result<(), ErrorView>) {
    match selected_of(v) {
        None => (v, Err(ErrorView::NoLinkSelected)),
        Some(_) => (AppView { mode: ModeView::DeleteConfirm, ..v }, Ok(())),
    }
}

/// Whether a selection moved by `delta` stays within the machine integers it is computed in.
pub open spec fn move_fits(v: AppView, delta: int) -> bool {
    &&& selected_index(v) <= isize::MAX
    &&& isize::MIN <= selected_index(v) + delta <= isize::MAX
    &&& v.config.links.len() <= isize::MAX
}

/// `x` kept between `lo` and `hi`.
pub open spec fn clamp(x: int, lo: int, hi: int) -> int {
    if x < lo {
        lo
    } else if x > hi {
        hi
    } else {
        x
    }
}

// ---------------------------------------------------------------------------
// Executable functions
// ---------------------------------------------------------------------------

fn entry_matches(primary: &str, entry: &LinkEntry, query: &str) -> (r: bool)
    ensures
        r == link_matches(primary@, entry@, query@),
{
    if query.is_empty() {
        return true;
    }
    let aliases = join_strings(&entry.aliases, " ");
    let tags = join_strings(&entry.tags, " ");
    let note = match &entry.note {
        Some(n) => n.clone(),
        None => String::new(),
    };
    contains_substring(to_ascii_lowercase(primary).as_str(), query) || contains_substring(
        to_ascii_lowercase(entry.url.as_str()).as_str(),
        query,
    ) || contains_substring(to_ascii_lowercase(aliases.as_str()).as_str(), query)
        || contains_substring(to_ascii_lowercase(tags.as_str()).as_str(), query)
        || contains_substring(to_ascii_lowercase(note.as_str()).as_str(), query)
}

fn status_of(kind: StatusKind, text: String) -> (r: StatusMessage)
    ensures
        r.kind == kind,
        r.text@ == text@,
{
    StatusMessage { kind, text }
}

impl App {
    /// The state for a configuration: normal mode, no filter, first row selected if there is one.
    pub fn new(config: Config) -> (r: Self)
        ensures
            r@ == (AppView {
                config: config@,
                filter: Seq::empty(),
                mode: ModeView::Normal,
                status: None,
                table: TableState {
                    offset: 0,
                    selected: if config@.links.len() > 0 {
                        Some(0usize)
                    } else {
                        None
                    },
                },
            }),
    {
        let mut table_state = TableState { offset: 0, selected: None };
        if !config.links.is_empty() {
            table_state.select(Some(0));
        }
        App { config, filter: String::new(), mode: Mode::Normal, status: None, table_state }
    }

    /// The primary names of the links that match the filter, in key order.
    pub fn visible_primaries(&self) -> (r: Vec<String>)
        ensures
            crate::text::views(r@) == visible_of(self@),
    {
        let trimmed = trim_str(self.filter.as_str());
        let query = to_ascii_lowercase(trimmed.as_str());
        let ghost ls = self.config@.links;
        let mut out: Vec<String> = Vec::new();
        let n = self.config.links.len();
        let mut i: usize = 0;
        assert(ls.take(0) =~= Seq::<(Seq<char>, LinkEntryView)>::empty());
        assert(crate::text::views(out@) =~= Seq::<Seq<char>>::empty());
        while i < n
            invariant
                n == ls.len(),
                ls == self.config@.links,
                query@ == query_of(self.filter@),
                i <= n,
                crate::text::views(out@) == visible(ls.take(i as int), query@),
            decreases n - i,
        {
            let primary = self.config.links.key_at(i);
            let entry = self.config.links.value_at(i);
            let ghost before = crate::text::views(out@);
            proof {
                assert(ls.take(i + 1).drop_last() =~= ls.take(i as int));
                assert(ls.take(i + 1).last() == ls[i as int]);
            }
            if entry_matches(primary.as_str(), entry, query.as_str()) {
                out.push(primary.clone());
                assert(crate::text::views(out@) =~= before.push(primary@));
            }
            i = i + 1;
        }
        assert(ls.take(n as int) =~= ls);
        out
    }

    /// The primary name of the selected row (the first row when none is selected).
    pub fn selected_primary(&self) -> (r: Option<String>)
        ensures
            opt_view(r) == selected_of(self@),
    {
        let visible = self.visible_primaries();
        let idx = match self.table_state.selected() {
            Some(i) => i,
            None => 0,
        };
        if idx < visible.len() {
            Some(visible[idx].clone())
        } else {
            None
        }
    }

    /// Keeps the selection on a visible row: none when no row is visible, else the
    /// selected row (the first if none) moved up to the last row if it is past it.
    pub fn ensure_selection(&mut self)
        ensures
            final(self)@ == spec_ensure_selection(old(self)@),
    {
        let len = self.visible_primaries().len();
        if len == 0 {
            self.table_state.select(None);
        } else {
            let current = match self.table_state.selected() {
                Some(i) => i,
                None => 0,
            };
            let idx = if current < len - 1 {
                current
            } else {
                len - 1
            };
            self.table_state.select(Some(idx));
        }
    }

    /// Moves the selection by `delta` rows, kept between the first and the last visible row.
    pub fn move_selection(&mut self, delta: isize)
        requires
            move_fits(old(self)@, delta as int),
        ensures
            final(self)@ == (AppView { table: moved_table(old(self)@, delta as int), ..old(self)@ }),
    {
        let visible = self.visible_primaries();
        proof {
            lemma_visible_len(self.config@.links, query_of(self.filter@));
        }
        if visible.len() == 0 {
            self.table_state.select(None);
            return;
        }
        let current: isize = match self.table_state.selected() {
            Some(i) => i as isize,
            None => 0,
        };
        let sum = current + delta;
        let hi = visible.len() as isize - 1;
        let next: usize = if sum < 0 {
            0
        } else if sum > hi {
            hi as usize
        } else {
            sum as usize
        };
        self.table_state.select(Some(next));
    }

    /// Opens an empty form for a new link.
    pub fn begin_new(&mut self)
        ensures
            final(self)@ == (AppView { mode: ModeView::Editor(empty_editor()), ..old(self)@ }),
    {
        self.mode = Mode::Editor(EditorState::new());
    }

    /// Opens the form on the selected link.
    pub fn begin_edit(&mut self) -> (r: Result<(), Error>)
        ensures
            final(self)@ == spec_begin_edit(old(self)@).0,
            crate::config::res_unit(r) == spec_begin_edit(old(self)@).1,
    {
        let primary = match self.selected_primary() {
            Some(p) => p,
            None => return Err(Error::NoLinkSelected),
        };
        let editor = match self.config.links.get(primary.as_str()) {
            Some(entry) => EditorState::from_existing(primary.as_str(), entry),
            None => return Err(Error::SelectedLinkMissing),
        };
        self.mode = Mode::Editor(editor);
        Ok(())
    }

    /// Asks to confirm deleting the selected link.
    pub fn begin_delete(&mut self) -> (r: Result<(), Error>)
        ensures
            final(self)@ == spec_begin_delete(old(self)@).0,
            crate::config::res_unit(r) == spec_begin_delete(old(self)@).1,
    {
        if self.selected_primary().is_none() {
            return Err(Error::NoLinkSelected);
        }
        self.mode = Mode::DeleteConfirm;
        Ok(())
    }

    /// Shows an informative status message.
    pub fn set_info(&mut self, text: String)
        ensures
            final(self)@ == (AppView { status: Some((StatusKind::Info, text@)), ..old(self)@ }),
    {
        self.status = Some(status_of(StatusKind::Info, text));
    }

    /// Shows an error status message.
    pub fn set_error(&mut self, text: String)
        ensures
            final(self)@ == (AppView { status: Some((StatusKind::Error, text@)), ..old(self)@ }),
    {
        self.status = Some(status_of(StatusKind::Error, text));
    }
}

/// No more rows are visible than there are links.
pub proof fn lemma_visible_len(links: Seq<(Seq<char>, LinkEntryView)>, q: Seq<char>)
    ensures
        visible(links, q).len() <= links.len(),
    decreases links.len(),
{
    if links.len() > 0 {
        lemma_visible_len(links.drop_last(), q);
    }
}

} // verus!
