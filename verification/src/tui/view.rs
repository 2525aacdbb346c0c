//! What the interactive view shows: the texts of its table, details, footer and popups.
//! Drawing them on the terminal happens outside the library.
use vstd::prelude::*;

use crate::config::{LinkEntry, LinkEntryView};
use crate::normalize::opt_view;
use crate::str_map::map_get;
use crate::text::{join, join_strings, push_str, views};
use crate::tui::editor::{EditorState, EditorView};
use crate::tui::state::{selected_of, visible_of, App, AppView, Mode, ModeView, StatusKind};

verus! {

/// The cells of one table row: primary name, aliases, tags, URL.
pub open spec fn row_cells(p: Seq<char>, e: LinkEntryView) -> Seq<Seq<char>> {
    seq![p, join(e.aliases, ", "@), join(e.tags, ", "@), e.url]
}

/// The rows of the table, one per visible link.
pub open spec fn spec_rows(v: AppView) -> Seq<Seq<Seq<char>>> {
    visible_of(v).map_values(|p: Seq<char>| row_cells(p, map_get(v.config.links, p)->0))
}

/// A list joined with `, `, or `-` when it is empty.
pub open spec fn list_or_dash(items: Seq<Seq<char>>) -> Seq<char> {
    if items.len() == 0 {
        "-"@
    } else {
        join(items, ", "@)
    }
}

/// The details of the selected link: primary name, URL, aliases, tags and note,
/// each missing part shown as `-`.
pub open spec fn spec_details(v: AppView) -> Option<Seq<Seq<char>>> {
    match selected_of(v) {
        None => None,
        Some(p) => {
            let e = map_get(v.config.links, p)->0;
            Some(
                seq![
                    p,
                    e.url,
                    list_or_dash(e.aliases),
                    list_or_dash(e.tags),
                    match e.note {
                        Some(n) => n,
                        None => "-"@,
                    },
                ],
            )
        },
    }
}

/// The key help of each mode.
pub open spec fn spec_footer_keys(m: ModeView) -> Seq<char> {
    match m {
        ModeView::Normal => "q quit  j/k move  / filter  n new  e edit  d delete  o open  y yank  r reload"@,
        ModeView::Filter => "type to filter  Enter/Esc finish"@,
        ModeView::Editor(_) => "Tab fields  Ctrl-s save  Esc cancel"@,
        ModeView::DeleteConfirm => "y confirm delete  n cancel"@,
        ModeView::DiscardConfirm(_) => "y discard  n continue editing"@,
    }
}

/// The status area: the message, or the filter while it is typed.
pub open spec fn spec_status_text(v: AppView) -> Seq<char> {
    match v.status {
        Some((_, text)) => text,
        None => match v.mode {
            ModeView::Filter => "Filter: "@ + v.filter,
            _ => Seq::empty(),
        },
    }
}

/// The line under the form: its error, or the key help.
pub open spec fn spec_editor_hint(e: EditorView) -> Seq<char> {
    match e.error {
        Some(text) => text,
        None => "Ctrl-s saves; Esc cancels."@,
    }
}

/// The question a confirmation mode asks.
pub open spec fn spec_confirm_message(m: ModeView) -> Option<Seq<char>> {
    match m {
        ModeView::DeleteConfirm => Some("Delete selected link? Press y to confirm."@),
        ModeView::DiscardConfirm(_) => Some("Discard unsaved edits? Press y to discard."@),
        _ => None,
    }
}

fn list_text(items: &Vec<String>) -> (r: String)
    ensures
        r@ == list_or_dash(views(items@)),
{
    if items.len() == 0 {
        "-".to_owned()
    } else {
        join_strings(items, ", ")
    }
}

/// The cells of each table row, for the visible links in key order.
pub fn table_rows(app: &App) -> (r: Vec<Vec<String>>)
    ensures
        r@.len() == spec_rows(app@).len(),
        forall|i: int| 0 <= i < r@.len() ==> views(#[trigger] r@[i]@) == spec_rows(app@)[i],
{
    let primaries = app.visible_primaries();
    let mut rows: Vec<Vec<String>> = Vec::new();
    let mut i: usize = 0;
    while i < primaries.len()
        invariant
            i <= primaries@.len(),
            views(primaries@) == visible_of(app@),
            rows@.len() == i,
            forall|k: int| 0 <= k < i ==> views(#[trigger] rows@[k]@) == spec_rows(app@)[k],
        decreases primaries.len() - i,
    {
        let primary = &primaries[i];
        let entry: &LinkEntry = match app.config.links.get(primary.as_str()) {
            Some(e) => e,
            None => {
                // every visible row names a link of the configuration
                proof {
                    crate::tui::view::lemma_visible_in(app@.config.links, crate::tui::state::query_of(app@.filter), i as int);
                }
                assert(false);
                return rows;
            },
        };
        let mut row: Vec<String> = Vec::new();
        row.push(primary.clone());
        row.push(join_strings(&entry.aliases, ", "));
        row.push(join_strings(&entry.tags, ", "));
        row.push(entry.url.clone());
        proof {
            assert(views(primaries@)[i as int] == primary@);
            assert(views(row@) =~= row_cells(primary@, map_get(app@.config.links, primary@)->0));
        }
        rows.push(row);
        i = i + 1;
    }
    rows
}

/// Every visible row names a link of the configuration.
pub proof fn lemma_visible_in(
    links: Seq<(Seq<char>, LinkEntryView)>,
    q: Seq<char>,
    i: int,
)
    requires
        crate::str_map::keys_sorted(links),
        0 <= i < crate::tui::state::visible(links, q).len(),
    ensures
        map_get(links, crate::tui::state::visible(links, q)[i]) is Some,
    decreases links.len(),
{
    let t = links.drop_last();
    assert(crate::str_map::keys_sorted(t)) by {
        assert forall|a: int, b: int| 0 <= a < b < t.len() implies crate::text::seq_lt(
            #[trigger] t[a].0,
            #[trigger] t[b].0,
        ) by {
            assert(t[a] == links[a] && t[b] == links[b]);
        }
    }
    let r = crate::tui::state::visible(t, q);
    if i < r.len() {
        lemma_visible_in(t, q, i);
        let k = crate::str_map::find_key(t, r[i]);
        crate::str_map::lemma_find_key(t, r[i]);
        assert(links[k] == t[k]);
        crate::str_map::lemma_map_get_index(links, k);
    } else {
        crate::str_map::lemma_map_get_index(links, links.len() - 1);
    }
}

/// The details of the selected link, or none when no row is visible.
pub fn detail_values(app: &App) -> (r: Option<Vec<String>>)
    ensures
        match spec_details(app@) {
            Some(d) => r matches Some(v) && views(v@) == d,
            None => r is None,
        },
{
    let primary = app.selected_primary()?;
    let entry = match app.config.links.get(primary.as_str()) {
        Some(e) => e,
        None => {
            proof {
                let idx = crate::tui::state::selected_index(app@);
                lemma_visible_in(app@.config.links, crate::tui::state::query_of(app@.filter), idx);
            }
            assert(false);
            return None;
        },
    };
    let mut values: Vec<String> = Vec::new();
    values.push(primary.clone());
    values.push(entry.url.clone());
    values.push(list_text(&entry.aliases));
    values.push(list_text(&entry.tags));
    values.push(
        match &entry.note {
            Some(n) => n.clone(),
            None => "-".to_owned(),
        },
    );
    proof {
        let e = map_get(app@.config.links, primary@)->0;
        assert(views(values@) =~= seq![
            primary@,
            e.url,
            list_or_dash(e.aliases),
            list_or_dash(e.tags),
            match e.note {
                Some(n) => n,
                None => "-"@,
            },
        ]);
    }
    Some(values)
}

/// The key help of the current mode.
pub fn footer_keys(mode: &Mode) -> (r: &'static str)
    ensures
        r@ == spec_footer_keys(mode@),
{
    match mode {
        Mode::Normal => "q quit  j/k move  / filter  n new  e edit  d delete  o open  y yank  r reload",
        Mode::Filter => "type to filter  Enter/Esc finish",
        Mode::Editor(_) => "Tab fields  Ctrl-s save  Esc cancel",
        Mode::DeleteConfirm => "y confirm delete  n cancel",
        Mode::DiscardConfirm(_) => "y discard  n continue editing",
    }
}

/// The kind of the status message, if any, and the text of the status area.
pub fn status_line(app: &App) -> (r: (Option<StatusKind>, String))
    ensures
        r.0 == match app@.status {
            Some((k, _)) => Some(k),
            None => None::<StatusKind>,
        },
        r.1@ == spec_status_text(app@),
{
    match &app.status {
        Some(status) => (Some(status.kind), status.text.clone()),
        None => match &app.mode {
            Mode::Filter => {
                let mut s = String::new();
                push_str(&mut s, "Filter: ");
                push_str(&mut s, app.filter.as_str());
                (None, s)
            },
            _ => (None, String::new()),
        },
    }
}

/// The line under the form.
pub fn editor_hint(editor: &EditorState) -> (r: String)
    ensures
        r@ == spec_editor_hint(editor@),
{
    match &editor.error {
        Some(text) => text.clone(),
        None => "Ctrl-s saves; Esc cancels.".to_owned(),
    }
}

/// The question of a confirmation mode.
pub fn confirm_message(mode: &Mode) -> (r: Option<&'static str>)
    ensures
        match spec_confirm_message(mode@) {
            Some(m) => r matches Some(s) && s@ == m,
            None => r is None,
        },
{
    match mode {
        Mode::DeleteConfirm => Some("Delete selected link? Press y to confirm."),
        Mode::DiscardConfirm(_) => Some("Discard unsaved edits? Press y to discard."),
        _ => None,
    }
}

/// The share of the space left on each side of a centered popup of `percent` percent.
pub fn centered_margin(percent: u16) -> (r: u16)
    requires
        percent <= 100,
    ensures
        r == (100 - percent) / 2,
{
    (100 - percent) / 2
}

} // verus!
