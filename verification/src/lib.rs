//! Project-local link manager: links stored under primary names, with aliases, tags and notes,
//! opened, listed, added and removed from the command line or an interactive view.
//!
//! The library holds the decisions; the program around it reads and writes the file,
//! opens links and draws the view.
use vstd::prelude::*;

pub mod cli;
pub mod clipboard;
pub mod config;
pub mod error;
pub mod foreign;
pub mod laws;
pub mod lookup;
pub mod normalize;
pub mod project_root;
pub mod str_map;
pub mod text;
pub mod tui;

use crate::cli::{AddArgs, Cli, Command, ListArgs, OpenArgs, RemoveArgs};
use crate::config::{
    canonical_text, config_text, spec_candidate, spec_config_normalize, spec_save_link,
    CandidateLink, CandidateView, Config, ConfigView, LinkEntryView,
};
use crate::error::{Error, ErrorView, NameKind};
use crate::lookup::{links_for_tag, resolve_alias, spec_resolve, tagged};
use crate::normalize::{
    normalize_alias, normalize_primary, normalize_tag, opt_view, spec_normalize_name,
};
use crate::str_map::{find_key, map_get, map_remove};
use crate::text::{
    byte_len, chars_of, contains_str, join, join_strings, push_char, push_str, repeat, utf8_len,
    views,
};
use crate::tui::editor::or_empty;

verus! {

// ---------------------------------------------------------------------------
// Tables
// ---------------------------------------------------------------------------

/// The views of the rows of a table.
pub open spec fn rows_view(rows: Seq<Vec<String>>) -> Seq<Seq<Seq<char>>> {
    rows.map_values(|r: Vec<String>| views(r@))
}

pub open spec fn max_nat(a: nat, b: nat) -> nat {
    if a < b {
        b
    } else {
        a
    }
}

/// A cell padded with spaces to `w` characters.
pub open spec fn pad(cell: Seq<char>, w: nat) -> Seq<char> {
    if cell.len() < w {
        cell + repeat(' ', (w - cell.len()) as nat)
    } else {
        cell
    }
}

/// The cells of a row, each padded to the width of its column.
pub open spec fn padded_cells(cells: Seq<Seq<char>>, widths: Seq<nat>) -> Seq<Seq<char>> {
    Seq::new(cells.len(), |i: int| pad(cells[i], widths[i]))
}

/// One line of a table.
pub open spec fn row_text(cells: Seq<Seq<char>>, widths: Seq<nat>) -> Seq<char> {
    join(padded_cells(cells, widths), " | "@) + "\n"@
}

/// The widest cell of column `j` among the rows, counted in UTF-8 bytes.
pub open spec fn col_max(rows: Seq<Seq<Seq<char>>>, j: int) -> nat
    decreases rows.len(),
{
    if rows.len() == 0 {
        0
    } else {
        max_nat(
            col_max(rows.drop_last(), j),
            if 0 <= j < rows.last().len() {
                utf8_len(rows.last()[j])
            } else {
                0
            },
        )
    }
}

/// The width of each column: its widest cell or header, counted in UTF-8 bytes.
pub open spec fn table_widths(headers: Seq<Seq<char>>, rows: Seq<Seq<Seq<char>>>) -> Seq<nat> {
    Seq::new(headers.len(), |j: int| max_nat(utf8_len(headers[j]), col_max(rows, j)))
}

/// The line under the headers: dashes as wide as each column, joined by `-+-`.
pub open spec fn separator(widths: Seq<nat>) -> Seq<char> {
    join(widths.map_values(|w: nat| repeat('-', w)), "-+-"@) + "\n"@
}

/// The lines of all rows.
pub open spec fn rows_text(rows: Seq<Seq<Seq<char>>>, widths: Seq<nat>) -> Seq<char>
    decreases rows.len(),
{
    if rows.len() == 0 {
        Seq::empty()
    } else {
        rows_text(rows.drop_last(), widths) + row_text(rows.last(), widths)
    }
}

/// A table: headers, separator, then one line per row.
pub open spec fn table_text(headers: Seq<Seq<char>>, rows: Seq<Seq<Seq<char>>>) -> Seq<char> {
    let w = table_widths(headers, rows);
    row_text(headers, w) + separator(w) + rows_text(rows, w)
}

/// `n` copies of a character.
fn repeat_char(c: char, n: u128) -> (r: String)
    ensures
        r@ == repeat(c, n as nat),
{
    let mut s = String::new();
    let mut i: u128 = 0;
    while i < n
        invariant
            i <= n,
            s@ == repeat(c, i as nat),
        decreases n - i,
    {
        push_char(&mut s, c);
        i = i + 1;
        assert(s@ =~= repeat(c, i as nat));
    }
    s
}

/// A cell padded with spaces to `width` characters.
fn pad_cell(cell: &str, width: u128) -> (r: String)
    ensures
        r@ == pad(cell@, width as nat),
{
    let n = chars_of(cell).len() as u128;
    let mut s = String::new();
    push_str(&mut s, cell);
    if n < width {
        let spaces = repeat_char(' ', width - n);
        push_str(&mut s, spaces.as_str());
    }
    s
}

/// Appends one line of a table.
fn write_row(out: &mut String, cells: &Vec<String>, widths: &Vec<u128>)
    requires
        cells@.len() <= widths@.len(),
    ensures
        final(out)@ == old(out)@ + row_text(views(cells@), widths@.map_values(|w: u128| w as nat)),
{
    let ghost ws = widths@.map_values(|w: u128| w as nat);
    let mut padded: Vec<String> = Vec::new();
    let mut idx: usize = 0;
    while idx < cells.len()
        invariant
            idx <= cells@.len() <= widths@.len(),
            ws == widths@.map_values(|w: u128| w as nat),
            views(padded@) == padded_cells(views(cells@), ws).take(idx as int),
        decreases cells.len() - idx,
    {
        let p = pad_cell(cells[idx].as_str(), widths[idx]);
        let ghost before = views(padded@);
        padded.push(p);
        assert(views(padded@) =~= padded_cells(views(cells@), ws).take(idx + 1)) by {
            assert(views(padded@) =~= before.push(pad(cells@[idx as int]@, ws[idx as int])));
        }
        idx = idx + 1;
    }
    assert(padded_cells(views(cells@), ws).take(idx as int) =~= padded_cells(views(cells@), ws));
    let line = join_strings(&padded, " | ");
    push_str(out, line.as_str());
    push_str(out, "\n");
    assert(final(out)@ =~= old(out)@ + row_text(views(cells@), ws));
}

/// A table with a header line, a separator and one line per row; columns as wide as their
/// widest cell.
pub fn render_table(headers: &Vec<String>, rows: &Vec<Vec<String>>) -> (r: String)
    requires
        forall|i: int| 0 <= i < rows@.len() ==> (#[trigger] rows@[i])@.len() <= headers@.len(),
    ensures
        r@ == table_text(views(headers@), rows_view(rows@)),
{
    let ghost hs = views(headers@);
    let ghost rs = rows_view(rows@);
    let mut widths: Vec<u128> = Vec::new();
    let mut j: usize = 0;
    while j < headers.len()
        invariant
            j <= headers@.len(),
            hs == views(headers@),
            widths@.len() == j,
            forall|k: int| 0 <= k < j ==> widths@[k] as nat == utf8_len(#[trigger] hs[k]),
        decreases headers.len() - j,
    {
        widths.push(byte_len(headers[j].as_str()));
        j = j + 1;
    }
    let mut i: usize = 0;
    assert(rs.take(0) =~= Seq::<Seq<Seq<char>>>::empty());
    while i < rows.len()
        invariant
            i <= rows@.len(),
            hs == views(headers@),
            rs == rows_view(rows@),
            widths@.len() == headers@.len(),
            forall|r: int| 0 <= r < rows@.len() ==> (#[trigger] rows@[r])@.len() <= headers@.len(),
            forall|k: int|
                0 <= k < widths@.len() ==> widths@[k] as nat == max_nat(
                    utf8_len(#[trigger] hs[k]),
                    col_max(rs.take(i as int), k),
                ),
        decreases rows.len() - i,
    {
        let row = &rows[i];
        let ghost row_v = rs[i as int];
        assert(row_v == views(row@));
        proof {
            assert(rs.take(i + 1).drop_last() =~= rs.take(i as int));
            assert(rs.take(i + 1).last() == row_v);
        }
        let mut idx: usize = 0;
        while idx < row.len()
            invariant
                idx <= row@.len() <= headers@.len(),
                hs == views(headers@),
                rs == rows_view(rows@),
                i < rows@.len(),
                row_v == rs[i as int],
                row_v == views(row@),
                rs.take(i + 1).drop_last() == rs.take(i as int),
                rs.take(i + 1).last() == row_v,
                widths@.len() == headers@.len(),
                forall|k: int|
                    0 <= k < widths@.len() ==> widths@[k] as nat == max_nat(
                        utf8_len(#[trigger] hs[k]),
                        if k < idx {
                            col_max(rs.take(i + 1), k)
                        } else {
                            col_max(rs.take(i as int), k)
                        },
                    ),
            decreases row.len() - idx,
        {
            let w = byte_len(row[idx].as_str());
            if w > widths[idx] {
                widths.set(idx, w);
            }
            idx = idx + 1;
        }
        proof {
            assert forall|k: int| 0 <= k < widths@.len() implies widths@[k] as nat == max_nat(
                utf8_len(#[trigger] hs[k]),
                col_max(rs.take(i + 1), k),
            ) by {
                if k >= row@.len() {
                    assert(col_max(rs.take(i + 1), k) == col_max(rs.take(i as int), k));
                }
            }
        }
        i = i + 1;
    }
    assert(rs.take(rows@.len() as int) =~= rs);
    let ghost ws = widths@.map_values(|w: u128| w as nat);
    assert(ws =~= table_widths(hs, rs));
    let mut out = String::new();
    write_row(&mut out, headers, &widths);
    let mut dashes: Vec<String> = Vec::new();
    let mut k: usize = 0;
    while k < widths.len()
        invariant
            k <= widths@.len(),
            ws == widths@.map_values(|w: u128| w as nat),
            views(dashes@) == ws.map_values(|w: nat| repeat('-', w)).take(k as int),
        decreases widths.len() - k,
    {
        let d = repeat_char('-', widths[k]);
        let ghost before = views(dashes@);
        dashes.push(d);
        assert(views(dashes@) =~= ws.map_values(|w: nat| repeat('-', w)).take(k + 1)) by {
            assert(views(dashes@) =~= before.push(repeat('-', ws[k as int])));
        }
        k = k + 1;
    }
    assert(ws.map_values(|w: nat| repeat('-', w)).take(k as int) =~= ws.map_values(
        |w: nat| repeat('-', w),
    ));
    let sep = join_strings(&dashes, "-+-");
    push_str(&mut out, sep.as_str());
    push_str(&mut out, "\n");
    let ghost head = out@;
    let mut i: usize = 0;
    assert(rs.take(0) =~= Seq::<Seq<Seq<char>>>::empty());
    while i < rows.len()
        invariant
            i <= rows@.len(),
            rs == rows_view(rows@),
            widths@.len() == headers@.len(),
            ws == widths@.map_values(|w: u128| w as nat),
            forall|r: int| 0 <= r < rows@.len() ==> (#[trigger] rows@[r])@.len() <= headers@.len(),
            out@ == head + rows_text(rs.take(i as int), ws),
        decreases rows.len() - i,
    {
        write_row(&mut out, &rows[i], &widths);
        proof {
            assert(rs.take(i + 1).drop_last() =~= rs.take(i as int));
            assert(rs.take(i + 1).last() == views(rows@[i as int]@));
        }
        i = i + 1;
    }
    assert(rs.take(rows@.len() as int) =~= rs);
    out
}

// ---------------------------------------------------------------------------
// Commands
// ---------------------------------------------------------------------------

/// What the program does to carry out a command.
#[derive(Debug)]
pub enum Outcome {
    /// Open these URLs, in this order, stopping at the first failure.
    Open(Vec<String>),
    /// Print this text.
    Print(String),
    /// Write this text to the configuration file, then print the message.
    Write { text: String, message: String },
    /// Start the interactive view.
    Manage,
}

pub enum OutcomeView {
    Open(Seq<Seq<char>>),
    Print(Seq<char>),
    Write { text: Seq<char>, message: Seq<char> },
    Manage,
}

impl View for Outcome {
    type V = OutcomeView;

    open spec fn view(&self) -> OutcomeView {
        match self {
            Outcome::Open(urls) => OutcomeView::Open(views(urls@)),
            Outcome::Print(t) => OutcomeView::Print(t@),
            Outcome::Write { text, message } => OutcomeView::Write { text: text@, message: message@ },
            Outcome::Manage => OutcomeView::Manage,
        }
    }
}

pub open spec fn res_outcome(r: Result<Outcome, Error>) -> Result<OutcomeView, ErrorView> {
    match r {
        Ok(o) => Ok(o@),
        Err(e) => Err(e@),
    }
}

/// The URLs of some links, in order.
pub open spec fn urls_of(links: Seq<(Seq<char>, LinkEntryView)>) -> Seq<Seq<char>> {
    links.map_values(|l: (Seq<char>, LinkEntryView)| l.1.url)
}

/// What `open` does: the URLs of the links with a tag, or of the link with a name.
pub open spec fn spec_run_open(existing: Option<ConfigView>, name: Option<Seq<char>>, tag: Option<Seq<char>>, path: Seq<char>) -> Result<OutcomeView, ErrorView> {
    match existing {
        None => Err(ErrorView::NoConfigFile { path }),
        Some(c) => match tag {
            Some(t) => match spec_normalize_name(NameKind::Tag, t) {
                Err(e) => Err(e),
                Ok(nt) => if tagged(c.links, nt).len() == 0 {
                    Err(ErrorView::NoLinksForTag { tag: nt })
                } else {
                    Ok(OutcomeView::Open(urls_of(tagged(c.links, nt))))
                },
            },
            None => match name {
                None => Err(ErrorView::MissingName),
                Some(n) => match spec_normalize_name(NameKind::Alias, n) {
                    Err(e) => Err(e),
                    Ok(nn) => match spec_resolve(c.links, nn) {
                        Err(e) => Err(e),
                        Ok(None) => Err(ErrorView::NoLinkForAlias { alias: nn }),
                        Ok(Some(p)) => Ok(OutcomeView::Open(seq![map_get(c.links, p)->0.url])),
                    },
                },
            },
        },
    }
}

/// The cells `list` shows for a link.
pub open spec fn list_row(p: Seq<char>, e: LinkEntryView) -> Seq<Seq<char>> {
    seq![p, join(e.aliases, ", "@), join(e.tags, ", "@), e.url, or_empty(e.note)]
}

/// The rows `list` shows: every link, or those with the tag, in key order.
pub open spec fn list_rows(links: Seq<(Seq<char>, LinkEntryView)>, tag: Option<Seq<char>>) -> Seq<Seq<Seq<char>>>
    decreases links.len(),
{
    if links.len() == 0 {
        Seq::empty()
    } else {
        let r = list_rows(links.drop_last(), tag);
        let keep = match tag {
            Some(t) => links.last().1.tags.contains(t),
            None => true,
        };
        if keep {
            r.push(list_row(links.last().0, links.last().1))
        } else {
            r
        }
    }
}

pub open spec fn list_headers() -> Seq<Seq<char>> {
    seq!["PRIMARY"@, "ALIASES"@, "TAGS"@, "URL"@, "NOTE"@]
}

pub open spec fn no_file_text() -> Seq<char> {
    "No project links found yet. Add one with `plinks add <primary> <url>`.\n"@
}

pub open spec fn no_links_text() -> Seq<char> {
    "No links stored in project-links.toml.\n"@
}

/// What `list` prints.
pub open spec fn spec_run_list(existing: Option<ConfigView>, tag: Option<Seq<char>>) -> Result<OutcomeView, ErrorView> {
    match existing {
        None => Ok(OutcomeView::Print(no_file_text())),
        Some(c) => {
            let filter = match tag {
                Some(t) => match spec_normalize_name(NameKind::Tag, t) {
                    Err(e) => Err(e),
                    Ok(nt) => Ok(Some(nt)),
                },
                None => Ok(None),
            };
            match filter {
                Err(e) => Err(e),
                Ok(f) => {
                    let rows = list_rows(c.links, f);
                    if rows.len() == 0 {
                        match f {
                            Some(t) => Ok(OutcomeView::Print("No links found for tag '"@ + t + "'.\n"@)),
                            None => Ok(OutcomeView::Print(no_links_text())),
                        }
                    } else {
                        Ok(OutcomeView::Print(table_text(list_headers(), rows)))
                    }
                },
            }
        },
    }
}

/// What `add` does: the configuration with the link saved, written in canonical form.
pub open spec fn spec_run_add(existing: Option<ConfigView>, args: AddArgsView, path: Seq<char>) -> Result<OutcomeView, ErrorView> {
    let c = match existing {
        Some(c) => c,
        None => ConfigView { version: 1, links: Seq::empty() },
    };
    match spec_normalize_name(NameKind::Primary, args.primary) {
        Err(e) => Err(e),
        Ok(p) => match spec_candidate(p, args.url, args.aliases, args.tags, args.note) {
            Err(e) => Err(e),
            Ok(cand) => {
                let exists = find_key(c.links, p) >= 0;
                if exists && !args.force {
                    Err(ErrorView::PrimaryExistsUseForce { primary: p })
                } else {
                    let original = if args.force && exists {
                        Some(p)
                    } else {
                        None
                    };
                    match spec_save_link(c, original, cand) {
                        Err(e) => Err(e),
                        Ok(next) => match spec_config_normalize(next) {
                            Err(e) => Err(e),
                            Ok(n) => Ok(
                                OutcomeView::Write {
                                    text: canonical_text(n),
                                    message: "Saved link '"@ + p + "' to "@ + path + ".\n"@,
                                },
                            ),
                        },
                    }
                }
            },
        },
    }
}

/// What `remove` does: the configuration without the link, written in canonical form.
pub open spec fn spec_run_remove(existing: Option<ConfigView>, primary: Seq<char>, path: Seq<char>) -> Result<OutcomeView, ErrorView> {
    match existing {
        None => Err(ErrorView::NoConfigFile { path }),
        Some(c) => match spec_normalize_name(NameKind::Primary, primary) {
            Err(e) => Err(e),
            Ok(p) => if find_key(c.links, p) < 0 {
                Err(ErrorView::PrimaryNotFound { primary: p })
            } else {
                match spec_config_normalize(ConfigView { links: map_remove(c.links, p), ..c }) {
                    Err(e) => Err(e),
                    Ok(n) => Ok(
                        OutcomeView::Write {
                            text: canonical_text(n),
                            message: "Removed link '"@ + p + "'.\n"@,
                        },
                    ),
                }
            },
        },
    }
}

/// The arguments of `add`, as values.
pub struct AddArgsView {
    pub primary: Seq<char>,
    pub url: Seq<char>,
    pub aliases: Seq<Seq<char>>,
    pub tags: Seq<Seq<char>>,
    pub note: Option<Seq<char>>,
    pub force: bool,
}

pub open spec fn add_args_view(a: AddArgs) -> AddArgsView {
    AddArgsView {
        primary: a.primary@,
        url: a.url@,
        aliases: views(a.aliases@),
        tags: views(a.tags@),
        note: opt_view(a.note),
        force: a.force,
    }
}

/// What a command line does, given the configuration found (if any) and its path.
pub open spec fn spec_run(cli: Cli, existing: Option<ConfigView>, path: Seq<char>) -> Result<OutcomeView, ErrorView> {
    match cli.command {
        Some(Command::Open(a)) => spec_run_open(existing, opt_view(a.name), opt_view(a.tag), path),
        Some(Command::List(a)) => spec_run_list(existing, opt_view(a.tag)),
        Some(Command::Add(a)) => spec_run_add(existing, add_args_view(a), path),
        Some(Command::Remove(a)) => spec_run_remove(existing, a.primary@, path),
        Some(Command::Manage) | None => Ok(OutcomeView::Manage),
    }
}

pub open spec fn config_opt(c: Option<Config>) -> Option<ConfigView> {
    match c {
        Some(c) => Some(c@),
        None => None,
    }
}

fn quoted_line(before: &str, name: &str, after: &str) -> (r: String)
    ensures
        r@ == before@ + name@ + after@,
{
    let mut s = String::new();
    push_str(&mut s, before);
    push_str(&mut s, name);
    push_str(&mut s, after);
    assert(s@ =~= before@ + name@ + after@);
    s
}

fn run_open(args: OpenArgs, existing: Option<Config>, path: &str) -> (r: Result<Outcome, Error>)
    ensures
        res_outcome(r) == spec_run_open(config_opt(existing), opt_view(args.name), opt_view(args.tag), path@),
{
    let document = match existing {
        Some(d) => d,
        None => return Err(Error::NoConfigFile { path: path.to_owned() }),
    };
    if let Some(tag) = args.tag {
        let tag = normalize_tag(tag.as_str())?;
        let matches = links_for_tag(&document, tag.as_str());
        if matches.len() == 0 {
            return Err(Error::NoLinksForTag { tag });
        }
        let mut urls: Vec<String> = Vec::new();
        let mut i: usize = 0;
        while i < matches.len()
            invariant
                i <= matches@.len(),
                crate::lookup::resolved_views(matches@) == tagged(document@.links, tag@),
                views(urls@) == urls_of(tagged(document@.links, tag@)).take(i as int),
            decreases matches.len() - i,
        {
            let ghost before = views(urls@);
            let u = matches[i].entry.url.clone();
            urls.push(u);
            proof {
                assert(crate::lookup::resolved_views(matches@)[i as int] == matches@[i as int]@);
                assert(tagged(document@.links, tag@)[i as int].1.url == u@);
                assert(views(urls@) =~= before.push(u@));
                assert(views(urls@) =~= urls_of(tagged(document@.links, tag@)).take(i + 1));
            }
            i = i + 1;
        }
        assert(urls_of(tagged(document@.links, tag@)).take(i as int) =~= urls_of(
            tagged(document@.links, tag@),
        ));
        return Ok(Outcome::Open(urls));
    }
    let name = match args.name {
        Some(n) => n,
        None => return Err(Error::MissingName),
    };
    let name = normalize_alias(name.as_str())?;
    match resolve_alias(&document, name.as_str())? {
        Some(link) => {
            let mut urls: Vec<String> = Vec::new();
            urls.push(link.entry.url.clone());
            assert(views(urls@) =~= seq![link.entry.url@]);
            Ok(Outcome::Open(urls))
        },
        None => Err(Error::NoLinkForAlias { alias: name }),
    }
}

fn note_text(note: &Option<String>) -> (r: String)
    ensures
        r@ == or_empty(opt_view(*note)),
{
    match note {
        Some(n) => n.clone(),
        None => String::new(),
    }
}

fn list_headers_exec() -> (r: Vec<String>)
    ensures
        views(r@) == list_headers(),
{
    let mut h: Vec<String> = Vec::new();
    h.push("PRIMARY".to_owned());
    h.push("ALIASES".to_owned());
    h.push("TAGS".to_owned());
    h.push("URL".to_owned());
    h.push("NOTE".to_owned());
    assert(views(h@) =~= list_headers());
    h
}

fn run_list(args: ListArgs, existing: Option<Config>) -> (r: Result<Outcome, Error>)
    ensures
        res_outcome(r) == spec_run_list(config_opt(existing), opt_view(args.tag)),
{
    let document = match existing {
        Some(d) => d,
        None => {
            return Ok(
                Outcome::Print(
                    "No project links found yet. Add one with `plinks add <primary> <url>`.\n".to_owned(),
                ),
            );
        },
    };
    let filter_tag = match args.tag {
        Some(tag) => Some(normalize_tag(tag.as_str())?),
        None => None,
    };
    let ghost f = opt_view(filter_tag);
    let ghost ls = document@.links;
    let mut rows: Vec<Vec<String>> = Vec::new();
    let n = document.links.len();
    let mut i: usize = 0;
    assert(ls.take(0) =~= Seq::<(Seq<char>, LinkEntryView)>::empty());
    assert(rows_view(rows@) =~= Seq::<Seq<Seq<char>>>::empty());
    while i < n
        invariant
            n == ls.len(),
            ls == document@.links,
            f == opt_view(filter_tag),
            i <= n,
            rows_view(rows@) == list_rows(ls.take(i as int), f),
            forall|r: int| 0 <= r < rows@.len() ==> (#[trigger] rows@[r])@.len() == 5,
        decreases n - i,
    {
        let primary = document.links.key_at(i);
        let entry = document.links.value_at(i);
        proof {
            assert(ls.take(i + 1).drop_last() =~= ls.take(i as int));
            assert(ls.take(i + 1).last() == ls[i as int]);
        }
        let keep = match &filter_tag {
            Some(tag) => contains_str(&entry.tags, tag.as_str()),
            None => true,
        };
        if keep {
            let mut row: Vec<String> = Vec::new();
            row.push(primary.clone());
            row.push(join_strings(&entry.aliases, ", "));
            row.push(join_strings(&entry.tags, ", "));
            row.push(entry.url.clone());
            row.push(note_text(&entry.note));
            let ghost before = rows_view(rows@);
            assert(views(row@) =~= list_row(primary@, entry@));
            rows.push(row);
            assert(rows_view(rows@) =~= before.push(list_row(primary@, entry@)));
        }
        i = i + 1;
    }
    assert(ls.take(n as int) =~= ls);
    if rows.len() == 0 {
        return match filter_tag {
            Some(tag) => Ok(Outcome::Print(quoted_line("No links found for tag '", tag.as_str(), "'.\n"))),
            None => Ok(Outcome::Print("No links stored in project-links.toml.\n".to_owned())),
        };
    }
    let headers = list_headers_exec();
    Ok(Outcome::Print(render_table(&headers, &rows)))
}

fn run_add(args: AddArgs, existing: Option<Config>, path: &str) -> (r: Result<Outcome, Error>)
    ensures
        res_outcome(r) == spec_run_add(config_opt(existing), add_args_view(args), path@),
{
    let mut config = match existing {
        Some(c) => c,
        None => Config::default(),
    };
    let primary = normalize_primary(args.primary.as_str())?;
    proof {
        crate::normalize::lemma_normalize_name_valid(NameKind::Primary, args.primary@);
        crate::normalize::lemma_normalize_name_valid(NameKind::Primary, primary@);
    }
    let candidate = CandidateLink::new(primary.clone(), args.url, args.aliases, args.tags, args.note)?;
    let exists = config.links.contains_key(primary.as_str());
    if exists && !args.force {
        return Err(Error::PrimaryExistsUseForce { primary });
    }
    let original: Option<&str> = if args.force && exists {
        Some(primary.as_str())
    } else {
        None
    };
    config.save_link(original, candidate)?;
    let text = config_text(&config)?;
    let message = quoted_line("Saved link '", primary.as_str(), "' to ");
    let message = quoted_line(message.as_str(), path, ".\n");
    Ok(Outcome::Write { text, message })
}

fn run_remove(args: RemoveArgs, existing: Option<Config>, path: &str) -> (r: Result<Outcome, Error>)
    ensures
        res_outcome(r) == spec_run_remove(config_opt(existing), args.primary@, path@),
{
    let mut config = match existing {
        Some(c) => c,
        None => return Err(Error::NoConfigFile { path: path.to_owned() }),
    };
    let primary = normalize_primary(args.primary.as_str())?;
    proof {
        crate::str_map::lemma_find_key(config.links@, primary@);
    }
    if config.links.remove(primary.as_str()).is_none() {
        return Err(Error::PrimaryNotFound { primary });
    }
    let text = config_text(&config)?;
    let message = quoted_line("Removed link '", primary.as_str(), "'.\n");
    Ok(Outcome::Write { text, message })
}

/// What a command line does, given the configuration found at `path`, if any.
/// No command is the interactive view.
pub fn run(cli: Cli, existing: Option<Config>, path: &str) -> (r: Result<Outcome, Error>)
    ensures
        res_outcome(r) == spec_run(cli, config_opt(existing), path@),
{
    match cli.command {
        Some(Command::Open(args)) => run_open(args, existing, path),
        Some(Command::List(args)) => run_list(args, existing),
        Some(Command::Add(args)) => run_add(args, existing, path),
        Some(Command::Remove(args)) => run_remove(args, existing, path),
        Some(Command::Manage) | None => Ok(Outcome::Manage),
    }
}

} // verus!
