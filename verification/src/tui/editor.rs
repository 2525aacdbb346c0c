//! The form in which a link is created or edited.
use vstd::prelude::*;

use crate::config::{res_candidate, spec_candidate, CandidateLink, LinkEntry, LinkEntryView};
use crate::error::Error;
use crate::normalize::opt_view;
use crate::str_map::Duplicate;
use crate::text::{csv_items, join, join_strings, parse_csv, pop_char, push_char, views};

verus! {

/// A field of the form.
#[derive(Debug, Clone, Copy, PartialEq, Eq, Structural)]
pub enum Field {
    Primary,
    Url,
    Aliases,
    Tags,
    Note,
}

pub open spec fn spec_field_label(f: Field) -> Seq<char> {
    match f {
        Field::Primary => "Primary"@,
        Field::Url => "URL"@,
        Field::Aliases => "Aliases"@,
        Field::Tags => "Tags"@,
        Field::Note => "Note"@,
    }
}

/// The field after `f`, wrapping around.
pub open spec fn spec_next_field(f: Field) -> Field {
    match f {
        Field::Primary => Field::Url,
        Field::Url => Field::Aliases,
        Field::Aliases => Field::Tags,
        Field::Tags => Field::Note,
        Field::Note => Field::Primary,
    }
}

/// The field before `f`, wrapping around.
pub open spec fn spec_previous_field(f: Field) -> Field {
    match f {
        Field::Primary => Field::Note,
        Field::Url => Field::Primary,
        Field::Aliases => Field::Url,
        Field::Tags => Field::Aliases,
        Field::Note => Field::Tags,
    }
}

impl Field {
    /// Every field, in the order of the form.
    pub const ALL: [Field; 5] = [Field::Primary, Field::Url, Field::Aliases, Field::Tags, Field::Note];

    /// The title of the field.
    pub fn label(self) -> (r: &'static str)
        ensures
            r@ == spec_field_label(self),
    {
        match self {
            Field::Primary => "Primary",
            Field::Url => "URL",
            Field::Aliases => "Aliases",
            Field::Tags => "Tags",
            Field::Note => "Note",
        }
    }
}

/// The state of the form: what it was opened with, what it holds now, and the field in focus.
#[derive(Debug, Clone, PartialEq, Eq)]
pub struct EditorState {
    pub original_primary: Option<String>,
    pub original_url: Option<String>,
    pub original_aliases: Option<String>,
    pub original_tags: Option<String>,
    pub original_note: Option<String>,
    pub primary: String,
    pub url: String,
    pub aliases: String,
    pub tags: String,
    pub note: String,
    pub active_field: Field,
    pub error: Option<String>,
}

pub struct EditorView {
    pub original_primary: Option<Seq<char>>,
    pub original_url: Option<Seq<char>>,
    pub original_aliases: Option<Seq<char>>,
    pub original_tags: Option<Seq<char>>,
    pub original_note: Option<Seq<char>>,
    pub primary: Seq<char>,
    pub url: Seq<char>,
    pub aliases: Seq<char>,
    pub tags: Seq<char>,
    pub note: Seq<char>,
    pub active_field: Field,
    pub error: Option<Seq<char>>,
}

impl View for EditorState {
    type V = EditorView;

    open spec fn view(&self) -> EditorView {
        EditorView {
            original_primary: opt_view(self.original_primary),
            original_url: opt_view(self.original_url),
            original_aliases: opt_view(self.original_aliases),
            original_tags: opt_view(self.original_tags),
            original_note: opt_view(self.original_note),
            primary: self.primary@,
            url: self.url@,
            aliases: self.aliases@,
            tags: self.tags@,
            note: self.note@,
            active_field: self.active_field,
            error: opt_view(self.error),
        }
    }
}

/// The text of the field `f`.
pub open spec fn field_text(e: EditorView, f: Field) -> Seq<char> {
    match f {
        Field::Primary => e.primary,
        Field::Url => e.url,
        Field::Aliases => e.aliases,
        Field::Tags => e.tags,
        Field::Note => e.note,
    }
}

/// The form with the text of field `f` replaced.
pub open spec fn with_field_text(e: EditorView, f: Field, t: Seq<char>) -> EditorView {
    match f {
        Field::Primary => EditorView { primary: t, ..e },
        Field::Url => EditorView { url: t, ..e },
        Field::Aliases => EditorView { aliases: t, ..e },
        Field::Tags => EditorView { tags: t, ..e },
        Field::Note => EditorView { note: t, ..e },
    }
}

/// An optional text, or the empty text.
pub open spec fn or_empty(o: Option<Seq<char>>) -> Seq<char> {
    match o {
        Some(s) => s,
        None => Seq::empty(),
    }
}

/// Whether the form holds something other than what it was opened with.
pub open spec fn spec_is_dirty(e: EditorView) -> bool {
    match e.original_primary {
        Some(op) => e.primary != op || e.url != or_empty(e.original_url) || e.aliases != or_empty(
            e.original_aliases,
        ) || e.tags != or_empty(e.original_tags) || e.note != or_empty(e.original_note),
        None => e.primary.len() != 0 || e.url.len() != 0 || e.aliases.len() != 0 || e.tags.len()
            != 0 || e.note.len() != 0,
    }
}

/// The empty form, focused on the primary name.
pub open spec fn empty_editor() -> EditorView {
    EditorView {
        original_primary: None,
        original_url: None,
        original_aliases: None,
        original_tags: None,
        original_note: None,
        primary: Seq::empty(),
        url: Seq::empty(),
        aliases: Seq::empty(),
        tags: Seq::empty(),
        note: Seq::empty(),
        active_field: Field::Primary,
        error: None,
    }
}

/// The form opened on an existing link; lists are shown comma-separated.
pub open spec fn existing_editor(primary: Seq<char>, entry: LinkEntryView) -> EditorView {
    EditorView {
        original_primary: Some(primary),
        original_url: Some(entry.url),
        original_aliases: Some(join(entry.aliases, list_sep())),
        original_tags: Some(join(entry.tags, list_sep())),
        original_note: Some(or_empty(entry.note)),
        primary: primary,
        url: entry.url,
        aliases: join(entry.aliases, list_sep()),
        tags: join(entry.tags, list_sep()),
        note: or_empty(entry.note),
        active_field: Field::Primary,
        error: None,
    }
}

/// The separator between list items in the form.
pub open spec fn list_sep() -> Seq<char> {
    ", "@
}

fn clone_opt(o: &Option<String>) -> (r: Option<String>)
    ensures
        opt_view(r) == opt_view(*o),
{
    match o {
        Some(s) => Some(s.clone()),
        None => None,
    }
}

fn note_or_empty(note: &Option<String>) -> (r: String)
    ensures
        r@ == or_empty(opt_view(*note)),
{
    match note {
        Some(s) => s.clone(),
        None => String::new(),
    }
}

fn str_is_eq(a: &String, b: &String) -> (r: bool)
    ensures
        r == (a@ == b@),
{
    *a == *b
}

fn differs(s: &String, original: &Option<String>) -> (r: bool)
    ensures
        r == (s@ != or_empty(opt_view(*original))),
{
    let o = note_or_empty(original);
    !str_is_eq(s, &o)
}

impl Duplicate for EditorState {
    fn duplicate(&self) -> (r: Self) {
        EditorState {
            original_primary: clone_opt(&self.original_primary),
            original_url: clone_opt(&self.original_url),
            original_aliases: clone_opt(&self.original_aliases),
            original_tags: clone_opt(&self.original_tags),
            original_note: clone_opt(&self.original_note),
            primary: self.primary.clone(),
            url: self.url.clone(),
            aliases: self.aliases.clone(),
            tags: self.tags.clone(),
            note: self.note.clone(),
            active_field: self.active_field,
            error: clone_opt(&self.error),
        }
    }
}

impl EditorState {
    /// An empty form for a new link.
    pub fn new() -> (r: Self)
        ensures
            r@ == empty_editor(),
    {
        EditorState {
            original_primary: None,
            original_url: None,
            original_aliases: None,
            original_tags: None,
            original_note: None,
            primary: String::new(),
            url: String::new(),
            aliases: String::new(),
            tags: String::new(),
            note: String::new(),
            active_field: Field::Primary,
            error: None,
        }
    }

    /// A form holding an existing link; lists are shown comma-separated.
    pub fn from_existing(primary: &str, entry: &LinkEntry) -> (r: Self)
        ensures
            r@ == existing_editor(primary@, entry@),
    {
        EditorState {
            original_primary: Some(primary.to_owned()),
            original_url: Some(entry.url.clone()),
            original_aliases: Some(join_strings(&entry.aliases, ", ")),
            original_tags: Some(join_strings(&entry.tags, ", ")),
            original_note: Some(note_or_empty(&entry.note)),
            primary: primary.to_owned(),
            url: entry.url.clone(),
            aliases: join_strings(&entry.aliases, ", "),
            tags: join_strings(&entry.tags, ", "),
            note: note_or_empty(&entry.note),
            active_field: Field::Primary,
            error: None,
        }
    }

    /// Moves the focus to the next field, from the last back to the first.
    pub fn next_field(&mut self)
        ensures
            final(self)@ == (EditorView { active_field: spec_next_field(old(self)@.active_field), ..old(self)@ }),
    {
        self.active_field = match self.active_field {
            Field::Primary => Field::Url,
            Field::Url => Field::Aliases,
            Field::Aliases => Field::Tags,
            Field::Tags => Field::Note,
            Field::Note => Field::Primary,
        };
    }

    /// Moves the focus to the previous field, from the first back to the last.
    pub fn previous_field(&mut self)
        ensures
            final(self)@ == (EditorView {
                active_field: spec_previous_field(old(self)@.active_field),
                ..old(self)@
            }),
    {
        self.active_field = match self.active_field {
            Field::Primary => Field::Note,
            Field::Url => Field::Primary,
            Field::Aliases => Field::Url,
            Field::Tags => Field::Aliases,
            Field::Note => Field::Tags,
        };
    }

    /// The text of the field in focus, to change in place.
    fn active_string(&mut self) -> (r: &mut String)
        ensures
            *r == match old(self).active_field {
                Field::Primary => old(self).primary,
                Field::Url => old(self).url,
                Field::Aliases => old(self).aliases,
                Field::Tags => old(self).tags,
                Field::Note => old(self).note,
            },
            final(self)@ == with_field_text(old(self)@, old(self)@.active_field, (*final(r))@),
    {
        match self.active_field {
            Field::Primary => &mut self.primary,
            Field::Url => &mut self.url,
            Field::Aliases => &mut self.aliases,
            Field::Tags => &mut self.tags,
            Field::Note => &mut self.note,
        }
    }

    /// Types a character into the field in focus.
    pub fn insert_char(&mut self, ch: char)
        ensures
            final(self)@ == with_field_text(
                old(self)@,
                old(self)@.active_field,
                field_text(old(self)@, old(self)@.active_field).push(ch),
            ),
    {
        push_char(self.active_string(), ch);
    }

    /// Deletes the last character of the field in focus, if any.
    pub fn backspace(&mut self)
        ensures
            final(self)@ == with_field_text(
                old(self)@,
                old(self)@.active_field,
                if field_text(old(self)@, old(self)@.active_field).len() > 0 {
                    field_text(old(self)@, old(self)@.active_field).drop_last()
                } else {
                    field_text(old(self)@, old(self)@.active_field)
                },
            ),
    {
        let _ = pop_char(self.active_string());
    }

    /// Whether the form holds something other than what it was opened with.
    pub fn is_dirty(&self) -> (r: bool)
        ensures
            r == spec_is_dirty(self@),
    {
        match &self.original_primary {
            Some(original_primary) => {
                !str_is_eq(&self.primary, original_primary) || differs(&self.url, &self.original_url)
                    || differs(&self.aliases, &self.original_aliases) || differs(
                    &self.tags,
                    &self.original_tags,
                ) || differs(&self.note, &self.original_note)
            },
            None => {
                !self.primary.as_str().is_empty() || !self.url.as_str().is_empty()
                    || !self.aliases.as_str().is_empty() || !self.tags.as_str().is_empty()
                    || !self.note.as_str().is_empty()
            },
        }
    }

    /// The link the form describes: lists split at commas, every part normalized.
    pub fn build_candidate(&self) -> (r: Result<CandidateLink, Error>)
        ensures
            res_candidate(r) == spec_candidate(
                self@.primary,
                self@.url,
                csv_items(self@.aliases),
                csv_items(self@.tags),
                Some(self@.note),
            ),
    {
        CandidateLink::new(
            self.primary.clone(),
            self.url.clone(),
            parse_csv(self.aliases.as_str()),
            parse_csv(self.tags.as_str()),
            Some(self.note.clone()),
        )
    }
}

impl Default for EditorState {
    fn default() -> (r: Self)
        ensures
            r@ == empty_editor(),
    {
        Self::new()
    }
}

} // verus!
