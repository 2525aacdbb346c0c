//! The errors of the library and their messages.
use vstd::prelude::*;

use crate::foreign::{UrlError, UrlErrorKind};
use crate::text::{decimal, push_char, push_decimal, push_str};

verus! {

/// What a name stands for, as it appears in messages.
#[derive(Debug, Clone, Copy, PartialEq, Eq, Structural)]
pub enum NameKind {
    Primary,
    Alias,
    Tag,
}

pub open spec fn kind_label(k: NameKind) -> Seq<char> {
    match k {
        NameKind::Primary => "primary alias"@,
        NameKind::Alias => "alias"@,
        NameKind::Tag => "tag"@,
    }
}

/// Why an operation of the library was refused.
#[derive(Debug, PartialEq, Eq)]
pub enum Error {
    /// A name is empty after trimming.
    EmptyName { kind: NameKind },
    /// A name starts with something other than a lowercase letter or a digit.
    InvalidNameStart { kind: NameKind, value: String },
    /// A name holds a character other than lowercase letters, digits, `_` and `-`.
    InvalidNameChar { kind: NameKind, value: String, ch: char },
    /// An alias is listed twice for one link.
    DuplicateAlias { alias: String },
    /// A link lists its own primary name among its aliases.
    PrimaryInAliases { primary: String },
    /// The URL parser refused a URL.
    InvalidUrl { url: String, cause: UrlError },
    /// A parsed URL has no scheme.
    MissingScheme { url: String },
    /// The configuration declares a version other than 1.
    UnsupportedVersion { version: u32 },
    /// Two entries have the same primary name after normalization.
    DuplicatePrimary { primary: String },
    /// A name is already used by another link.
    AliasInUse { alias: String, owner: String },
    /// A link with this primary name exists already.
    PrimaryExists { primary: String },
    /// No link has this primary name.
    PrimaryNotFound { primary: String },
    /// No configuration file was found where one is needed.
    NoConfigFile { path: String },
    /// No link carries the tag.
    NoLinksForTag { tag: String },
    /// Neither a name nor a tag was given to open.
    MissingName,
    /// No link answers to the name.
    NoLinkForAlias { alias: String },
    /// Adding a link whose primary name exists, without `--force`.
    PrimaryExistsUseForce { primary: String },
    /// The interactive view has no selected link.
    NoLinkSelected,
    /// The selected link is not in the configuration any more.
    SelectedLinkMissing,
    /// The file changed since it was read.
    ChangedOnDisk,
    /// A link to delete is not in the configuration any more.
    PrimaryGone { primary: String },
}

/// The mathematical content of an error.
pub enum ErrorView {
    EmptyName { kind: NameKind },
    InvalidNameStart { kind: NameKind, value: Seq<char> },
    InvalidNameChar { kind: NameKind, value: Seq<char>, ch: char },
    DuplicateAlias { alias: Seq<char> },
    PrimaryInAliases { primary: Seq<char> },
    InvalidUrl { url: Seq<char>, reason: UrlErrorKind },
    MissingScheme { url: Seq<char> },
    UnsupportedVersion { version: u32 },
    DuplicatePrimary { primary: Seq<char> },
    AliasInUse { alias: Seq<char>, owner: Seq<char> },
    PrimaryExists { primary: Seq<char> },
    PrimaryNotFound { primary: Seq<char> },
    NoConfigFile { path: Seq<char> },
    NoLinksForTag { tag: Seq<char> },
    MissingName,
    NoLinkForAlias { alias: Seq<char> },
    PrimaryExistsUseForce { primary: Seq<char> },
    NoLinkSelected,
    SelectedLinkMissing,
    ChangedOnDisk,
    PrimaryGone { primary: Seq<char> },
}

impl View for Error {
    type V = ErrorView;

    open spec fn view(&self) -> ErrorView {
        match self {
            Error::EmptyName { kind } => ErrorView::EmptyName { kind: *kind },
            Error::InvalidNameStart { kind, value } => ErrorView::InvalidNameStart {
                kind: *kind,
                value: value@,
            },
            Error::InvalidNameChar { kind, value, ch } => ErrorView::InvalidNameChar {
                kind: *kind,
                value: value@,
                ch: *ch,
            },
            Error::DuplicateAlias { alias } => ErrorView::DuplicateAlias { alias: alias@ },
            Error::PrimaryInAliases { primary } => ErrorView::PrimaryInAliases { primary: primary@ },
            Error::InvalidUrl { url, cause } => ErrorView::InvalidUrl { url: url@, reason: cause.kind },
            Error::MissingScheme { url } => ErrorView::MissingScheme { url: url@ },
            Error::UnsupportedVersion { version } => ErrorView::UnsupportedVersion {
                version: *version,
            },
            Error::DuplicatePrimary { primary } => ErrorView::DuplicatePrimary { primary: primary@ },
            Error::AliasInUse { alias, owner } => ErrorView::AliasInUse {
                alias: alias@,
                owner: owner@,
            },
            Error::PrimaryExists { primary } => ErrorView::PrimaryExists { primary: primary@ },
            Error::PrimaryNotFound { primary } => ErrorView::PrimaryNotFound { primary: primary@ },
            Error::NoConfigFile { path } => ErrorView::NoConfigFile { path: path@ },
            Error::NoLinksForTag { tag } => ErrorView::NoLinksForTag { tag: tag@ },
            Error::MissingName => ErrorView::MissingName,
            Error::NoLinkForAlias { alias } => ErrorView::NoLinkForAlias { alias: alias@ },
            Error::PrimaryExistsUseForce { primary } => ErrorView::PrimaryExistsUseForce {
                primary: primary@,
            },
            Error::NoLinkSelected => ErrorView::NoLinkSelected,
            Error::SelectedLinkMissing => ErrorView::SelectedLinkMissing,
            Error::ChangedOnDisk => ErrorView::ChangedOnDisk,
            Error::PrimaryGone { primary } => ErrorView::PrimaryGone { primary: primary@ },
        }
    }
}

/// `'` + s + `'`
pub open spec fn quoted(s: Seq<char>) -> Seq<char> {
    "'"@ + s + "'"@
}

/// The text that describes an error.
pub open spec fn message_of(e: ErrorView) -> Seq<char> {
    match e {
        ErrorView::EmptyName { kind } => kind_label(kind) + " cannot be empty"@,
        ErrorView::InvalidNameStart { kind, value } => kind_label(kind) + " "@ + quoted(value)
            + " must start with a letter or number"@,
        ErrorView::InvalidNameChar { kind, value, ch } => kind_label(kind) + " "@ + quoted(value)
            + " contains invalid character "@ + quoted(seq![ch]),
        ErrorView::DuplicateAlias { alias } => "duplicate alias "@ + quoted(alias),
        ErrorView::PrimaryInAliases { primary } => "primary alias "@ + quoted(primary)
            + " cannot also appear in aliases"@,
        ErrorView::InvalidUrl { url, .. } => "invalid URL "@ + quoted(url),
        ErrorView::MissingScheme { url } => "invalid URL "@ + quoted(url) + ": missing scheme"@,
        ErrorView::UnsupportedVersion { version } => "unsupported config version "@ + decimal(
            version as nat,
        ) + "; expected 1"@,
        ErrorView::DuplicatePrimary { primary } => "primary alias "@ + quoted(primary)
            + " is duplicated"@,
        ErrorView::AliasInUse { alias, owner } => "alias "@ + quoted(alias)
            + " is already used by primary alias "@ + quoted(owner),
        ErrorView::PrimaryExists { primary } => "primary alias "@ + quoted(primary)
            + " already exists"@,
        ErrorView::PrimaryNotFound { primary } => "primary alias "@ + quoted(primary)
            + " does not exist"@,
        ErrorView::NoConfigFile { path } => "no config file found at "@ + path,
        ErrorView::NoLinksForTag { tag } => "no links found for tag "@ + quoted(tag),
        ErrorView::MissingName => "missing link name"@,
        ErrorView::NoLinkForAlias { alias } => "no link found for alias "@ + quoted(alias),
        ErrorView::PrimaryExistsUseForce { primary } => "primary alias "@ + quoted(primary)
            + " already exists; pass --force to replace it"@,
        ErrorView::NoLinkSelected => "no link selected"@,
        ErrorView::SelectedLinkMissing => "selected link no longer exists"@,
        ErrorView::ChangedOnDisk => "config changed on disk; reloaded current contents"@,
        ErrorView::PrimaryGone { primary } => "primary alias "@ + quoted(primary)
            + " no longer exists"@,
    }
}

fn push_kind(s: &mut String, kind: NameKind)
    ensures
        final(s)@ == old(s)@ + kind_label(kind),
{
    match kind {
        NameKind::Primary => push_str(s, "primary alias"),
        NameKind::Alias => push_str(s, "alias"),
        NameKind::Tag => push_str(s, "tag"),
    }
}

fn push_quoted(s: &mut String, t: &str)
    ensures
        final(s)@ == old(s)@ + quoted(t@),
{
    push_str(s, "'");
    push_str(s, t);
    push_str(s, "'");
    assert(final(s)@ =~= old(s)@ + quoted(t@));
}

impl NameKind {
    /// The word for this kind of name, as messages use it.
    pub fn label(self) -> (r: &'static str)
        ensures
            r@ == kind_label(self),
    {
        match self {
            NameKind::Primary => "primary alias",
            NameKind::Alias => "alias",
            NameKind::Tag => "tag",
        }
    }
}

impl Error {
    /// The text that describes this error.
    pub fn message(&self) -> (r: String)
        ensures
            r@ == message_of(self@),
    {
        let mut s = String::new();
        match self {
            Error::EmptyName { kind } => {
                push_kind(&mut s, *kind);
                push_str(&mut s, " cannot be empty");
            },
            Error::InvalidNameStart { kind, value } => {
                push_kind(&mut s, *kind);
                push_str(&mut s, " ");
                push_quoted(&mut s, value.as_str());
                push_str(&mut s, " must start with a letter or number");
            },
            Error::InvalidNameChar { kind, value, ch } => {
                push_kind(&mut s, *kind);
                push_str(&mut s, " ");
                push_quoted(&mut s, value.as_str());
                push_str(&mut s, " contains invalid character ");
                push_str(&mut s, "'");
                push_char(&mut s, *ch);
                push_str(&mut s, "'");
            },
            Error::DuplicateAlias { alias } => {
                push_str(&mut s, "duplicate alias ");
                push_quoted(&mut s, alias.as_str());
            },
            Error::PrimaryInAliases { primary } => {
                push_str(&mut s, "primary alias ");
                push_quoted(&mut s, primary.as_str());
                push_str(&mut s, " cannot also appear in aliases");
            },
            Error::InvalidUrl { url, cause } => {
                push_str(&mut s, "invalid URL ");
                push_quoted(&mut s, url.as_str());
            },
            Error::MissingScheme { url } => {
                push_str(&mut s, "invalid URL ");
                push_quoted(&mut s, url.as_str());
                push_str(&mut s, ": missing scheme");
            },
            Error::UnsupportedVersion { version } => {
                push_str(&mut s, "unsupported config version ");
                push_decimal(&mut s, *version);
                push_str(&mut s, "; expected 1");
            },
            Error::DuplicatePrimary { primary } => {
                push_str(&mut s, "primary alias ");
                push_quoted(&mut s, primary.as_str());
                push_str(&mut s, " is duplicated");
            },
            Error::AliasInUse { alias, owner } => {
                push_str(&mut s, "alias ");
                push_quoted(&mut s, alias.as_str());
                push_str(&mut s, " is already used by primary alias ");
                push_quoted(&mut s, owner.as_str());
            },
            Error::PrimaryExists { primary } => {
                push_str(&mut s, "primary alias ");
                push_quoted(&mut s, primary.as_str());
                push_str(&mut s, " already exists");
            },
            Error::PrimaryNotFound { primary } => {
                push_str(&mut s, "primary alias ");
                push_quoted(&mut s, primary.as_str());
                push_str(&mut s, " does not exist");
            },
            Error::NoConfigFile { path } => {
                push_str(&mut s, "no config file found at ");
                push_str(&mut s, path.as_str());
            },
            Error::NoLinksForTag { tag } => {
                push_str(&mut s, "no links found for tag ");
                push_quoted(&mut s, tag.as_str());
            },
            Error::MissingName => {
                push_str(&mut s, "missing link name");
            },
            Error::NoLinkForAlias { alias } => {
                push_str(&mut s, "no link found for alias ");
                push_quoted(&mut s, alias.as_str());
            },
            Error::PrimaryExistsUseForce { primary } => {
                push_str(&mut s, "primary alias ");
                push_quoted(&mut s, primary.as_str());
                push_str(&mut s, " already exists; pass --force to replace it");
            },
            Error::NoLinkSelected => {
                push_str(&mut s, "no link selected");
            },
            Error::SelectedLinkMissing => {
                push_str(&mut s, "selected link no longer exists");
            },
            Error::ChangedOnDisk => {
                push_str(&mut s, "config changed on disk; reloaded current contents");
            },
            Error::PrimaryGone { primary } => {
                push_str(&mut s, "primary alias ");
                push_quoted(&mut s, primary.as_str());
                push_str(&mut s, " no longer exists");
            },
        }
        proof {
            assert(s@ =~= message_of(self@));
        }
        s
    }
}

} // verus!
