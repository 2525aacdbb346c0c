//! The configuration: links stored under primary names, with aliases, tags and a note.
use vstd::prelude::*;

use crate::error::{Error, ErrorView, NameKind};
use crate::foreign::{toml_display, toml_value_text, TomlValue, TomlValueView};
use crate::normalize::{
    normalize_aliases, normalize_note, normalize_tags, normalize_url, opt_view, res_str,
    spec_normalize_aliases, spec_normalize_name, spec_normalize_note, spec_normalize_tags,
    spec_normalize_url,
};
use crate::str_map::{
    entries_view, find_key, keys_sorted, lemma_find_key, map_get, map_insert, map_remove,
    Duplicate, StrMap,
};
use crate::text::{clone_strings, contains_str, push_char, push_str, views};

pub use crate::normalize::{normalize_alias, normalize_primary, normalize_tag};

verus! {

// ---------------------------------------------------------------------------
// Types and views
// ---------------------------------------------------------------------------

/// One link: where it points, the other names it answers to, its tags and a note.
#[derive(Debug, Clone, PartialEq, Eq)]
pub struct LinkEntry {
    pub url: String,
    pub aliases: Vec<String>,
    pub tags: Vec<String>,
    pub note: Option<String>,
}

pub struct LinkEntryView {
    pub url: Seq<char>,
    pub aliases: Seq<Seq<char>>,
    pub tags: Seq<Seq<char>>,
    pub note: Option<Seq<char>>,
}

impl View for LinkEntry {
    type V = LinkEntryView;

    open spec fn view(&self) -> LinkEntryView {
        LinkEntryView {
            url: self.url@,
            aliases: views(self.aliases@),
            tags: views(self.tags@),
            note: opt_view(self.note),
        }
    }
}

fn clone_note(note: &Option<String>) -> (r: Option<String>)
    ensures
        opt_view(r) == opt_view(*note),
{
    match note {
        Some(s) => Some(s.clone()),
        None => None,
    }
}

impl Duplicate for LinkEntry {
    fn duplicate(&self) -> (r: Self) {
        LinkEntry {
            url: self.url.clone(),
            aliases: clone_strings(&self.aliases),
            tags: clone_strings(&self.tags),
            note: clone_note(&self.note),
        }
    }
}

impl Default for LinkEntry {
    fn default() -> (r: Self)
        ensures
            r@ == (LinkEntryView {
                url: Seq::empty(),
                aliases: Seq::empty(),
                tags: Seq::empty(),
                note: None,
            }),
    {
        let r = LinkEntry { url: String::new(), aliases: Vec::new(), tags: Vec::new(), note: None };
        assert(r@.aliases =~= Seq::<Seq<char>>::empty());
        assert(r@.tags =~= Seq::<Seq<char>>::empty());
        r
    }
}

/// A link checked and normalized, ready to be saved under its primary name.
#[derive(Debug, Clone, PartialEq, Eq)]
pub struct CandidateLink {
    pub primary: String,
    pub entry: LinkEntry,
}

pub struct CandidateView {
    pub primary: Seq<char>,
    pub entry: LinkEntryView,
}

impl View for CandidateLink {
    type V = CandidateView;

    open spec fn view(&self) -> CandidateView {
        CandidateView { primary: self.primary@, entry: self.entry@ }
    }
}

/// The whole configuration: a format version and the links by primary name.
#[derive(Debug, PartialEq, Eq)]
pub struct Config {
    pub version: u32,
    pub links: StrMap<LinkEntry>,
}

pub struct ConfigView {
    pub version: u32,
    pub links: Seq<(Seq<char>, LinkEntryView)>,
}

impl View for Config {
    type V = ConfigView;

    open spec fn view(&self) -> ConfigView {
        ConfigView { version: self.version, links: self.links@ }
    }
}

impl Duplicate for Config {
    fn duplicate(&self) -> (r: Self) {
        Config { version: self.version, links: self.links.duplicate() }
    }
}

impl Clone for Config {
    fn clone(&self) -> (r: Self)
        ensures
            r@ == self@,
    {
        self.duplicate()
    }
}

/// A configuration together with the text it was read from.
#[derive(Debug, Clone)]
pub struct LoadedConfig {
    pub config: Config,
    pub raw: String,
}

/// The format version that this library reads and writes.
pub fn default_version() -> (v: u32)
    ensures
        v == 1,
{
    1
}

impl Default for Config {
    fn default() -> (r: Self)
        ensures
            r@ == (ConfigView { version: 1, links: Seq::empty() }),
    {
        Config { version: default_version(), links: StrMap::new() }
    }
}

// ---------------------------------------------------------------------------
// Specifications
// ---------------------------------------------------------------------------

pub open spec fn res_entry(r: Result<LinkEntry, Error>) -> Result<LinkEntryView, ErrorView> {
    match r {
        Ok(e) => Ok(e@),
        Err(e) => Err(e@),
    }
}

pub open spec fn res_candidate(r: Result<CandidateLink, Error>) -> Result<CandidateView, ErrorView> {
    match r {
        Ok(c) => Ok(c@),
        Err(e) => Err(e@),
    }
}

pub open spec fn res_config(r: Result<Config, Error>) -> Result<ConfigView, ErrorView> {
    match r {
        Ok(c) => Ok(c@),
        Err(e) => Err(e@),
    }
}

pub open spec fn res_unit(r: Result<(), Error>) -> Result<(), ErrorView> {
    match r {
        Ok(_) => Ok(()),
        Err(e) => Err(e@),
    }
}

/// A link entry normalized for the primary name `primary`, or why it is refused.
pub open spec fn spec_normalize_entry(e: LinkEntryView, primary: Seq<char>) -> Result<LinkEntryView, ErrorView> {
    match spec_normalize_url(e.url) {
        Err(x) => Err(x),
        Ok(url) => match spec_normalize_aliases(e.aliases) {
            Err(x) => Err(x),
            Ok(aliases) => if aliases.contains(primary) {
                Err(ErrorView::PrimaryInAliases { primary })
            } else {
                match spec_normalize_tags(e.tags) {
                    Err(x) => Err(x),
                    Ok(tags) => Ok(
                        LinkEntryView { url, aliases, tags, note: spec_normalize_note(e.note) },
                    ),
                }
            },
        },
    }
}

/// A candidate link built from raw parts, or why it is refused.
pub open spec fn spec_candidate(
    primary: Seq<char>,
    url: Seq<char>,
    aliases: Seq<Seq<char>>,
    tags: Seq<Seq<char>>,
    note: Option<Seq<char>>,
) -> Result<CandidateView, ErrorView> {
    match spec_normalize_name(NameKind::Primary, primary) {
        Err(x) => Err(x),
        Ok(p) => match spec_normalize_entry(LinkEntryView { url, aliases, tags, note }, p) {
            Err(x) => Err(x),
            Ok(entry) => Ok(CandidateView { primary: p, entry }),
        },
    }
}

/// The links with every primary name and entry normalized, in order; the first refusal stops.
pub open spec fn normalize_links(s: Seq<(Seq<char>, LinkEntryView)>) -> Result<Seq<(Seq<char>, LinkEntryView)>, ErrorView>
    decreases s.len(),
{
    if s.len() == 0 {
        Ok(Seq::empty())
    } else {
        match normalize_links(s.drop_last()) {
            Err(x) => Err(x),
            Ok(acc) => match spec_normalize_name(NameKind::Primary, s.last().0) {
                Err(x) => Err(x),
                Ok(p) => match spec_normalize_entry(s.last().1, p) {
                    Err(x) => Err(x),
                    Ok(e) => if find_key(acc, p) >= 0 {
                        Err(ErrorView::DuplicatePrimary { primary: p })
                    } else {
                        Ok(map_insert(acc, p, e))
                    },
                },
            },
        }
    }
}

/// The names one link claims, each with its owner: the primary name, then the aliases.
pub open spec fn entry_pairs(p: Seq<char>, aliases: Seq<Seq<char>>) -> Seq<(Seq<char>, Seq<char>)> {
    seq![(p, p)] + aliases.map_values(|a: Seq<char>| (a, p))
}

/// The names all links claim, in the order of the links.
pub open spec fn alias_pairs(links: Seq<(Seq<char>, LinkEntryView)>) -> Seq<(Seq<char>, Seq<char>)>
    decreases links.len(),
{
    if links.len() == 0 {
        Seq::empty()
    } else {
        alias_pairs(links.drop_last()) + entry_pairs(links.last().0, links.last().1.aliases)
    }
}

/// The index from name to owner, built in order; a name claimed a second time is refused,
/// naming the owner that claimed it first.
pub open spec fn index_fold(pairs: Seq<(Seq<char>, Seq<char>)>) -> Result<Seq<(Seq<char>, Seq<char>)>, ErrorView>
    decreases pairs.len(),
{
    if pairs.len() == 0 {
        Ok(Seq::empty())
    } else {
        match index_fold(pairs.drop_last()) {
            Err(x) => Err(x),
            Ok(acc) => {
                let a = pairs.last().0;
                let p = pairs.last().1;
                let i = find_key(acc, a);
                if i >= 0 {
                    Err(ErrorView::AliasInUse { alias: a, owner: acc[i].1 })
                } else {
                    Ok(map_insert(acc, a, p))
                }
            },
        }
    }
}

/// Whether no name is claimed twice among the links.
pub open spec fn namespace_ok(links: Seq<(Seq<char>, LinkEntryView)>) -> bool {
    index_fold(alias_pairs(links)) is Ok
}

/// The configuration checked and normalized, or why it is refused.
pub open spec fn spec_config_normalize(c: ConfigView) -> Result<ConfigView, ErrorView> {
    if c.version != 1 {
        Err(ErrorView::UnsupportedVersion { version: c.version })
    } else {
        match normalize_links(c.links) {
            Err(x) => Err(x),
            Ok(l) => match index_fold(alias_pairs(l)) {
                Err(x) => Err(x),
                Ok(_) => Ok(ConfigView { version: 1, links: l }),
            },
        }
    }
}

/// The links without the one to replace, or why it cannot be replaced.
pub open spec fn links_without(links: Seq<(Seq<char>, LinkEntryView)>, original: Option<Seq<char>>) -> Result<Seq<(Seq<char>, LinkEntryView)>, ErrorView> {
    match original {
        None => Ok(links),
        Some(o) => match spec_normalize_name(NameKind::Primary, o) {
            Err(x) => Err(x),
            Ok(op) => if find_key(links, op) >= 0 {
                Ok(map_remove(links, op))
            } else {
                Err(ErrorView::PrimaryNotFound { primary: op })
            },
        },
    }
}

/// The configuration after saving a candidate, replacing the link `original` if given.
pub open spec fn spec_save_link(c: ConfigView, original: Option<Seq<char>>, cand: CandidateView) -> Result<ConfigView, ErrorView> {
    match links_without(c.links, original) {
        Err(x) => Err(x),
        Ok(l1) => if find_key(l1, cand.primary) >= 0 {
            Err(ErrorView::PrimaryExists { primary: cand.primary })
        } else {
            let l2 = map_insert(l1, cand.primary, cand.entry);
            match index_fold(alias_pairs(l2)) {
                Err(x) => Err(x),
                Ok(_) => Ok(ConfigView { version: c.version, links: l2 }),
            }
        },
    }
}

/// A `key = value` line, the value already written as TOML.
pub open spec fn key_line(lead: Seq<char>, text: Seq<char>) -> Seq<char> {
    lead + text + "\n"@
}

/// A line for an optional value: none when there is no value.
pub open spec fn opt_line(lead: Seq<char>, text: Option<Seq<char>>) -> Seq<char> {
    match text {
        Some(t) => key_line(lead, t),
        None => Seq::empty(),
    }
}

/// The section of a link, its values already written as TOML.
pub open spec fn section_frame(
    p: Seq<char>,
    url: Seq<char>,
    aliases: Option<Seq<char>>,
    tags: Option<Seq<char>>,
    note: Option<Seq<char>>,
) -> Seq<char> {
    "\n[links."@ + p + "]\n"@ + key_line("url = "@, url) + opt_line("aliases = "@, aliases)
        + opt_line("tags = "@, tags) + opt_line("note = "@, note)
}

/// The TOML text of a list of names, written only when the list is not empty.
pub open spec fn list_value(items: Seq<Seq<char>>) -> Option<Seq<char>> {
    if items.len() > 0 {
        Some(toml_display(TomlValueView::StrArray(items)))
    } else {
        None
    }
}

/// The section that describes one link.
pub open spec fn toml_section(p: Seq<char>, e: LinkEntryView) -> Seq<char> {
    section_frame(
        p,
        toml_display(TomlValueView::Str(e.url)),
        list_value(e.aliases),
        list_value(e.tags),
        match e.note {
            Some(n) => Some(toml_display(TomlValueView::Str(n))),
            None => None,
        },
    )
}

/// The sections of all links, in order.
pub open spec fn toml_sections(links: Seq<(Seq<char>, LinkEntryView)>) -> Seq<char>
    decreases links.len(),
{
    if links.len() == 0 {
        Seq::empty()
    } else {
        toml_sections(links.drop_last()) + toml_section(links.last().0, links.last().1)
    }
}

/// The canonical text of a configuration.
pub open spec fn canonical_text(c: ConfigView) -> Seq<char> {
    "version = 1\n\n[links]\n"@ + toml_sections(c.links)
}

// ---------------------------------------------------------------------------
// Lemmas
// ---------------------------------------------------------------------------

pub proof fn lemma_normalize_links_err(s: Seq<(Seq<char>, LinkEntryView)>, t: Seq<(Seq<char>, LinkEntryView)>)
    requires
        normalize_links(s) is Err,
    ensures
        normalize_links(s + t) == normalize_links(s),
    decreases t.len(),
{
    if t.len() == 0 {
        assert(s + t =~= s);
    } else {
        lemma_normalize_links_err(s, t.drop_last());
        assert((s + t).drop_last() =~= s + t.drop_last());
    }
}

pub proof fn lemma_index_fold_err(s: Seq<(Seq<char>, Seq<char>)>, t: Seq<(Seq<char>, Seq<char>)>)
    requires
        index_fold(s) is Err,
    ensures
        index_fold(s + t) == index_fold(s),
    decreases t.len(),
{
    if t.len() == 0 {
        assert(s + t =~= s);
    } else {
        lemma_index_fold_err(s, t.drop_last());
        assert((s + t).drop_last() =~= s + t.drop_last());
    }
}

pub proof fn lemma_alias_pairs_add(a: Seq<(Seq<char>, LinkEntryView)>, b: Seq<(Seq<char>, LinkEntryView)>)
    ensures
        alias_pairs(a + b) == alias_pairs(a) + alias_pairs(b),
    decreases b.len(),
{
    if b.len() == 0 {
        assert(a + b =~= a);
        assert(alias_pairs(a) + alias_pairs(b) =~= alias_pairs(a));
    } else {
        lemma_alias_pairs_add(a, b.drop_last());
        assert((a + b).drop_last() =~= a + b.drop_last());
        assert((a + b).last() == b.last());
        let e = entry_pairs(b.last().0, b.last().1.aliases);
        assert(alias_pairs(a) + alias_pairs(b.drop_last()) + e =~= alias_pairs(a) + (alias_pairs(
            b.drop_last(),
        ) + e));
    }
}

pub proof fn lemma_alias_pairs_take(ls: Seq<(Seq<char>, LinkEntryView)>, i: int)
    requires
        0 <= i < ls.len(),
    ensures
        alias_pairs(ls.take(i + 1)) == alias_pairs(ls.take(i)) + entry_pairs(ls[i].0, ls[i].1.aliases),
{
    assert(ls.take(i + 1).drop_last() =~= ls.take(i));
    assert(ls.take(i + 1).last() == ls[i]);
}

/// A refusal met while walking the names of link `i` is the refusal of the whole walk.
pub proof fn lemma_pairs_prefix_err(ls: Seq<(Seq<char>, LinkEntryView)>, i: int, k: int)
    requires
        0 <= i < ls.len(),
        0 <= k <= entry_pairs(ls[i].0, ls[i].1.aliases).len(),
        index_fold(alias_pairs(ls.take(i)) + entry_pairs(ls[i].0, ls[i].1.aliases).take(k)) is Err,
    ensures
        index_fold(alias_pairs(ls)) == index_fold(
            alias_pairs(ls.take(i)) + entry_pairs(ls[i].0, ls[i].1.aliases).take(k),
        ),
{
    let e = entry_pairs(ls[i].0, ls[i].1.aliases);
    let d = alias_pairs(ls.take(i)) + e.take(k);
    lemma_alias_pairs_take(ls, i);
    assert(ls =~= ls.take(i + 1) + ls.skip(i + 1));
    lemma_alias_pairs_add(ls.take(i + 1), ls.skip(i + 1));
    let rest = e.skip(k) + alias_pairs(ls.skip(i + 1));
    assert(alias_pairs(ls) =~= d + rest);
    lemma_index_fold_err(d, rest);
}

// ---------------------------------------------------------------------------
// Executable functions
// ---------------------------------------------------------------------------

impl LinkEntry {
    /// The entry with its URL, aliases, tags and note normalized, for the link named `primary`.
    pub fn validate_and_normalize(self, primary: &str) -> (r: Result<Self, Error>)
        ensures
            res_entry(r) == spec_normalize_entry(self@, primary@),
    {
        let url = normalize_url(self.url.as_str())?;
        let aliases = normalize_aliases(&self.aliases)?;
        if contains_str(&aliases, primary) {
            return Err(Error::PrimaryInAliases { primary: primary.to_owned() });
        }
        let tags = normalize_tags(&self.tags)?;
        let note = normalize_note(self.note);
        Ok(LinkEntry { url, aliases, tags, note })
    }
}

impl CandidateLink {
    /// A link built from raw parts: every part normalized, or why the link is refused.
    pub fn new(
        primary: String,
        url: String,
        aliases: Vec<String>,
        tags: Vec<String>,
        note: Option<String>,
    ) -> (r: Result<Self, Error>)
        ensures
            res_candidate(r) == spec_candidate(
                primary@,
                url@,
                views(aliases@),
                views(tags@),
                opt_view(note),
            ),
    {
        let primary = normalize_primary(primary.as_str())?;
        let entry = LinkEntry { url, aliases, tags, note };
        let entry = entry.validate_and_normalize(primary.as_str())?;
        Ok(CandidateLink { primary, entry })
    }
}

/// The links with every primary name and entry normalized, in order.
fn normalize_entries(entries: Vec<(String, LinkEntry)>) -> (r: Result<StrMap<LinkEntry>, Error>)
    ensures
        match normalize_links(entries_view(entries@)) {
            Ok(l) => r matches Ok(m) && m@ == l,
            Err(e) => r matches Err(x) && x@ == e,
        },
{
    let ghost orig = entries_view(entries@);
    let mut entries = entries;
    let mut normalized: StrMap<LinkEntry> = StrMap::new();
    let ghost mut i: int = 0;
    assert(orig.take(0) =~= Seq::<(Seq<char>, LinkEntryView)>::empty());
    assert(orig.skip(0) =~= orig);
    #[verifier::loop_isolation(false)]
    while entries.len() > 0
        invariant
            0 <= i <= orig.len(),
            entries_view(entries@) == orig.skip(i),
            entries@.len() == orig.len() - i,
            normalize_links(orig.take(i)) == Ok::<Seq<(Seq<char>, LinkEntryView)>, ErrorView>(
                normalized@,
            ),
        decreases entries.len(),
    {
        let ghost pre = orig.take(i);
        proof {
            assert(orig.take(i + 1).drop_last() =~= pre);
            assert(orig.take(i + 1).last() == orig[i]);
            assert(entries_view(entries@)[0] == orig[i]);
            assert(orig.take(i + 1) + orig.skip(i + 1) =~= orig);
        }
        let ghost first = entries@[0];
        let ghost old_entries = entries@;
        assert((first.0@, first.1@) == orig[i]);
        let (raw_primary, raw_entry) = entries.remove(0);
        assert(entries@ == old_entries.remove(0));
        assert forall|k: int| 0 <= k < entries@.len() implies entries_view(entries@)[k] == orig.skip(i + 1)[k] by {
            assert(entries@[k] == old_entries[k + 1]);
            assert(entries_view(old_entries)[k + 1] == orig.skip(i)[k + 1]);
        }
        assert(raw_primary@ == orig[i].0 && raw_entry@ == orig[i].1);
        let primary = match normalize_primary(raw_primary.as_str()) {
            Ok(p) => p,
            Err(e) => {
                proof {
                    lemma_normalize_links_err(orig.take(i + 1), orig.skip(i + 1));
                }
                return Err(e);
            },
        };
        let entry = match raw_entry.validate_and_normalize(primary.as_str()) {
            Ok(en) => en,
            Err(e) => {
                proof {
                    lemma_normalize_links_err(orig.take(i + 1), orig.skip(i + 1));
                }
                return Err(e);
            },
        };
        if normalized.contains_key(primary.as_str()) {
            proof {
                lemma_normalize_links_err(orig.take(i + 1), orig.skip(i + 1));
            }
            return Err(Error::DuplicatePrimary { primary });
        }
        normalized.insert(primary, entry);
        proof {
            i = i + 1;
            assert(entries_view(entries@) =~= orig.skip(i));
        }
    }
    assert(orig.take(i) =~= orig);
    Ok(normalized)
}

/// Records that `alias` belongs to `primary`; refuses an alias that another name holds already.
fn insert_unique_alias(owners: &mut StrMap<String>, alias: &str, primary: &str) -> (r: Result<(), Error>)
    ensures
        final(owners)@ == map_insert(old(owners)@, alias@, primary@),
        match map_get(old(owners)@, alias@) {
            Some(existing) => r matches Err(e) && e@ == ErrorView::AliasInUse {
                alias: alias@,
                owner: existing,
            },
            None => r is Ok,
        },
{
    match owners.insert(alias.to_owned(), primary.to_owned()) {
        Some(existing) => Err(Error::AliasInUse { alias: alias.to_owned(), owner: existing }),
        None => Ok(()),
    }
}

/// The index from every name to the primary name of its link, built in key order;
/// a name claimed a second time is refused.
pub fn build_index(links: &StrMap<LinkEntry>) -> (r: Result<StrMap<String>, Error>)
    ensures
        match index_fold(alias_pairs(links@)) {
            Ok(acc) => r matches Ok(m) && m@ == acc,
            Err(e) => r matches Err(x) && x@ == e,
        },
{
    let ghost ls = links@;
    let mut owners: StrMap<String> = StrMap::new();
    let n = links.len();
    let mut i: usize = 0;
    assert(ls.take(0) =~= Seq::<(Seq<char>, LinkEntryView)>::empty());
    while i < n
        invariant
            n == ls.len(),
            ls == links@,
            i <= n,
            index_fold(alias_pairs(ls.take(i as int))) == Ok::<Seq<(Seq<char>, Seq<char>)>, ErrorView>(
                owners@,
            ),
        decreases n - i,
    {
        let primary = links.key_at(i);
        let entry = links.value_at(i);
        let ghost e = entry_pairs(ls[i as int].0, ls[i as int].1.aliases);
        let ghost base = alias_pairs(ls.take(i as int));
        proof {
            lemma_find_key(owners@, primary@);
            assert(e.take(1) =~= seq![(primary@, primary@)]);
            assert((base + e.take(1)).drop_last() =~= base);
            assert((base + e.take(1)).last() == (primary@, primary@));
        }
        let res = insert_unique_alias(&mut owners, primary.as_str(), primary.as_str());
        if let Err(x) = res {
            proof {
                lemma_pairs_prefix_err(ls, i as int, 1);
            }
            return Err(x);
        }
        let mut j: usize = 0;
        while j < entry.aliases.len()
            invariant
                n == ls.len(),
                ls == links@,
                i < n,
                e == entry_pairs(ls[i as int].0, ls[i as int].1.aliases),
                base == alias_pairs(ls.take(i as int)),
                entry@ == ls[i as int].1,
                primary@ == ls[i as int].0,
                j <= entry.aliases@.len(),
                index_fold(base + e.take(j + 1)) == Ok::<Seq<(Seq<char>, Seq<char>)>, ErrorView>(
                    owners@,
                ),
            decreases entry.aliases.len() - j,
        {
            let alias = entry.aliases[j].as_str();
            proof {
                lemma_find_key(owners@, alias@);
                assert(e[j + 1] == (alias@, primary@));
                assert((base + e.take(j + 2)).drop_last() =~= base + e.take(j + 1));
                assert((base + e.take(j + 2)).last() == (alias@, primary@));
            }
            let res = insert_unique_alias(&mut owners, alias, primary.as_str());
            if let Err(x) = res {
                proof {
                    lemma_pairs_prefix_err(ls, i as int, j + 2);
                }
                return Err(x);
            }
            j = j + 1;
        }
        proof {
            assert(e.take(j + 1) =~= e);
            lemma_alias_pairs_take(ls, i as int);
        }
        i = i + 1;
    }
    assert(ls.take(n as int) =~= ls);
    Ok(owners)
}

impl Config {
    /// Checks that no name is claimed by two links, or twice by one.
    pub fn validate_namespace(&self) -> (r: Result<(), Error>)
        ensures
            match index_fold(alias_pairs(self@.links)) {
                Ok(_) => r is Ok,
                Err(e) => r matches Err(x) && x@ == e,
            },
    {
        match build_index(&self.links) {
            Ok(_) => Ok(()),
            Err(e) => Err(e),
        }
    }

    /// The configuration with every link checked and normalized.
    pub fn validate_and_normalize(self) -> (r: Result<Self, Error>)
        ensures
            res_config(r) == spec_config_normalize(self@),
    {
        if self.version != 1 {
            return Err(Error::UnsupportedVersion { version: self.version });
        }
        let normalized = normalize_entries(self.links.into_entries())?;
        let normalized = Config { version: 1, links: normalized };
        match normalized.validate_namespace() {
            Ok(()) => Ok(normalized),
            Err(e) => Err(e),
        }
    }

    /// Saves a candidate link, replacing the link `original_primary` when given.
    /// On a refusal the configuration is left as it was.
    pub fn save_link(&mut self, original_primary: Option<&str>, candidate: CandidateLink) -> (r: Result<(), Error>)
        ensures
            match spec_save_link(
                old(self)@,
                match original_primary {
                    Some(o) => Some(o@),
                    None => None,
                },
                candidate@,
            ) {
                Ok(c) => r is Ok && final(self)@ == c,
                Err(e) => r matches Err(x) && x@ == e && final(self)@ == old(self)@,
            },
    {
        let mut next = self.duplicate();
        if let Some(original) = original_primary {
            let original = normalize_primary(original)?;
            proof {
                lemma_find_key(next.links@, original@);
            }
            if next.links.remove(original.as_str()).is_none() {
                return Err(Error::PrimaryNotFound { primary: original });
            }
        }
        if next.links.contains_key(candidate.primary.as_str()) {
            return Err(Error::PrimaryExists { primary: candidate.primary });
        }
        next.links.insert(candidate.primary, candidate.entry);
        next.validate_namespace()?;
        *self = next;
        Ok(())
    }

    /// The canonical TOML text of the configuration: links in key order, lists sorted.
    pub fn canonical_toml(&self) -> (r: String)
        ensures
            r@ == canonical_text(self@),
    {
        let ghost ls = self@.links;
        let mut out = String::new();
        push_str(&mut out, "version = 1\n\n[links]\n");
        let n = self.links.len();
        let mut i: usize = 0;
        assert(ls.take(0) =~= Seq::<(Seq<char>, LinkEntryView)>::empty());
        while i < n
            invariant
                n == ls.len(),
                ls == self@.links,
                i <= n,
                out@ == "version = 1\n\n[links]\n"@ + toml_sections(ls.take(i as int)),
            decreases n - i,
        {
            let primary = self.links.key_at(i);
            let entry = self.links.value_at(i);
            push_section(&mut out, primary.as_str(), entry);
            proof {
                assert(ls.take(i + 1).drop_last() =~= ls.take(i as int));
                assert(ls.take(i + 1).last() == ls[i as int]);
            }
            i = i + 1;
        }
        assert(ls.take(n as int) =~= ls);
        out
    }
}

/// The section of a link from its values already written as TOML.
pub fn section_text(
    primary: &str,
    url: &str,
    aliases: Option<&str>,
    tags: Option<&str>,
    note: Option<&str>,
) -> (r: String)
    ensures
        r@ == section_frame(primary@, url@, opt_str(aliases), opt_str(tags), opt_str(note)),
{
    let mut out = String::new();
    push_str(&mut out, "\n[links.");
    push_str(&mut out, primary);
    push_str(&mut out, "]\n");
    push_opt_line(&mut out, "url = ", Some(url));
    push_opt_line(&mut out, "aliases = ", aliases);
    push_opt_line(&mut out, "tags = ", tags);
    push_opt_line(&mut out, "note = ", note);
    assert(out@ =~= section_frame(primary@, url@, opt_str(aliases), opt_str(tags), opt_str(note)));
    out
}

/// The view of an optional text.
pub open spec fn opt_str(t: Option<&str>) -> Option<Seq<char>> {
    match t {
        Some(s) => Some(s@),
        None => None,
    }
}

fn push_opt_line(out: &mut String, lead: &str, text: Option<&str>)
    ensures
        final(out)@ == old(out)@ + opt_line(lead@, opt_str(text)),
{
    if let Some(t) = text {
        push_str(out, lead);
        push_str(out, t);
        push_str(out, "\n");
    }
    assert(final(out)@ =~= old(out)@ + opt_line(lead@, opt_str(text)));
}

/// The TOML text of a list of names, when it is not empty.
fn list_text(items: &Vec<String>) -> (r: Option<String>)
    ensures
        opt_view(r) == list_value(views(items@)),
{
    if items.len() > 0 {
        Some(toml_value_text(&TomlValue::StrArray(clone_strings(items))))
    } else {
        None
    }
}

/// Appends the section that describes one link.
fn push_section(out: &mut String, primary: &str, entry: &LinkEntry)
    ensures
        final(out)@ == old(out)@ + toml_section(primary@, entry@),
{
    let url = toml_value_text(&TomlValue::Str(entry.url.clone()));
    let aliases = list_text(&entry.aliases);
    let tags = list_text(&entry.tags);
    let note = match &entry.note {
        Some(n) => Some(toml_value_text(&TomlValue::Str(n.clone()))),
        None => None,
    };
    let section = section_text(
        primary,
        url.as_str(),
        as_opt_str(&aliases),
        as_opt_str(&tags),
        as_opt_str(&note),
    );
    push_str(out, section.as_str());
}

fn as_opt_str(t: &Option<String>) -> (r: Option<&str>)
    ensures
        opt_str(r) == opt_view(*t),
{
    match t {
        Some(s) => Some(s.as_str()),
        None => None,
    }
}

/// The text to write for a configuration: checked, normalized, then in canonical form.
pub fn config_text(config: &Config) -> (r: Result<String, Error>)
    ensures
        match spec_config_normalize(config@) {
            Ok(c) => r matches Ok(t) && t@ == canonical_text(c),
            Err(e) => r matches Err(x) && x@ == e,
        },
{
    let normalized = config.clone().validate_and_normalize()?;
    Ok(normalized.canonical_toml())
}

} // verus!
