//! Finding links by name, alias or tag.
use vstd::prelude::*;

use crate::config::{
    alias_pairs, build_index, entry_pairs, index_fold, Config, LinkEntry, LinkEntryView,
};
use crate::error::{Error, ErrorView};
use crate::str_map::{
    find_key, keys_sorted, lemma_find_key, lemma_insert_sorted, lemma_map_get_index,
    lemma_map_insert_get, map_get, map_insert, StrMap,
};
use crate::text::{contains_str, views};

verus! {

/// The index from each name to the primary name of its link.
pub type AliasIndex = StrMap<String>;

/// A link found in a configuration: its primary name and its entry.
#[derive(Debug, Clone, Copy)]
pub struct ResolvedLink<'a> {
    pub primary: &'a str,
    pub entry: &'a LinkEntry,
}

impl<'a> View for ResolvedLink<'a> {
    type V = (Seq<char>, LinkEntryView);

    open spec fn view(&self) -> (Seq<char>, LinkEntryView) {
        (self.primary@, self.entry@)
    }
}

/// The views of found links.
pub open spec fn resolved_views<'a>(v: Seq<ResolvedLink<'a>>) -> Seq<(Seq<char>, LinkEntryView)> {
    v.map_values(|l: ResolvedLink<'a>| l@)
}

/// The links that carry `tag`, in key order.
pub open spec fn tagged(links: Seq<(Seq<char>, LinkEntryView)>, tag: Seq<char>) -> Seq<(Seq<char>, LinkEntryView)>
    decreases links.len(),
{
    if links.len() == 0 {
        Seq::empty()
    } else {
        let r = tagged(links.drop_last(), tag);
        if links.last().1.tags.contains(tag) {
            r.push(links.last())
        } else {
            r
        }
    }
}

/// The primary name that `alias` leads to, or why the configuration has no index.
pub open spec fn spec_resolve(links: Seq<(Seq<char>, LinkEntryView)>, alias: Seq<char>) -> Result<Option<Seq<char>>, ErrorView> {
    match index_fold(alias_pairs(links)) {
        Err(e) => Err(e),
        Ok(acc) => Ok(map_get(acc, alias)),
    }
}

// ---------------------------------------------------------------------------
// Lemmas
// ---------------------------------------------------------------------------

/// Every name claimed by the links is owned by one of the primary names.
pub proof fn lemma_alias_pairs_owner(links: Seq<(Seq<char>, LinkEntryView)>, k: int)
    requires
        0 <= k < alias_pairs(links).len(),
    ensures
        exists|i: int| 0 <= i < links.len() && alias_pairs(links)[k].1 == #[trigger] links[i].0,
    decreases links.len(),
{
    let t = links.drop_last();
    let e = entry_pairs(links.last().0, links.last().1.aliases);
    if k < alias_pairs(t).len() {
        lemma_alias_pairs_owner(t, k);
        let i = choose|i: int| 0 <= i < t.len() && alias_pairs(t)[k].1 == #[trigger] t[i].0;
        assert(links[i] == t[i]);
    } else {
        let j = k - alias_pairs(t).len();
        assert(alias_pairs(links)[k] == e[j]);
        assert(e[j].1 == links.last().0);
        assert(links[links.len() - 1] == links.last());
    }
}

/// A successful index maps every claimed name to its owner, and nothing else.
pub proof fn lemma_index_fold_ok(pairs: Seq<(Seq<char>, Seq<char>)>)
    requires
        index_fold(pairs) is Ok,
    ensures
        keys_sorted(index_fold(pairs)->Ok_0),
        forall|k: int|
            0 <= k < pairs.len() ==> map_get(index_fold(pairs)->Ok_0, #[trigger] pairs[k].0) == Some(
                pairs[k].1,
            ),
        forall|a: Seq<char>| #[trigger]
            map_get(index_fold(pairs)->Ok_0, a) is Some ==> exists|k: int|
                0 <= k < pairs.len() && pairs[k] == (a, map_get(index_fold(pairs)->Ok_0, a)->0),
    decreases pairs.len(),
{
    if pairs.len() == 0 {
        assert forall|a: Seq<char>| #[trigger]
            map_get(index_fold(pairs)->Ok_0, a) is Some implies false by {
            lemma_find_key(index_fold(pairs)->Ok_0, a);
        }
    } else {
        let t = pairs.drop_last();
        lemma_index_fold_ok(t);
        let acc = index_fold(t)->Ok_0;
        let a0 = pairs.last().0;
        let p0 = pairs.last().1;
        lemma_find_key(acc, a0);
        let r = map_insert(acc, a0, p0);
        assert(index_fold(pairs)->Ok_0 == r);
        lemma_insert_sorted(acc, a0, p0);
        assert forall|k: int| 0 <= k < pairs.len() implies map_get(r, #[trigger] pairs[k].0) == Some(
            pairs[k].1,
        ) by {
            lemma_map_insert_get(acc, a0, p0, pairs[k].0);
            if k < pairs.len() - 1 {
                assert(pairs[k] == t[k]);
                if pairs[k].0 == a0 {
                    // then `a0` would have been found in `acc`
                    lemma_find_key(acc, a0);
                }
            }
        }
        assert forall|a: Seq<char>| #[trigger] map_get(r, a) is Some implies exists|k: int|
            0 <= k < pairs.len() && pairs[k] == (a, map_get(r, a)->0) by {
            lemma_map_insert_get(acc, a0, p0, a);
            if a == a0 {
                assert(pairs[pairs.len() - 1] == (a, map_get(r, a)->0));
            } else {
                let k = choose|k: int| 0 <= k < t.len() && t[k] == (a, map_get(acc, a)->0);
                assert(pairs[k] == t[k]);
            }
        }
    }
}

// ---------------------------------------------------------------------------
// Executable functions
// ---------------------------------------------------------------------------

/// The index from every primary name and alias to the primary name of its link.
pub fn build_alias_index(config: &Config) -> (r: Result<AliasIndex, Error>)
    ensures
        match index_fold(alias_pairs(config@.links)) {
            Ok(acc) => r matches Ok(m) && m@ == acc,
            Err(e) => r matches Err(x) && x@ == e,
        },
{
    build_index(&config.links)
}

/// The link that answers to `alias`, matched exactly, as primary name or extra alias.
pub fn resolve_alias<'a>(config: &'a Config, alias: &str) -> (r: Result<Option<ResolvedLink<'a>>, Error>)
    ensures
        match spec_resolve(config@.links, alias@) {
            Err(e) => r matches Err(x) && x@ == e,
            Ok(None) => r matches Ok(None),
            Ok(Some(p)) => r matches Ok(Some(l)) && map_get(config@.links, p) is Some && l@ == (
                p,
                map_get(config@.links, p)->0,
            ),
        },
{
    let index = build_alias_index(config)?;
    let ghost ls = config@.links;
    proof {
        lemma_index_fold_ok(alias_pairs(ls));
    }
    let primary = match index.get(alias) {
        Some(p) => p,
        None => return Ok(None),
    };
    proof {
        let k = choose|k: int|
            0 <= k < alias_pairs(ls).len() && alias_pairs(ls)[k] == (alias@, primary@);
        lemma_alias_pairs_owner(ls, k);
        let i = choose|i: int| 0 <= i < ls.len() && alias_pairs(ls)[k].1 == #[trigger] ls[i].0;
        lemma_find_key(ls, primary@);
    }
    match config.links.get_key_value(primary.as_str()) {
        Some((p, entry)) => Ok(Some(ResolvedLink { primary: p.as_str(), entry })),
        None => {
            assert(false);
            Ok(None)
        },
    }
}

/// The links that carry `tag`, in key order.
pub fn links_for_tag<'a>(config: &'a Config, tag: &str) -> (r: Vec<ResolvedLink<'a>>)
    ensures
        resolved_views(r@) == tagged(config@.links, tag@),
{
    let ghost ls = config@.links;
    let mut out: Vec<ResolvedLink<'a>> = Vec::new();
    let n = config.links.len();
    let mut i: usize = 0;
    assert(ls.take(0) =~= Seq::<(Seq<char>, LinkEntryView)>::empty());
    assert(resolved_views(out@) =~= Seq::<(Seq<char>, LinkEntryView)>::empty());
    while i < n
        invariant
            n == ls.len(),
            ls == config@.links,
            i <= n,
            resolved_views(out@) == tagged(ls.take(i as int), tag@),
        decreases n - i,
    {
        let primary = config.links.key_at(i);
        let entry = config.links.value_at(i);
        let ghost before = resolved_views(out@);
        proof {
            assert(ls.take(i + 1).drop_last() =~= ls.take(i as int));
            assert(ls.take(i + 1).last() == ls[i as int]);
        }
        if contains_str(&entry.tags, tag) {
            out.push(ResolvedLink { primary: primary.as_str(), entry });
            assert(resolved_views(out@) =~= before.push(ls[i as int]));
        }
        i = i + 1;
    }
    assert(ls.take(n as int) =~= ls);
    out
}

} // verus!
