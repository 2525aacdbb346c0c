//! Properties that hold across the operations of the library.
use vstd::prelude::*;

use crate::config::{
    canonical_text, alias_pairs, entry_pairs, index_fold, namespace_ok, normalize_links, spec_candidate,
    spec_config_normalize, spec_normalize_entry, spec_save_link, CandidateView, ConfigView,
    LinkEntryView, links_without,
};
use crate::error::{ErrorView, NameKind};
use crate::{spec_run_add, spec_run_open, spec_run_remove, AddArgsView, OutcomeView};
use crate::lookup::{lemma_alias_pairs_owner, lemma_index_fold_ok, spec_resolve, tagged};
use crate::project_root::{first_true, first_true_upto, spec_git_root, spec_resolve_config_path};
use crate::normalize::{
    lemma_normalize_name_valid, lemma_set_insert, lemma_sorted_pos, lemma_sorted_unique,
    lemma_valid_name_fixed, min_dup, name_char_ok, normalize_all, set_insert, sorted_pos,
    sorted_unique, spec_normalize_aliases, spec_normalize_name, spec_normalize_note,
    spec_normalize_tags, spec_normalize_url, strictly_sorted, valid_name,
};
use crate::str_map::{
    find_key, insert_pos, keys_sorted, lemma_find_key, lemma_insert_pos, lemma_insert_sorted,
    lemma_map_get_index, lemma_map_insert_get, lemma_map_remove_get, lemma_remove_sorted, map_get,
    map_insert, map_remove,
};
use crate::text::{
    csv_items, is_ws, join, lemma_lt_irreflexive, lemma_lt_total, lemma_lt_transitive,
    lemma_split_append, lemma_split_no_sep, non_empty, seq_lt, split_on, trim, trim_end,
    trim_start,
};
use crate::tui::events::{spec_handle_key, EventResultView, KeyCode, KeyEvent, KeyEventKind};
use crate::tui::state::{
    query_of, selected_index, selected_of, spec_ensure_selection, visible_of, AppView, ModeView,
};
use crate::tui::{spec_next_action, spec_plan_delete, spec_plan_edit, LoopActionView, PersistView};
use crate::tui::editor::{
    empty_editor, existing_editor, list_sep, or_empty, spec_is_dirty, spec_next_field,
    spec_previous_field, Field,
};

verus! {

// ---------------------------------------------------------------------------
// Trimming
// ---------------------------------------------------------------------------

proof fn lemma_trim_start_shape(s: Seq<char>)
    ensures
        trim_start(s).len() > 0 ==> !is_ws(trim_start(s)[0]),
        trim_start(s).len() <= s.len(),
        trim_start(s) == s.subrange(s.len() - trim_start(s).len(), s.len() as int),
    decreases s.len(),
{
    if s.len() > 0 && is_ws(s[0]) {
        lemma_trim_start_shape(s.drop_first());
        let t = trim_start(s.drop_first());
        assert(s.drop_first().subrange(s.len() - 1 - t.len(), s.len() - 1) =~= s.subrange(
            s.len() - t.len(),
            s.len() as int,
        ));
    } else {
        assert(s.subrange(0, s.len() as int) =~= s);
    }
}

proof fn lemma_trim_end_shape(s: Seq<char>)
    ensures
        trim_end(s).len() > 0 ==> !is_ws(trim_end(s).last()),
        trim_end(s).len() <= s.len(),
        trim_end(s) == s.subrange(0, trim_end(s).len() as int),
    decreases s.len(),
{
    if s.len() > 0 && is_ws(s.last()) {
        lemma_trim_end_shape(s.drop_last());
        let t = trim_end(s.drop_last());
        assert(s.drop_last().subrange(0, t.len() as int) =~= s.subrange(0, t.len() as int));
    } else {
        assert(s.subrange(0, s.len() as int) =~= s);
    }
}

/// Trimming twice is trimming once.
pub proof fn law_trim_idempotent(s: Seq<char>)
    ensures
        trim(trim(s)) == trim(s),
{
    let a = trim_start(s);
    let t = trim_end(a);
    lemma_trim_start_shape(s);
    lemma_trim_end_shape(a);
    if t.len() > 0 {
        assert(t[0] == a[0]);
        assert(trim_start(t) == t);
        assert(trim_end(t) == t);
    } else {
        assert(trim_start(t) == t);
        assert(trim_end(t) == t);
    }
}

// ---------------------------------------------------------------------------
// Names and lists of names
// ---------------------------------------------------------------------------

/// Normalizing a name gives a valid name (lowercase letters, digits, `_` and `-`, starting
/// with a letter or digit), and normalizing that again gives it back.
pub proof fn law_normalize_name_idempotent(kind: NameKind, v: Seq<char>)
    ensures
        spec_normalize_name(kind, v) matches Ok(n) ==> valid_name(n) && spec_normalize_name(kind, n)
            == Ok::<Seq<char>, ErrorView>(n),
{
    lemma_normalize_name_valid(kind, v);
    if spec_normalize_name(kind, v) is Ok {
        lemma_normalize_name_valid(kind, spec_normalize_name(kind, v)->Ok_0);
    }
}

proof fn lemma_normalize_all_valid(kind: NameKind, vals: Seq<Seq<char>>)
    requires
        forall|i: int| 0 <= i < vals.len() ==> valid_name(#[trigger] vals[i]),
    ensures
        normalize_all(kind, vals) == Ok::<Seq<Seq<char>>, ErrorView>(vals),
    decreases vals.len(),
{
    if vals.len() > 0 {
        let t = vals.drop_last();
        assert forall|i: int| 0 <= i < t.len() implies valid_name(#[trigger] t[i]) by {
            assert(t[i] == vals[i]);
        }
        lemma_normalize_all_valid(kind, t);
        assert(valid_name(vals[vals.len() - 1]));
        lemma_normalize_name_valid(kind, vals.last());
        assert(t.push(vals.last()) =~= vals);
    } else {
        assert(vals =~= Seq::<Seq<char>>::empty());
    }
}

proof fn lemma_normalize_all_gives_valid(kind: NameKind, vals: Seq<Seq<char>>)
    ensures
        normalize_all(kind, vals) matches Ok(ns) ==> forall|i: int|
            0 <= i < ns.len() ==> valid_name(#[trigger] ns[i]),
    decreases vals.len(),
{
    if vals.len() > 0 {
        lemma_normalize_all_gives_valid(kind, vals.drop_last());
        lemma_normalize_name_valid(kind, vals.last());
        if normalize_all(kind, vals) is Ok {
            let ns = normalize_all(kind, vals)->Ok_0;
            let r = normalize_all(kind, vals.drop_last())->Ok_0;
            assert forall|i: int| 0 <= i < ns.len() implies valid_name(#[trigger] ns[i]) by {
                if i < r.len() {
                    assert(ns[i] == r[i]);
                }
            }
        }
    }
}

proof fn lemma_strictly_sorted_drop_last(t: Seq<Seq<char>>)
    requires
        strictly_sorted(t),
        t.len() > 0,
    ensures
        strictly_sorted(t.drop_last()),
        !t.drop_last().contains(t.last()),
{
    let u = t.drop_last();
    assert forall|i: int, j: int| 0 <= i < j < u.len() implies seq_lt(#[trigger] u[i], #[trigger] u[j]) by {
        assert(u[i] == t[i] && u[j] == t[j]);
    }
    if u.contains(t.last()) {
        let k = choose|k: int| 0 <= k < u.len() && u[k] == t.last();
        assert(seq_lt(t[k], t[t.len() - 1]));
        lemma_lt_irreflexive(t.last());
    }
}

/// A strictly sorted list is its own sorted set.
proof fn lemma_sorted_unique_fixed(t: Seq<Seq<char>>)
    requires
        strictly_sorted(t),
    ensures
        sorted_unique(t) == t,
        min_dup(t) is None,
    decreases t.len(),
{
    if t.len() > 0 {
        let u = t.drop_last();
        lemma_strictly_sorted_drop_last(t);
        lemma_sorted_unique_fixed(u);
        lemma_sorted_pos(u, t.last());
        assert(sorted_pos(u, t.last()) == u.len()) by {
            if sorted_pos(u, t.last()) < u.len() {
                let p = sorted_pos(u, t.last());
                assert(u[p] == t[p]);
                assert(seq_lt(t[p], t[t.len() - 1]));
            }
        }
        assert(u.insert(u.len() as int, t.last()) =~= t);
    } else {
        assert(sorted_unique(t) =~= t);
    }
}

/// Normalized aliases and tags are strictly sorted lists of valid names, and normalizing them
/// again gives them back.
pub proof fn law_normalize_lists_idempotent(vals: Seq<Seq<char>>)
    ensures
        spec_normalize_aliases(vals) matches Ok(a) ==> strictly_sorted(a) && (forall|i: int|
            0 <= i < a.len() ==> valid_name(#[trigger] a[i])) && spec_normalize_aliases(a) == Ok::<
            Seq<Seq<char>>,
            ErrorView,
        >(a),
        spec_normalize_tags(vals) matches Ok(t) ==> strictly_sorted(t) && (forall|i: int|
            0 <= i < t.len() ==> valid_name(#[trigger] t[i])) && spec_normalize_tags(t) == Ok::<
            Seq<Seq<char>>,
            ErrorView,
        >(t),
{
    lemma_normalize_all_gives_valid(NameKind::Alias, vals);
    lemma_normalize_all_gives_valid(NameKind::Tag, vals);
    if normalize_all(NameKind::Alias, vals) is Ok {
        let ns = normalize_all(NameKind::Alias, vals)->Ok_0;
        lemma_sorted_unique(ns);
        let a = sorted_unique(ns);
        assert forall|i: int| 0 <= i < a.len() implies valid_name(#[trigger] a[i]) by {
            assert(a.contains(a[i]));
            let k = choose|k: int| 0 <= k < ns.len() && ns[k] == a[i];
        }
        lemma_normalize_all_valid(NameKind::Alias, a);
        lemma_sorted_unique_fixed(a);
    }
    if normalize_all(NameKind::Tag, vals) is Ok {
        let ns = normalize_all(NameKind::Tag, vals)->Ok_0;
        lemma_sorted_unique(ns);
        let t = sorted_unique(ns);
        assert forall|i: int| 0 <= i < t.len() implies valid_name(#[trigger] t[i]) by {
            assert(t.contains(t[i]));
            let k = choose|k: int| 0 <= k < ns.len() && ns[k] == t[i];
        }
        lemma_normalize_all_valid(NameKind::Tag, t);
        lemma_sorted_unique_fixed(t);
    }
}

/// A normalized link entry is normalized for its primary name: normalizing it again gives it
/// back.
pub proof fn law_normalize_entry_idempotent(e: LinkEntryView, p: Seq<char>)
    ensures
        spec_normalize_entry(e, p) matches Ok(n) ==> spec_normalize_entry(n, p) == Ok::<
            LinkEntryView,
            ErrorView,
        >(n),
{
    if spec_normalize_entry(e, p) is Ok {
        let n = spec_normalize_entry(e, p)->Ok_0;
        law_trim_idempotent(e.url);
        law_normalize_lists_idempotent(e.aliases);
        law_normalize_lists_idempotent(e.tags);
        match e.note {
            Some(v) => {
                law_trim_idempotent(v);
            },
            None => {},
        }
        assert(spec_normalize_url(n.url) == Ok::<Seq<char>, ErrorView>(n.url));
        assert(spec_normalize_note(n.note) == n.note);
    }
}

// ---------------------------------------------------------------------------
// Configurations
// ---------------------------------------------------------------------------

/// Links in key order, each under a valid name and normalized for it.
pub open spec fn normalized_links(l: Seq<(Seq<char>, LinkEntryView)>) -> bool {
    &&& keys_sorted(l)
    &&& forall|i: int|
        0 <= i < l.len() ==> valid_name(#[trigger] l[i].0) && spec_normalize_entry(l[i].1, l[i].0)
            == Ok::<LinkEntryView, ErrorView>(l[i].1)
}

proof fn lemma_map_insert_elements<V>(s: Seq<(Seq<char>, V)>, k: Seq<char>, v: V, i: int)
    requires
        keys_sorted(s),
        find_key(s, k) == -1,
        0 <= i < map_insert(s, k, v).len(),
    ensures
        map_insert(s, k, v)[i] == (k, v) || exists|j: int|
            0 <= j < s.len() && map_insert(s, k, v)[i] == #[trigger] s[j],
{
    lemma_insert_pos(s, k);
    let p = insert_pos(s, k);
    let r = map_insert(s, k, v);
    if i < p {
        assert(r[i] == s[i]);
    } else if i > p {
        assert(r[i] == s[i - 1]);
    }
}

proof fn lemma_normalize_links_normalized(s: Seq<(Seq<char>, LinkEntryView)>)
    ensures
        normalize_links(s) matches Ok(l) ==> normalized_links(l),
    decreases s.len(),
{
    if s.len() > 0 {
        lemma_normalize_links_normalized(s.drop_last());
        if normalize_links(s) is Ok {
            let acc = normalize_links(s.drop_last())->Ok_0;
            let p = spec_normalize_name(NameKind::Primary, s.last().0)->Ok_0;
            let e = spec_normalize_entry(s.last().1, p)->Ok_0;
            let l = normalize_links(s)->Ok_0;
            assert(l == map_insert(acc, p, e));
            lemma_find_key(acc, p);
            lemma_normalize_name_valid(NameKind::Primary, s.last().0);
            law_normalize_entry_idempotent(s.last().1, p);
            lemma_insert_sorted(acc, p, e);
            assert forall|i: int| 0 <= i < l.len() implies valid_name(#[trigger] l[i].0)
                && spec_normalize_entry(l[i].1, l[i].0) == Ok::<LinkEntryView, ErrorView>(l[i].1) by {
                lemma_map_insert_elements(acc, p, e, i);
            }
        }
    }
}

proof fn lemma_normalized_links_fixed(l: Seq<(Seq<char>, LinkEntryView)>)
    requires
        normalized_links(l),
    ensures
        normalize_links(l) == Ok::<Seq<(Seq<char>, LinkEntryView)>, ErrorView>(l),
    decreases l.len(),
{
    if l.len() > 0 {
        let t = l.drop_last();
        assert(normalized_links(t)) by {
            assert forall|a: int, b: int| 0 <= a < b < t.len() implies seq_lt(#[trigger] t[a].0, #[trigger] t[b].0) by {
                assert(t[a] == l[a] && t[b] == l[b]);
            }
            assert forall|i: int| 0 <= i < t.len() implies valid_name(#[trigger] t[i].0)
                && spec_normalize_entry(t[i].1, t[i].0) == Ok::<LinkEntryView, ErrorView>(t[i].1) by {
                assert(t[i] == l[i]);
            }
        }
        lemma_normalized_links_fixed(t);
        let (p, e) = l.last();
        assert(l[l.len() - 1] == l.last());
        lemma_normalize_name_valid(NameKind::Primary, p);
        lemma_find_key(t, p);
        assert(find_key(t, p) == -1) by {
            if find_key(t, p) >= 0 {
                let f = find_key(t, p);
                assert(t[f] == l[f]);
                assert(seq_lt(l[f].0, l[l.len() - 1].0));
                lemma_lt_irreflexive(p);
            }
        }
        lemma_insert_pos(t, p);
        assert(insert_pos(t, p) == t.len()) by {
            if insert_pos(t, p) < t.len() {
                let q = insert_pos(t, p);
                assert(t[q] == l[q]);
                assert(seq_lt(l[q].0, l[l.len() - 1].0));
            }
        }
        assert(t.insert(t.len() as int, (p, e)) =~= l);
    } else {
        assert(l =~= Seq::<(Seq<char>, LinkEntryView)>::empty());
    }
}

/// Normalizing a configuration twice is normalizing it once: what the library writes, it
/// reads back unchanged.
pub proof fn law_config_normalize_idempotent(c: ConfigView)
    ensures
        spec_config_normalize(c) matches Ok(n) ==> spec_config_normalize(n) == Ok::<
            ConfigView,
            ErrorView,
        >(n),
{
    if spec_config_normalize(c) is Ok {
        let n = spec_config_normalize(c)->Ok_0;
        lemma_normalize_links_normalized(c.links);
        lemma_normalized_links_fixed(n.links);
    }
}

/// A normalized configuration has its links in key order, every name valid, aliases and tags
/// strictly sorted, and no name claimed twice.
pub proof fn law_normalized_config_shape(c: ConfigView)
    ensures
        spec_config_normalize(c) matches Ok(n) ==> {
            &&& n.version == 1
            &&& normalized_links(n.links)
            &&& namespace_ok(n.links)
            &&& forall|i: int|
                0 <= i < n.links.len() ==> strictly_sorted((#[trigger] n.links[i]).1.aliases)
                    && strictly_sorted(n.links[i].1.tags)
        },
{
    if spec_config_normalize(c) is Ok {
        let n = spec_config_normalize(c)->Ok_0;
        lemma_normalize_links_normalized(c.links);
        assert forall|i: int| 0 <= i < n.links.len() implies strictly_sorted(
            (#[trigger] n.links[i]).1.aliases,
        ) && strictly_sorted(n.links[i].1.tags) by {
            let e = n.links[i].1;
            assert(spec_normalize_entry(e, n.links[i].0) == Ok::<LinkEntryView, ErrorView>(e));
            law_normalize_lists_idempotent(e.aliases);
            law_normalize_lists_idempotent(e.tags);
        }
    }
}

// ---------------------------------------------------------------------------
// Finding links
// ---------------------------------------------------------------------------

proof fn lemma_pairs_of_link(links: Seq<(Seq<char>, LinkEntryView)>, i: int)
    requires
        0 <= i < links.len(),
    ensures
        alias_pairs(links).contains((links[i].0, links[i].0)),
        forall|a: Seq<char>| #[trigger]
            links[i].1.aliases.contains(a) ==> alias_pairs(links).contains((a, links[i].0)),
    decreases links.len(),
{
    let t = links.drop_last();
    let e = entry_pairs(links.last().0, links.last().1.aliases);
    let all = alias_pairs(links);
    assert(all == alias_pairs(t) + e);
    if i < t.len() {
        lemma_pairs_of_link(t, i);
        assert(links[i] == t[i]);
        let k = choose|k: int| 0 <= k < alias_pairs(t).len() && alias_pairs(t)[k] == (t[i].0, t[i].0);
        assert(all[k] == alias_pairs(t)[k]);
        assert forall|a: Seq<char>| #[trigger] links[i].1.aliases.contains(a) implies all.contains((a, links[i].0)) by {
            assert(t[i].1.aliases.contains(a));
            let k2 = choose|k2: int| 0 <= k2 < alias_pairs(t).len() && alias_pairs(t)[k2] == (a, t[i].0);
            assert(all[k2] == alias_pairs(t)[k2]);
        }
    } else {
        assert(links[i] == links.last());
        assert(all[alias_pairs(t).len() as int] == e[0]);
        assert forall|a: Seq<char>| #[trigger] links[i].1.aliases.contains(a) implies all.contains((a, links[i].0)) by {
            let j = choose|j: int| 0 <= j < links[i].1.aliases.len() && links[i].1.aliases[j] == a;
            assert(e[j + 1] == (a, links[i].0));
            assert(all[alias_pairs(t).len() + j + 1] == e[j + 1]);
        }
    }
}

proof fn lemma_pair_origin(links: Seq<(Seq<char>, LinkEntryView)>, k: int)
    requires
        0 <= k < alias_pairs(links).len(),
    ensures
        exists|i: int|
            0 <= i < links.len() && #[trigger] links[i].0 == alias_pairs(links)[k].1 && (
            alias_pairs(links)[k].0 == links[i].0 || links[i].1.aliases.contains(
                alias_pairs(links)[k].0,
            )),
    decreases links.len(),
{
    let t = links.drop_last();
    let e = entry_pairs(links.last().0, links.last().1.aliases);
    let all = alias_pairs(links);
    assert(all == alias_pairs(t) + e);
    if k < alias_pairs(t).len() {
        lemma_pair_origin(t, k);
        let i = choose|i: int|
            0 <= i < t.len() && #[trigger] t[i].0 == alias_pairs(t)[k].1 && (alias_pairs(t)[k].0
                == t[i].0 || t[i].1.aliases.contains(alias_pairs(t)[k].0));
        assert(links[i] == t[i]);
        assert(all[k] == alias_pairs(t)[k]);
    } else {
        let j = k - alias_pairs(t).len();
        assert(all[k] == e[j]);
        let last = links.len() - 1;
        assert(links[last] == links.last());
        if j > 0 {
            assert(links.last().1.aliases[j - 1] == e[j].0);
        }
    }
}

/// In a configuration where no name is claimed twice, every link is found under its primary
/// name and under each of its aliases.
pub proof fn law_resolve_finds_every_name(links: Seq<(Seq<char>, LinkEntryView)>, i: int)
    requires
        namespace_ok(links),
        0 <= i < links.len(),
    ensures
        spec_resolve(links, links[i].0) == Ok::<Option<Seq<char>>, ErrorView>(Some(links[i].0)),
        forall|a: Seq<char>| #[trigger]
            links[i].1.aliases.contains(a) ==> spec_resolve(links, a) == Ok::<
                Option<Seq<char>>,
                ErrorView,
            >(Some(links[i].0)),
{
    let pairs = alias_pairs(links);
    lemma_index_fold_ok(pairs);
    lemma_pairs_of_link(links, i);
    let k = choose|k: int| 0 <= k < pairs.len() && pairs[k] == (links[i].0, links[i].0);
    assert(map_get(index_fold(pairs)->Ok_0, pairs[k].0) == Some(pairs[k].1));
    assert forall|a: Seq<char>| #[trigger] links[i].1.aliases.contains(a) implies spec_resolve(links, a)
        == Ok::<Option<Seq<char>>, ErrorView>(Some(links[i].0)) by {
        let k2 = choose|k2: int| 0 <= k2 < pairs.len() && pairs[k2] == (a, links[i].0);
        assert(map_get(index_fold(pairs)->Ok_0, pairs[k2].0) == Some(pairs[k2].1));
    }
}

/// A name leads only to a link that has it as primary name or alias; matching is exact.
pub proof fn law_resolve_is_exact(links: Seq<(Seq<char>, LinkEntryView)>, a: Seq<char>)
    ensures
        spec_resolve(links, a) matches Ok(Some(p)) ==> exists|i: int|
            0 <= i < links.len() && #[trigger] links[i].0 == p && (a == p || links[i].1.aliases.contains(a)),
        (forall|i: int| 0 <= i < links.len() ==> a != #[trigger] links[i].0 && !links[i].1.aliases.contains(a))
            && namespace_ok(links) ==> spec_resolve(links, a) == Ok::<Option<Seq<char>>, ErrorView>(None),
{
    let pairs = alias_pairs(links);
    if index_fold(pairs) is Ok {
        lemma_index_fold_ok(pairs);
        let acc = index_fold(pairs)->Ok_0;
        if map_get(acc, a) is Some {
            let k = choose|k: int| 0 <= k < pairs.len() && pairs[k] == (a, map_get(acc, a)->0);
            lemma_pair_origin(links, k);
        }
    }
}

/// In an index that was built without refusal, no name is claimed twice.
proof fn lemma_index_fold_distinct(pairs: Seq<(Seq<char>, Seq<char>)>)
    requires
        index_fold(pairs) is Ok,
    ensures
        forall|k1: int, k2: int|
            0 <= k1 < k2 < pairs.len() ==> #[trigger] pairs[k1].0 != #[trigger] pairs[k2].0,
    decreases pairs.len(),
{
    if pairs.len() > 0 {
        let t = pairs.drop_last();
        lemma_index_fold_distinct(t);
        lemma_index_fold_ok(t);
        let acc = index_fold(t)->Ok_0;
        assert(find_key(acc, pairs.last().0) < 0);
        assert forall|k1: int, k2: int| 0 <= k1 < k2 < pairs.len() implies #[trigger] pairs[k1].0
            != #[trigger] pairs[k2].0 by {
            assert(pairs[k1] == t[k1]);
            if k2 == pairs.len() - 1 {
                assert(map_get(acc, t[k1].0) is Some);
            } else {
                assert(pairs[k2] == t[k2]);
            }
        }
    }
}

/// `remove` takes a primary name only: in a configuration where no name is claimed twice,
/// removing a link by one of its aliases is refused, and nothing is written.
pub proof fn law_remove_by_primary_only(c: ConfigView, i: int, a: Seq<char>, path: Seq<char>)
    requires
        namespace_ok(c.links),
        0 <= i < c.links.len(),
        c.links[i].1.aliases.contains(a),
        valid_name(a),
    ensures
        spec_run_remove(Some(c), a, path) == Err::<OutcomeView, ErrorView>(
            ErrorView::PrimaryNotFound { primary: a },
        ),
{
    let links = c.links;
    let pairs = alias_pairs(links);
    lemma_valid_name_fixed(a);
    lemma_normalize_name_valid(NameKind::Primary, a);
    if find_key(links, a) >= 0 {
        let j = find_key(links, a);
        lemma_find_key(links, a);
        lemma_index_fold_distinct(pairs);
        lemma_pairs_of_link(links, i);
        lemma_pairs_of_link(links, j);
        let k1 = choose|k: int| 0 <= k < pairs.len() && pairs[k] == (a, links[i].0);
        let k2 = choose|k: int| 0 <= k < pairs.len() && pairs[k] == (links[j].0, links[j].0);
        assert(pairs[k1].0 == pairs[k2].0);
        if k1 == k2 {
            // the link would claim its own primary name as an alias: two claims of one name
            lemma_alias_twice(links, i, a);
        }
    }
}

/// A link that lists its primary name among its aliases claims that name twice.
proof fn lemma_alias_twice(links: Seq<(Seq<char>, LinkEntryView)>, i: int, a: Seq<char>)
    requires
        0 <= i < links.len(),
        links[i].0 == a,
        links[i].1.aliases.contains(a),
    ensures
        index_fold(alias_pairs(links)) is Err,
    decreases links.len(),
{
    let t = links.drop_last();
    let pairs = alias_pairs(links);
    let e = entry_pairs(links.last().0, links.last().1.aliases);
    assert(pairs == alias_pairs(t) + e);
    if i < t.len() {
        assert(links[i] == t[i]);
        lemma_alias_twice(t, i, a);
        crate::config::lemma_index_fold_err(alias_pairs(t), e);
    } else if index_fold(pairs) is Ok {
        lemma_index_fold_distinct(pairs);
        let base: int = alias_pairs(t).len() as int;
        assert(links[i] == links.last());
        let m = choose|m: int| 0 <= m < links.last().1.aliases.len() && links.last().1.aliases[m] == a;
        assert(e[0] == (a, a));
        assert(e[1 + m] == (a, a));
        assert(pairs[base] == e[0]);
        assert(pairs[base + 1 + m] == e[1 + m]);
        assert(pairs[base].0 == pairs[base + 1 + m].0);
    }
}

/// The number of aliases of all links.
pub open spec fn alias_count(links: Seq<(Seq<char>, LinkEntryView)>) -> nat
    decreases links.len(),
{
    if links.len() == 0 {
        0
    } else {
        alias_count(links.drop_last()) + links.last().1.aliases.len()
    }
}

proof fn lemma_alias_pairs_len(links: Seq<(Seq<char>, LinkEntryView)>)
    ensures
        alias_pairs(links).len() == links.len() + alias_count(links),
    decreases links.len(),
{
    if links.len() > 0 {
        lemma_alias_pairs_len(links.drop_last());
    }
}

proof fn lemma_index_fold_len(pairs: Seq<(Seq<char>, Seq<char>)>)
    requires
        index_fold(pairs) is Ok,
    ensures
        index_fold(pairs)->Ok_0.len() == pairs.len(),
    decreases pairs.len(),
{
    if pairs.len() > 0 {
        let t = pairs.drop_last();
        lemma_index_fold_len(t);
        lemma_index_fold_ok(t);
        let acc = index_fold(t)->Ok_0;
        lemma_find_key(acc, pairs.last().0);
        lemma_insert_sorted(acc, pairs.last().0, pairs.last().1);
    }
}

/// The alias index is built exactly when no name is claimed twice (the same check as
/// `validate_namespace`); it then maps every primary name to itself and every alias to the
/// primary name of its link, has no other names, and so has one entry per link and per alias.
pub proof fn law_alias_index(links: Seq<(Seq<char>, LinkEntryView)>)
    ensures
        index_fold(alias_pairs(links)) is Ok <==> namespace_ok(links),
        index_fold(alias_pairs(links)) matches Ok(idx) ==> {
            &&& idx.len() == links.len() + alias_count(links)
            &&& forall|i: int|
                0 <= i < links.len() ==> map_get(idx, #[trigger] links[i].0) == Some(links[i].0)
            &&& forall|i: int, a: Seq<char>|
                0 <= i < links.len() && #[trigger] links[i].1.aliases.contains(a) ==> map_get(idx, a)
                    == Some(links[i].0)
            &&& forall|a: Seq<char>| #[trigger]
                map_get(idx, a) is Some ==> exists|i: int|
                    0 <= i < links.len() && #[trigger] links[i].0 == map_get(idx, a)->0 && (a
                        == links[i].0 || links[i].1.aliases.contains(a))
        },
{
    let pairs = alias_pairs(links);
    if index_fold(pairs) is Ok {
        let idx = index_fold(pairs)->Ok_0;
        lemma_index_fold_ok(pairs);
        lemma_index_fold_len(pairs);
        lemma_alias_pairs_len(links);
        assert forall|i: int| 0 <= i < links.len() implies map_get(idx, #[trigger] links[i].0) == Some(
            links[i].0,
        ) by {
            lemma_pairs_of_link(links, i);
            let k = choose|k: int| 0 <= k < pairs.len() && pairs[k] == (links[i].0, links[i].0);
            assert(map_get(idx, pairs[k].0) == Some(pairs[k].1));
        }
        assert forall|i: int, a: Seq<char>|
            0 <= i < links.len() && #[trigger] links[i].1.aliases.contains(a) implies map_get(idx, a)
            == Some(links[i].0) by {
            lemma_pairs_of_link(links, i);
            let k = choose|k: int| 0 <= k < pairs.len() && pairs[k] == (a, links[i].0);
            assert(map_get(idx, pairs[k].0) == Some(pairs[k].1));
        }
        assert forall|a: Seq<char>| #[trigger] map_get(idx, a) is Some implies exists|i: int|
            0 <= i < links.len() && #[trigger] links[i].0 == map_get(idx, a)->0 && (a == links[i].0
                || links[i].1.aliases.contains(a)) by {
            let k = choose|k: int| 0 <= k < pairs.len() && pairs[k] == (a, map_get(idx, a)->0);
            lemma_pair_origin(links, k);
        }
    }
}

/// The links with a tag are exactly the links that carry it, in key order.
pub proof fn law_tagged_exact(links: Seq<(Seq<char>, LinkEntryView)>, t: Seq<char>)
    requires
        keys_sorted(links),
    ensures
        keys_sorted(tagged(links, t)),
        forall|x: (Seq<char>, LinkEntryView)| #[trigger]
            tagged(links, t).contains(x) <==> links.contains(x) && x.1.tags.contains(t),
    decreases links.len(),
{
    if links.len() > 0 {
        let u = links.drop_last();
        assert(keys_sorted(u)) by {
            assert forall|a: int, b: int| 0 <= a < b < u.len() implies seq_lt(#[trigger] u[a].0, #[trigger] u[b].0) by {
                assert(u[a] == links[a] && u[b] == links[b]);
            }
        }
        law_tagged_exact(u, t);
        let r = tagged(u, t);
        let last = links.last();
        assert(links[links.len() - 1] == last);
        if last.1.tags.contains(t) {
            assert(keys_sorted(r.push(last))) by {
                assert forall|a: int, b: int| 0 <= a < b < r.push(last).len() implies seq_lt(
                    #[trigger] r.push(last)[a].0,
                    #[trigger] r.push(last)[b].0,
                ) by {
                    if b == r.len() {
                        assert(r.contains(r[a]));
                        let j = choose|j: int| 0 <= j < u.len() && u[j] == r[a];
                        assert(links[j] == u[j]);
                    }
                }
            }
        }
        assert forall|x: (Seq<char>, LinkEntryView)| #[trigger] tagged(links, t).contains(x) <==> links.contains(x)
            && x.1.tags.contains(t) by {
            if links.contains(x) {
                let j = choose|j: int| 0 <= j < links.len() && links[j] == x;
                if j < u.len() {
                    assert(u[j] == x);
                }
            }
            if u.contains(x) {
                let j = choose|j: int| 0 <= j < u.len() && u[j] == x;
                assert(links[j] == x);
            }
            if tagged(links, t).contains(x) && last.1.tags.contains(t) {
                let j = choose|j: int| 0 <= j < r.push(last).len() && r.push(last)[j] == x;
                if j < r.len() {
                    assert(r.contains(x));
                }
            }
            if last.1.tags.contains(t) && r.contains(x) {
                let j = choose|j: int| 0 <= j < r.len() && r[j] == x;
                assert(r.push(last)[j] == x);
            }
            if last.1.tags.contains(t) && x == last {
                assert(r.push(last)[r.len() as int] == x);
            }
        }
    } else {
        assert forall|x: (Seq<char>, LinkEntryView)| #[trigger] tagged(links, t).contains(x) <==> links.contains(x)
            && x.1.tags.contains(t) by {}
    }
}

// ---------------------------------------------------------------------------
// Saving links
// ---------------------------------------------------------------------------

/// After a save: the candidate is stored under its primary name, no name is claimed twice,
/// the candidate is found under its primary name and each alias, and every other link
/// (other than the one replaced) is kept.
pub proof fn law_save_link(c: ConfigView, original: Option<Seq<char>>, cand: CandidateView, k: Seq<char>)
    requires
        keys_sorted(c.links),
    ensures
        spec_save_link(c, original, cand) matches Ok(n) ==> {
            &&& map_get(n.links, cand.primary) == Some(cand.entry)
            &&& namespace_ok(n.links)
            &&& spec_resolve(n.links, cand.primary) == Ok::<Option<Seq<char>>, ErrorView>(
                Some(cand.primary),
            )
            &&& (forall|a: Seq<char>| #[trigger]
                cand.entry.aliases.contains(a) ==> spec_resolve(n.links, a) == Ok::<
                    Option<Seq<char>>,
                    ErrorView,
                >(Some(cand.primary)))
            &&& (k != cand.primary && (match original {
                Some(o) => spec_normalize_name(NameKind::Primary, o) != Ok::<Seq<char>, ErrorView>(k),
                None => true,
            }) ==> map_get(n.links, k) == map_get(c.links, k))
        },
{
    if spec_save_link(c, original, cand) is Ok {
        let n = spec_save_link(c, original, cand)->Ok_0;
        let l1 = links_without(c.links, original)->Ok_0;
        match original {
            Some(o) => {
                let op = spec_normalize_name(NameKind::Primary, o)->Ok_0;
                lemma_remove_sorted(c.links, op);
                lemma_map_remove_get(c.links, op, k);
            },
            None => {},
        }
        assert(keys_sorted(l1));
        lemma_insert_sorted(l1, cand.primary, cand.entry);
        lemma_map_insert_get(l1, cand.primary, cand.entry, cand.primary);
        lemma_map_insert_get(l1, cand.primary, cand.entry, k);
        let l2 = n.links;
        lemma_find_key(l2, cand.primary);
        let i = find_key(l2, cand.primary);
        assert(l2[i] == (cand.primary, cand.entry));
        law_resolve_finds_every_name(l2, i);
    }
}

// ---------------------------------------------------------------------------
// Commands
// ---------------------------------------------------------------------------

proof fn lemma_normalized_remove(l: Seq<(Seq<char>, LinkEntryView)>, k: Seq<char>)
    requires
        normalized_links(l),
    ensures
        normalized_links(map_remove(l, k)),
{
    lemma_remove_sorted(l, k);
    lemma_find_key(l, k);
    let r = map_remove(l, k);
    let f = find_key(l, k);
    assert forall|i: int| 0 <= i < r.len() implies valid_name(#[trigger] r[i].0)
        && spec_normalize_entry(r[i].1, r[i].0) == Ok::<LinkEntryView, ErrorView>(r[i].1) by {
        if f >= 0 && i >= f {
            assert(r[i] == l[i + 1]);
        } else {
            assert(r[i] == l[i]);
        }
    }
}

proof fn lemma_normalized_insert(l: Seq<(Seq<char>, LinkEntryView)>, k: Seq<char>, e: LinkEntryView)
    requires
        normalized_links(l),
        find_key(l, k) == -1,
        valid_name(k),
        spec_normalize_entry(e, k) == Ok::<LinkEntryView, ErrorView>(e),
    ensures
        normalized_links(map_insert(l, k, e)),
{
    lemma_insert_sorted(l, k, e);
    let r = map_insert(l, k, e);
    assert forall|i: int| 0 <= i < r.len() implies valid_name(#[trigger] r[i].0)
        && spec_normalize_entry(r[i].1, r[i].0) == Ok::<LinkEntryView, ErrorView>(r[i].1) by {
        lemma_map_insert_elements(l, k, e, i);
    }
}

#[verifier::spinoff_prover]
proof fn lemma_add_then_open(c: ConfigView, args: AddArgsView, path: Seq<char>, a: Seq<char>)
    requires
        spec_config_normalize(c) == Ok::<ConfigView, ErrorView>(c),
    ensures
        spec_run_add(Some(c), args, path) matches Ok(OutcomeView::Write { text, .. }) ==> exists|
            n: ConfigView,
        | {
            &&& #[trigger] canonical_text(n) == text
            &&& spec_config_normalize(n) == Ok::<ConfigView, ErrorView>(n)
            &&& spec_run_open(Some(n), Some(args.primary), None, path) == Ok::<OutcomeView, ErrorView>(
                OutcomeView::Open(seq![trim(args.url)]),
            )
            &&& args.aliases.contains(a) ==> spec_run_open(Some(n), Some(a), None, path) == Ok::<
                OutcomeView,
                ErrorView,
            >(OutcomeView::Open(seq![trim(args.url)]))
        },
{
    if spec_run_add(Some(c), args, path) is Ok {
        let p = spec_normalize_name(NameKind::Primary, args.primary)->Ok_0;
        let cand = spec_candidate(p, args.url, args.aliases, args.tags, args.note)->Ok_0;
        let exists = find_key(c.links, p) >= 0;
        let original = if args.force && exists {
            Some(p)
        } else {
            None
        };
        let next = spec_save_link(c, original, cand)->Ok_0;
        // the configuration read is normalized
        lemma_normalize_links_normalized(c.links);
        assert(normalized_links(c.links));
        lemma_normalize_name_valid(NameKind::Primary, args.primary);
        lemma_normalize_name_valid(NameKind::Primary, p);
        let e0 = LinkEntryView { url: args.url, aliases: args.aliases, tags: args.tags, note: args.note };
        law_normalize_entry_idempotent(e0, p);
        // the links without the replaced one, then with the candidate
        let l1 = links_without(c.links, original)->Ok_0;
        match original {
            Some(o) => {
                lemma_normalized_remove(c.links, p);
            },
            None => {},
        }
        assert(normalized_links(l1));
        lemma_find_key(l1, cand.primary);
        lemma_normalized_insert(l1, cand.primary, cand.entry);
        lemma_normalized_links_fixed(next.links);
        let n = spec_config_normalize(next)->Ok_0;
        assert(n == next);
        law_save_link(c, original, cand, p);
        // opening by the primary name
        assert(spec_normalize_name(NameKind::Alias, args.primary) == Ok::<Seq<char>, ErrorView>(p));
        assert(map_get(n.links, p) == Some(cand.entry));
        assert(cand.entry.url == trim(args.url));
        // opening by an alias
        if args.aliases.contains(a) {
            let ns = normalize_all(NameKind::Alias, args.aliases)->Ok_0;
            crate::normalize::lemma_normalize_all_len(NameKind::Alias, args.aliases);
            let j = choose|j: int| 0 <= j < args.aliases.len() && args.aliases[j] == a;
            assert(spec_normalize_name(NameKind::Alias, a) == Ok::<Seq<char>, ErrorView>(ns[j]));
            lemma_sorted_unique(ns);
            assert(ns.contains(ns[j]));
            assert(cand.entry.aliases.contains(ns[j]));
        }
    }
}

/// What `add` writes, read back, opens the added link's URL under its primary name and
/// under each of its aliases: the written text is the canonical text of a configuration that
/// the checks on reading leave unchanged. This holds with no file yet, or with a file as
/// read (checked and normalized).
pub proof fn law_add_then_open(existing: Option<ConfigView>, args: AddArgsView, path: Seq<char>, a: Seq<char>)
    requires
        existing matches Some(c) ==> spec_config_normalize(c) == Ok::<ConfigView, ErrorView>(c),
    ensures
        spec_run_add(existing, args, path) matches Ok(OutcomeView::Write { text, .. }) ==> exists|
            n: ConfigView,
        | {
            &&& #[trigger] canonical_text(n) == text
            &&& spec_config_normalize(n) == Ok::<ConfigView, ErrorView>(n)
            &&& spec_run_open(Some(n), Some(args.primary), None, path) == Ok::<OutcomeView, ErrorView>(
                OutcomeView::Open(seq![trim(args.url)]),
            )
            &&& args.aliases.contains(a) ==> spec_run_open(Some(n), Some(a), None, path) == Ok::<
                OutcomeView,
                ErrorView,
            >(OutcomeView::Open(seq![trim(args.url)]))
        },
{
    let c = match existing {
        Some(c) => c,
        None => ConfigView { version: 1, links: Seq::empty() },
    };
    assert(spec_config_normalize(c) == Ok::<ConfigView, ErrorView>(c));
    assert(spec_run_add(existing, args, path) == spec_run_add(Some(c), args, path));
    lemma_add_then_open(c, args, path, a);
}

/// Once a link is removed, no link left claims its name, as primary name or alias.
proof fn lemma_removed_name_unclaimed(links: Seq<(Seq<char>, LinkEntryView)>, p: Seq<char>)
    requires
        namespace_ok(links),
        keys_sorted(links),
        find_key(links, p) >= 0,
    ensures
        forall|i: int|
            0 <= i < map_remove(links, p).len() ==> p != #[trigger] map_remove(links, p)[i].0
                && !map_remove(links, p)[i].1.aliases.contains(p),
{
    let f = find_key(links, p);
    lemma_find_key(links, p);
    let l = map_remove(links, p);
    let pairs = alias_pairs(links);
    lemma_index_fold_distinct(pairs);
    lemma_pairs_of_link(links, f);
    assert forall|i: int| 0 <= i < l.len() implies p != #[trigger] l[i].0
        && !l[i].1.aliases.contains(p) by {
        let j = if i < f {
            i
        } else {
            i + 1
        };
        assert(l[i] == links[j]);
        if links[j].1.aliases.contains(p) {
            lemma_pairs_of_link(links, j);
            let k1 = choose|x: int| 0 <= x < pairs.len() && pairs[x] == (p, links[j].0);
            let k2 = choose|x: int| 0 <= x < pairs.len() && pairs[x] == (links[f].0, links[f].0);
            assert(pairs[k1].0 == pairs[k2].0);
        }
    }
}

/// After `remove` writes, the file read back has no link under the removed name: opening it
/// by that name finds nothing, and every other link is kept.
pub proof fn law_remove_then_gone(c: ConfigView, primary: Seq<char>, path: Seq<char>, k: Seq<char>)
    requires
        spec_config_normalize(c) == Ok::<ConfigView, ErrorView>(c),
    ensures
        spec_run_remove(Some(c), primary, path) matches Ok(OutcomeView::Write { text, .. }) ==> exists|
            n: ConfigView,
        | {
            &&& #[trigger] canonical_text(n) == text
            &&& spec_config_normalize(n) == Ok::<ConfigView, ErrorView>(n)
            &&& spec_normalize_name(NameKind::Primary, primary) matches Ok(p) && {
                &&& spec_run_open(Some(n), Some(primary), None, path) == Err::<OutcomeView, ErrorView>(
                    ErrorView::NoLinkForAlias { alias: p },
                )
                &&& k != p ==> map_get(n.links, k) == map_get(c.links, k)
            }
        },
{
    if spec_run_remove(Some(c), primary, path) is Ok {
        let p = spec_normalize_name(NameKind::Primary, primary)->Ok_0;
        let links = c.links;
        let f = find_key(links, p);
        lemma_find_key(links, p);
        let l = map_remove(links, p);
        lemma_normalize_links_normalized(links);
        lemma_normalized_remove(links, p);
        lemma_normalized_links_fixed(l);
        let n = ConfigView { version: 1, links: l };
        assert(spec_config_normalize(ConfigView { links: l, ..c }) == Ok::<ConfigView, ErrorView>(n));
        lemma_map_remove_get(links, p, p);
        lemma_map_remove_get(links, p, k);
        lemma_find_key(l, p);
        lemma_removed_name_unclaimed(links, p);
        law_resolve_is_exact(l, p);
        lemma_normalize_name_valid(NameKind::Primary, primary);
        assert(spec_normalize_name(NameKind::Alias, primary) == Ok::<Seq<char>, ErrorView>(p));
    }
}

/// Where the configuration file is: the working directory when it holds the file; never a
/// directory above the Git root; inside Git, a directory that holds the file or else the Git
/// root itself; outside Git, the working directory.
pub proof fn law_config_location(has_config: Seq<bool>, has_git: Seq<bool>)
    requires
        has_config.len() >= 1,
        has_git.len() == has_config.len(),
    ensures
        ({
            let (d, git) = spec_resolve_config_path(has_config, has_git);
            &&& git == spec_git_root(has_git)
            &&& has_config[0] ==> d == 0
            &&& git matches Some(root) ==> {
                &&& 0 <= d <= root
                &&& d == root || has_config[d]
                &&& forall|j: int| 0 <= j < d ==> !#[trigger] has_config[j]
            }
            &&& git is None ==> d == 0
        }),
{
    lemma_first_true_bounds(has_git, 0);
    match spec_git_root(has_git) {
        Some(root) => {
            if !has_config[0] {
                lemma_first_true_upto_bounds(has_config, 1, root);
            }
        },
        None => {},
    }
}

proof fn lemma_first_true_bounds(s: Seq<bool>, i: int)
    requires
        0 <= i,
    ensures
        first_true(s, i) matches Some(r) ==> i <= r < s.len() && s[r],
    decreases s.len() - i,
{
    if i < s.len() && !s[i] {
        lemma_first_true_bounds(s, i + 1);
    }
}

proof fn lemma_first_true_upto_bounds(s: Seq<bool>, from: int, to: int)
    requires
        0 <= from,
    ensures
        first_true_upto(s, from, to) matches Some(r) ==> from <= r <= to && r < s.len() && s[r]
            && forall|j: int| from <= j < r ==> !#[trigger] s[j],
        first_true_upto(s, from, to) is None ==> forall|j: int| from <= j <= to && j < s.len() ==> !#[trigger] s[j],
    decreases s.len() - from,
{
    if from < s.len() && from <= to && !s[from] {
        lemma_first_true_upto_bounds(s, from + 1, to);
    }
}

// ---------------------------------------------------------------------------
// The form
// ---------------------------------------------------------------------------

/// Moving to the next field five times comes back to the same field, and moving back undoes
/// moving on.
pub proof fn law_field_cycle(f: Field)
    ensures
        spec_next_field(spec_next_field(spec_next_field(spec_next_field(spec_next_field(f))))) == f,
        spec_previous_field(spec_next_field(f)) == f,
        spec_next_field(spec_previous_field(f)) == f,
{
}

/// A form just opened, empty or on an existing link, has no unsaved edits.
pub proof fn law_fresh_form_is_clean(p: Seq<char>, e: LinkEntryView)
    ensures
        !spec_is_dirty(empty_editor()),
        !spec_is_dirty(existing_editor(p, e)),
{
}

proof fn lemma_valid_name_no_ws(w: Seq<char>)
    requires
        valid_name(w),
    ensures
        forall|i: int| 0 <= i < w.len() ==> !is_ws(#[trigger] w[i]),
        !w.contains(','),
{
    assert forall|i: int| 0 <= i < w.len() implies !is_ws(#[trigger] w[i]) by {
        if i > 0 {
            assert(name_char_ok(w[i]));
        }
    }
    if w.contains(',') {
        let i = choose|i: int| 0 <= i < w.len() && w[i] == ',';
        if i > 0 {
            assert(name_char_ok(w[i]));
        }
    }
}

/// Names listed comma-separated, as the form shows them, are read back as the same names.
pub proof fn law_csv_round_trip(names: Seq<Seq<char>>)
    requires
        forall|i: int| 0 <= i < names.len() ==> valid_name(#[trigger] names[i]),
    ensures
        csv_items(join(names, list_sep())) == names,
    decreases names.len(),
{
    reveal_strlit(", ");
    let sep = list_sep();
    assert(sep == seq![',', ' ']);
    if names.len() == 0 {
        assert(join(names, sep) =~= Seq::<char>::empty());
        let m = split_on(Seq::<char>::empty(), ',').map_values(|p: Seq<char>| trim(p));
        assert(m =~= seq![trim(Seq::<char>::empty())]);
        assert(trim(Seq::<char>::empty()) =~= Seq::<char>::empty());
        assert(m.drop_last() =~= Seq::<Seq<char>>::empty());
        assert(m.last().len() == 0);
        assert(non_empty(m) == non_empty(m.drop_last()));
        assert(names =~= Seq::<Seq<char>>::empty());
        assert(non_empty(m) =~= names);
    } else {
        let w = names.last();
        assert(valid_name(names[names.len() - 1]));
        lemma_valid_name_fixed(w);
        lemma_valid_name_no_ws(w);
        let t = names.drop_last();
        assert forall|i: int| 0 <= i < t.len() implies valid_name(#[trigger] t[i]) by {
            assert(t[i] == names[i]);
        }
        law_csv_round_trip(t);
        let sw = seq![' '] + w;
        assert(!sw.contains(',')) by {
            if sw.contains(',') {
                let i = choose|i: int| 0 <= i < sw.len() && sw[i] == ',';
                assert(w[i - 1] == ',');
            }
        }
        assert(trim(sw) == w) by {
            assert(sw.drop_first() =~= w);
            assert(trim_start(sw) == trim_start(w));
        }
        if names.len() == 1 {
            assert(join(names, sep) == w);
            lemma_split_no_sep(w, ',');
            let m = split_on(w, ',').map_values(|p: Seq<char>| trim(p));
            assert(m =~= seq![w]);
            assert(m.drop_last() =~= Seq::<Seq<char>>::empty());
            assert(m.last() == w);
            assert(w.len() > 0);
            assert(non_empty(m) == non_empty(m.drop_last()).push(w));
            assert(names =~= seq![w]);
            assert(non_empty(m) =~= names);
        } else {
            let a = join(t, sep);
            assert(join(names, sep) == a + sep + w);
            assert(a + sep + w =~= a.push(',') + sw);
            lemma_split_append(a, ',', sw);
            let m0 = split_on(a, ',').map_values(|p: Seq<char>| trim(p));
            let m = split_on(a.push(',') + sw, ',').map_values(|p: Seq<char>| trim(p));
            assert(m =~= m0.push(w));
            assert(m.drop_last() =~= m0);
            assert(non_empty(m) == non_empty(m0).push(w));
            assert(t.push(w) =~= names);
        }
    }
}

/// Opening the form on a normalized link and saving it unchanged builds that same link.
pub proof fn law_form_round_trip(p: Seq<char>, e: LinkEntryView)
    requires
        valid_name(p),
        spec_normalize_entry(e, p) == Ok::<LinkEntryView, ErrorView>(e),
    ensures
        spec_candidate(
            p,
            e.url,
            csv_items(join(e.aliases, list_sep())),
            csv_items(join(e.tags, list_sep())),
            Some(or_empty(e.note)),
        ) == Ok::<CandidateView, ErrorView>(CandidateView { primary: p, entry: e }),
{
    lemma_normalize_name_valid(NameKind::Primary, p);
    law_normalize_lists_idempotent(e.aliases);
    law_normalize_lists_idempotent(e.tags);
    law_csv_round_trip(e.aliases);
    law_csv_round_trip(e.tags);
    match e.note {
        Some(n) => {},
        None => {
            assert(trim(Seq::<char>::empty()) =~= Seq::<char>::empty());
        },
    }
    assert(spec_normalize_note(Some(or_empty(e.note))) == e.note);
}

// ---------------------------------------------------------------------------
// The interactive view
// ---------------------------------------------------------------------------

/// A released key changes nothing and asks nothing of the loop.
pub proof fn law_release_ignored(v: AppView, key: KeyEvent)
    requires
        key.kind == KeyEventKind::Release,
    ensures
        spec_handle_key(v, key) == (v, EventResultView::NoAction),
{
}

/// After keeping the selection on a visible row, a row is selected exactly when one is
/// visible, and it is one of them.
pub proof fn law_selection_visible(v: AppView)
    ensures
        spec_ensure_selection(v).table.selected is None <==> visible_of(v).len() == 0,
        spec_ensure_selection(v).table.selected matches Some(i) ==> i < visible_of(v).len(),
{
}

/// In normal mode, `o` opens and `y` copies the URL of the selected link, and neither
/// changes the state.
pub proof fn law_open_and_copy_selected(v: AppView, key: KeyEvent, p: Seq<char>)
    requires
        keys_sorted(v.config.links),
        v.mode is Normal,
        key.kind != KeyEventKind::Release,
        key.code == KeyCode::Char('o') || key.code == KeyCode::Char('y'),
        selected_of(v) == Some(p),
    ensures
        map_get(v.config.links, p) is Some,
        key.code == KeyCode::Char('o') ==> {
            &&& spec_handle_key(v, key) == (v, EventResultView::OpenSelected)
            &&& spec_next_action(v, EventResultView::OpenSelected) == (
                v,
                LoopActionView::Open { primary: p, url: map_get(v.config.links, p)->0.url },
            )
        },
        key.code == KeyCode::Char('y') ==> {
            &&& spec_handle_key(v, key) == (v, EventResultView::YankSelected)
            &&& spec_next_action(v, EventResultView::YankSelected) == (
                v,
                LoopActionView::Copy { primary: p, url: map_get(v.config.links, p)->0.url },
            )
        },
{
    crate::tui::view::lemma_visible_in(v.config.links, query_of(v.filter), selected_index(v));
}

/// When the file changed on disk since it was read, no edit or deletion is written.
pub proof fn law_conflict_never_writes(
    c: ConfigView,
    snapshot: Option<Seq<char>>,
    current: Option<Seq<char>>,
    original: Option<Seq<char>>,
    cand: CandidateView,
    primary: Seq<char>,
)
    requires
        current != snapshot,
    ensures
        spec_plan_edit(c, snapshot, current, original, cand) == Ok::<PersistView, ErrorView>(
            PersistView::Conflict,
        ),
        spec_plan_delete(c, snapshot, current, primary) == Ok::<PersistView, ErrorView>(
            PersistView::Conflict,
        ),
{
}

/// A deletion that is written leaves no link under the deleted name and keeps every other.
pub proof fn law_delete_removes(
    c: ConfigView,
    snapshot: Option<Seq<char>>,
    primary: Seq<char>,
    k: Seq<char>,
)
    requires
        keys_sorted(c.links),
    ensures
        spec_plan_delete(c, snapshot, snapshot, primary) matches Ok(PersistView::Write { config, .. }) ==> {
            &&& map_get(config.links, primary) is None
            &&& k != primary ==> map_get(config.links, k) == map_get(c.links, k)
        },
{
    lemma_map_remove_get(c.links, primary, primary);
    lemma_map_remove_get(c.links, primary, k);
}

// ---------------------------------------------------------------------------
// What the interactive view and `list` show and act on
// ---------------------------------------------------------------------------

/// Confirming a delete with `y` deletes the link of the selected row (the first row when
/// none is selected), and changes nothing before the deletion is carried out.
pub proof fn law_confirm_delete_selected(v: AppView, key: KeyEvent, i: int)
    requires
        v.mode is DeleteConfirm,
        key.kind != KeyEventKind::Release,
        key.code == KeyCode::Char('y'),
        0 <= i < visible_of(v).len(),
        (v.table.selected matches Some(s) && s as int == i) || (v.table.selected is None && i == 0),
    ensures
        spec_handle_key(v, key) == (v, EventResultView::ConfirmDelete),
        spec_next_action(v, EventResultView::ConfirmDelete) == (
            v,
            LoopActionView::Delete { primary: visible_of(v)[i] },
        ),
{
}

/// The only refusal of the alias index is a name claimed twice.
proof fn lemma_index_fold_err_kind(pairs: Seq<(Seq<char>, Seq<char>)>)
    ensures
        index_fold(pairs) matches Err(x) ==> x is AliasInUse,
    decreases pairs.len(),
{
    if pairs.len() > 0 {
        lemma_index_fold_err_kind(pairs.drop_last());
    }
}

/// Saving a form opened on the link `p` replaces that link: a form opened on `p` remembers
/// `p`, and its save names `p` as the link it replaces; keeping the primary name is never refused as a clash with the link itself;
/// and a written save holds the new link under its primary name and nothing under `p` when
/// the name changed.
pub proof fn law_save_edit_replaces(v: AppView, e: crate::tui::editor::EditorView, p: Seq<char>, snapshot: Option<Seq<char>>)
    requires
        keys_sorted(v.config.links),
        e.original_primary == Some(p),
        valid_name(p),
        map_get(v.config.links, p) is Some,
    ensures
        existing_editor(p, map_get(v.config.links, p)->0).original_primary == Some(p),
        match spec_next_action(v, EventResultView::SaveEditor(e)).1 {
            LoopActionView::Save { original, candidate } => {
                &&& original == Some(p)
                &&& candidate.primary == p ==> spec_save_link(v.config, original, candidate)
                    != Err::<ConfigView, ErrorView>(ErrorView::PrimaryExists { primary: p })
                &&& spec_plan_edit(v.config, snapshot, snapshot, original, candidate) matches Ok(
                    PersistView::Write { config: n, .. },
                ) ==> {
                    &&& map_get(n.links, candidate.primary) == Some(candidate.entry)
                    &&& candidate.primary != p ==> map_get(n.links, p) is None
                }
            },
            LoopActionView::Continue => true,
            _ => false,
        },
{
    lemma_normalize_name_valid(NameKind::Primary, p);
    match spec_next_action(v, EventResultView::SaveEditor(e)).1 {
        LoopActionView::Save { original, candidate } => {
            lemma_remove_sorted(v.config.links, p);
            lemma_map_remove_get(v.config.links, p, p);
            let l1 = map_remove(v.config.links, p);
            lemma_find_key(l1, p);
            lemma_find_key(v.config.links, p);
            assert(links_without(v.config.links, original) == Ok::<Seq<(Seq<char>, LinkEntryView)>, ErrorView>(l1));
            lemma_map_insert_get(l1, candidate.primary, candidate.entry, p);
            lemma_index_fold_err_kind(alias_pairs(map_insert(l1, candidate.primary, candidate.entry)));
            law_save_link(v.config, original, candidate, p);
        },
        _ => {},
    }
}

/// A row of `list` showing the link `l` under the headers PRIMARY, ALIASES, TAGS, URL, NOTE:
/// its primary name, its aliases and tags comma-separated, its URL, its note or nothing.
pub open spec fn row_shows(row: Seq<Seq<char>>, l: (Seq<char>, LinkEntryView)) -> bool {
    &&& row.len() == 5
    &&& row[0] == l.0
    &&& row[1] == join(l.1.aliases, ", "@)
    &&& row[2] == join(l.1.tags, ", "@)
    &&& row[3] == l.1.url
    &&& row[4] == or_empty(l.1.note)
}

/// A row of `list` shows the link `l`, which carries the tag when one is given.
pub open spec fn row_shows_tagged(row: Seq<Seq<char>>, l: (Seq<char>, LinkEntryView), tag: Option<Seq<char>>) -> bool {
    &&& row_shows(row, l)
    &&& tag matches Some(t) ==> l.1.tags.contains(t)
}

/// A row of `list` shows one of the links, which carries the tag when one is given.
pub open spec fn row_shows_a_link(row: Seq<Seq<char>>, links: Seq<(Seq<char>, LinkEntryView)>, tag: Option<Seq<char>>) -> bool {
    exists|i: int| 0 <= i < links.len() && #[trigger] row_shows_tagged(row, links[i], tag)
}

/// Every row that `list` shows lines up with its header: the link's primary name under
/// PRIMARY, its aliases and tags under ALIASES and TAGS, its URL under URL and its note (or
/// nothing) under NOTE; with a tag, only links that carry the tag are shown; without one,
/// every link is shown, in key order.
pub proof fn law_list_rows_line_up(links: Seq<(Seq<char>, LinkEntryView)>, tag: Option<Seq<char>>)
    ensures
        crate::list_headers() == seq!["PRIMARY"@, "ALIASES"@, "TAGS"@, "URL"@, "NOTE"@],
        forall|k: int|
            0 <= k < crate::list_rows(links, tag).len() ==> row_shows_a_link(
                #[trigger] crate::list_rows(links, tag)[k],
                links,
                tag,
            ),
        tag is None ==> crate::list_rows(links, tag).len() == links.len() && forall|i: int|
            0 <= i < links.len() ==> row_shows(#[trigger] crate::list_rows(links, tag)[i], links[i]),
    decreases links.len(),
{
    if links.len() > 0 {
        let t = links.drop_last();
        law_list_rows_line_up(t, tag);
        let r = crate::list_rows(t, tag);
        let all = crate::list_rows(links, tag);
        assert(links[links.len() - 1] == links.last());
        assert forall|k: int| 0 <= k < all.len() implies row_shows_a_link(#[trigger] all[k], links, tag) by {
            if k < r.len() {
                assert(all[k] == r[k]);
                assert(row_shows_a_link(r[k], t, tag));
                let i = choose|i: int| 0 <= i < t.len() && #[trigger] row_shows_tagged(r[k], t[i], tag);
                assert(links[i] == t[i]);
                assert(row_shows_tagged(all[k], links[i], tag));
            } else {
                assert(all[k] == crate::list_row(links.last().0, links.last().1));
                assert(row_shows_tagged(all[k], links[links.len() - 1], tag));
            }
        }
        if tag is None {
            assert forall|i: int| 0 <= i < links.len() implies row_shows(#[trigger] all[i], links[i]) by {
                if i < t.len() {
                    assert(all[i] == r[i]);
                    assert(links[i] == t[i]);
                }
            }
        }
    }
}

/// `list` without a tag prints a table under the headers PRIMARY, ALIASES, TAGS, URL, NOTE
/// with one row per link, in key order, each showing that link's values under their headers.
pub proof fn law_list_prints_every_link(c: ConfigView)
    requires
        c.links.len() > 0,
    ensures
        exists|rows: Seq<Seq<Seq<char>>>| {
            &&& #[trigger] crate::spec_run_list(Some(c), None) == Ok::<OutcomeView, ErrorView>(
                OutcomeView::Print(
                    crate::table_text(seq!["PRIMARY"@, "ALIASES"@, "TAGS"@, "URL"@, "NOTE"@], rows),
                ),
            )
            &&& rows.len() == c.links.len()
            &&& forall|i: int| 0 <= i < rows.len() ==> row_shows(#[trigger] rows[i], c.links[i])
        },
{
    law_list_rows_line_up(c.links, None);
    let rows = crate::list_rows(c.links, None);
    assert(crate::spec_run_list(Some(c), None) == Ok::<OutcomeView, ErrorView>(
        OutcomeView::Print(crate::table_text(crate::list_headers(), rows)),
    ));
}

/// A primary name is visible exactly when one of the links under it matches the query.
proof fn lemma_visible_contains(links: Seq<(Seq<char>, LinkEntryView)>, q: Seq<char>, x: Seq<char>)
    ensures
        crate::tui::state::visible(links, q).contains(x) <==> exists|j: int|
            0 <= j < links.len() && #[trigger] links[j].0 == x && crate::tui::state::link_matches(
                links[j].0,
                links[j].1,
                q,
            ),
    decreases links.len(),
{
    if links.len() > 0 {
        let t = links.drop_last();
        lemma_visible_contains(t, q, x);
        let r = crate::tui::state::visible(t, q);
        if exists|j: int|
            0 <= j < links.len() && #[trigger] links[j].0 == x && crate::tui::state::link_matches(
                links[j].0,
                links[j].1,
                q,
            ) {
            let j = choose|j: int|
                0 <= j < links.len() && #[trigger] links[j].0 == x && crate::tui::state::link_matches(
                    links[j].0,
                    links[j].1,
                    q,
                );
            if j < t.len() {
                assert(links[j] == t[j]);
                let k = choose|k: int| 0 <= k < r.len() && r[k] == x;
                if crate::tui::state::link_matches(links.last().0, links.last().1, q) {
                    assert(r.push(links.last().0)[k] == x);
                }
            } else {
                assert(links[j] == links.last());
                assert(r.push(links.last().0)[r.len() as int] == x);
            }
        }
        if crate::tui::state::visible(links, q).contains(x) {
            let v = crate::tui::state::visible(links, q);
            let k = choose|k: int| 0 <= k < v.len() && v[k] == x;
            if k < r.len() {
                assert(r[k] == x);
                let j = choose|j: int|
                    0 <= j < t.len() && #[trigger] t[j].0 == x && crate::tui::state::link_matches(
                        t[j].0,
                        t[j].1,
                        q,
                    );
                assert(links[j] == t[j]);
            } else {
                assert(links[links.len() - 1] == links.last());
            }
        }
    }
}

/// The filter searches a link's primary name, URL, aliases, tags and note, each compared in
/// ASCII lowercase against the trimmed, lowercased filter: a link is visible exactly when the
/// filter is empty or one of these contains it.
pub proof fn law_filter_searches_every_field(v: AppView, i: int)
    requires
        keys_sorted(v.config.links),
        0 <= i < v.config.links.len(),
    ensures
        ({
            let (p, e) = v.config.links[i];
            let q = crate::text::lower(trim(v.filter));
            visible_of(v).contains(p) <==> (q.len() == 0 || crate::text::contains_sub(
                crate::text::lower(p),
                q,
            ) || crate::text::contains_sub(crate::text::lower(e.url), q)
                || crate::text::contains_sub(crate::text::lower(join(e.aliases, " "@)), q)
                || crate::text::contains_sub(crate::text::lower(join(e.tags, " "@)), q)
                || crate::text::contains_sub(crate::text::lower(or_empty(e.note)), q))
        }),
{
    let links = v.config.links;
    let q = query_of(v.filter);
    lemma_visible_contains(links, q, links[i].0);
    lemma_find_key(links, links[i].0);
}

/// In normal mode, `j` or Down selects the next row and `k` or Up the previous one, staying
/// on the first or last row at the ends; the link then opened or copied is that row's.
pub proof fn law_move_selection_relative(v: AppView, key: KeyEvent, i: int)
    requires
        v.mode is Normal,
        key.kind != KeyEventKind::Release,
        0 <= i < visible_of(v).len(),
        (v.table.selected matches Some(s) && s as int == i) || (v.table.selected is None && i == 0),
        v.config.links.len() <= isize::MAX,
    ensures
        key.code == KeyCode::Char('j') || key.code == KeyCode::Down ==> {
            let w = spec_handle_key(v, key).0;
            let next = if i + 1 < visible_of(v).len() { i + 1 } else { i };
            &&& w.table.selected matches Some(s) && s as int == next
            &&& selected_of(w) == Some(visible_of(v)[next])
            &&& w.config == v.config && w.filter == v.filter && w.mode == v.mode
        },
        key.code == KeyCode::Char('k') || key.code == KeyCode::Up ==> {
            let w = spec_handle_key(v, key).0;
            let next = if i > 0 { i - 1 } else { 0 };
            &&& w.table.selected matches Some(s) && s as int == next
            &&& selected_of(w) == Some(visible_of(v)[next])
            &&& w.config == v.config && w.filter == v.filter && w.mode == v.mode
        },
{
    crate::tui::state::lemma_visible_len(v.config.links, query_of(v.filter));
}

} // verus!
