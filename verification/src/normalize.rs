//! Normalization of the parts of a link: names, lists of names, URL and note.
use vstd::prelude::*;

use crate::error::{Error, ErrorView, NameKind};
use crate::foreign::{url_parse, url_parse_outcome, url_scheme, UrlError};
use crate::text::{
    chars_of, contains_str, is_ascii_digit, is_ascii_lower, lemma_lt_asymmetric,
    lemma_lt_irreflexive, lemma_lt_total, lemma_lt_transitive, lower, seq_lt, str_eq, str_lt,
    to_ascii_lowercase, trim, trim_str, views,
};

verus! {

// ---------------------------------------------------------------------------
// Specifications
// ---------------------------------------------------------------------------

/// The view of an optional string.
pub open spec fn opt_view(o: Option<String>) -> Option<Seq<char>> {
    match o {
        Some(s) => Some(s@),
        None => None,
    }
}

/// A character that may start a name.
pub open spec fn name_start_ok(c: char) -> bool {
    is_ascii_lower(c) || is_ascii_digit(c)
}

/// A character that may stand in a name.
pub open spec fn name_char_ok(c: char) -> bool {
    name_start_ok(c) || c == '_' || c == '-'
}

/// The first character at or after position `i` that may not stand in a name.
pub open spec fn first_bad_char(s: Seq<char>, i: int) -> Option<char>
    decreases s.len() - i,
{
    if i < 0 || i >= s.len() {
        None
    } else if !name_char_ok(s[i]) {
        Some(s[i])
    } else {
        first_bad_char(s, i + 1)
    }
}

/// Why `v` is not a valid name, if it is not.
pub open spec fn name_error(kind: NameKind, v: Seq<char>) -> Option<ErrorView> {
    if v.len() == 0 {
        Some(ErrorView::EmptyName { kind })
    } else if !name_start_ok(v[0]) {
        Some(ErrorView::InvalidNameStart { kind, value: v })
    } else {
        match first_bad_char(v, 1) {
            Some(ch) => Some(ErrorView::InvalidNameChar { kind, value: v, ch }),
            None => None,
        }
    }
}

/// A valid name: a lowercase letter or digit, then lowercase letters, digits, `_` and `-`.
pub open spec fn valid_name(s: Seq<char>) -> bool {
    &&& s.len() > 0
    &&& name_start_ok(s[0])
    &&& forall|i: int| 1 <= i < s.len() ==> name_char_ok(#[trigger] s[i])
}

/// A name trimmed and lowercased, or why it is refused.
pub open spec fn spec_normalize_name(kind: NameKind, v: Seq<char>) -> Result<Seq<char>, ErrorView> {
    let n = lower(trim(v));
    match name_error(kind, n) {
        Some(e) => Err(e),
        None => Ok(n),
    }
}

/// Each name normalized, in order; the first refusal stops.
pub open spec fn normalize_all(kind: NameKind, vals: Seq<Seq<char>>) -> Result<Seq<Seq<char>>, ErrorView>
    decreases vals.len(),
{
    if vals.len() == 0 {
        Ok(Seq::empty())
    } else {
        match normalize_all(kind, vals.drop_last()) {
            Err(e) => Err(e),
            Ok(r) => match spec_normalize_name(kind, vals.last()) {
                Err(e) => Err(e),
                Ok(n) => Ok(r.push(n)),
            },
        }
    }
}

/// Strictly increasing order.
pub open spec fn strictly_sorted(t: Seq<Seq<char>>) -> bool {
    forall|i: int, j: int| 0 <= i < j < t.len() ==> seq_lt(#[trigger] t[i], #[trigger] t[j])
}

/// Where `x` belongs in a sorted sequence: after every item smaller than it.
pub open spec fn sorted_pos(t: Seq<Seq<char>>, x: Seq<char>) -> int
    decreases t.len(),
{
    if t.len() == 0 {
        0
    } else if seq_lt(t.last(), x) {
        t.len() as int
    } else {
        sorted_pos(t.drop_last(), x)
    }
}

/// `x` added to a sorted set of names.
pub open spec fn set_insert(t: Seq<Seq<char>>, x: Seq<char>) -> Seq<Seq<char>> {
    if t.contains(x) {
        t
    } else {
        t.insert(sorted_pos(t, x), x)
    }
}

/// The distinct items of `s` in increasing order.
pub open spec fn sorted_unique(s: Seq<Seq<char>>) -> Seq<Seq<char>>
    decreases s.len(),
{
    if s.len() == 0 {
        Seq::empty()
    } else {
        set_insert(sorted_unique(s.drop_last()), s.last())
    }
}

/// The smaller of a candidate and `x`.
pub open spec fn min_with(d: Option<Seq<char>>, x: Seq<char>) -> Seq<char> {
    match d {
        Some(a) => if seq_lt(x, a) {
            x
        } else {
            a
        },
        None => x,
    }
}

/// The smallest item that occurs more than once in `s`.
pub open spec fn min_dup(s: Seq<Seq<char>>) -> Option<Seq<char>>
    decreases s.len(),
{
    if s.len() == 0 {
        None
    } else {
        let d = min_dup(s.drop_last());
        if s.drop_last().contains(s.last()) {
            Some(min_with(d, s.last()))
        } else {
            d
        }
    }
}

/// Extra aliases normalized, sorted, and refused when one repeats.
pub open spec fn spec_normalize_aliases(vals: Seq<Seq<char>>) -> Result<Seq<Seq<char>>, ErrorView> {
    match normalize_all(NameKind::Alias, vals) {
        Err(e) => Err(e),
        Ok(ns) => match min_dup(ns) {
            Some(d) => Err(ErrorView::DuplicateAlias { alias: d }),
            None => Ok(sorted_unique(ns)),
        },
    }
}

/// Tags normalized, sorted, with repeats dropped.
pub open spec fn spec_normalize_tags(vals: Seq<Seq<char>>) -> Result<Seq<Seq<char>>, ErrorView> {
    match normalize_all(NameKind::Tag, vals) {
        Err(e) => Err(e),
        Ok(ns) => Ok(sorted_unique(ns)),
    }
}

/// A note trimmed; a blank note is no note.
pub open spec fn spec_normalize_note(note: Option<Seq<char>>) -> Option<Seq<char>> {
    match note {
        Some(v) => if trim(v).len() == 0 {
            None
        } else {
            Some(trim(v))
        },
        None => None,
    }
}

/// A URL trimmed, when the URL parser accepts it.
pub open spec fn spec_normalize_url(v: Seq<char>) -> Result<Seq<char>, ErrorView> {
    match url_parse_outcome(trim(v)) {
        None => Ok(trim(v)),
        Some(reason) => Err(ErrorView::InvalidUrl { url: trim(v), reason }),
    }
}

/// The view of a result that holds a string.
pub open spec fn res_str(r: Result<String, Error>) -> Result<Seq<char>, ErrorView> {
    match r {
        Ok(s) => Ok(s@),
        Err(e) => Err(e@),
    }
}

/// The view of a result that holds strings.
pub open spec fn res_strs(r: Result<Vec<String>, Error>) -> Result<Seq<Seq<char>>, ErrorView> {
    match r {
        Ok(v) => Ok(views(v@)),
        Err(e) => Err(e@),
    }
}

// ---------------------------------------------------------------------------
// Lemmas
// ---------------------------------------------------------------------------

/// A refusal of a prefix is the refusal of the whole sequence.
pub proof fn lemma_normalize_all_err(kind: NameKind, s: Seq<Seq<char>>, t: Seq<Seq<char>>)
    requires
        normalize_all(kind, s) is Err,
    ensures
        normalize_all(kind, s + t) == normalize_all(kind, s),
    decreases t.len(),
{
    if t.len() == 0 {
        assert(s + t =~= s);
    } else {
        lemma_normalize_all_err(kind, s, t.drop_last());
        assert((s + t).drop_last() =~= s + t.drop_last());
    }
}

pub proof fn lemma_normalize_all_len(kind: NameKind, s: Seq<Seq<char>>)
    ensures
        normalize_all(kind, s) matches Ok(r) ==> r.len() == s.len() && forall|i: int|
            0 <= i < s.len() ==> spec_normalize_name(kind, s[i]) == Ok::<Seq<char>, ErrorView>(
                #[trigger] r[i],
            ),
    decreases s.len(),
{
    if s.len() > 0 {
        lemma_normalize_all_len(kind, s.drop_last());
        if normalize_all(kind, s) is Ok {
            let r = normalize_all(kind, s)->Ok_0;
            assert forall|i: int| 0 <= i < s.len() implies spec_normalize_name(kind, s[i]) == Ok::<
                Seq<char>,
                ErrorView,
            >(#[trigger] r[i]) by {
                if i < s.len() - 1 {
                    assert(s[i] == s.drop_last()[i]);
                }
            }
        }
    }
}

proof fn lemma_first_bad_char(s: Seq<char>, i: int)
    requires
        0 <= i <= s.len(),
    ensures
        first_bad_char(s, i) is None <==> forall|k: int| i <= k < s.len() ==> name_char_ok(#[trigger] s[k]),
    decreases s.len() - i,
{
    if i < s.len() {
        lemma_first_bad_char(s, i + 1);
    }
}

/// A normalized name is valid, and normalizing it again changes nothing.
pub proof fn lemma_normalize_name_valid(kind: NameKind, v: Seq<char>)
    ensures
        spec_normalize_name(kind, v) matches Ok(n) ==> valid_name(n),
        valid_name(v) ==> spec_normalize_name(kind, v) == Ok::<Seq<char>, ErrorView>(v),
{
    let n = lower(trim(v));
    if n.len() > 0 {
        lemma_first_bad_char(n, 1);
    }
    if valid_name(v) {
        lemma_valid_name_fixed(v);
        lemma_first_bad_char(v, 1);
    }
}

/// Trimming and lowercasing leave a valid name as it is.
pub proof fn lemma_valid_name_fixed(v: Seq<char>)
    requires
        valid_name(v),
    ensures
        trim(v) == v,
        lower(v) == v,
{
    assert(!crate::text::is_ws(v[0]));
    assert(crate::text::trim_start(v) == v);
    assert(!crate::text::is_ws(v.last())) by {
        if v.len() > 1 {
            assert(name_char_ok(v[v.len() - 1]));
        }
    }
    assert(crate::text::trim_end(v) == v);
    assert(lower(v) =~= v) by {
        assert forall|i: int| 0 <= i < v.len() implies lower(v)[i] == v[i] by {
            if i > 0 {
                assert(name_char_ok(v[i]));
            }
        }
    }
}

pub proof fn lemma_sorted_pos(t: Seq<Seq<char>>, x: Seq<char>)
    requires
        strictly_sorted(t),
    ensures
        0 <= sorted_pos(t, x) <= t.len(),
        forall|j: int| 0 <= j < sorted_pos(t, x) ==> seq_lt(#[trigger] t[j], x),
        forall|j: int| sorted_pos(t, x) <= j < t.len() ==> !seq_lt(#[trigger] t[j], x),
    decreases t.len(),
{
    if t.len() > 0 {
        let u = t.drop_last();
        assert(strictly_sorted(u)) by {
            assert forall|i: int, j: int| 0 <= i < j < u.len() implies seq_lt(#[trigger] u[i], #[trigger] u[j]) by {
                assert(u[i] == t[i] && u[j] == t[j]);
            }
        }
        lemma_sorted_pos(u, x);
        let p = sorted_pos(t, x);
        if seq_lt(t.last(), x) {
            assert forall|j: int| 0 <= j < p implies seq_lt(#[trigger] t[j], x) by {
                if j < t.len() - 1 {
                    assert(seq_lt(t[j], t[t.len() - 1]));
                    lemma_lt_transitive(t[j], t.last(), x);
                }
            }
        } else {
            assert forall|j: int| p <= j < t.len() implies !seq_lt(#[trigger] t[j], x) by {
                if j < t.len() - 1 {
                    assert(t[j] == u[j]);
                }
            }
            assert forall|j: int| 0 <= j < p implies seq_lt(#[trigger] t[j], x) by {
                assert(t[j] == u[j]);
            }
        }
    }
}

/// Adding to a sorted set keeps it sorted and adds exactly `x`.
pub proof fn lemma_set_insert(t: Seq<Seq<char>>, x: Seq<char>)
    requires
        strictly_sorted(t),
    ensures
        strictly_sorted(set_insert(t, x)),
        forall|y: Seq<char>| #[trigger] set_insert(t, x).contains(y) <==> (t.contains(y) || y == x),
{
    let r = set_insert(t, x);
    if !t.contains(x) {
        lemma_sorted_pos(t, x);
        let p = sorted_pos(t, x);
        assert forall|a: int, b: int| 0 <= a < b < r.len() implies seq_lt(#[trigger] r[a], #[trigger] r[b]) by {
            if b < p {
                assert(r[a] == t[a] && r[b] == t[b]);
            } else if b == p {
                assert(r[a] == t[a]);
            } else if a < p {
                assert(r[a] == t[a] && r[b] == t[b - 1]);
                lemma_lt_total(t[b - 1], x);
                lemma_lt_transitive(t[a], x, t[b - 1]);
            } else if a == p {
                assert(r[b] == t[b - 1]);
                lemma_lt_total(t[b - 1], x);
            } else {
                assert(r[a] == t[a - 1] && r[b] == t[b - 1]);
            }
        }
        assert forall|y: Seq<char>| #[trigger] r.contains(y) <==> (t.contains(y) || y == x) by {
            if r.contains(y) {
                let k = choose|k: int| 0 <= k < r.len() && r[k] == y;
                if k < p {
                    assert(t[k] == y);
                } else if k > p {
                    assert(t[k - 1] == y);
                }
            }
            if t.contains(y) {
                let k = choose|k: int| 0 <= k < t.len() && t[k] == y;
                if k < p {
                    assert(r[k] == y);
                } else {
                    assert(r[k + 1] == y);
                }
            }
            if y == x {
                assert(r[p] == y);
            }
        }
    }
}

/// The distinct sorted items of `s` are sorted and hold exactly the items of `s`.
pub proof fn lemma_sorted_unique(s: Seq<Seq<char>>)
    ensures
        strictly_sorted(sorted_unique(s)),
        forall|y: Seq<char>| #[trigger] sorted_unique(s).contains(y) <==> s.contains(y),
    decreases s.len(),
{
    if s.len() > 0 {
        lemma_sorted_unique(s.drop_last());
        lemma_set_insert(sorted_unique(s.drop_last()), s.last());
        assert forall|y: Seq<char>| #[trigger] sorted_unique(s).contains(y) <==> s.contains(y) by {
            if s.contains(y) && y != s.last() {
                let k = choose|k: int| 0 <= k < s.len() && s[k] == y;
                assert(s.drop_last()[k] == y);
            }
            if s.drop_last().contains(y) {
                let k = choose|k: int| 0 <= k < s.drop_last().len() && s.drop_last()[k] == y;
                assert(s[k] == y);
            }
            assert(s[s.len() - 1] == s.last());
        }
    } else {
        assert(sorted_unique(s) =~= Seq::<Seq<char>>::empty());
    }
}

// ---------------------------------------------------------------------------
// Executable functions
// ---------------------------------------------------------------------------

/// Checks that `value` is a valid name.
pub fn validate_name(kind: NameKind, value: &str) -> (r: Result<(), Error>)
    ensures
        match name_error(kind, value@) {
            Some(e) => r matches Err(x) && x@ == e,
            None => r is Ok,
        },
{
    let v = chars_of(value);
    if v.len() == 0 {
        return Err(Error::EmptyName { kind });
    }
    let first = v[0];
    if !(('a' <= first && first <= 'z') || ('0' <= first && first <= '9')) {
        return Err(Error::InvalidNameStart { kind, value: value.to_owned() });
    }
    let mut i: usize = 1;
    while i < v.len()
        invariant
            1 <= i <= v@.len(),
            v@ == value@,
            name_start_ok(v@[0]),
            first_bad_char(v@, 1) == first_bad_char(v@, i as int),
        decreases v.len() - i,
    {
        let ch = v[i];
        if !(('a' <= ch && ch <= 'z') || ('0' <= ch && ch <= '9') || ch == '_' || ch == '-') {
            assert(first_bad_char(v@, i as int) == Some(ch));
            return Err(Error::InvalidNameChar { kind, value: value.to_owned(), ch });
        }
        assert(first_bad_char(v@, i as int) == first_bad_char(v@, i + 1));
        i = i + 1;
    }
    assert(first_bad_char(v@, i as int) is None);
    Ok(())
}

/// A name trimmed and lowercased, when it is valid.
pub fn normalize_name(kind: NameKind, value: &str) -> (r: Result<String, Error>)
    ensures
        res_str(r) == spec_normalize_name(kind, value@),
{
    let trimmed = trim_str(value);
    let normalized = to_ascii_lowercase(trimmed.as_str());
    match validate_name(kind, normalized.as_str()) {
        Ok(()) => Ok(normalized),
        Err(e) => Err(e),
    }
}

/// A primary name trimmed and lowercased, when it is valid.
pub fn normalize_primary(value: &str) -> (r: Result<String, Error>)
    ensures
        res_str(r) == spec_normalize_name(NameKind::Primary, value@),
{
    normalize_name(NameKind::Primary, value)
}

/// An alias trimmed and lowercased, when it is valid.
pub fn normalize_alias(value: &str) -> (r: Result<String, Error>)
    ensures
        res_str(r) == spec_normalize_name(NameKind::Alias, value@),
{
    normalize_name(NameKind::Alias, value)
}

/// A tag trimmed and lowercased, when it is valid.
pub fn normalize_tag(value: &str) -> (r: Result<String, Error>)
    ensures
        res_str(r) == spec_normalize_name(NameKind::Tag, value@),
{
    normalize_name(NameKind::Tag, value)
}

/// Each name normalized, in order, stopping at the first one refused.
pub fn normalize_names(kind: NameKind, values: &Vec<String>) -> (r: Result<Vec<String>, Error>)
    ensures
        res_strs(r) == normalize_all(kind, views(values@)),
{
    let ghost vs = views(values@);
    let mut out: Vec<String> = Vec::new();
    let mut i: usize = 0;
    assert(vs.take(0) =~= Seq::<Seq<char>>::empty());
    assert(views(out@) =~= Seq::<Seq<char>>::empty());
    while i < values.len()
        invariant
            i <= values.len(),
            vs == views(values@),
            normalize_all(kind, vs.take(i as int)) == Ok::<Seq<Seq<char>>, ErrorView>(views(out@)),
        decreases values.len() - i,
    {
        let ghost pre = vs.take(i as int);
        assert(vs.take(i + 1).drop_last() =~= pre);
        assert(vs.take(i + 1).last() == values@[i as int]@);
        match normalize_name(kind, values[i].as_str()) {
            Ok(n) => {
                let ghost before = views(out@);
                let ghost nv = n@;
                out.push(n);
                assert(views(out@) =~= before.push(nv));
            },
            Err(e) => {
                proof {
                    lemma_normalize_all_err(kind, vs.take(i + 1), vs.skip(i + 1));
                    assert(vs.take(i + 1) + vs.skip(i + 1) =~= vs);
                }
                return Err(e);
            },
        }
        i = i + 1;
    }
    assert(vs.take(values.len() as int) =~= vs);
    Ok(out)
}

/// Adds `x` to a sorted set of strings; tells whether it was there already.
fn insert_sorted_unique(t: &mut Vec<String>, x: String) -> (found: bool)
    requires
        strictly_sorted(views(old(t)@)),
    ensures
        views(final(t)@) == set_insert(views(old(t)@), x@),
        found == views(old(t)@).contains(x@),
{
    let ghost s = views(t@);
    proof {
        lemma_sorted_pos(s, x@);
    }
    let mut p: usize = 0;
    while p < t.len() && str_lt(t[p].as_str(), x.as_str())
        invariant
            s == views(t@),
            strictly_sorted(s),
            p <= s.len(),
            p <= sorted_pos(s, x@),
            0 <= sorted_pos(s, x@) <= s.len(),
            forall|j: int| sorted_pos(s, x@) <= j < s.len() ==> !seq_lt(#[trigger] s[j], x@),
        decreases s.len() - p,
    {
        assert(seq_lt(s[p as int], x@));
        p = p + 1;
    }
    assert(p == sorted_pos(s, x@)) by {
        if p < sorted_pos(s, x@) {
            lemma_sorted_pos(s, x@);
            assert(seq_lt(s[p as int], x@));
        }
    }
    let found = p < t.len() && str_eq(t[p].as_str(), x.as_str());
    assert(found == s.contains(x@)) by {
        lemma_sorted_pos(s, x@);
        if found {
            assert(s[p as int] == x@);
        }
        if s.contains(x@) {
            let k = choose|k: int| 0 <= k < s.len() && s[k] == x@;
            lemma_lt_irreflexive(x@);
            if k < p {
                assert(seq_lt(s[k], x@));
            } else if k > p {
                assert(seq_lt(s[p as int], s[k]));
                lemma_lt_total(s[p as int], x@);
                lemma_lt_asymmetric(s[p as int], x@);
            }
        }
    }
    if !found {
        t.insert(p, x);
        assert(views(t@) =~= set_insert(s, x@));
    }
    found
}

/// Extra aliases normalized and sorted; a repeated alias is refused.
pub fn normalize_aliases(values: &Vec<String>) -> (r: Result<Vec<String>, Error>)
    ensures
        res_strs(r) == spec_normalize_aliases(views(values@)),
{
    let ns = match normalize_names(NameKind::Alias, values) {
        Ok(ns) => ns,
        Err(e) => return Err(e),
    };
    let ghost s = views(ns@);
    let mut t: Vec<String> = Vec::new();
    let mut dup: Option<String> = None;
    let mut i: usize = 0;
    assert(s.take(0) =~= Seq::<Seq<char>>::empty());
    assert(views(t@) =~= Seq::<Seq<char>>::empty());
    while i < ns.len()
        invariant
            i <= ns.len(),
            s == views(ns@),
            views(t@) == sorted_unique(s.take(i as int)),
            crate::normalize::opt_view(dup) == min_dup(s.take(i as int)),
        decreases ns.len() - i,
    {
        let ghost pre = s.take(i as int);
        proof {
            lemma_sorted_unique(pre);
            assert(s.take(i + 1).drop_last() =~= pre);
            assert(s.take(i + 1).last() == s[i as int]);
        }
        let x = ns[i].clone();
        let found = insert_sorted_unique(&mut t, x);
        if found {
            let x2 = ns[i].as_str();
            dup = match dup {
                Some(d) => if str_lt(x2, d.as_str()) {
                    Some(x2.to_owned())
                } else {
                    Some(d)
                },
                None => Some(x2.to_owned()),
            };
        }
        i = i + 1;
    }
    assert(s.take(ns.len() as int) =~= s);
    match dup {
        Some(d) => Err(Error::DuplicateAlias { alias: d }),
        None => Ok(t),
    }
}

/// Tags normalized and sorted, repeats dropped.
pub fn normalize_tags(values: &Vec<String>) -> (r: Result<Vec<String>, Error>)
    ensures
        res_strs(r) == spec_normalize_tags(views(values@)),
{
    let ns = match normalize_names(NameKind::Tag, values) {
        Ok(ns) => ns,
        Err(e) => return Err(e),
    };
    let ghost s = views(ns@);
    let mut t: Vec<String> = Vec::new();
    let mut i: usize = 0;
    assert(s.take(0) =~= Seq::<Seq<char>>::empty());
    assert(views(t@) =~= Seq::<Seq<char>>::empty());
    while i < ns.len()
        invariant
            i <= ns.len(),
            s == views(ns@),
            views(t@) == sorted_unique(s.take(i as int)),
        decreases ns.len() - i,
    {
        proof {
            lemma_sorted_unique(s.take(i as int));
            assert(s.take(i + 1).drop_last() =~= s.take(i as int));
            assert(s.take(i + 1).last() == s[i as int]);
        }
        let x = ns[i].clone();
        let _ = insert_sorted_unique(&mut t, x);
        i = i + 1;
    }
    assert(s.take(ns.len() as int) =~= s);
    Ok(t)
}

/// A note trimmed; a blank note becomes no note.
pub fn normalize_note(note: Option<String>) -> (r: Option<String>)
    ensures
        opt_view(r) == spec_normalize_note(opt_view(note)),
{
    match note {
        Some(value) => {
            let trimmed = trim_str(value.as_str());
            if trimmed.as_str().is_empty() {
                None
            } else {
                Some(trimmed)
            }
        },
        None => None,
    }
}

/// What a URL check gives for a trimmed URL and the parser's answer on it: the URL when it
/// parsed (a parsed URL always has a scheme), else the parser's error.
pub fn check_parsed_url(normalized: String, parsed: Result<url::Url, UrlError>) -> (r: Result<String, Error>)
    ensures
        match parsed {
            Ok(_) => r matches Ok(s) && s@ == normalized@,
            Err(c) => r matches Err(Error::InvalidUrl { url, cause }) && url@ == normalized@ && cause == c,
        },
{
    match parsed {
        Err(cause) => Err(Error::InvalidUrl { url: normalized, cause }),
        Ok(u) => {
            if url_scheme(&u).is_empty() {
                Err(Error::MissingScheme { url: normalized })
            } else {
                Ok(normalized)
            }
        },
    }
}

/// A URL trimmed, when the URL parser accepts it and finds a scheme.
pub fn normalize_url(value: &str) -> (r: Result<String, Error>)
    ensures
        res_str(r) == spec_normalize_url(value@),
{
    let normalized = trim_str(value);
    let parsed = url_parse(normalized.as_str());
    check_parsed_url(normalized, parsed)
}

} // verus!
