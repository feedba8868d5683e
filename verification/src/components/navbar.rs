//! The navigation bar's page search: the fixed pages, and how entries are matched
//! and ranked against a query.
use vstd::prelude::*;

use crate::i18n::{Language, Translations};
use crate::order::{chars_lt, str_lt};
use crate::text::{
    chars_of, contains_chars, contains_seq, has_prefix, lowercase, starts_with_chars,
    string_of_range, to_lowercase, trim_range, trim_spec,
};

verus! {

/// A page that the search can find.
pub struct SearchEntryData {
    pub title: String,
    pub description: String,
    pub handle: String,
    pub href: String,
    pub kind: String,
}

impl SearchEntryData {
    /// A copy of the entry.
    pub fn duplicate(&self) -> (r: Self)
        ensures
            r == *self,
    {
        SearchEntryData {
            title: self.title.clone(),
            description: self.description.clone(),
            handle: self.handle.clone(),
            href: self.href.clone(),
            kind: self.kind.clone(),
        }
    }
}

/// How well an entry matches a (trimmed, lowercased) needle: 0 when its title starts
/// with it, 1 when its title contains it, 2 when its handle does, 3 when its
/// description does; no score when none does.
pub open spec fn search_score(item: SearchEntryData, needle: Seq<char>) -> Option<u8> {
    if has_prefix(lowercase(item.title@), needle) {
        Some(0)
    } else if contains_seq(lowercase(item.title@), needle) {
        Some(1)
    } else if contains_seq(lowercase(item.handle@), needle) {
        Some(2)
    } else if contains_seq(lowercase(item.description@), needle) {
        Some(3)
    } else {
        None
    }
}

/// The matching entries with their scores, in the order given.
pub open spec fn scored(items: Seq<SearchEntryData>, needle: Seq<char>) -> Seq<(u8, SearchEntryData)>
    decreases items.len(),
{
    if items.len() == 0 {
        Seq::empty()
    } else {
        let rest = scored(items.drop_last(), needle);
        match search_score(items.last(), needle) {
            Some(s) => rest.push((s, items.last())),
            None => rest,
        }
    }
}

/// `a` ranks strictly before `b`: a lower score, or the same score and a smaller
/// lowercased title.
pub open spec fn ranks_before(a: (u8, SearchEntryData), b: (u8, SearchEntryData)) -> bool {
    a.0 < b.0 || (a.0 == b.0 && str_lt(lowercase(a.1.title@), lowercase(b.1.title@)))
}

/// Inserts `x` after every element that does not rank after it.
pub open spec fn insert_ranked(s: Seq<(u8, SearchEntryData)>, x: (u8, SearchEntryData)) -> Seq<
    (u8, SearchEntryData),
>
    decreases s.len(),
{
    if s.len() > 0 && ranks_before(x, s.last()) {
        insert_ranked(s.drop_last(), x).push(s.last())
    } else {
        s.push(x)
    }
}

/// The scored entries in rank order, entries of equal rank in their original order
/// (a stable sort).
pub open spec fn rank(s: Seq<(u8, SearchEntryData)>) -> Seq<(u8, SearchEntryData)>
    decreases s.len(),
{
    if s.len() == 0 {
        s
    } else {
        insert_ranked(rank(s.drop_last()), s.last())
    }
}

/// What the search shows for a query: nothing for a blank query; otherwise the
/// matching entries in rank order, at most eight.
pub open spec fn search_results(items: Seq<SearchEntryData>, query: Seq<char>) -> Seq<SearchEntryData> {
    let needle = lowercase(trim_spec(query));
    if needle.len() == 0 {
        Seq::empty()
    } else {
        let ranked = rank(scored(items, needle));
        ranked.take(if ranked.len() < 8 { ranked.len() as int } else { 8 }).map_values(
            |p: (u8, SearchEntryData)| p.1,
        )
    }
}

/// An entry being ranked, with its score and lowercased title at hand.
struct Ranked {
    score: u8,
    title_key: Vec<char>,
    item: SearchEntryData,
}

spec fn ranked_view(r: Ranked) -> (u8, SearchEntryData) {
    (r.score, r.item)
}

spec fn ranked_views(v: Seq<Ranked>) -> Seq<(u8, SearchEntryData)> {
    v.map_values(|r: Ranked| ranked_view(r))
}

spec fn keys_ok(v: Seq<Ranked>) -> bool {
    forall|i: int| 0 <= i < v.len() ==> (#[trigger] v[i]).title_key@ == lowercase(v[i].item.title@)
}

fn ranks_before_exec(a: &Ranked, b: &Ranked) -> (r: bool)
    requires
        a.title_key@ == lowercase(a.item.title@),
        b.title_key@ == lowercase(b.item.title@),
    ensures
        r == ranks_before(ranked_view(*a), ranked_view(*b)),
{
    a.score < b.score || (a.score == b.score && chars_lt(&a.title_key, &b.title_key))
}

fn insert_ranked_exec(v: &mut Vec<Ranked>, x: Ranked)
    requires
        keys_ok(old(v)@),
        x.title_key@ == lowercase(x.item.title@),
    ensures
        keys_ok(final(v)@),
        ranked_views(final(v)@) == insert_ranked(ranked_views(old(v)@), ranked_view(x)),
{
    let ghost s = ranked_views(v@);
    let mut p = v.len();
    assert(s.take(p as int) =~= s);
    assert(s.skip(p as int) =~= Seq::<(u8, SearchEntryData)>::empty());
    while p > 0 && ranks_before_exec(&x, &v[p - 1])
        invariant
            p <= v.len(),
            s == ranked_views(v@),
            keys_ok(v@),
            x.title_key@ == lowercase(x.item.title@),
            insert_ranked(s, ranked_view(x)) == insert_ranked(s.take(p as int), ranked_view(x))
                + s.skip(p as int),
        decreases p,
    {
        let ghost t = s.take(p as int);
        assert(t.drop_last() =~= s.take(p - 1));
        assert(t.last() == s[p - 1]);
        assert(s.skip(p - 1) =~= seq![s[p - 1]] + s.skip(p as int));
        assert(insert_ranked(t, ranked_view(x)) == insert_ranked(s.take(p - 1), ranked_view(x)).push(
            s[p - 1],
        ));
        assert(insert_ranked(s.take(p - 1), ranked_view(x)).push(s[p - 1]) + s.skip(p as int)
            =~= insert_ranked(s.take(p - 1), ranked_view(x)) + s.skip(p - 1));
        p = p - 1;
    }
    assert(insert_ranked(s.take(p as int), ranked_view(x)) == s.take(p as int).push(ranked_view(x)));
    v.insert(p, x);
    assert(ranked_views(v@) =~= s.take(p as int).push(ranked_view(x)) + s.skip(p as int));
}

/// The lowercased title, handle and description of an entry, and its score.
fn score_of(item: &SearchEntryData, needle: &Vec<char>) -> (r: (Option<u8>, Vec<char>))
    ensures
        r.0 == search_score(*item, needle@),
        r.1@ == lowercase(item.title@),
{
    let title = chars_of(to_lowercase(item.title.as_str()).as_str());
    if starts_with_chars(&title, needle) {
        return (Some(0), title);
    }
    if contains_chars(&title, needle) {
        return (Some(1), title);
    }
    let handle = chars_of(to_lowercase(item.handle.as_str()).as_str());
    if contains_chars(&handle, needle) {
        return (Some(2), title);
    }
    let description = chars_of(to_lowercase(item.description.as_str()).as_str());
    if contains_chars(&description, needle) {
        return (Some(3), title);
    }
    (None, title)
}

/// The entries that match a query, best first, at most eight.
pub fn filter_search_results(items: &[SearchEntryData], query: &str) -> (results: Vec<SearchEntryData>)
    ensures
        results@ == search_results(items@, query@),
{
    let q = chars_of(query);
    let (a, b) = trim_range(&q, 0, q.len());
    assert(q@.subrange(0, q@.len() as int) =~= query@);
    let trimmed = string_of_range(&q, a, b);
    let needle = chars_of(to_lowercase(trimmed.as_str()).as_str());
    if needle.len() == 0 {
        return Vec::new();
    }
    let mut ranked: Vec<Ranked> = Vec::new();
    let mut i: usize = 0;
    while i < items.len()
        invariant
            i <= items.len(),
            needle@ == lowercase(trim_spec(query@)),
            keys_ok(ranked@),
            ranked_views(ranked@) == rank(scored(items@.take(i as int), needle@)),
        decreases items.len() - i,
    {
        let ghost prev = items@.take(i as int);
        assert(items@.take(i + 1).drop_last() =~= prev);
        assert(items@.take(i + 1).last() == items@[i as int]);
        let (score, title_key) = score_of(&items[i], &needle);
        match score {
            Some(s) => {
                let x = Ranked { score: s, title_key, item: items[i].duplicate() };
                let ghost sc = scored(prev, needle@);
                assert(scored(items@.take(i + 1), needle@) == sc.push((s, items@[i as int])));
                assert(sc.push((s, items@[i as int])).drop_last() =~= sc);
                insert_ranked_exec(&mut ranked, x);
            },
            None => {},
        }
        i = i + 1;
    }
    assert(items@.take(items.len() as int) =~= items@);
    let ghost all = ranked_views(ranked@);
    let n = if ranked.len() < 8 {
        ranked.len()
    } else {
        8
    };
    let mut results: Vec<SearchEntryData> = Vec::new();
    let mut k: usize = 0;
    while k < n
        invariant
            k <= n <= ranked.len(),
            all == ranked_views(ranked@),
            results@ == all.take(k as int).map_values(|p: (u8, SearchEntryData)| p.1),
        decreases n - k,
    {
        results.push(ranked[k].item.duplicate());
        assert(all.take(k + 1).map_values(|p: (u8, SearchEntryData)| p.1) =~= all.take(
            k as int,
        ).map_values(|p: (u8, SearchEntryData)| p.1).push(all[k as int].1));
        k = k + 1;
    }
    results
}

fn entry(title: &str, description: &str, handle: &str, href: &str) -> (e: SearchEntryData)
    ensures
        e.title@ == title@,
        e.description@ == description@,
        e.handle@ == handle@,
        e.href@ == href@,
        e.kind@ == "page"@,
{
    SearchEntryData {
        title: String::from_str(title),
        description: String::from_str(description),
        handle: String::from_str(handle),
        href: String::from_str(href),
        kind: String::from_str("page"),
    }
}

/// The home, about and contact pages, as search entries in the given language.
pub fn static_search_entries(lang: Language, t: &Translations) -> (entries: Vec<SearchEntryData>)
    ensures
        entries@.len() == 3,
        entries@[0].title@ == t.nav_home@,
        entries@[0].description@ == (match lang {
            Language::Fr => "Page d'accueil du portfolio."@,
            Language::En => "Portfolio home page."@,
        }),
        entries@[0].handle@ == ""@,
        entries@[0].href@ == "/"@,
        entries@[1].title@ == t.nav_about@,
        entries@[1].description@ == (match lang {
            Language::Fr => "Presentation et parcours."@,
            Language::En => "Background and profile."@,
        }),
        entries@[1].handle@ == "about"@,
        entries@[1].href@ == "/about"@,
        entries@[2].title@ == t.nav_contact@,
        entries@[2].description@ == (match lang {
            Language::Fr => "Moyens de contact."@,
            Language::En => "Ways to get in touch."@,
        }),
        entries@[2].handle@ == "contact"@,
        entries@[2].href@ == "/contact"@,
        forall|i: int| 0 <= i < 3 ==> (#[trigger] entries@[i]).kind@ == "page"@,
{
    let home_description = match lang {
        Language::Fr => "Page d'accueil du portfolio.",
        Language::En => "Portfolio home page.",
    };
    let about_description = match lang {
        Language::Fr => "Presentation et parcours.",
        Language::En => "Background and profile.",
    };
    let contact_description = match lang {
        Language::Fr => "Moyens de contact.",
        Language::En => "Ways to get in touch.",
    };
    let mut entries = Vec::new();
    entries.push(entry(t.nav_home, home_description, "", "/"));
    entries.push(entry(t.nav_about, about_description, "about", "/about"));
    entries.push(entry(t.nav_contact, contact_description, "contact", "/contact"));
    entries
}

proof fn lemma_insert_ranked_members(s: Seq<(u8, SearchEntryData)>, x: (u8, SearchEntryData))
    ensures
        insert_ranked(s, x).len() == s.len() + 1,
        forall|y| #[trigger] insert_ranked(s, x).contains(y) ==> s.contains(y) || y == x,
    decreases s.len(),
{
    if s.len() > 0 && ranks_before(x, s.last()) {
        lemma_insert_ranked_members(s.drop_last(), x);
        let r = insert_ranked(s.drop_last(), x);
        assert forall|y| #[trigger] r.push(s.last()).contains(y) implies s.contains(y) || y == x by {
            let k = choose|k: int| 0 <= k < r.push(s.last()).len() && r.push(s.last())[k] == y;
            if k < r.len() {
                assert(r.contains(y));
                if s.drop_last().contains(y) {
                    let m = choose|m: int| 0 <= m < s.drop_last().len() && s.drop_last()[m] == y;
                    assert(s[m] == y);
                }
            } else {
                assert(s[s.len() - 1] == y);
            }
        }
    } else {
        assert forall|y| #[trigger] s.push(x).contains(y) implies s.contains(y) || y == x by {
            let k = choose|k: int| 0 <= k < s.push(x).len() && s.push(x)[k] == y;
            if k < s.len() {
                assert(s[k] == y);
            }
        }
    }
}

proof fn lemma_rank_members(s: Seq<(u8, SearchEntryData)>)
    ensures
        rank(s).len() == s.len(),
        forall|y| #[trigger] rank(s).contains(y) ==> s.contains(y),
    decreases s.len(),
{
    if s.len() > 0 {
        lemma_rank_members(s.drop_last());
        lemma_insert_ranked_members(rank(s.drop_last()), s.last());
        assert forall|y| #[trigger] rank(s).contains(y) implies s.contains(y) by {
            if rank(s.drop_last()).contains(y) {
                let m = choose|m: int| 0 <= m < s.drop_last().len() && s.drop_last()[m] == y;
                assert(s[m] == y);
            } else {
                assert(s[s.len() - 1] == y);
            }
        }
    }
}

proof fn lemma_scored_members(items: Seq<SearchEntryData>, needle: Seq<char>)
    ensures
        forall|p| #[trigger] scored(items, needle).contains(p) ==> search_score(p.1, needle) == Some(p.0)
            && items.contains(p.1),
    decreases items.len(),
{
    if items.len() > 0 {
        lemma_scored_members(items.drop_last(), needle);
        let rest = scored(items.drop_last(), needle);
        assert forall|p| #[trigger] scored(items, needle).contains(p) implies search_score(p.1, needle)
            == Some(p.0) && items.contains(p.1) by {
            let sc = scored(items, needle);
            let k = choose|k: int| 0 <= k < sc.len() && sc[k] == p;
            if k < rest.len() {
                assert(rest[k] == p);
                assert(rest.contains(p));
                let m = choose|m: int| 0 <= m < items.drop_last().len() && items.drop_last()[m] == p.1;
                assert(items[m] == p.1);
            } else {
                assert(items[items.len() - 1] == p.1);
            }
        }
    }
}

/// The search shows at most eight entries, each one of the searchable entries and
/// each matching the trimmed, lowercased query in its title, handle or description.
pub proof fn lemma_search_results_match(items: Seq<SearchEntryData>, query: Seq<char>)
    ensures
        search_results(items, query).len() <= 8,
        forall|i: int|
            0 <= i < search_results(items, query).len() ==> items.contains(
                #[trigger] search_results(items, query)[i],
            ) && search_score(search_results(items, query)[i], lowercase(trim_spec(query))) is Some,
{
    let needle = lowercase(trim_spec(query));
    if needle.len() > 0 {
        let sc = scored(items, needle);
        lemma_scored_members(items, needle);
        lemma_rank_members(sc);
        let ranked = rank(sc);
        let n = if ranked.len() < 8 { ranked.len() as int } else { 8 };
        let res = search_results(items, query);
        assert forall|i: int| 0 <= i < res.len() implies items.contains(#[trigger] res[i])
            && search_score(res[i], needle) is Some by {
            assert(res[i] == ranked[i].1);
            assert(ranked.contains(ranked[i]));
            assert(sc.contains(ranked[i]));
        }
    }
}

/// No element ranks strictly before an earlier one.
pub open spec fn rank_sorted(s: Seq<(u8, SearchEntryData)>) -> bool {
    forall|i: int, j: int| 0 <= i < j < s.len() ==> !ranks_before(#[trigger] s[j], #[trigger] s[i])
}

proof fn lemma_not_before_transitive(
    a: (u8, SearchEntryData),
    b: (u8, SearchEntryData),
    c: (u8, SearchEntryData),
)
    requires
        !ranks_before(a, b),
        !ranks_before(b, c),
    ensures
        !ranks_before(a, c),
{
    let ta = lowercase(a.1.title@);
    let tb = lowercase(b.1.title@);
    let tc = lowercase(c.1.title@);
    if a.0 == b.0 && b.0 == c.0 {
        crate::order::lemma_str_lt_total(ta, tb);
        crate::order::lemma_str_lt_total(tb, tc);
        if str_lt(ta, tc) {
            if str_lt(tb, ta) && str_lt(tc, tb) {
                crate::order::lemma_str_lt_transitive(tc, tb, ta);
                crate::order::lemma_str_lt_asymmetric(tc, ta);
            } else if str_lt(tb, ta) {
                crate::order::lemma_str_lt_asymmetric(tb, ta);
            } else if str_lt(tc, tb) {
                crate::order::lemma_str_lt_asymmetric(tc, tb);
            } else {
                crate::order::lemma_str_lt_irreflexive(ta);
            }
        }
    }
}

proof fn lemma_insert_ranked_sorted(s: Seq<(u8, SearchEntryData)>, x: (u8, SearchEntryData))
    requires
        rank_sorted(s),
    ensures
        rank_sorted(insert_ranked(s, x)),
    decreases s.len(),
{
    lemma_insert_ranked_members(s, x);
    let r = insert_ranked(s, x);
    if s.len() > 0 && ranks_before(x, s.last()) {
        let d = s.drop_last();
        lemma_insert_ranked_sorted(d, x);
        lemma_insert_ranked_members(d, x);
        let rd = insert_ranked(d, x);
        assert forall|i: int, j: int| 0 <= i < j < r.len() implies !ranks_before(
            #[trigger] r[j],
            #[trigger] r[i],
        ) by {
            if j < rd.len() {
                assert(r[i] == rd[i] && r[j] == rd[j]);
            } else {
                assert(r[j] == s.last());
                assert(r[i] == rd[i]);
                assert(rd.contains(rd[i]));
                if rd[i] == x {
                    if x.0 == s.last().0 {
                        crate::order::lemma_str_lt_asymmetric(
                            lowercase(x.1.title@),
                            lowercase(s.last().1.title@),
                        );
                    }
                } else {
                    assert(d.contains(rd[i]));
                    let k = choose|k: int| 0 <= k < d.len() && d[k] == rd[i];
                    assert(s[k] == d[k]);
                    assert(!ranks_before(s[s.len() - 1], s[k]));
                }
            }
        }
    } else {
        assert forall|i: int, j: int| 0 <= i < j < r.len() implies !ranks_before(
            #[trigger] r[j],
            #[trigger] r[i],
        ) by {
            if j < s.len() {
                assert(r[i] == s[i] && r[j] == s[j]);
            } else {
                assert(r[j] == x);
                assert(r[i] == s[i]);
                if i < s.len() - 1 {
                    assert(!ranks_before(s[s.len() - 1], s[i]));
                    if s.len() > 0 {
                        assert(!ranks_before(x, s[s.len() - 1]));
                        lemma_not_before_transitive(x, s[s.len() - 1], s[i]);
                    }
                }
            }
        }
    }
}

proof fn lemma_rank_sorted(s: Seq<(u8, SearchEntryData)>)
    ensures
        rank_sorted(rank(s)),
    decreases s.len(),
{
    if s.len() > 0 {
        lemma_rank_sorted(s.drop_last());
        lemma_insert_ranked_sorted(rank(s.drop_last()), s.last());
    }
}

/// The search shows the best matches first: a title that starts with the query,
/// then a title that contains it, then a handle, then a description; among equal
/// matches, titles in alphabetical order (lowercased).
pub proof fn lemma_search_results_ordered(items: Seq<SearchEntryData>, query: Seq<char>)
    ensures
        forall|i: int, j: int|
            #![trigger search_results(items, query)[i], search_results(items, query)[j]]
            0 <= i < j < search_results(items, query).len() ==> !ranks_before(
                (
                    search_score(search_results(items, query)[j], lowercase(trim_spec(query)))->0,
                    search_results(items, query)[j],
                ),
                (
                    search_score(search_results(items, query)[i], lowercase(trim_spec(query)))->0,
                    search_results(items, query)[i],
                ),
            ),
{
    let needle = lowercase(trim_spec(query));
    if needle.len() > 0 {
        let sc = scored(items, needle);
        lemma_scored_members(items, needle);
        lemma_rank_members(sc);
        lemma_rank_sorted(sc);
        let ranked = rank(sc);
        let res = search_results(items, query);
        assert forall|i: int, j: int| 0 <= i < j < res.len() implies !ranks_before(
            (search_score(res[j], needle)->0, res[j]),
            (search_score(res[i], needle)->0, res[i]),
        ) by {
            assert(res[i] == ranked[i].1);
            assert(res[j] == ranked[j].1);
            assert(ranked.contains(ranked[i]));
            assert(ranked.contains(ranked[j]));
            assert(sc.contains(ranked[i]));
            assert(sc.contains(ranked[j]));
            assert(!ranks_before(ranked[j], ranked[i]));
        }
    }
}

/// The search's order, written out: scores never go down along the results, and
/// among results of the same score the lowercased titles are in alphabetical order.
pub proof fn lemma_search_results_by_score_then_title(items: Seq<SearchEntryData>, query: Seq<char>)
    ensures
        forall|i: int, j: int|
            #![trigger search_results(items, query)[i], search_results(items, query)[j]]
            0 <= i < j < search_results(items, query).len() ==> {
                let needle = lowercase(trim_spec(query));
                let a = search_results(items, query)[i];
                let b = search_results(items, query)[j];
                &&& search_score(a, needle) is Some
                &&& search_score(b, needle) is Some
                &&& search_score(a, needle)->0 <= search_score(b, needle)->0
                &&& search_score(a, needle)->0 == search_score(b, needle)->0 ==> !str_lt(
                    lowercase(b.title@),
                    lowercase(a.title@),
                )
            },
{
    lemma_search_results_ordered(items, query);
    lemma_search_results_match(items, query);
    let res = search_results(items, query);
    let needle = lowercase(trim_spec(query));
    assert forall|i: int, j: int|
        #![trigger res[i], res[j]]
        0 <= i < j < res.len() implies {
        let a = res[i];
        let b = res[j];
        &&& search_score(a, needle) is Some
        &&& search_score(b, needle) is Some
        &&& search_score(a, needle)->0 <= search_score(b, needle)->0
        &&& search_score(a, needle)->0 == search_score(b, needle)->0 ==> !str_lt(
            lowercase(b.title@),
            lowercase(a.title@),
        )
    } by {
        assert(!ranks_before(
            (search_score(res[j], needle)->0, res[j]),
            (search_score(res[i], needle)->0, res[i]),
        ));
    }
}

} // verus!
