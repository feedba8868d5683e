//! The projects page: filters kept in the address, the filter itself, the lists of
//! tags and technologies to choose from, and pagination.
use vstd::prelude::*;

use crate::media::{media_image_spec, resolve_media_image};
use crate::pages::home::ProjectSummaryData;
use crate::pages::technologies::{push_lower, push_lower_joined, strs};
use crate::query::string_pairs;
use crate::sitemap::{insert_sorted_unique, lemma_insert_unique, sort_dedup, strictly_sorted, views};
use crate::text::{
    ascii_lower_seq, chars_of, contains_chars, contains_seq, decimal, join_with, lower_ascii_char,
    parse_unsigned, parse_unsigned_range, push_decimal, str_eq, string_of_range, trim_range,
    trim_spec,
};

verus! {

/// How many projects one page shows.
pub const PROJECTS_PER_PAGE: usize = 6;

/// Resolves the image of a project.
pub fn resolve_project_image(raw: &str) -> (r: Option<String>)
    ensures
        match r {
            Some(s) => media_image_spec(raw@) == Some(s@),
            None => media_image_spec(raw@) is None,
        },
{
    resolve_media_image(raw)
}

// ───────────────────────────── filters in the address ─────────────────────────────

/// The filters of the projects page: search text, tag, technology and page.
pub struct ProjectsQuery {
    pub search: String,
    pub tag: String,
    pub techno: String,
    pub page: usize,
}

/// The filters as plain values.
pub open spec fn projects_query_view(q: ProjectsQuery) -> (Seq<char>, Seq<char>, Seq<char>, nat) {
    (q.search@, q.tag@, q.techno@, q.page as nat)
}

/// The filters when the address says nothing: no search, every tag, every
/// technology, first page.
pub open spec fn default_projects_query() -> (Seq<char>, Seq<char>, Seq<char>, nat) {
    (Seq::empty(), "all"@, "all"@, 1)
}

/// What one decoded `key=value` pair does to the filters: `q` sets the search,
/// a non-empty `tag` or `tech` sets that filter, a `page` that reads as a number
/// sets the page (at least 1); anything else changes nothing.
pub open spec fn apply_projects_pair(
    st: (Seq<char>, Seq<char>, Seq<char>, nat),
    pair: (Seq<char>, Seq<char>),
) -> (Seq<char>, Seq<char>, Seq<char>, nat) {
    let (key, val) = pair;
    if key == "q"@ {
        (val, st.1, st.2, st.3)
    } else if key == "tag"@ && val.len() > 0 {
        (st.0, val, st.2, st.3)
    } else if key == "tech"@ && val.len() > 0 {
        (st.0, st.1, val, st.3)
    } else if key == "page"@ {
        match parse_unsigned(val, usize::MAX as nat) {
            Some(n) => (st.0, st.1, st.2, if n == 0 { 1 } else { n }),
            None => st,
        }
    } else {
        st
    }
}

/// The filters that a list of decoded pairs gives, pairs read in order.
pub open spec fn projects_query_spec(pairs: Seq<(Seq<char>, Seq<char>)>) -> (
    Seq<char>,
    Seq<char>,
    Seq<char>,
    nat,
)
    decreases pairs.len(),
{
    if pairs.len() == 0 {
        default_projects_query()
    } else {
        apply_projects_pair(projects_query_spec(pairs.drop_last()), pairs.last())
    }
}

/// Reads the filters of the projects page from the decoded pairs of its address.
pub fn projects_query_from_pairs(pairs: &[(String, String)]) -> (q: ProjectsQuery)
    ensures
        projects_query_view(q) == projects_query_spec(string_pairs(pairs@)),
{
    proof {
        reveal_strlit("all");
    }
    let ghost ps = string_pairs(pairs@);
    let mut q = ProjectsQuery {
        search: String::new(),
        tag: String::from_str("all"),
        techno: String::from_str("all"),
        page: 1,
    };
    assert(projects_query_view(q) == projects_query_spec(ps.take(0)));
    let mut i: usize = 0;
    while i < pairs.len()
        invariant
            i <= pairs.len(),
            ps == string_pairs(pairs@),
            projects_query_view(q) == projects_query_spec(ps.take(i as int)),
        decreases pairs.len() - i,
    {
        let key = pairs[i].0.as_str();
        let val = &pairs[i].1;
        assert(ps.take(i + 1).drop_last() =~= ps.take(i as int));
        assert(ps.take(i + 1).last() == (key@, val@));
        let ghost st = projects_query_view(q);
        let filled = chars_of(val.as_str()).len() > 0;
        if str_eq(key, "q") {
            q.search = val.clone();
        } else if str_eq(key, "tag") && filled {
            q.tag = val.clone();
        } else if str_eq(key, "tech") && filled {
            q.techno = val.clone();
        } else if str_eq(key, "page") {
            let v = chars_of(val.as_str());
            assert(v@.subrange(0, v@.len() as int) =~= val@);
            match parse_unsigned_range(&v, 0, v.len(), usize::MAX as u64) {
                Some(n) => {
                    q.page = if n == 0 {
                        1
                    } else {
                        n as usize
                    };
                },
                None => {},
            }
        }
        assert(projects_query_view(q) == apply_projects_pair(st, (key@, val@)));
        i = i + 1;
    }
    assert(ps.take(i as int) =~= ps);
    q
}

/// The pairs the projects page writes in its address: the trimmed search when it
/// is not blank, the tag and technology when they are not `all`, the page when it
/// is past the first.
pub open spec fn projects_pairs_spec(
    search: Seq<char>,
    tag: Seq<char>,
    techno: Seq<char>,
    page: nat,
) -> Seq<(Seq<char>, Seq<char>)> {
    (if trim_spec(search).len() == 0 {
        Seq::empty()
    } else {
        seq![("q"@, trim_spec(search))]
    }) + (if tag == "all"@ {
        Seq::empty()
    } else {
        seq![("tag"@, tag)]
    }) + (if techno == "all"@ {
        Seq::empty()
    } else {
        seq![("tech"@, techno)]
    }) + (if page > 1 {
        seq![("page"@, decimal(page))]
    } else {
        Seq::empty()
    })
}

/// The pairs to write in the address for the given filters.
pub fn projects_query_pairs(search: &str, tag: &str, techno: &str, page: usize) -> (pairs: Vec<
    (String, String),
>)
    ensures
        string_pairs(pairs@) == projects_pairs_spec(search@, tag@, techno@, page as nat),
{
    let v = chars_of(search);
    let (a, b) = trim_range(&v, 0, v.len());
    assert(v@.subrange(0, v@.len() as int) =~= search@);
    let mut pairs: Vec<(String, String)> = Vec::new();
    if a < b {
        pairs.push((String::from_str("q"), string_of_range(&v, a, b)));
    }
    let ghost first = string_pairs(pairs@);
    if !str_eq(tag, "all") {
        pairs.push((String::from_str("tag"), String::from_str(tag)));
    }
    let ghost second = string_pairs(pairs@);
    if !str_eq(techno, "all") {
        pairs.push((String::from_str("tech"), String::from_str(techno)));
    }
    let ghost third = string_pairs(pairs@);
    if page > 1 {
        let mut n = String::new();
        push_decimal(&mut n, page as u64);
        pairs.push((String::from_str("page"), n));
    }
    assert(string_pairs(pairs@) =~= projects_pairs_spec(search@, tag@, techno@, page as nat));
    pairs
}

// ───────────────────────────── filtering ─────────────────────────────

/// The text a search looks into: title, description, tags and technologies,
/// separated by spaces and lowercased (ASCII).
pub open spec fn project_haystack(p: ProjectSummaryData) -> Seq<char> {
    ascii_lower_seq(
        p.title@ + " "@ + p.description@ + " "@ + join_with(strs(p.tags@), " "@) + " "@
            + join_with(strs(p.techno@), " "@),
    )
}

/// Whether a project passes the filters; `query` is the search trimmed and
/// lowercased.
pub open spec fn project_matches(
    p: ProjectSummaryData,
    query: Seq<char>,
    tag: Seq<char>,
    techno: Seq<char>,
) -> bool {
    &&& (query.len() == 0 || contains_seq(project_haystack(p), query))
    &&& (tag == "all"@ || strs(p.tags@).contains(tag))
    &&& (techno == "all"@ || strs(p.techno@).contains(techno))
}

/// The search looks into the title, the description, every tag and every
/// technology of a project: a query found in any one of them (lowercased) lets the
/// project pass the search, and with no tag or technology chosen it passes.
pub proof fn lemma_search_fields(p: ProjectSummaryData, q: Seq<char>)
    ensures
        contains_seq(ascii_lower_seq(p.title@), q) ==> project_matches(p, q, "all"@, "all"@),
        contains_seq(ascii_lower_seq(p.description@), q) ==> project_matches(p, q, "all"@, "all"@),
        forall|k: int|
            0 <= k < p.tags@.len() && contains_seq(ascii_lower_seq(#[trigger] p.tags@[k]@), q)
                ==> project_matches(p, q, "all"@, "all"@),
        forall|k: int|
            0 <= k < p.techno@.len() && contains_seq(ascii_lower_seq(#[trigger] p.techno@[k]@), q)
                ==> project_matches(p, q, "all"@, "all"@),
{
    crate::pages::technologies::lemma_fields_text_contains(
        p.title@,
        p.description@,
        strs(p.tags@),
        strs(p.techno@),
        q,
    );
    assert(project_haystack(p) == crate::pages::technologies::fields_text(
        p.title@,
        p.description@,
        strs(p.tags@),
        strs(p.techno@),
    ));
    assert forall|k: int|
        0 <= k < p.tags@.len() && contains_seq(ascii_lower_seq(#[trigger] p.tags@[k]@), q) implies project_matches(
        p,
        q,
        "all"@,
        "all"@,
    ) by {
        assert(strs(p.tags@)[k] == p.tags@[k]@);
    }
    assert forall|k: int|
        0 <= k < p.techno@.len() && contains_seq(ascii_lower_seq(#[trigger] p.techno@[k]@), q) implies project_matches(
        p,
        q,
        "all"@,
        "all"@,
    ) by {
        assert(strs(p.techno@)[k] == p.techno@[k]@);
    }
}

/// A project passes a tag filter exactly when it has that tag, and a technology
/// filter exactly when it has that technology; `all` lets every project through.
pub proof fn lemma_choice_filters(p: ProjectSummaryData, tag: Seq<char>, techno: Seq<char>)
    ensures
        project_matches(p, Seq::empty(), tag, "all"@) <==> (tag == "all"@ || exists|k: int|
            0 <= k < p.tags@.len() && (#[trigger] p.tags@[k])@ == tag),
        project_matches(p, Seq::empty(), "all"@, techno) <==> (techno == "all"@ || exists|k: int|
            0 <= k < p.techno@.len() && (#[trigger] p.techno@[k])@ == techno),
{
    if exists|k: int| 0 <= k < p.tags@.len() && (#[trigger] p.tags@[k])@ == tag {
        let k = choose|k: int| 0 <= k < p.tags@.len() && (#[trigger] p.tags@[k])@ == tag;
        assert(strs(p.tags@)[k] == tag);
    }
    if strs(p.tags@).contains(tag) {
        let k = choose|k: int| 0 <= k < strs(p.tags@).len() && strs(p.tags@)[k] == tag;
        assert(p.tags@[k]@ == tag);
    }
    if exists|k: int| 0 <= k < p.techno@.len() && (#[trigger] p.techno@[k])@ == techno {
        let k = choose|k: int| 0 <= k < p.techno@.len() && (#[trigger] p.techno@[k])@ == techno;
        assert(strs(p.techno@)[k] == techno);
    }
    if strs(p.techno@).contains(techno) {
        let k = choose|k: int| 0 <= k < strs(p.techno@).len() && strs(p.techno@)[k] == techno;
        assert(p.techno@[k]@ == techno);
    }
}

/// The projects that pass the filters, in their order.
pub open spec fn filtered_projects(
    s: Seq<ProjectSummaryData>,
    query: Seq<char>,
    tag: Seq<char>,
    techno: Seq<char>,
) -> Seq<ProjectSummaryData>
    decreases s.len(),
{
    if s.len() == 0 {
        s
    } else if project_matches(s.last(), query, tag, techno) {
        filtered_projects(s.drop_last(), query, tag, techno).push(s.last())
    } else {
        filtered_projects(s.drop_last(), query, tag, techno)
    }
}

/// The filter keeps exactly the projects that pass: each one shown passes, and each
/// one that passes is shown.
pub proof fn lemma_filtered_projects_members(
    s: Seq<ProjectSummaryData>,
    q: Seq<char>,
    tag: Seq<char>,
    techno: Seq<char>,
)
    ensures
        forall|i: int|
            0 <= i < filtered_projects(s, q, tag, techno).len() ==> project_matches(
                #[trigger] filtered_projects(s, q, tag, techno)[i],
                q,
                tag,
                techno,
            ),
        forall|k: int|
            0 <= k < s.len() && project_matches(#[trigger] s[k], q, tag, techno)
                ==> filtered_projects(s, q, tag, techno).contains(s[k]),
    decreases s.len(),
{
    if s.len() > 0 {
        let d = s.drop_last();
        lemma_filtered_projects_members(d, q, tag, techno);
        let fd = filtered_projects(d, q, tag, techno);
        let f = filtered_projects(s, q, tag, techno);
        assert forall|i: int| 0 <= i < f.len() implies project_matches(#[trigger] f[i], q, tag, techno) by {
            if i < fd.len() {
                assert(f[i] == fd[i]);
            }
        }
        assert forall|k: int| 0 <= k < s.len() && project_matches(#[trigger] s[k], q, tag, techno) implies f.contains(
            s[k],
        ) by {
            if k < s.len() - 1 {
                assert(d[k] == s[k]);
                let m = choose|m: int| 0 <= m < fd.len() && fd[m] == s[k];
                assert(f[m] == s[k]);
            } else {
                assert(f[f.len() - 1] == s[k]);
            }
        }
    }
}

/// Whether `items` holds `x`.
fn has_string(items: &Vec<String>, x: &str) -> (r: bool)
    ensures
        r == strs(items@).contains(x@),
{
    let mut i: usize = 0;
    while i < items.len()
        invariant
            i <= items.len(),
            forall|k: int| 0 <= k < i ==> (#[trigger] items@[k])@ != x@,
        decreases items.len() - i,
    {
        if str_eq(items[i].as_str(), x) {
            assert(strs(items@)[i as int] == x@);
            return true;
        }
        i = i + 1;
    }
    proof {
        if strs(items@).contains(x@) {
            let k = choose|k: int| 0 <= k < strs(items@).len() && strs(items@)[k] == x@;
            assert(items@[k]@ == x@);
        }
    }
    false
}

/// The search as the filter uses it: trimmed, then lowercased (ASCII).
fn normalized_query(search: &str) -> (q: Vec<char>)
    ensures
        q@ == ascii_lower_seq(trim_spec(search@)),
{
    let v = chars_of(search);
    let (a, b) = trim_range(&v, 0, v.len());
    assert(v@.subrange(0, v@.len() as int) =~= search@);
    let mut q: Vec<char> = Vec::new();
    let mut i = a;
    while i < b
        invariant
            a <= i <= b <= v.len(),
            v@ == search@,
            trim_spec(search@) == v@.subrange(a as int, b as int),
            q@ == ascii_lower_seq(v@.subrange(a as int, i as int)),
        decreases b - i,
    {
        q.push(lower_ascii_char(v[i]));
        assert(ascii_lower_seq(v@.subrange(a as int, i + 1)) =~= ascii_lower_seq(
            v@.subrange(a as int, i as int),
        ).push(crate::text::ascii_lower(v[i as int])));
        i = i + 1;
    }
    q
}

/// Whether a project passes the filters.
pub fn project_passes(p: &ProjectSummaryData, query: &Vec<char>, tag: &str, techno: &str) -> (r:
    bool)
    ensures
        r == project_matches(*p, query@, tag@, techno@),
{
    proof {
        reveal_strlit(" ");
    }
    let matches_query = if query.len() == 0 {
        true
    } else {
        let mut hay: Vec<char> = Vec::new();
        push_lower(&mut hay, p.title.as_str());
        hay.push(' ');
        push_lower(&mut hay, p.description.as_str());
        hay.push(' ');
        push_lower_joined(&mut hay, &p.tags);
        hay.push(' ');
        push_lower_joined(&mut hay, &p.techno);
        assert(hay@ =~= project_haystack(*p));
        contains_chars(&hay, query)
    };
    let matches_tag = str_eq(tag, "all") || has_string(&p.tags, tag);
    let matches_techno = str_eq(techno, "all") || has_string(&p.techno, techno);
    matches_query && matches_tag && matches_techno
}

/// The projects that pass the filters of the page, in their order.
pub fn filter_projects(projects: Vec<ProjectSummaryData>, search: &str, tag: &str, techno: &str) -> (r:
    Vec<ProjectSummaryData>)
    ensures
        r@ == filtered_projects(projects@, ascii_lower_seq(trim_spec(search@)), tag@, techno@),
{
    let query = normalized_query(search);
    let ghost all = projects@;
    let total: usize = projects.len();
    let mut rest = projects;
    let mut out: Vec<ProjectSummaryData> = Vec::new();
    let mut taken: usize = 0;
    while rest.len() > 0
        invariant
            taken + rest@.len() == all.len(),
            all.len() == total,
            rest@ == all.skip(taken as int),
            query@ == ascii_lower_seq(trim_spec(search@)),
            out@ == filtered_projects(all.take(taken as int), query@, tag@, techno@),
        decreases rest.len(),
    {
        let p = rest.remove(0);
        assert(all.take(taken + 1).drop_last() =~= all.take(taken as int));
        assert(all.take(taken + 1).last() == p);
        if project_passes(&p, &query, tag, techno) {
            out.push(p);
        }
        assert(rest@ =~= all.skip(taken + 1));
        taken = taken + 1;
    }
    assert(all.take(taken as int) =~= all);
    out
}

// ───────────────────────────── choices of the selects ─────────────────────────────

/// Every tag (or every technology) of the projects, in project order.
pub open spec fn all_labels(s: Seq<ProjectSummaryData>, techno: bool) -> Seq<Seq<char>>
    decreases s.len(),
{
    if s.len() == 0 {
        Seq::empty()
    } else {
        all_labels(s.drop_last(), techno) + strs(
            if techno {
                s.last().techno@
            } else {
                s.last().tags@
            },
        )
    }
}

/// The tags (or technologies) of the projects, sorted, each once.
fn unique_labels(projects: &[ProjectSummaryData], techno: bool) -> (r: Vec<String>)
    ensures
        strs(r@) == sort_dedup(all_labels(projects@, techno)),
{
    let ghost ps = projects@;
    let mut acc: Vec<Vec<char>> = Vec::new();
    let ghost mut seen: Seq<Seq<char>> = Seq::empty();
    let mut i: usize = 0;
    while i < projects.len()
        invariant
            i <= projects.len(),
            ps == projects@,
            seen == all_labels(ps.take(i as int), techno),
            strictly_sorted(views(acc@)),
            views(acc@) == sort_dedup(seen),
        decreases projects.len() - i,
    {
        let items = if techno {
            &projects[i].techno
        } else {
            &projects[i].tags
        };
        assert(ps.take(i + 1).drop_last() =~= ps.take(i as int));
        let ghost start = seen;
        let mut j: usize = 0;
        while j < items.len()
            invariant
                j <= items.len(),
                strictly_sorted(views(acc@)),
                views(acc@) == sort_dedup(start + strs(items@).take(j as int)),
            decreases items.len() - j,
        {
            let x = chars_of(items[j].as_str());
            proof {
                lemma_insert_unique(views(acc@), x@);
            }
            insert_sorted_unique(&mut acc, x);
            let ghost t = start + strs(items@).take(j + 1);
            assert(t.drop_last() =~= start + strs(items@).take(j as int));
            assert(t.last() == items@[j as int]@);
            j = j + 1;
        }
        assert(strs(items@).take(j as int) =~= strs(items@));
        proof {
            seen = start + strs(items@);
        }
        assert(seen == all_labels(ps.take(i + 1), techno));
        i = i + 1;
    }
    assert(ps.take(i as int) =~= ps);
    let mut out: Vec<String> = Vec::new();
    let mut k: usize = 0;
    while k < acc.len()
        invariant
            k <= acc.len(),
            out@.len() == k,
            forall|m: int| 0 <= m < k ==> (#[trigger] out@[m])@ == acc@[m]@,
        decreases acc.len() - k,
    {
        let s = string_of_range(&acc[k], 0, acc[k].len());
        assert(acc@[k as int]@.subrange(0, acc@[k as int]@.len() as int) =~= acc@[k as int]@);
        out.push(s);
        k = k + 1;
    }
    assert(strs(out@) =~= views(acc@));
    out
}

/// The tags to choose from: every tag of the projects, sorted, each once.
pub fn unique_tags(projects: &[ProjectSummaryData]) -> (r: Vec<String>)
    ensures
        strs(r@) == sort_dedup(all_labels(projects@, false)),
{
    unique_labels(projects, false)
}

/// The technologies to choose from: every technology of the projects, sorted, each
/// once.
pub fn unique_techno(projects: &[ProjectSummaryData]) -> (r: Vec<String>)
    ensures
        strs(r@) == sort_dedup(all_labels(projects@, true)),
{
    unique_labels(projects, true)
}

// ───────────────────────────── pagination ─────────────────────────────

/// The number of pages for `count` projects: enough pages of six, and at least one.
pub open spec fn total_pages_spec(count: nat) -> nat {
    if count == 0 {
        1
    } else {
        ((count + 5) / 6) as nat
    }
}

/// The number of pages for `count` projects.
pub fn total_pages(count: usize) -> (pages: usize)
    ensures
        pages == total_pages_spec(count as nat),
{
    let full = count / PROJECTS_PER_PAGE;
    let pages = if count % PROJECTS_PER_PAGE == 0 {
        full
    } else {
        full + 1
    };
    if pages == 0 {
        1
    } else {
        pages
    }
}

/// The page to show when `page` was asked for and there are `total` pages: the
/// first page for 0, the last one past the end.
pub open spec fn clamp_page_spec(page: nat, total: nat) -> nat {
    if page > total {
        total
    } else if page == 0 {
        1
    } else {
        page
    }
}

/// Brings a page number back into the pages that exist.
pub fn clamp_page(page: usize, total: usize) -> (r: usize)
    ensures
        r == clamp_page_spec(page as nat, total as nat),
{
    if page > total {
        total
    } else if page == 0 {
        1
    } else {
        page
    }
}

/// The page the "previous" button leads to: one back, but never before the first.
pub fn previous_page(page: usize) -> (r: usize)
    ensures
        r == (if page > 1 {
            page - 1
        } else {
            page as int
        }),
{
    if page > 1 {
        page - 1
    } else {
        page
    }
}

/// The page the "next" button leads to: one on, but never past the last.
pub fn next_page(page: usize, total: usize) -> (r: usize)
    ensures
        r == (if page < total {
            page + 1
        } else {
            page as int
        }),
{
    if page < total {
        page + 1
    } else {
        page
    }
}

/// The "previous" button is disabled on the first page.
pub fn previous_disabled(page: usize) -> (r: bool)
    ensures
        r == (page <= 1),
{
    page <= 1
}

/// The "next" button is disabled on the last page.
pub fn next_disabled(page: usize, total: usize) -> (r: bool)
    ensures
        r == (page >= total),
{
    page >= total
}

/// The page indicator: `page/total`, each at least 1.
pub fn page_indicator(page: usize, total: usize) -> (text: String)
    ensures
        text@ == decimal(if page == 0 { 1 } else { page as nat }) + "/"@ + decimal(
            if total == 0 { 1 } else { total as nat },
        ),
{
    let mut text = String::new();
    push_decimal(&mut text, if page == 0 { 1 } else { page as u64 });
    crate::text::push_str(&mut text, "/");
    push_decimal(&mut text, if total == 0 { 1 } else { total as u64 });
    text
}

/// Editing the search shows the first page again.
pub fn set_search(q: &mut ProjectsQuery, search: String)
    ensures
        final(q).search@ == search@,
        final(q).tag@ == old(q).tag@,
        final(q).techno@ == old(q).techno@,
        final(q).page == 1,
{
    q.search = search;
    q.page = 1;
}

/// Choosing a tag shows the first page again.
pub fn set_tag(q: &mut ProjectsQuery, tag: String)
    ensures
        final(q).tag@ == tag@,
        final(q).search@ == old(q).search@,
        final(q).techno@ == old(q).techno@,
        final(q).page == 1,
{
    q.tag = tag;
    q.page = 1;
}

/// Choosing a technology shows the first page again.
pub fn set_techno(q: &mut ProjectsQuery, techno: String)
    ensures
        final(q).techno@ == techno@,
        final(q).search@ == old(q).search@,
        final(q).tag@ == old(q).tag@,
        final(q).page == 1,
{
    q.techno = techno;
    q.page = 1;
}

/// Stepping back or forward from a page that exists leads to a page that exists.
pub proof fn lemma_steps_stay_in_range(page: nat, total: nat)
    requires
        1 <= page <= total,
    ensures
        1 <= (if page > 1 { page - 1 } else { page as int }) <= total,
        1 <= (if page < total { (page + 1) as int } else { page as int }) <= total,
{
}

/// The projects of page `page` (counted from 1; 0 reads as 1).
pub open spec fn page_spec<T>(s: Seq<T>, page: nat) -> Seq<T> {
    let start = if page == 0 {
        0
    } else {
        (page - 1) * 6
    };
    if start >= s.len() {
        Seq::empty()
    } else if start + 6 >= s.len() {
        s.skip(start)
    } else {
        s.subrange(start, start + 6)
    }
}

/// The projects shown on page `page`.
pub fn page_projects(projects: Vec<ProjectSummaryData>, page: usize) -> (r: Vec<ProjectSummaryData>)
    requires
        page == 0 || (page - 1) * 6 <= usize::MAX,
    ensures
        r@ == page_spec(projects@, page as nat),
{
    let p = if page == 0 {
        1
    } else {
        page
    };
    let start = (p - 1) * PROJECTS_PER_PAGE;
    let mut rest = projects;
    if start >= rest.len() {
        return Vec::new();
    }
    let mut shown = rest.split_off(start);
    shown.truncate(PROJECTS_PER_PAGE);
    shown
}

// ───────────────────────────── laws ─────────────────────────────

proof fn lemma_query_spec_push(pairs: Seq<(Seq<char>, Seq<char>)>, x: (Seq<char>, Seq<char>))
    ensures
        projects_query_spec(pairs + seq![x]) == apply_projects_pair(projects_query_spec(pairs), x),
{
    assert((pairs + seq![x]).drop_last() =~= pairs);
    assert((pairs + seq![x]).last() == x);
}

/// Writing the filters in the address and reading them back gives the filters
/// again, the search trimmed and page 0 read as 1 (a tag or technology filter is
/// never empty: the page sets them from the lists of choices or to `all`).
pub proof fn lemma_projects_query_round_trip(
    search: Seq<char>,
    tag: Seq<char>,
    techno: Seq<char>,
    page: nat,
)
    requires
        tag.len() > 0,
        techno.len() > 0,
        page <= usize::MAX,
    ensures
        projects_query_spec(projects_pairs_spec(search, tag, techno, page)) == (
            trim_spec(search),
            tag,
            techno,
            if page == 0 {
                1
            } else {
                page
            },
        ),
{
    reveal_strlit("q");
    reveal_strlit("tag");
    reveal_strlit("tech");
    reveal_strlit("page");
    reveal_strlit("all");
    let e = Seq::<(Seq<char>, Seq<char>)>::empty();
    let a: Seq<(Seq<char>, Seq<char>)> = if trim_spec(search).len() == 0 {
        e
    } else {
        seq![("q"@, trim_spec(search))]
    };
    let b: Seq<(Seq<char>, Seq<char>)> = if tag == "all"@ {
        e
    } else {
        seq![("tag"@, tag)]
    };
    let c: Seq<(Seq<char>, Seq<char>)> = if techno == "all"@ {
        e
    } else {
        seq![("tech"@, techno)]
    };
    let d: Seq<(Seq<char>, Seq<char>)> = if page > 1 {
        seq![("page"@, decimal(page))]
    } else {
        e
    };
    assert(projects_pairs_spec(search, tag, techno, page) == a + b + c + d);
    // after the search
    assert(projects_query_spec(a) == (trim_spec(search), "all"@, "all"@, 1nat)) by {
        if trim_spec(search).len() != 0 {
            lemma_query_spec_push(e, ("q"@, trim_spec(search)));
            assert(e + seq![("q"@, trim_spec(search))] =~= a);
        }
    }
    // after the tag
    assert(projects_query_spec(a + b) == (trim_spec(search), tag, "all"@, 1nat)) by {
        if tag == "all"@ {
            assert(a + b =~= a);
        } else {
            assert(b == seq![("tag"@, tag)]);
            lemma_query_spec_push(a, ("tag"@, tag));
            assert("tag"@.len() == 3 && "q"@.len() == 1);
        }
    }
    // after the technology
    assert(projects_query_spec(a + b + c) == (trim_spec(search), tag, techno, 1nat)) by {
        if techno == "all"@ {
            assert(a + b + c =~= a + b);
        } else {
            assert(c == seq![("tech"@, techno)]);
            lemma_query_spec_push(a + b, ("tech"@, techno));
            assert("tech"@.len() == 4 && "q"@.len() == 1 && "tag"@.len() == 3);
        }
    }
    // after the page
    if page > 1 {
        crate::text::lemma_decimal_digits(page);
        assert(parse_unsigned(decimal(page), usize::MAX as nat) == Some(page));
        assert(d == seq![("page"@, decimal(page))]);
        lemma_query_spec_push(a + b + c, ("page"@, decimal(page)));
        assert("page"@.len() == 4 && "q"@.len() == 1 && "tag"@.len() == 3);
        assert("page"@[0] != "tech"@[0]);
        assert("page"@ != "tech"@);
    } else {
        assert(a + b + c + d =~= a + b + c);
    }
}

/// The tags (technologies) to choose from are in increasing order, each once, and
/// are exactly the tags (technologies) of the projects.
pub proof fn lemma_unique_labels(projects: Seq<ProjectSummaryData>, techno: bool)
    ensures
        strictly_sorted(sort_dedup(all_labels(projects, techno))),
        sort_dedup(all_labels(projects, techno)).to_set() == all_labels(projects, techno).to_set(),
{
    crate::sitemap::lemma_sort_dedup(all_labels(projects, techno));
}

/// A page asked for is brought into the pages that exist: from 1 to the last one.
pub proof fn lemma_clamp_page_in_range(page: nat, total: nat)
    requires
        total >= 1,
    ensures
        1 <= clamp_page_spec(page, total) <= total,
{
}

/// Pagination shows every project exactly where expected: project `i` is item
/// `i % 6` of page `i / 6 + 1`, a page that exists; pages hold at most six
/// projects.
pub proof fn lemma_pages_cover<T>(s: Seq<T>, i: int, page: nat)
    requires
        0 <= i < s.len(),
    ensures
        i / 6 + 1 <= total_pages_spec(s.len()),
        page_spec(s, (i / 6 + 1) as nat).len() > i % 6,
        page_spec(s, (i / 6 + 1) as nat)[i % 6] == s[i],
        page_spec(s, page).len() <= 6,
{
    let p = i / 6 + 1;
    let start = (p - 1) * 6;
    assert(start == i - i % 6);
    assert(start <= i < s.len());
}

} // verus!
