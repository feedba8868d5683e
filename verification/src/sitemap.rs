//! The `sitemap.xml` document: the site's fixed pages and every content entry, each
//! URL once, in increasing order.
use vstd::prelude::*;

use crate::content_db::{entry_handles, ContentDatabase};
use crate::order::{
    chars_eq, chars_lt, lemma_str_lt_asymmetric, lemma_str_lt_irreflexive, lemma_str_lt_total,
    lemma_str_lt_transitive, str_lt,
};
use crate::text::{chars_of, push_char, push_str, strip_leading};

verus! {

// ───────────────────────────── XML escaping ─────────────────────────────

/// How one character is written in XML text.
pub open spec fn escape_xml_char(c: char) -> Seq<char> {
    if c == '&' {
        "&amp;"@
    } else if c == '<' {
        "&lt;"@
    } else if c == '>' {
        "&gt;"@
    } else if c == '"' {
        "&quot;"@
    } else if c == '\'' {
        "&apos;"@
    } else {
        seq![c]
    }
}

/// The XML-escaped form of a string: each character escaped in turn.
pub open spec fn escape_xml_spec(s: Seq<char>) -> Seq<char>
    decreases s.len(),
{
    if s.len() == 0 {
        Seq::<char>::empty()
    } else {
        escape_xml_spec(s.drop_last()) + escape_xml_char(s.last())
    }
}

fn push_escaped_xml(out: &mut String, v: &Vec<char>)
    ensures
        final(out)@ == old(out)@ + escape_xml_spec(v@),
{
    let mut i: usize = 0;
    while i < v.len()
        invariant
            i <= v.len(),
            out@ == old(out)@ + escape_xml_spec(v@.take(i as int)),
        decreases v.len() - i,
    {
        let c = v[i];
        proof {
            reveal_strlit("&amp;");
            reveal_strlit("&lt;");
            reveal_strlit("&gt;");
            reveal_strlit("&quot;");
            reveal_strlit("&apos;");
        }
        if c == '&' {
            push_str(out, "&amp;");
        } else if c == '<' {
            push_str(out, "&lt;");
        } else if c == '>' {
            push_str(out, "&gt;");
        } else if c == '"' {
            push_str(out, "&quot;");
        } else if c == '\'' {
            push_str(out, "&apos;");
        } else {
            push_char(out, c);
        }
        assert(v@.take(i + 1).drop_last() =~= v@.take(i as int));
        assert(out@ =~= old(out)@ + escape_xml_spec(v@.take(i + 1)));
        i = i + 1;
    }
    assert(v@.take(v.len() as int) =~= v@);
}

/// Escapes the five XML special characters of `value`.
pub fn escape_xml(value: &str) -> (escaped: String)
    ensures
        escaped@ == escape_xml_spec(value@),
{
    let v = chars_of(value);
    let mut out = String::new();
    push_escaped_xml(&mut out, &v);
    assert(out@ =~= escape_xml_spec(value@));
    out
}

/// Escaped text holds no `<`, `>`, `"` or `'`, so it cannot close the element it
/// stands in.
pub proof fn lemma_escaped_xml_has_no_markup(s: Seq<char>)
    ensures
        forall|i: int|
            0 <= i < escape_xml_spec(s).len() ==> {
                let c = #[trigger] escape_xml_spec(s)[i];
                c != '<' && c != '>' && c != '"' && c != '\''
            },
    decreases s.len(),
{
    reveal_strlit("&amp;");
    reveal_strlit("&lt;");
    reveal_strlit("&gt;");
    reveal_strlit("&quot;");
    reveal_strlit("&apos;");
    if s.len() > 0 {
        lemma_escaped_xml_has_no_markup(s.drop_last());
        let a = escape_xml_spec(s.drop_last());
        let b = escape_xml_char(s.last());
        assert forall|i: int| 0 <= i < (a + b).len() implies {
            let c = #[trigger] (a + b)[i];
            c != '<' && c != '>' && c != '"' && c != '\''
        } by {
            if i < a.len() {
                assert((a + b)[i] == a[i]);
            } else {
                assert((a + b)[i] == b[i - a.len()]);
            }
        }
    }
}

// ───────────────────────────── sorted, duplicate-free URL lists ─────────────────────────────

/// Every string of the list is smaller than every later one.
pub open spec fn strictly_sorted(s: Seq<Seq<char>>) -> bool {
    forall|i: int, j: int| 0 <= i < j < s.len() ==> str_lt(#[trigger] s[i], #[trigger] s[j])
}

/// Inserts `x` at its place in a sorted list, unless it is already there.
pub open spec fn insert_unique(s: Seq<Seq<char>>, x: Seq<char>) -> Seq<Seq<char>>
    decreases s.len(),
{
    if s.len() == 0 {
        seq![x]
    } else if s[0] == x {
        s
    } else if str_lt(x, s[0]) {
        seq![x] + s
    } else {
        seq![s[0]] + insert_unique(s.drop_first(), x)
    }
}

/// A list sorted with its duplicates removed (`sort` then `dedup`).
pub open spec fn sort_dedup(s: Seq<Seq<char>>) -> Seq<Seq<char>>
    decreases s.len(),
{
    if s.len() == 0 {
        Seq::<Seq<char>>::empty()
    } else {
        insert_unique(sort_dedup(s.drop_last()), s.last())
    }
}

pub(crate) proof fn lemma_insert_unique(s: Seq<Seq<char>>, x: Seq<char>)
    requires
        strictly_sorted(s),
    ensures
        strictly_sorted(insert_unique(s, x)),
        insert_unique(s, x).to_set() == s.to_set().insert(x),
    decreases s.len(),
{
    if s.len() == 0 {
        assert(seq![x].to_set() =~= Set::<Seq<char>>::empty().insert(x)) by {
            assert(seq![x][0] == x);
        }
        assert(s.to_set() =~= Set::<Seq<char>>::empty());
    } else if s[0] == x {
        assert(s.to_set().insert(x) =~= s.to_set()) by {
            assert(s.contains(x));
        }
    } else if str_lt(x, s[0]) {
        let r = seq![x] + s;
        assert forall|i: int, j: int| 0 <= i < j < r.len() implies str_lt(
            #[trigger] r[i],
            #[trigger] r[j],
        ) by {
            if i == 0 {
                if j > 1 {
                    lemma_str_lt_transitive(x, s[0], s[j - 1]);
                }
            } else {
                assert(r[i] == s[i - 1] && r[j] == s[j - 1]);
            }
        }
        assert(r.to_set() =~= s.to_set().insert(x)) by {
            assert forall|y| r.contains(y) <==> s.to_set().insert(x).contains(y) by {
                if s.contains(y) {
                    let k = choose|k: int| 0 <= k < s.len() && s[k] == y;
                    assert(r[k + 1] == y);
                }
                if r.contains(y) && y != x {
                    let k = choose|k: int| 0 <= k < r.len() && r[k] == y;
                    assert(s[k - 1] == y);
                }
                assert(r[0] == x);
            }
        }
    } else {
        let t = s.drop_first();
        assert(strictly_sorted(t));
        lemma_insert_unique(t, x);
        let it = insert_unique(t, x);
        let r = seq![s[0]] + it;
        lemma_str_lt_total(x, s[0]);
        assert forall|i: int, j: int| 0 <= i < j < r.len() implies str_lt(
            #[trigger] r[i],
            #[trigger] r[j],
        ) by {
            if i == 0 {
                assert(r[j] == it[j - 1]);
                assert(it.to_set().contains(it[j - 1])) by {
                    assert(it.contains(it[j - 1]));
                }
                if it[j - 1] == x {
                } else {
                    assert(t.contains(it[j - 1]));
                    let k = choose|k: int| 0 <= k < t.len() && t[k] == it[j - 1];
                    assert(s[k + 1] == t[k]);
                }
            } else {
                assert(r[i] == it[i - 1] && r[j] == it[j - 1]);
            }
        }
        assert(r.to_set() =~= s.to_set().insert(x)) by {
            assert forall|y| r.contains(y) <==> s.to_set().insert(x).contains(y) by {
                if s.contains(y) && y != s[0] {
                    let k = choose|k: int| 0 <= k < s.len() && s[k] == y;
                    assert(t[k - 1] == y);
                    assert(it.to_set().contains(y));
                    let m = choose|m: int| 0 <= m < it.len() && it[m] == y;
                    assert(r[m + 1] == y);
                }
                if y == x {
                    assert(it.to_set().contains(x));
                    let m = choose|m: int| 0 <= m < it.len() && it[m] == y;
                    assert(r[m + 1] == y);
                }
                if r.contains(y) && y != s[0] {
                    let k = choose|k: int| 0 <= k < r.len() && r[k] == y;
                    assert(it[k - 1] == y);
                    assert(it.contains(y));
                    assert(it.to_set().contains(y));
                    if y != x {
                        assert(t.to_set().contains(y));
                        assert(t.contains(y));
                        let m = choose|m: int| 0 <= m < t.len() && t[m] == y;
                        assert(s[m + 1] == y);
                    }
                }
                assert(r[0] == s[0]);
            }
        }
    }
}

/// `sort_dedup` gives a strictly increasing list of exactly the strings it was given.
pub proof fn lemma_sort_dedup(s: Seq<Seq<char>>)
    ensures
        strictly_sorted(sort_dedup(s)),
        sort_dedup(s).to_set() == s.to_set(),
    decreases s.len(),
{
    if s.len() == 0 {
        assert(s.to_set() =~= Set::<Seq<char>>::empty());
        assert(sort_dedup(s).to_set() =~= Set::<Seq<char>>::empty());
    } else {
        lemma_sort_dedup(s.drop_last());
        lemma_insert_unique(sort_dedup(s.drop_last()), s.last());
        assert(s.to_set() =~= s.drop_last().to_set().insert(s.last())) by {
            assert forall|y| s.contains(y) <==> s.drop_last().to_set().insert(s.last()).contains(y) by {
                if s.contains(y) && y != s.last() {
                    let k = choose|k: int| 0 <= k < s.len() && s[k] == y;
                    assert(s.drop_last()[k] == y);
                }
                if s.drop_last().contains(y) {
                    let k = choose|k: int| 0 <= k < s.drop_last().len() && s.drop_last()[k] == y;
                    assert(s[k] == y);
                }
                assert(s[s.len() - 1] == s.last());
            }
        }
    }
}

/// Where the search for `x`'s place stops, `insert_unique` keeps `s` or puts `x` there.
proof fn lemma_insert_unique_at(s: Seq<Seq<char>>, x: Seq<char>, p: int)
    requires
        strictly_sorted(s),
        0 <= p <= s.len(),
        forall|i: int| 0 <= i < p ==> str_lt(#[trigger] s[i], x),
        p < s.len() ==> !str_lt(s[p], x),
    ensures
        insert_unique(s, x) == (if p < s.len() && s[p] == x {
            s
        } else {
            s.take(p).push(x) + s.skip(p)
        }),
    decreases s.len(),
{
    if s.len() == 0 {
        assert(s.take(p).push(x) + s.skip(p) =~= seq![x]);
    } else if p == 0 {
        lemma_str_lt_total(x, s[0]);
        if s[0] != x {
            assert(s.take(0).push(x) + s.skip(0) =~= seq![x] + s);
        }
    } else {
        lemma_str_lt_asymmetric(s[0], x);
        let t = s.drop_first();
        assert forall|i: int| 0 <= i < p - 1 implies str_lt(#[trigger] t[i], x) by {
            assert(s[i + 1] == t[i]);
        }
        assert(strictly_sorted(t));
        lemma_insert_unique_at(t, x, p - 1);
        if p < s.len() && s[p] == x {
            assert(seq![s[0]] + t =~= s);
        } else {
            assert(seq![s[0]] + (t.take(p - 1).push(x) + t.skip(p - 1)) =~= s.take(p).push(x)
                + s.skip(p));
        }
    }
}

pub open spec fn views(v: Seq<Vec<char>>) -> Seq<Seq<char>> {
    v.map_values(|w: Vec<char>| w@)
}

/// Inserts `x` in the sorted list `v` unless it is there already.
pub(crate) fn insert_sorted_unique(v: &mut Vec<Vec<char>>, x: Vec<char>)
    requires
        strictly_sorted(views(old(v)@)),
    ensures
        views(final(v)@) == insert_unique(views(old(v)@), x@),
{
    let ghost s = views(v@);
    let mut p: usize = 0;
    while p < v.len() && chars_lt(&v[p], &x)
        invariant
            p <= v.len(),
            s == views(v@),
            forall|i: int| 0 <= i < p ==> str_lt(#[trigger] s[i], x@),
        decreases v.len() - p,
    {
        p = p + 1;
    }
    proof {
        lemma_insert_unique_at(s, x@, p as int);
    }
    if p < v.len() && chars_eq(&v[p], &x) {
        return;
    }
    v.insert(p, x);
    assert(views(v@) =~= s.take(p as int).push(x@) + s.skip(p as int));
}

// ───────────────────────────── the sitemap ─────────────────────────────

/// The fixed pages of the site.
pub open spec fn static_urls() -> Seq<Seq<char>> {
    seq![
        "https://maxleriche.net/"@,
        "https://maxleriche.net/about"@,
        "https://maxleriche.net/projects"@,
        "https://maxleriche.net/blog"@,
        "https://maxleriche.net/docs"@,
        "https://maxleriche.net/contact"@,
    ]
}

/// The URL of the content entry with the given handle.
pub open spec fn entry_url(handle: Seq<char>) -> Seq<char> {
    "https://maxleriche.net/"@ + strip_leading(handle, '/')
}

/// Every URL the sitemap covers, before sorting: the fixed pages, then one per entry.
pub open spec fn all_urls(handles: Seq<Seq<char>>) -> Seq<Seq<char>> {
    static_urls() + handles.map_values(|h: Seq<char>| entry_url(h))
}

/// The `<url>` elements for a list of URLs.
pub open spec fn url_elements(urls: Seq<Seq<char>>) -> Seq<char>
    decreases urls.len(),
{
    if urls.len() == 0 {
        Seq::<char>::empty()
    } else {
        url_elements(urls.drop_last()) + "<url><loc>"@ + escape_xml_spec(urls.last())
            + "</loc></url>"@
    }
}

pub open spec fn sitemap_header() -> Seq<char> {
    "<?xml version=\"1.0\" encoding=\"UTF-8\"?><urlset xmlns=\"http://www.sitemaps.org/schemas/sitemap/0.9\">"@
}

/// The sitemap of a database whose entries have the given handles.
pub open spec fn sitemap_xml(handles: Seq<Seq<char>>) -> Seq<char> {
    sitemap_header() + url_elements(sort_dedup(all_urls(handles))) + "</urlset>"@
}

/// The URL of an entry, from its handle with the leading slashes removed.
fn entry_url_chars(handle: &str) -> (url: Vec<char>)
    ensures
        url@ == entry_url(handle@),
{
    let h = chars_of(handle);
    let mut url = chars_of("https://maxleriche.net/");
    let mut i: usize = 0;
    assert(h@.skip(0) =~= h@);
    while i < h.len() && h[i] == '/'
        invariant
            i <= h.len(),
            strip_leading(h@, '/') == strip_leading(h@.skip(i as int), '/'),
        decreases h.len() - i,
    {
        assert(h@.skip(i as int).drop_first() =~= h@.skip(i + 1));
        i = i + 1;
    }
    let ghost base = url@;
    let mut j = i;
    while j < h.len()
        invariant
            i <= j <= h.len(),
            url@ == base + h@.subrange(i as int, j as int),
        decreases h.len() - j,
    {
        url.push(h[j]);
        assert(h@.subrange(i as int, j + 1) =~= h@.subrange(i as int, j as int).push(h[j as int]));
        j = j + 1;
    }
    assert(h@.skip(0) =~= h@);
    assert(h@.subrange(i as int, h.len() as int) =~= h@.skip(i as int));
    assert(strip_leading(h@.skip(i as int), '/') == h@.skip(i as int));
    url
}

/// Builds `sitemap.xml` for the fixed pages and every entry of the database.
pub fn build_sitemap_xml(database: &ContentDatabase) -> (xml: String)
    ensures
        xml@ == sitemap_xml(entry_handles(database)),
{
    let ghost handles = entry_handles(database);
    let ghost all = all_urls(handles);
    let mut fixed: Vec<Vec<char>> = Vec::new();
    fixed.push(chars_of("https://maxleriche.net/"));
    fixed.push(chars_of("https://maxleriche.net/about"));
    fixed.push(chars_of("https://maxleriche.net/projects"));
    fixed.push(chars_of("https://maxleriche.net/blog"));
    fixed.push(chars_of("https://maxleriche.net/docs"));
    fixed.push(chars_of("https://maxleriche.net/contact"));
    assert(views(fixed@) =~= static_urls());
    let mut urls: Vec<Vec<char>> = Vec::new();
    let mut i: usize = 0;
    while i < fixed.len()
        invariant
            i <= fixed.len() == 6,
            views(fixed@) == static_urls(),
            all == all_urls(handles),
            strictly_sorted(views(urls@)),
            views(urls@) == sort_dedup(all.take(i as int)),
        decreases fixed.len() - i,
    {
        proof {
            lemma_insert_unique(views(urls@), fixed@[i as int]@);
        }
        insert_sorted_unique(&mut urls, fixed[i].clone());
        assert(all.take(i + 1).drop_last() =~= all.take(i as int));
        assert(all.take(i + 1).last() == fixed@[i as int]@);
        i = i + 1;
    }
    let mut k: usize = 0;
    while k < database.entries.len()
        invariant
            k <= database.entries.len(),
            handles == entry_handles(database),
            all == all_urls(handles),
            strictly_sorted(views(urls@)),
            views(urls@) == sort_dedup(all.take(6 + k)),
        decreases database.entries.len() - k,
    {
        let url = entry_url_chars(database.entries[k].handle.as_str());
        proof {
            lemma_insert_unique(views(urls@), url@);
        }
        insert_sorted_unique(&mut urls, url);
        assert(all.take(6 + k + 1).drop_last() =~= all.take(6 + k));
        assert(all[6 + k] == entry_url(handles[k as int]));
        k = k + 1;
    }
    assert(all.take(6 + k) =~= all);
    let mut xml = String::new();
    proof {
        reveal_strlit("<url><loc>");
        reveal_strlit("</loc></url>");
    }
    push_str(
        &mut xml,
        "<?xml version=\"1.0\" encoding=\"UTF-8\"?><urlset xmlns=\"http://www.sitemaps.org/schemas/sitemap/0.9\">",
    );
    let ghost sorted = views(urls@);
    let mut m: usize = 0;
    while m < urls.len()
        invariant
            m <= urls.len(),
            sorted == views(urls@),
            xml@ == sitemap_header() + url_elements(sorted.take(m as int)),
        decreases urls.len() - m,
    {
        push_str(&mut xml, "<url><loc>");
        push_escaped_xml(&mut xml, &urls[m]);
        push_str(&mut xml, "</loc></url>");
        assert(sorted.take(m + 1).drop_last() =~= sorted.take(m as int));
        assert(xml@ =~= sitemap_header() + url_elements(sorted.take(m + 1)));
        m = m + 1;
    }
    push_str(&mut xml, "</urlset>");
    assert(sorted.take(m as int) =~= sorted);
    assert(xml@ =~= sitemap_xml(handles));
    xml
}

/// The sitemap lists every fixed page and every entry, each exactly once and in
/// increasing order, and nothing else.
pub proof fn lemma_sitemap_urls(handles: Seq<Seq<char>>)
    ensures
        strictly_sorted(sort_dedup(all_urls(handles))),
        sort_dedup(all_urls(handles)).no_duplicates(),
        sort_dedup(all_urls(handles)).to_set() == all_urls(handles).to_set(),
        forall|h: Seq<char>| #[trigger]
            handles.contains(h) ==> sort_dedup(all_urls(handles)).contains(entry_url(h)),
{
    let s = sort_dedup(all_urls(handles));
    lemma_sort_dedup(all_urls(handles));
    assert forall|i: int, j: int| 0 <= i < s.len() && 0 <= j < s.len() && i != j implies s[i]
        != s[j] by {
        if i < j {
            lemma_str_lt_asymmetric(s[i], s[j]);
        } else {
            lemma_str_lt_asymmetric(s[j], s[i]);
        }
    }
    assert forall|h: Seq<char>| #[trigger] handles.contains(h) implies s.contains(entry_url(h)) by {
        let k = choose|k: int| 0 <= k < handles.len() && handles[k] == h;
        let all = all_urls(handles);
        assert(all[6 + k] == entry_url(h));
        assert(all.contains(entry_url(h)));
        assert(s.to_set().contains(entry_url(h)));
    }
}

} // verus!
