//! Content pages (`/blogs/…`, `/docs/…`): the documentation sidebar, links from
//! technologies to their documentation, and the page's metadata.
use vstd::prelude::*;

use crate::content_db::{ContentDatabase, ContentEntry, SidebarItem};
use crate::date_utils::{display_date, format_display_date};
use crate::i18n::Language;
use crate::media::{resolve_visual, visual_spec, visual_view, VisualSource};
use crate::seo::{canonical_url, canonical_url_spec};
use crate::text::{
    char_lowercase, char_to_lowercase, chars_of, has_prefix, is_ascii_alnum, is_alnum_char,
    push_range, push_str, split_char, split_ranges, starts_with_chars, str_eq, strip_leading,
    strip_trailing, trim_range, trim_spec,
};

verus! {

/// A node of the documentation navigation as the pages receive it.
pub struct DocSidebarItemData {
    pub title: String,
    pub handle: String,
    pub order: u64,
    /// `markdown`, `folder` or `folder_with_index`.
    pub kind: String,
    pub children: Vec<DocSidebarItemData>,
}

/// Two lists of navigation nodes hold the same titles, handles, orders and kinds, at
/// every depth.
pub open spec fn same_items(a: Seq<DocSidebarItemData>, b: Seq<DocSidebarItemData>) -> bool
    decreases a,
{
    if a.len() != b.len() {
        false
    } else if a.len() == 0 {
        true
    } else {
        let x = a.last();
        let y = b.last();
        proof {
            assert(decreases_to!(a => x));
            assert(decreases_to!(x => x.children));
            assert(decreases_to!(x.children => x.children@));
        }
        &&& same_items(a.drop_last(), b.drop_last())
        &&& x.title@ == y.title@
        &&& x.handle@ == y.handle@
        &&& x.order == y.order
        &&& x.kind@ == y.kind@
        &&& same_items(x.children@, y.children@)
    }
}

/// A deep copy of a list of navigation nodes.
pub fn duplicate_items(items: &[DocSidebarItemData]) -> (r: Vec<DocSidebarItemData>)
    ensures
        same_items(r@, items@),
    decreases items@,
{
    let mut r: Vec<DocSidebarItemData> = Vec::new();
    let mut i: usize = 0;
    while i < items.len()
        invariant
            i <= items.len(),
            same_items(r@, items@.take(i as int)),
        decreases items.len() - i,
    {
        let it = &items[i];
        proof {
            assert(decreases_to!(items@ => items@[i as int]));
        }
        let children = duplicate_items(it.children.as_slice());
        let ghost before = r@;
        r.push(
            DocSidebarItemData {
                title: it.title.clone(),
                handle: it.handle.clone(),
                order: it.order,
                kind: it.kind.clone(),
                children,
            },
        );
        assert(r@.drop_last() =~= before);
        assert(items@.take(i + 1).drop_last() =~= items@.take(i as int));
        assert(items@.take(i + 1).last() == items@[i as int]);
        i = i + 1;
    }
    assert(items@.take(items.len() as int) =~= items@);
    r
}

// ───────────────────────────── header image ─────────────────────────────

/// Resolves the header image of a content page.
pub fn resolve_header_image(raw: &str) -> (r: Option<VisualSource>)
    ensures
        match r {
            Some(v) => visual_spec(raw@) == Some(visual_view(v)),
            None => visual_spec(raw@) is None,
        },
{
    resolve_visual(raw)
}

// ───────────────────────────── handle-like slugs ─────────────────────────────

/// The characters of a text, each replaced by its lowercase mapping.
pub open spec fn lower_stream(s: Seq<char>) -> Seq<char>
    decreases s.len(),
{
    if s.len() == 0 {
        Seq::<char>::empty()
    } else {
        lower_stream(s.drop_last()) + char_lowercase(s.last())
    }
}

/// ASCII letters and digits kept, every run of other characters turned into one dash.
pub open spec fn collapse_dashes(t: Seq<char>) -> Seq<char>
    decreases t.len(),
{
    if t.len() == 0 {
        Seq::<char>::empty()
    } else {
        let r = collapse_dashes(t.drop_last());
        if is_ascii_alnum(t.last()) {
            r.push(t.last())
        } else if r.len() > 0 && r.last() == '-' {
            r
        } else {
            r.push('-')
        }
    }
}

/// A slug in the style of content handles: lowercase ASCII letters and digits, other
/// characters collapsed into single dashes, no dash at either end.
pub open spec fn handle_slug(value: Seq<char>) -> Seq<char> {
    strip_trailing(strip_leading(collapse_dashes(lower_stream(value)), '-'), '-')
}

/// Turns a title or handle into a slug comparable with content handles.
pub fn slugify_like_handle(value: &str) -> (slug: String)
    ensures
        slug@ == handle_slug(value@),
{
    let v = chars_of(value);
    let mut out: Vec<char> = Vec::new();
    let mut i: usize = 0;
    while i < v.len()
        invariant
            i <= v.len(),
            v@ == value@,
            out@ == collapse_dashes(lower_stream(v@.take(i as int))),
        decreases v.len() - i,
    {
        let lower = char_to_lowercase(v[i]);
        let ghost base = lower_stream(v@.take(i as int));
        assert(v@.take(i + 1).drop_last() =~= v@.take(i as int));
        assert(lower_stream(v@.take(i + 1)) == base + lower@);
        let mut j: usize = 0;
        assert(base + lower@.take(0) =~= base);
        while j < lower.len()
            invariant
                j <= lower.len(),
                out@ == collapse_dashes(base + lower@.take(j as int)),
            decreases lower.len() - j,
        {
            let c = lower[j];
            let ghost t = base + lower@.take(j as int);
            assert((base + lower@.take(j + 1)).drop_last() =~= t);
            assert((base + lower@.take(j + 1)).last() == c);
            if is_alnum_char(c) {
                out.push(c);
            } else if !(out.len() > 0 && out[out.len() - 1] == '-') {
                out.push('-');
            }
            j = j + 1;
        }
        assert(lower@.take(lower.len() as int) =~= lower@);
        i = i + 1;
    }
    assert(v@.take(v.len() as int) =~= v@);
    let mut a: usize = 0;
    assert(out@.skip(0) =~= out@);
    while a < out.len() && out[a] == '-'
        invariant
            a <= out.len(),
            strip_leading(out@, '-') == strip_leading(out@.skip(a as int), '-'),
        decreases out.len() - a,
    {
        assert(out@.skip(a as int).drop_first() =~= out@.skip(a + 1));
        a = a + 1;
    }
    assert(strip_leading(out@.skip(a as int), '-') == out@.skip(a as int));
    let mut b = out.len();
    assert(out@.subrange(a as int, out@.len() as int) =~= out@.skip(a as int));
    while b > a && out[b - 1] == '-'
        invariant
            a <= b <= out.len(),
            strip_trailing(out@.skip(a as int), '-') == strip_trailing(
                out@.subrange(a as int, b as int),
                '-',
            ),
        decreases b - a,
    {
        assert(out@.subrange(a as int, b as int).drop_last() =~= out@.subrange(a as int, b - 1));
        b = b - 1;
    }
    let mut s = String::new();
    let mut k = a;
    while k < b
        invariant
            a <= k <= b <= out.len(),
            s@ == out@.subrange(a as int, k as int),
        decreases b - k,
    {
        crate::text::push_char(&mut s, out[k]);
        assert(out@.subrange(a as int, k + 1) =~= out@.subrange(a as int, k as int).push(
            out[k as int],
        ));
        k = k + 1;
    }
    s
}

// ───────────────────────────── documentation index ─────────────────────────────

/// The (title, handle) pairs of every node that is not a plain folder, depth first.
pub open spec fn doc_index(items: Seq<DocSidebarItemData>) -> Seq<(Seq<char>, Seq<char>)>
    decreases items,
{
    if items.len() == 0 {
        Seq::empty()
    } else {
        let x = items.last();
        proof {
            assert(decreases_to!(items => x));
            assert(decreases_to!(x => x.children));
            assert(decreases_to!(x.children => x.children@));
        }
        doc_index(items.drop_last()) + (if x.kind@ != "folder"@ {
            seq![(x.title@, x.handle@)]
        } else {
            Seq::empty()
        }) + doc_index(x.children@)
    }
}

pub open spec fn pair_views(v: Seq<(String, String)>) -> Seq<(Seq<char>, Seq<char>)> {
    v.map_values(|p: (String, String)| (p.0@, p.1@))
}

/// Appends the (title, handle) pairs of the pages of the documentation tree.
pub fn flatten_doc_index(items: &[DocSidebarItemData], out: &mut Vec<(String, String)>)
    ensures
        pair_views(final(out)@) == pair_views(old(out)@) + doc_index(items@),
    decreases items@,
{
    let ghost start = pair_views(out@);
    let mut i: usize = 0;
    while i < items.len()
        invariant
            i <= items.len(),
            pair_views(out@) == start + doc_index(items@.take(i as int)),
        decreases items.len() - i,
    {
        let item = &items[i];
        let ghost before = pair_views(out@);
        let ghost own: Seq<(Seq<char>, Seq<char>)> = if item.kind@ != "folder"@ {
            seq![(item.title@, item.handle@)]
        } else {
            Seq::empty()
        };
        if !str_eq(item.kind.as_str(), "folder") {
            out.push((item.title.clone(), item.handle.clone()));
            assert(pair_views(out@) =~= before + own);
        } else {
            assert(pair_views(out@) =~= before + own);
        }
        proof {
            assert(decreases_to!(items@ => items@[i as int]));
        }
        let ghost mid = pair_views(out@);
        flatten_doc_index(item.children.as_slice(), out);
        assert(items@.take(i + 1).drop_last() =~= items@.take(i as int));
        assert(items@.take(i + 1).last() == items@[i as int]);
        assert(doc_index(items@.take(i + 1)) == doc_index(items@.take(i as int)) + own + doc_index(
            items@[i as int].children@,
        ));
        assert(pair_views(out@) =~= start + doc_index(items@.take(i + 1)));
        i = i + 1;
    }
    assert(items@.take(items.len() as int) =~= items@);
}

/// The last `/`-separated piece of a handle.
pub open spec fn last_segment(handle: Seq<char>) -> Seq<char> {
    split_char(handle, '/').last()
}

/// The page link of the first index entry whose title or last handle segment has
/// the same slug as the technology.
pub open spec fn doc_href_in(needle: Seq<char>, index: Seq<(Seq<char>, Seq<char>)>) -> Option<Seq<char>>
    decreases index.len(),
{
    if index.len() == 0 {
        None
    } else if needle == handle_slug(index[0].0) || needle == handle_slug(last_segment(index[0].1)) {
        Some("/"@ + strip_leading(index[0].1, '/'))
    } else {
        doc_href_in(needle, index.drop_first())
    }
}

/// The documentation page of a technology: none when its slug is empty.
pub open spec fn doc_href_for_techno(techno: Seq<char>, index: Seq<(Seq<char>, Seq<char>)>) -> Option<Seq<char>> {
    let needle = handle_slug(techno);
    if needle.len() == 0 {
        None
    } else {
        doc_href_in(needle, index)
    }
}

/// An index entry names the technology when its title, or the last segment of its
/// handle, has the technology's slug.
pub open spec fn entry_names(entry: (Seq<char>, Seq<char>), needle: Seq<char>) -> bool {
    handle_slug(entry.0) == needle || handle_slug(split_char(entry.1, '/').last()) == needle
}

proof fn lemma_doc_href_in(needle: Seq<char>, index: Seq<(Seq<char>, Seq<char>)>)
    ensures
        (exists|k: int| 0 <= k < index.len() && entry_names(#[trigger] index[k], needle))
            ==> doc_href_in(needle, index) is Some,
        doc_href_in(needle, index) matches Some(h) ==> exists|j: int|
            0 <= j < index.len() && entry_names(#[trigger] index[j], needle) && h == "/"@
                + strip_leading(index[j].1, '/') && forall|i: int|
                0 <= i < j ==> !entry_names(#[trigger] index[i], needle),
    decreases index.len(),
{
    if index.len() > 0 {
        let rest = index.drop_first();
        lemma_doc_href_in(needle, rest);
        if entry_names(index[0], needle) {
            assert(entry_names(index[0], needle));
        } else {
            if exists|k: int| 0 <= k < index.len() && entry_names(#[trigger] index[k], needle) {
                let k = choose|k: int| 0 <= k < index.len() && entry_names(#[trigger] index[k], needle);
                assert(k > 0);
                assert(rest[k - 1] == index[k]);
            }
            if doc_href_in(needle, index) is Some {
                let h = doc_href_in(needle, index)->0;
                let j = choose|j: int|
                    0 <= j < rest.len() && entry_names(#[trigger] rest[j], needle) && h == "/"@
                        + strip_leading(rest[j].1, '/') && forall|i: int|
                        0 <= i < j ==> !entry_names(#[trigger] rest[i], needle);
                assert(index[j + 1] == rest[j]);
                assert forall|i: int| 0 <= i < j + 1 implies !entry_names(#[trigger] index[i], needle) by {
                    if i > 0 {
                        assert(index[i] == rest[i - 1]);
                    }
                }
            }
        }
    }
}

/// The documentation page of a technology is found whenever some entry of the index
/// has, in its title or in the last segment of its handle, the technology's
/// (non-empty) slug; the page found is the link of the first such entry; and a
/// technology whose slug is empty has no page.
pub proof fn lemma_doc_href_found(techno: Seq<char>, index: Seq<(Seq<char>, Seq<char>)>)
    ensures
        handle_slug(techno).len() > 0 && (exists|k: int|
            0 <= k < index.len() && entry_names(#[trigger] index[k], handle_slug(techno)))
            ==> doc_href_for_techno(techno, index) is Some,
        handle_slug(techno).len() == 0 ==> doc_href_for_techno(techno, index) is None,
        doc_href_for_techno(techno, index) matches Some(h) ==> exists|j: int|
            0 <= j < index.len() && entry_names(#[trigger] index[j], handle_slug(techno)) && h
                == "/"@ + strip_leading(index[j].1, '/') && forall|i: int|
                0 <= i < j ==> !entry_names(#[trigger] index[i], handle_slug(techno)),
{
    lemma_doc_href_in(handle_slug(techno), index);
}

/// `/` followed by the handle without its leading slashes.
pub fn handle_href(handle: &str) -> (href: String)
    ensures
        href@ == "/"@ + strip_leading(handle@, '/'),
{
    let v = chars_of(handle);
    let mut i: usize = 0;
    assert(v@.skip(0) =~= v@);
    while i < v.len() && v[i] == '/'
        invariant
            i <= v.len(),
            strip_leading(v@, '/') == strip_leading(v@.skip(i as int), '/'),
        decreases v.len() - i,
    {
        assert(v@.skip(i as int).drop_first() =~= v@.skip(i + 1));
        i = i + 1;
    }
    let mut out = String::new();
    push_str(&mut out, "/");
    push_range(&mut out, &v, i, v.len());
    assert(v@.subrange(i as int, v@.len() as int) =~= v@.skip(i as int));
    out
}

/// Finds the documentation page that describes a technology.
pub fn find_doc_href_for_techno(techno: &str, docs_index: &[(String, String)]) -> (href: Option<String>)
    ensures
        match href {
            Some(h) => doc_href_for_techno(techno@, pair_views(docs_index@)) == Some(h@),
            None => doc_href_for_techno(techno@, pair_views(docs_index@)) is None,
        },
{
    let needle = slugify_like_handle(techno);
    if chars_of(needle.as_str()).len() == 0 {
        return None;
    }
    let ghost idx = pair_views(docs_index@);
    let mut i: usize = 0;
    assert(idx.skip(0) =~= idx);
    while i < docs_index.len()
        invariant
            i <= docs_index.len(),
            idx == pair_views(docs_index@),
            needle@ == handle_slug(techno@),
            needle@.len() > 0,
            doc_href_in(needle@, idx) == doc_href_in(needle@, idx.skip(i as int)),
        decreases docs_index.len() - i,
    {
        let (title, handle) = (&docs_index[i].0, &docs_index[i].1);
        assert(idx.skip(i as int)[0] == (title@, handle@));
        let title_slug = slugify_like_handle(title.as_str());
        let hv = chars_of(handle.as_str());
        let pieces = split_ranges(&hv, 0, hv.len(), '/');
        assert(hv@.subrange(0, hv@.len() as int) =~= handle@);
        proof {
            crate::text::lemma_split_nonempty(handle@, '/');
        }
        let (pa, pb) = pieces[pieces.len() - 1];
        let mut last = String::new();
        push_range(&mut last, &hv, pa, pb);
        assert(last@ =~= last_segment(handle@));
        let handle_slug_s = slugify_like_handle(last.as_str());
        if str_eq(needle.as_str(), title_slug.as_str()) || str_eq(
            needle.as_str(),
            handle_slug_s.as_str(),
        ) {
            assert(idx.skip(i as int).len() > 0);
            assert(doc_href_in(needle@, idx.skip(i as int)) == Some(
                "/"@ + strip_leading(handle@, '/'),
            ));
            return Some(handle_href(handle.as_str()));
        }
        assert(idx.skip(i as int).drop_first() =~= idx.skip(i + 1));
        i = i + 1;
    }
    None
}

/// The link that opens a content file for editing in the repository.
pub fn edit_in_git_url(source_path: &str) -> (url: String)
    ensures
        url@ == "https://github.com/batleforc/monofolio-rs/edit/main/contents/"@ + strip_leading(
            source_path@,
            '/',
        ),
{
    let v = chars_of(source_path);
    let mut i: usize = 0;
    assert(v@.skip(0) =~= v@);
    while i < v.len() && v[i] == '/'
        invariant
            i <= v.len(),
            strip_leading(v@, '/') == strip_leading(v@.skip(i as int), '/'),
        decreases v.len() - i,
    {
        assert(v@.skip(i as int).drop_first() =~= v@.skip(i + 1));
        i = i + 1;
    }
    let mut out = String::new();
    push_str(&mut out, "https://github.com/batleforc/monofolio-rs/edit/main/contents/");
    push_range(&mut out, &v, i, v.len());
    assert(v@.subrange(i as int, v@.len() as int) =~= v@.skip(i as int));
    out
}

// ───────────────────────────── open folders ─────────────────────────────

/// Some node of the tree, at any depth, has the active handle.
pub open spec fn on_path(items: Seq<DocSidebarItemData>, active: Seq<char>) -> bool
    decreases items,
{
    if items.len() == 0 {
        false
    } else {
        let x = items[0];
        proof {
            assert(decreases_to!(items => x));
            assert(decreases_to!(x => x.children));
            assert(decreases_to!(x.children => x.children@));
        }
        x.handle@ == active || on_path(x.children@, active) || on_path(items.drop_first(), active)
    }
}

/// The handles of the nodes with children on the way to the first node, in tree
/// order, that has the active handle: the folders to open so that it shows.
pub open spec fn path_folders(items: Seq<DocSidebarItemData>, active: Seq<char>) -> Set<Seq<char>>
    decreases items,
{
    if items.len() == 0 {
        Set::empty()
    } else {
        let x = items[0];
        proof {
            assert(decreases_to!(items => x));
            assert(decreases_to!(x => x.children));
            assert(decreases_to!(x.children => x.children@));
        }
        if x.handle@ == active || on_path(x.children@, active) {
            path_folders(x.children@, active).union(
                if x.children@.len() > 0 {
                    set![x.handle@]
                } else {
                    Set::empty()
                },
            )
        } else {
            path_folders(items.drop_first(), active)
        }
    }
}

pub open spec fn handle_set(v: Seq<String>) -> Set<Seq<char>> {
    v.map_values(|s: String| s@).to_set()
}

/// Adds `h` to the set held in `out` unless it is there already.
pub fn insert_handle(out: &mut Vec<String>, h: &String)
    ensures
        handle_set(final(out)@) == handle_set(old(out)@).insert(h@),
{
    let mut i: usize = 0;
    while i < out.len()
        invariant
            i <= out.len(),
            forall|j: int| 0 <= j < i ==> out@[j]@ != h@,
        decreases out.len() - i,
    {
        if str_eq(out[i].as_str(), h.as_str()) {
            assert(handle_set(out@).contains(h@)) by {
                assert(out@.map_values(|s: String| s@)[i as int] == h@);
            }
            assert(handle_set(out@).insert(h@) =~= handle_set(out@));
            return;
        }
        i = i + 1;
    }
    let ghost before = out@;
    out.push(h.clone());
    assert(handle_set(out@) =~= handle_set(before).insert(h@)) by {
        let mv = out@.map_values(|s: String| s@);
        let mb = before.map_values(|s: String| s@);
        assert(mv =~= mb.push(h@));
        assert forall|y| mv.contains(y) <==> mb.contains(y) || y == h@ by {
            if mv.contains(y) {
                let k = choose|k: int| 0 <= k < mv.len() && mv[k] == y;
                if k < mb.len() {
                    assert(mb[k] == y);
                }
            }
            if mb.contains(y) {
                let k = choose|k: int| 0 <= k < mb.len() && mb[k] == y;
                assert(mv[k] == y);
            }
            assert(mv[mb.len() as int] == h@);
        }
    }
}

/// Outside the path to the active page, there is no folder to open.
pub proof fn lemma_path_folders_off_path(items: Seq<DocSidebarItemData>, active: Seq<char>)
    requires
        !on_path(items, active),
    ensures
        path_folders(items, active) == Set::<Seq<char>>::empty(),
    decreases items,
{
    if items.len() > 0 {
        assert(decreases_to!(items => items[0]));
        lemma_path_folders_off_path(items.drop_first(), active);
    }
}

/// Records in `out` the folders on the way to the active page; tells whether the
/// page is in the tree.
pub fn collect_active_path_folders(
    items: &[DocSidebarItemData],
    active_handle: &str,
    out: &mut Vec<String>,
) -> (found: bool)
    ensures
        found == on_path(items@, active_handle@),
        handle_set(final(out)@) == handle_set(old(out)@).union(
            if found {
                path_folders(items@, active_handle@)
            } else {
                Set::empty()
            },
        ),
    decreases items@,
{
    let mut i: usize = 0;
    let ghost start = handle_set(out@);
    assert(items@.skip(0) =~= items@);
    assert(start.union(Set::empty()) =~= start);
    while i < items.len()
        invariant
            i <= items.len(),
            handle_set(out@) == start,
            start == handle_set(old(out)@),
            on_path(items@, active_handle@) == on_path(items@.skip(i as int), active_handle@),
            path_folders(items@, active_handle@) == path_folders(items@.skip(i as int), active_handle@),
        decreases items.len() - i,
    {
        let item = &items[i];
        let ghost rest = items@.skip(i as int);
        assert(rest[0] == items@[i as int]);
        assert(rest.drop_first() =~= items@.skip(i + 1));
        let self_matches = str_eq(item.handle.as_str(), active_handle);
        proof {
            assert(decreases_to!(items@ => items@[i as int]));
        }
        let child_matches = collect_active_path_folders(item.children.as_slice(), active_handle, out);
        if self_matches || child_matches {
            proof {
                if !child_matches {
                    lemma_path_folders_off_path(items@[i as int].children@, active_handle@);
                }
            }
            if item.children.len() > 0 {
                insert_handle(out, &item.handle);
            }
            assert(handle_set(out@) =~= start.union(path_folders(items@, active_handle@)));
            return true;
        }
        assert(handle_set(out@) =~= start);
        i = i + 1;
    }
    assert(items@.skip(i as int) =~= Seq::<DocSidebarItemData>::empty());
    assert(handle_set(out@) =~= start.union(Set::empty()));
    false
}

// ───────────────────────────── sidebar from the database ─────────────────────────────

/// An entry is listed when it is not a draft and has a release date.
pub open spec fn nav_visible(entry: ContentEntry) -> bool {
    !entry.draft && trim_spec(entry.dates.released_at@).len() > 0
}

/// Whether an entry is listed in the navigation.
pub fn is_nav_visible(entry: &ContentEntry) -> (r: bool)
    ensures
        r == nav_visible(*entry),
{
    let v = chars_of(entry.dates.released_at.as_str());
    let (a, b) = trim_range(&v, 0, v.len());
    assert(v@.subrange(0, v@.len() as int) =~= v@);
    !entry.draft && a < b
}

/// The kind of a sidebar node: `markdown` for a page, `folder_with_index` for a
/// folder that is also a published page, `folder` otherwise.
pub open spec fn sidebar_kind(item: SidebarItem, known: Set<Seq<char>>) -> Seq<char> {
    if item.children@.len() == 0 {
        "markdown"@
    } else if known.contains(item.handle@) {
        "folder_with_index"@
    } else {
        "folder"@
    }
}

pub open spec fn fields_match(o: DocSidebarItemData, i: SidebarItem, known: Set<Seq<char>>) -> bool {
    &&& o.title@ == i.title@
    &&& o.handle@ == i.handle@
    &&& o.order == i.order as u64
    &&& o.kind@ == sidebar_kind(i, known)
}

/// `outs` is the navigation made from the sidebar nodes `ins`, node for node.
pub open spec fn mapped_items(outs: Seq<DocSidebarItemData>, ins: Seq<SidebarItem>, known: Set<Seq<char>>) -> bool
    decreases ins,
{
    if outs.len() != ins.len() {
        false
    } else if ins.len() == 0 {
        true
    } else {
        let x = ins.last();
        proof {
            assert(decreases_to!(ins => x));
            assert(decreases_to!(x => x.children));
            assert(decreases_to!(x.children => x.children@));
        }
        &&& mapped_items(outs.drop_last(), ins.drop_last(), known)
        &&& fields_match(outs.last(), x, known)
        &&& mapped_items(outs.last().children@, x.children@, known)
    }
}

/// Some node of the list, at any depth, is a published documentation page.
pub open spec fn any_kept(s: Seq<SidebarItem>, known: Set<Seq<char>>) -> bool
    decreases s,
{
    if s.len() == 0 {
        false
    } else {
        let x = s.last();
        proof {
            assert(decreases_to!(s => x));
            assert(decreases_to!(x => x.children));
            assert(decreases_to!(x.children => x.children@));
        }
        any_kept(s.drop_last(), known) || known.contains(x.handle@) || any_kept(x.children@, known)
    }
}

/// A node stays in the filtered navigation when it is a published page or leads to one.
pub open spec fn kept(i: SidebarItem, known: Set<Seq<char>>) -> bool {
    known.contains(i.handle@) || any_kept(i.children@, known)
}

/// `outs` is the navigation made from `ins` keeping only the nodes that are or lead
/// to published pages (a node's kind still reflects all its children).
pub open spec fn filtered_items(outs: Seq<DocSidebarItemData>, ins: Seq<SidebarItem>, known: Set<Seq<char>>) -> bool
    decreases ins,
{
    if ins.len() == 0 {
        outs.len() == 0
    } else {
        let x = ins.last();
        proof {
            assert(decreases_to!(ins => x));
            assert(decreases_to!(x => x.children));
            assert(decreases_to!(x.children => x.children@));
        }
        if kept(x, known) {
            &&& outs.len() > 0
            &&& filtered_items(outs.drop_last(), ins.drop_last(), known)
            &&& fields_match(outs.last(), x, known)
            &&& filtered_items(outs.last().children@, x.children@, known)
        } else {
            filtered_items(outs, ins.drop_last(), known)
        }
    }
}

/// A filtered list is empty exactly when nothing in the source is kept.
pub proof fn lemma_filtered_nonempty(outs: Seq<DocSidebarItemData>, ins: Seq<SidebarItem>, known: Set<Seq<char>>)
    requires
        filtered_items(outs, ins, known),
    ensures
        outs.len() > 0 <==> any_kept(ins, known),
    decreases ins,
{
    if ins.len() > 0 {
        let x = ins.last();
        assert(decreases_to!(ins => x));
        if kept(x, known) {
        } else {
            lemma_filtered_nonempty(outs, ins.drop_last(), known);
        }
    }
}

fn contains_handle(known: &[String], h: &String) -> (r: bool)
    ensures
        r == handle_set(known@).contains(h@),
{
    let mut i: usize = 0;
    while i < known.len()
        invariant
            i <= known.len(),
            forall|j: int| 0 <= j < i ==> known@[j]@ != h@,
        decreases known.len() - i,
    {
        if str_eq(known[i].as_str(), h.as_str()) {
            assert(known@.map_values(|s: String| s@)[i as int] == h@);
            return true;
        }
        i = i + 1;
    }
    let ghost mv = known@.map_values(|s: String| s@);
    assert forall|y| mv.contains(y) implies y != h@ by {
        let k = choose|k: int| 0 <= k < mv.len() && #[trigger] mv[k] == y;
        assert(known@[k]@ == mv[k]);
    }
    false
}

fn kind_of(item: &SidebarItem, known: &[String]) -> (kind: String)
    ensures
        kind@ == sidebar_kind(*item, handle_set(known@)),
{
    if item.children.len() == 0 {
        String::from_str("markdown")
    } else if contains_handle(known, &item.handle) {
        String::from_str("folder_with_index")
    } else {
        String::from_str("folder")
    }
}

/// Maps sidebar nodes to navigation nodes.
pub fn map_sidebar_items(items: &[SidebarItem], known_doc_handles: &[String]) -> (r: Vec<DocSidebarItemData>)
    ensures
        mapped_items(r@, items@, handle_set(known_doc_handles@)),
    decreases items@,
{
    let ghost known = handle_set(known_doc_handles@);
    let mut r: Vec<DocSidebarItemData> = Vec::new();
    let mut i: usize = 0;
    while i < items.len()
        invariant
            i <= items.len(),
            known == handle_set(known_doc_handles@),
            mapped_items(r@, items@.take(i as int), known),
        decreases items.len() - i,
    {
        let item = &items[i];
        proof {
            assert(decreases_to!(items@ => items@[i as int]));
        }
        let children = map_sidebar_items(item.children.as_slice(), known_doc_handles);
        let kind = kind_of(item, known_doc_handles);
        let ghost before = r@;
        r.push(
            DocSidebarItemData {
                title: item.title.clone(),
                handle: item.handle.clone(),
                order: item.order as u64,
                kind,
                children,
            },
        );
        assert(r@.drop_last() =~= before);
        assert(items@.take(i + 1).drop_last() =~= items@.take(i as int));
        assert(items@.take(i + 1).last() == items@[i as int]);
        i = i + 1;
    }
    assert(items@.take(items.len() as int) =~= items@);
    r
}

/// The navigation node of a sidebar node, with all its descendants.
pub fn map_sidebar_item(item: &SidebarItem, known_doc_handles: &[String]) -> (r: DocSidebarItemData)
    ensures
        mapped_items(seq![r], seq![*item], handle_set(known_doc_handles@)),
{
    let children = map_sidebar_items(item.children.as_slice(), known_doc_handles);
    let kind = kind_of(item, known_doc_handles);
    let r = DocSidebarItemData {
        title: item.title.clone(),
        handle: item.handle.clone(),
        order: item.order as u64,
        kind,
        children,
    };
    assert(seq![r].drop_last() =~= Seq::<DocSidebarItemData>::empty());
    assert(seq![*item].drop_last() =~= Seq::<SidebarItem>::empty());
    assert(seq![r].last() == r);
    assert(seq![*item].last() == *item);
    assert(mapped_items(Seq::empty(), Seq::empty(), handle_set(known_doc_handles@)));
    r
}

/// Maps sidebar nodes to navigation nodes, keeping those that are or lead to
/// published documentation pages.
pub fn map_sidebar_items_filtered(items: &[SidebarItem], known_doc_handles: &[String]) -> (r: Vec<DocSidebarItemData>)
    ensures
        filtered_items(r@, items@, handle_set(known_doc_handles@)),
    decreases items@,
{
    let ghost known = handle_set(known_doc_handles@);
    let mut r: Vec<DocSidebarItemData> = Vec::new();
    let mut i: usize = 0;
    while i < items.len()
        invariant
            i <= items.len(),
            known == handle_set(known_doc_handles@),
            filtered_items(r@, items@.take(i as int), known),
        decreases items.len() - i,
    {
        let item = &items[i];
        proof {
            assert(decreases_to!(items@ => items@[i as int]));
        }
        let children = map_sidebar_items_filtered(item.children.as_slice(), known_doc_handles);
        proof {
            lemma_filtered_nonempty(children@, item.children@, known);
        }
        assert(items@.take(i + 1).drop_last() =~= items@.take(i as int));
        assert(items@.take(i + 1).last() == items@[i as int]);
        if contains_handle(known_doc_handles, &item.handle) || children.len() > 0 {
            let kind = kind_of(item, known_doc_handles);
            let ghost before = r@;
            r.push(
                DocSidebarItemData {
                    title: item.title.clone(),
                    handle: item.handle.clone(),
                    order: item.order as u64,
                    kind,
                    children,
                },
            );
            assert(r@.drop_last() =~= before);
        }
        i = i + 1;
    }
    assert(items@.take(items.len() as int) =~= items@);
    r
}

/// The navigation node of a sidebar node, if it is or leads to a published page.
pub fn map_sidebar_item_filtered(item: &SidebarItem, known_doc_handles: &[String]) -> (r: Option<DocSidebarItemData>)
    ensures
        match r {
            Some(o) => filtered_items(seq![o], seq![*item], handle_set(known_doc_handles@)),
            None => filtered_items(Seq::empty(), seq![*item], handle_set(known_doc_handles@)),
        },
        r is Some <==> kept(*item, handle_set(known_doc_handles@)),
{
    let ghost known = handle_set(known_doc_handles@);
    let children = map_sidebar_items_filtered(item.children.as_slice(), known_doc_handles);
    proof {
        lemma_filtered_nonempty(children@, item.children@, known);
    }
    assert(seq![*item].drop_last() =~= Seq::<SidebarItem>::empty());
    assert(seq![*item].last() == *item);
    if contains_handle(known_doc_handles, &item.handle) || children.len() > 0 {
        let kind = kind_of(item, known_doc_handles);
        let o = DocSidebarItemData {
            title: item.title.clone(),
            handle: item.handle.clone(),
            order: item.order as u64,
            kind,
            children,
        };
        assert(seq![o].drop_last() =~= Seq::<DocSidebarItemData>::empty());
        assert(seq![o].last() == o);
        assert(filtered_items(Seq::empty(), Seq::empty(), known));
        assert(kept(*item, known));
        assert(fields_match(o, *item, known));
        assert(filtered_items(o.children@, item.children@, known));
        assert(filtered_items(seq![o], seq![*item], known));
        Some(o)
    } else {
        assert(!kept(*item, known));
        assert(filtered_items(Seq::empty(), Seq::empty(), known));
        assert(filtered_items(Seq::empty(), seq![*item], known));
        None
    }
}

/// The handles of the published documentation pages.
pub open spec fn known_doc_handles(entries: Seq<ContentEntry>) -> Set<Seq<char>> {
    Set::new(
        |h: Seq<char>|
            exists|i: int|
                0 <= i < entries.len() && entries[i].kind.doc && nav_visible(entries[i])
                    && entries[i].handle@ == h,
    )
}

/// The documentation navigation that the server builds from the database.
pub fn docs_nav_from_database(db: &ContentDatabase) -> (nav: Vec<DocSidebarItemData>)
    ensures
        filtered_items(nav@, db.sidebar@, known_doc_handles(db.entries@)),
{
    let mut known: Vec<String> = Vec::new();
    let mut i: usize = 0;
    while i < db.entries.len()
        invariant
            i <= db.entries.len(),
            forall|h: Seq<char>|
                handle_set(known@).contains(h) <==> exists|j: int|
                    0 <= j < i && db.entries@[j].kind.doc && nav_visible(db.entries@[j])
                        && db.entries@[j].handle@ == h,
        decreases db.entries.len() - i,
    {
        let e = &db.entries[i];
        if e.kind.doc && is_nav_visible(e) {
            let ghost before = known@;
            known.push(e.handle.clone());
            assert(known@.map_values(|s: String| s@) =~= before.map_values(|s: String| s@).push(
                e.handle@,
            ));
            assert forall|h: Seq<char>|
                handle_set(known@).contains(h) <==> exists|j: int|
                    0 <= j < i + 1 && db.entries@[j].kind.doc && nav_visible(db.entries@[j])
                        && db.entries@[j].handle@ == h by {
                let mv = known@.map_values(|s: String| s@);
                let mb = before.map_values(|s: String| s@);
                if mv.contains(h) {
                    let k = choose|k: int| 0 <= k < mv.len() && mv[k] == h;
                    if k < mb.len() {
                        assert(mb[k] == h);
                        assert(handle_set(before).contains(h));
                    }
                }
                if exists|j: int|
                    0 <= j < i && db.entries@[j].kind.doc && nav_visible(db.entries@[j])
                        && db.entries@[j].handle@ == h {
                    assert(handle_set(before).contains(h));
                    let k = choose|k: int| 0 <= k < mb.len() && mb[k] == h;
                    assert(mv[k] == h);
                }
                if h == e.handle@ {
                    assert(mv[mb.len() as int] == h);
                }
            }
        }
        i = i + 1;
    }
    assert(handle_set(known@) =~= known_doc_handles(db.entries@));
    map_sidebar_items_filtered(db.sidebar.as_slice(), known.as_slice())
}

/// The first listed entry with the given handle.
pub fn find_visible_entry(db: &ContentDatabase, handle: &str) -> (r: Option<usize>)
    ensures
        match r {
            Some(i) => i < db.entries@.len() && db.entries@[i as int].handle@ == handle@
                && nav_visible(db.entries@[i as int]) && forall|j: int|
                0 <= j < i ==> !(db.entries@[j].handle@ == handle@ && nav_visible(db.entries@[j])),
            None => forall|j: int|
                0 <= j < db.entries@.len() ==> !(db.entries@[j].handle@ == handle@ && nav_visible(
                    db.entries@[j],
                )),
        },
{
    let mut i: usize = 0;
    while i < db.entries.len()
        invariant
            i <= db.entries.len(),
            forall|j: int|
                0 <= j < i ==> !(db.entries@[j].handle@ == handle@ && nav_visible(db.entries@[j])),
        decreases db.entries.len() - i,
    {
        if str_eq(db.entries[i].handle.as_str(), handle) && is_nav_visible(&db.entries[i]) {
            return Some(i);
        }
        i = i + 1;
    }
    None
}

// ───────────────────────────── page metadata ─────────────────────────────

/// The content handle of a page path: the path without its leading slashes, for
/// paths under `/blogs/` or `/docs/`; none for other paths.
pub open spec fn content_handle_spec(pathname: Seq<char>) -> Option<Seq<char>> {
    if !has_prefix(pathname, "/blogs/"@) && !has_prefix(pathname, "/docs/"@) {
        None
    } else {
        Some(strip_leading(pathname, '/'))
    }
}

/// The handle of the content page at a path, if the path is one.
pub fn content_handle_from_path(pathname: &str) -> (handle: Option<String>)
    ensures
        match handle {
            Some(h) => content_handle_spec(pathname@) == Some(h@),
            None => content_handle_spec(pathname@) is None,
        },
{
    let v = chars_of(pathname);
    if !starts_with_chars(&v, &chars_of("/blogs/")) && !starts_with_chars(&v, &chars_of("/docs/")) {
        return None;
    }
    let start = crate::text::leading_end(&v, '/');
    Some(crate::text::string_of_range(&v, start, v.len()))
}

/// Whether a handle belongs to the documentation (its folders open in the sidebar).
pub fn is_docs_handle(handle: &str) -> (r: bool)
    ensures
        r == (has_prefix(handle@, "docs/"@) || handle@ == "docs"@),
{
    starts_with_chars(&chars_of(handle), &chars_of("docs/")) || str_eq(handle, "docs")
}

/// The label of a content page's kind.
pub fn content_kind_label(blog: bool, project: bool, doc: bool) -> (label: &'static str)
    ensures
        label@ == (if blog {
            "blog"@
        } else if project {
            "project"@
        } else if doc {
            "doc"@
        } else {
            "content"@
        }),
{
    if blog {
        "blog"
    } else if project {
        "project"
    } else if doc {
        "doc"
    } else {
        "content"
    }
}

/// Where the back link of a content page leads, and its text.
pub fn back_link(is_blog: bool) -> (link: (&'static str, &'static str))
    ensures
        link.0@ == (if is_blog { "/blog"@ } else { "/projects"@ }),
        link.1@ == (if is_blog { "Back to blog"@ } else { "Back to projects"@ }),
{
    if is_blog {
        ("/blog", "Back to blog")
    } else {
        ("/projects", "Back to projects")
    }
}

/// The page title of a content page.
pub fn page_title(title: &str) -> (r: String)
    ensures
        r@ == title@ + " | Maxime Leriche"@,
{
    let mut out = String::new();
    push_str(&mut out, title);
    push_str(&mut out, " | Maxime Leriche");
    out
}

/// The description of a content page: its own, or a default one when it is blank.
pub fn page_description(description: &str) -> (r: String)
    ensures
        r@ == (if trim_spec(description@).len() == 0 {
            "Page de contenu de Maxime Leriche"@
        } else {
            description@
        }),
{
    let v = chars_of(description);
    let (a, b) = trim_range(&v, 0, v.len());
    assert(v@.subrange(0, v@.len() as int) =~= description@);
    if a == b {
        String::from_str("Page de contenu de Maxime Leriche")
    } else {
        String::from_str(description)
    }
}

/// Every leading occurrence of `p` removed (`str::trim_start_matches` with a string).
pub open spec fn strip_leading_str(s: Seq<char>, p: Seq<char>) -> Seq<char>
    decreases s.len(),
{
    if p.len() > 0 && has_prefix(s, p) {
        strip_leading_str(s.skip(p.len() as int), p)
    } else {
        s
    }
}

/// The image that link previews of a content page show.
pub open spec fn og_image_url_spec(image: Seq<char>) -> Seq<char> {
    if trim_spec(image).len() == 0 {
        "https://maxleriche.net/assets/apple-touch-icon.png"@
    } else if has_prefix(image, "https://"@) {
        image
    } else if has_prefix(image, "http://"@) {
        "https://"@ + strip_leading_str(image, "http://"@)
    } else if has_prefix(image, "media#"@) {
        canonical_url_spec("/media/"@ + image.skip(6))
    } else {
        canonical_url_spec("/media/"@ + strip_leading(image, '/'))
    }
}

/// The preview image URL of a content page, upgraded to `https` and absolute.
pub fn page_og_image_url(image: &str) -> (url: String)
    ensures
        url@ == og_image_url_spec(image@),
{
    proof {
        reveal_strlit("http://");
        reveal_strlit("media#");
    }
    let v = chars_of(image);
    let (a, b) = trim_range(&v, 0, v.len());
    assert(v@.subrange(0, v@.len() as int) =~= image@);
    if a == b {
        return String::from_str("https://maxleriche.net/assets/apple-touch-icon.png");
    }
    if starts_with_chars(&v, &chars_of("https://")) {
        return String::from_str(image);
    }
    let http = chars_of("http://");
    if starts_with_chars(&v, &http) {
        let mut k: usize = 0;
        assert(v@.skip(0) =~= v@);
        while k <= v.len() && crate::text::matches_at(&v, k, &http)
            invariant
                k <= v.len(),
                http@ == "http://"@,
                strip_leading_str(image@, "http://"@) == strip_leading_str(v@.skip(k as int), "http://"@),
                v@ == image@,
            decreases v.len() - k,
        {
            proof {
                reveal_strlit("http://");
            }
            assert(v@.skip(k as int).subrange(0, 7) =~= v@.subrange(k as int, k + 7));
            assert(v@.skip(k as int).skip(7) =~= v@.skip(k + 7));
            k = k + 7;
        }
        assert(!has_prefix(v@.skip(k as int), "http://"@)) by {
            reveal_strlit("http://");
            if has_prefix(v@.skip(k as int), "http://"@) {
                assert(v@.skip(k as int).subrange(0, 7) =~= v@.subrange(k as int, k + 7));
            }
        }
        let mut out = String::new();
        push_str(&mut out, "https://");
        push_range(&mut out, &v, k, v.len());
        assert(v@.subrange(k as int, v@.len() as int) =~= v@.skip(k as int));
        return out;
    }
    let mut path = String::new();
    push_str(&mut path, "/media/");
    if starts_with_chars(&v, &chars_of("media#")) {
        push_range(&mut path, &v, 6, v.len());
        assert(v@.subrange(6, v@.len() as int) =~= image@.skip(6));
    } else {
        let mut i: usize = 0;
        assert(v@.skip(0) =~= v@);
        while i < v.len() && v[i] == '/'
            invariant
                i <= v.len(),
                strip_leading(v@, '/') == strip_leading(v@.skip(i as int), '/'),
            decreases v.len() - i,
        {
            assert(v@.skip(i as int).drop_first() =~= v@.skip(i + 1));
            i = i + 1;
        }
        push_range(&mut path, &v, i, v.len());
        assert(v@.subrange(i as int, v@.len() as int) =~= v@.skip(i as int));
    }
    canonical_url(path.as_str())
}

/// A signed number in decimal.
pub open spec fn int_decimal(i: int) -> Seq<char> {
    if i < 0 {
        "-"@ + crate::text::decimal((-i) as nat)
    } else {
        crate::text::decimal(i as nat)
    }
}

/// The footer line of content pages.
pub fn footer_note(year: i32) -> (note: String)
    ensures
        note@ == "Since 2000 - "@ + int_decimal(year as int) + " with love and coffee"@,
{
    let mut out = String::new();
    push_str(&mut out, "Since 2000 - ");
    if year < 0 {
        push_str(&mut out, "-");
        let magnitude: i64 = -(year as i64);
        crate::text::push_decimal(&mut out, magnitude as u64);
    } else {
        crate::text::push_decimal(&mut out, year as u64);
    }
    push_str(&mut out, " with love and coffee");
    out
}

/// The Open Graph type of a content page: an article for a blog post, a website
/// page otherwise.
pub fn og_type(is_blog: bool) -> (kind: &'static str)
    ensures
        kind@ == (if is_blog { "article"@ } else { "website"@ }),
{
    if is_blog {
        "article"
    } else {
        "website"
    }
}

/// A dated line of a content page (`Published: …`, `Updated: …`): the label and
/// the date as it is displayed, or nothing when the date displays as nothing.
pub fn dated_line(label: &str, raw: &str, lang: Language) -> (line: Option<String>)
    ensures
        match line {
            Some(l) => display_date(raw@, lang).len() > 0 && l@ == label@ + ": "@ + display_date(
                raw@,
                lang,
            ),
            None => display_date(raw@, lang).len() == 0,
        },
{
    let shown = format_display_date(raw, lang);
    if chars_of(shown.as_str()).len() == 0 {
        return None;
    }
    let mut line = String::new();
    push_str(&mut line, label);
    push_str(&mut line, ": ");
    push_str(&mut line, shown.as_str());
    Some(line)
}

/// The reading time line of a content page.
pub fn reading_time_line(minutes: usize) -> (line: String)
    ensures
        line@ == "Reading time: "@ + crate::text::decimal(minutes as nat) + " min"@,
{
    let mut line = String::new();
    push_str(&mut line, "Reading time: ");
    crate::text::push_decimal(&mut line, minutes as u64);
    push_str(&mut line, " min");
    line
}

/// The `og:image` of a content page: its thumbnail when it has one, otherwise its
/// image URL (`page_og_image_url`); `twitter:image` always uses the image URL.
pub fn content_og_image(minia: &Option<String>, image_url: &str) -> (url: String)
    ensures
        url@ == (match minia {
            Some(m) => m@,
            None => image_url@,
        }),
{
    match minia {
        Some(m) => m.clone(),
        None => String::from_str(image_url),
    }
}

} // verus!
