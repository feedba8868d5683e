//! The documentation index page: the navigation tree in order, the folders that are
//! open, and the quick index of the sections that have an index page.
use vstd::prelude::*;

use crate::listing::{by_rank_spec, insert_by_rank, sort_by_rank, Ranked};
use crate::pages::content::{
    collect_active_path_folders, duplicate_items, handle_set, is_docs_handle, on_path,
    path_folders, same_items, DocSidebarItemData,
};
use crate::pages::technologies::strs;
use crate::text::{chars_of, leading_end, str_eq, string_of_range, strip_leading};

verus! {

impl Ranked for DocSidebarItemData {
    open spec fn rank(&self) -> nat {
        self.order as nat
    }

    fn rank_value(&self) -> (r: u64) {
        self.order
    }
}

/// Two nodes hold the same title, handle, order, kind and children.
pub open spec fn same_item(a: DocSidebarItemData, b: DocSidebarItemData) -> bool {
    &&& a.title@ == b.title@
    &&& a.handle@ == b.handle@
    &&& a.order == b.order
    &&& a.kind@ == b.kind@
    &&& same_items(a.children@, b.children@)
}

proof fn lemma_same_items_push(
    a: Seq<DocSidebarItemData>,
    b: Seq<DocSidebarItemData>,
    x: DocSidebarItemData,
    y: DocSidebarItemData,
)
    requires
        same_items(a, b),
        same_item(x, y),
    ensures
        same_items(a.push(x), b.push(y)),
{
    assert(a.push(x).drop_last() =~= a);
    assert(b.push(y).drop_last() =~= b);
}

proof fn lemma_same_items_last(a: Seq<DocSidebarItemData>, b: Seq<DocSidebarItemData>)
    requires
        same_items(a, b),
        a.len() > 0,
    ensures
        same_items(a.drop_last(), b.drop_last()),
        same_item(a.last(), b.last()),
        a.len() == b.len(),
{
}

proof fn lemma_same_items_append(
    a: Seq<DocSidebarItemData>,
    b: Seq<DocSidebarItemData>,
    c: Seq<DocSidebarItemData>,
    d: Seq<DocSidebarItemData>,
)
    requires
        same_items(a, b),
        same_items(c, d),
    ensures
        same_items(a + c, b + d),
    decreases c.len(),
{
    if c.len() == 0 {
        assert(d.len() == 0);
        assert(a + c =~= a);
        assert(b + d =~= b);
    } else {
        lemma_same_items_last(c, d);
        lemma_same_items_append(a, b, c.drop_last(), d.drop_last());
        lemma_same_items_push(a + c.drop_last(), b + d.drop_last(), c.last(), d.last());
        assert((a + c.drop_last()).push(c.last()) =~= a + c);
        assert((b + d.drop_last()).push(d.last()) =~= b + d);
    }
}

proof fn lemma_same_items_insert(
    s: Seq<DocSidebarItemData>,
    t: Seq<DocSidebarItemData>,
    x: DocSidebarItemData,
    y: DocSidebarItemData,
)
    requires
        same_items(s, t),
        same_item(x, y),
    ensures
        same_items(insert_by_rank(s, x), insert_by_rank(t, y)),
    decreases s.len(),
{
    if s.len() > 0 {
        lemma_same_items_last(s, t);
    }
    if s.len() > 0 && s.last().rank() > x.rank() {
        lemma_same_items_insert(s.drop_last(), t.drop_last(), x, y);
        lemma_same_items_push(
            insert_by_rank(s.drop_last(), x),
            insert_by_rank(t.drop_last(), y),
            s.last(),
            t.last(),
        );
    } else {
        lemma_same_items_push(s, t, x, y);
    }
}

/// Nodes that hold the same things are put in the same order.
pub proof fn lemma_same_items_by_rank(s: Seq<DocSidebarItemData>, t: Seq<DocSidebarItemData>)
    requires
        same_items(s, t),
    ensures
        same_items(by_rank_spec(s), by_rank_spec(t)),
    decreases s.len(),
{
    if s.len() > 0 {
        lemma_same_items_last(s, t);
        lemma_same_items_by_rank(s.drop_last(), t.drop_last());
        lemma_same_items_insert(
            by_rank_spec(s.drop_last()),
            by_rank_spec(t.drop_last()),
            s.last(),
            t.last(),
        );
    }
}

/// A deep copy of a node.
pub fn copy_item(item: &DocSidebarItemData) -> (r: DocSidebarItemData)
    ensures
        same_item(r, *item),
{
    DocSidebarItemData {
        title: item.title.clone(),
        handle: item.handle.clone(),
        order: item.order,
        kind: item.kind.clone(),
        children: duplicate_items(item.children.as_slice()),
    }
}

// ───────────────────────────── the quick index ─────────────────────────────

/// A folder kind: `folder` or `folder_with_index`.
pub open spec fn is_folder_kind(kind: Seq<char>) -> bool {
    kind == "folder"@ || kind == "folder_with_index"@
}

/// The pages of a tree (nodes that are not folders), in tree order: each node
/// before its children.
pub open spec fn index_entries_spec(s: Seq<DocSidebarItemData>) -> Seq<DocSidebarItemData>
    decreases s,
{
    if s.len() == 0 {
        s
    } else {
        let x = s.last();
        proof {
            assert(decreases_to!(s => x));
            assert(decreases_to!(x => x.children));
            assert(decreases_to!(x.children => x.children@));
        }
        index_entries_spec(s.drop_last()) + (if !is_folder_kind(x.kind@) {
            seq![x]
        } else {
            Seq::empty()
        }) + index_entries_spec(x.children@)
    }
}

fn is_folder_kind_str(kind: &str) -> (r: bool)
    ensures
        r == is_folder_kind(kind@),
{
    str_eq(kind, "folder") || str_eq(kind, "folder_with_index")
}

/// Appends to `out` copies of the pages of the tree, in tree order.
pub fn collect_index_entries(items: &[DocSidebarItemData], out: &mut Vec<DocSidebarItemData>)
    ensures
        final(out)@.len() >= old(out)@.len(),
        final(out)@.take(old(out)@.len() as int) == old(out)@,
        same_items(final(out)@.skip(old(out)@.len() as int), index_entries_spec(items@)),
    decreases items@,
{
    let ghost o0 = out@;
    let ghost n0 = out@.len() as int;
    let mut i: usize = 0;
    assert(out@.skip(n0) =~= Seq::<DocSidebarItemData>::empty());
    assert(index_entries_spec(items@.take(0)) =~= Seq::<DocSidebarItemData>::empty());
    while i < items.len()
        invariant
            i <= items.len(),
            o0 == old(out)@,
            n0 == o0.len(),
            out@.len() >= n0,
            out@.take(n0) == o0,
            same_items(out@.skip(n0), index_entries_spec(items@.take(i as int))),
        decreases items.len() - i,
    {
        let item = &items[i];
        let ghost x = items@[i as int];
        let ghost prefix = items@.take(i as int);
        assert(items@.take(i + 1).drop_last() =~= prefix);
        assert(items@.take(i + 1).last() == x);
        let ghost kept: Seq<DocSidebarItemData> = if !is_folder_kind(x.kind@) {
            seq![x]
        } else {
            Seq::empty()
        };
        if !is_folder_kind_str(item.kind.as_str()) {
            let ghost before = out@;
            let c = copy_item(item);
            out.push(c);
            proof {
                assert(out@.skip(n0) =~= before.skip(n0).push(c));
                lemma_same_items_push(before.skip(n0), index_entries_spec(prefix), c, x);
                assert(index_entries_spec(prefix).push(x) =~= index_entries_spec(prefix) + kept);
            }
            assert(out@.take(n0) =~= o0);
        } else {
            assert(index_entries_spec(prefix) + kept =~= index_entries_spec(prefix));
        }
        let ghost mid = out@;
        proof {
            assert(decreases_to!(items@ => items@[i as int]));
        }
        collect_index_entries(item.children.as_slice(), out);
        proof {
            let n1 = mid.len() as int;
            assert(out@.skip(n0) =~= mid.skip(n0) + out@.skip(n1)) by {
                assert(out@.take(n1) == mid);
            }
            lemma_same_items_append(
                mid.skip(n0),
                index_entries_spec(prefix) + kept,
                out@.skip(n1),
                index_entries_spec(x.children@),
            );
            assert(index_entries_spec(items@.take(i + 1)) == index_entries_spec(prefix) + kept
                + index_entries_spec(x.children@));
            assert(out@.take(n0) =~= mid.take(n0)) by {
                assert(out@.take(n1) == mid);
            }
        }
        i = i + 1;
    }
    assert(items@.take(i as int) =~= items@);
}

/// A section of the quick index: a folder with an index page, and its pages by
/// increasing order.
pub open spec fn index_sections_spec(s: Seq<DocSidebarItemData>) -> Seq<
    (DocSidebarItemData, Seq<DocSidebarItemData>),
>
    decreases s,
{
    if s.len() == 0 {
        Seq::empty()
    } else {
        let x = s.last();
        proof {
            assert(decreases_to!(s => x));
            assert(decreases_to!(x => x.children));
            assert(decreases_to!(x.children => x.children@));
        }
        index_sections_spec(s.drop_last()) + (if x.kind@ == "folder_with_index"@ {
            seq![(x, by_rank_spec(index_entries_spec(x.children@)))]
        } else {
            Seq::empty()
        }) + index_sections_spec(x.children@)
    }
}

/// Sections that hold the same folders and pages.
pub open spec fn same_sections(
    a: Seq<(DocSidebarItemData, Vec<DocSidebarItemData>)>,
    b: Seq<(DocSidebarItemData, Seq<DocSidebarItemData>)>,
) -> bool {
    &&& a.len() == b.len()
    &&& forall|k: int|
        0 <= k < a.len() ==> same_item((#[trigger] a[k]).0, b[k].0) && same_items(a[k].1@, b[k].1)
}

/// Appends to `out` the sections of the quick index, in tree order.
pub fn collect_folder_with_index_sections(
    items: &[DocSidebarItemData],
    out: &mut Vec<(DocSidebarItemData, Vec<DocSidebarItemData>)>,
)
    ensures
        final(out)@.len() >= old(out)@.len(),
        final(out)@.take(old(out)@.len() as int) == old(out)@,
        same_sections(final(out)@.skip(old(out)@.len() as int), index_sections_spec(items@)),
    decreases items@,
{
    let ghost o0 = out@;
    let ghost n0 = out@.len() as int;
    let mut i: usize = 0;
    assert(out@.skip(n0) =~= Seq::<(DocSidebarItemData, Vec<DocSidebarItemData>)>::empty());
    assert(index_sections_spec(items@.take(0)) =~= Seq::<
        (DocSidebarItemData, Seq<DocSidebarItemData>),
    >::empty());
    while i < items.len()
        invariant
            i <= items.len(),
            o0 == old(out)@,
            n0 == o0.len(),
            out@.len() >= n0,
            out@.take(n0) == o0,
            same_sections(out@.skip(n0), index_sections_spec(items@.take(i as int))),
        decreases items.len() - i,
    {
        let item = &items[i];
        let ghost x = items@[i as int];
        let ghost prefix = items@.take(i as int);
        assert(items@.take(i + 1).drop_last() =~= prefix);
        assert(items@.take(i + 1).last() == x);
        let ghost kept: Seq<(DocSidebarItemData, Seq<DocSidebarItemData>)> = if x.kind@
            == "folder_with_index"@ {
            seq![(x, by_rank_spec(index_entries_spec(x.children@)))]
        } else {
            Seq::empty()
        };
        if str_eq(item.kind.as_str(), "folder_with_index") {
            let mut entries: Vec<DocSidebarItemData> = Vec::new();
            collect_index_entries(item.children.as_slice(), &mut entries);
            assert(entries@.skip(0) =~= entries@);
            proof {
                lemma_same_items_by_rank(entries@, index_entries_spec(x.children@));
            }
            let sorted = sort_by_rank(entries);
            let c = copy_item(item);
            let ghost before = out@;
            out.push((c, sorted));
            assert(out@.skip(n0) =~= before.skip(n0).push((c, sorted)));
            assert(out@.take(n0) =~= o0);
        }
        assert(same_sections(out@.skip(n0), index_sections_spec(prefix) + kept));
        let ghost mid = out@;
        proof {
            assert(decreases_to!(items@ => items@[i as int]));
        }
        collect_folder_with_index_sections(item.children.as_slice(), out);
        proof {
            let n1 = mid.len() as int;
            assert(out@.take(n1) == mid);
            assert(out@.skip(n0) =~= mid.skip(n0) + out@.skip(n1));
            assert(index_sections_spec(items@.take(i + 1)) == index_sections_spec(prefix) + kept
                + index_sections_spec(x.children@));
            assert(out@.take(n0) =~= mid.take(n0));
        }
        i = i + 1;
    }
    assert(items@.take(i as int) =~= items@);
}

// ───────────────────────────── the navigation tree ─────────────────────────────

/// Puts the nodes of one level of the tree in increasing order.
pub fn sort_by_order(items: Vec<DocSidebarItemData>) -> (sorted: Vec<DocSidebarItemData>)
    ensures
        sorted@ == by_rank_spec(items@),
{
    sort_by_rank(items)
}

/// The indentation class of a level of the tree.
pub open spec fn tree_indent_spec(depth: nat) -> Seq<char> {
    if depth == 0 {
        ""@
    } else if depth == 1 {
        "ms-2"@
    } else if depth == 2 {
        "ms-4"@
    } else if depth == 3 {
        "ms-6"@
    } else {
        "ms-8"@
    }
}

/// Picks the indentation class of a level of the tree.
pub fn tree_indent(depth: usize) -> (class: &'static str)
    ensures
        class@ == tree_indent_spec(depth as nat),
{
    match depth {
        0 => "",
        1 => "ms-2",
        2 => "ms-4",
        3 => "ms-6",
        _ => "ms-8",
    }
}

/// How a node of the tree is shown.
#[derive(Clone, Copy, Debug, PartialEq, Eq, Structural)]
pub enum DocNodeStyle {
    /// A folder with an index page: a link in bold.
    FolderWithIndex,
    /// A folder: a label.
    Folder,
    /// A page: a link.
    Page,
}

/// How a node of the given kind is shown.
pub open spec fn node_style_spec(kind: Seq<char>) -> DocNodeStyle {
    if kind == "folder_with_index"@ {
        DocNodeStyle::FolderWithIndex
    } else if kind == "folder"@ {
        DocNodeStyle::Folder
    } else {
        DocNodeStyle::Page
    }
}

/// Picks how a node is shown.
pub fn node_style(kind: &str) -> (style: DocNodeStyle)
    ensures
        style == node_style_spec(kind@),
{
    if str_eq(kind, "folder_with_index") {
        DocNodeStyle::FolderWithIndex
    } else if str_eq(kind, "folder") {
        DocNodeStyle::Folder
    } else {
        DocNodeStyle::Page
    }
}

/// A node has an open/close button when it is a folder with children.
pub fn has_toggle(item: &DocSidebarItemData) -> (r: bool)
    ensures
        r == (is_folder_kind(item.kind@) && item.children@.len() > 0),
{
    is_folder_kind_str(item.kind.as_str()) && item.children.len() > 0
}

/// Whether `open` holds `h`.
fn holds_handle(open: &Vec<String>, h: &str) -> (r: bool)
    ensures
        r == handle_set(open@).contains(h@),
{
    let mut i: usize = 0;
    while i < open.len()
        invariant
            i <= open.len(),
            forall|j: int| 0 <= j < i ==> (#[trigger] open@[j])@ != h@,
        decreases open.len() - i,
    {
        if str_eq(open[i].as_str(), h) {
            assert(open@.map_values(|s: String| s@)[i as int] == h@);
            return true;
        }
        i = i + 1;
    }
    proof {
        if handle_set(open@).contains(h@) {
            let mv = open@.map_values(|s: String| s@);
            let k = choose|k: int| 0 <= k < mv.len() && mv[k] == h@;
            assert(open@[k]@ == h@);
        }
    }
    false
}

/// The children of a node show at the top level, and below it when the node is
/// open.
pub fn is_open(depth: usize, open: &Vec<String>, handle: &str) -> (r: bool)
    ensures
        r == (depth == 0 || handle_set(open@).contains(handle@)),
{
    depth == 0 || holds_handle(open, handle)
}

/// Opens a closed folder and closes an open one; top-level folders stay open.
pub fn toggle_folder(open: &mut Vec<String>, depth: usize, handle: &String)
    ensures
        handle_set(final(open)@) == (if depth == 0 {
            handle_set(old(open)@)
        } else if handle_set(old(open)@).contains(handle@) {
            handle_set(old(open)@).remove(handle@)
        } else {
            handle_set(old(open)@).insert(handle@)
        }),
{
    if depth == 0 {
        return;
    }
    if holds_handle(open, handle.as_str()) {
        remove_handle(open, handle.as_str());
    } else {
        crate::pages::content::insert_handle(open, handle);
    }
}

proof fn lemma_handle_set_strs(v: Seq<String>, y: Seq<char>)
    ensures
        handle_set(v).contains(y) <==> strs(v).contains(y),
{
    let mv = v.map_values(|s: String| s@);
    if mv.contains(y) {
        let k = choose|k: int| 0 <= k < mv.len() && mv[k] == y;
        assert(strs(v)[k] == y);
    }
    if strs(v).contains(y) {
        let k = choose|k: int| 0 <= k < strs(v).len() && strs(v)[k] == y;
        assert(mv[k] == y);
    }
}

/// Removes every copy of `h` from `open`.
fn remove_handle(open: &mut Vec<String>, h: &str)
    ensures
        handle_set(final(open)@) == handle_set(old(open)@).remove(h@),
{
    let mut kept: Vec<String> = Vec::new();
    let mut i: usize = 0;
    while i < open.len()
        invariant
            i <= open.len(),
            forall|y: Seq<char>|
                #[trigger] strs(kept@).contains(y) <==> (strs(open@.take(i as int)).contains(y) && y
                    != h@),
        decreases open.len() - i,
    {
        let ghost before = kept@;
        let ghost t = strs(open@.take(i + 1));
        let ghost t0 = strs(open@.take(i as int));
        assert(t =~= t0.push(open@[i as int]@));
        let ghost bv = strs(before);
        if !str_eq(open[i].as_str(), h) {
            kept.push(open[i].clone());
        }
        proof {
            let kv = strs(kept@);
            assert forall|y: Seq<char>| #[trigger] kv.contains(y) <==> (t.contains(y) && y != h@) by {
                assert(bv.contains(y) <==> (t0.contains(y) && y != h@));
                if kv.contains(y) {
                    let k = choose|k: int| 0 <= k < kv.len() && kv[k] == y;
                    if k < bv.len() {
                        assert(bv[k] == y);
                        assert(bv.contains(y));
                        let m = choose|m: int| 0 <= m < t0.len() && t0[m] == y;
                        assert(t[m] == y);
                    } else {
                        assert(kept@.len() == before.len() + 1);
                        assert(kept@[k] == open@[i as int]);
                        assert(t[t.len() - 1] == y);
                        assert(y != h@);
                    }
                }
                if t.contains(y) && y != h@ {
                    let k = choose|k: int| 0 <= k < t.len() && t[k] == y;
                    if k < t0.len() {
                        assert(t0[k] == y);
                        let m = choose|m: int| 0 <= m < bv.len() && bv[m] == y;
                        assert(kv[m] == y);
                    } else {
                        assert(kv[kv.len() - 1] == y);
                    }
                }
            }
        }
        i = i + 1;
    }
    assert(open@.take(i as int) =~= open@);
    assert(handle_set(kept@) =~= handle_set(open@).remove(h@)) by {
        assert forall|y: Seq<char>| handle_set(kept@).contains(y) <==> handle_set(open@).remove(
            h@,
        ).contains(y) by {
            lemma_handle_set_strs(kept@, y);
            lemma_handle_set_strs(open@, y);
            assert(strs(kept@).contains(y) <==> (strs(open@).contains(y) && y != h@));
        }
    }
    *open = kept;
}

/// Toggling a folder twice gives back the open folders as they were.
pub proof fn lemma_toggle_twice(open: Set<Seq<char>>, h: Seq<char>)
    ensures
        ({
            let once = if open.contains(h) {
                open.remove(h)
            } else {
                open.insert(h)
            };
            let twice = if once.contains(h) {
                once.remove(h)
            } else {
                once.insert(h)
            };
            twice == open
        }),
{
    if open.contains(h) {
        assert(open.remove(h).insert(h) =~= open);
    } else {
        assert(open.insert(h).remove(h) =~= open);
    }
}

/// The folders open when the page at `pathname` loads: those on the way to the
/// page for a documentation page, none elsewhere.
pub fn open_folders_for_path(nav: &[DocSidebarItemData], pathname: &str) -> (open: Vec<String>)
    ensures
        handle_set(open@) == ({
            let handle = strip_leading(pathname@, '/');
            if crate::text::has_prefix(handle, "docs/"@) || handle == "docs"@ {
                if on_path(nav@, handle) {
                    path_folders(nav@, handle)
                } else {
                    Set::empty()
                }
            } else {
                Set::<Seq<char>>::empty()
            }
        }),
{
    let v = chars_of(pathname);
    let start = leading_end(&v, '/');
    let handle = string_of_range(&v, start, v.len());
    let mut open: Vec<String> = Vec::new();
    assert(handle_set(open@) =~= Set::<Seq<char>>::empty());
    if !is_docs_handle(handle.as_str()) {
        return open;
    }
    collect_active_path_folders(nav, handle.as_str(), &mut open);
    assert(handle_set(open@) =~= (if on_path(nav@, handle@) {
        path_folders(nav@, handle@)
    } else {
        Set::empty()
    }));
    open
}

} // verus!
