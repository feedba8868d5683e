//! Markdown AST as delivered by the content backend, and the text helpers that the
//! renderer and the table of contents share.
use vstd::prelude::*;

pub mod code_block;
pub mod render;
pub mod toc;

use crate::text::{
    alphanumeric, chars_of, has_prefix, is_alphanumeric, join_with, lowercase, push_range, push_str,
    split_char, split_ranges, starts_with_chars, str_eq, string_of_range, to_lowercase,
};

verus! {

/// A markdown AST node. Attributes are the backend's string map, held as
/// `(key, value)` pairs; looking a key up takes its first pair.
pub struct MarkdownNode {
    pub kind: String,
    pub text: String,
    pub attrs: Vec<(String, String)>,
    pub children: Vec<MarkdownNode>,
}

/// Markdown content container with format and nodes.
pub struct MarkdownContent {
    pub format: String,
    pub nodes: Vec<MarkdownNode>,
}

/// The plain text of a list of nodes: each node's own text followed by the text of
/// its children, depth first.
pub open spec fn nodes_text(ns: Seq<MarkdownNode>) -> Seq<char>
    decreases ns,
{
    if ns.len() == 0 {
        Seq::<char>::empty()
    } else {
        let last = ns.last();
        proof {
            assert(decreases_to!(ns => last));
            assert(decreases_to!(last => last.children));
            assert(decreases_to!(last.children => last.children@));
        }
        nodes_text(ns.drop_last()) + last.text@ + nodes_text(last.children@)
    }
}

fn push_nodes_text(out: &mut String, nodes: &[MarkdownNode])
    ensures
        final(out)@ == old(out)@ + nodes_text(nodes@),
    decreases nodes@,
{
    let mut i: usize = 0;
    while i < nodes.len()
        invariant
            i <= nodes.len(),
            out@ == old(out)@ + nodes_text(nodes@.take(i as int)),
        decreases nodes.len() - i,
    {
        let node = &nodes[i];
        push_str(out, node.text.as_str());
        proof {
            assert(decreases_to!(nodes@ => nodes@[i as int]));
        }
        push_nodes_text(out, node.children.as_slice());
        assert(nodes@.take(i + 1).drop_last() =~= nodes@.take(i as int));
        assert(out@ =~= old(out)@ + nodes_text(nodes@.take(i + 1)));
        i = i + 1;
    }
    assert(nodes@.take(nodes.len() as int) =~= nodes@);
}

/// Recursively extracts the plain text of a node tree.
pub fn extract_text(nodes: &[MarkdownNode]) -> (text: String)
    ensures
        text@ == nodes_text(nodes@),
{
    let mut out = String::new();
    push_nodes_text(&mut out, nodes);
    assert(out@ =~= nodes_text(nodes@));
    out
}

// ───────────────────────────── attributes ─────────────────────────────

/// The value stored under `key` in an attribute list.
pub open spec fn lookup(attrs: Seq<(String, String)>, key: Seq<char>) -> Option<Seq<char>>
    decreases attrs.len(),
{
    if attrs.len() == 0 {
        None
    } else if attrs[0].0@ == key {
        Some(attrs[0].1@)
    } else {
        lookup(attrs.drop_first(), key)
    }
}

/// The attribute `key` of a node (`attrs.get(key)`).
pub open spec fn attr(n: MarkdownNode, key: Seq<char>) -> Option<Seq<char>> {
    lookup(n.attrs@, key)
}

/// The value of attribute `key`, if the node has one.
pub fn attr_value<'a>(node: &'a MarkdownNode, key: &str) -> (r: Option<&'a String>)
    ensures
        match r {
            Some(v) => attr(*node, key@) == Some(v@),
            None => attr(*node, key@) is None,
        },
{
    let mut i: usize = 0;
    assert(node.attrs@.skip(0) =~= node.attrs@);
    while i < node.attrs.len()
        invariant
            i <= node.attrs.len(),
            attr(*node, key@) == lookup(node.attrs@.skip(i as int), key@),
        decreases node.attrs.len() - i,
    {
        if str_eq(node.attrs[i].0.as_str(), key) {
            assert(node.attrs@.skip(i as int)[0] == node.attrs@[i as int]);
            return Some(&node.attrs[i].1);
        }
        assert(node.attrs@.skip(i as int)[0] == node.attrs@[i as int]);
        assert(node.attrs@.skip(i as int).drop_first() =~= node.attrs@.skip(i + 1));
        i = i + 1;
    }
    None
}

/// The attribute `key` of a node, or the empty string (`unwrap_or_default`).
pub open spec fn attr_or_empty(n: MarkdownNode, key: Seq<char>) -> Seq<char> {
    match attr(n, key) {
        Some(v) => v,
        None => Seq::<char>::empty(),
    }
}

/// The attribute `key` of a node as an owned string, or the empty string.
pub fn attr_or_default(node: &MarkdownNode, key: &str) -> (r: String)
    ensures
        r@ == attr_or_empty(*node, key@),
{
    match attr_value(node, key) {
        Some(v) => v.clone(),
        None => String::new(),
    }
}

// ───────────────────────────── slugs and anchors ─────────────────────────────

/// Every character that is not alphanumeric replaced by `-`.
pub open spec fn slug_mask(s: Seq<char>) -> Seq<char> {
    s.map_values(|c: char| if alphanumeric(c) { c } else { '-' })
}

/// The non-empty pieces of a list, in order.
pub open spec fn nonempty_pieces(ps: Seq<Seq<char>>) -> Seq<Seq<char>>
    decreases ps.len(),
{
    if ps.len() == 0 {
        ps
    } else if ps.last().len() > 0 {
        nonempty_pieces(ps.drop_last()).push(ps.last())
    } else {
        nonempty_pieces(ps.drop_last())
    }
}

/// The slug of an already lowercased text: its runs of alphanumeric characters
/// joined by single dashes.
pub open spec fn slug_of_lowercase(lower: Seq<char>) -> Seq<char> {
    join_with(nonempty_pieces(split_char(slug_mask(lower), '-')), "-"@)
}

/// The slug of a heading text (`slugify`).
pub open spec fn slug(text: Seq<char>) -> Seq<char> {
    slug_of_lowercase(lowercase(text))
}

/// Joins the pieces `v[r.0..r.1]` of `ranges` that are not empty with `-`.
fn join_nonempty_ranges(v: &Vec<char>, ranges: &Vec<(usize, usize)>, pieces: Ghost<Seq<Seq<char>>>) -> (out: String)
    requires
        ranges.len() == pieces@.len(),
        forall|k: int|
            0 <= k < ranges.len() ==> (#[trigger] ranges@[k]).0 <= ranges@[k].1 <= v.len()
                && v@.subrange(ranges@[k].0 as int, ranges@[k].1 as int) == pieces@[k],
    ensures
        out@ == join_with(nonempty_pieces(pieces@), "-"@),
{
    proof {
        reveal_strlit("-");
    }
    let mut out = String::new();
    let mut k: usize = 0;
    let mut any = false;
    while k < ranges.len()
        invariant
            k <= ranges.len() == pieces@.len(),
            forall|j: int|
                0 <= j < ranges.len() ==> (#[trigger] ranges@[j]).0 <= ranges@[j].1 <= v.len()
                    && v@.subrange(ranges@[j].0 as int, ranges@[j].1 as int) == pieces@[j],
            out@ == join_with(nonempty_pieces(pieces@.take(k as int)), "-"@),
            any == (nonempty_pieces(pieces@.take(k as int)).len() > 0),
        decreases ranges.len() - k,
    {
        let (a, b) = ranges[k];
        let ghost prev = nonempty_pieces(pieces@.take(k as int));
        assert(pieces@.take(k + 1).drop_last() =~= pieces@.take(k as int));
        assert(pieces@.take(k + 1).last() == pieces@[k as int]);
        if a < b {
            if any {
                push_str(&mut out, "-");
            }
            push_range(&mut out, v, a, b);
            assert(nonempty_pieces(pieces@.take(k + 1)) == prev.push(pieces@[k as int]));
            assert(prev.push(pieces@[k as int]).drop_last() =~= prev);
            assert(out@ =~= join_with(prev.push(pieces@[k as int]), "-"@));
            any = true;
        }
        k = k + 1;
    }
    assert(pieces@.take(ranges.len() as int) =~= pieces@);
    out
}

/// The slug of a text that is already lowercase.
pub fn slug_from_lowercase(lower: &str) -> (slug: String)
    ensures
        slug@ == slug_of_lowercase(lower@),
{
    let v = chars_of(lower);
    let mut masked: Vec<char> = Vec::new();
    let mut i: usize = 0;
    while i < v.len()
        invariant
            i <= v.len(),
            v@ == lower@,
            masked@ == slug_mask(v@.take(i as int)),
        decreases v.len() - i,
    {
        let c = v[i];
        if is_alphanumeric(c) {
            masked.push(c);
        } else {
            masked.push('-');
        }
        assert(masked@ =~= slug_mask(v@.take(i + 1)));
        i = i + 1;
    }
    assert(v@.take(v.len() as int) =~= v@);
    let ranges = split_ranges(&masked, 0, masked.len(), '-');
    assert(masked@.subrange(0, masked@.len() as int) =~= masked@);
    join_nonempty_ranges(&masked, &ranges, Ghost(split_char(masked@, '-')))
}

/// Turns a heading's plain text into a URL-friendly slug.
pub fn slugify(text: &str) -> (out: String)
    ensures
        out@ == slug(text@),
        slug_shape(out@),
{
    proof {
        lemma_slug_shape(text@);
    }
    let lower = to_lowercase(text);
    slug_from_lowercase(lower.as_str())
}

/// A well-formed slug: made of dashes and alphanumeric characters, with no dash at
/// either end and never two dashes in a row.
pub open spec fn slug_shape(r: Seq<char>) -> bool {
    &&& forall|i: int| 0 <= i < r.len() ==> r[i] == '-' || alphanumeric(#[trigger] r[i])
    &&& r.len() > 0 ==> r[0] != '-' && r[r.len() - 1] != '-'
    &&& forall|i: int| 0 <= i < r.len() - 1 ==> !(#[trigger] r[i] == '-' && r[i + 1] == '-')
}

/// A piece between dashes of a masked text: alphanumeric characters, no dash.
pub open spec fn slug_piece(p: Seq<char>) -> bool {
    forall|j: int| 0 <= j < p.len() ==> (#[trigger] p[j]) != '-' && alphanumeric(p[j])
}

proof fn lemma_split_pieces(s: Seq<char>)
    requires
        forall|i: int| 0 <= i < s.len() ==> s[i] == '-' || alphanumeric(#[trigger] s[i]),
    ensures
        forall|k: int| 0 <= k < split_char(s, '-').len() ==> slug_piece(#[trigger] split_char(s, '-')[k]),
    decreases s.len(),
{
    if s.len() > 0 {
        let d = s.drop_last();
        assert forall|i: int| 0 <= i < d.len() implies d[i] == '-' || alphanumeric(#[trigger] d[i]) by {
            assert(d[i] == s[i]);
        }
        lemma_split_pieces(d);
        let r = split_char(d, '-');
        crate::text::lemma_split_nonempty(d, '-');
        if s.last() != '-' {
            assert(alphanumeric(s[s.len() - 1]));
            let last = r.last().push(s.last());
            assert(slug_piece(r[r.len() - 1]));
            assert(slug_piece(last));
            let u = r.update(r.len() - 1, last);
            assert forall|k: int| 0 <= k < u.len() implies slug_piece(#[trigger] u[k]) by {
                if k < r.len() - 1 {
                    assert(u[k] == r[k]);
                }
            }
        } else {
            let u = r.push(Seq::<char>::empty());
            assert forall|k: int| 0 <= k < u.len() implies slug_piece(#[trigger] u[k]) by {
                if k < r.len() {
                    assert(u[k] == r[k]);
                }
            }
        }
    }
}

proof fn lemma_nonempty_pieces(ps: Seq<Seq<char>>)
    requires
        forall|k: int| 0 <= k < ps.len() ==> slug_piece(#[trigger] ps[k]),
    ensures
        forall|k: int|
            0 <= k < nonempty_pieces(ps).len() ==> slug_piece(#[trigger] nonempty_pieces(ps)[k])
                && nonempty_pieces(ps)[k].len() > 0,
    decreases ps.len(),
{
    if ps.len() > 0 {
        let d = ps.drop_last();
        assert forall|k: int| 0 <= k < d.len() implies slug_piece(#[trigger] d[k]) by {
            assert(d[k] == ps[k]);
        }
        lemma_nonempty_pieces(d);
        let n = nonempty_pieces(d);
        if ps.last().len() > 0 {
            assert(slug_piece(ps[ps.len() - 1]));
            assert forall|k: int| 0 <= k < n.push(ps.last()).len() implies slug_piece(
                #[trigger] n.push(ps.last())[k],
            ) && n.push(ps.last())[k].len() > 0 by {
                if k < n.len() {
                    assert(n.push(ps.last())[k] == n[k]);
                }
            }
        }
    }
}

proof fn lemma_join_slug(ps: Seq<Seq<char>>)
    requires
        forall|k: int| 0 <= k < ps.len() ==> slug_piece(#[trigger] ps[k]) && ps[k].len() > 0,
    ensures
        slug_shape(join_with(ps, "-"@)),
        ps.len() > 0 ==> join_with(ps, "-"@).len() > 0,
    decreases ps.len(),
{
    reveal_strlit("-");
    if ps.len() == 1 {
        assert(slug_piece(ps[0]));
    } else if ps.len() > 1 {
        let d = ps.drop_last();
        assert forall|k: int| 0 <= k < d.len() implies slug_piece(#[trigger] d[k]) && d[k].len() > 0 by {
            assert(d[k] == ps[k]);
        }
        lemma_join_slug(d);
        let a = join_with(d, "-"@);
        let p = ps.last();
        assert(slug_piece(ps[ps.len() - 1]));
        let r = a + "-"@ + p;
        assert(join_with(ps, "-"@) == r);
        assert(r.len() == a.len() + 1 + p.len());
        assert forall|i: int| 0 <= i < r.len() implies r[i] == '-' || alphanumeric(#[trigger] r[i]) by {
            if i < a.len() {
                assert(r[i] == a[i]);
            } else if i > a.len() {
                assert(r[i] == p[i - a.len() - 1]);
            }
        }
        assert(r[0] == a[0]);
        assert(r[r.len() - 1] == p[p.len() - 1]);
        assert forall|i: int| 0 <= i < r.len() - 1 implies !(#[trigger] r[i] == '-' && r[i + 1] == '-') by {
            if i + 1 < a.len() {
                assert(r[i] == a[i] && r[i + 1] == a[i + 1]);
            } else if i + 1 == a.len() {
                assert(r[i] == a[a.len() - 1]);
            } else if i == a.len() {
                assert(r[i + 1] == p[0]);
            } else {
                assert(r[i] == p[i - a.len() - 1]);
            }
        }
    }
}

/// A slug is made of alphanumeric characters and single dashes between them: no
/// dash at either end and never two in a row.
pub proof fn lemma_slug_shape(text: Seq<char>)
    ensures
        slug_shape(slug(text)),
{
    let m = slug_mask(lowercase(text));
    assert forall|i: int| 0 <= i < m.len() implies m[i] == '-' || alphanumeric(#[trigger] m[i]) by {}
    lemma_split_pieces(m);
    lemma_nonempty_pieces(split_char(m, '-'));
    lemma_join_slug(nonempty_pieces(split_char(m, '-')));
}

/// The anchor id of a heading: the id itself when it already starts with
/// `heading-`, otherwise the id with that prefix added.
pub open spec fn anchor_id(base: Seq<char>) -> Seq<char> {
    if has_prefix(base, "heading-"@) {
        base
    } else {
        "heading-"@ + base
    }
}

/// Ensures heading anchors target heading elements with a dedicated id namespace.
pub fn heading_anchor_id(base_id: &str) -> (id: String)
    ensures
        id@ == anchor_id(base_id@),
{
    let v = chars_of(base_id);
    let prefix = chars_of("heading-");
    if starts_with_chars(&v, &prefix) {
        string_of_range(&v, 0, v.len())
    } else {
        let mut out = String::new();
        push_str(&mut out, "heading-");
        push_range(&mut out, &v, 0, v.len());
        out
    }
}

/// Giving an anchor id its prefix a second time changes nothing.
pub proof fn lemma_anchor_id_idempotent(base: Seq<char>)
    ensures
        anchor_id(anchor_id(base)) == anchor_id(base),
{
    let p = "heading-"@;
    if !has_prefix(base, p) {
        assert((p + base).subrange(0, p.len() as int) =~= p);
    }
}

} // verus!
