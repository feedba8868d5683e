//! The decisions the markdown renderer takes for each node: which element renders
//! it and what its attributes say.
use vstd::prelude::*;

use super::toc::{heading_level, heading_level_of};
use super::{attr, attr_or_default, attr_or_empty, attr_value, MarkdownNode};
use crate::text::{
    chars_of, contains_chars, contains_seq, decimal, parse_unsigned, parse_unsigned_range,
    push_decimal, push_str, str_eq, string_of_range,
};

verus! {

/// The element that renders a node.
#[derive(Clone, Copy, Debug, PartialEq, Eq, Structural)]
pub enum NodeRenderer {
    Heading,
    Paragraph,
    CodeBlock,
    Blockquote,
    List,
    ListItem,
    Table,
    Rule,
    Html,
    Text,
    InlineCode,
    Emphasis,
    Strong,
    Link,
    Image,
    HardBreak,
    SoftBreak,
    FootnoteReference,
    /// Footnote definitions are rendered at the end, in the notes section.
    Hidden,
    /// Unknown kinds render their children in a plain container.
    Container,
}

/// The renderer for a node kind.
pub open spec fn renderer_for(kind: Seq<char>) -> NodeRenderer {
    if kind == "heading"@ {
        NodeRenderer::Heading
    } else if kind == "paragraph"@ {
        NodeRenderer::Paragraph
    } else if kind == "code_block"@ {
        NodeRenderer::CodeBlock
    } else if kind == "blockquote"@ {
        NodeRenderer::Blockquote
    } else if kind == "list"@ {
        NodeRenderer::List
    } else if kind == "list_item"@ {
        NodeRenderer::ListItem
    } else if kind == "table"@ {
        NodeRenderer::Table
    } else if kind == "rule"@ {
        NodeRenderer::Rule
    } else if kind == "html"@ {
        NodeRenderer::Html
    } else if kind == "text"@ {
        NodeRenderer::Text
    } else if kind == "code"@ {
        NodeRenderer::InlineCode
    } else if kind == "emphasis"@ {
        NodeRenderer::Emphasis
    } else if kind == "strong"@ {
        NodeRenderer::Strong
    } else if kind == "link"@ {
        NodeRenderer::Link
    } else if kind == "image"@ {
        NodeRenderer::Image
    } else if kind == "hard_break"@ {
        NodeRenderer::HardBreak
    } else if kind == "soft_break"@ {
        NodeRenderer::SoftBreak
    } else if kind == "footnote_reference"@ {
        NodeRenderer::FootnoteReference
    } else if kind == "footnote_definition"@ {
        NodeRenderer::Hidden
    } else {
        NodeRenderer::Container
    }
}

/// Dispatches a node kind to its renderer.
pub fn node_renderer(kind: &str) -> (r: NodeRenderer)
    ensures
        r == renderer_for(kind@),
{
    if str_eq(kind, "heading") {
        NodeRenderer::Heading
    } else if str_eq(kind, "paragraph") {
        NodeRenderer::Paragraph
    } else if str_eq(kind, "code_block") {
        NodeRenderer::CodeBlock
    } else if str_eq(kind, "blockquote") {
        NodeRenderer::Blockquote
    } else if str_eq(kind, "list") {
        NodeRenderer::List
    } else if str_eq(kind, "list_item") {
        NodeRenderer::ListItem
    } else if str_eq(kind, "table") {
        NodeRenderer::Table
    } else if str_eq(kind, "rule") {
        NodeRenderer::Rule
    } else if str_eq(kind, "html") {
        NodeRenderer::Html
    } else if str_eq(kind, "text") {
        NodeRenderer::Text
    } else if str_eq(kind, "code") {
        NodeRenderer::InlineCode
    } else if str_eq(kind, "emphasis") {
        NodeRenderer::Emphasis
    } else if str_eq(kind, "strong") {
        NodeRenderer::Strong
    } else if str_eq(kind, "link") {
        NodeRenderer::Link
    } else if str_eq(kind, "image") {
        NodeRenderer::Image
    } else if str_eq(kind, "hard_break") {
        NodeRenderer::HardBreak
    } else if str_eq(kind, "soft_break") {
        NodeRenderer::SoftBreak
    } else if str_eq(kind, "footnote_reference") {
        NodeRenderer::FootnoteReference
    } else if str_eq(kind, "footnote_definition") {
        NodeRenderer::Hidden
    } else {
        NodeRenderer::Container
    }
}

/// Whether a node is a footnote definition (rendered in the notes, not in the body).
pub fn is_footnote_definition(node: &MarkdownNode) -> (r: bool)
    ensures
        r == (node.kind@ == "footnote_definition"@),
{
    str_eq(node.kind.as_str(), "footnote_definition")
}

/// The heading element of a node: `h1` to `h5` for those levels, `h6` otherwise.
pub fn heading_tag_level(node: &MarkdownNode) -> (tag: u8)
    ensures
        tag == (if 1 <= heading_level(*node) <= 5 {
            heading_level(*node)
        } else {
            6
        }),
{
    let level = heading_level_of(node);
    if 1 <= level && level <= 5 {
        level
    } else {
        6
    }
}

/// The first of two attributes that the node has, or the empty string.
pub open spec fn attr_either(n: MarkdownNode, first: Seq<char>, second: Seq<char>) -> Seq<char> {
    match attr(n, first) {
        Some(v) => v,
        None => attr_or_empty(n, second),
    }
}

fn attr_either_exec(node: &MarkdownNode, first: &str, second: &str) -> (r: String)
    ensures
        r@ == attr_either(*node, first@, second@),
{
    match attr_value(node, first) {
        Some(v) => v.clone(),
        None => attr_or_default(node, second),
    }
}

/// The source of an image: its `url` attribute, else its `src`, else empty.
pub fn image_source(node: &MarkdownNode) -> (src: String)
    ensures
        src@ == attr_either(*node, "url"@, "src"@),
{
    attr_either_exec(node, "url", "src")
}

/// The target of a link: its `url` attribute, else its `href`, else empty.
pub fn link_target(node: &MarkdownNode) -> (href: String)
    ensures
        href@ == attr_either(*node, "url"@, "href"@),
{
    attr_either_exec(node, "url", "href")
}

/// Whether an image is a rendered Mermaid diagram, shown wider and scrollable.
pub fn is_mermaid_source(src: &str) -> (r: bool)
    ensures
        r == (contains_seq(src@, "/public/mermaid/"@) || contains_seq(src@, "/mermaid/"@)),
{
    let v = chars_of(src);
    contains_chars(&v, &chars_of("/public/mermaid/")) || contains_chars(&v, &chars_of("/mermaid/"))
}

/// Whether a list is ordered: its `ordered` attribute is exactly `true`.
pub fn is_ordered_list(node: &MarkdownNode) -> (r: bool)
    ensures
        r == (attr(*node, "ordered"@) == Some("true"@)),
{
    match attr_value(node, "ordered") {
        Some(v) => str_eq(v.as_str(), "true"),
        None => false,
    }
}

// ───────────────────────────── footnotes ─────────────────────────────

/// The label of a footnote: its name read as a number and written back (so `01`
/// shows as `1`), or the name itself.
pub open spec fn footnote_label_spec(name: Seq<char>) -> Seq<char> {
    match parse_unsigned(name, u64::MAX as nat) {
        Some(n) => decimal(n),
        None => name,
    }
}

/// The label shown for a footnote reference.
pub fn footnote_label(name: &str) -> (label: String)
    ensures
        label@ == footnote_label_spec(name@),
{
    let v = chars_of(name);
    assert(v@.subrange(0, v@.len() as int) =~= name@);
    match parse_unsigned_range(&v, 0, v.len(), u64::MAX) {
        Some(n) => {
            let mut out = String::new();
            push_decimal(&mut out, n);
            assert(out@ =~= decimal(n as nat));
            out
        },
        None => string_of_range(&v, 0, v.len()),
    }
}

/// The parts of an inline footnote reference `[^name]`.
pub struct FootnoteReference {
    /// Link to the definition, `#fn-{name}`.
    pub href: String,
    /// Id of the reference itself, `fnref-{name}`, which the definition links back to.
    pub back_id: String,
    pub label: String,
    /// `Footnote {label}`.
    pub aria_label: String,
}

/// The inline reference of a footnote node.
pub fn footnote_reference(node: &MarkdownNode) -> (r: FootnoteReference)
    ensures
        r.href@ == "#fn-"@ + attr_or_empty(*node, "name"@),
        r.back_id@ == "fnref-"@ + attr_or_empty(*node, "name"@),
        r.label@ == footnote_label_spec(attr_or_empty(*node, "name"@)),
        r.aria_label@ == "Footnote "@ + footnote_label_spec(attr_or_empty(*node, "name"@)),
{
    let name = attr_or_default(node, "name");
    let mut href = String::new();
    push_str(&mut href, "#fn-");
    push_str(&mut href, name.as_str());
    let mut back_id = String::new();
    push_str(&mut back_id, "fnref-");
    push_str(&mut back_id, name.as_str());
    let label = footnote_label(name.as_str());
    let mut aria_label = String::new();
    push_str(&mut aria_label, "Footnote ");
    push_str(&mut aria_label, label.as_str());
    FootnoteReference { href, back_id, label, aria_label }
}

/// How the last child of a footnote definition carries the back link.
#[derive(Clone, Copy, Debug, PartialEq, Eq, Structural)]
pub enum FootnoteTail {
    /// The last child is a paragraph: its children are shown inline, then the link.
    Paragraph,
    /// The last child is something else: it is shown, then the link.
    Other,
    /// There are no children: only the link.
    Empty,
}

/// The parts of a footnote definition.
pub struct FootnoteDefinition {
    /// `fn-{name}`.
    pub id: String,
    /// `#fnref-{name}`.
    pub back_href: String,
    pub tail: FootnoteTail,
}

/// The definition of a footnote node.
pub fn footnote_definition(node: &MarkdownNode) -> (r: FootnoteDefinition)
    ensures
        r.id@ == "fn-"@ + attr_or_empty(*node, "name"@),
        r.back_href@ == "#fnref-"@ + attr_or_empty(*node, "name"@),
        r.tail == (if node.children@.len() == 0 {
            FootnoteTail::Empty
        } else if node.children@.last().kind@ == "paragraph"@ {
            FootnoteTail::Paragraph
        } else {
            FootnoteTail::Other
        }),
{
    let name = attr_or_default(node, "name");
    let mut id = String::new();
    push_str(&mut id, "fn-");
    push_str(&mut id, name.as_str());
    let mut back_href = String::new();
    push_str(&mut back_href, "#fnref-");
    push_str(&mut back_href, name.as_str());
    let n = node.children.len();
    let tail = if n == 0 {
        FootnoteTail::Empty
    } else if str_eq(node.children[n - 1].kind.as_str(), "paragraph") {
        FootnoteTail::Paragraph
    } else {
        FootnoteTail::Other
    };
    FootnoteDefinition { id, back_href, tail }
}

/// A footnote reference links to the definition of the same name, and the definition
/// links back to that reference.
pub proof fn lemma_footnote_links_pair(name: Seq<char>)
    ensures
        ("#fn-"@ + name) == "#"@ + ("fn-"@ + name),
        ("#fnref-"@ + name) == "#"@ + ("fnref-"@ + name),
{
    reveal_strlit("#fn-");
    reveal_strlit("fn-");
    reveal_strlit("#fnref-");
    reveal_strlit("fnref-");
    reveal_strlit("#");
    assert(("#fn-"@ + name) =~= "#"@ + ("fn-"@ + name));
    assert(("#fnref-"@ + name) =~= "#"@ + ("fnref-"@ + name));
}

/// The nodes of a document that are not footnote definitions, in order.
pub open spec fn body_nodes(s: Seq<MarkdownNode>) -> Seq<MarkdownNode>
    decreases s.len(),
{
    if s.len() == 0 {
        s
    } else if s.last().kind@ == "footnote_definition"@ {
        body_nodes(s.drop_last())
    } else {
        body_nodes(s.drop_last()).push(s.last())
    }
}

/// The footnote definitions among the top-level nodes of a document, in order.
pub open spec fn footnote_definitions(s: Seq<MarkdownNode>) -> Seq<MarkdownNode>
    decreases s.len(),
{
    if s.len() == 0 {
        s
    } else if s.last().kind@ == "footnote_definition"@ {
        footnote_definitions(s.drop_last()).push(s.last())
    } else {
        footnote_definitions(s.drop_last())
    }
}

/// Splits the top-level nodes of a document into its body, shown in place, and its
/// footnote definitions, shown in the notes section at the end (none shown when
/// there are none).
pub fn split_footnotes(nodes: Vec<MarkdownNode>) -> (parts: (Vec<MarkdownNode>, Vec<MarkdownNode>))
    ensures
        parts.0@ == body_nodes(nodes@),
        parts.1@ == footnote_definitions(nodes@),
{
    let ghost all = nodes@;
    let total: usize = nodes.len();
    let mut rest = nodes;
    let mut body: Vec<MarkdownNode> = Vec::new();
    let mut notes: Vec<MarkdownNode> = Vec::new();
    let mut taken: usize = 0;
    while rest.len() > 0
        invariant
            taken + rest@.len() == all.len(),
            all.len() == total,
            rest@ == all.skip(taken as int),
            body@ == body_nodes(all.take(taken as int)),
            notes@ == footnote_definitions(all.take(taken as int)),
        decreases rest.len(),
    {
        let n = rest.remove(0);
        assert(all.take(taken + 1).drop_last() =~= all.take(taken as int));
        assert(all.take(taken + 1).last() == n);
        if is_footnote_definition(&n) {
            notes.push(n);
        } else {
            body.push(n);
        }
        assert(rest@ =~= all.skip(taken + 1));
        taken = taken + 1;
    }
    assert(all.take(taken as int) =~= all);
    (body, notes)
}

} // verus!
