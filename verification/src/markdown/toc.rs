//! Table of contents entries derived from the headings of a document.
use vstd::prelude::*;

use super::{anchor_id, attr, attr_value, extract_text, heading_anchor_id, nodes_text, slug, slugify, MarkdownNode};
use crate::text::{chars_of, parse_unsigned, parse_unsigned_range, str_eq};

verus! {

/// A single entry in the table of contents.
pub struct TocEntry {
    pub level: u8,
    pub text: String,
    pub id: String,
}

/// The level of a heading: its `level` attribute read as a `u8`, or 1.
pub open spec fn heading_level(n: MarkdownNode) -> u8 {
    match attr(n, "level"@) {
        Some(l) => match parse_unsigned(l, 255) {
            Some(v) => v as u8,
            None => 1,
        },
        None => 1,
    }
}

/// The id a heading is known by: its `id` attribute, or the slug of its text.
pub open spec fn heading_base_id(n: MarkdownNode) -> Seq<char> {
    match attr(n, "id"@) {
        Some(id) => id,
        None => slug(nodes_text(n.children@)),
    }
}

/// The entry of a heading node: level, text and anchor id.
pub open spec fn toc_entry_of(n: MarkdownNode) -> (u8, Seq<char>, Seq<char>) {
    (heading_level(n), nodes_text(n.children@), anchor_id(heading_base_id(n)))
}

/// The entries of the top-level headings of a document, in document order.
pub open spec fn toc_of(ns: Seq<MarkdownNode>) -> Seq<(u8, Seq<char>, Seq<char>)>
    decreases ns.len(),
{
    if ns.len() == 0 {
        Seq::empty()
    } else if ns.last().kind@ == "heading"@ {
        toc_of(ns.drop_last()).push(toc_entry_of(ns.last()))
    } else {
        toc_of(ns.drop_last())
    }
}

pub open spec fn toc_view(entries: Seq<TocEntry>) -> Seq<(u8, Seq<char>, Seq<char>)> {
    entries.map_values(|e: TocEntry| (e.level, e.text@, e.id@))
}

/// The level of a heading node.
pub fn heading_level_of(node: &MarkdownNode) -> (level: u8)
    ensures
        level == heading_level(*node),
{
    match attr_value(node, "level") {
        Some(l) => {
            let v = chars_of(l.as_str());
            match parse_unsigned_range(&v, 0, v.len(), 255) {
                Some(x) => {
                    assert(v@.subrange(0, v@.len() as int) =~= l@);
                    x as u8
                },
                None => {
                    assert(v@.subrange(0, v@.len() as int) =~= l@);
                    1
                },
            }
        },
        None => 1,
    }
}

/// Walks the top-level nodes and collects all heading entries.
pub fn extract_headings(nodes: &[MarkdownNode]) -> (entries: Vec<TocEntry>)
    ensures
        toc_view(entries@) == toc_of(nodes@),
{
    let mut entries: Vec<TocEntry> = Vec::new();
    let mut i: usize = 0;
    while i < nodes.len()
        invariant
            i <= nodes.len(),
            toc_view(entries@) == toc_of(nodes@.take(i as int)),
        decreases nodes.len() - i,
    {
        let n = &nodes[i];
        assert(nodes@.take(i + 1).drop_last() =~= nodes@.take(i as int));
        assert(nodes@.take(i + 1).last() == nodes@[i as int]);
        if str_eq(n.kind.as_str(), "heading") {
            let level = heading_level_of(n);
            let text = extract_text(n.children.as_slice());
            let base_id = match attr_value(n, "id") {
                Some(id) => id.clone(),
                None => slugify(text.as_str()),
            };
            let id = heading_anchor_id(base_id.as_str());
            let ghost before = entries@;
            entries.push(TocEntry { level, text, id });
            assert(toc_view(entries@) =~= toc_view(before).push(toc_entry_of(nodes@[i as int])));
        }
        i = i + 1;
    }
    assert(nodes@.take(nodes.len() as int) =~= nodes@);
    entries
}

/// The smallest level among the entries, or 1 when there are none.
pub fn toc_min_level(entries: &[TocEntry]) -> (min: u8)
    ensures
        entries@.len() == 0 ==> min == 1,
        entries@.len() > 0 ==> (exists|i: int| 0 <= i < entries@.len() && entries@[i].level == min),
        forall|i: int| 0 <= i < entries@.len() ==> min <= (#[trigger] entries@[i]).level,
{
    if entries.len() == 0 {
        return 1;
    }
    let mut min = entries[0].level;
    let mut i: usize = 1;
    while i < entries.len()
        invariant
            1 <= i <= entries.len(),
            exists|j: int| 0 <= j < i && entries@[j].level == min,
            forall|j: int| 0 <= j < i ==> min <= (#[trigger] entries@[j]).level,
        decreases entries.len() - i,
    {
        if entries[i].level < min {
            min = entries[i].level;
        }
        i = i + 1;
    }
    min
}

/// The indentation class of an entry, by how much deeper than the shallowest entry it is.
pub fn toc_indent_class(level: u8, min_level: u8) -> (class: &'static str)
    requires
        min_level <= level,
    ensures
        class@ == (if level - min_level == 0 {
            ""@
        } else if level - min_level == 1 {
            "pl-3"@
        } else if level - min_level == 2 {
            "pl-6"@
        } else if level - min_level == 3 {
            "pl-9"@
        } else {
            "pl-12"@
        }),
{
    let indent = level - min_level;
    if indent == 0 {
        ""
    } else if indent == 1 {
        "pl-3"
    } else if indent == 2 {
        "pl-6"
    } else if indent == 3 {
        "pl-9"
    } else {
        "pl-12"
    }
}

} // verus!
