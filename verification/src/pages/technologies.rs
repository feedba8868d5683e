//! The technology map: filtering the tree by a search, counting technologies, and
//! the labels of maturity levels.
use vstd::prelude::*;

use crate::i18n::Language;
use crate::media::{resolve_visual, visual_spec, visual_view, VisualSource};
use crate::pages::home::opt_view;
use crate::text::{
    ascii_lower_seq, chars_of, contains_chars, contains_seq, join_with, lower_ascii_char,
    push_char, str_eq, string_of_range, trim_range, trim_spec,
};

verus! {

/// A node of the technology tree: a category, or a technology when it has a maturity.
pub struct TechnologyNodeData {
    pub title: String,
    pub handle: String,
    pub href: Option<String>,
    pub description: String,
    pub tags: Vec<String>,
    pub techno: Vec<String>,
    pub image: String,
    pub maturity: Option<String>,
    pub children: Vec<TechnologyNodeData>,
}

pub open spec fn strs(v: Seq<String>) -> Seq<Seq<char>> {
    v.map_values(|s: String| s@)
}

/// The text a search looks into: title, description, tags and technologies,
/// separated by spaces and lowercased (ASCII).
pub open spec fn tech_haystack(n: TechnologyNodeData) -> Seq<char> {
    ascii_lower_seq(
        n.title@ + " "@ + n.description@ + " "@ + join_with(strs(n.tags@), " "@) + " "@
            + join_with(strs(n.techno@), " "@),
    )
}

/// A node matches an empty query, or a query that its text contains.
pub open spec fn tech_matches(n: TechnologyNodeData, query: Seq<char>) -> bool {
    query.len() == 0 || contains_seq(tech_haystack(n), query)
}

pub(crate) fn push_lower(out: &mut Vec<char>, s: &str)
    ensures
        final(out)@ == old(out)@ + ascii_lower_seq(s@),
{
    let v = chars_of(s);
    let mut i: usize = 0;
    while i < v.len()
        invariant
            i <= v.len(),
            v@ == s@,
            out@ == old(out)@ + ascii_lower_seq(v@.take(i as int)),
        decreases v.len() - i,
    {
        out.push(lower_ascii_char(v[i]));
        assert(ascii_lower_seq(v@.take(i + 1)) =~= ascii_lower_seq(v@.take(i as int)).push(
            crate::text::ascii_lower(v[i as int]),
        ));
        i = i + 1;
    }
    assert(v@.take(v.len() as int) =~= v@);
}

pub(crate) fn push_lower_joined(out: &mut Vec<char>, items: &Vec<String>)
    ensures
        final(out)@ == old(out)@ + ascii_lower_seq(join_with(strs(items@), " "@)),
{
    proof {
        reveal_strlit(" ");
    }
    let ghost pieces = strs(items@);
    let mut i: usize = 0;
    while i < items.len()
        invariant
            i <= items.len(),
            pieces == strs(items@),
            out@ == old(out)@ + ascii_lower_seq(join_with(pieces.take(i as int), " "@)),
        decreases items.len() - i,
    {
        let ghost before = join_with(pieces.take(i as int), " "@);
        if i > 0 {
            out.push(' ');
        }
        push_lower(out, items[i].as_str());
        assert(pieces.take(i + 1).drop_last() =~= pieces.take(i as int));
        if i == 0 {
            assert(pieces.take(1) =~= seq![items@[0]@]);
        }
        if i > 0 {
            proof {
                reveal_strlit(" ");
            }
            assert(" "@ =~= seq![' ']);
            assert(join_with(pieces.take(i + 1), " "@) == before + " "@ + pieces[i as int]);
            assert(ascii_lower_seq(before + " "@ + pieces[i as int]) =~= ascii_lower_seq(before)
                + seq![' '] + ascii_lower_seq(pieces[i as int]));
        } else {
            assert(join_with(pieces.take(1), " "@) == pieces[0]);
        }
        assert(out@ =~= old(out)@ + ascii_lower_seq(join_with(pieces.take(i + 1), " "@)));
        i = i + 1;
    }
    assert(pieces.take(i as int) =~= pieces);
}

/// The searched text of a record with a title, a description, tags and
/// technologies: the four joined by spaces, lowercased (ASCII).
pub open spec fn fields_text(
    title: Seq<char>,
    description: Seq<char>,
    tags: Seq<Seq<char>>,
    techno: Seq<Seq<char>>,
) -> Seq<char> {
    ascii_lower_seq(
        title + " "@ + description + " "@ + join_with(tags, " "@) + " "@ + join_with(techno, " "@),
    )
}

/// A query found in the title, the description, one tag or one technology
/// (each lowercased) is found in the searched text.
pub proof fn lemma_fields_text_contains(
    title: Seq<char>,
    description: Seq<char>,
    tags: Seq<Seq<char>>,
    techno: Seq<Seq<char>>,
    q: Seq<char>,
)
    ensures
        contains_seq(ascii_lower_seq(title), q) ==> contains_seq(
            fields_text(title, description, tags, techno),
            q,
        ),
        contains_seq(ascii_lower_seq(description), q) ==> contains_seq(
            fields_text(title, description, tags, techno),
            q,
        ),
        forall|k: int|
            0 <= k < tags.len() && contains_seq(ascii_lower_seq(#[trigger] tags[k]), q)
                ==> contains_seq(fields_text(title, description, tags, techno), q),
        forall|k: int|
            0 <= k < techno.len() && contains_seq(ascii_lower_seq(#[trigger] techno[k]), q)
                ==> contains_seq(fields_text(title, description, tags, techno), q),
{
    let sp = " "@;
    let j1 = join_with(tags, sp);
    let j2 = join_with(techno, sp);
    let h = fields_text(title, description, tags, techno);
    let lt = ascii_lower_seq(title);
    let ld = ascii_lower_seq(description);
    let ls = ascii_lower_seq(sp);
    let l1 = ascii_lower_seq(j1);
    let l2 = ascii_lower_seq(j2);
    assert(h =~= lt + ls + ld + ls + l1 + ls + l2);
    if contains_seq(lt, q) {
        crate::text::lemma_contains_in_middle(Seq::empty(), lt, ls + ld + ls + l1 + ls + l2, q);
        assert(h =~= Seq::<char>::empty() + lt + (ls + ld + ls + l1 + ls + l2));
    }
    if contains_seq(ld, q) {
        crate::text::lemma_contains_in_middle(lt + ls, ld, ls + l1 + ls + l2, q);
        assert(h =~= (lt + ls) + ld + (ls + l1 + ls + l2));
    }
    assert forall|k: int|
        0 <= k < tags.len() && contains_seq(ascii_lower_seq(#[trigger] tags[k]), q) implies contains_seq(
        h,
        q,
    ) by {
        let (a, b) = crate::text::lemma_join_piece(tags, sp, k);
        let x = ascii_lower_seq(tags[k]);
        assert(l1 =~= ascii_lower_seq(a) + x + ascii_lower_seq(b));
        let pre = lt + ls + ld + ls + ascii_lower_seq(a);
        let post = ascii_lower_seq(b) + ls + l2;
        crate::text::lemma_contains_in_middle(pre, x, post, q);
        assert(h =~= pre + x + post);
    }
    assert forall|k: int|
        0 <= k < techno.len() && contains_seq(ascii_lower_seq(#[trigger] techno[k]), q) implies contains_seq(
        h,
        q,
    ) by {
        let (a, b) = crate::text::lemma_join_piece(techno, sp, k);
        let x = ascii_lower_seq(techno[k]);
        assert(l2 =~= ascii_lower_seq(a) + x + ascii_lower_seq(b));
        let pre = lt + ls + ld + ls + l1 + ls + ascii_lower_seq(a);
        let post = ascii_lower_seq(b);
        crate::text::lemma_contains_in_middle(pre, x, post, q);
        assert(h =~= pre + x + post);
    }
}

/// A node matches a query found in its title, description, one of its tags or one
/// of its technologies (each lowercased), and then it stays in the filtered tree
/// with the nodes above it.
pub proof fn lemma_node_match_fields(n: TechnologyNodeData, q: Seq<char>)
    ensures
        contains_seq(ascii_lower_seq(n.title@), q) ==> tech_matches(n, q) && tech_kept(n, q),
        contains_seq(ascii_lower_seq(n.description@), q) ==> tech_matches(n, q) && tech_kept(n, q),
        forall|k: int|
            0 <= k < n.tags@.len() && contains_seq(ascii_lower_seq(#[trigger] n.tags@[k]@), q)
                ==> tech_matches(n, q) && tech_kept(n, q),
        forall|k: int|
            0 <= k < n.techno@.len() && contains_seq(ascii_lower_seq(#[trigger] n.techno@[k]@), q)
                ==> tech_matches(n, q) && tech_kept(n, q),
{
    lemma_fields_text_contains(n.title@, n.description@, strs(n.tags@), strs(n.techno@), q);
    assert(tech_haystack(n) == fields_text(n.title@, n.description@, strs(n.tags@), strs(n.techno@)));
    assert forall|k: int|
        0 <= k < n.tags@.len() && contains_seq(ascii_lower_seq(#[trigger] n.tags@[k]@), q) implies tech_matches(
        n,
        q,
    ) && tech_kept(n, q) by {
        assert(strs(n.tags@)[k] == n.tags@[k]@);
    }
    assert forall|k: int|
        0 <= k < n.techno@.len() && contains_seq(ascii_lower_seq(#[trigger] n.techno@[k]@), q) implies tech_matches(
        n,
        q,
    ) && tech_kept(n, q) by {
        assert(strs(n.techno@)[k] == n.techno@[k]@);
    }
}

/// A node matching at any depth keeps the list's filtered tree from being empty.
pub proof fn lemma_match_keeps_tree(
    outs: Seq<TechnologyNodeData>,
    ins: Seq<TechnologyNodeData>,
    q: Seq<char>,
    k: int,
)
    requires
        tech_filtered(outs, ins, q),
        0 <= k < ins.len(),
        tech_matches(ins[k], q),
    ensures
        outs.len() > 0,
{
    lemma_any_kept_member(ins, q, k);
    lemma_tech_filtered_nonempty(outs, ins, q);
}

proof fn lemma_any_kept_member(s: Seq<TechnologyNodeData>, q: Seq<char>, k: int)
    requires
        0 <= k < s.len(),
        tech_matches(s[k], q),
    ensures
        any_tech_kept(s, q),
    decreases s.len(),
{
    if k < s.len() - 1 {
        lemma_any_kept_member(s.drop_last(), q, k);
    }
}

/// Whether a node matches a search query that is already trimmed and lowercased.
pub fn node_matches_query(node: &TechnologyNodeData, query: &str) -> (r: bool)
    ensures
        r == tech_matches(*node, query@),
{
    proof {
        reveal_strlit(" ");
    }
    let q = chars_of(query);
    if q.len() == 0 {
        return true;
    }
    let mut hay: Vec<char> = Vec::new();
    push_lower(&mut hay, node.title.as_str());
    hay.push(' ');
    push_lower(&mut hay, node.description.as_str());
    hay.push(' ');
    push_lower_joined(&mut hay, &node.tags);
    hay.push(' ');
    push_lower_joined(&mut hay, &node.techno);
    assert(hay@ =~= tech_haystack(*node));
    contains_chars(&hay, &q)
}

// ───────────────────────────── filtering the tree ─────────────────────────────

/// Some node of the list, at any depth, matches the query.
pub open spec fn any_tech_kept(s: Seq<TechnologyNodeData>, query: Seq<char>) -> bool
    decreases s,
{
    if s.len() == 0 {
        false
    } else {
        let x = s.last();
        proof {
            assert(decreases_to!(s => x));
            assert(decreases_to!(x => x.children));
            assert(decreases_to!(x.children => x.children@));
        }
        any_tech_kept(s.drop_last(), query) || tech_matches(x, query) || any_tech_kept(
            x.children@,
            query,
        )
    }
}

/// A node stays when the query is empty, when it matches, or when a descendant does.
pub open spec fn tech_kept(n: TechnologyNodeData, query: Seq<char>) -> bool {
    query.len() == 0 || tech_matches(n, query) || any_tech_kept(n.children@, query)
}

/// Everything but the children is the same.
pub open spec fn same_node_fields(o: TechnologyNodeData, i: TechnologyNodeData) -> bool {
    &&& o.title@ == i.title@
    &&& o.handle@ == i.handle@
    &&& opt_view(o.href) == opt_view(i.href)
    &&& o.description@ == i.description@
    &&& strs(o.tags@) == strs(i.tags@)
    &&& strs(o.techno@) == strs(i.techno@)
    &&& o.image@ == i.image@
    &&& opt_view(o.maturity) == opt_view(i.maturity)
}

/// `outs` is the tree `ins` restricted to the nodes that stay, in order.
pub open spec fn tech_filtered(outs: Seq<TechnologyNodeData>, ins: Seq<TechnologyNodeData>, query: Seq<char>) -> bool
    decreases ins,
{
    if ins.len() == 0 {
        outs.len() == 0
    } else {
        let x = ins.last();
        proof {
            assert(decreases_to!(ins => x));
            assert(decreases_to!(x => x.children));
            assert(decreases_to!(x.children => x.children@));
        }
        if tech_kept(x, query) {
            &&& outs.len() > 0
            &&& tech_filtered(outs.drop_last(), ins.drop_last(), query)
            &&& same_node_fields(outs.last(), x)
            &&& tech_filtered(outs.last().children@, x.children@, query)
        } else {
            tech_filtered(outs, ins.drop_last(), query)
        }
    }
}

pub proof fn lemma_tech_filtered_nonempty(outs: Seq<TechnologyNodeData>, ins: Seq<TechnologyNodeData>, query: Seq<char>)
    requires
        tech_filtered(outs, ins, query),
    ensures
        outs.len() > 0 <==> any_tech_kept(ins, query),
    decreases ins,
{
    if ins.len() > 0 {
        let x = ins.last();
        assert(decreases_to!(ins => x));
        if !tech_kept(x, query) {
            lemma_tech_filtered_nonempty(outs, ins.drop_last(), query);
        }
    }
}

/// Two lists of trees are the same: the same nodes, field for field, at every
/// depth.
pub open spec fn same_trees(a: Seq<TechnologyNodeData>, b: Seq<TechnologyNodeData>) -> bool
    decreases a,
{
    if a.len() != b.len() {
        false
    } else if a.len() == 0 {
        true
    } else {
        let x = a.last();
        let y = b.last();
        proof {
            assert(decreases_to!(a => x));
            assert(decreases_to!(x => x.children));
            assert(decreases_to!(x.children => x.children@));
        }
        &&& same_trees(a.drop_last(), b.drop_last())
        &&& same_node_fields(x, y)
        &&& same_trees(x.children@, y.children@)
    }
}

/// Every node of the trees, at every depth, stays under the query.
pub open spec fn all_kept(s: Seq<TechnologyNodeData>, query: Seq<char>) -> bool
    decreases s,
{
    if s.len() == 0 {
        true
    } else {
        let x = s.last();
        proof {
            assert(decreases_to!(s => x));
            assert(decreases_to!(x => x.children));
            assert(decreases_to!(x.children => x.children@));
        }
        &&& all_kept(s.drop_last(), query)
        &&& tech_kept(x, query)
        &&& all_kept(x.children@, query)
    }
}

proof fn lemma_all_kept_nonempty(s: Seq<TechnologyNodeData>, query: Seq<char>)
    requires
        all_kept(s, query),
        s.len() > 0,
        query.len() > 0,
    ensures
        any_tech_kept(s, query),
{
}

/// What the filter keeps stays when filtered again.
proof fn lemma_filtered_all_kept(outs: Seq<TechnologyNodeData>, ins: Seq<TechnologyNodeData>, query: Seq<char>)
    requires
        tech_filtered(outs, ins, query),
    ensures
        all_kept(outs, query),
    decreases ins,
{
    if ins.len() == 0 {
        assert(outs.len() == 0);
    } else {
        let x = ins.last();
        assert(decreases_to!(ins => x));
        assert(decreases_to!(x => x.children));
        assert(decreases_to!(x.children => x.children@));
        if tech_kept(x, query) {
            let o = outs.last();
            lemma_filtered_all_kept(outs.drop_last(), ins.drop_last(), query);
            lemma_filtered_all_kept(o.children@, x.children@, query);
            assert(tech_haystack(o) == tech_haystack(x));
            if query.len() > 0 && !tech_matches(x, query) {
                lemma_tech_filtered_nonempty(o.children@, x.children@, query);
                lemma_all_kept_nonempty(o.children@, query);
            }
            assert(tech_kept(o, query));
            assert(outs.drop_last().push(o) =~= outs);
        } else {
            lemma_filtered_all_kept(outs, ins.drop_last(), query);
        }
    }
}

proof fn lemma_filter_kept_is_same(outs: Seq<TechnologyNodeData>, ins: Seq<TechnologyNodeData>, query: Seq<char>)
    requires
        all_kept(ins, query),
        tech_filtered(outs, ins, query),
    ensures
        same_trees(outs, ins),
    decreases ins,
{
    if ins.len() > 0 {
        let x = ins.last();
        assert(decreases_to!(ins => x));
        assert(decreases_to!(x => x.children));
        assert(decreases_to!(x.children => x.children@));
        lemma_filter_kept_is_same(outs.drop_last(), ins.drop_last(), query);
        lemma_filter_kept_is_same(outs.last().children@, x.children@, query);
    } else {
        assert(outs.len() == 0);
    }
}

/// Filtering the filtered tree again with the same query gives it back unchanged.
pub proof fn lemma_filter_idempotent(
    ins: Seq<TechnologyNodeData>,
    once: Seq<TechnologyNodeData>,
    twice: Seq<TechnologyNodeData>,
    query: Seq<char>,
)
    requires
        tech_filtered(once, ins, query),
        tech_filtered(twice, once, query),
    ensures
        same_trees(twice, once),
{
    lemma_filtered_all_kept(once, ins, query);
    lemma_filter_kept_is_same(twice, once, query);
}

fn clone_strings(v: &Vec<String>) -> (r: Vec<String>)
    ensures
        strs(r@) == strs(v@),
{
    let mut r: Vec<String> = Vec::new();
    let mut i: usize = 0;
    while i < v.len()
        invariant
            i <= v.len(),
            strs(r@) == strs(v@.take(i as int)),
        decreases v.len() - i,
    {
        let ghost before = r@;
        let c = v[i].clone();
        r.push(c);
        assert(r@ =~= before.push(c));
        assert(strs(r@) =~= strs(before).push(c@));
        assert(strs(v@.take(i + 1)) =~= strs(v@.take(i as int)).push(v@[i as int]@));
        i = i + 1;
    }
    assert(v@.take(v.len() as int) =~= v@);
    r
}

fn clone_opt(o: &Option<String>) -> (r: Option<String>)
    ensures
        opt_view(r) == opt_view(*o),
{
    match o {
        Some(s) => Some(s.clone()),
        None => None,
    }
}

/// The tree restricted to the nodes that match a query (already trimmed and
/// lowercased) or lead to one; everything when the query is empty.
pub fn filter_technology_tree(nodes: &[TechnologyNodeData], query: &str) -> (r: Vec<TechnologyNodeData>)
    ensures
        tech_filtered(r@, nodes@, query@),
    decreases nodes@,
{
    let mut r: Vec<TechnologyNodeData> = Vec::new();
    let mut i: usize = 0;
    let empty_query = chars_of(query).len() == 0;
    while i < nodes.len()
        invariant
            i <= nodes.len(),
            empty_query == (query@.len() == 0),
            tech_filtered(r@, nodes@.take(i as int), query@),
        decreases nodes.len() - i,
    {
        let node = &nodes[i];
        proof {
            assert(decreases_to!(nodes@ => nodes@[i as int]));
        }
        let children = filter_technology_tree(node.children.as_slice(), query);
        proof {
            lemma_tech_filtered_nonempty(children@, node.children@, query@);
        }
        assert(nodes@.take(i + 1).drop_last() =~= nodes@.take(i as int));
        assert(nodes@.take(i + 1).last() == nodes@[i as int]);
        if empty_query || node_matches_query(node, query) || children.len() > 0 {
            let next = TechnologyNodeData {
                title: node.title.clone(),
                handle: node.handle.clone(),
                href: clone_opt(&node.href),
                description: node.description.clone(),
                tags: clone_strings(&node.tags),
                techno: clone_strings(&node.techno),
                image: node.image.clone(),
                maturity: clone_opt(&node.maturity),
                children,
            };
            let ghost before = r@;
            r.push(next);
            assert(r@.drop_last() =~= before);
        }
        i = i + 1;
    }
    assert(nodes@.take(nodes.len() as int) =~= nodes@);
    r
}

// ───────────────────────────── counting ─────────────────────────────

/// The number of technologies (nodes with a maturity) in a list of trees.
pub open spec fn tech_count(s: Seq<TechnologyNodeData>) -> nat
    decreases s,
{
    if s.len() == 0 {
        0
    } else {
        let x = s.last();
        proof {
            assert(decreases_to!(s => x));
            assert(decreases_to!(x => x.children));
            assert(decreases_to!(x.children => x.children@));
        }
        tech_count(s.drop_last()) + (if x.maturity is Some {
            1nat
        } else {
            0nat
        }) + tech_count(x.children@)
    }
}

proof fn lemma_tech_count_prefix(s: Seq<TechnologyNodeData>, i: int)
    requires
        0 <= i <= s.len(),
    ensures
        tech_count(s.take(i)) <= tech_count(s),
    decreases s.len() - i,
{
    if i < s.len() {
        lemma_tech_count_prefix(s, i + 1);
        assert(s.take(i + 1).drop_last() =~= s.take(i));
    } else {
        assert(s.take(i) =~= s);
    }
}

/// Counts the technologies of a list of trees.
pub fn count_visible_technologies(nodes: &[TechnologyNodeData]) -> (count: usize)
    requires
        tech_count(nodes@) <= usize::MAX,
    ensures
        count == tech_count(nodes@),
    decreases nodes@,
{
    let mut total: usize = 0;
    let mut i: usize = 0;
    while i < nodes.len()
        invariant
            i <= nodes.len(),
            tech_count(nodes@) <= usize::MAX,
            total == tech_count(nodes@.take(i as int)),
        decreases nodes.len() - i,
    {
        let node = &nodes[i];
        assert(nodes@.take(i + 1).drop_last() =~= nodes@.take(i as int));
        assert(nodes@.take(i + 1).last() == nodes@[i as int]);
        proof {
            lemma_tech_count_prefix(nodes@, i + 1);
            assert(decreases_to!(nodes@ => nodes@[i as int]));
        }
        let own: usize = if node.maturity.is_some() {
            1
        } else {
            0
        };
        let sub = count_visible_technologies(node.children.as_slice());
        total = total + own + sub;
        i = i + 1;
    }
    assert(nodes@.take(nodes.len() as int) =~= nodes@);
    total
}

/// The number of technologies in a branch, the node itself included.
pub fn branch_technology_count(node: &TechnologyNodeData) -> (count: usize)
    requires
        tech_count(seq![*node]) <= usize::MAX,
    ensures
        count == tech_count(seq![*node]),
{
    assert(seq![*node].drop_last() =~= Seq::<TechnologyNodeData>::empty());
    assert(seq![*node].last() == *node);
    assert(tech_count(Seq::<TechnologyNodeData>::empty()) == 0);
    let own: usize = if node.maturity.is_some() {
        1
    } else {
        0
    };
    own + count_visible_technologies(node.children.as_slice())
}

/// Whether a branch has children and they are all technologies (shown as a grid).
pub fn branch_has_only_technology_children(node: &TechnologyNodeData) -> (r: bool)
    ensures
        r == (node.children@.len() > 0 && forall|i: int|
            0 <= i < node.children@.len() ==> (#[trigger] node.children@[i]).maturity is Some),
{
    if node.children.len() == 0 {
        return false;
    }
    let mut i: usize = 0;
    while i < node.children.len()
        invariant
            i <= node.children.len(),
            forall|j: int| 0 <= j < i ==> (#[trigger] node.children@[j]).maturity is Some,
        decreases node.children.len() - i,
    {
        if node.children[i].maturity.is_none() {
            return false;
        }
        i = i + 1;
    }
    true
}

// ───────────────────────────── labels ─────────────────────────────

/// The badge style of a maturity level.
pub fn maturity_badge_class(value: &str) -> (class: &'static str)
    ensures
        class@ == (if value@ == "expert"@ {
            "inline-flex items-center rounded border border-primary/60 bg-primary/10 px-2 py-0.5 text-[0.7rem] font-mono uppercase tracking-widest text-primary"@
        } else if value@ == "advanced"@ {
            "inline-flex items-center rounded border border-emerald-400/60 bg-emerald-400/10 px-2 py-0.5 text-[0.7rem] font-mono uppercase tracking-widest text-emerald-300"@
        } else if value@ == "intermediate"@ {
            "inline-flex items-center rounded border border-amber-400/60 bg-amber-400/10 px-2 py-0.5 text-[0.7rem] font-mono uppercase tracking-widest text-amber-300"@
        } else {
            "inline-flex items-center rounded border border-border bg-muted/30 px-2 py-0.5 text-[0.7rem] font-mono uppercase tracking-widest text-muted-foreground"@
        }),
{
    if str_eq(value, "expert") {
        "inline-flex items-center rounded border border-primary/60 bg-primary/10 px-2 py-0.5 text-[0.7rem] font-mono uppercase tracking-widest text-primary"
    } else if str_eq(value, "advanced") {
        "inline-flex items-center rounded border border-emerald-400/60 bg-emerald-400/10 px-2 py-0.5 text-[0.7rem] font-mono uppercase tracking-widest text-emerald-300"
    } else if str_eq(value, "intermediate") {
        "inline-flex items-center rounded border border-amber-400/60 bg-amber-400/10 px-2 py-0.5 text-[0.7rem] font-mono uppercase tracking-widest text-amber-300"
    } else {
        "inline-flex items-center rounded border border-border bg-muted/30 px-2 py-0.5 text-[0.7rem] font-mono uppercase tracking-widest text-muted-foreground"
    }
}

/// The name of a maturity level in the given language.
pub open spec fn maturity_label_spec(value: Seq<char>, lang: Language) -> Seq<char> {
    if value == "expert"@ {
        "Expert"@
    } else if value == "advanced"@ {
        match lang {
            Language::Fr => "Avance"@,
            Language::En => "Advanced"@,
        }
    } else if value == "intermediate"@ {
        match lang {
            Language::Fr => "Intermediaire"@,
            Language::En => "Intermediate"@,
        }
    } else if value == "beginner"@ {
        match lang {
            Language::Fr => "Debutant"@,
            Language::En => "Beginner"@,
        }
    } else {
        match lang {
            Language::Fr => "A definir"@,
            Language::En => "Unset"@,
        }
    }
}

/// The label of a maturity level.
pub fn maturity_label(value: &str, lang: Language) -> (label: &'static str)
    ensures
        label@ == maturity_label_spec(value@, lang),
{
    if str_eq(value, "expert") {
        "Expert"
    } else if str_eq(value, "advanced") {
        match lang {
            Language::Fr => "Avance",
            Language::En => "Advanced",
        }
    } else if str_eq(value, "intermediate") {
        match lang {
            Language::Fr => "Intermediaire",
            Language::En => "Intermediate",
        }
    } else if str_eq(value, "beginner") {
        match lang {
            Language::Fr => "Debutant",
            Language::En => "Beginner",
        }
    } else {
        match lang {
            Language::Fr => "A definir",
            Language::En => "Unset",
        }
    }
}

/// Resolves the picture of a technology.
pub fn resolve_technology_visual(raw: &str) -> (r: Option<VisualSource>)
    ensures
        match r {
            Some(v) => visual_spec(raw@) == Some(visual_view(v)),
            None => visual_spec(raw@) is None,
        },
{
    resolve_visual(raw)
}

// ───────────────────────────── search in the address ─────────────────────────────

/// The value of the first `q` pair, or nothing.
pub open spec fn search_from_pairs(pairs: Seq<(Seq<char>, Seq<char>)>) -> Seq<char>
    decreases pairs.len(),
{
    if pairs.len() == 0 {
        Seq::<char>::empty()
    } else if pairs[0].0 == "q"@ {
        pairs[0].1
    } else {
        search_from_pairs(pairs.drop_first())
    }
}

/// The search of the technology map, from the decoded pairs of the page's query.
pub fn search_query_from_pairs(pairs: &[(String, String)]) -> (search: String)
    ensures
        search@ == search_from_pairs(crate::query::string_pairs(pairs@)),
{
    let ghost ps = crate::query::string_pairs(pairs@);
    let mut i: usize = 0;
    assert(ps.skip(0) =~= ps);
    while i < pairs.len()
        invariant
            i <= pairs.len(),
            ps == crate::query::string_pairs(pairs@),
            search_from_pairs(ps) == search_from_pairs(ps.skip(i as int)),
        decreases pairs.len() - i,
    {
        assert(ps.skip(i as int)[0] == ps[i as int]);
        if str_eq(pairs[i].0.as_str(), "q") {
            return pairs[i].1.clone();
        }
        assert(ps.skip(i as int).drop_first() =~= ps.skip(i + 1));
        i = i + 1;
    }
    String::new()
}

/// The pairs that the technology map writes in its address: `q` with the trimmed
/// search, or none for a blank search.
pub fn technologies_query_pairs(search: &str) -> (pairs: Vec<(String, String)>)
    ensures
        crate::query::string_pairs(pairs@) == (if trim_spec(search@).len() == 0 {
            Seq::<(Seq<char>, Seq<char>)>::empty()
        } else {
            seq![("q"@, trim_spec(search@))]
        }),
{
    let v = chars_of(search);
    let (a, b) = trim_range(&v, 0, v.len());
    assert(v@.subrange(0, v@.len() as int) =~= search@);
    let mut pairs: Vec<(String, String)> = Vec::new();
    if a < b {
        pairs.push((String::from_str("q"), string_of_range(&v, a, b)));
    }
    assert(crate::query::string_pairs(pairs@) =~= (if trim_spec(search@).len() == 0 {
        Seq::<(Seq<char>, Seq<char>)>::empty()
    } else {
        seq![("q"@, trim_spec(search@))]
    }));
    pairs
}

} // verus!
