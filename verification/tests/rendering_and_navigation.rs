use frontend::content_db::{ContentDatabase, ContentDates, ContentEntry, ContentKind, SidebarItem};
use frontend::markdown::code_block::{code_block_language, code_block_text, code_block_title, code_class};
use frontend::markdown::render::{
    footnote_definition, footnote_label, footnote_reference, heading_tag_level, image_source,
    is_footnote_definition, is_mermaid_source, is_ordered_list, link_target, node_renderer,
    FootnoteTail, NodeRenderer,
};
use frontend::markdown::toc::{toc_indent_class, toc_min_level, TocEntry};
use frontend::markdown::{MarkdownContent, MarkdownNode};
use frontend::pages::content::{
    back_link, content_kind_label, dated_line, docs_nav_from_database, og_type, reading_time_line, find_visible_entry, footer_note,
    is_docs_handle, map_sidebar_items, page_description, page_og_image_url, page_title,
};
use frontend::pages::docs::open_folders_for_path;
use frontend::pages::technologies::{
    branch_has_only_technology_children, branch_technology_count, count_visible_technologies,
    filter_technology_tree, maturity_badge_class, node_matches_query, TechnologyNodeData,
};
use frontend::query::{plus_to_space, query_string, split_query};

fn node(kind: &str, text: &str, attrs: &[(&str, &str)], children: Vec<MarkdownNode>) -> MarkdownNode {
    MarkdownNode {
        kind: kind.to_string(),
        text: text.to_string(),
        attrs: attrs.iter().map(|(k, v)| (k.to_string(), v.to_string())).collect(),
        children,
    }
}

fn tech(title: &str, maturity: Option<&str>, children: Vec<TechnologyNodeData>) -> TechnologyNodeData {
    TechnologyNodeData {
        title: title.to_string(),
        handle: title.to_lowercase(),
        href: None,
        description: String::new(),
        tags: vec![],
        techno: vec![],
        image: String::new(),
        maturity: maturity.map(|m| m.to_string()),
        children,
    }
}

fn entry(handle: &str, doc: bool, draft: bool, released_at: &str) -> ContentEntry {
    ContentEntry {
        title: handle.to_string(),
        description: String::new(),
        handle: handle.to_string(),
        source_path: format!("{}.md", handle),
        kind: ContentKind { blog: false, project: false, doc },
        dates: ContentDates { created_at: String::new(), updated_at_unix: 0, released_at: released_at.to_string() },
        draft,
        tags: vec![],
        techno: vec![],
        image: String::new(),
        reading_time_minutes: 1,
        toc: vec![],
        content: MarkdownContent { format: "markdown_ast".to_string(), nodes: vec![] },
    }
}

fn side(title: &str, handle: &str, order: u32, children: Vec<SidebarItem>) -> SidebarItem {
    SidebarItem { title: title.to_string(), handle: handle.to_string(), order, children }
}

#[test]
fn markdown_nodes_dispatch_to_their_renderer() {
    assert_eq!(node_renderer("heading"), NodeRenderer::Heading);
    assert_eq!(node_renderer("code"), NodeRenderer::InlineCode);
    assert_eq!(node_renderer("footnote_definition"), NodeRenderer::Hidden);
    assert_eq!(node_renderer("something_else"), NodeRenderer::Container);
    assert!(is_footnote_definition(&node("footnote_definition", "", &[], vec![])));
    assert_eq!(heading_tag_level(&node("heading", "", &[("level", "3")], vec![])), 3);
    assert_eq!(heading_tag_level(&node("heading", "", &[("level", "9")], vec![])), 6);
    assert_eq!(heading_tag_level(&node("heading", "", &[], vec![])), 1);
    assert_eq!(image_source(&node("image", "", &[("src", "a.png")], vec![])), "a.png");
    assert_eq!(image_source(&node("image", "", &[("src", "a.png"), ("url", "b.png")], vec![])), "b.png");
    assert_eq!(link_target(&node("link", "", &[("href", "/x")], vec![])), "/x");
    assert_eq!(link_target(&node("link", "", &[], vec![])), "");
    assert!(is_mermaid_source("/public/mermaid/graph.svg"));
    assert!(!is_mermaid_source("/public/media/graph.svg"));
    assert!(is_ordered_list(&node("list", "", &[("ordered", "true")], vec![])));
    assert!(!is_ordered_list(&node("list", "", &[("ordered", "yes")], vec![])));
}

#[test]
fn footnotes_link_both_ways() {
    assert_eq!(footnote_label("01"), "1");
    assert_eq!(footnote_label("note"), "note");
    let r = footnote_reference(&node("footnote_reference", "", &[("name", "2")], vec![]));
    assert_eq!(r.href, "#fn-2");
    assert_eq!(r.back_id, "fnref-2");
    assert_eq!(r.label, "2");
    assert_eq!(r.aria_label, "Footnote 2");
    let d = footnote_definition(&node("footnote_definition", "", &[("name", "2")], vec![node("paragraph", "", &[], vec![])]));
    assert_eq!(d.id, "fn-2");
    assert_eq!(d.back_href, "#fnref-2");
    assert_eq!(d.tail, FootnoteTail::Paragraph);
    assert_eq!(format!("#{}", d.id), r.href);
    assert_eq!(format!("#{}", r.back_id), d.back_href);
    let empty = footnote_definition(&node("footnote_definition", "", &[("name", "x")], vec![]));
    assert_eq!(empty.tail, FootnoteTail::Empty);
}

#[test]
fn code_blocks_text_title_and_language() {
    let block = node(
        "code_block",
        "",
        &[("language", "Rust title=\"main.rs\"")],
        vec![
            node("text", "fn main() {", &[], vec![]),
            node("soft_break", "", &[], vec![]),
            node("emphasis", "", &[], vec![node("text", "}", &[], vec![])]),
        ],
    );
    assert_eq!(code_block_text(&block), "fn main() {\n}");
    assert_eq!(code_block_title(&block), Some("main.rs".to_string()));
    assert_eq!(code_block_language(&block), "rust");
    assert_eq!(code_class("rust"), "language-rust");
}

#[test]
fn table_of_contents_indentation() {
    let entries = vec![
        TocEntry { level: 3, text: "a".to_string(), id: "a".to_string() },
        TocEntry { level: 2, text: "b".to_string(), id: "b".to_string() },
    ];
    assert_eq!(toc_min_level(&entries), 2);
    assert_eq!(toc_min_level(&[]), 1);
    assert_eq!(toc_indent_class(2, 2), "");
    assert_ne!(toc_indent_class(3, 2), toc_indent_class(2, 2));
}

#[test]
fn content_page_metadata() {
    assert_eq!(page_title("Intro"), "Intro | Maxime Leriche");
    assert_eq!(page_description("  "), "Page de contenu de Maxime Leriche");
    assert_eq!(page_description("About Rust"), "About Rust");
    assert_eq!(page_og_image_url(""), "https://maxleriche.net/assets/apple-touch-icon.png");
    assert_eq!(page_og_image_url("http://x.org/a.png"), "https://x.org/a.png");
    assert_eq!(page_og_image_url("https://x.org/a.png"), "https://x.org/a.png");
    assert_eq!(page_og_image_url("media#a.png"), "https://maxleriche.net/media/a.png");
    assert_eq!(page_og_image_url("/a.png"), "https://maxleriche.net/media/a.png");
    assert_eq!(footer_note(2025), "Since 2000 - 2025 with love and coffee");
    assert_eq!(footer_note(-5), "Since 2000 - -5 with love and coffee");
    assert_eq!(content_kind_label(true, true, false), "blog");
    assert_eq!(content_kind_label(false, false, true), "doc");
    assert_eq!(content_kind_label(false, false, false), "content");
    assert_eq!(back_link(true), ("/blog", "Back to blog"));
    assert_eq!(back_link(false), ("/projects", "Back to projects"));
    assert_eq!(og_type(true), "article");
    assert_eq!(og_type(false), "website");
    assert_eq!(dated_line("Published", "2024-02-03", frontend::i18n::Language::En), Some("Published: February 3, 2024".to_string()));
    assert_eq!(dated_line("Updated", "  ", frontend::i18n::Language::Fr), None);
    assert_eq!(reading_time_line(4), "Reading time: 4 min");
    assert!(is_docs_handle("docs"));
    assert!(is_docs_handle("docs/a"));
    assert!(!is_docs_handle("docsx"));
}

#[test]
fn visible_entries_and_docs_navigation() {
    let db = ContentDatabase {
        generated_at_unix: 0,
        entries: vec![
            entry("docs/draft", true, true, "2024"),
            entry("docs/guide", true, false, "2024"),
            entry("docs/guide", true, false, "2025"),
            entry("docs/none", true, false, ""),
        ],
        sidebar: vec![
            side("Guide", "docs/guide", 1, vec![side("Child", "docs/guide/child", 0, vec![])]),
            side("Folder", "docs/folder", 2, vec![side("Inner", "docs/folder/inner", 0, vec![])]),
            side("Draft", "docs/draft", 3, vec![]),
        ],
        blog_timeline: vec![],
    };
    assert_eq!(find_visible_entry(&db, "docs/guide"), Some(1));
    assert_eq!(find_visible_entry(&db, "docs/draft"), None);
    assert_eq!(find_visible_entry(&db, "docs/none"), None);
    let known = vec!["docs/guide".to_string()];
    let mapped = map_sidebar_items(&db.sidebar, &known);
    let kinds: Vec<String> = mapped.iter().map(|m| m.kind.clone()).collect();
    assert_eq!(kinds, vec!["folder_with_index", "folder", "markdown"]);
    let nav = docs_nav_from_database(&db);
    assert!(!nav.is_empty());
    assert!(open_folders_for_path(&mapped, "/docs/unknown").is_empty());
}

#[test]
fn technology_tree_filter_and_counts() {
    let tree = vec![
        tech("Languages", None, vec![tech("Rust", Some("expert"), vec![]), tech("Go", Some("beginner"), vec![])]),
        tech("Cloud", None, vec![tech("Kubernetes", Some("advanced"), vec![])]),
    ];
    assert!(node_matches_query(&tree[0], ""));
    assert!(node_matches_query(&tree[0].children[0], "rust"));
    let all = filter_technology_tree(&tree, "");
    assert_eq!(count_visible_technologies(&all), 3);
    let rust = filter_technology_tree(&tree, "rust");
    assert_eq!(rust.len(), 1);
    assert_eq!(rust[0].title, "Languages");
    assert_eq!(rust[0].children.len(), 1);
    assert_eq!(rust[0].children[0].title, "Rust");
    assert!(filter_technology_tree(&tree, "cobol").is_empty());
    assert_eq!(branch_technology_count(&tree[0]), 2);
    assert!(branch_has_only_technology_children(&tree[0]));
    assert!(maturity_badge_class("expert").contains("text-primary"));
    assert!(maturity_badge_class("unknown").contains("text-muted-foreground"));
}

#[test]
fn query_round_trip_and_plus_signs() {
    let written = query_string(&[("q".to_string(), "rust".to_string())]);
    assert_eq!(written, "?q=rust");
    assert_eq!(split_query(&written), vec![("q".to_string(), "rust".to_string())]);
    assert_eq!(plus_to_space("a+b+c"), "a b c");
}
