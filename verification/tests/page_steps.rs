use frontend::markdown::render::split_footnotes;
use frontend::markdown::{slugify, MarkdownNode};
use frontend::pages::content::content_og_image;
use frontend::pages::profile::{hero_ticker, ticker_placeholder, Ticker};
use frontend::pages::projects::{
    next_disabled, next_page, page_indicator, previous_disabled, previous_page,
    projects_query_from_pairs, set_search, set_tag, set_techno,
};
use frontend::pages::technologies::{filter_technology_tree, TechnologyNodeData};

fn node(kind: &str, text: &str) -> MarkdownNode {
    MarkdownNode { kind: kind.to_string(), text: text.to_string(), attrs: vec![], children: vec![] }
}

fn tech(title: &str, maturity: Option<&str>, children: Vec<TechnologyNodeData>) -> TechnologyNodeData {
    TechnologyNodeData {
        title: title.to_string(),
        handle: title.to_lowercase(),
        href: None,
        description: String::new(),
        tags: vec![],
        techno: vec![],
        image: String::new(),
        maturity: maturity.map(|m| m.to_string()),
        children,
    }
}

fn shape(nodes: &[TechnologyNodeData]) -> String {
    nodes
        .iter()
        .map(|n| format!("{}({})", n.title, shape(&n.children)))
        .collect::<Vec<_>>()
        .join(",")
}

#[test]
fn slugs_have_single_inner_dashes() {
    assert_eq!(slugify(" -- "), "");
    assert_eq!(slugify("--A  b--c--"), "a-b-c");
    let s = slugify("Hello, World! -- again");
    assert!(!s.starts_with('-') && !s.ends_with('-') && !s.contains("--"));
}

#[test]
fn technology_filter_is_idempotent() {
    let tree = vec![
        tech("Languages", None, vec![tech("Rust", Some("expert"), vec![]), tech("Go", Some("beginner"), vec![])]),
        tech("Cloud", None, vec![tech("Kubernetes", Some("advanced"), vec![])]),
    ];
    let once = filter_technology_tree(&tree, "rust");
    let twice = filter_technology_tree(&once, "rust");
    assert_eq!(shape(&once), "Languages(Rust())");
    assert_eq!(shape(&twice), shape(&once));
}

#[test]
fn footnote_definitions_go_to_the_notes() {
    let (body, notes) = split_footnotes(vec![
        node("paragraph", "a"),
        node("footnote_definition", "n1"),
        node("heading", "b"),
        node("footnote_definition", "n2"),
    ]);
    let b: Vec<String> = body.iter().map(|n| n.text.clone()).collect();
    let n: Vec<String> = notes.iter().map(|n| n.text.clone()).collect();
    assert_eq!(b, vec!["a", "b"]);
    assert_eq!(n, vec!["n1", "n2"]);
    let (_, none) = split_footnotes(vec![node("paragraph", "a")]);
    assert!(none.is_empty());
}

#[test]
fn og_image_prefers_the_thumbnail() {
    assert_eq!(content_og_image(&Some("https://x/minia.webp".to_string()), "https://x/a.png"), "https://x/minia.webp");
    assert_eq!(content_og_image(&None, "https://x/a.png"), "https://x/a.png");
}

#[test]
fn pagination_steps_and_resets() {
    assert_eq!(previous_page(3), 2);
    assert_eq!(previous_page(1), 1);
    assert_eq!(next_page(2, 3), 3);
    assert_eq!(next_page(3, 3), 3);
    assert!(previous_disabled(1));
    assert!(!previous_disabled(2));
    assert!(next_disabled(3, 3));
    assert!(!next_disabled(2, 3));
    assert_eq!(page_indicator(2, 5), "2/5");
    assert_eq!(page_indicator(0, 0), "1/1");
    let mut q = projects_query_from_pairs(&[("page".to_string(), "4".to_string())]);
    assert_eq!(q.page, 4);
    set_search(&mut q, "rust".to_string());
    assert_eq!((q.search.as_str(), q.page), ("rust", 1));
    q.page = 3;
    set_tag(&mut q, "cli".to_string());
    assert_eq!((q.tag.as_str(), q.search.as_str(), q.page), ("cli", "rust", 1));
    q.page = 2;
    set_techno(&mut q, "Go".to_string());
    assert_eq!((q.techno.as_str(), q.tag.as_str(), q.page), ("Go", "cli", 1));
}

#[test]
fn hero_ticker_styles() {
    assert!(matches!(hero_ticker(&vec![]), Ticker::Placeholder));
    assert_eq!(ticker_placeholder(), "…");
    match hero_ticker(&vec!["Dev".to_string(), "Ops".to_string()]) {
        Ticker::Titles(items) => {
            assert_eq!(items.len(), 2);
            assert_eq!(items[0], ("Dev".to_string(), "animation-delay:0s;animation-duration:6s".to_string()));
            assert_eq!(items[1], ("Ops".to_string(), "animation-delay:3s;animation-duration:6s".to_string()));
        }
        Ticker::Placeholder => panic!("expected titles"),
    }
}
