use frontend::calendar::{unix_days, year_from_unix_days};
use frontend::components::navbar::{filter_search_results, static_search_entries, SearchEntryData};
use frontend::content_db::{ContentDatabase, ContentDates, ContentEntry, ContentKind};
use frontend::date_utils::format_display_date;
use frontend::i18n::{language_from_storage, toggle_language, translations, Language};
use frontend::markdown::code_block::{clean_language, extract_code_title};
use frontend::markdown::toc::extract_headings;
use frontend::markdown::{extract_text, heading_anchor_id, slugify, MarkdownContent, MarkdownNode};
use frontend::media::{resolve_visual, VisualSource};
use frontend::pages::content::{
    content_handle_from_path, edit_in_git_url, find_doc_href_for_techno, handle_href,
    slugify_like_handle, DocSidebarItemData,
};
use frontend::pages::docs::{
    collect_folder_with_index_sections, collect_index_entries, is_open, node_style,
    open_folders_for_path, sort_by_order, toggle_folder, tree_indent, DocNodeStyle,
};
use frontend::pages::home::home_projects;
use frontend::pages::technologies::{maturity_label, search_query_from_pairs, technologies_query_pairs};
use frontend::query::{query_string, split_query};
use frontend::seo::{og_minia_url, static_page_seo};
use frontend::sitemap::{build_sitemap_xml, escape_xml};

fn node(kind: &str, text: &str, attrs: &[(&str, &str)], children: Vec<MarkdownNode>) -> MarkdownNode {
    MarkdownNode {
        kind: kind.to_string(),
        text: text.to_string(),
        attrs: attrs.iter().map(|(k, v)| (k.to_string(), v.to_string())).collect(),
        children,
    }
}

fn doc(title: &str, handle: &str, order: u64, kind: &str, children: Vec<DocSidebarItemData>) -> DocSidebarItemData {
    DocSidebarItemData {
        title: title.to_string(),
        handle: handle.to_string(),
        order,
        kind: kind.to_string(),
        children,
    }
}

fn entry(handle: &str, project: bool, draft: bool, released_at: &str) -> ContentEntry {
    ContentEntry {
        title: handle.to_string(),
        description: String::new(),
        handle: handle.to_string(),
        source_path: format!("{}.md", handle),
        kind: ContentKind { blog: !project, project, doc: false },
        dates: ContentDates {
            created_at: String::new(),
            updated_at_unix: 0,
            released_at: released_at.to_string(),
        },
        draft,
        tags: vec![],
        techno: vec![],
        image: String::new(),
        reading_time_minutes: 1,
        toc: vec![],
        content: MarkdownContent { format: "markdown_ast".to_string(), nodes: vec![] },
    }
}

fn database(entries: Vec<ContentEntry>) -> ContentDatabase {
    ContentDatabase { generated_at_unix: 0, entries, sidebar: vec![], blog_timeline: vec![] }
}

#[test]
fn display_dates_in_both_languages() {
    assert_eq!(format_display_date("2024-03-05T10:00:00Z", Language::Fr), "5 mars 2024");
    assert_eq!(format_display_date("2024-03-05", Language::En), "March 5, 2024");
    assert_eq!(format_display_date(" 2024-12-31 ", Language::Fr), "31 decembre 2024");
    assert_eq!(format_display_date("2024-13-01", Language::En), "2024-13-01");
    assert_eq!(format_display_date("hello", Language::En), "hello");
    assert_eq!(format_display_date("   ", Language::Fr), "");
}

#[test]
fn languages_toggle_and_persist() {
    assert_eq!(toggle_language(Language::Fr), Language::En);
    assert_eq!(toggle_language(toggle_language(Language::En)), Language::En);
    assert_eq!(Language::Fr.as_str(), "fr");
    assert_eq!(Language::En.label(), "EN");
    assert_eq!(Language::Fr.toggle_label(), "EN");
    assert_eq!(language_from_storage(Some("en")), Language::En);
    assert_eq!(language_from_storage(Some("de")), Language::Fr);
    assert_eq!(language_from_storage(None), Language::Fr);
    assert_eq!(language_from_storage(Some(Language::En.as_str())), Language::En);
    assert_eq!(translations(Language::Fr).nav_about, "À propos");
    assert_eq!(translations(Language::En).timeline_title, "My Journey");
}

#[test]
fn calendar_years_from_days() {
    assert_eq!(unix_days(None), 0);
    assert_eq!(unix_days(Some(86_399)), 0);
    assert_eq!(unix_days(Some(86_400 * 3)), 3);
    assert_eq!(year_from_unix_days(0), 1970);
    assert_eq!(year_from_unix_days(364), 1970);
    assert_eq!(year_from_unix_days(365), 1971);
    assert_eq!(year_from_unix_days(-1), 1969);
    assert_eq!(year_from_unix_days(10_957), 2000);
    assert_eq!(year_from_unix_days(11_322), 2000);
    assert_eq!(year_from_unix_days(11_323), 2001);
    assert_eq!(year_from_unix_days(19_723), 2024);
    assert_eq!(year_from_unix_days(unix_days(Some(1_704_067_199))), 2023);
    assert_eq!(year_from_unix_days(unix_days(Some(1_704_067_200))), 2024);
}

#[test]
fn query_strings_split_and_join() {
    let pairs = split_query("?q=rust&&page=2&flag");
    assert_eq!(
        pairs,
        vec![
            ("q".to_string(), "rust".to_string()),
            ("page".to_string(), "2".to_string()),
            ("flag".to_string(), String::new()),
        ]
    );
    assert_eq!(query_string(&pairs), "?q=rust&page=2&flag=");
    assert_eq!(query_string(&[]), "");
    assert_eq!(search_query_from_pairs(&pairs), "rust");
    assert_eq!(technologies_query_pairs("  go  "), vec![("q".to_string(), "go".to_string())]);
    assert!(technologies_query_pairs("   ").is_empty());
}

#[test]
fn slugs_and_anchors() {
    assert_eq!(slugify("Hello, World!"), "hello-world");
    assert_eq!(slugify("  Déjà vu 2 "), "déjà-vu-2");
    assert_eq!(heading_anchor_id("intro"), "heading-intro");
    assert_eq!(heading_anchor_id("heading-intro"), "heading-intro");
    assert_eq!(slugify_like_handle("Rust & Verus!"), "rust-verus");
}

#[test]
fn markdown_text_and_headings() {
    let nodes = vec![
        node("heading", "", &[("level", "2")], vec![node("text", "Getting started", &[], vec![])]),
        node("paragraph", "", &[], vec![node("text", "body", &[], vec![])]),
        node("heading", "", &[("id", "custom")], vec![node("text", "Next", &[], vec![])]),
    ];
    assert_eq!(extract_text(&nodes), "Getting startedbodyNext");
    let toc = extract_headings(&nodes);
    assert_eq!(toc.len(), 2);
    assert_eq!((toc[0].level, toc[0].text.as_str(), toc[0].id.as_str()), (2, "Getting started", "heading-getting-started"));
    assert_eq!((toc[1].level, toc[1].text.as_str(), toc[1].id.as_str()), (1, "Next", "heading-custom"));
}

#[test]
fn code_block_titles_and_languages() {
    assert_eq!(extract_code_title("rust title=\"main.rs\""), Some("main.rs".to_string()));
    assert_eq!(extract_code_title("rust title='lib.rs'"), Some("lib.rs".to_string()));
    assert_eq!(extract_code_title("rust {title=Snippet}"), Some("Snippet".to_string()));
    assert_eq!(extract_code_title("rust"), None);
    assert_eq!(clean_language("Rust title=\"x\""), "rust");
    assert_eq!(clean_language("  "), "txt");
}

#[test]
fn visuals_resolve() {
    assert!(resolve_visual("").is_none());
    match resolve_visual("icomoon#rust") {
        Some(VisualSource::Icomoon(s)) => assert_eq!(s, "/assets/icon/symbol-defs.svg#ico-rust"),
        _ => panic!("expected an icon"),
    }
    match resolve_visual("/logo.png") {
        Some(VisualSource::Image(s)) => assert_eq!(s, "/logo.png"),
        _ => panic!("expected an image"),
    }
}

#[test]
fn content_links() {
    assert_eq!(handle_href("//docs/a"), "/docs/a");
    assert_eq!(content_handle_from_path("/docs/rust/intro"), Some("docs/rust/intro".to_string()));
    assert_eq!(content_handle_from_path("/about"), None);
    assert_eq!(
        edit_in_git_url("/docs/a.md"),
        "https://github.com/batleforc/monofolio-rs/edit/main/contents/docs/a.md"
    );
    let index = vec![
        ("Rust language".to_string(), "docs/lang/rust".to_string()),
        ("Leptos".to_string(), "docs/web/leptos".to_string()),
    ];
    assert_eq!(find_doc_href_for_techno("Rust", &index), Some("/docs/lang/rust".to_string()));
    assert_eq!(find_doc_href_for_techno("LEPTOS", &index), Some("/docs/web/leptos".to_string()));
    assert_eq!(find_doc_href_for_techno("Go", &index), None);
    assert_eq!(find_doc_href_for_techno("!!", &index), None);
}

#[test]
fn docs_index_and_tree() {
    let nav = vec![
        doc("Guides", "docs/guides", 1, "folder_with_index", vec![
            doc("Second", "docs/guides/b", 2, "markdown", vec![]),
            doc("First", "docs/guides/a", 1, "markdown", vec![]),
            doc("Sub", "docs/guides/sub", 3, "folder", vec![doc("Deep", "docs/guides/sub/d", 0, "markdown", vec![])]),
        ]),
        doc("Page", "docs/page", 0, "markdown", vec![]),
    ];
    let mut entries = Vec::new();
    collect_index_entries(&nav, &mut entries);
    let handles: Vec<String> = entries.iter().map(|e| e.handle.clone()).collect();
    assert_eq!(handles, vec!["docs/guides/b", "docs/guides/a", "docs/guides/sub/d", "docs/page"]);

    let mut sections = Vec::new();
    collect_folder_with_index_sections(&nav, &mut sections);
    assert_eq!(sections.len(), 1);
    assert_eq!(sections[0].0.handle, "docs/guides");
    let in_section: Vec<String> = sections[0].1.iter().map(|e| e.handle.clone()).collect();
    assert_eq!(in_section, vec!["docs/guides/sub/d", "docs/guides/a", "docs/guides/b"]);

    let sorted = sort_by_order(vec![doc("x", "x", 2, "markdown", vec![]), doc("y", "y", 1, "markdown", vec![]), doc("z", "z", 2, "markdown", vec![])]);
    let order: Vec<String> = sorted.iter().map(|e| e.handle.clone()).collect();
    assert_eq!(order, vec!["y", "x", "z"]);

    assert_eq!(tree_indent(0), "");
    assert_eq!(tree_indent(2), "ms-4");
    assert_eq!(tree_indent(9), "ms-8");
    assert_eq!(node_style("folder"), DocNodeStyle::Folder);
    assert_eq!(node_style("folder_with_index"), DocNodeStyle::FolderWithIndex);
    assert_eq!(node_style("markdown"), DocNodeStyle::Page);

    let mut open = open_folders_for_path(&nav, "/docs/guides/sub/d");
    open.sort();
    assert_eq!(open, vec!["docs/guides", "docs/guides/sub"]);
    assert!(open_folders_for_path(&nav, "/about").is_empty());
    assert!(is_open(0, &vec![], "anything"));
    assert!(!is_open(1, &vec![], "docs/guides"));
    let mut folders: Vec<String> = vec![];
    let h = "docs/guides/sub".to_string();
    toggle_folder(&mut folders, 1, &h);
    assert!(is_open(1, &folders, "docs/guides/sub"));
    toggle_folder(&mut folders, 1, &h);
    assert!(!is_open(1, &folders, "docs/guides/sub"));
    toggle_folder(&mut folders, 0, &h);
    assert!(folders.is_empty());
}

#[test]
fn home_lists_visible_projects() {
    let db = database(vec![
        entry("projects/a", true, false, "2024-01-01"),
        entry("projects/draft", true, true, "2024-01-01"),
        entry("projects/unreleased", true, false, "  "),
        entry("blogs/post", false, false, "2024-01-01"),
    ]);
    let listed: Vec<String> = home_projects(&db).iter().map(|p| p.handle.clone()).collect();
    assert_eq!(listed, vec!["projects/a"]);
}

#[test]
fn sitemap_is_sorted_deduplicated_and_escaped() {
    let db = database(vec![
        entry("/blogs/b&c", false, false, "2024"),
        entry("about", false, false, "2024"),
        entry("blogs/a", false, false, "2024"),
    ]);
    let xml = build_sitemap_xml(&db);
    let expected = [
        "<?xml version=\"1.0\" encoding=\"UTF-8\"?><urlset xmlns=\"http://www.sitemaps.org/schemas/sitemap/0.9\">",
        "<url><loc>https://maxleriche.net/</loc></url>",
        "<url><loc>https://maxleriche.net/about</loc></url>",
        "<url><loc>https://maxleriche.net/blog</loc></url>",
        "<url><loc>https://maxleriche.net/blogs/a</loc></url>",
        "<url><loc>https://maxleriche.net/blogs/b&amp;c</loc></url>",
        "<url><loc>https://maxleriche.net/contact</loc></url>",
        "<url><loc>https://maxleriche.net/docs</loc></url>",
        "<url><loc>https://maxleriche.net/projects</loc></url>",
        "</urlset>",
    ]
    .join("");
    assert_eq!(xml, expected);
    assert_eq!(escape_xml("<a href=\"x\">'&'</a>"), "&lt;a href=&quot;x&quot;&gt;&apos;&amp;&apos;&lt;/a&gt;");
}

#[test]
fn seo_urls_for_pages() {
    assert_eq!(og_minia_url("/"), "https://maxleriche.net/public/minia/home.webp");
    assert_eq!(og_minia_url("/docs/rust/intro"), "https://maxleriche.net/public/minia/docs_rust_intro.webp");
    let seo = static_page_seo("Blog", "Posts", "/blog");
    assert_eq!(seo.title, "Blog");
    assert_eq!(seo.description, "Posts");
    assert_eq!(seo.canonical, "https://maxleriche.net/blog");
    assert_eq!(seo.image, "https://maxleriche.net/public/minia/blog.webp");
}

#[test]
fn technology_maturity_labels() {
    assert_eq!(maturity_label("advanced", Language::Fr), "Avance");
    assert_eq!(maturity_label("beginner", Language::En), "Beginner");
    assert_eq!(maturity_label("???", Language::Fr), "A definir");
    assert_eq!(maturity_label("???", Language::En), "Unset");
}

#[test]
fn search_ranks_title_matches_first() {
    let items = vec![
        SearchEntryData { title: "Zeta rust".to_string(), description: String::new(), handle: "z".to_string(), href: "/z".to_string(), kind: "doc".to_string() },
        SearchEntryData { title: "Other".to_string(), description: "about rust".to_string(), handle: "o".to_string(), href: "/o".to_string(), kind: "doc".to_string() },
        SearchEntryData { title: "Rust book".to_string(), description: String::new(), handle: "r".to_string(), href: "/r".to_string(), kind: "doc".to_string() },
        SearchEntryData { title: "Misc".to_string(), description: String::new(), handle: "docs/rust-misc".to_string(), href: "/m".to_string(), kind: "doc".to_string() },
    ];
    let found: Vec<String> = filter_search_results(&items, "  RUST ").iter().map(|e| e.title.clone()).collect();
    assert_eq!(found, vec!["Rust book", "Zeta rust", "Misc", "Other"]);
    assert!(filter_search_results(&items, "   ").is_empty());
    let t = translations(Language::En);
    let fixed = static_search_entries(Language::En, &t);
    let hrefs: Vec<String> = fixed.iter().map(|e| e.href.clone()).collect();
    assert_eq!(hrefs, vec!["/", "/about", "/contact"]);
    assert_eq!(fixed[0].title, "Home");
}
