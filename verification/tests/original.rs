use frontend::content_db::{ContentDatabase, ContentDates, ContentEntry, ContentKind};
use frontend::markdown::MarkdownContent;
use frontend::pages::home::{HomeData, SocialLinkData};
use frontend::seo::{build_person_json_ld, canonical_url};
use frontend::sitemap::build_sitemap_xml;

fn empty_home() -> HomeData {
    HomeData {
        name: String::new(),
        presentation: String::new(),
        presentation_en: None,
        short_description: String::new(),
        short_description_en: None,
        cover_title: vec![],
        cover_title_en: None,
        cv_url: String::new(),
        contact_email: None,
        contact_location: None,
        current_work: None,
        contact_availability: None,
        contact_availability_en: None,
        url: vec![],
        useful_links: vec![],
        history: vec![],
    }
}

#[test]
fn sitemap_contains_static_and_content_urls() {
    let database = ContentDatabase {
        generated_at_unix: 0,
        entries: vec![ContentEntry {
            title: "Post".to_string(),
            description: String::new(),
            handle: "blogs/test".to_string(),
            source_path: "blogs/test.md".to_string(),
            kind: ContentKind {
                blog: true,
                project: false,
                doc: false,
            },
            dates: ContentDates {
                created_at: "2024-01-01T00:00:00Z".to_string(),
                updated_at_unix: 0,
                released_at: "2024-01-01".to_string(),
            },
            draft: false,
            tags: vec![],
            techno: vec![],
            image: String::new(),
            reading_time_minutes: 1,
            toc: vec![],
            content: MarkdownContent {
                format: "markdown_ast".to_string(),
                nodes: vec![],
            },
        }],
        sidebar: vec![],
        blog_timeline: vec![],
    };

    let xml = build_sitemap_xml(&database);
    assert!(xml.contains("<loc>https://maxleriche.net/</loc>"));
    assert!(xml.contains("<loc>https://maxleriche.net/about</loc>"));
    assert!(xml.contains("<loc>https://maxleriche.net/blogs/test</loc>"));
}

#[test]
fn canonical_url_handles_root_and_paths() {
    assert_eq!(canonical_url("/"), "https://maxleriche.net");
    assert_eq!(canonical_url("about"), "https://maxleriche.net/about");
    assert_eq!(
        canonical_url("/docs/test"),
        "https://maxleriche.net/docs/test"
    );
}

#[test]
fn person_json_ld_contains_required_fields() {
    let mut data = empty_home();
    data.name = "Maxime Leriche".to_string();
    data.short_description = "Dev, Ops".to_string();
    data.short_description_en = Some("Dev, Ops, Arch".to_string());
    data.contact_email = Some("max@maxleriche.net".to_string());
    data.current_work = Some("Engineer".to_string());
    data.contact_location = Some("Nouvelle-Aquitaine, France".to_string());
    data.url = vec![SocialLinkData {
        name: "GitHub".to_string(),
        url: "https://github.com/batleforc".to_string(),
        primaire: true,
        img_url: String::new(),
    }];

    let json_string = build_person_json_ld(&data);
    let parsed: serde_json::Value = serde_json::from_str(&json_string).unwrap();

    assert_eq!(parsed["@type"], "Person");
    assert_eq!(parsed["name"], "Maxime Leriche");
    assert_eq!(parsed["description"], "Dev, Ops, Arch");
    assert_eq!(parsed["email"], "max@maxleriche.net");
    assert_eq!(parsed["jobTitle"], "Engineer");
    assert_eq!(
        parsed["address"]["addressLocality"],
        "Nouvelle-Aquitaine, France"
    );
    let same_as = parsed["sameAs"].as_array().unwrap();
    assert_eq!(same_as.len(), 1);
    assert_eq!(same_as[0], "https://github.com/batleforc");
}
