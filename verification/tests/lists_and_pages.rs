use frontend::i18n::Language;
use frontend::pages::blog::{reading_time_text, resolve_blog_image, visible_blog_entries, BlogEntryData};
use frontend::pages::home::{latest_projects, HistoryEntryData, HomeData, ProjectSummaryData, SocialLinkData};
use frontend::pages::not_found::{next_visit_count, shows_game, visit_count_text};
use frontend::pages::profile::{
    about_contact_card, about_link_icon, contact_page_card, cover_titles, entry_description,
    entry_title, hero_link_icon, history_by_weight, mailto_link, primary_links, resolve_cv_url,
    text_paragraphs, timeline_icon_type, AboutLinkIcon, HeroLinkIcon, TimelineIcon,
};
use frontend::pages::projects::{
    clamp_page, filter_projects, page_projects, projects_query_from_pairs, projects_query_pairs,
    resolve_project_image, total_pages, unique_tags, unique_techno,
};

fn project(title: &str, released_at: &str, tags: &[&str], techno: &[&str]) -> ProjectSummaryData {
    ProjectSummaryData {
        title: title.to_string(),
        description: format!("About {}", title),
        handle: format!("projects/{}", title.to_lowercase()),
        tags: tags.iter().map(|s| s.to_string()).collect(),
        techno: techno.iter().map(|s| s.to_string()).collect(),
        image: String::new(),
        released_at: released_at.to_string(),
    }
}

fn titles(v: &[ProjectSummaryData]) -> Vec<String> {
    v.iter().map(|p| p.title.clone()).collect()
}

fn pairs(items: &[(&str, &str)]) -> Vec<(String, String)> {
    items.iter().map(|(k, v)| (k.to_string(), v.to_string())).collect()
}

fn empty_home() -> HomeData {
    HomeData {
        name: String::new(),
        presentation: String::new(),
        presentation_en: None,
        short_description: String::new(),
        short_description_en: None,
        cover_title: vec![],
        cover_title_en: None,
        cv_url: String::new(),
        contact_email: None,
        contact_location: None,
        current_work: None,
        contact_availability: None,
        contact_availability_en: None,
        url: vec![],
        useful_links: vec![],
        history: vec![],
    }
}

fn history(title: &str, weight: u32) -> HistoryEntryData {
    HistoryEntryData {
        title: title.to_string(),
        title_en: None,
        lieux: String::new(),
        date: String::new(),
        weight,
        img_url: String::new(),
        ico_url: String::new(),
        description: String::new(),
        description_en: None,
        url: vec![],
    }
}

fn post(title: &str, date: &str, draft: bool) -> BlogEntryData {
    BlogEntryData {
        title: title.to_string(),
        description: String::new(),
        handle: format!("blogs/{}", title),
        date: date.to_string(),
        tags: vec![],
        image: String::new(),
        reading_time_minutes: 3,
        draft,
    }
}

// ───────────── projects ─────────────

#[test]
fn project_images_resolve_like_media() {
    assert_eq!(resolve_project_image("  "), None);
    assert_eq!(resolve_project_image("https://x.org/a.png"), Some("https://x.org/a.png".to_string()));
    assert_eq!(resolve_project_image("/img/a.png"), Some("/img/a.png".to_string()));
    assert_eq!(resolve_project_image("media#cover.webp"), Some("/public/media/cover.webp".to_string()));
    assert_eq!(resolve_project_image("cover.webp"), Some("/public/media/cover.webp".to_string()));
}

#[test]
fn projects_query_defaults_and_overrides() {
    let q = projects_query_from_pairs(&[]);
    assert_eq!((q.search.as_str(), q.tag.as_str(), q.techno.as_str(), q.page), ("", "all", "all", 1));
    let q = projects_query_from_pairs(&pairs(&[
        ("q", "rust"),
        ("tag", ""),
        ("tech", "Leptos"),
        ("page", "3"),
        ("other", "x"),
        ("q", "verus"),
    ]));
    assert_eq!(q.search, "verus");
    assert_eq!(q.tag, "all");
    assert_eq!(q.techno, "Leptos");
    assert_eq!(q.page, 3);
    let q = projects_query_from_pairs(&pairs(&[("page", "0")]));
    assert_eq!(q.page, 1);
    let q = projects_query_from_pairs(&pairs(&[("page", "2"), ("page", "x")]));
    assert_eq!(q.page, 2);
    let q = projects_query_from_pairs(&pairs(&[("page", "+4")]));
    assert_eq!(q.page, 4);
}

#[test]
fn projects_query_pairs_written_and_read_back() {
    let written = projects_query_pairs("  Rust web ", "cli", "all", 2);
    assert_eq!(written, pairs(&[("q", "Rust web"), ("tag", "cli"), ("page", "2")]));
    assert_eq!(projects_query_pairs(" ", "all", "all", 1), pairs(&[]));
    let q = projects_query_from_pairs(&written);
    assert_eq!(q.search, "Rust web");
    assert_eq!(q.tag, "cli");
    assert_eq!(q.techno, "all");
    assert_eq!(q.page, 2);
}

#[test]
fn filter_projects_by_search_tag_and_techno() {
    let all = vec![
        project("Alpha", "2023-01-01", &["cli", "tool"], &["Rust"]),
        project("Beta", "2024-01-01", &["web"], &["Rust", "Leptos"]),
        project("Gamma", "2022-06-01", &["web"], &["Go"]),
    ];
    let copy = |v: &Vec<ProjectSummaryData>| -> Vec<ProjectSummaryData> {
        v.iter()
            .map(|p| ProjectSummaryData {
                title: p.title.clone(),
                description: p.description.clone(),
                handle: p.handle.clone(),
                tags: p.tags.clone(),
                techno: p.techno.clone(),
                image: p.image.clone(),
                released_at: p.released_at.clone(),
            })
            .collect()
    };
    assert_eq!(titles(&filter_projects(copy(&all), "", "all", "all")), vec!["Alpha", "Beta", "Gamma"]);
    assert_eq!(titles(&filter_projects(copy(&all), "  RUST ", "all", "all")), vec!["Alpha", "Beta"]);
    assert_eq!(titles(&filter_projects(copy(&all), "", "web", "all")), vec!["Beta", "Gamma"]);
    assert_eq!(titles(&filter_projects(copy(&all), "", "web", "Rust")), vec!["Beta"]);
    assert_eq!(titles(&filter_projects(copy(&all), "about gamma", "all", "all")), vec!["Gamma"]);
    assert!(filter_projects(copy(&all), "zzz", "all", "all").is_empty());
}

#[test]
fn unique_tags_and_techno_are_sorted_without_duplicates() {
    let all = vec![
        project("Alpha", "2023-01-01", &["tool", "cli"], &["Rust"]),
        project("Beta", "2024-01-01", &["web", "cli"], &["Rust", "Leptos"]),
    ];
    assert_eq!(unique_tags(&all), vec!["cli", "tool", "web"]);
    assert_eq!(unique_techno(&all), vec!["Leptos", "Rust"]);
    assert!(unique_tags(&[]).is_empty());
}

#[test]
fn pagination_counts_and_slices_pages() {
    assert_eq!(total_pages(0), 1);
    assert_eq!(total_pages(6), 1);
    assert_eq!(total_pages(7), 2);
    assert_eq!(total_pages(12), 2);
    assert_eq!(total_pages(13), 3);
    assert_eq!(clamp_page(0, 3), 1);
    assert_eq!(clamp_page(5, 3), 3);
    assert_eq!(clamp_page(2, 3), 2);
    let make = || (0..14).map(|i| project(&format!("P{}", i), "2024-01-01", &[], &[])).collect::<Vec<_>>();
    assert_eq!(titles(&page_projects(make(), 1)), vec!["P0", "P1", "P2", "P3", "P4", "P5"]);
    assert_eq!(titles(&page_projects(make(), 0)), vec!["P0", "P1", "P2", "P3", "P4", "P5"]);
    assert_eq!(titles(&page_projects(make(), 3)), vec!["P12", "P13"]);
    assert!(page_projects(make(), 4).is_empty());
}

#[test]
fn latest_projects_are_newest_first_and_at_most_six() {
    let mut all = Vec::new();
    for (i, d) in ["2021", "2024", "2023", "2022", "2024", "2020", "2019", "2025"].iter().enumerate() {
        all.push(project(&format!("P{}", i), d, &[], &[]));
    }
    assert_eq!(titles(&latest_projects(all)), vec!["P7", "P1", "P4", "P2", "P3", "P0"]);
    assert!(latest_projects(vec![]).is_empty());
}

// ───────────── blog ─────────────

#[test]
fn blog_index_hides_drafts_and_puts_newest_first() {
    let shown = visible_blog_entries(vec![
        post("a", "2023-05-01", false),
        post("b", "2024-01-01", true),
        post("c", "2024-01-01", false),
        post("d", "2023-05-01", false),
    ]);
    let names: Vec<String> = shown.iter().map(|p| p.title.clone()).collect();
    assert_eq!(names, vec!["c", "a", "d"]);
}

#[test]
fn blog_images_and_reading_time() {
    assert_eq!(resolve_blog_image(""), None);
    assert_eq!(resolve_blog_image("media#a.png"), Some("/public/media/a.png".to_string()));
    assert_eq!(reading_time_text(7, Language::Fr), "7 min de lecture");
    assert_eq!(reading_time_text(12, Language::En), "12 min read");
}

// ───────────── profile ─────────────

#[test]
fn texts_fall_back_to_french() {
    let mut entry = history("Ingénieur", 1);
    entry.description = "Texte".to_string();
    entry.description_en = Some("Text".to_string());
    assert_eq!(entry_title(&entry, Language::En), "Ingénieur");
    assert_eq!(entry_title(&entry, Language::Fr), "Ingénieur");
    assert_eq!(entry_description(&entry, Language::En), "Text");
    assert_eq!(entry_description(&entry, Language::Fr), "Texte");
    let mut data = empty_home();
    data.cover_title = vec!["Dev".to_string(), "Ops".to_string()];
    assert_eq!(cover_titles(&data, Language::En), vec!["Dev", "Ops"]);
    data.cover_title_en = Some(vec!["Developer".to_string()]);
    assert_eq!(cover_titles(&data, Language::En), vec!["Developer"]);
    assert_eq!(cover_titles(&data, Language::Fr), vec!["Dev", "Ops"]);
}

#[test]
fn paragraphs_are_the_non_blank_lines() {
    assert_eq!(text_paragraphs("one\n\n  \ntwo\r\nthree\n"), vec!["one", "two", "three"]);
    assert_eq!(text_paragraphs("last\r"), vec!["last\r"]);
    assert!(text_paragraphs("").is_empty());
}

#[test]
fn cv_link_resolution() {
    assert_eq!(resolve_cv_url("https://cv.example/cv.pdf"), "https://cv.example/cv.pdf");
    assert_eq!(resolve_cv_url("media#cv.pdf"), "/public/media/cv.pdf");
    assert_eq!(resolve_cv_url("media#media#cv.pdf"), "/public/media/cv.pdf");
    assert_eq!(resolve_cv_url("cv.pdf"), "/public/media/cv.pdf");
}

#[test]
fn link_and_timeline_icons() {
    assert_eq!(about_link_icon("ico#github"), AboutLinkIcon::Github);
    assert_eq!(about_link_icon("ico#linkedin2"), AboutLinkIcon::Linkedin);
    assert_eq!(about_link_icon("ico#gitea"), AboutLinkIcon::Gitea);
    assert_eq!(about_link_icon("other"), AboutLinkIcon::ExternalLink);
    assert_eq!(hero_link_icon("ico#gitea"), HeroLinkIcon::ExternalLink);
    assert_eq!(hero_link_icon("ico#github"), HeroLinkIcon::Github);
    assert_eq!(timeline_icon_type("ico#school"), TimelineIcon::GraduationCap);
    assert_eq!(timeline_icon_type("ico#work"), TimelineIcon::Briefcase);
    assert_eq!(timeline_icon_type("ico#handyman"), TimelineIcon::Wrench);
    assert_eq!(timeline_icon_type(""), TimelineIcon::Circle);
}

#[test]
fn hero_shows_primary_links_only() {
    let links = vec![
        SocialLinkData { name: "a".to_string(), url: "u1".to_string(), primaire: true, img_url: String::new() },
        SocialLinkData { name: "b".to_string(), url: "u2".to_string(), primaire: false, img_url: String::new() },
        SocialLinkData { name: "c".to_string(), url: "u3".to_string(), primaire: true, img_url: String::new() },
    ];
    let names: Vec<String> = primary_links(&links).iter().map(|l| l.name.clone()).collect();
    assert_eq!(names, vec!["a", "c"]);
}

#[test]
fn timeline_is_ordered_by_weight_stably() {
    let sorted = history_by_weight(vec![history("c", 3), history("a1", 1), history("b", 2), history("a2", 1)]);
    let names: Vec<String> = sorted.iter().map(|h| h.title.clone()).collect();
    assert_eq!(names, vec!["a1", "a2", "b", "c"]);
}

#[test]
fn contact_cards_use_their_defaults() {
    let data = empty_home();
    let about = about_contact_card(&data, Language::Fr);
    assert_eq!(about.availability, "Open to collaborations");
    assert_eq!(about.location, "Nouvelle-Aquitaine, France");
    assert_eq!(about.current_work, "Ingénieur plateforme");
    assert_eq!(about.email, "max@maxleriche.net");
    let contact = contact_page_card(&data, Language::Fr);
    assert_eq!(contact.availability, "Ouvert à des discussions techniques et collaborations");
    assert_eq!(contact.location, "Niort, France");
    assert_eq!(contact.current_work, "Ingénieur Socle de fabrication / Couche d'échange");
    assert_eq!(contact.email, "contact@maxime-leriche.dev");
    assert_eq!(
        contact_page_card(&data, Language::En).availability,
        "Open to technical discussions and collaborations"
    );
    let mut data = empty_home();
    data.contact_availability = Some("Dispo".to_string());
    assert_eq!(about_contact_card(&data, Language::En).availability, "Dispo");
    data.contact_availability_en = Some("Available".to_string());
    assert_eq!(about_contact_card(&data, Language::En).availability, "Available");
    assert_eq!(contact_page_card(&data, Language::Fr).availability, "Dispo");
    assert_eq!(mailto_link("a@b.c"), "mailto:a@b.c");
}

// ───────────── 404 ─────────────

#[test]
fn not_found_counter_and_game() {
    assert_eq!(next_visit_count(None), 1);
    assert_eq!(next_visit_count(Some("abc")), 1);
    assert_eq!(next_visit_count(Some("4")), 5);
    assert_eq!(visit_count_text(5), "5");
    assert_eq!(next_visit_count(Some(&visit_count_text(41))), 42);
    assert!(shows_game(5));
    assert!(shows_game(10));
    assert!(!shows_game(0));
    assert!(!shows_game(6));
}
