//! Home page data as served by `/api/v1/home` and the latest-projects section.
use vstd::prelude::*;

use crate::content_db::{ContentDatabase, ContentEntry};
use crate::listing::{newest_first, newest_first_spec, Dated};
use crate::pages::content::{is_nav_visible, nav_visible};
use crate::pages::technologies::strs;
use crate::text::chars_of;

verus! {

/// A social or useful link.
pub struct SocialLinkData {
    pub name: String,
    pub url: String,
    pub primaire: bool,
    pub img_url: String,
}

/// One entry of the career and education timeline.
pub struct HistoryEntryData {
    pub title: String,
    pub title_en: Option<String>,
    pub lieux: String,
    pub date: String,
    pub weight: u32,
    pub img_url: String,
    pub ico_url: String,
    pub description: String,
    pub description_en: Option<String>,
    pub url: Vec<SocialLinkData>,
}

/// Everything the home, about and contact pages show about the site's owner.
pub struct HomeData {
    pub name: String,
    pub presentation: String,
    pub presentation_en: Option<String>,
    pub short_description: String,
    pub short_description_en: Option<String>,
    pub cover_title: Vec<String>,
    pub cover_title_en: Option<Vec<String>>,
    pub cv_url: String,
    pub contact_email: Option<String>,
    pub contact_location: Option<String>,
    pub current_work: Option<String>,
    pub contact_availability: Option<String>,
    pub contact_availability_en: Option<String>,
    pub url: Vec<SocialLinkData>,
    pub useful_links: Vec<SocialLinkData>,
    pub history: Vec<HistoryEntryData>,
}

/// A project as listed on the home and projects pages.
pub struct ProjectSummaryData {
    pub title: String,
    pub description: String,
    pub handle: String,
    pub tags: Vec<String>,
    pub techno: Vec<String>,
    pub image: String,
    pub released_at: String,
}

/// How many projects the home page shows.
pub const LAST_PROJECTS_COUNT: usize = 6;

impl Dated for ProjectSummaryData {
    open spec fn date_key(&self) -> Seq<char> {
        self.released_at@
    }

    fn date_chars(&self) -> (r: Vec<char>) {
        chars_of(self.released_at.as_str())
    }
}

/// What a project summary holds: title, description, handle, tags, technologies,
/// image and release date.
pub open spec fn project_view(p: ProjectSummaryData) -> (
    Seq<char>,
    Seq<char>,
    Seq<char>,
    Seq<Seq<char>>,
    Seq<Seq<char>>,
    Seq<char>,
    Seq<char>,
) {
    (p.title@, p.description@, p.handle@, strs(p.tags@), strs(p.techno@), p.image@, p.released_at@)
}

/// The summary of a content entry.
pub open spec fn entry_project_view(e: ContentEntry) -> (
    Seq<char>,
    Seq<char>,
    Seq<char>,
    Seq<Seq<char>>,
    Seq<Seq<char>>,
    Seq<char>,
    Seq<char>,
) {
    (e.title@, e.description@, e.handle@, strs(e.tags@), strs(e.techno@), e.image@, e.dates.released_at@)
}

/// The summaries of the listed projects among `entries`, in database order.
pub open spec fn listed_projects(entries: Seq<ContentEntry>) -> Seq<
    (Seq<char>, Seq<char>, Seq<char>, Seq<Seq<char>>, Seq<Seq<char>>, Seq<char>, Seq<char>),
>
    decreases entries.len(),
{
    if entries.len() == 0 {
        Seq::empty()
    } else if entries.last().kind.project && nav_visible(entries.last()) {
        listed_projects(entries.drop_last()).push(entry_project_view(entries.last()))
    } else {
        listed_projects(entries.drop_last())
    }
}

/// A copy of a list of strings.
pub fn copy_strings(v: &Vec<String>) -> (r: Vec<String>)
    ensures
        r@ == v@,
        strs(r@) == strs(v@),
{
    let mut r: Vec<String> = Vec::new();
    let mut i: usize = 0;
    while i < v.len()
        invariant
            i <= v.len(),
            r@ == v@.take(i as int),
        decreases v.len() - i,
    {
        let c = v[i].clone();
        r.push(c);
        assert(r@ =~= v@.take(i + 1));
        i = i + 1;
    }
    assert(v@.take(i as int) =~= v@);
    r
}

/// The summary of a project entry.
pub fn project_summary_from_entry(entry: &ContentEntry) -> (p: ProjectSummaryData)
    ensures
        project_view(p) == entry_project_view(*entry),
{
    ProjectSummaryData {
        title: entry.title.clone(),
        description: entry.description.clone(),
        handle: entry.handle.clone(),
        tags: copy_strings(&entry.tags),
        techno: copy_strings(&entry.techno),
        image: entry.image.clone(),
        released_at: entry.dates.released_at.clone(),
    }
}

/// The projects of the database that are listed: project entries that are neither
/// drafts nor without a release date.
pub fn home_projects(database: &ContentDatabase) -> (projects: Vec<ProjectSummaryData>)
    ensures
        projects@.map_values(|p: ProjectSummaryData| project_view(p)) == listed_projects(
            database.entries@,
        ),
{
    let ghost es = database.entries@;
    let mut out: Vec<ProjectSummaryData> = Vec::new();
    let mut i: usize = 0;
    while i < database.entries.len()
        invariant
            i <= database.entries.len(),
            es == database.entries@,
            out@.map_values(|p: ProjectSummaryData| project_view(p)) == listed_projects(
                es.take(i as int),
            ),
        decreases database.entries.len() - i,
    {
        let e = &database.entries[i];
        assert(es.take(i + 1).drop_last() =~= es.take(i as int));
        assert(es.take(i + 1).last() == *e);
        if e.kind.project && is_nav_visible(e) {
            let p = project_summary_from_entry(e);
            out.push(p);
        }
        assert(out@.map_values(|p: ProjectSummaryData| project_view(p)) =~= listed_projects(
            es.take(i + 1),
        ));
        i = i + 1;
    }
    assert(es.take(i as int) =~= es);
    out
}

/// The projects of the home page: the newest ones, at most six, newest first.
pub fn latest_projects(projects: Vec<ProjectSummaryData>) -> (latest: Vec<ProjectSummaryData>)
    ensures
        latest@ == newest_first_spec(projects@).take(
            if projects@.len() < 6 { projects@.len() as int } else { 6 },
        ),
{
    let mut sorted = newest_first(projects);
    proof {
        crate::listing::lemma_newest_first_ordered(projects@);
    }
    sorted.truncate(LAST_PROJECTS_COUNT);
    sorted
}

/// The view of an optional string.
pub open spec fn opt_view(o: Option<String>) -> Option<Seq<char>> {
    match o {
        Some(s) => Some(s@),
        None => None,
    }
}

} // verus!
