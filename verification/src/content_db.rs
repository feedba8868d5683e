//! The content database that the build step produces and the server reads: every
//! published page with its metadata, and the documentation sidebar.
use vstd::prelude::*;

use crate::markdown::toc::TocEntry;
use crate::markdown::MarkdownContent;

verus! {

/// Which sections a content entry belongs to.
pub struct ContentKind {
    pub blog: bool,
    pub project: bool,
    pub doc: bool,
}

/// The dates of a content entry.
pub struct ContentDates {
    pub created_at: String,
    pub updated_at_unix: u64,
    pub released_at: String,
}

/// One page of content (blog post, project or documentation page).
pub struct ContentEntry {
    pub title: String,
    pub description: String,
    pub handle: String,
    pub source_path: String,
    pub kind: ContentKind,
    pub dates: ContentDates,
    pub draft: bool,
    pub tags: Vec<String>,
    pub techno: Vec<String>,
    pub image: String,
    pub reading_time_minutes: usize,
    pub toc: Vec<TocEntry>,
    pub content: MarkdownContent,
}

/// A node of the documentation sidebar tree.
pub struct SidebarItem {
    pub title: String,
    pub handle: String,
    pub order: u32,
    pub children: Vec<SidebarItem>,
}

/// The whole content database.
pub struct ContentDatabase {
    pub generated_at_unix: u64,
    pub entries: Vec<ContentEntry>,
    pub sidebar: Vec<SidebarItem>,
    pub blog_timeline: Vec<String>,
}

/// The handles of the entries, in database order.
pub open spec fn entry_handles(db: &ContentDatabase) -> Seq<Seq<char>> {
    db.entries@.map_values(|e: ContentEntry| e.handle@)
}

} // verus!
