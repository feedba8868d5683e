//! The logic behind the site's pages.
pub mod home;
pub mod content;
pub mod technologies;
pub mod projects;
pub mod blog;
pub mod profile;
pub mod not_found;
pub mod docs;
