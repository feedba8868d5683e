//! Verified core of the portfolio frontend: text utilities, markdown helpers,
//! content navigation, search, SEO metadata and sitemap generation.
pub mod i18n;
pub mod text;
pub mod date_utils;
pub mod order;
pub mod markdown;
pub mod content_db;
pub mod sitemap;
pub mod pages;
pub mod seo;
pub mod components;
pub mod media;
pub mod query;
pub mod listing;
pub mod calendar;
