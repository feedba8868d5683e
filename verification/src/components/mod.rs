//! Logic behind the shared page components.
pub mod navbar;
