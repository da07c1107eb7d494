//! A crawler for a member directory: it walks listing and detail pages from a
//! seed URL, reads each member's record from its detail card, and lays the
//! records out as table rows.

pub mod crawl;
pub mod fetch;
pub mod html;
pub mod links;
pub mod reach;
pub mod record;
pub mod table;
pub mod text;
