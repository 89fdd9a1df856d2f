//! Sitemap discovery, page-result bookkeeping and collision-free file naming
//! for a crawler that fetches every page a sitemap lists.

pub mod discovery;
pub mod names;
pub mod report;
pub mod text;
pub mod xml;
