//! A same-domain web crawler: URL normalization, robots exclusion rules,
//! link extraction and validation, and the crawl state that concurrent
//! traversal units share.

pub mod normalize;
pub mod url_set;
pub mod links;
pub mod robots;
pub mod page_map;
pub mod crawler;
