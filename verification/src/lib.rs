//! Verified core of a downloader for the texture and skybox catalogue of
//! freestylized.com: which directories to prepare, which pages to visit,
//! which link on a page to follow, how files are named and where they go,
//! and what is reported along the way.

pub mod text;
pub mod path;
pub mod app;
pub mod download;
pub mod scrape;
pub mod report;
pub mod schedule;
