//! Verified core of an interactive directory-index downloader: extracting
//! entries from fetched listing pages, paging through them at a prompt,
//! descending the index one chosen segment at a time, and accounting for the
//! bytes of a streamed download.
pub mod chooser;
pub mod download;
pub mod extract;
pub mod navigate;
pub mod text;
