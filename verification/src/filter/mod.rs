//! Which files a scan covers.
pub mod tep_ignore_filter;
