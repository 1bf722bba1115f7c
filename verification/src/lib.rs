//! Rewrites `redump.org` to `redump.info` in archive.org item descriptions:
//! the text rewrite itself, the preview snippet, the reading of
//! archive.org's JSON replies, and the state of a review-and-apply session.

pub mod apply;
pub mod ia;
pub mod json;
pub mod preview;
pub mod replace;
pub mod session;
pub mod text;
