//! Passes over the markdown events of a post before it is rendered.
pub mod toc;
pub mod footnote_links;
