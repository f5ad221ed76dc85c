//! The logic of a small static blog generator: splitting post sources into frontmatter and
//! markdown, the passes over a post's markdown events (math, table of contents, footnotes),
//! ordering and grouping posts, and planning the pages of the site with what each template
//! is given.
use vstd::prelude::*;

pub mod date;
pub mod index;
pub mod markdown;
pub mod parse;
pub mod postprocessing;
pub mod render;
pub mod text;
pub mod types;
pub mod utils;

verus! {

} // verus!
