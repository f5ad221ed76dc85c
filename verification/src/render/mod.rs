//! Planning the pages of the site: for each page, where it goes and what its template is given.
pub mod context;
pub mod order;
pub mod tags;
pub mod pages;

pub use pages::render;
