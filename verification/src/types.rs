//! The values that flow between the steps of building a site.
use vstd::prelude::*;
use crate::date::{Date, DateView};
use crate::markdown::{opt_text, texts};

verus! {

/// Where the site is read from and written to, and how tags are grouped.
pub struct Config {
    pub input_dir: String,
    pub output_dir: String,
    pub templates_dir: String,
    pub categories: Vec<TagCategory>,
}

/// A named group of tags, shown together and in one colour.
pub struct TagCategory {
    pub name: String,
    pub color: String,
    pub tags: Vec<String>,
}

/// One heading of a post's table of contents.
pub struct TocEntry {
    pub level: u8,
    pub text: String,
    pub id: String,
}

/// The value of a `TocEntry`.
pub struct TocEntryView {
    pub level: u8,
    pub text: Seq<char>,
    pub id: Seq<char>,
}

impl View for TocEntry {
    type V = TocEntryView;

    open spec fn view(&self) -> TocEntryView {
        TocEntryView { level: self.level, text: self.text@, id: self.id@ }
    }
}

impl Clone for TocEntry {
    fn clone(&self) -> (r: Self)
        ensures
            r == *self,
    {
        TocEntry { level: self.level, text: self.text.clone(), id: self.id.clone() }
    }
}

/// The values of a sequence of table-of-contents entries.
pub open spec fn toc_view(v: Seq<TocEntry>) -> Seq<TocEntryView> {
    v.map_values(|e: TocEntry| e@)
}

/// A copy of a list of strings.
pub fn copy_strings(v: &Vec<String>) -> (r: Vec<String>)
    ensures
        r@ == v@,
{
    let mut r: Vec<String> = Vec::new();
    let mut i: usize = 0;
    while i < v.len()
        invariant
            i <= v.len(),
            r@ =~= v@.take(i as int),
        decreases v.len() - i,
    {
        r.push(v[i].clone());
        i = i + 1;
    }
    r
}

/// A copy of an optional string.
pub fn copy_opt_string(o: &Option<String>) -> (r: Option<String>)
    ensures
        r == *o,
{
    match o {
        Some(s) => Some(s.clone()),
        None => None,
    }
}

/// A copy of a table of contents.
pub fn copy_toc(v: &Vec<TocEntry>) -> (r: Vec<TocEntry>)
    ensures
        r@ == v@,
{
    let mut r: Vec<TocEntry> = Vec::new();
    let mut i: usize = 0;
    while i < v.len()
        invariant
            i <= v.len(),
            r@ =~= v@.take(i as int),
        decreases v.len() - i,
    {
        r.push(v[i].clone());
        i = i + 1;
    }
    r
}

/// The metadata block at the top of a post.
pub struct Frontmatter {
    pub title: String,
    pub date_created: Date,
    pub date_modified: Option<Date>,
    pub tags: Vec<String>,
    pub blurb: Option<String>,
    pub draft: bool,
}

/// The value of a `Frontmatter`.
pub struct FrontmatterView {
    pub title: Seq<char>,
    pub date_created: DateView,
    pub date_modified: Option<DateView>,
    pub tags: Seq<Seq<char>>,
    pub blurb: Option<Seq<char>>,
    pub draft: bool,
}

/// The value of an optional date.
pub open spec fn opt_date(d: Option<Date>) -> Option<DateView> {
    match d {
        Some(x) => Some(x@),
        None => None,
    }
}

impl View for Frontmatter {
    type V = FrontmatterView;

    open spec fn view(&self) -> FrontmatterView {
        FrontmatterView {
            title: self.title@,
            date_created: self.date_created@,
            date_modified: opt_date(self.date_modified),
            tags: texts(self.tags@),
            blurb: opt_text(self.blurb),
            draft: self.draft,
        }
    }
}

impl Clone for Frontmatter {
    fn clone(&self) -> (r: Self)
        ensures
            r@ == self@,
    {
        Frontmatter {
            title: self.title.clone(),
            date_created: self.date_created,
            date_modified: self.date_modified,
            tags: copy_strings(&self.tags),
            blurb: copy_opt_string(&self.blurb),
            draft: self.draft,
        }
    }
}

/// A post ready to be placed in a page: its metadata, its rendered body, the name of its
/// directory, and its table of contents.
pub struct Post {
    pub meta: Frontmatter,
    pub html: String,
    pub slug: String,
    pub toc: Vec<TocEntry>,
}

/// The value of a `Post`.
pub struct PostView {
    pub meta: FrontmatterView,
    pub html: Seq<char>,
    pub slug: Seq<char>,
    pub toc: Seq<TocEntryView>,
}

impl View for Post {
    type V = PostView;

    open spec fn view(&self) -> PostView {
        PostView { meta: self.meta@, html: self.html@, slug: self.slug@, toc: toc_view(self.toc@) }
    }
}

/// The values of a sequence of posts.
pub open spec fn posts_view(v: Seq<Post>) -> Seq<PostView> {
    v.map_values(|p: Post| p@)
}

impl Clone for Post {
    fn clone(&self) -> (r: Self)
        ensures
            r@ == self@,
    {
        Post {
            meta: self.meta.clone(),
            html: self.html.clone(),
            slug: self.slug.clone(),
            toc: copy_toc(&self.toc),
        }
    }
}

/// The posts that carry one tag.
pub struct TagPosts {
    pub tag: String,
    pub posts: Vec<Post>,
}

/// All posts by date, and the posts of each tag.
pub struct SiteIndex {
    pub posts: Vec<Post>,
    pub tags: Vec<TagPosts>,
}

/// A page to write: where it goes under the output directory (as path components), the
/// directory whose other files are copied beside it, and its HTML.
pub struct OutputFile {
    pub path_relative: Vec<String>,
    pub path_assets: Option<Vec<String>>,
    pub html: String,
}

} // verus!
