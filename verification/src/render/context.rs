//! The values handed to the page templates.
use vstd::prelude::*;
use crate::markdown::opt_text;
use crate::types::{toc_view, OutputFile, TocEntry, TocEntryView};

verus! {

/// A tag as shown on a post: its name and the colour of its category, if it has one.
pub struct TeraTagBasic {
    pub name: String,
    pub color: Option<String>,
}

/// The value of a `TeraTagBasic`.
pub struct TeraTagBasicView {
    pub name: Seq<char>,
    pub color: Option<Seq<char>>,
}

impl View for TeraTagBasic {
    type V = TeraTagBasicView;

    open spec fn view(&self) -> TeraTagBasicView {
        TeraTagBasicView { name: self.name@, color: opt_text(self.color) }
    }
}

/// A tag as shown in tag listings: its name, its number of posts, and its category's colour
/// and name, if it has a category.
pub struct TeraTag {
    pub name: String,
    pub count: usize,
    pub color: Option<String>,
    pub category: Option<String>,
}

/// The value of a `TeraTag`.
pub struct TeraTagView {
    pub name: Seq<char>,
    pub count: nat,
    pub color: Option<Seq<char>>,
    pub category: Option<Seq<char>>,
}

impl View for TeraTag {
    type V = TeraTagView;

    open spec fn view(&self) -> TeraTagView {
        TeraTagView {
            name: self.name@,
            count: self.count as nat,
            color: opt_text(self.color),
            category: opt_text(self.category),
        }
    }
}

/// The values of a sequence of tags.
pub open spec fn tera_tags_view(v: Seq<TeraTag>) -> Seq<TeraTagView> {
    v.map_values(|t: TeraTag| t@)
}

/// The first `i` of the tags `s`.
pub open spec fn tags_take(s: Seq<TeraTagView>, i: usize) -> Seq<TeraTagView> {
    s.take(i as int)
}

/// The `i`-th of the tags `s`.
pub open spec fn tags_at(s: Seq<TeraTagView>, i: usize) -> TeraTagView {
    s[i as int]
}

/// The tags `s` with `x` inserted at index `j`.
pub open spec fn tags_insert(s: Seq<TeraTagView>, j: usize, x: TeraTagView) -> Seq<TeraTagView> {
    s.insert(j as int, x)
}

/// None of the tags is the empty prefix.
pub proof fn lemma_tags_take_zero(s: Seq<TeraTagView>)
    ensures
        tags_take(s, 0) == Seq::<TeraTagView>::empty(),
{
    assert(s.take(0) =~= Seq::<TeraTagView>::empty());
}

/// All of the tags is the whole.
pub proof fn lemma_tags_take_all(s: Seq<TeraTagView>)
    requires
        s.len() <= usize::MAX,
    ensures
        tags_take(s, s.len() as usize) == s,
{
    assert(s.take(s.len() as int) =~= s);
}

/// One more tag extends the prefix by the next tag.
pub proof fn lemma_tags_take_next(s: Seq<TeraTagView>, i: usize)
    requires
        i < s.len(),
        i < usize::MAX,
    ensures
        tags_take(s, (i + 1) as usize).drop_last() == tags_take(s, i),
        tags_take(s, (i + 1) as usize).last() == tags_at(s, i),
        tags_take(s, (i + 1) as usize).len() > 0,
{
    assert(s.take(i + 1).drop_last() =~= s.take(i as int));
}

/// Inserting a tag into a vector inserts its value into the values.
pub proof fn lemma_tags_insert(s: Seq<TeraTagView>, v: Seq<TeraTag>, j: usize, x: TeraTagView)
    requires
        j <= s.len(),
        v.len() == s.len() + 1,
        v[j as int]@ == x,
        forall|k: int| 0 <= k < j ==> v[k]@ == s[k],
        forall|k: int| j < k < v.len() ==> v[k]@ == s[k - 1],
    ensures
        tera_tags_view(v) == tags_insert(s, j, x),
{
    assert(tera_tags_view(v) =~= s.insert(j as int, x));
}

/// A post as its template sees it, with dates written out.
pub struct TeraPost {
    pub title: String,
    pub date_created: String,
    pub date_modified: Option<String>,
    pub tags: Vec<TeraTagBasic>,
    pub blurb: Option<String>,
    pub html: String,
    pub slug: String,
    pub toc: Vec<TocEntry>,
}

/// The value of a `TeraPost`.
pub struct TeraPostView {
    pub title: Seq<char>,
    pub date_created: Seq<char>,
    pub date_modified: Option<Seq<char>>,
    pub tags: Seq<TeraTagBasicView>,
    pub blurb: Option<Seq<char>>,
    pub html: Seq<char>,
    pub slug: Seq<char>,
    pub toc: Seq<TocEntryView>,
}

impl View for TeraPost {
    type V = TeraPostView;

    open spec fn view(&self) -> TeraPostView {
        TeraPostView {
            title: self.title@,
            date_created: self.date_created@,
            date_modified: opt_text(self.date_modified),
            tags: self.tags@.map_values(|t: TeraTagBasic| t@),
            blurb: opt_text(self.blurb),
            html: self.html@,
            slug: self.slug@,
            toc: toc_view(self.toc@),
        }
    }
}

/// The values of a sequence of template posts.
pub open spec fn tera_posts_view(v: Seq<TeraPost>) -> Seq<TeraPostView> {
    v.map_values(|p: TeraPost| p@)
}

/// What the template of a post page is given.
pub struct PostContext {
    pub post: TeraPost,
}

/// What the template of the post index is given.
pub struct PostIndexContext {
    pub posts: Vec<TeraPost>,
}

/// What the template of a tag's page is given: the tag and its posts.
pub struct TagPostsContext {
    pub tag: TeraTag,
    pub posts: Vec<TeraPost>,
}

/// What the template of the tag index is given.
pub struct TagIndexContext {
    pub tags: Vec<TeraTag>,
}

/// The values handed to one template.
pub enum TemplateContext {
    Post(PostContext),
    PostIndex(PostIndexContext),
    TagPosts(TagPostsContext),
    TagIndex(TagIndexContext),
}

/// The value of a `TemplateContext`.
pub enum TemplateContextView {
    Post(TeraPostView),
    PostIndex(Seq<TeraPostView>),
    TagPosts(TeraTagView, Seq<TeraPostView>),
    TagIndex(Seq<TeraTagView>),
}

impl View for TemplateContext {
    type V = TemplateContextView;

    open spec fn view(&self) -> TemplateContextView {
        match self {
            TemplateContext::Post(c) => TemplateContextView::Post(c.post@),
            TemplateContext::PostIndex(c) => TemplateContextView::PostIndex(tera_posts_view(c.posts@)),
            TemplateContext::TagPosts(c) => TemplateContextView::TagPosts(c.tag@, tera_posts_view(c.posts@)),
            TemplateContext::TagIndex(c) => TemplateContextView::TagIndex(tera_tags_view(c.tags@)),
        }
    }
}

/// A page to render from a template: where it goes, the directory whose other files are copied
/// beside it, the template's name, and what the template is given.
pub struct TemplateJob {
    pub path_relative: Vec<String>,
    pub path_assets: Option<Vec<String>>,
    pub template: String,
    pub context: TemplateContext,
}

/// A page of the site: either already written out, or to be rendered from a template.
pub enum Page {
    Ready(OutputFile),
    Template(TemplateJob),
}

/// The texts of the components of a path.
pub open spec fn path_view(v: Vec<String>) -> Seq<Seq<char>> {
    v@.map_values(|s: String| s@)
}

/// The texts of the components of an optional path.
pub open spec fn opt_path_view(v: Option<Vec<String>>) -> Option<Seq<Seq<char>>> {
    match v {
        Some(p) => Some(path_view(p)),
        None => None,
    }
}

/// The value of a page: where it goes, the directory copied beside it, and either its HTML or
/// its template and what the template is given.
pub struct PageView {
    pub path_relative: Seq<Seq<char>>,
    pub path_assets: Option<Seq<Seq<char>>>,
    pub body: PageBodyView,
}

/// What a page holds: HTML, or a template with what it is given.
pub enum PageBodyView {
    Html(Seq<char>),
    Template(Seq<char>, TemplateContextView),
}

impl View for Page {
    type V = PageView;

    open spec fn view(&self) -> PageView {
        match self {
            Page::Ready(f) => PageView {
                path_relative: path_view(f.path_relative),
                path_assets: opt_path_view(f.path_assets),
                body: PageBodyView::Html(f.html@),
            },
            Page::Template(j) => PageView {
                path_relative: path_view(j.path_relative),
                path_assets: opt_path_view(j.path_assets),
                body: PageBodyView::Template(j.template@, j.context@),
            },
        }
    }
}

} // verus!
