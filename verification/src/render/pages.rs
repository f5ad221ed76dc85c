//! The pages of the site and what each template is given.
use vstd::prelude::*;
use vstd::string::*;
use crate::date::{long_date_text, DateView};
use crate::index::{groups_view, tag_view};
use crate::markdown::opt_text;
use crate::render::context::{
    path_view, tera_posts_view, tera_tags_view, Page, PageBodyView, PageView, PostContext, PostIndexContext,
    TagIndexContext, TagPostsContext, TemplateContext, TemplateContextView, TeraPost, TeraPostView, TeraTag,
    TeraTagBasic, TeraTagBasicView, TeraTagView,
};
use crate::render::order::{make_tag_ordering, sort_tags, sort_tags_by};
use crate::render::tags::{
    category_pairs, describes_repeat, entries_view, law_tag_map_gives_listing_category, make_tag_map, pair_tags, tag_entry,
    tag_pairs, tags_unique, TagMap, TagMapError,
};
use crate::render::order::law_tag_index_keeps_every_tag;
use crate::types::{copy_opt_string, copy_toc, posts_view, OutputFile, Post, PostView, TagCategory, TagPosts};

verus! {

/// The colour of tag `t`'s category, if a category lists it.
pub open spec fn tag_color(tm: Seq<(Seq<char>, Seq<char>, Seq<char>)>, t: Seq<char>) -> Option<Seq<char>> {
    match tag_entry(tm, t) {
        Some(e) => Some(e.1),
        None => None,
    }
}

/// The name of tag `t`'s category, if a category lists it.
pub open spec fn tag_category(tm: Seq<(Seq<char>, Seq<char>, Seq<char>)>, t: Seq<char>) -> Option<Seq<char>> {
    match tag_entry(tm, t) {
        Some(e) => Some(e.0),
        None => None,
    }
}

/// A date written out for the templates.
pub open spec fn date_text(d: DateView) -> Seq<char> {
    long_date_text(d.year, d.month, d.day)
}

/// A post as its template sees it.
pub open spec fn tera_post_view(p: PostView, tm: Seq<(Seq<char>, Seq<char>, Seq<char>)>) -> TeraPostView {
    TeraPostView {
        title: p.meta.title,
        date_created: date_text(p.meta.date_created),
        date_modified: match p.meta.date_modified {
            Some(d) => Some(date_text(d)),
            None => None,
        },
        tags: p.meta.tags.map_values(|t: Seq<char>| TeraTagBasicView { name: t, color: tag_color(tm, t) }),
        blurb: p.meta.blurb,
        html: p.html,
        slug: p.slug,
        toc: p.toc,
    }
}

/// A tag with `count` posts as the tag templates see it.
pub open spec fn tera_tag_view(tm: Seq<(Seq<char>, Seq<char>, Seq<char>)>, name: Seq<char>, count: nat) -> TeraTagView {
    TeraTagView { name, count, color: tag_color(tm, name), category: tag_category(tm, name) }
}

/// The color of a tag, as an owned string.
fn color_of(tag_map: &TagMap, tag: &String) -> (r: Option<String>)
    ensures
        opt_text(r) == tag_color(entries_view(tag_map.entries@), tag@),
{
    match tag_map.get(tag) {
        Some((_, color)) => Some(color.clone()),
        None => None,
    }
}

/// The category of a tag, as an owned string.
fn category_of(tag_map: &TagMap, tag: &String) -> (r: Option<String>)
    ensures
        opt_text(r) == tag_category(entries_view(tag_map.entries@), tag@),
{
    match tag_map.get(tag) {
        Some((name, _)) => Some(name.clone()),
        None => None,
    }
}

/// A post as its template sees it: dates written out, and each tag with its category colour.
pub fn build_tera_post(post: &Post, tag_map: &TagMap) -> (r: TeraPost)
    ensures
        r@ == tera_post_view(post@, entries_view(tag_map.entries@)),
{
    let ghost tm = entries_view(tag_map.entries@);
    let mut tags: Vec<TeraTagBasic> = Vec::new();
    let mut i: usize = 0;
    while i < post.meta.tags.len()
        invariant
            tm == entries_view(tag_map.entries@),
            i <= post.meta.tags@.len(),
            tags@.map_values(|t: TeraTagBasic| t@) =~= post@.meta.tags.take(i as int).map_values(
                |t: Seq<char>| TeraTagBasicView { name: t, color: tag_color(tm, t) },
            ),
        decreases post.meta.tags.len() - i,
    {
        let t = &post.meta.tags[i];
        let ghost before = tags@;
        tags.push(TeraTagBasic { name: t.clone(), color: color_of(tag_map, t) });
        assert(tags@.map_values(|t: TeraTagBasic| t@) =~= before.map_values(|t: TeraTagBasic| t@).push(tags@.last()@));
        assert(post@.meta.tags.take(i + 1).drop_last() =~= post@.meta.tags.take(i as int));
        i = i + 1;
    }
    assert(post@.meta.tags.take(post.meta.tags@.len() as int) =~= post@.meta.tags);
    let date_modified = match &post.meta.date_modified {
        Some(d) => Some(d.long_format()),
        None => None,
    };
    TeraPost {
        title: post.meta.title.clone(),
        date_created: post.meta.date_created.long_format(),
        date_modified,
        tags,
        blurb: copy_opt_string(&post.meta.blurb),
        html: post.html.clone(),
        slug: post.slug.clone(),
        toc: copy_toc(&post.toc),
    }
}

/// Each of `posts` as its template sees it.
pub open spec fn tera_posts(ps: Seq<PostView>, tm: Seq<(Seq<char>, Seq<char>, Seq<char>)>) -> Seq<TeraPostView> {
    ps.map_values(|p: PostView| tera_post_view(p, tm))
}

/// Builds the template view of each of `posts`, in order.
fn build_tera_posts(posts: &[Post], tag_map: &TagMap) -> (r: Vec<TeraPost>)
    ensures
        tera_posts_view(r@) == tera_posts(posts_view(posts@), entries_view(tag_map.entries@)),
{
    let ghost tm = entries_view(tag_map.entries@);
    let mut out: Vec<TeraPost> = Vec::new();
    let mut i: usize = 0;
    while i < posts.len()
        invariant
            tm == entries_view(tag_map.entries@),
            i <= posts@.len(),
            tera_posts_view(out@) =~= tera_posts(posts_view(posts@).take(i as int), tm),
        decreases posts.len() - i,
    {
        let ghost before = out@;
        out.push(build_tera_post(&posts[i], tag_map));
        assert(tera_posts_view(out@) =~= tera_posts_view(before).push(out@.last()@));
        assert(posts_view(posts@).take(i + 1).drop_last() =~= posts_view(posts@).take(i as int));
        i = i + 1;
    }
    assert(posts_view(posts@).take(posts@.len() as int) =~= posts_view(posts@));
    out
}

/// What the template of a post page is given.
pub fn build_post_context(post: &Post, tag_map: &TagMap) -> (r: PostContext)
    ensures
        r.post@ == tera_post_view(post@, entries_view(tag_map.entries@)),
{
    PostContext { post: build_tera_post(post, tag_map) }
}

/// What the template of the post index is given.
pub fn build_post_index_context(posts: &[Post], tag_map: &TagMap) -> (r: PostIndexContext)
    ensures
        tera_posts_view(r.posts@) == tera_posts(posts_view(posts@), entries_view(tag_map.entries@)),
{
    PostIndexContext { posts: build_tera_posts(posts, tag_map) }
}

/// The page of post `p`, whose source directory lies under `src_dir`.
pub open spec fn post_page(p: PostView, tm: Seq<(Seq<char>, Seq<char>, Seq<char>)>, src_dir: Seq<char>) -> PageView {
    PageView {
        path_relative: seq!["posts"@, p.slug, "index.html"@],
        path_assets: Some(seq![src_dir, p.slug]),
        body: PageBodyView::Template("post.html"@, TemplateContextView::Post(tera_post_view(p, tm))),
    }
}

/// A list of three path components.
fn path3(a: String, b: String, c: String) -> (r: Vec<String>)
    ensures
        path_view(r) == seq![a@, b@, c@],
{
    let mut v: Vec<String> = Vec::new();
    v.push(a);
    v.push(b);
    v.push(c);
    assert(path_view(v) =~= seq![a@, b@, c@]);
    v
}

/// A list of two path components.
fn path2(a: String, b: String) -> (r: Vec<String>)
    ensures
        path_view(r) == seq![a@, b@],
{
    let mut v: Vec<String> = Vec::new();
    v.push(a);
    v.push(b);
    assert(path_view(v) =~= seq![a@, b@]);
    v
}

/// The page of a post: `posts/<slug>/index.html`, rendered with `post.html`, with the other
/// files of the post's source directory copied beside it.
pub fn render_post(post: &Post, tag_map: &TagMap, src_dir: &str) -> (r: Page)
    ensures
        r@ == post_page(post@, entries_view(tag_map.entries@), src_dir@),
{
    let ctx = build_post_context(post, tag_map);
    Page::Template(crate::render::context::TemplateJob {
        path_relative: path3("posts".to_owned(), post.slug.clone(), "index.html".to_owned()),
        path_assets: Some(path2(src_dir.to_owned(), post.slug.clone())),
        template: "post.html".to_owned(),
        context: TemplateContext::Post(ctx),
    })
}

/// The post index page.
pub open spec fn post_index_page(ps: Seq<PostView>, tm: Seq<(Seq<char>, Seq<char>, Seq<char>)>) -> PageView {
    PageView {
        path_relative: seq!["index.html"@],
        path_assets: None,
        body: PageBodyView::Template("post_index.html"@, TemplateContextView::PostIndex(tera_posts(ps, tm))),
    }
}

/// The site's front page, `index.html`, listing all posts with `post_index.html`.
pub fn render_post_index(posts: &[Post], tag_map: &TagMap) -> (r: Page)
    ensures
        r@ == post_index_page(posts_view(posts@), entries_view(tag_map.entries@)),
{
    let ctx = build_post_index_context(posts, tag_map);
    let mut path: Vec<String> = Vec::new();
    path.push("index.html".to_owned());
    assert(path_view(path) =~= seq!["index.html"@]);
    Page::Template(crate::render::context::TemplateJob {
        path_relative: path,
        path_assets: None,
        template: "post_index.html".to_owned(),
        context: TemplateContext::PostIndex(ctx),
    })
}

/// The HTML of the page that sends `posts/` back to the front page.
pub open spec fn redirect_html() -> Seq<char> {
    "<!DOCTYPE html>\n<html><head><meta http-equiv=\"refresh\" content=\"0; url=../\" /></head>\n<body><a href=\"../\">Redirecting…</a></body></html>"@
}

/// The page `posts/index.html`, which sends its reader to the front page.
pub fn render_posts_redirect() -> (r: OutputFile)
    ensures
        path_view(r.path_relative) == seq!["posts"@, "index.html"@],
        r.path_assets is None,
        r.html@ == redirect_html(),
{
    OutputFile {
        path_relative: path2("posts".to_owned(), "index.html".to_owned()),
        path_assets: None,
        html: "<!DOCTYPE html>\n<html><head><meta http-equiv=\"refresh\" content=\"0; url=../\" /></head>\n<body><a href=\"../\">Redirecting…</a></body></html>".to_owned(),
    }
}

/// The page of tag `t`, whose posts are `ps`.
pub open spec fn tag_page(t: Seq<char>, ps: Seq<PostView>, tm: Seq<(Seq<char>, Seq<char>, Seq<char>)>) -> PageView {
    PageView {
        path_relative: seq!["tags"@, t, "index.html"@],
        path_assets: None,
        body: PageBodyView::Template(
            "tag.html"@,
            TemplateContextView::TagPosts(tera_tag_view(tm, t, ps.len()), tera_posts(ps, tm)),
        ),
    }
}

/// The page of a tag, `tags/<tag>/index.html`, listing its posts with `tag.html`.
pub fn render_tag_posts(tag: &String, filtered_posts: &[Post], tag_map: &TagMap) -> (r: Page)
    ensures
        r@ == tag_page(tag@, posts_view(filtered_posts@), entries_view(tag_map.entries@)),
{
    let t = TeraTag {
        name: tag.clone(),
        count: filtered_posts.len(),
        color: color_of(tag_map, tag),
        category: category_of(tag_map, tag),
    };
    let ctx = TagPostsContext { tag: t, posts: build_tera_posts(filtered_posts, tag_map) };
    Page::Template(crate::render::context::TemplateJob {
        path_relative: path3("tags".to_owned(), tag.clone(), "index.html".to_owned()),
        path_assets: None,
        template: "tag.html".to_owned(),
        context: TemplateContext::TagPosts(ctx),
    })
}

/// The tags of `groups`, each with its number of posts, as the tag index shows them.
pub open spec fn tera_tags(groups: Seq<(Seq<char>, Seq<PostView>)>, tm: Seq<(Seq<char>, Seq<char>, Seq<char>)>) -> Seq<TeraTagView> {
    groups.map_values(|g: (Seq<char>, Seq<PostView>)| tera_tag_view(tm, g.0, g.1.len()))
}

/// The names of `cats`, in order.
pub open spec fn category_names(cats: Seq<TagCategory>) -> Seq<Seq<char>> {
    cats.map_values(|c: TagCategory| c.name@)
}

/// The tag index page for the tags `groups` and the categories `cats`.
pub open spec fn tag_index_page(groups: Seq<(Seq<char>, Seq<PostView>)>, cats: Seq<TagCategory>) -> PageView {
    PageView {
        path_relative: seq!["tags"@, "index.html"@],
        path_assets: None,
        body: PageBodyView::Template(
            "tag_index.html"@,
            TemplateContextView::TagIndex(sort_tags(category_names(cats), tera_tags(groups, tag_pairs(cats)))),
        ),
    }
}

/// The tag index, `tags/index.html`: every tag with its number of posts, ordered by category,
/// then most posts first, then by name, rendered with `tag_index.html`.
///
/// Fails where a tag is listed in two categories (or twice in one).
pub fn render_tag_index(tags: &Vec<TagPosts>, categories: &[TagCategory]) -> (r: Result<Page, TagMapError>)
    ensures
        tags_unique(categories@) ==> (r matches Ok(p) && p@ == tag_index_page(groups_view(tags@), categories@)),
        !tags_unique(categories@) ==> (r matches Err(e) && describes_repeat(categories@, e)),
{
    let tag_map = match make_tag_map(categories) {
        Ok(m) => m,
        Err(e) => {
            return Err(e);
        },
    };
    let ghost tm = entries_view(tag_map.entries@);
    let ghost groups = groups_view(tags@);
    let mut list: Vec<TeraTag> = Vec::new();
    let mut i: usize = 0;
    while i < tags.len()
        invariant
            tm == entries_view(tag_map.entries@),
            groups == groups_view(tags@),
            i <= tags@.len(),
            tera_tags_view(list@) =~= tera_tags(groups.take(i as int), tm),
        decreases tags.len() - i,
    {
        let g = &tags[i];
        assert(groups[i as int] == tag_view(*g));
        let ghost before = list@;
        list.push(TeraTag {
            name: g.tag.clone(),
            count: g.posts.len(),
            color: color_of(&tag_map, &g.tag),
            category: category_of(&tag_map, &g.tag),
        });
        assert(tera_tags_view(list@) =~= tera_tags_view(before).push(list@.last()@));
        assert(groups.take(i + 1).drop_last() =~= groups.take(i as int));
        i = i + 1;
    }
    assert(groups.take(tags@.len() as int) =~= groups);
    let ordering = make_tag_ordering(categories);
    let sorted = sort_tags_by(list, &ordering);
    Ok(Page::Template(crate::render::context::TemplateJob {
        path_relative: path2("tags".to_owned(), "index.html".to_owned()),
        path_assets: None,
        template: "tag_index.html".to_owned(),
        context: TemplateContext::TagIndex(TagIndexContext { tags: sorted }),
    }))
}

/// The pages of a site: the front page, the redirect at `posts/`, the tag index, one page per
/// post, and one page per tag, in that order.
pub open spec fn site_pages(
    posts: Seq<PostView>,
    groups: Seq<(Seq<char>, Seq<PostView>)>,
    cats: Seq<TagCategory>,
    input_dir: Seq<char>,
) -> Seq<PageView> {
    let tm = tag_pairs(cats);
    seq![
        post_index_page(posts, tm),
        PageView {
            path_relative: seq!["posts"@, "index.html"@],
            path_assets: None,
            body: PageBodyView::Html(redirect_html()),
        },
        tag_index_page(groups, cats),
    ] + posts.map_values(|p: PostView| post_page(p, tm, input_dir))
        + groups.map_values(|g: (Seq<char>, Seq<PostView>)| tag_page(g.0, g.1, tm))
}

/// The values of a sequence of pages.
pub open spec fn pages_view(v: Seq<Page>) -> Seq<PageView> {
    v.map_values(|p: Page| p@)
}

/// Plans every page of the site: the front page, the redirect at `posts/`, the tag index, one
/// page per post (with its source directory's other files), and one page per tag.
///
/// Fails where a tag is listed in two categories (or twice in one).
pub fn render(site: &crate::types::SiteIndex, categories: &[TagCategory], input_dir: &str) -> (r: Result<Vec<Page>, TagMapError>)
    ensures
        tags_unique(categories@) ==> (r matches Ok(pages) && pages_view(pages@)
            == site_pages(posts_view(site.posts@), groups_view(site.tags@), categories@, input_dir@)),
        !tags_unique(categories@) ==> (r matches Err(e) && describes_repeat(categories@, e)),
{
    let tag_map = match make_tag_map(categories) {
        Ok(m) => m,
        Err(e) => {
            return Err(e);
        },
    };
    let ghost tm = entries_view(tag_map.entries@);
    let ghost ps = posts_view(site.posts@);
    let ghost groups = groups_view(site.tags@);
    let mut out: Vec<Page> = Vec::new();
    out.push(render_post_index(site.posts.as_slice(), &tag_map));
    out.push(Page::Ready(render_posts_redirect()));
    let tag_index = match render_tag_index(&site.tags, categories) {
        Ok(p) => p,
        Err(e) => {
            return Err(e);
        },
    };
    out.push(tag_index);
    let ghost head = pages_view(out@);
    assert(head =~= seq![
        post_index_page(ps, tm),
        PageView {
            path_relative: seq!["posts"@, "index.html"@],
            path_assets: None,
            body: PageBodyView::Html(redirect_html()),
        },
        tag_index_page(groups, categories@),
    ]);
    let mut i: usize = 0;
    while i < site.posts.len()
        invariant
            tm == entries_view(tag_map.entries@),
            ps == posts_view(site.posts@),
            i <= site.posts@.len(),
            pages_view(out@) =~= head + ps.take(i as int).map_values(|p: PostView| post_page(p, tm, input_dir@)),
        decreases site.posts.len() - i,
    {
        let ghost before = out@;
        out.push(render_post(&site.posts[i], &tag_map, input_dir));
        assert(pages_view(out@) =~= pages_view(before).push(out@.last()@));
        assert(ps.take(i + 1).drop_last() =~= ps.take(i as int));
        i = i + 1;
    }
    assert(ps.take(site.posts@.len() as int) =~= ps);
    let ghost mid = pages_view(out@);
    let mut j: usize = 0;
    while j < site.tags.len()
        invariant
            tm == entries_view(tag_map.entries@),
            groups == groups_view(site.tags@),
            j <= site.tags@.len(),
            pages_view(out@) =~= mid + groups.take(j as int).map_values(
                |g: (Seq<char>, Seq<PostView>)| tag_page(g.0, g.1, tm),
            ),
        decreases site.tags.len() - j,
    {
        let g = &site.tags[j];
        assert(groups[j as int] == tag_view(*g));
        let ghost before = out@;
        out.push(render_tag_posts(&g.tag, g.posts.as_slice(), &tag_map));
        assert(pages_view(out@) =~= pages_view(before).push(out@.last()@));
        assert(groups.take(j + 1).drop_last() =~= groups.take(j as int));
        j = j + 1;
    }
    assert(groups.take(site.tags@.len() as int) =~= groups);
    Ok(out)
}

/// Whether some category of `cats` lists the tag `t`.
pub open spec fn listed(cats: Seq<TagCategory>, t: Seq<char>) -> bool {
    exists|ci: int, ti: int| 0 <= ci < cats.len() && 0 <= ti < cats[ci].tags@.len() && #[trigger] cats[ci].tags@[ti]@ == t
}

/// Whether a colour shown for tag `t` is that of the category of `cats` that lists it, and
/// none where no category lists it (the categories listing no tag twice).
pub open spec fn shows_colour(cats: Seq<TagCategory>, t: Seq<char>, color: Option<Seq<char>>) -> bool {
    &&& tags_unique(cats) ==> forall|ci: int, ti: int|
        0 <= ci < cats.len() && 0 <= ti < cats[ci].tags@.len() && #[trigger] cats[ci].tags@[ti]@ == t
            ==> color == Some(cats[ci].color@)
    &&& !listed(cats, t) ==> color is None
}

/// Whether a colour and a category shown for tag `t` are those of the category of `cats` that
/// lists it, and none where no category lists it (the categories listing no tag twice).
pub open spec fn shows_category(cats: Seq<TagCategory>, t: Seq<char>, color: Option<Seq<char>>, category: Option<Seq<char>>) -> bool {
    &&& shows_colour(cats, t, color)
    &&& tags_unique(cats) ==> forall|ci: int, ti: int|
        0 <= ci < cats.len() && 0 <= ti < cats[ci].tags@.len() && #[trigger] cats[ci].tags@[ti]@ == t
            ==> category == Some(cats[ci].name@)
    &&& !listed(cats, t) ==> category is None
}

/// Whether `tp` shows the post `p`: its title, dates, blurb, rendered body, slug, table of
/// contents, and its tags in order, each with the colour of the category that lists it.
pub open spec fn shows_post(tp: TeraPostView, p: PostView, cats: Seq<TagCategory>) -> bool {
    &&& tp.title == p.meta.title
    &&& tp.date_created == long_date_text(p.meta.date_created.year, p.meta.date_created.month, p.meta.date_created.day)
    &&& tp.date_modified == match p.meta.date_modified {
        Some(d) => Some(long_date_text(d.year, d.month, d.day)),
        None => None,
    }
    &&& tp.blurb == p.meta.blurb
    &&& tp.html == p.html
    &&& tp.slug == p.slug
    &&& tp.toc == p.toc
    &&& tp.tags.len() == p.meta.tags.len()
    &&& forall|k: int| 0 <= k < tp.tags.len() ==> #[trigger] tp.tags[k].name == p.meta.tags[k]
        && shows_colour(cats, p.meta.tags[k], tp.tags[k].color)
}

/// A tag that no category lists has no entry in the tag map.
proof fn lemma_unlisted_has_no_entry(cats: Seq<TagCategory>, t: Seq<char>)
    requires
        !listed(cats, t),
    ensures
        tag_entry(tag_pairs(cats), t) is None,
    decreases cats.len(),
{
    if cats.len() > 0 {
        let init = cats.drop_last();
        assert(!listed(init, t)) by {
            if listed(init, t) {
                let (ci, ti) = choose|ci: int, ti: int|
                    0 <= ci < init.len() && 0 <= ti < init[ci].tags@.len() && #[trigger] init[ci].tags@[ti]@ == t;
                assert(cats[ci] == init[ci]);
            }
        }
        lemma_unlisted_has_no_entry(init, t);
        let a = tag_pairs(init);
        let b = category_pairs(cats.last());
        assert(!pair_tags(a).contains(t));
        assert(!pair_tags(a + b).contains(t)) by {
            if pair_tags(a + b).contains(t) {
                let k = choose|k: int| 0 <= k < pair_tags(a + b).len() && pair_tags(a + b)[k] == t;
                if k < a.len() {
                    assert(pair_tags(a)[k] == t);
                } else {
                    let ti = k - a.len();
                    assert(b[ti].0 == cats.last().tags@[ti]@);
                    assert(cats[cats.len() - 1].tags@[ti]@ == t);
                }
            }
        }
    }
}

/// The colour and category the tag map gives a tag are those of the category that lists it.
proof fn lemma_tag_map_shows_category(cats: Seq<TagCategory>, t: Seq<char>)
    ensures
        shows_category(cats, t, tag_color(tag_pairs(cats), t), tag_category(tag_pairs(cats), t)),
{
    assert forall|ci: int, ti: int|
        tags_unique(cats) && 0 <= ci < cats.len() && 0 <= ti < cats[ci].tags@.len() && #[trigger] cats[ci].tags@[ti]@ == t
        implies tag_color(tag_pairs(cats), t) == Some(cats[ci].color@) && tag_category(tag_pairs(cats), t) == Some(cats[ci].name@) by {
        law_tag_map_gives_listing_category(cats, ci, ti);
    }
    if !listed(cats, t) {
        lemma_unlisted_has_no_entry(cats, t);
    }
}

/// What a post's template is given shows the post.
proof fn lemma_tera_post_shows_post(p: PostView, cats: Seq<TagCategory>)
    ensures
        shows_post(tera_post_view(p, tag_pairs(cats)), p, cats),
{
    let tp = tera_post_view(p, tag_pairs(cats));
    assert forall|k: int| 0 <= k < tp.tags.len() implies #[trigger] tp.tags[k].name == p.meta.tags[k]
        && shows_colour(cats, p.meta.tags[k], tp.tags[k].color) by {
        lemma_tag_map_shows_category(cats, p.meta.tags[k]);
    }
}

/// Each post's page gives its template the post itself: its title, dates, blurb, rendered body,
/// slug, table of contents and tags, each tag with the colour of the category that lists it;
/// and the front page lists every post, in order, shown the same way.
pub proof fn law_post_pages_show_the_post(
    posts: Seq<PostView>,
    groups: Seq<(Seq<char>, Seq<PostView>)>,
    cats: Seq<TagCategory>,
    input_dir: Seq<char>,
    i: int,
)
    requires
        0 <= i < posts.len(),
    ensures
        site_pages(posts, groups, cats, input_dir)[3 + i].body matches PageBodyView::Template(name, TemplateContextView::Post(tp))
            && name == "post.html"@ && shows_post(tp, posts[i], cats),
        site_pages(posts, groups, cats, input_dir)[0].body matches PageBodyView::Template(name, TemplateContextView::PostIndex(tps))
            && name == "post_index.html"@ && tps.len() == posts.len() && shows_post(tps[i], posts[i], cats),
{
    let pages = site_pages(posts, groups, cats, input_dir);
    let tm = tag_pairs(cats);
    assert(pages[3 + i] == post_page(posts[i], tm, input_dir));
    lemma_tera_post_shows_post(posts[i], cats);
}

/// Each tag's page shows the tag with its number of posts, and the colour and category of the
/// category that lists it (none where none does), as the tag index shows it; and it lists the
/// tag's posts in order, each shown as on its own page.
pub proof fn law_tag_pages_show_the_tag(
    posts: Seq<PostView>,
    groups: Seq<(Seq<char>, Seq<PostView>)>,
    cats: Seq<TagCategory>,
    input_dir: Seq<char>,
    g: int,
)
    requires
        0 <= g < groups.len(),
    ensures
        site_pages(posts, groups, cats, input_dir)[3 + posts.len() + g].body matches PageBodyView::Template(
            name,
            TemplateContextView::TagPosts(tag, tps),
        ) && name == "tag.html"@ && tag.name == groups[g].0 && tag.count == groups[g].1.len()
            && shows_category(cats, tag.name, tag.color, tag.category)
            && (site_pages(posts, groups, cats, input_dir)[2].body matches PageBodyView::Template(_, TemplateContextView::TagIndex(ts))
                && ts.contains(tag))
            && tps.len() == groups[g].1.len()
            && forall|k: int| 0 <= k < tps.len() ==> shows_post(#[trigger] tps[k], groups[g].1[k], cats),
{
    let pages = site_pages(posts, groups, cats, input_dir);
    let tm = tag_pairs(cats);
    let t = groups[g].0;
    assert(pages[3 + posts.len() + g] == tag_page(t, groups[g].1, tm));
    lemma_tag_map_shows_category(cats, t);
    let ts = tera_tags(groups, tm);
    let names = category_names(cats);
    law_tag_index_keeps_every_tag(names, ts);
    assert(ts[g] == tera_tag_view(tm, t, groups[g].1.len()));
    vstd::seq_lib::to_multiset_contains(ts, ts[g]);
    vstd::seq_lib::to_multiset_contains(sort_tags(names, ts), ts[g]);
    assert(ts.contains(ts[g]));
    assert(sort_tags(names, ts).contains(ts[g]));
    assert forall|k: int| 0 <= k < groups[g].1.len() implies shows_post(
        #[trigger] tera_posts(groups[g].1, tm)[k],
        groups[g].1[k],
        cats,
    ) by {
        lemma_tera_post_shows_post(groups[g].1[k], cats);
    }
}

} // verus!
