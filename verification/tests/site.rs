use blog_generator::date::Date;
use blog_generator::index::index;
use blog_generator::render::context::{Page, TeraTag, TemplateContext};
use blog_generator::render::order::{compare_text, make_tag_ordering, sort_tags_by};
use blog_generator::render::pages::{build_tera_post, render, render_posts_redirect, render_tag_index};
use blog_generator::render::tags::make_tag_map;
use blog_generator::types::{Frontmatter, Post, TagCategory, TocEntry};
use std::cmp::Ordering;

fn post(title: &str, slug: &str, ymd: (i32, u32, u32), tags: &[&str]) -> Post {
    Post {
        meta: Frontmatter {
            title: title.to_string(),
            date_created: Date::from_ymd(ymd.0, ymd.1, ymd.2).unwrap(),
            date_modified: None,
            tags: tags.iter().map(|t| t.to_string()).collect(),
            blurb: None,
            draft: false,
        },
        html: format!("<p>{title}</p>"),
        slug: slug.to_string(),
        toc: vec![],
    }
}

fn category(name: &str, color: &str, tags: &[&str]) -> TagCategory {
    TagCategory { name: name.to_string(), color: color.to_string(), tags: tags.iter().map(|t| t.to_string()).collect() }
}

fn tag(name: &str, count: usize, category: Option<&str>) -> TeraTag {
    TeraTag { name: name.to_string(), count, color: None, category: category.map(|c| c.to_string()) }
}

fn titles(posts: &[Post]) -> Vec<String> {
    posts.iter().map(|p| p.meta.title.clone()).collect()
}

#[test]
fn index_orders_posts_by_date_keeping_ties() {
    let posts = vec![
        post("c", "c", (2025, 3, 1), &["rust"]),
        post("a", "a", (2024, 1, 1), &["life", "rust"]),
        post("b1", "b1", (2024, 6, 1), &[]),
        post("b2", "b2", (2024, 6, 1), &["life"]),
    ];
    let site = index(posts);
    assert_eq!(titles(&site.posts), vec!["a", "b1", "b2", "c"]);
    assert_eq!(site.tags.len(), 2);
    assert_eq!(site.tags[0].tag, "life");
    assert_eq!(titles(&site.tags[0].posts), vec!["a", "b2"]);
    assert_eq!(site.tags[1].tag, "rust");
    assert_eq!(titles(&site.tags[1].posts), vec!["a", "c"]);
}

#[test]
fn index_lists_a_post_once_per_listing_of_a_tag() {
    let site = index(vec![post("a", "a", (2024, 1, 1), &["x", "x"])]);
    assert_eq!(site.tags.len(), 1);
    assert_eq!(site.tags[0].posts.len(), 2);
}

#[test]
fn index_of_no_posts_is_empty() {
    let site = index(vec![]);
    assert!(site.posts.is_empty());
    assert!(site.tags.is_empty());
}

#[test]
fn tag_map_maps_tags_to_categories() {
    let cats = vec![category("Tech", "blue", &["rust", "verus"]), category("Life", "green", &["food"])];
    let map = match make_tag_map(&cats) {
        Ok(m) => m,
        Err(_) => panic!("expected a map"),
    };
    assert_eq!(map.get(&"verus".to_string()), Some((&"Tech".to_string(), &"blue".to_string())));
    assert_eq!(map.get(&"food".to_string()), Some((&"Life".to_string(), &"green".to_string())));
    assert_eq!(map.get(&"none".to_string()), None);
}

#[test]
fn tag_map_rejects_a_tag_in_two_categories() {
    let cats = vec![category("Tech", "blue", &["rust"]), category("Life", "green", &["food", "rust"])];
    match make_tag_map(&cats) {
        Err(e) => {
            assert_eq!(e.tag, "rust");
            assert_eq!(e.first, "Tech");
            assert_eq!(e.second, "Life");
        }
        Ok(_) => panic!("expected an error"),
    }
}

#[test]
fn tag_map_rejects_a_tag_twice_in_one_category() {
    let cats = vec![category("Tech", "blue", &["rust", "rust"])];
    match make_tag_map(&cats) {
        Err(e) => assert_eq!((e.tag.as_str(), e.first.as_str(), e.second.as_str()), ("rust", "Tech", "Tech")),
        Ok(_) => panic!("expected an error"),
    }
}

#[test]
fn text_order_is_lexicographic() {
    assert_eq!(compare_text("abc", "abd"), Ordering::Less);
    assert_eq!(compare_text("ab", "abc"), Ordering::Less);
    assert_eq!(compare_text("b", "abc"), Ordering::Greater);
    assert_eq!(compare_text("same", "same"), Ordering::Equal);
    assert_eq!(compare_text("Z", "a"), Ordering::Less);
    assert_eq!(compare_text("é", "z"), "é".cmp("z"));
}

#[test]
fn tags_order_by_category_then_count_then_name() {
    let cats = vec![category("Tech", "blue", &[]), category("Life", "green", &[]), category("Tech", "red", &[])];
    let ordering = make_tag_ordering(&cats);
    let sorted = sort_tags_by(
        vec![
            tag("zeta", 1, None),
            tag("food", 3, Some("Life")),
            tag("alpha", 1, None),
            tag("rust", 2, Some("Tech")),
            tag("verus", 5, Some("Tech")),
            tag("coffee", 3, Some("Life")),
        ],
        &ordering,
    );
    let names: Vec<&str> = sorted.iter().map(|t| t.name.as_str()).collect();
    assert_eq!(names, vec!["coffee", "food", "verus", "rust", "alpha", "zeta"]);
    assert_eq!(ordering.compare(&tag("a", 1, Some("Life")), &tag("b", 1, Some("Tech"))), Ordering::Less);
    assert_eq!(ordering.compare(&tag("a", 1, Some("Other")), &tag("b", 1, None)), Ordering::Less);
}

#[test]
fn tera_post_writes_dates_and_tag_colors() {
    let cats = vec![category("Tech", "blue", &["rust"])];
    let map = make_tag_map(&cats).ok().unwrap();
    let mut p = post("T", "t", (2025, 1, 5), &["rust", "misc"]);
    p.meta.date_modified = Date::from_ymd(2025, 2, 1);
    p.toc = vec![TocEntry { level: 0, text: "H".to_string(), id: "h".to_string() }];
    let tp = build_tera_post(&p, &map);
    assert_eq!(tp.title, "T");
    assert_eq!(tp.date_created, "January 5, 2025");
    assert_eq!(tp.date_modified.as_deref(), Some("February 1, 2025"));
    assert_eq!(tp.tags.len(), 2);
    assert_eq!((tp.tags[0].name.as_str(), tp.tags[0].color.as_deref()), ("rust", Some("blue")));
    assert_eq!((tp.tags[1].name.as_str(), tp.tags[1].color.as_deref()), ("misc", None));
    assert_eq!(tp.toc[0].id, "h");
    assert_eq!(tp.slug, "t");
}

#[test]
fn posts_redirect_points_to_front_page() {
    let f = render_posts_redirect();
    assert_eq!(f.path_relative, vec!["posts".to_string(), "index.html".to_string()]);
    assert!(f.path_assets.is_none());
    assert_eq!(
        f.html,
        "<!DOCTYPE html>\n<html><head><meta http-equiv=\"refresh\" content=\"0; url=../\" /></head>\n<body><a href=\"../\">Redirecting…</a></body></html>"
    );
}

#[test]
fn tag_index_is_sorted() {
    let site = index(vec![
        post("a", "a", (2024, 1, 1), &["misc", "rust"]),
        post("b", "b", (2024, 2, 1), &["rust"]),
    ]);
    let cats = vec![category("Tech", "blue", &["rust"])];
    match render_tag_index(&site.tags, &cats) {
        Ok(Page::Template(job)) => {
            assert_eq!(job.template, "tag_index.html");
            assert_eq!(job.path_relative, vec!["tags".to_string(), "index.html".to_string()]);
            match job.context {
                TemplateContext::TagIndex(ctx) => {
                    let names: Vec<&str> = ctx.tags.iter().map(|t| t.name.as_str()).collect();
                    assert_eq!(names, vec!["rust", "misc"]);
                    assert_eq!(ctx.tags[0].count, 2);
                    assert_eq!(ctx.tags[0].color.as_deref(), Some("blue"));
                    assert_eq!(ctx.tags[0].category.as_deref(), Some("Tech"));
                    assert_eq!(ctx.tags[1].category, None);
                }
                _ => panic!("expected the tag index"),
            }
        }
        _ => panic!("expected a template page"),
    }
}

#[test]
fn render_plans_every_page() {
    let site = index(vec![post("a", "first", (2024, 1, 1), &["rust"]), post("b", "second", (2024, 2, 1), &[])]);
    let cats = vec![category("Tech", "blue", &["rust"])];
    let pages = match render(&site, &cats, "input") {
        Ok(p) => p,
        Err(_) => panic!("expected pages"),
    };
    assert_eq!(pages.len(), 6);
    let paths: Vec<Vec<String>> = pages
        .iter()
        .map(|p| match p {
            Page::Ready(f) => f.path_relative.clone(),
            Page::Template(j) => j.path_relative.clone(),
        })
        .collect();
    let expect: Vec<Vec<&str>> = vec![
        vec!["index.html"],
        vec!["posts", "index.html"],
        vec!["tags", "index.html"],
        vec!["posts", "first", "index.html"],
        vec!["posts", "second", "index.html"],
        vec!["tags", "rust", "index.html"],
    ];
    let expect: Vec<Vec<String>> = expect.iter().map(|v| v.iter().map(|s| s.to_string()).collect()).collect();
    assert_eq!(paths, expect);
    match &pages[3] {
        Page::Template(j) => {
            assert_eq!(j.template, "post.html");
            assert_eq!(j.path_assets, Some(vec!["input".to_string(), "first".to_string()]));
        }
        _ => panic!("expected a template page"),
    }
    match &pages[5] {
        Page::Template(j) => match &j.context {
            TemplateContext::TagPosts(ctx) => {
                assert_eq!(ctx.tag.name, "rust");
                assert_eq!(ctx.tag.count, 1);
                assert_eq!(ctx.posts[0].slug, "first");
            }
            _ => panic!("expected a tag page"),
        },
        _ => panic!("expected a template page"),
    }
}

#[test]
fn render_rejects_repeated_tags() {
    let site = index(vec![]);
    let cats = vec![category("A", "x", &["t"]), category("B", "y", &["t"])];
    match render(&site, &cats, "input") {
        Err(e) => assert_eq!((e.tag.as_str(), e.first.as_str(), e.second.as_str()), ("t", "A", "B")),
        Ok(_) => panic!("expected an error"),
    }
}

#[test]
fn tag_map_error_message_quotes_the_names() {
    let cats = vec![category("lang", "red", &["rust"]), category("topic", "blue", &["rust"])];
    match make_tag_map(&cats) {
        Err(e) => assert_eq!(e.message(), "tag \"rust\" appears in both \"lang\" and \"topic\""),
        Ok(_) => panic!("expected an error"),
    }
    let e = blog_generator::render::tags::TagMapError {
        tag: "a\"b".to_string(),
        first: "x\\y".to_string(),
        second: "line\n".to_string(),
    };
    assert_eq!(e.message(), "tag \"a\\\"b\" appears in both \"x\\\\y\" and \"line\\n\"");
}

#[test]
fn tag_order_is_antisymmetric_and_equal_only_for_same_tags() {
    let cats = vec![category("Tech", "blue", &[])];
    let ordering = make_tag_ordering(&cats);
    let a = tag("rust", 2, Some("Tech"));
    let b = tag("verus", 2, Some("Tech"));
    let c = tag("zeta", 9, None);
    assert_eq!(ordering.compare(&a, &b), Ordering::Less);
    assert_eq!(ordering.compare(&b, &a), Ordering::Greater);
    assert_eq!(ordering.compare(&a, &tag("rust", 2, Some("Tech"))), Ordering::Equal);
    assert_eq!(ordering.compare(&b, &c), Ordering::Less);
    assert_eq!(ordering.compare(&a, &c), Ordering::Less);
}
