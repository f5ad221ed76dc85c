use blog_generator::date::Date;
use blog_generator::markdown::{Heading, Level, MdEvent};
use blog_generator::parse::{parse_one, post_from_events, ParseError};
use blog_generator::postprocessing::footnote_links::{self, render_footnotes_html, FootnoteError};
use blog_generator::postprocessing::toc::{self, normalize_levels};
use blog_generator::types::{Frontmatter, TocEntry};

fn heading(level: Level) -> MdEvent {
    MdEvent::StartHeading(Heading { level, id: None, classes: vec![], attrs: vec![] })
}

fn entry(level: u8, text: &str, id: &str) -> TocEntry {
    TocEntry { level, text: text.to_string(), id: id.to_string() }
}

fn meta(draft: bool) -> Frontmatter {
    Frontmatter {
        title: "A post".to_string(),
        date_created: Date::from_ymd(2025, 1, 15).unwrap(),
        date_modified: None,
        tags: vec!["rust".to_string()],
        blurb: None,
        draft,
    }
}

#[test]
fn parsed_headings_get_ids_and_render() {
    let post = match parse_one(meta(false), "# Hi\n\nplain *text* and `code`\n", "input/p/post.md") {
        Ok(Some(post)) => post,
        _ => panic!("expected a post"),
    };
    assert_eq!(post.html, "<h1 id=\"hi\">Hi</h1>\n<p>plain <em>text</em> and <code>code</code></p>\n");
    assert_eq!(post.toc.len(), 1);
    assert_eq!((post.toc[0].level, post.toc[0].text.as_str(), post.toc[0].id.as_str()), (0, "Hi", "hi"));
}

#[test]
fn parsed_display_math_becomes_a_span() {
    let post = match parse_one(meta(false), "$$a+b$$\n", "input/p/post.md") {
        Ok(Some(post)) => post,
        _ => panic!("expected a post"),
    };
    assert_eq!(post.html, "<p><span class=\"math-display\">a+b</span></p>\n");
}

#[test]
fn toc_collects_headings_and_sets_ids() {
    let events = vec![
        heading(Level::H2),
        MdEvent::Text("Intro ".to_string()),
        MdEvent::Code("main".to_string()),
        MdEvent::EndHeading(Level::H2),
        MdEvent::Text("outside".to_string()),
        heading(Level::H3),
        MdEvent::Text("Details".to_string()),
        MdEvent::EndHeading(Level::H3),
    ];
    let (out, entries) = toc::apply(events);
    assert_eq!(entries.len(), 2);
    assert_eq!((entries[0].level, entries[0].text.as_str(), entries[0].id.as_str()), (0, "Intro <code>main</code>", "intro-main"));
    assert_eq!((entries[1].level, entries[1].text.as_str(), entries[1].id.as_str()), (1, "Details", "details"));
    assert_eq!(out.len(), 8);
    assert!(matches!(&out[0], MdEvent::StartHeading(h) if h.id.as_deref() == Some("intro-main")));
    assert!(matches!(&out[5], MdEvent::StartHeading(h) if h.id.as_deref() == Some("details")));
    assert!(matches!(&out[4], MdEvent::Text(t) if t == "outside"));
}

#[test]
fn toc_heading_without_entry_gets_no_id() {
    let events = vec![heading(Level::H1), MdEvent::Text("open".to_string())];
    let (out, entries) = toc::apply(events);
    assert!(entries.is_empty());
    assert!(matches!(&out[0], MdEvent::StartHeading(h) if h.id.is_none()));
}

#[test]
fn normalize_levels_ranks_distinct_levels() {
    let toc = vec![entry(2, "a", "a"), entry(3, "b", "b"), entry(2, "c", "c"), entry(5, "d", "d")];
    let out = normalize_levels(&toc);
    let levels: Vec<u8> = out.iter().map(|e| e.level).collect();
    assert_eq!(levels, vec![0, 1, 0, 2]);
    assert_eq!(out[3].text, "d");
    assert_eq!(out[3].id, "d");
    assert!(normalize_levels(&[]).is_empty());
}

#[test]
fn footnotes_are_numbered_by_first_reference() {
    let events = vec![
        MdEvent::Text("a".to_string()),
        MdEvent::FootnoteReference("second".to_string()),
        MdEvent::FootnoteReference("first".to_string()),
        MdEvent::FootnoteReference("second".to_string()),
        MdEvent::StartFootnoteDefinition("first".to_string()),
        MdEvent::Text("one".to_string()),
        MdEvent::EndFootnoteDefinition,
        MdEvent::StartFootnoteDefinition("second".to_string()),
        MdEvent::Text("two".to_string()),
        MdEvent::EndFootnoteDefinition,
    ];
    let out = match footnote_links::apply(events) {
        Ok(out) => out,
        Err(_) => panic!("expected success"),
    };
    assert_eq!(out.len(), 5);
    assert!(matches!(&out[0], MdEvent::Text(t) if t == "a"));
    assert!(matches!(&out[1], MdEvent::Html(h) if h == "<sup><a id=\"fnref-second\" href=\"#fn-second\">1</a></sup>"));
    assert!(matches!(&out[2], MdEvent::Html(h) if h == "<sup><a id=\"fnref-first\" href=\"#fn-first\">2</a></sup>"));
    assert!(matches!(&out[3], MdEvent::Html(h) if h == "<sup><a id=\"fnref-second\" href=\"#fn-second\">1</a></sup>"));
    let expected = "<section class=\"footnotes\">\n<h2 id=\"footnote-label\">Footnotes</h2>\n<ol>\n\
        <li id=\"fn-second\">two<a href=\"#fnref-second\" aria-label=\"Back to content\">↩</a></li>\n\
        <li id=\"fn-first\">one<a href=\"#fnref-first\" aria-label=\"Back to content\">↩</a></li>\n\
        </ol>\n</section>";
    assert!(matches!(&out[4], MdEvent::Html(h) if h == expected));
}

#[test]
fn footnotes_without_references_leave_events() {
    let events = vec![
        MdEvent::Text("a".to_string()),
        MdEvent::StartFootnoteDefinition("x".to_string()),
        MdEvent::Text("unused".to_string()),
        MdEvent::EndFootnoteDefinition,
        MdEvent::Text("b".to_string()),
    ];
    let out = match footnote_links::apply(events) {
        Ok(out) => out,
        Err(_) => panic!("expected success"),
    };
    assert_eq!(out.len(), 2);
    assert!(matches!(&out[1], MdEvent::Text(t) if t == "b"));
}

#[test]
fn undefined_footnote_is_an_error() {
    let events = vec![MdEvent::FootnoteReference("missing".to_string())];
    match footnote_links::apply(events) {
        Err(e) => {
            assert!(matches!(&e, FootnoteError::Undefined(l) if l == "missing"));
            assert_eq!(e.message(), "footnote [^missing] referenced but never defined");
        }
        Ok(_) => panic!("expected an error"),
    }
}

#[test]
fn later_footnote_definition_wins() {
    let refs = vec!["n".to_string()];
    let defs = vec![("n".to_string(), "old".to_string()), ("n".to_string(), "new".to_string())];
    match render_footnotes_html(&refs, &defs) {
        Ok(html) => assert!(html.contains("<li id=\"fn-n\">new<a")),
        Err(_) => panic!("expected success"),
    }
    let missing = vec!["n".to_string(), "m".to_string(), "k".to_string()];
    match render_footnotes_html(&missing, &defs) {
        Err(FootnoteError::Undefined(l)) => assert_eq!(l, "m"),
        Ok(_) => panic!("expected an error"),
    }
}

#[test]
fn parse_one_builds_a_post() {
    let body = "## Start\n\nText with $m$ and a note[^a].\n\n[^a]: The note.\n\n### Deeper\n";
    let post = match parse_one(meta(false), body, "input/my-post/post.md") {
        Ok(Some(post)) => post,
        _ => panic!("expected a post"),
    };
    assert_eq!(post.slug, "my-post");
    assert_eq!(post.toc.len(), 2);
    assert_eq!((post.toc[0].level, post.toc[0].id.as_str()), (0, "start"));
    assert_eq!((post.toc[1].level, post.toc[1].id.as_str()), (1, "deeper"));
    assert!(post.html.starts_with("<h2 id=\"start\">Start</h2>\n<p>Text with <span class=\"math-inline\">m</span> and a note<sup><a id=\"fnref-a\" href=\"#fn-a\">1</a></sup>.</p>\n"));
    assert!(post.html.contains("<h3 id=\"deeper\">Deeper</h3>"));
    assert!(post.html.contains("<li id=\"fn-a\"><p>The note.</p>\n<a href=\"#fnref-a\""));
    assert!(post.html.ends_with("</ol>\n</section>"));
}

#[test]
fn post_from_events_builds_from_given_events() {
    let events = vec![
        heading(Level::H3),
        MdEvent::Text("Title".to_string()),
        MdEvent::EndHeading(Level::H3),
        MdEvent::InlineMath("x^2".to_string()),
    ];
    let post = match post_from_events(meta(false), events, "input/given/post.md") {
        Ok(post) => post,
        _ => panic!("expected a post"),
    };
    assert_eq!(post.slug, "given");
    assert_eq!(post.toc.len(), 1);
    assert_eq!((post.toc[0].level, post.toc[0].text.as_str(), post.toc[0].id.as_str()), (0, "Title", "title"));
    assert_eq!(post.html, "<h3 id=\"title\">Title</h3>\n<span class=\"math-inline\">x^2</span>");
}

#[test]
fn post_from_events_reports_undefined_footnotes() {
    let events = vec![MdEvent::Text("see".to_string()), MdEvent::FootnoteReference("gone".to_string())];
    match post_from_events(meta(false), events, "input/p/post.md") {
        Err(ParseError::Footnote(FootnoteError::Undefined(l))) => assert_eq!(l, "gone"),
        _ => panic!("expected a footnote error"),
    }
}

#[test]
fn parse_one_skips_drafts() {
    assert!(matches!(parse_one(meta(true), "# x", "input/p/post.md"), Ok(None)));
}

#[test]
fn parse_one_reports_undefined_footnotes() {
    match parse_one(meta(false), "see[^nope]\n", "input/p/post.md") {
        Err(ParseError::Footnote(FootnoteError::Undefined(l))) => assert_eq!(l, "nope"),
        _ => panic!("expected a footnote error"),
    }
}

#[test]
fn parse_one_reports_slug_errors() {
    assert!(matches!(parse_one(meta(false), "text\n", "post.md"), Err(ParseError::Slug(_))));
}

#[test]
fn normalizing_twice_is_normalizing_once() {
    let toc = vec![entry(6, "a", "a"), entry(2, "b", "b"), entry(4, "c", "c"), entry(2, "d", "d")];
    let once = normalize_levels(&toc);
    let twice = normalize_levels(&once);
    let l1: Vec<(u8, String, String)> = once.iter().map(|e| (e.level, e.text.clone(), e.id.clone())).collect();
    let l2: Vec<(u8, String, String)> = twice.iter().map(|e| (e.level, e.text.clone(), e.id.clone())).collect();
    assert_eq!(l1, l2);
    assert_eq!(l1.iter().map(|e| e.0).collect::<Vec<u8>>(), vec![2, 0, 1, 0]);
}
