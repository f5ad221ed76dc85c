use blog_generator::parse::{get_slug, is_markdown_file, process_special_cases, split_frontmatter, SlugError};
use blog_generator::markdown::MdEvent;
use blog_generator::utils::slugify;

#[test]
fn split_frontmatter_separates_block_and_body() {
    let raw = "---\ntitle: Hello\ntags: []\n---\n# Body\n";
    let (front, body) = split_frontmatter(raw);
    assert_eq!(front, Some("title: Hello\ntags: []"));
    assert_eq!(body, "# Body\n");
}

#[test]
fn split_frontmatter_without_opening_line() {
    let raw = "title: Hello\n---\nbody";
    assert_eq!(split_frontmatter(raw), (None, raw));
}

#[test]
fn split_frontmatter_without_closing_line() {
    let raw = "---\ntitle: Hello\nbody";
    assert_eq!(split_frontmatter(raw), (None, raw));
}

#[test]
fn split_frontmatter_uses_first_closing_line() {
    let raw = "---\na: 1\n---\nfirst\n---\nsecond";
    assert_eq!(split_frontmatter(raw), (Some("a: 1"), "first\n---\nsecond"));
}

#[test]
fn split_frontmatter_empty_block() {
    let raw = "---\n\n---\nbody";
    assert_eq!(split_frontmatter(raw), (Some(""), "body"));
}

#[test]
fn split_frontmatter_non_ascii() {
    let raw = "---\ntitle: Café ☕\n---\nnaïve body";
    assert_eq!(split_frontmatter(raw), (Some("title: Café ☕"), "naïve body"));
}

#[test]
fn split_frontmatter_empty_source() {
    assert_eq!(split_frontmatter(""), (None, ""));
}

#[test]
fn special_cases_turn_math_into_spans() {
    match process_special_cases(MdEvent::InlineMath("x^2".to_string())) {
        MdEvent::Html(h) => assert_eq!(h, "<span class=\"math-inline\">x^2</span>"),
        _ => panic!("expected html"),
    }
    match process_special_cases(MdEvent::DisplayMath("\\sum".to_string())) {
        MdEvent::Html(h) => assert_eq!(h, "<span class=\"math-display\">\\sum</span>"),
        _ => panic!("expected html"),
    }
    match process_special_cases(MdEvent::Text("plain".to_string())) {
        MdEvent::Text(t) => assert_eq!(t, "plain"),
        _ => panic!("expected text"),
    }
}

#[test]
fn slugify_makes_anchor_ids() {
    assert_eq!(slugify("Hello, World!"), "hello-world");
    assert_eq!(slugify("  Rust 2024  "), "rust-2024");
    assert_eq!(slugify("--A--b--"), "a-b");
    assert_eq!(slugify("Über"), "ber");
    assert_eq!(slugify("!!!"), "");
}

#[test]
fn slug_is_the_post_directory() {
    match get_slug("input/first-post/post.md") {
        Ok(s) => assert_eq!(s, "first-post"),
        Err(_) => panic!("expected a slug"),
    }
}

#[test]
fn slug_of_bare_file_has_no_name() {
    match get_slug("post.md") {
        Err(SlugError::InvalidFileName(p)) => assert_eq!(p, "post.md"),
        _ => panic!("expected an invalid file name"),
    }
}

#[test]
fn slug_of_root_has_no_parent() {
    match get_slug("/") {
        Err(e) => {
            assert!(matches!(e, SlugError::NoParent));
            assert_eq!(e.message(), "Could not parse path");
        }
        Ok(_) => panic!("expected an error"),
    }
}

#[test]
fn slug_error_message_names_the_path() {
    assert_eq!(SlugError::InvalidFileName("x.md".to_string()).message(), "invalid filename: x.md");
}

#[test]
fn markdown_files_are_found_by_extension() {
    assert!(is_markdown_file("input/a/post.md"));
    assert!(is_markdown_file("post.md"));
    assert!(!is_markdown_file("input/a/.md"));
    assert!(!is_markdown_file("input/a/post.MD"));
    assert!(!is_markdown_file("input/a/image.png"));
    assert!(!is_markdown_file("input/a"));
}
