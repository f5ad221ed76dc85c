//! Reading a post source: frontmatter framing, special markdown cases, slugs, and assembling
//! a post from its parts.
use vstd::prelude::*;
use vstd::string::*;
use crate::markdown::{events_view, markdown_events, markdown_html, parse_markdown, render_html, MdEvent, MdEventView};
use crate::postprocessing::footnote_links::{self, footnote_result, FootnoteError};
use crate::postprocessing::toc::{self, attach_ids, normalized, toc_entries, toc_ids};
use crate::types::{toc_view, Frontmatter, FrontmatterView, Post, PostView, TocEntryView};
use crate::text::{chars_of, matches_at, occurs_at, same_text};

verus! {

/// The line that opens a frontmatter block: `---` and a newline.
pub open spec fn frontmatter_open() -> Seq<char> {
    seq!['-', '-', '-', '\n']
}

/// The line that closes a frontmatter block, with the newline before it.
pub open spec fn frontmatter_close() -> Seq<char> {
    seq!['\n', '-', '-', '-', '\n']
}

/// Whether `raw` starts with the frontmatter opening line.
pub open spec fn opens_frontmatter(raw: Seq<char>) -> bool {
    raw.len() >= 4 && raw.take(4) == frontmatter_open()
}

/// The first index at or after `i` where `pat` occurs in `s`.
pub open spec fn find_from(s: Seq<char>, pat: Seq<char>, i: int) -> Option<int>
    decreases s.len() - i,
{
    if i < 0 || i >= s.len() || i + pat.len() > s.len() {
        None
    } else if occurs_at(s, i, pat) {
        Some(i)
    } else {
        find_from(s, pat, i + 1)
    }
}

/// The frontmatter and the body of a post source: where the source starts with `---\n` and
/// later holds `\n---\n`, the text between the two and the text after the first closing line;
/// otherwise no frontmatter, and the whole source as the body.
pub open spec fn frontmatter_split(raw: Seq<char>) -> (Option<Seq<char>>, Seq<char>) {
    if opens_frontmatter(raw) {
        let rest = raw.skip(4);
        match find_from(rest, frontmatter_close(), 0) {
            Some(e) => (Some(rest.take(e)), rest.skip(e + 5)),
            None => (None, raw),
        }
    } else {
        (None, raw)
    }
}

/// Where the first match at or after `i` lies.
proof fn lemma_find_from(s: Seq<char>, pat: Seq<char>, i: int, k: int)
    requires
        0 <= i <= k,
        pat.len() > 0,
        occurs_at(s, k, pat),
        forall|j: int| i <= j < k ==> !occurs_at(s, j, pat),
    ensures
        find_from(s, pat, i) == Some(k),
    decreases k - i,
{
    if i < k {
        lemma_find_from(s, pat, i + 1, k);
    }
}

/// Splits a post source into its frontmatter and its body.
///
/// A source that starts with `---\n` and later holds `\n---\n` yields the text between the
/// two (the frontmatter) and the text after the first closing line (the body); any other
/// source yields no frontmatter and the whole source as the body.
pub fn split_frontmatter(raw: &str) -> (r: (Option<&str>, &str))
    ensures
        (opt_str(r.0), r.1@) == frontmatter_split(raw@),
{
    let cs = chars_of(raw);
    let open: Vec<char> = vec!['-', '-', '-', '\n'];
    let close: Vec<char> = vec!['\n', '-', '-', '-', '\n'];
    assert(open@ =~= frontmatter_open());
    assert(close@ =~= frontmatter_close());
    if !matches_at(&cs, 0, &open) {
        assert(!opens_frontmatter(raw@)) by {
            if raw@.len() >= 4 {
                assert(raw@.take(4) =~= raw@.subrange(0, 4));
            }
        }
        return (None, raw);
    }
    assert(raw@.take(4) =~= raw@.subrange(0, 4));
    let ghost rest = raw@.skip(4);
    let n = cs.len();
    let mut i: usize = 4;
    while i < n
        invariant
            cs@ == raw@,
            n == cs.len(),
            close@ == frontmatter_close(),
            rest == raw@.skip(4),
            opens_frontmatter(raw@),
            4 <= i <= n,
            find_from(rest, frontmatter_close(), 0) == find_from(rest, frontmatter_close(), i - 4),
        decreases n - i,
    {
        let hit = matches_at(&cs, i, &close);
        assert(hit == occurs_at(rest, i - 4, frontmatter_close())) by {
            if i + 5 <= n {
                assert(rest.subrange(i - 4, i - 4 + 5) =~= raw@.subrange(i as int, i + 5));
            }
        }
        if hit {
            let front = raw.substring_char(4, i);
            let body = raw.substring_char(i + 5, n);
            assert(front@ =~= rest.take(i - 4));
            assert(body@ =~= rest.skip(i - 4 + 5));
            return (Some(front), body);
        }
        i = i + 1;
    }
    assert(find_from(rest, frontmatter_close(), i - 4) is None);
    (None, raw)
}

/// A post source made of a frontmatter block and a body.
pub open spec fn with_frontmatter(front: Seq<char>, body: Seq<char>) -> Seq<char> {
    frontmatter_open() + front + frontmatter_close() + body
}

/// Splitting a source made of a frontmatter block and a body gives back the frontmatter and the
/// body, where the frontmatter holds no closing line of its own.
pub proof fn law_split_frontmatter_round_trip(front: Seq<char>, body: Seq<char>)
    requires
        forall|j: int| 0 <= j < front.len() ==> !occurs_at(front + frontmatter_close(), j, frontmatter_close()),
    ensures
        frontmatter_split(with_frontmatter(front, body)) == (Some(front), body),
{
    let raw = with_frontmatter(front, body);
    let fc = front + frontmatter_close();
    let rest = fc + body;
    assert(raw =~= frontmatter_open() + rest);
    assert(raw.take(4) =~= frontmatter_open());
    assert(raw.skip(4) =~= rest);
    let k = front.len() as int;
    assert(rest.subrange(k, k + 5) =~= frontmatter_close());
    assert forall|j: int| 0 <= j < k implies !occurs_at(rest, j, frontmatter_close()) by {
        lemma_prefix_occurs(fc, body, j, frontmatter_close());
    }
    lemma_find_from(rest, frontmatter_close(), 0, k);
    assert(rest.take(k) =~= front);
    assert(rest.skip(k + 5) =~= body);
}

/// A match that lies inside a prefix is a match in the whole.
proof fn lemma_prefix_occurs(a: Seq<char>, b: Seq<char>, j: int, pat: Seq<char>)
    requires
        0 <= j,
        j + pat.len() <= a.len(),
    ensures
        occurs_at(a + b, j, pat) == occurs_at(a, j, pat),
{
    assert((a + b).subrange(j, j + pat.len()) =~= a.subrange(j, j + pat.len()));
}

/// The HTML that stands for an inline math span whose source is `math`.
pub open spec fn inline_math_html(math: Seq<char>) -> Seq<char> {
    "<span class=\"math-inline\">"@ + math + "</span>"@
}

/// The HTML that stands for a display math block whose source is `math`.
pub open spec fn display_math_html(math: Seq<char>) -> Seq<char> {
    "<span class=\"math-display\">"@ + math + "</span>"@
}

/// What `process_special_cases` makes of an event.
pub open spec fn special_case(e: MdEventView) -> MdEventView {
    match e {
        MdEventView::InlineMath(m) => MdEventView::Html(inline_math_html(m)),
        MdEventView::DisplayMath(m) => MdEventView::Html(display_math_html(m)),
        other => other,
    }
}

/// Turns math into raw HTML spans that a client-side renderer picks up; every other event is
/// returned unchanged.
pub fn process_special_cases(event: MdEvent) -> (r: MdEvent)
    ensures
        r@ == special_case(event@),
{
    match event {
        MdEvent::InlineMath(math) => {
            let mut html = String::new();
            html.append("<span class=\"math-inline\">");
            html.append(math.as_str());
            html.append("</span>");
            MdEvent::Html(html)
        },
        MdEvent::DisplayMath(math) => {
            let mut html = String::new();
            html.append("<span class=\"math-display\">");
            html.append(math.as_str());
            html.append("</span>");
            MdEvent::Html(html)
        },
        other => other,
    }
}

/// The text of an optional string slice.
pub open spec fn opt_str(o: Option<&str>) -> Option<Seq<char>> {
    match o {
        Some(s) => Some(s@),
        None => None,
    }
}

/// What `std::path::Path::parent` gives for the path `p`.
pub uninterp spec fn path_parent(p: Seq<char>) -> Option<Seq<char>>;

/// What `std::path::Path::file_name` gives for the path `p`.
pub uninterp spec fn path_file_name(p: Seq<char>) -> Option<Seq<char>>;

/// What `std::path::Path::extension` gives for the path `p`.
pub uninterp spec fn path_extension(p: Seq<char>) -> Option<Seq<char>>;

/// `std::path::Path::parent`: the path without its final component, if there is one. Named
/// by `path_parent`, a function of the path alone; nothing more is claimed of it.
#[verifier::external_body]
fn parent_of(path: &str) -> (r: Option<&str>)
    ensures
        opt_str(r) == path_parent(path@),
{
    std::path::Path::new(path).parent()?.to_str()
}

/// `std::path::Path::file_name`: the final component of the path, if there is one. Named by
/// `path_file_name`, a function of the path alone; nothing more is claimed of it.
#[verifier::external_body]
fn file_name_of(path: &str) -> (r: Option<&str>)
    ensures
        opt_str(r) == path_file_name(path@),
{
    std::path::Path::new(path).file_name()?.to_str()
}

/// `std::path::Path::extension`: the extension of the final component, if it has one. Named
/// by `path_extension`, a function of the path alone; nothing more is claimed of it.
#[verifier::external_body]
fn extension_of(path: &str) -> (r: Option<&str>)
    ensures
        opt_str(r) == path_extension(path@),
{
    std::path::Path::new(path).extension()?.to_str()
}

/// Whether the file at `path` is a markdown source: its extension is `md`.
pub fn is_markdown_file(path: &str) -> (r: bool)
    ensures
        r == (path_extension(path@) == Some("md"@)),
{
    match extension_of(path) {
        Some(ext) => same_text(ext, "md"),
        None => false,
    }
}

/// Why the slug of a post cannot be found.
pub enum SlugError {
    /// The path of the post has no parent directory.
    NoParent,
    /// The parent directory of the post, whose path is given, has no name.
    InvalidFileName(String),
}

impl SlugError {
    /// The error message.
    pub fn message(&self) -> (r: String)
        ensures
            match self {
                SlugError::NoParent => r@ == "Could not parse path"@,
                SlugError::InvalidFileName(p) => r@ == "invalid filename: "@ + p@,
            },
    {
        match self {
            SlugError::NoParent => "Could not parse path".to_owned(),
            SlugError::InvalidFileName(p) => {
                let mut m = String::new();
                m.append("invalid filename: ");
                m.append(p.as_str());
                m
            },
        }
    }
}

/// The slug of the post at `path`: the name of its directory.
pub open spec fn slug_of_path(path: Seq<char>) -> Option<Seq<char>> {
    match path_parent(path) {
        Some(parent) => path_file_name(parent),
        None => None,
    }
}

/// The slug of the post whose source is at `path`: the name of the directory that holds it.
pub fn get_slug(path: &str) -> (r: Result<String, SlugError>)
    ensures
        match path_parent(path@) {
            None => r matches Err(SlugError::NoParent),
            Some(parent) => match path_file_name(parent) {
                Some(name) => r matches Ok(s) && s@ == name,
                None => r matches Err(SlugError::InvalidFileName(p)) && p@ == path@,
            },
        },
{
    let parent = match parent_of(path) {
        Some(parent) => parent,
        None => {
            return Err(SlugError::NoParent);
        },
    };
    match file_name_of(parent) {
        Some(name) => Ok(name.to_owned()),
        None => Err(SlugError::InvalidFileName(path.to_owned())),
    }
}

/// Why a post cannot be built.
pub enum ParseError {
    Footnote(FootnoteError),
    Slug(SlugError),
}

/// A post's events after the special cases.
pub open spec fn processed_events(evs: Seq<MdEventView>) -> Seq<MdEventView> {
    evs.map_values(|e: MdEventView| special_case(e))
}

/// The table of contents of a post whose parsed events are `evs`.
pub open spec fn events_toc(evs: Seq<MdEventView>) -> Seq<TocEntryView> {
    normalized(toc_entries(processed_events(evs)))
}

/// A post's events once headings carry their ids, before the footnote pass.
pub open spec fn events_with_ids(evs: Seq<MdEventView>) -> Seq<MdEventView> {
    attach_ids(processed_events(evs), toc_ids(events_toc(evs)))
}

/// The table of contents of a post body.
pub open spec fn body_toc(body: Seq<char>) -> Seq<TocEntryView> {
    events_toc(markdown_events(body))
}

/// The events of a post body once headings carry their ids, before the footnote pass.
pub open spec fn body_events_with_ids(body: Seq<char>) -> Seq<MdEventView> {
    events_with_ids(markdown_events(body))
}

/// Builds a post from its parsed frontmatter, the events of its markdown body and the path of
/// its source.
///
/// Math is turned into HTML spans, the headings get ids and a table of contents, footnotes are
/// linked and listed, the result is rendered, and the slug is taken from the path.
pub fn post_from_events(meta: Frontmatter, parsed: Vec<MdEvent>, path: &str) -> (r: Result<Post, ParseError>)
    ensures
        match footnote_result(events_with_ids(events_view(parsed@))) {
            Err(l) => r matches Err(ParseError::Footnote(FootnoteError::Undefined(e))) && e@ == l,
            Ok(evs) => match path_parent(path@) {
                None => r matches Err(ParseError::Slug(SlugError::NoParent)),
                Some(parent) => match path_file_name(parent) {
                    None => r matches Err(ParseError::Slug(SlugError::InvalidFileName(p))) && p@ == path@,
                    Some(slug) => r matches Ok(post) && post@ == (PostView {
                        meta: meta@,
                        html: markdown_html(evs),
                        slug,
                        toc: events_toc(events_view(parsed@)),
                    }),
                },
            },
        },
{
    let ghost raw = events_view(parsed@);
    let mut events: Vec<MdEvent> = Vec::new();
    let mut i: usize = 0;
    let n = parsed.len();
    for e in it: parsed.into_iter()
        invariant
            raw == events_view(it.seq()),
            it.seq().len() == n,
            i == it.index(),
            events_view(events@) =~= processed_events(raw.take(i as int)),
    {
        let ghost before = events@;
        events.push(process_special_cases(e));
        assert(events_view(events@) =~= events_view(before).push(events@.last()@));
        i = i + 1;
    }
    assert(raw.take(raw.len() as int) =~= raw);
    let (events, toc) = toc::apply(events);
    let events = match footnote_links::apply(events) {
        Ok(events) => events,
        Err(e) => {
            return Err(ParseError::Footnote(e));
        },
    };
    let html = render_html(events);
    let slug = match get_slug(path) {
        Ok(slug) => slug,
        Err(e) => {
            return Err(ParseError::Slug(e));
        },
    };
    Ok(Post { meta, html, slug, toc })
}

/// Builds a post from its parsed frontmatter, its markdown body and the path of its source.
///
/// A draft gives no post. Otherwise the body is parsed into events, from which
/// `post_from_events` builds the post.
pub fn parse_one(meta: Frontmatter, body: &str, path: &str) -> (r: Result<Option<Post>, ParseError>)
    ensures
        meta.draft ==> r matches Ok(None),
        !meta.draft ==> match footnote_result(body_events_with_ids(body@)) {
            Err(l) => r matches Err(ParseError::Footnote(FootnoteError::Undefined(e))) && e@ == l,
            Ok(evs) => match path_parent(path@) {
                None => r matches Err(ParseError::Slug(SlugError::NoParent)),
                Some(parent) => match path_file_name(parent) {
                    None => r matches Err(ParseError::Slug(SlugError::InvalidFileName(p))) && p@ == path@,
                    Some(slug) => r matches Ok(Some(post)) && post@ == (PostView {
                        meta: meta@,
                        html: markdown_html(evs),
                        slug,
                        toc: body_toc(body@),
                    }),
                },
            },
        },
{
    if meta.draft {
        return Ok(None);
    }
    let parsed = parse_markdown(body);
    match post_from_events(meta, parsed, path) {
        Ok(post) => Ok(Some(post)),
        Err(e) => Err(e),
    }
}

} // verus!
