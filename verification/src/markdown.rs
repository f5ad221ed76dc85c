//! Markdown events as the post-processing passes see them, and the markdown parser and HTML
//! renderer that produce and consume them.
use vstd::prelude::*;
use pulldown_cmark::{Event, HeadingLevel, Options, Parser, Tag, TagEnd};

verus! {

/// Declares the parser's event type: an event that the passes do not inspect is carried
/// through unchanged inside `MdEvent::Other`.
#[verifier::external_type_specification]
#[verifier::external_body]
pub struct ExParserEvent<'a>(Event<'a>);

/// Declares the parser's heading level type, read and written only by the conversions below.
#[verifier::external_type_specification]
#[verifier::external_body]
pub struct ExParserHeadingLevel(HeadingLevel);

/// Declares the parser's element-opening type, read and written only by the conversions below.
#[verifier::external_type_specification]
#[verifier::external_body]
pub struct ExParserTag<'a>(Tag<'a>);

/// Declares the parser's element-end type, read and written only by the conversions below.
#[verifier::external_type_specification]
#[verifier::external_body]
pub struct ExParserTagEnd(TagEnd);

/// A heading level, `H1` being the outermost.
#[derive(Clone, Copy, Debug, PartialEq, Eq, Structural)]
pub enum Level {
    H1,
    H2,
    H3,
    H4,
    H5,
    H6,
}

impl Level {
    /// The level as a number from 1 (`H1`) to 6 (`H6`).
    pub open spec fn number(self) -> u8 {
        match self {
            Level::H1 => 1,
            Level::H2 => 2,
            Level::H3 => 3,
            Level::H4 => 4,
            Level::H5 => 5,
            Level::H6 => 6,
        }
    }

    /// The level as a number from 1 (`H1`) to 6 (`H6`).
    pub fn to_number(&self) -> (r: u8)
        ensures
            r == self.number(),
    {
        match self {
            Level::H1 => 1,
            Level::H2 => 2,
            Level::H3 => 3,
            Level::H4 => 4,
            Level::H5 => 5,
            Level::H6 => 6,
        }
    }
}

/// The text of an optional string.
pub open spec fn opt_text(o: Option<String>) -> Option<Seq<char>> {
    match o {
        Some(s) => Some(s@),
        None => None,
    }
}

/// The texts of a sequence of strings.
pub open spec fn texts(v: Seq<String>) -> Seq<Seq<char>> {
    v.map_values(|s: String| s@)
}

/// The texts of a sequence of heading attributes.
pub open spec fn attr_texts(v: Seq<(String, Option<String>)>) -> Seq<(Seq<char>, Option<Seq<char>>)> {
    v.map_values(|a: (String, Option<String>)| (a.0@, opt_text(a.1)))
}

/// The opening of a heading: its level, its anchor id, its classes and its other attributes.
pub struct Heading {
    pub level: Level,
    pub id: Option<String>,
    pub classes: Vec<String>,
    pub attrs: Vec<(String, Option<String>)>,
}

/// The value of a `Heading`.
pub struct HeadingView {
    pub level: Level,
    pub id: Option<Seq<char>>,
    pub classes: Seq<Seq<char>>,
    pub attrs: Seq<(Seq<char>, Option<Seq<char>>)>,
}

impl View for Heading {
    type V = HeadingView;

    open spec fn view(&self) -> HeadingView {
        HeadingView {
            level: self.level,
            id: opt_text(self.id),
            classes: texts(self.classes@),
            attrs: attr_texts(self.attrs@),
        }
    }
}

/// A markdown event: the kinds that the passes read or write are held as plain values, any
/// other event is carried as the parser gave it.
pub enum MdEvent {
    StartHeading(Heading),
    EndHeading(Level),
    StartFootnoteDefinition(String),
    EndFootnoteDefinition,
    Text(String),
    Code(String),
    InlineMath(String),
    DisplayMath(String),
    Html(String),
    FootnoteReference(String),
    Other(Event<'static>),
}

/// The value of an `MdEvent`.
pub enum MdEventView {
    StartHeading(HeadingView),
    EndHeading(Level),
    StartFootnoteDefinition(Seq<char>),
    EndFootnoteDefinition,
    Text(Seq<char>),
    Code(Seq<char>),
    InlineMath(Seq<char>),
    DisplayMath(Seq<char>),
    Html(Seq<char>),
    FootnoteReference(Seq<char>),
    Other(Event<'static>),
}

impl View for MdEvent {
    type V = MdEventView;

    open spec fn view(&self) -> MdEventView {
        match self {
            MdEvent::StartHeading(h) => MdEventView::StartHeading(h@),
            MdEvent::EndHeading(l) => MdEventView::EndHeading(*l),
            MdEvent::StartFootnoteDefinition(s) => MdEventView::StartFootnoteDefinition(s@),
            MdEvent::EndFootnoteDefinition => MdEventView::EndFootnoteDefinition,
            MdEvent::Text(s) => MdEventView::Text(s@),
            MdEvent::Code(s) => MdEventView::Code(s@),
            MdEvent::InlineMath(s) => MdEventView::InlineMath(s@),
            MdEvent::DisplayMath(s) => MdEventView::DisplayMath(s@),
            MdEvent::Html(s) => MdEventView::Html(s@),
            MdEvent::FootnoteReference(s) => MdEventView::FootnoteReference(s@),
            MdEvent::Other(e) => MdEventView::Other(*e),
        }
    }
}

/// The values of a sequence of events.
pub open spec fn events_view(v: Seq<MdEvent>) -> Seq<MdEventView> {
    v.map_values(|e: MdEvent| e@)
}

impl From<HeadingLevel> for Level {
    /// Reads a parser heading level: one arm per level.
    #[verifier::external_body]
    fn from(l: HeadingLevel) -> Level {
        match l {
            HeadingLevel::H1 => Level::H1,
            HeadingLevel::H2 => Level::H2,
            HeadingLevel::H3 => Level::H3,
            HeadingLevel::H4 => Level::H4,
            HeadingLevel::H5 => Level::H5,
            HeadingLevel::H6 => Level::H6,
        }
    }
}

impl From<Level> for HeadingLevel {
    /// Gives back the parser heading level: one arm per level.
    #[verifier::external_body]
    fn from(l: Level) -> HeadingLevel {
        match l {
            Level::H1 => HeadingLevel::H1,
            Level::H2 => HeadingLevel::H2,
            Level::H3 => HeadingLevel::H3,
            Level::H4 => HeadingLevel::H4,
            Level::H5 => HeadingLevel::H5,
            Level::H6 => HeadingLevel::H6,
        }
    }
}

impl From<Event<'_>> for MdEvent {
    /// Reads a parser event: one arm per kind that the passes read, moving its text into an
    /// owned string; every other event is kept whole.
    #[verifier::external_body]
    fn from(e: Event<'_>) -> MdEvent {
        match e {
            Event::Start(t) => start_event(t),
            Event::End(t) => end_event(t),
            Event::Text(s) => MdEvent::Text(s.to_string()),
            Event::Code(s) => MdEvent::Code(s.to_string()),
            Event::InlineMath(s) => MdEvent::InlineMath(s.to_string()),
            Event::DisplayMath(s) => MdEvent::DisplayMath(s.to_string()),
            Event::Html(s) => MdEvent::Html(s.to_string()),
            Event::FootnoteReference(s) => MdEvent::FootnoteReference(s.to_string()),
            other => MdEvent::Other(other.into_static()),
        }
    }
}

/// Reads the opening of a parser element: a heading or a footnote definition, whose fields are
/// moved into owned values; any other opening is kept whole.
#[verifier::external_body]
fn start_event(t: Tag<'_>) -> MdEvent {
    match t {
        Tag::Heading { level, id, classes, attrs } => MdEvent::StartHeading(Heading {
            level: level.into(),
            id: id.map(|s| s.to_string()),
            classes: classes.into_iter().map(|s| s.to_string()).collect(),
            attrs: attrs.into_iter().map(|(k, v)| (k.to_string(), v.map(|s| s.to_string()))).collect(),
        }),
        Tag::FootnoteDefinition(l) => MdEvent::StartFootnoteDefinition(l.to_string()),
        other => MdEvent::Other(Event::Start(other.into_static())),
    }
}

/// Reads the end of a parser element: a heading or a footnote definition; any other end is
/// kept whole.
#[verifier::external_body]
fn end_event(t: TagEnd) -> MdEvent {
    match t {
        TagEnd::Heading(level) => MdEvent::EndHeading(level.into()),
        TagEnd::FootnoteDefinition => MdEvent::EndFootnoteDefinition,
        other => MdEvent::Other(Event::End(other)),
    }
}

impl From<MdEvent> for Event<'static> {
    /// Gives back the parser event: one arm per kind, moving the owned strings back.
    #[verifier::external_body]
    fn from(e: MdEvent) -> Event<'static> {
        match e {
            MdEvent::StartHeading(h) => Event::Start(heading_tag(h)),
            MdEvent::EndHeading(level) => Event::End(TagEnd::Heading(level.into())),
            MdEvent::StartFootnoteDefinition(l) => Event::Start(Tag::FootnoteDefinition(l.into())),
            MdEvent::EndFootnoteDefinition => Event::End(TagEnd::FootnoteDefinition),
            MdEvent::Text(s) => Event::Text(s.into()),
            MdEvent::Code(s) => Event::Code(s.into()),
            MdEvent::InlineMath(s) => Event::InlineMath(s.into()),
            MdEvent::DisplayMath(s) => Event::DisplayMath(s.into()),
            MdEvent::Html(s) => Event::Html(s.into()),
            MdEvent::FootnoteReference(s) => Event::FootnoteReference(s.into()),
            MdEvent::Other(other) => other,
        }
    }
}

/// Gives back the parser's heading opening, moving the owned strings back.
#[verifier::external_body]
fn heading_tag(h: Heading) -> Tag<'static> {
    Tag::Heading {
        level: h.level.into(),
        id: h.id.map(|s| s.into()),
        classes: h.classes.into_iter().map(|s| s.into()).collect(),
        attrs: h.attrs.into_iter().map(|(k, v)| (k.into(), v.map(|s| s.into()))).collect(),
    }
}

/// The events that the markdown parser, with every extension switched on, gives for `text`.
pub uninterp spec fn markdown_events(text: Seq<char>) -> Seq<MdEventView>;

/// The HTML that the markdown renderer writes for `events`.
pub uninterp spec fn markdown_html(events: Seq<MdEventView>) -> Seq<char>;

/// `pulldown_cmark::Parser::new_ext` with `Options::all()`: parses `text` into events. The
/// events are named by `markdown_events`, a function of the text alone; nothing more is
/// claimed of them.
#[verifier::external_body]
pub(crate) fn parse_markdown(text: &str) -> (r: Vec<MdEvent>)
    ensures
        events_view(r@) == markdown_events(text@),
{
    Parser::new_ext(text, Options::all()).map(MdEvent::from).collect()
}

/// `pulldown_cmark::html::push_html` into an empty string: renders `events` to HTML. The
/// result is named by `markdown_html`, a function of the events alone; nothing more is
/// claimed of it.
#[verifier::external_body]
pub(crate) fn render_html(events: Vec<MdEvent>) -> (r: String)
    ensures
        r@ == markdown_html(events_view(events@)),
{
    let mut html = String::new();
    pulldown_cmark::html::push_html(&mut html, events.into_iter().map(Event::from));
    html
}

} // verus!
