//! Footnotes: numbered links at each reference, and a list of the definitions at the end.
use vstd::prelude::*;
use vstd::string::*;
use crate::markdown::{events_view, markdown_html, opt_text, render_html, texts, MdEvent, MdEventView};
use crate::text::{decimal, distinct_in_order, first_index, lemma_first_index, push_decimal};

verus! {

/// A footnote that cannot be rendered.
pub enum FootnoteError {
    /// A footnote is referenced but never defined.
    Undefined(String),
}

/// The text of an error message naming the undefined footnote `label`.
pub open spec fn undefined_message(label: Seq<char>) -> Seq<char> {
    "footnote [^"@ + label + "] referenced but never defined"@
}

impl FootnoteError {
    /// The error message.
    pub fn message(&self) -> (r: String)
        ensures
            match self {
                FootnoteError::Undefined(label) => r@ == undefined_message(label@),
            },
    {
        match self {
            FootnoteError::Undefined(label) => {
                let mut m = String::new();
                m.append("footnote [^");
                m.append(label.as_str());
                m.append("] referenced but never defined");
                m
            },
        }
    }
}

/// The rendered footnote definitions, label to HTML; a later definition of a label wins.
pub open spec fn defs_map(defs: Seq<(String, String)>) -> Map<Seq<char>, Seq<char>>
    decreases defs.len(),
{
    if defs.len() == 0 {
        Map::empty()
    } else {
        defs_map(defs.drop_last()).insert(defs.last().0@, defs.last().1@)
    }
}

/// The superscript link that stands at a reference to footnote `label`, numbered `n`.
pub open spec fn reference_html(label: Seq<char>, n: nat) -> Seq<char> {
    "<sup><a id=\"fnref-"@ + label + "\" href=\"#fn-"@ + label + "\">"@ + decimal(n) + "</a></sup>"@
}

/// What the footnote pass has seen so far: the events kept, the labels in order of first
/// reference, the rendered definitions, the label of the definition being read, and the events
/// read inside it.
pub struct FootnoteScan {
    pub out: Seq<MdEventView>,
    pub refs: Seq<Seq<char>>,
    pub defs: Map<Seq<char>, Seq<char>>,
    pub label: Option<Seq<char>>,
    pub inner: Seq<MdEventView>,
}

/// The scan before any event.
pub open spec fn footnote_start() -> FootnoteScan {
    FootnoteScan { out: seq![], refs: seq![], defs: Map::empty(), label: None, inner: seq![] }
}

/// The scan after one more event. A reference becomes its numbered link, wherever it stands;
/// a definition is rendered on its own and left out; any other event inside a definition
/// belongs to it, and outside is kept.
pub open spec fn footnote_step(st: FootnoteScan, e: MdEventView) -> FootnoteScan {
    match e {
        MdEventView::FootnoteReference(l) => {
            let refs = if st.refs.contains(l) { st.refs } else { st.refs.push(l) };
            FootnoteScan {
                out: st.out.push(MdEventView::Html(reference_html(l, (first_index(refs, l) + 1) as nat))),
                refs,
                ..st
            }
        },
        MdEventView::StartFootnoteDefinition(l) => FootnoteScan { label: Some(l), ..st },
        MdEventView::EndFootnoteDefinition => match st.label {
            Some(l) => FootnoteScan {
                defs: st.defs.insert(l, markdown_html(st.inner)),
                label: None,
                inner: seq![],
                ..st
            },
            None => st,
        },
        other => if st.label is Some {
            FootnoteScan { inner: st.inner.push(other), ..st }
        } else {
            FootnoteScan { out: st.out.push(other), ..st }
        },
    }
}

/// The scan after the events `evs`.
pub open spec fn footnote_scan(evs: Seq<MdEventView>) -> FootnoteScan
    decreases evs.len(),
{
    if evs.len() == 0 {
        footnote_start()
    } else {
        footnote_step(footnote_scan(evs.drop_last()), evs.last())
    }
}

/// The first of `refs` that `defs` does not define.
pub open spec fn first_undefined(refs: Seq<Seq<char>>, defs: Map<Seq<char>, Seq<char>>) -> Option<Seq<char>>
    decreases refs.len(),
{
    if refs.len() == 0 {
        None
    } else if !defs.contains_key(refs[0]) {
        Some(refs[0])
    } else {
        first_undefined(refs.drop_first(), defs)
    }
}

/// The list item of footnote `label` with definition `body`.
pub open spec fn footnote_item(label: Seq<char>, body: Seq<char>) -> Seq<char> {
    "<li id=\"fn-"@ + label + "\">"@ + body + "<a href=\"#fnref-"@ + label
        + "\" aria-label=\"Back to content\">↩</a></li>\n"@
}

/// The list items of the footnotes `refs`, in order.
pub open spec fn footnote_items(refs: Seq<Seq<char>>, defs: Map<Seq<char>, Seq<char>>) -> Seq<char>
    decreases refs.len(),
{
    if refs.len() == 0 {
        seq![]
    } else {
        footnote_items(refs.drop_last(), defs) + footnote_item(refs.last(), defs[refs.last()])
    }
}

/// The footnotes section listing `refs`, in order.
pub open spec fn footnotes_section(refs: Seq<Seq<char>>, defs: Map<Seq<char>, Seq<char>>) -> Seq<char> {
    "<section class=\"footnotes\">\n<h2 id=\"footnote-label\">Footnotes</h2>\n<ol>\n"@
        + footnote_items(refs, defs) + "</ol>\n</section>"@
}

/// Entries after index `j` that do not carry `key` leave its definition as it was.
proof fn lemma_defs_map_skip(defs: Seq<(String, String)>, j: int, key: Seq<char>)
    requires
        0 <= j <= defs.len(),
        forall|k: int| j <= k < defs.len() ==> defs[k].0@ != key,
    ensures
        defs_map(defs).contains_key(key) == defs_map(defs.take(j)).contains_key(key),
        defs_map(defs).contains_key(key) ==> defs_map(defs)[key] == defs_map(defs.take(j))[key],
    decreases defs.len(),
{
    if defs.len() == j {
        assert(defs.take(j) =~= defs);
    } else {
        assert(defs.drop_last().take(j) =~= defs.take(j));
        lemma_defs_map_skip(defs.drop_last(), j, key);
    }
}

/// Looks up the rendered definition of `label`: the index of its last entry.
fn find_definition(defs: &Vec<(String, String)>, label: &String) -> (r: Option<usize>)
    ensures
        match r {
            Some(j) => {
                &&& j < defs@.len()
                &&& defs_map(defs@).contains_key(label@)
                &&& defs_map(defs@)[label@] == defs@[j as int].1@
            },
            None => !defs_map(defs@).contains_key(label@),
        },
{
    let mut j: usize = defs.len();
    while j > 0
        invariant
            j <= defs@.len(),
            forall|k: int| j <= k < defs@.len() ==> defs@[k].0@ != label@,
        decreases j,
    {
        if defs[j - 1].0 == *label {
            proof {
                lemma_defs_map_skip(defs@, j as int, label@);
                assert(defs@.take(j as int).drop_last() =~= defs@.take(j - 1));
            }
            return Some(j - 1);
        }
        j = j - 1;
    }
    proof {
        lemma_defs_map_skip(defs@, 0, label@);
        assert(defs@.take(0) =~= Seq::<(String, String)>::empty());
    }
    None
}

/// Renders the footnotes section: one list item per referenced footnote, in the order of the
/// references, each linking back to where it was referenced.
///
/// Fails, naming the first such label, where a referenced footnote is never defined.
pub fn render_footnotes_html(references: &Vec<String>, definitions: &Vec<(String, String)>) -> (r: Result<String, FootnoteError>)
    ensures
        match first_undefined(texts(references@), defs_map(definitions@)) {
            Some(l) => r matches Err(FootnoteError::Undefined(e)) && e@ == l,
            None => r matches Ok(html) && html@ == footnotes_section(texts(references@), defs_map(definitions@)),
        },
{
    let ghost refs = texts(references@);
    let ghost defs = defs_map(definitions@);
    let mut i: usize = 0;
    assert(refs.skip(0) =~= refs);
    while i < references.len()
        invariant
            refs == texts(references@),
            defs == defs_map(definitions@),
            i <= references.len(),
            first_undefined(refs, defs) == first_undefined(refs.skip(i as int), defs),
        decreases references.len() - i,
    {
        assert(refs.skip(i as int).drop_first() =~= refs.skip(i + 1));
        if find_definition(definitions, &references[i]).is_none() {
            return Err(FootnoteError::Undefined(references[i].clone()));
        }
        i = i + 1;
    }
    assert(refs.skip(references.len() as int) =~= Seq::<Seq<char>>::empty());
    let mut html = String::new();
    html.append("<section class=\"footnotes\">\n<h2 id=\"footnote-label\">Footnotes</h2>\n<ol>\n");
    let ghost head = html@;
    let mut k: usize = 0;
    while k < references.len()
        invariant
            refs == texts(references@),
            defs == defs_map(definitions@),
            first_undefined(refs, defs) is None,
            k <= references.len(),
            html@ == head + footnote_items(refs.take(k as int), defs),
        decreases references.len() - k,
    {
        let label = &references[k];
        proof {
            lemma_no_undefined(refs, defs, k as int);
        }
        let found = find_definition(definitions, label);
        let j = found.unwrap();
        let body = &definitions[j].1;
        let ghost before = html@;
        html.append("<li id=\"fn-");
        html.append(label.as_str());
        html.append("\">");
        html.append(body.as_str());
        html.append("<a href=\"#fnref-");
        html.append(label.as_str());
        html.append("\" aria-label=\"Back to content\">↩</a></li>\n");
        assert(refs.take(k + 1).drop_last() =~= refs.take(k as int));
        assert(html@ =~= before + footnote_item(label@, defs[label@]));
        k = k + 1;
    }
    assert(refs.take(references.len() as int) =~= refs);
    html.append("</ol>\n</section>");
    Ok(html)
}

/// Where no footnote is undefined, each one is defined.
proof fn lemma_no_undefined(refs: Seq<Seq<char>>, defs: Map<Seq<char>, Seq<char>>, k: int)
    requires
        first_undefined(refs, defs) is None,
        0 <= k < refs.len(),
    ensures
        defs.contains_key(refs[k]),
    decreases k,
{
    if k > 0 {
        lemma_no_undefined(refs.drop_first(), defs, k - 1);
    }
}

/// Where `label` first stands among the referenced labels, if it does.
fn position(refs: &Vec<String>, label: &String) -> (r: Option<usize>)
    ensures
        match r {
            Some(j) => j < refs@.len() && first_index(texts(refs@), label@) == j && refs@[j as int]@ == label@,
            None => !texts(refs@).contains(label@),
        },
{
    let ghost ts = texts(refs@);
    let mut j: usize = 0;
    while j < refs.len()
        invariant
            ts == texts(refs@),
            j <= refs.len(),
            forall|k: int| 0 <= k < j ==> ts[k] != label@,
        decreases refs.len() - j,
    {
        if refs[j] == *label {
            proof {
                lemma_first_index(ts, label@, j as int);
            }
            return Some(j);
        }
        j = j + 1;
    }
    None
}

/// The events of `evs` after the footnote pass, or the first undefined footnote.
pub open spec fn footnote_result(evs: Seq<MdEventView>) -> Result<Seq<MdEventView>, Seq<char>> {
    let st = footnote_scan(evs);
    if st.refs.len() == 0 {
        Ok(st.out)
    } else {
        match first_undefined(st.refs, st.defs) {
            Some(l) => Err(l),
            None => Ok(st.out.push(MdEventView::Html(footnotes_section(st.refs, st.defs)))),
        }
    }
}

/// Turns each footnote reference into a numbered link to its note, and moves the footnote
/// definitions into a section at the end, in the order in which the notes are first referenced.
///
/// Fails where a referenced footnote is never defined.
pub fn apply(events: Vec<MdEvent>) -> (r: Result<Vec<MdEvent>, FootnoteError>)
    ensures
        match footnote_result(events_view(events@)) {
            Ok(out) => r matches Ok(v) && events_view(v@) == out,
            Err(l) => r matches Err(FootnoteError::Undefined(e)) && e@ == l,
        },
{
    let ghost evs = events_view(events@);
    let mut out: Vec<MdEvent> = Vec::new();
    let mut refs: Vec<String> = Vec::new();
    let mut defs: Vec<(String, String)> = Vec::new();
    let mut label: Option<String> = None;
    let mut inner: Vec<MdEvent> = Vec::new();
    let mut i: usize = 0;
    let n = events.len();
    assert(evs.take(0) =~= Seq::<MdEventView>::empty());
    assert(events_view(out@) =~= Seq::<MdEventView>::empty());
    assert(texts(refs@) =~= Seq::<Seq<char>>::empty());
    assert(events_view(inner@) =~= Seq::<MdEventView>::empty());
    for e in it: events.into_iter()
        invariant
            evs == events_view(it.seq()),
            it.seq().len() == n,
            i == it.index(),
            refs@.len() <= i,
            footnote_scan(evs.take(i as int)) == (FootnoteScan {
                out: events_view(out@),
                refs: texts(refs@),
                defs: defs_map(defs@),
                label: opt_text(label),
                inner: events_view(inner@),
            }),
    {
        assert(evs.take(i + 1).drop_last() =~= evs.take(i as int));
        let ghost ev = e@;
        assert(ev == evs[i as int]);
        let ghost out0 = out@;
        let ghost refs0 = refs@;
        let ghost inner0 = inner@;
        let ghost defs0 = defs@;
        match e {
            MdEvent::FootnoteReference(l) => {
                let n: usize = match position(&refs, &l) {
                    Some(j) => {
                        proof {
                            let ts = texts(refs@);
                            assert(ts[j as int] == l@);
                            assert(ts.contains(l@));
                        }
                        j + 1
                    },
                    None => {
                        refs.push(l.clone());
                        proof {
                            let ts = texts(refs@);
                            assert(ts =~= texts(refs0).push(l@));
                            lemma_first_index(ts, l@, refs0.len() as int);
                        }
                        refs.len()
                    },
                };
                let mut html = String::new();
                html.append("<sup><a id=\"fnref-");
                html.append(l.as_str());
                html.append("\" href=\"#fn-");
                html.append(l.as_str());
                html.append("\">");
                push_decimal(&mut html, n as u64);
                html.append("</a></sup>");
                assert(html@ =~= reference_html(l@, n as nat));
                assert(1 <= n <= refs@.len());
                assert(texts(refs@)[n - 1] == l@);
                assert(texts(refs@).contains(l@));
                assert(n == first_index(texts(refs@), l@) + 1);
                out.push(MdEvent::Html(html));
                assert(events_view(out@) =~= events_view(out0).push(out@.last()@));
            },
            MdEvent::StartFootnoteDefinition(l) => {
                label = Some(l);
            },
            MdEvent::EndFootnoteDefinition => {
                match label {
                    Some(l) => {
                        let body = render_html(inner);
                        inner = Vec::new();
                        defs.push((l, body));
                        assert(defs@.drop_last() =~= defs0);
                        assert(defs_map(defs@) == defs_map(defs0).insert(l@, markdown_html(events_view(inner0))));
                        assert(events_view(inner@) =~= Seq::<MdEventView>::empty());
                        label = None;
                    },
                    None => {
                        label = None;
                    },
                }
            },
            other => {
                if label.is_some() {
                    inner.push(other);
                    assert(events_view(inner@) =~= events_view(inner0).push(inner@.last()@));
                } else {
                    out.push(other);
                    assert(events_view(out@) =~= events_view(out0).push(out@.last()@));
                }
            },
        }
        i = i + 1;
    }
    assert(evs.take(evs.len() as int) =~= evs);
    if refs.len() > 0 {
        match render_footnotes_html(&refs, &defs) {
            Ok(section) => {
                let ghost out0 = out@;
                out.push(MdEvent::Html(section));
                assert(events_view(out@) =~= events_view(out0).push(out@.last()@));
            },
            Err(e) => {
                return Err(e);
            },
        }
    }
    Ok(out)
}

/// The labels of the footnote references among `evs`, in order.
pub open spec fn reference_labels(evs: Seq<MdEventView>) -> Seq<Seq<char>>
    decreases evs.len(),
{
    if evs.len() == 0 {
        seq![]
    } else {
        match evs.last() {
            MdEventView::FootnoteReference(l) => reference_labels(evs.drop_last()).push(l),
            _ => reference_labels(evs.drop_last()),
        }
    }
}

/// Whether `e` is a footnote reference or the opening or end of a footnote definition.
pub open spec fn is_footnote_event(e: MdEventView) -> bool {
    e is FootnoteReference || e is StartFootnoteDefinition || e is EndFootnoteDefinition
}

/// Footnotes are numbered in the order in which they are first referenced: the footnotes
/// listed are the referenced labels without repeats, in order of first reference, so that the
/// link at a reference carries one more than the place of its label in that list.
pub proof fn law_footnotes_numbered_by_first_reference(evs: Seq<MdEventView>)
    ensures
        footnote_scan(evs).refs == distinct_in_order(reference_labels(evs)),
    decreases evs.len(),
{
    if evs.len() > 0 {
        law_footnotes_numbered_by_first_reference(evs.drop_last());
        let labels = reference_labels(evs.drop_last());
        if let MdEventView::FootnoteReference(l) = evs.last() {
            assert(labels.push(l).drop_last() =~= labels);
        }
    }
}

/// The events kept by the footnote pass hold no footnote reference and no footnote definition.
pub proof fn law_footnotes_leave_no_footnote_events(evs: Seq<MdEventView>)
    ensures
        forall|i: int| 0 <= i < footnote_scan(evs).out.len() ==> !is_footnote_event(#[trigger] footnote_scan(evs).out[i]),
        footnote_result(evs) matches Ok(out) ==> forall|i: int| 0 <= i < out.len() ==> !is_footnote_event(#[trigger] out[i]),
    decreases evs.len(),
{
    if evs.len() > 0 {
        law_footnotes_leave_no_footnote_events(evs.drop_last());
        let prev = footnote_scan(evs.drop_last());
        let cur = footnote_scan(evs);
        assert forall|i: int| 0 <= i < cur.out.len() implies !is_footnote_event(#[trigger] cur.out[i]) by {
            if i < prev.out.len() {
                assert(cur.out[i] == prev.out[i]);
            }
        }
    }
    let st = footnote_scan(evs);
    if st.refs.len() > 0 && first_undefined(st.refs, st.defs) is None {
        let out = st.out.push(MdEventView::Html(footnotes_section(st.refs, st.defs)));
        assert forall|i: int| 0 <= i < out.len() implies !is_footnote_event(#[trigger] out[i]) by {
            if i < st.out.len() {
                assert(out[i] == st.out[i]);
            }
        }
    }
}

/// A footnote is reported undefined exactly when some referenced footnote has no definition,
/// and the one reported is referenced and undefined.
pub proof fn law_undefined_footnote(refs: Seq<Seq<char>>, defs: Map<Seq<char>, Seq<char>>)
    ensures
        (first_undefined(refs, defs) is None) == (forall|i: int| 0 <= i < refs.len() ==> defs.contains_key(#[trigger] refs[i])),
        first_undefined(refs, defs) matches Some(l) ==> refs.contains(l) && !defs.contains_key(l),
    decreases refs.len(),
{
    if refs.len() > 0 {
        law_undefined_footnote(refs.drop_first(), defs);
        let rest = refs.drop_first();
        if defs.contains_key(refs[0]) {
            assert forall|i: int| 0 <= i < refs.len() && (forall|q: int| 0 <= q < rest.len() ==> defs.contains_key(#[trigger] rest[q]))
                implies defs.contains_key(#[trigger] refs[i]) by {
                if i > 0 {
                    assert(refs[i] == rest[i - 1]);
                }
            }
            if !(forall|q: int| 0 <= q < rest.len() ==> defs.contains_key(#[trigger] rest[q])) {
                let q = choose|q: int| 0 <= q < rest.len() && !defs.contains_key(#[trigger] rest[q]);
                assert(refs[q + 1] == rest[q]);
            }
            if first_undefined(refs, defs) is Some {
                let l = first_undefined(refs, defs)->0;
                let q = choose|q: int| 0 <= q < rest.len() && rest[q] == l;
                assert(refs[q + 1] == l);
            }
        } else {
            assert(refs[0] == refs[0]);
        }
    }
}

/// The events of a definition's body that make up its content, in order: all but the
/// references, which become links where they stand.
pub open spec fn definition_content(body: Seq<MdEventView>) -> Seq<MdEventView>
    decreases body.len(),
{
    if body.len() == 0 {
        seq![]
    } else if body.last() is FootnoteReference {
        definition_content(body.drop_last())
    } else {
        definition_content(body.drop_last()).push(body.last())
    }
}

/// Whether `e` opens or ends a footnote definition.
pub open spec fn is_definition_edge(e: MdEventView) -> bool {
    e is StartFootnoteDefinition || e is EndFootnoteDefinition
}

/// Whether every footnote definition opened in `evs` is ended later in `evs`.
pub open spec fn definitions_closed(evs: Seq<MdEventView>) -> bool {
    forall|i: int|
        0 <= i < evs.len() && #[trigger] evs[i] is StartFootnoteDefinition ==> exists|j: int|
            i < j < evs.len() && #[trigger] evs[j] is EndFootnoteDefinition
}

/// After events whose definitions are all ended, the pass is inside no definition.
proof fn lemma_closed_outside_definition(evs: Seq<MdEventView>)
    requires
        definitions_closed(evs),
    ensures
        footnote_scan(evs).label is None,
    decreases evs.len(),
{
    if evs.len() > 0 {
        let init = evs.drop_last();
        let last = evs.last();
        if last is StartFootnoteDefinition {
            assert(evs[evs.len() - 1] is StartFootnoteDefinition);
        } else if !(last is EndFootnoteDefinition) {
            assert forall|i: int| 0 <= i < init.len() && #[trigger] init[i] is StartFootnoteDefinition implies exists|j: int|
                i < j < init.len() && #[trigger] init[j] is EndFootnoteDefinition by {
                assert(evs[i] == init[i]);
                let j = choose|j: int| i < j < evs.len() && #[trigger] evs[j] is EndFootnoteDefinition;
                assert(j != evs.len() - 1);
                assert(init[j] == evs[j]);
            }
            lemma_closed_outside_definition(init);
        }
    }
}

/// Events inside a definition are gathered as its content.
proof fn lemma_definition_body(pre: Seq<MdEventView>, l: Seq<char>, body: Seq<MdEventView>)
    requires
        footnote_scan(pre).label is None,
        forall|k: int| 0 <= k < body.len() ==> !is_definition_edge(#[trigger] body[k]),
    ensures
        footnote_scan(pre.push(MdEventView::StartFootnoteDefinition(l)) + body).label == Some(l),
        footnote_scan(pre.push(MdEventView::StartFootnoteDefinition(l)) + body).inner == footnote_scan(pre).inner
            + definition_content(body),
        footnote_scan(pre.push(MdEventView::StartFootnoteDefinition(l)) + body).defs == footnote_scan(pre).defs,
    decreases body.len(),
{
    let head = pre.push(MdEventView::StartFootnoteDefinition(l));
    if body.len() == 0 {
        assert(head + body =~= head);
        assert(head.drop_last() =~= pre);
        assert(footnote_scan(pre).inner + definition_content(body) =~= footnote_scan(pre).inner);
    } else {
        let init = body.drop_last();
        lemma_definition_body(pre, l, init);
        assert((head + body).drop_last() =~= head + init);
        assert((head + body).last() == body[body.len() - 1]);
        assert(body.drop_last() == init);
        let fi = definition_content(init);
        if !(body.last() is FootnoteReference) {
            assert(footnote_scan(pre).inner + fi.push(body.last()) =~= (footnote_scan(pre).inner + fi).push(body.last()));
        }
    }
}

/// Later events keep every definition already read: they may only add or replace definitions.
proof fn lemma_definitions_kept(pre: Seq<MdEventView>, post: Seq<MdEventView>, l: Seq<char>)
    requires
        footnote_scan(pre).defs.contains_key(l),
    ensures
        footnote_scan(pre + post).defs.contains_key(l),
    decreases post.len(),
{
    if post.len() == 0 {
        assert(pre + post =~= pre);
    } else {
        lemma_definitions_kept(pre, post.drop_last(), l);
        assert((pre + post).drop_last() =~= pre + post.drop_last());
    }
}

/// Later events that open no definition of `l` leave its content as it is, once the pass has
/// left every definition of `l`.
proof fn lemma_definition_unchanged(pre: Seq<MdEventView>, post: Seq<MdEventView>, l: Seq<char>)
    requires
        footnote_scan(pre).defs.contains_key(l),
        footnote_scan(pre).label != Some(l),
        forall|k: int| 0 <= k < post.len() ==> post[k] != MdEventView::StartFootnoteDefinition(l),
    ensures
        footnote_scan(pre + post).defs.contains_key(l),
        footnote_scan(pre + post).defs[l] == footnote_scan(pre).defs[l],
        footnote_scan(pre + post).label != Some(l),
    decreases post.len(),
{
    if post.len() == 0 {
        assert(pre + post =~= pre);
    } else {
        lemma_definition_unchanged(pre, post.drop_last(), l);
        assert((pre + post).drop_last() =~= pre + post.drop_last());
        assert((pre + post).last() == post[post.len() - 1]);
    }
}

/// Every footnote definition is kept, wherever it stands, before or after the references to
/// its label: once read, its label is defined, with the rendered content of the definition
/// (references inside it become links where they stand, not content), until a later definition
/// of the same label replaces it.
pub proof fn law_every_definition_is_kept(
    pre: Seq<MdEventView>,
    l: Seq<char>,
    body: Seq<MdEventView>,
    post: Seq<MdEventView>,
)
    requires
        definitions_closed(pre),
        forall|k: int| 0 <= k < body.len() ==> !is_definition_edge(#[trigger] body[k]),
    ensures
        ({
            let evs = pre.push(MdEventView::StartFootnoteDefinition(l)) + body.push(MdEventView::EndFootnoteDefinition) + post;
            &&& footnote_scan(evs).defs.contains_key(l)
            &&& (forall|k: int| 0 <= k < post.len() ==> post[k] != MdEventView::StartFootnoteDefinition(l))
                ==> footnote_scan(evs).defs[l] == markdown_html(definition_content(body))
        }),
{
    let head = pre.push(MdEventView::StartFootnoteDefinition(l));
    let closed = head + body.push(MdEventView::EndFootnoteDefinition);
    lemma_closed_outside_definition(pre);
    lemma_definition_body(pre, l, body);
    assert(closed.drop_last() =~= head + body);
    assert(closed.last() == MdEventView::EndFootnoteDefinition);
    assert(footnote_scan(pre).inner =~= Seq::<MdEventView>::empty()) by {
        lemma_outside_no_inner(pre);
    }
    let kept = definition_content(body);
    assert(footnote_scan(pre).inner + kept =~= kept);
    lemma_definitions_kept(closed, post, l);
    if forall|k: int| 0 <= k < post.len() ==> post[k] != MdEventView::StartFootnoteDefinition(l) {
        lemma_definition_unchanged(closed, post, l);
    }
}

/// Outside every definition, the pass holds no content of one.
proof fn lemma_outside_no_inner(evs: Seq<MdEventView>)
    ensures
        footnote_scan(evs).label is None ==> footnote_scan(evs).inner.len() == 0,
    decreases evs.len(),
{
    if evs.len() > 0 {
        lemma_outside_no_inner(evs.drop_last());
    }
}

/// A label is defined only where a definition of that label occurs among the events.
pub proof fn law_defined_only_by_a_definition(evs: Seq<MdEventView>, l: Seq<char>)
    ensures
        footnote_scan(evs).defs.contains_key(l) ==> exists|i: int|
            0 <= i < evs.len() && #[trigger] evs[i] == MdEventView::StartFootnoteDefinition(l),
{
    lemma_label_from_definition(evs, l);
}

/// The definitions read, and the one being read, each come from a definition among the events.
proof fn lemma_label_from_definition(evs: Seq<MdEventView>, l: Seq<char>)
    ensures
        footnote_scan(evs).defs.contains_key(l) || footnote_scan(evs).label == Some(l) ==> exists|i: int|
            0 <= i < evs.len() && #[trigger] evs[i] == MdEventView::StartFootnoteDefinition(l),
    decreases evs.len(),
{
    if evs.len() > 0 {
        let init = evs.drop_last();
        lemma_label_from_definition(init, l);
        if footnote_scan(init).defs.contains_key(l) || footnote_scan(init).label == Some(l) {
            let i = choose|i: int| 0 <= i < init.len() && #[trigger] init[i] == MdEventView::StartFootnoteDefinition(l);
            assert(evs[i] == init[i]);
        } else {
            assert(evs[evs.len() - 1] == evs.last());
        }
    }
}

} // verus!
