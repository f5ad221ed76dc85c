//! The table of contents of a post, and the anchor ids of its headings.
use vstd::prelude::*;
use crate::markdown::{events_view, Heading, HeadingView, MdEvent, MdEventView};
use crate::types::{toc_view, TocEntry, TocEntryView};
use crate::utils::{slug_of, slugify};

verus! {

/// What the table-of-contents scan has seen so far: the finished entries, whether it is
/// inside a heading, and the level, text and plain text of the heading being read.
pub struct TocScan {
    pub entries: Seq<TocEntryView>,
    pub in_header: bool,
    pub level: u8,
    pub text: Seq<char>,
    pub plain: Seq<char>,
}

/// The scan before any event.
pub open spec fn toc_start() -> TocScan {
    TocScan { entries: seq![], in_header: false, level: 0, text: seq![], plain: seq![] }
}

/// The scan after one more event. A heading's text keeps inline code marked up, its plain
/// text does not; the end of a heading adds an entry whose id is the slug of the plain text.
pub open spec fn toc_step(st: TocScan, e: MdEventView) -> TocScan {
    match e {
        MdEventView::StartHeading(h) => TocScan {
            entries: st.entries,
            in_header: true,
            level: h.level.number(),
            text: seq![],
            plain: seq![],
        },
        MdEventView::EndHeading(_) => TocScan {
            entries: st.entries.push(TocEntryView { level: st.level, text: st.text, id: slug_of(st.plain) }),
            in_header: false,
            level: 0,
            text: seq![],
            plain: st.plain,
        },
        MdEventView::Text(t) => if st.in_header {
            TocScan { text: st.text + t, plain: st.plain + t, ..st }
        } else {
            st
        },
        MdEventView::Code(t) => if st.in_header {
            TocScan { text: st.text + "<code>"@ + t + "</code>"@, plain: st.plain + t, ..st }
        } else {
            st
        },
        _ => st,
    }
}

/// The scan after the events `evs`.
pub open spec fn toc_scan(evs: Seq<MdEventView>) -> TocScan
    decreases evs.len(),
{
    if evs.len() == 0 {
        toc_start()
    } else {
        toc_step(toc_scan(evs.drop_last()), evs.last())
    }
}

/// The table of contents of `evs`, one entry per heading end, in order.
pub open spec fn toc_entries(evs: Seq<MdEventView>) -> Seq<TocEntryView> {
    toc_scan(evs).entries
}

/// Collects the headings of a post.
fn build_toc(events: &Vec<MdEvent>) -> (r: Vec<TocEntry>)
    ensures
        toc_view(r@) == toc_entries(events_view(events@)),
{
    let ghost evs = events_view(events@);
    let mut out: Vec<TocEntry> = Vec::new();
    let mut in_header = false;
    let mut level: u8 = 0;
    let mut text = String::new();
    let mut plain = String::new();
    let mut i: usize = 0;
    assert(evs.take(0) =~= Seq::<MdEventView>::empty());
    assert(toc_view(out@) =~= Seq::<TocEntryView>::empty());
    while i < events.len()
        invariant
            evs == events_view(events@),
            i <= events.len(),
            toc_scan(evs.take(i as int)) == (TocScan {
                entries: toc_view(out@),
                in_header,
                level,
                text: text@,
                plain: plain@,
            }),
        decreases events.len() - i,
    {
        assert(evs.take(i + 1).drop_last() =~= evs.take(i as int));
        assert(evs.take(i + 1).last() == events@[i as int]@);
        match &events[i] {
            MdEvent::StartHeading(h) => {
                in_header = true;
                level = h.level.to_number();
                text = String::new();
                plain = String::new();
            },
            MdEvent::EndHeading(_) => {
                let id = slugify(plain.as_str());
                let ghost before = out@;
                out.push(TocEntry { level, text, id });
                assert(toc_view(out@) =~= toc_view(before).push(out@.last()@));
                in_header = false;
                level = 0;
                text = String::new();
            },
            MdEvent::Text(t) => {
                if in_header {
                    text.append(t.as_str());
                    plain.append(t.as_str());
                }
            },
            MdEvent::Code(t) => {
                if in_header {
                    text.append("<code>");
                    text.append(t.as_str());
                    text.append("</code>");
                    plain.append(t.as_str());
                }
            },
            _ => {},
        }
        i = i + 1;
    }
    assert(evs.take(events.len() as int) =~= evs);
    out
}

/// The levels of a table of contents, in order.
pub open spec fn toc_levels(toc: Seq<TocEntryView>) -> Seq<u8> {
    toc.map_values(|e: TocEntryView| e.level)
}

/// How many distinct values of `levels` lie below `l`.
pub open spec fn rank_below(levels: Seq<u8>, l: int) -> nat
    decreases l,
{
    if l <= 0 {
        0
    } else {
        rank_below(levels, l - 1) + if levels.contains((l - 1) as u8) { 1nat } else { 0nat }
    }
}

/// `toc` with each level replaced by its rank among the distinct levels that occur.
pub open spec fn normalized(toc: Seq<TocEntryView>) -> Seq<TocEntryView> {
    Seq::new(
        toc.len(),
        |i: int|
            TocEntryView {
                level: rank_below(toc_levels(toc), toc[i].level as int) as u8,
                text: toc[i].text,
                id: toc[i].id,
            },
    )
}

/// A rank never exceeds the level it is taken at.
proof fn lemma_rank_below_bound(levels: Seq<u8>, l: int)
    requires
        l >= 0,
    ensures
        rank_below(levels, l) <= l,
    decreases l,
{
    if l > 0 {
        lemma_rank_below_bound(levels, l - 1);
    }
}

/// Ranks never decrease as the level rises.
proof fn lemma_rank_below_monotone(levels: Seq<u8>, a: int, b: int)
    requires
        0 <= a <= b,
    ensures
        rank_below(levels, a) <= rank_below(levels, b),
    decreases b - a,
{
    if a < b {
        lemma_rank_below_monotone(levels, a, b - 1);
    }
}

/// A level that occurs ranks below every higher level.
proof fn lemma_rank_below_strict(levels: Seq<u8>, a: int, b: int)
    requires
        0 <= a < b,
        a < 256,
        levels.contains(a as u8),
    ensures
        rank_below(levels, a) < rank_below(levels, b),
{
    lemma_rank_below_monotone(levels, a + 1, b);
}

/// No level that occurs lies below `l`: its rank is 0.
proof fn lemma_rank_below_lowest(levels: Seq<u8>, l: int)
    requires
        0 <= l <= 256,
        forall|x: int| 0 <= x < l ==> !#[trigger] levels.contains(x as u8),
    ensures
        rank_below(levels, l) == 0,
    decreases l,
{
    if l > 0 {
        lemma_rank_below_lowest(levels, l - 1);
    }
}

/// Normalizing keeps the order of levels: of two entries, one has a lower level than the other
/// exactly when it has a lower rank, and the same level exactly when it has the same rank.
pub proof fn law_normalized_keeps_order(toc: Seq<TocEntryView>, i: int, j: int)
    requires
        0 <= i < toc.len(),
        0 <= j < toc.len(),
    ensures
        (toc[i].level < toc[j].level) == (normalized(toc)[i].level < normalized(toc)[j].level),
        (toc[i].level == toc[j].level) == (normalized(toc)[i].level == normalized(toc)[j].level),
{
    let levels = toc_levels(toc);
    let li = toc[i].level as int;
    let lj = toc[j].level as int;
    assert(levels[i] == toc[i].level);
    assert(levels[j] == toc[j].level);
    lemma_rank_below_bound(levels, li);
    lemma_rank_below_bound(levels, lj);
    if li < lj {
        lemma_rank_below_strict(levels, li, lj);
    } else if lj < li {
        lemma_rank_below_strict(levels, lj, li);
    }
}

/// Normalizing gives the lowest level that occurs rank 0: the top of the nesting.
pub proof fn law_normalized_lowest_is_top(toc: Seq<TocEntryView>, i: int)
    requires
        0 <= i < toc.len(),
        forall|k: int| 0 <= k < toc.len() ==> toc[i].level <= toc[k].level,
    ensures
        normalized(toc)[i].level == 0,
{
    let levels = toc_levels(toc);
    assert forall|x: int| 0 <= x < toc[i].level implies !#[trigger] levels.contains(x as u8) by {
        if levels.contains(x as u8) {
            let k = choose|k: int| 0 <= k < levels.len() && levels[k] == x as u8;
            assert(toc[k].level == levels[k]);
        }
    }
    lemma_rank_below_lowest(levels, toc[i].level as int);
}

/// Every rank below that of `l` is the rank of some level below `l` that occurs.
proof fn lemma_ranks_dense(levels: Seq<u8>, l: int, y: int)
    requires
        0 <= l <= 256,
        0 <= y < rank_below(levels, l),
    ensures
        exists|m: int| 0 <= m < l && #[trigger] levels.contains(m as u8) && rank_below(levels, m) == y,
    decreases l,
{
    if l > 0 {
        if y < rank_below(levels, l - 1) {
            lemma_ranks_dense(levels, l - 1, y);
            let m = choose|m: int| 0 <= m < l - 1 && #[trigger] levels.contains(m as u8) && rank_below(levels, m) == y;
            assert(0 <= m < l && levels.contains(m as u8) && rank_below(levels, m) == y);
        } else {
            assert(levels.contains((l - 1) as u8) && rank_below(levels, l - 1) == y);
        }
    }
}

/// Where every value below `x` occurs, the rank of `x` is `x`.
proof fn lemma_rank_below_full(levels: Seq<u8>, x: int)
    requires
        0 <= x <= 256,
        forall|y: int| 0 <= y < x ==> #[trigger] levels.contains(y as u8),
    ensures
        rank_below(levels, x) == x,
    decreases x,
{
    if x > 0 {
        lemma_rank_below_full(levels, x - 1);
        assert(levels.contains((x - 1) as u8));
    }
}

/// Normalizing twice is normalizing once: the ranks already run from 0 without a gap.
pub proof fn law_normalize_levels_idempotent(toc: Seq<TocEntryView>)
    ensures
        normalized(normalized(toc)) == normalized(toc),
{
    let once = normalized(toc);
    let levels = toc_levels(toc);
    let levels1 = toc_levels(once);
    assert forall|i: int| 0 <= i < toc.len() implies #[trigger] normalized(once)[i] == once[i] by {
        let l = toc[i].level as int;
        let r = rank_below(levels, l);
        lemma_rank_below_bound(levels, l);
        assert(once[i].level == r as u8);
        assert forall|y: int| 0 <= y < r implies #[trigger] levels1.contains(y as u8) by {
            lemma_ranks_dense(levels, l, y);
            let m = choose|m: int| 0 <= m < l && #[trigger] levels.contains(m as u8) && rank_below(levels, m) == y;
            let k = choose|k: int| 0 <= k < levels.len() && levels[k] == m as u8;
            assert(toc[k].level == m as u8);
            assert(levels1[k] == once[k].level);
            assert(once[k].level == rank_below(levels, m) as u8);
        }
        lemma_rank_below_full(levels1, r as int);
        assert(levels1[i] == once[i].level);
    }
    assert(normalized(once) =~= once);
}

/// Remaps heading levels to 0-indexed ranks so the template can use `entry.level` directly as
/// a nesting depth (0 = top level).
pub fn normalize_levels(toc: &[TocEntry]) -> (r: Vec<TocEntry>)
    ensures
        toc_view(r@) == normalized(toc_view(toc@)),
{
    let ghost entries = toc_view(toc@);
    let ghost levels = toc_levels(entries);
    let mut present: Vec<bool> = Vec::new();
    let mut x: usize = 0;
    while x < 256
        invariant
            x <= 256,
            present@.len() == x,
            forall|y: int| 0 <= y < x ==> !present@[y],
        decreases 256 - x,
    {
        present.push(false);
        x = x + 1;
    }
    let mut i: usize = 0;
    while i < toc.len()
        invariant
            entries == toc_view(toc@),
            levels == toc_levels(entries),
            i <= toc.len(),
            present@.len() == 256,
            forall|y: int| 0 <= y < 256 ==> present@[y] == toc_levels(entries.take(i as int)).contains(y as u8),
        decreases toc.len() - i,
    {
        let l = toc[i].level;
        present.set(l as usize, true);
        let ghost old_l = toc_levels(entries.take(i as int));
        let ghost new_l = toc_levels(entries.take(i + 1));
        assert(new_l =~= old_l.push(l));
        assert forall|y: int| 0 <= y < 256 implies present@[y] == new_l.contains(y as u8) by {
            if y == l as int {
                assert(new_l[old_l.len() as int] == l);
            } else {
                if new_l.contains(y as u8) {
                    let k = choose|k: int| 0 <= k < new_l.len() && new_l[k] == y as u8;
                    assert(old_l[k] == y as u8);
                }
                if old_l.contains(y as u8) {
                    let k = choose|k: int| 0 <= k < old_l.len() && old_l[k] == y as u8;
                    assert(new_l[k] == y as u8);
                }
            }
        }
        i = i + 1;
    }
    assert(entries.take(toc.len() as int) =~= entries);
    let mut rank: Vec<u8> = Vec::new();
    let mut count: u16 = 0;
    let mut y: usize = 0;
    while y < 256
        invariant
            levels == toc_levels(entries),
            present@.len() == 256,
            forall|z: int| 0 <= z < 256 ==> present@[z] == levels.contains(z as u8),
            y <= 256,
            rank@.len() == y,
            count == rank_below(levels, y as int),
            forall|z: int| 0 <= z < y ==> rank@[z] == rank_below(levels, z),
        decreases 256 - y,
    {
        proof {
            lemma_rank_below_bound(levels, y as int);
            lemma_rank_below_bound(levels, y + 1);
        }
        rank.push(count as u8);
        if present[y] {
            count = count + 1;
        }
        y = y + 1;
    }
    let mut out: Vec<TocEntry> = Vec::new();
    let mut j: usize = 0;
    while j < toc.len()
        invariant
            entries == toc_view(toc@),
            levels == toc_levels(entries),
            rank@.len() == 256,
            forall|z: int| 0 <= z < 256 ==> rank@[z] == rank_below(levels, z),
            j <= toc.len(),
            toc_view(out@) =~= normalized(entries).take(j as int),
        decreases toc.len() - j,
    {
        let e = &toc[j];
        let ghost before = out@;
        out.push(TocEntry { level: rank[e.level as usize], text: e.text.clone(), id: e.id.clone() });
        assert(toc_view(out@) =~= toc_view(before).push(out@.last()@));
        j = j + 1;
    }
    out
}

/// How many heading openings `evs` holds.
pub open spec fn heading_starts(evs: Seq<MdEventView>) -> nat
    decreases evs.len(),
{
    if evs.len() == 0 {
        0
    } else {
        heading_starts(evs.drop_last()) + if evs.last() is StartHeading { 1nat } else { 0nat }
    }
}

/// `e` with, if it opens a heading, its id set to the `k`-th of `ids` (none once `ids` runs out).
pub open spec fn with_heading_id(e: MdEventView, k: nat, ids: Seq<Seq<char>>) -> MdEventView {
    match e {
        MdEventView::StartHeading(h) => MdEventView::StartHeading(HeadingView {
            level: h.level,
            id: if k < ids.len() { Some(ids[k as int]) } else { None },
            classes: h.classes,
            attrs: h.attrs,
        }),
        other => other,
    }
}

/// `evs` with the `k`-th heading opening given the `k`-th of `ids` as its id.
pub open spec fn attach_ids(evs: Seq<MdEventView>, ids: Seq<Seq<char>>) -> Seq<MdEventView> {
    Seq::new(evs.len(), |i: int| with_heading_id(evs[i], heading_starts(evs.take(i)), ids))
}

/// The ids of a table of contents, in order.
pub open spec fn toc_ids(toc: Seq<TocEntryView>) -> Seq<Seq<char>> {
    toc.map_values(|e: TocEntryView| e.id)
}

/// Builds the table of contents of a post and gives each heading, in order, the id of its
/// entry, so that the entries can link to the headings.
pub fn apply(events: Vec<MdEvent>) -> (r: (Vec<MdEvent>, Vec<TocEntry>))
    ensures
        toc_view(r.1@) == normalized(toc_entries(events_view(events@))),
        events_view(r.0@) == attach_ids(events_view(events@), toc_ids(toc_view(r.1@))),
{
    let toc = normalize_levels(build_toc(&events).as_slice());
    let ghost evs = events_view(events@);
    let ghost ids = toc_ids(toc_view(toc@));
    let mut out: Vec<MdEvent> = Vec::new();
    let mut k: usize = 0;
    let n = events.len();
    let mut i: usize = 0;
    for e in it: events.into_iter()
        invariant
            evs == events_view(it.seq()),
            ids == toc_ids(toc_view(toc@)),
            it.seq().len() == n,
            i == it.index(),
            k == heading_starts(evs.take(i as int)),
            k <= i,
            events_view(out@) =~= attach_ids(evs, ids).take(i as int),
    {
        assert(evs.take(i + 1).drop_last() =~= evs.take(i as int));
        let ghost before = out@;
        let ghost ev = e@;
        assert(ev == evs[i as int]);
        match e {
            MdEvent::StartHeading(h) => {
                let id = if k < toc.len() {
                    Some(toc[k].id.clone())
                } else {
                    None
                };
                out.push(MdEvent::StartHeading(Heading { level: h.level, id, classes: h.classes, attrs: h.attrs }));
                k = k + 1;
            },
            other => {
                out.push(other);
            },
        }
        assert(events_view(out@) =~= events_view(before).push(out@.last()@));
        i = i + 1;
    }
    assert(attach_ids(evs, ids).take(n as int) =~= attach_ids(evs, ids));
    (out, toc)
}

/// How many heading ends `evs` holds.
pub open spec fn heading_ends(evs: Seq<MdEventView>) -> nat
    decreases evs.len(),
{
    if evs.len() == 0 {
        0
    } else {
        heading_ends(evs.drop_last()) + if evs.last() is EndHeading { 1nat } else { 0nat }
    }
}

/// The table of contents has one entry per heading end.
proof fn lemma_entries_count_ends(evs: Seq<MdEventView>)
    ensures
        toc_entries(evs).len() == heading_ends(evs),
    decreases evs.len(),
{
    if evs.len() > 0 {
        lemma_entries_count_ends(evs.drop_last());
    }
}

/// A prefix holds no more heading openings than the whole.
proof fn lemma_starts_prefix(evs: Seq<MdEventView>, m: int)
    requires
        0 <= m <= evs.len(),
    ensures
        heading_starts(evs.take(m)) <= heading_starts(evs),
    decreases evs.len(),
{
    if m < evs.len() {
        assert(evs.drop_last().take(m) =~= evs.take(m));
        lemma_starts_prefix(evs.drop_last(), m);
    } else {
        assert(evs.take(m) =~= evs);
    }
}

/// Where the events hold as many heading ends as heading openings, as the parser gives them,
/// every heading opening gets an id: the `k`-th opening gets the id of the `k`-th entry of the
/// table of contents, so that each entry links to its heading.
pub proof fn law_every_heading_gets_its_entry_id(evs: Seq<MdEventView>, i: int)
    requires
        heading_starts(evs) == heading_ends(evs),
        0 <= i < evs.len(),
        evs[i] is StartHeading,
    ensures
        ({
            let toc = normalized(toc_entries(evs));
            let k = heading_starts(evs.take(i));
            &&& k < toc.len()
            &&& attach_ids(evs, toc_ids(toc))[i] matches MdEventView::StartHeading(h) && h.id == Some(toc[k as int].id)
        }),
{
    let toc = normalized(toc_entries(evs));
    lemma_entries_count_ends(evs);
    assert(evs.take(i + 1).drop_last() =~= evs.take(i));
    assert(evs.take(i + 1).last() == evs[i]);
    lemma_starts_prefix(evs, i + 1);
    assert(toc_ids(toc)[heading_starts(evs.take(i)) as int] == toc[heading_starts(evs.take(i)) as int].id);
}

/// What a run inside a heading adds to its table-of-contents text: text as it is, inline code
/// inside `<code>` tags, anything else nothing.
pub open spec fn run_markup(e: MdEventView) -> Seq<char> {
    match e {
        MdEventView::Text(t) => t,
        MdEventView::Code(t) => "<code>"@ + t + "</code>"@,
        _ => seq![],
    }
}

/// What a run inside a heading adds to the text its id is made from: text and inline code as
/// they are, anything else nothing.
pub open spec fn run_plain(e: MdEventView) -> Seq<char> {
    match e {
        MdEventView::Text(t) => t,
        MdEventView::Code(t) => t,
        _ => seq![],
    }
}

/// Whether `e` opens or ends a heading.
pub open spec fn is_heading_edge(e: MdEventView) -> bool {
    e is StartHeading || e is EndHeading
}

/// Reading the runs of an open heading gathers their text and plain text, in order.
proof fn lemma_heading_runs(pre: Seq<MdEventView>, h: HeadingView, runs: Seq<MdEventView>)
    requires
        forall|k: int| 0 <= k < runs.len() ==> !is_heading_edge(#[trigger] runs[k]),
    ensures
        toc_scan(pre.push(MdEventView::StartHeading(h)) + runs) == (TocScan {
            entries: toc_entries(pre),
            in_header: true,
            level: h.level.number(),
            text: runs.map_values(|e: MdEventView| run_markup(e)).flatten_alt(),
            plain: runs.map_values(|e: MdEventView| run_plain(e)).flatten_alt(),
        }),
    decreases runs.len(),
{
    let head = pre.push(MdEventView::StartHeading(h));
    if runs.len() == 0 {
        assert(head + runs =~= head);
        assert(head.drop_last() =~= pre);
        assert(runs.map_values(|e: MdEventView| run_markup(e)) =~= Seq::<Seq<char>>::empty());
        assert(runs.map_values(|e: MdEventView| run_plain(e)) =~= Seq::<Seq<char>>::empty());
    } else {
        let init = runs.drop_last();
        lemma_heading_runs(pre, h, init);
        assert((head + runs).drop_last() =~= head + init);
        assert((head + runs).last() == runs.last());
        assert(!is_heading_edge(runs[runs.len() - 1]));
        assert(runs.map_values(|e: MdEventView| run_markup(e)).drop_last() =~= init.map_values(|e: MdEventView| run_markup(e)));
        assert(runs.map_values(|e: MdEventView| run_plain(e)).drop_last() =~= init.map_values(|e: MdEventView| run_plain(e)));
        let m = runs.map_values(|e: MdEventView| run_markup(e));
        let p = runs.map_values(|e: MdEventView| run_plain(e));
        assert(m.last() == run_markup(runs.last()));
        assert(p.last() == run_plain(runs.last()));
        let prev = init.map_values(|e: MdEventView| run_markup(e)).flatten_alt();
        match runs.last() {
            MdEventView::Code(t) => {
                assert(prev + "<code>"@ + t + "</code>"@ =~= prev + ("<code>"@ + t + "</code>"@));
            },
            _ => {
                assert(prev + seq![] =~= prev);
                assert(init.map_values(|e: MdEventView| run_plain(e)).flatten_alt() + seq![]
                    =~= init.map_values(|e: MdEventView| run_plain(e)).flatten_alt());
            },
        }
    }
}

/// A heading adds one entry to the table of contents: at its level, with the text of its runs
/// joined in order (inline code inside `<code>` tags), and with the slug of the joined text and
/// code of its runs as its id.
pub proof fn law_heading_entry_joins_its_runs(
    pre: Seq<MdEventView>,
    h: HeadingView,
    runs: Seq<MdEventView>,
    end: MdEventView,
)
    requires
        forall|k: int| 0 <= k < runs.len() ==> !is_heading_edge(#[trigger] runs[k]),
        end is EndHeading,
    ensures
        toc_entries(pre.push(MdEventView::StartHeading(h)) + runs.push(end)) == toc_entries(pre).push(
            TocEntryView {
                level: h.level.number(),
                text: runs.map_values(|e: MdEventView| run_markup(e)).flatten(),
                id: slug_of(runs.map_values(|e: MdEventView| run_plain(e)).flatten()),
            },
        ),
{
    let head = pre.push(MdEventView::StartHeading(h));
    lemma_heading_runs(pre, h, runs);
    assert((head + runs.push(end)).drop_last() =~= head + runs);
    assert((head + runs.push(end)).last() == end);
    runs.map_values(|e: MdEventView| run_markup(e)).lemma_flatten_and_flatten_alt_are_equivalent();
    runs.map_values(|e: MdEventView| run_plain(e)).lemma_flatten_and_flatten_alt_are_equivalent();
}

} // verus!
