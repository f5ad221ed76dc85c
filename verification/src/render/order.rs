//! The order of tags on the tag index: by category, then by number of posts (most first), then
//! by name.
use vstd::prelude::*;
use std::cmp::Ordering;
use crate::markdown::texts;
use crate::render::context::{
    lemma_tags_insert, lemma_tags_take_all, lemma_tags_take_next, lemma_tags_take_zero, tags_at, tags_insert, tags_take,
    tera_tags_view, TeraTag, TeraTagView,
};
use crate::render::tags::{category_rank, last_index};
use crate::text::{chars_of, lemma_skip_chars_next, lemma_skip_chars_start, lemma_skip_chars_zero, skip_chars};
use crate::types::TagCategory;

verus! {

/// The order of two texts: character by character, a proper prefix first.
pub open spec fn text_order(a: Seq<char>, b: Seq<char>) -> Ordering
    decreases a.len(),
{
    if a.len() == 0 {
        if b.len() == 0 { Ordering::Equal } else { Ordering::Less }
    } else if b.len() == 0 {
        Ordering::Greater
    } else if a[0] < b[0] {
        Ordering::Less
    } else if b[0] < a[0] {
        Ordering::Greater
    } else {
        text_order(a.drop_first(), b.drop_first())
    }
}

/// The order of two tags given the category names in order: the category that comes first
/// (tags of no listed category last), then the tag with more posts, then by name.
#[verifier::opaque]
pub open spec fn tag_order(names: Seq<Seq<char>>, a: TeraTagView, b: TeraTagView) -> Ordering {
    let ra = category_rank(names, a.category);
    let rb = category_rank(names, b.category);
    if ra > rb {
        Ordering::Greater
    } else if ra < rb {
        Ordering::Less
    } else if a.count > b.count {
        Ordering::Less
    } else if a.count < b.count {
        Ordering::Greater
    } else {
        text_order(a.name, b.name)
    }
}

/// Orders two texts character by character, a proper prefix first.
pub fn compare_text(a: &str, b: &str) -> (r: Ordering)
    ensures
        r == text_order(a@, b@),
{
    let ca = chars_of(a);
    let cb = chars_of(b);
    let mut k: usize = 0;
    proof {
        lemma_skip_chars_zero(a@);
        lemma_skip_chars_zero(b@);
    }
    while k < ca.len() && k < cb.len() && ca[k] == cb[k]
        invariant
            ca@ == a@,
            cb@ == b@,
            k <= ca.len(),
            k <= cb.len(),
            skip_chars(a@, 0) == a@,
            skip_chars(b@, 0) == b@,
            text_order(a@, b@) == text_order(skip_chars(a@, k), skip_chars(b@, k)),
        decreases ca.len() - k,
    {
        let ghost k0 = k;
        k = k + 1;
        proof {
            lemma_skip_chars_next(a@, k0);
            lemma_skip_chars_next(b@, k0);
        }
    }
    proof {
        lemma_skip_chars_start(a@, k);
        lemma_skip_chars_start(b@, k);
    }
    if k == ca.len() {
        if k == cb.len() { Ordering::Equal } else { Ordering::Less }
    } else if k == cb.len() {
        Ordering::Greater
    } else if ca[k] < cb[k] {
        Ordering::Less
    } else {
        Ordering::Greater
    }
}

/// The order of tags on the tag index, from the categories in order.
pub struct TagOrdering {
    pub names: Vec<String>,
}

/// The category names of an ordering.
pub open spec fn ordering_names(o: TagOrdering) -> Seq<Seq<char>> {
    texts(o.names@)
}

/// The order of tags for the given categories.
pub fn make_tag_ordering(categories: &[TagCategory]) -> (r: TagOrdering)
    ensures
        ordering_names(r) == categories@.map_values(|c: TagCategory| c.name@),
{
    let mut names: Vec<String> = Vec::new();
    let mut i: usize = 0;
    while i < categories.len()
        invariant
            i <= categories.len(),
            texts(names@) =~= categories@.take(i as int).map_values(|c: TagCategory| c.name@),
        decreases categories.len() - i,
    {
        let ghost before = names@;
        names.push(categories[i].name.clone());
        assert(texts(names@) =~= texts(before).push(categories@[i as int].name@));
        assert(categories@.take(i + 1).drop_last() =~= categories@.take(i as int));
        i = i + 1;
    }
    assert(categories@.take(categories.len() as int) =~= categories@);
    TagOrdering { names }
}

impl TagOrdering {
    /// The rank of a tag's category: the index of the last category of that name, or the
    /// largest index there is where it has none.
    fn rank(&self, category: &Option<String>) -> (r: usize)
        ensures
            r == category_rank(ordering_names(*self), crate::markdown::opt_text(*category)),
    {
        match category {
            None => usize::MAX,
            Some(c) => {
                let ghost names = ordering_names(*self);
                let mut j: usize = self.names.len();
                assert(names.take(names.len() as int) =~= names);
                assert(crate::markdown::opt_text(*category) == Some(c@));
                while j > 0
                    invariant
                        names == ordering_names(*self),
                        crate::markdown::opt_text(*category) == Some(c@),
                        j <= names.len(),
                        last_index(names, c@) == last_index(names.take(j as int), c@),
                    decreases j,
                {
                    assert(names.take(j as int).drop_last() =~= names.take(j - 1));
                    assert(names.take(j as int).last() == names[j - 1]);
                    assert(names[j - 1] == self.names@[j - 1]@);
                    if self.names[j - 1] == *c {
                        assert(names.take(j as int).last() == c@);
                        assert(last_index(names.take(j as int), c@) == Some(j - 1));
                        assert(category_rank(names, Some(c@)) == j - 1);
                        return j - 1;
                    }
                    j = j - 1;
                }
                usize::MAX
            },
        }
    }

    /// Orders two tags: the category that comes first (tags of no listed category last), then
    /// the tag with more posts, then by name.
    pub fn compare(&self, a: &TeraTag, b: &TeraTag) -> (r: Ordering)
        ensures
            r == tag_order(ordering_names(*self), a@, b@),
    {
        reveal(tag_order);
        let ra = self.rank(&a.category);
        let rb = self.rank(&b.category);
        if ra > rb {
            return Ordering::Greater;
        }
        if ra < rb {
            return Ordering::Less;
        }
        if a.count > b.count {
            return Ordering::Less;
        }
        if a.count < b.count {
            return Ordering::Greater;
        }
        compare_text(a.name.as_str(), b.name.as_str())
    }
}

/// `x` placed into the ordered `sorted`, after every tag that does not order after it.
pub open spec fn insert_tag(names: Seq<Seq<char>>, sorted: Seq<TeraTagView>, x: TeraTagView) -> Seq<TeraTagView>
    decreases sorted.len(),
{
    if sorted.len() == 0 {
        seq![x]
    } else if tag_order(names, sorted.last(), x) != Ordering::Greater {
        sorted.push(x)
    } else {
        insert_tag(names, sorted.drop_last(), x).push(sorted.last())
    }
}

/// `ts` in tag order; tags that order as equal keep their order.
pub open spec fn sort_tags(names: Seq<Seq<char>>, ts: Seq<TeraTagView>) -> Seq<TeraTagView>
    decreases ts.len(),
{
    if ts.len() == 0 {
        seq![]
    } else {
        insert_tag(names, sort_tags(names, ts.drop_last()), ts.last())
    }
}

/// Inserting at the place after the last tag that does not order after `x`.
proof fn lemma_insert_tag_at(names: Seq<Seq<char>>, s: Seq<TeraTagView>, x: TeraTagView, j: usize)
    requires
        j <= s.len(),
        j > 0 ==> tag_order(names, s[j - 1], x) != Ordering::Greater,
        forall|k: int| j <= k < s.len() ==> tag_order(names, s[k], x) == Ordering::Greater,
    ensures
        insert_tag(names, s, x) == tags_insert(s, j, x),
    decreases s.len(),
{
    if s.len() == 0 {
        assert(tags_insert(s, j, x) =~= seq![x]);
    } else if j == s.len() {
        assert(tags_insert(s, j, x) =~= s.push(x));
    } else {
        lemma_insert_tag_at(names, s.drop_last(), x, j);
        assert(tags_insert(s, j, x) =~= tags_insert(s.drop_last(), j, x).push(s.last()));
    }
}

/// Whether `a` orders after `b`.
fn orders_after(ordering: &TagOrdering, a: &TeraTag, b: &TeraTag) -> (r: bool)
    ensures
        r == (tag_order(ordering_names(*ordering), a@, b@) == Ordering::Greater),
{
    match ordering.compare(a, b) {
        Ordering::Greater => true,
        _ => false,
    }
}

/// Sorts tags in the given order, keeping the order of tags that order as equal.
pub fn sort_tags_by(tags: Vec<TeraTag>, ordering: &TagOrdering) -> (r: Vec<TeraTag>)
    ensures
        tera_tags_view(r@) == sort_tags(ordering_names(*ordering), tera_tags_view(tags@)),
{
    let ghost names = ordering_names(*ordering);
    let ghost ts = tera_tags_view(tags@);
    let n = tags.len();
    let mut res: Vec<TeraTag> = Vec::new();
    let mut i: usize = 0;
    proof {
        lemma_tags_take_zero(ts);
    }
    assert(tera_tags_view(res@) =~= Seq::<TeraTagView>::empty());
    for x in it: tags.into_iter()
        invariant
            ts == tera_tags_view(it.seq()),
            names == ordering_names(*ordering),
            it.seq().len() == n,
            i == it.index(),
            res@.len() == i,
            tera_tags_view(res@) == sort_tags(names, tags_take(ts, i)),
    {
        proof {
            lemma_tags_take_next(ts, i);
        }
        let ghost xv = x@;
        assert(xv == tags_at(ts, i));
        let ghost s = tera_tags_view(res@);
        let mut j: usize = res.len();
        while j > 0 && orders_after(ordering, &res[j - 1], &x)
            invariant
                s == tera_tags_view(res@),
                names == ordering_names(*ordering),
                xv == x@,
                j <= res@.len(),
                forall|k: int| j <= k < s.len() ==> tag_order(names, s[k], xv) == Ordering::Greater,
            decreases j,
        {
            assert(s[j - 1] == res@[j - 1]@);
            j = j - 1;
        }
        proof {
            if j > 0 {
                assert(s[j - 1] == res@[j - 1]@);
            }
            lemma_insert_tag_at(names, s, xv, j);
        }
        res.insert(j, x);
        proof {
            lemma_tags_insert(s, res@, j, xv);
        }
        i = i + 1;
    }
    proof {
        lemma_tags_take_all(ts);
    }
    res
}

/// Text order is antisymmetric: where `a` orders after `b`, `b` orders before `a`.
proof fn lemma_text_order_flip(a: Seq<char>, b: Seq<char>)
    ensures
        text_order(a, b) == Ordering::Greater ==> text_order(b, a) == Ordering::Less,
    decreases a.len(),
{
    if a.len() > 0 && b.len() > 0 && a[0] == b[0] {
        lemma_text_order_flip(a.drop_first(), b.drop_first());
    }
}

/// Tag order is antisymmetric: where `a` orders after `b`, `b` orders before `a`.
proof fn lemma_tag_order_flip(names: Seq<Seq<char>>, a: TeraTagView, b: TeraTagView)
    ensures
        tag_order(names, a, b) == Ordering::Greater ==> tag_order(names, b, a) == Ordering::Less,
{
    reveal(tag_order);
    lemma_text_order_flip(a.name, b.name);
}

/// Whether no tag of `s` orders after the next.
pub open spec fn tags_in_order(names: Seq<Seq<char>>, s: Seq<TeraTagView>) -> bool {
    forall|i: int| 0 <= i < s.len() - 1 ==> tag_order(names, #[trigger] s[i], s[i + 1]) != Ordering::Greater
}

/// Inserting into an ordered sequence keeps it in order.
#[verifier::rlimit(60)]
proof fn lemma_insert_tag_in_order(names: Seq<Seq<char>>, s: Seq<TeraTagView>, x: TeraTagView)
    requires
        tags_in_order(names, s),
    ensures
        tags_in_order(names, insert_tag(names, s, x)),
        s.len() > 0 ==> insert_tag(names, s, x).last() == x || insert_tag(names, s, x).last() == s.last(),
        s.len() == 0 ==> insert_tag(names, s, x).last() == x,
        insert_tag(names, s, x).len() == s.len() + 1,
    decreases s.len(),
{
    if s.len() > 0 {
        let last = s.last();
        if tag_order(names, last, x) != Ordering::Greater {
            let r = s.push(x);
            assert forall|i: int| 0 <= i < r.len() - 1 implies tag_order(names, #[trigger] r[i], r[i + 1]) != Ordering::Greater by {
                if i < s.len() - 1 {
                    assert(r[i] == s[i] && r[i + 1] == s[i + 1]);
                } else {
                    assert(r[i] == last);
                }
            }
        } else {
            let init = s.drop_last();
            assert(tags_in_order(names, init)) by {
                assert forall|i: int| 0 <= i < init.len() - 1 implies tag_order(names, #[trigger] init[i], init[i + 1]) != Ordering::Greater by {
                    assert(init[i] == s[i] && init[i + 1] == s[i + 1]);
                }
            }
            lemma_insert_tag_in_order(names, init, x);
            lemma_tag_order_flip(names, last, x);
            let mid = insert_tag(names, init, x);
            let r = mid.push(last);
            if init.len() > 0 {
                assert(init.last() == s[s.len() - 2]);
                assert(tag_order(names, s[s.len() - 2], s[s.len() - 1]) != Ordering::Greater);
            }
            assert forall|i: int| 0 <= i < r.len() - 1 implies tag_order(names, #[trigger] r[i], r[i + 1]) != Ordering::Greater by {
                if i < mid.len() - 1 {
                    assert(r[i] == mid[i] && r[i + 1] == mid[i + 1]);
                } else {
                    assert(r[i] == mid.last());
                    assert(r[i + 1] == last);
                }
            }
        }
    }
}

/// Text order is transitive.
proof fn lemma_text_order_trans(a: Seq<char>, b: Seq<char>, c: Seq<char>)
    requires
        text_order(a, b) != Ordering::Greater,
        text_order(b, c) != Ordering::Greater,
    ensures
        text_order(a, c) != Ordering::Greater,
    decreases a.len(),
{
    if a.len() > 0 && b.len() > 0 && c.len() > 0 && a[0] == b[0] && b[0] == c[0] {
        lemma_text_order_trans(a.drop_first(), b.drop_first(), c.drop_first());
    }
}

/// Tag order is transitive.
proof fn lemma_tag_order_trans(names: Seq<Seq<char>>, a: TeraTagView, b: TeraTagView, c: TeraTagView)
    requires
        tag_order(names, a, b) != Ordering::Greater,
        tag_order(names, b, c) != Ordering::Greater,
    ensures
        tag_order(names, a, c) != Ordering::Greater,
{
    reveal(tag_order);
    let ra = category_rank(names, a.category);
    let rb = category_rank(names, b.category);
    let rc = category_rank(names, c.category);
    if ra == rb && rb == rc && a.count == b.count && b.count == c.count {
        lemma_text_order_trans(a.name, b.name, c.name);
    }
}

/// In a sequence where no tag orders after the next, no tag orders after any later one.
proof fn lemma_in_order_pairwise(names: Seq<Seq<char>>, s: Seq<TeraTagView>, i: int, j: int)
    requires
        tags_in_order(names, s),
        0 <= i < j < s.len(),
    ensures
        tag_order(names, s[i], s[j]) != Ordering::Greater,
    decreases j - i,
{
    if j > i + 1 {
        lemma_in_order_pairwise(names, s, i, j - 1);
        assert(tag_order(names, s[j - 1], s[j]) != Ordering::Greater);
        lemma_tag_order_trans(names, s[i], s[j - 1], s[j]);
    }
}

/// The tag index lists the tags in order: by category, then most posts first, then by name;
/// no tag orders after any tag listed later.
#[verifier::rlimit(40)]
pub proof fn law_tag_index_in_order(names: Seq<Seq<char>>, ts: Seq<TeraTagView>)
    ensures
        forall|i: int, j: int| 0 <= i < j < sort_tags(names, ts).len()
            ==> tag_order(names, #[trigger] sort_tags(names, ts)[i], #[trigger] sort_tags(names, ts)[j]) != Ordering::Greater,
{
    lemma_sorted_tags_in_order(names, ts);
    let r = sort_tags(names, ts);
    assert forall|i: int, j: int| 0 <= i < j < r.len() implies tag_order(names, #[trigger] r[i], #[trigger] r[j]) != Ordering::Greater by {
        lemma_in_order_pairwise(names, r, i, j);
    }
}

/// Sorting leaves no tag ordering after the next.
proof fn lemma_sorted_tags_in_order(names: Seq<Seq<char>>, ts: Seq<TeraTagView>)
    ensures
        tags_in_order(names, sort_tags(names, ts)),
    decreases ts.len(),
{
    if ts.len() > 0 {
        lemma_sorted_tags_in_order(names, ts.drop_last());
        lemma_insert_tag_in_order(names, sort_tags(names, ts.drop_last()), ts.last());
    }
}

/// Inserting adds exactly the one tag.
proof fn lemma_insert_tag_multiset(names: Seq<Seq<char>>, s: Seq<TeraTagView>, x: TeraTagView)
    ensures
        insert_tag(names, s, x).to_multiset() == s.to_multiset().insert(x),
    decreases s.len(),
{
    broadcast use vstd::seq_lib::to_multiset_build;
    broadcast use vstd::multiset::group_multiset_axioms;

    if s.len() == 0 {
        assert(insert_tag(names, s, x) =~= s.push(x));
        assert(s.push(x).to_multiset() =~= s.to_multiset().insert(x));
    } else if tag_order(names, s.last(), x) != Ordering::Greater {
        assert(s.push(x).to_multiset() =~= s.to_multiset().insert(x));
    } else {
        let init = s.drop_last();
        let last = s.last();
        lemma_insert_tag_multiset(names, init, x);
        let mid = insert_tag(names, init, x);
        assert(mid.push(last).to_multiset() =~= mid.to_multiset().insert(last));
        assert(init.push(last) =~= s);
        assert(init.push(last).to_multiset() =~= init.to_multiset().insert(last));
        assert(insert_tag(names, s, x).to_multiset() =~= s.to_multiset().insert(x));
    }
}

/// The tag index lists every tag it is given, as often as it is given: ordering loses and adds
/// none.
pub proof fn law_tag_index_keeps_every_tag(names: Seq<Seq<char>>, ts: Seq<TeraTagView>)
    ensures
        sort_tags(names, ts).to_multiset() == ts.to_multiset(),
    decreases ts.len(),
{
    broadcast use vstd::seq_lib::to_multiset_build;

    if ts.len() == 0 {
        assert(sort_tags(names, ts) =~= ts);
    } else {
        law_tag_index_keeps_every_tag(names, ts.drop_last());
        lemma_insert_tag_multiset(names, sort_tags(names, ts.drop_last()), ts.last());
        assert(ts.drop_last().push(ts.last()) =~= ts);
        assert(ts.drop_last().push(ts.last()).to_multiset() =~= ts.drop_last().to_multiset().insert(ts.last()));
    }
}

/// The reverse of an ordering.
pub open spec fn flip(o: Ordering) -> Ordering {
    match o {
        Ordering::Less => Ordering::Greater,
        Ordering::Equal => Ordering::Equal,
        Ordering::Greater => Ordering::Less,
    }
}

/// Text order is antisymmetric, and two texts order as equal exactly when they are the same.
proof fn lemma_text_order_flip_equal(a: Seq<char>, b: Seq<char>)
    ensures
        text_order(a, b) == flip(text_order(b, a)),
        (text_order(a, b) == Ordering::Equal) == (a == b),
    decreases a.len(),
{
    if a.len() > 0 && b.len() > 0 && a[0] == b[0] {
        lemma_text_order_flip_equal(a.drop_first(), b.drop_first());
        if a.drop_first() == b.drop_first() {
            assert(a =~= seq![a[0]] + a.drop_first());
            assert(b =~= seq![b[0]] + b.drop_first());
        }
        if a == b {
            assert(a.drop_first() == b.drop_first());
        }
    } else if a.len() > 0 && b.len() > 0 {
        assert(a[0] != b[0]);
    } else if a.len() == 0 && b.len() == 0 {
        assert(a =~= b);
    }
}

/// The order of the tag index is a total order: swapping two tags reverses their order; two
/// tags order as equal exactly when they have the same category rank, the same number of posts
/// and the same name; and the order is transitive.
pub proof fn law_tag_order_is_total(names: Seq<Seq<char>>, a: TeraTagView, b: TeraTagView, c: TeraTagView)
    ensures
        tag_order(names, a, b) == flip(tag_order(names, b, a)),
        (tag_order(names, a, b) == Ordering::Equal) == (category_rank(names, a.category) == category_rank(names, b.category)
            && a.count == b.count && a.name == b.name),
        tag_order(names, a, b) != Ordering::Greater && tag_order(names, b, c) != Ordering::Greater
            ==> tag_order(names, a, c) != Ordering::Greater,
{
    reveal(tag_order);
    lemma_text_order_flip_equal(a.name, b.name);
    if tag_order(names, a, b) != Ordering::Greater && tag_order(names, b, c) != Ordering::Greater {
        lemma_tag_order_trans(names, a, b, c);
    }
}

/// Of two tags of the same category, or of no listed category, the one with more posts comes
/// first; with as many posts, the order is that of their names. A tag of a listed category
/// comes before a tag of none, and of two listed categories of distinct names, the tags of the
/// one listed first come first.
pub proof fn law_tag_order_within_a_category(names: Seq<Seq<char>>, a: TeraTagView, b: TeraTagView)
    ensures
        a.category == b.category && a.count > b.count ==> tag_order(names, a, b) == Ordering::Less,
        a.category == b.category && a.count == b.count ==> tag_order(names, a, b) == text_order(a.name, b.name),
        forall|i: int, j: int|
            names.no_duplicates() && 0 <= i < j < names.len() && a.category == Some(#[trigger] names[i]) && b.category == Some(
                #[trigger] names[j],
            ) ==> tag_order(names, a, b) == Ordering::Less,
        names.len() <= usize::MAX && (a.category matches Some(c) && names.contains(c)) && b.category is None
            ==> tag_order(names, a, b) == Ordering::Less,
{
    reveal(tag_order);
    if names.no_duplicates() {
        assert forall|i: int| 0 <= i < names.len() implies last_index(names, #[trigger] names[i]) == Some(i) by {
            lemma_last_index_distinct(names, i);
        }
    }
    if let Some(c) = a.category {
        if names.contains(c) {
            lemma_last_index_found(names, c);
        }
    }
}

/// In a sequence without repeats, the last index of an element is its only index.
proof fn lemma_last_index_distinct(names: Seq<Seq<char>>, i: int)
    requires
        names.no_duplicates(),
        0 <= i < names.len(),
    ensures
        last_index(names, names[i]) == Some(i),
    decreases names.len(),
{
    if i < names.len() - 1 {
        let init = names.drop_last();
        assert(names.last() != names[i]);
        assert(init.no_duplicates());
        assert(init[i] == names[i]);
        lemma_last_index_distinct(init, i);
    }
}

/// A text that occurs has a last index, below the length.
proof fn lemma_last_index_found(names: Seq<Seq<char>>, c: Seq<char>)
    requires
        names.contains(c),
    ensures
        last_index(names, c) matches Some(i) && 0 <= i < names.len(),
    decreases names.len(),
{
    if names.last() != c {
        let k = choose|k: int| 0 <= k < names.len() && names[k] == c;
        assert(names.drop_last()[k] == c);
        lemma_last_index_found(names.drop_last(), c);
    }
}

/// On the tag index, of two tags of the same category (or both of none), the one listed first
/// has at least as many posts.
pub proof fn law_tag_index_most_posts_first(names: Seq<Seq<char>>, ts: Seq<TeraTagView>, i: int, j: int)
    requires
        0 <= i < j < sort_tags(names, ts).len(),
        sort_tags(names, ts)[i].category == sort_tags(names, ts)[j].category,
    ensures
        sort_tags(names, ts)[i].count >= sort_tags(names, ts)[j].count,
{
    let s = sort_tags(names, ts);
    law_tag_index_in_order(names, ts);
    assert(tag_order(names, s[i], s[j]) != Ordering::Greater);
    if s[i].count < s[j].count {
        law_tag_order_within_a_category(names, s[j], s[i]);
        law_tag_order_is_total(names, s[i], s[j], s[j]);
    }
}

} // verus!
