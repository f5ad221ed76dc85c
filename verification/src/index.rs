//! The site index: posts in date order, and the posts of each tag.
use vstd::prelude::*;
use crate::date::date_le;
use crate::text::{distinct_in_order, lemma_distinct_contains, lemma_distinct_no_repeats};
use crate::types::{posts_view, Post, PostView, SiteIndex, TagPosts};

verus! {

/// `p` placed into the date-ordered `sorted`, after every post that is not dated later.
pub open spec fn insert_by_date(sorted: Seq<PostView>, p: PostView) -> Seq<PostView>
    decreases sorted.len(),
{
    if sorted.len() == 0 {
        seq![p]
    } else if date_le(sorted.last().meta.date_created, p.meta.date_created) {
        sorted.push(p)
    } else {
        insert_by_date(sorted.drop_last(), p).push(sorted.last())
    }
}

/// `ps` ordered by creation date; posts of the same date keep their order.
pub open spec fn sort_by_date(ps: Seq<PostView>) -> Seq<PostView>
    decreases ps.len(),
{
    if ps.len() == 0 {
        seq![]
    } else {
        insert_by_date(sort_by_date(ps.drop_last()), ps.last())
    }
}

/// Inserting at the place after the last post not dated later than `p`.
proof fn lemma_insert_at(s: Seq<PostView>, p: PostView, j: int)
    requires
        0 <= j <= s.len(),
        j > 0 ==> date_le(s[j - 1].meta.date_created, p.meta.date_created),
        forall|k: int| j <= k < s.len() ==> !date_le(s[k].meta.date_created, p.meta.date_created),
    ensures
        insert_by_date(s, p) == s.insert(j, p),
    decreases s.len(),
{
    if s.len() == 0 {
        assert(s.insert(j, p) =~= seq![p]);
    } else if j == s.len() {
        assert(s.insert(j, p) =~= s.push(p));
    } else {
        lemma_insert_at(s.drop_last(), p, j);
        assert(s.insert(j, p) =~= s.drop_last().insert(j, p).push(s.last()));
    }
}

/// Sorts `posts` by creation date, keeping the order of posts of the same date.
fn sort_posts_by_date(posts: Vec<Post>) -> (r: Vec<Post>)
    ensures
        posts_view(r@) == sort_by_date(posts_view(posts@)),
{
    let ghost ps = posts_view(posts@);
    let n = posts.len();
    let mut res: Vec<Post> = Vec::new();
    let mut i: usize = 0;
    assert(ps.take(0) =~= Seq::<PostView>::empty());
    assert(posts_view(res@) =~= Seq::<PostView>::empty());
    for p in it: posts.into_iter()
        invariant
            ps == posts_view(it.seq()),
            it.seq().len() == n,
            i == it.index(),
            res@.len() == i,
            posts_view(res@) == sort_by_date(ps.take(i as int)),
    {
        assert(ps.take(i + 1).drop_last() =~= ps.take(i as int));
        let ghost pv = p@;
        assert(pv == ps[i as int]);
        let ghost s = posts_view(res@);
        let mut j: usize = res.len();
        while j > 0 && !res[j - 1].meta.date_created.not_after(&p.meta.date_created)
            invariant
                s == posts_view(res@),
                pv == p@,
                j <= res@.len(),
                forall|k: int| j <= k < s.len() ==> !date_le(s[k].meta.date_created, pv.meta.date_created),
            decreases j,
        {
            assert(s[j - 1] == res@[j - 1]@);
            j = j - 1;
        }
        proof {
            if j > 0 {
                assert(s[j - 1] == res@[j - 1]@);
            }
            lemma_insert_at(s, pv, j as int);
        }
        res.insert(j, p);
        assert(posts_view(res@) =~= s.insert(j as int, pv));
        i = i + 1;
    }
    assert(ps.take(n as int) =~= ps);
    res
}

/// The tags of `ps`, post after post, each post's tags in order.
pub open spec fn all_tags(ps: Seq<PostView>) -> Seq<Seq<char>>
    decreases ps.len(),
{
    if ps.len() == 0 {
        seq![]
    } else {
        all_tags(ps.drop_last()) + ps.last().meta.tags
    }
}

/// How many times `x` occurs in `s`.
pub open spec fn count_of(s: Seq<Seq<char>>, x: Seq<char>) -> nat
    decreases s.len(),
{
    if s.len() == 0 {
        0
    } else {
        count_of(s.drop_last(), x) + if s.last() == x { 1nat } else { 0nat }
    }
}

/// `n` copies of `p`.
pub open spec fn copies(p: PostView, n: nat) -> Seq<PostView> {
    Seq::new(n, |i: int| p)
}

/// The posts of `ps` that carry tag `t`, in order, a post appearing once for each time it
/// lists `t`.
pub open spec fn posts_tagged(ps: Seq<PostView>, t: Seq<char>) -> Seq<PostView>
    decreases ps.len(),
{
    if ps.len() == 0 {
        seq![]
    } else {
        posts_tagged(ps.drop_last(), t) + copies(ps.last(), count_of(ps.last().meta.tags, t))
    }
}

/// The values of a tag's posts.
pub open spec fn tag_view(g: TagPosts) -> (Seq<char>, Seq<PostView>) {
    (g.tag@, posts_view(g.posts@))
}

/// The tags of the date-ordered `sorted`, in order of first appearance, each with its posts.
pub open spec fn tag_groups(sorted: Seq<PostView>) -> Seq<(Seq<char>, Seq<PostView>)> {
    let keys = distinct_in_order(all_tags(sorted));
    Seq::new(keys.len(), |k: int| (keys[k], posts_tagged(sorted, keys[k])))
}

/// A tag that no post carries has no posts.
proof fn lemma_untagged(ps: Seq<PostView>, t: Seq<char>)
    requires
        !all_tags(ps).contains(t),
    ensures
        posts_tagged(ps, t) == Seq::<PostView>::empty(),
    decreases ps.len(),
{
    if ps.len() > 0 {
        let prev = all_tags(ps.drop_last());
        let last = ps.last().meta.tags;
        if prev.contains(t) {
            let k = choose|k: int| 0 <= k < prev.len() && prev[k] == t;
            assert((prev + last)[k] == t);
        }
        lemma_untagged(ps.drop_last(), t);
        lemma_count_absent(last, t);
        if last.contains(t) {
            let k = choose|k: int| 0 <= k < last.len() && last[k] == t;
            assert((prev + last)[prev.len() + k] == t);
        }
        assert(copies(ps.last(), 0) =~= Seq::<PostView>::empty());
        assert(posts_tagged(ps, t) =~= Seq::<PostView>::empty());
    }
}

/// An element that does not occur is counted zero times.
proof fn lemma_count_absent(s: Seq<Seq<char>>, x: Seq<char>)
    ensures
        !s.contains(x) ==> count_of(s, x) == 0,
    decreases s.len(),
{
    if s.len() > 0 {
        if !s.contains(x) {
            if s.drop_last().contains(x) {
                let k = choose|k: int| 0 <= k < s.drop_last().len() && s.drop_last()[k] == x;
                assert(s[k] == x);
            }
            assert(s.last() != x) by {
                if s.last() == x {
                    assert(s[s.len() - 1] == x);
                }
            }
        }
        lemma_count_absent(s.drop_last(), x);
    }
}

/// The values of a list of tags with their posts.
pub open spec fn groups_view(gs: Seq<TagPosts>) -> Seq<(Seq<char>, Seq<PostView>)> {
    gs.map_values(|g: TagPosts| tag_view(g))
}

/// The tags with their posts once the posts `done`, and then the tags `ptags` of post `p`, have
/// been gone through.
pub open spec fn group_state(done: Seq<PostView>, p: PostView, ptags: Seq<Seq<char>>) -> Seq<(Seq<char>, Seq<PostView>)> {
    let d = distinct_in_order(all_tags(done) + ptags);
    Seq::new(d.len(), |k: int| (d[k], posts_tagged(done, d[k]) + copies(p, count_of(ptags, d[k]))))
}

/// One more tag of post `pv`: the group of that tag, if there is one, gains `pv`; otherwise a
/// group of it alone is added at the end.
proof fn step_group_state(done: Seq<PostView>, pv: PostView, ptags: Seq<Seq<char>>, j: int)
    requires
        0 <= j < ptags.len(),
    ensures
        ({
            let t = ptags[j];
            let d = distinct_in_order(all_tags(done) + ptags.take(j));
            let st = group_state(done, pv, ptags.take(j));
            let st2 = group_state(done, pv, ptags.take(j + 1));
            &&& d.no_duplicates()
            &&& st.len() == d.len()
            &&& forall|m: int| 0 <= m < d.len() ==> #[trigger] st[m].0 == d[m]
            &&& forall|m: int| 0 <= m < d.len() && d[m] == t ==> st2 == st.update(m, (t, st[m].1.push(pv)))
            &&& !d.contains(t) ==> st2 == st.push((t, seq![pv]))
        }),
{
    let t = ptags[j];
    let l = all_tags(done) + ptags.take(j);
    let l2 = all_tags(done) + ptags.take(j + 1);
    assert(l2.drop_last() =~= l);
    assert(l2.last() == t);
    assert(ptags.take(j + 1).drop_last() =~= ptags.take(j));
    let d = distinct_in_order(l);
    lemma_distinct_no_repeats(l);
    let st = group_state(done, pv, ptags.take(j));
    let st2 = group_state(done, pv, ptags.take(j + 1));
    assert forall|m: int| 0 <= m < d.len() && d[m] == t implies st2 == st.update(m, (t, st[m].1.push(pv))) by {
        lemma_distinct_contains(l, t);
        assert(d.contains(t));
        assert forall|q: int| 0 <= q < d.len() implies #[trigger] st2[q] == st.update(m, (t, st[m].1.push(pv)))[q] by {
            let c = count_of(ptags.take(j), d[q]);
            if q == m {
                assert(copies(pv, c + 1) =~= copies(pv, c).push(pv));
                assert(posts_tagged(done, t) + copies(pv, c).push(pv) =~= (posts_tagged(done, t) + copies(pv, c)).push(pv));
            } else {
                assert(d[q] != t);
            }
        }
        assert(st2 =~= st.update(m, (t, st[m].1.push(pv))));
    }
    if !d.contains(t) {
        lemma_distinct_contains(l, t);
        assert(!all_tags(done).contains(t)) by {
            if all_tags(done).contains(t) {
                let q = choose|q: int| 0 <= q < all_tags(done).len() && all_tags(done)[q] == t;
                assert(l[q] == t);
            }
        }
        assert(!ptags.take(j).contains(t)) by {
            if ptags.take(j).contains(t) {
                let q = choose|q: int| 0 <= q < ptags.take(j).len() && ptags.take(j)[q] == t;
                assert(l[all_tags(done).len() + q] == t);
            }
        }
        lemma_untagged(done, t);
        lemma_count_absent(ptags.take(j), t);
        assert forall|q: int| 0 <= q < d.len() + 1 implies #[trigger] st2[q] == st.push((t, seq![pv]))[q] by {
            if q == d.len() {
                assert(copies(pv, 1) =~= seq![pv]);
                assert(Seq::<PostView>::empty() + seq![pv] =~= seq![pv]);
            } else {
                assert(d[q] != t) by {
                    if d[q] == t {
                        assert(d.contains(t));
                    }
                }
            }
        }
        assert(st2 =~= st.push((t, seq![pv])));
    }
}

/// Once every tag of the next post is gone through, the groups are those of one more post.
proof fn finish_post(sorted: Seq<PostView>, i: int)
    requires
        0 <= i < sorted.len(),
    ensures
        group_state(sorted.take(i), sorted[i], sorted[i].meta.tags.take(sorted[i].meta.tags.len() as int))
            == tag_groups(sorted.take(i + 1)),
{
    let done = sorted.take(i);
    let p = sorted[i];
    let ptags = p.meta.tags;
    assert(ptags.take(ptags.len() as int) =~= ptags);
    assert(sorted.take(i + 1).drop_last() =~= done);
    assert(sorted.take(i + 1).last() == p);
    assert(all_tags(sorted.take(i + 1)) == all_tags(done) + ptags);
    assert(group_state(done, p, ptags) =~= tag_groups(sorted.take(i + 1)));
}

/// Finds the group of tag `t`.
fn find_group(groups: &Vec<TagPosts>, t: &String) -> (r: Option<usize>)
    ensures
        match r {
            Some(k) => k < groups@.len() && groups@[k as int].tag@ == t@,
            None => forall|m: int| 0 <= m < groups@.len() ==> groups@[m].tag@ != t@,
        },
{
    let mut k: usize = 0;
    while k < groups.len()
        invariant
            k <= groups.len(),
            forall|m: int| 0 <= m < k ==> groups@[m].tag@ != t@,
        decreases groups.len() - k,
    {
        if groups[k].tag == *t {
            return Some(k);
        }
        k = k + 1;
    }
    None
}

/// Groups the posts by tag, in order of first appearance of the tags in the date-ordered posts.
fn group_by_tag(posts: &Vec<Post>) -> (r: Vec<TagPosts>)
    ensures
        groups_view(r@) == tag_groups(posts_view(posts@)),
{
    let ghost sorted = posts_view(posts@);
    let mut groups: Vec<TagPosts> = Vec::new();
    let mut i: usize = 0;
    assert(groups_view(groups@) =~= tag_groups(sorted.take(0)));
    while i < posts.len()
        invariant
            sorted == posts_view(posts@),
            i <= posts.len(),
            groups_view(groups@) == tag_groups(sorted.take(i as int)),
        decreases posts.len() - i,
    {
        let p = &posts[i];
        let ghost done = sorted.take(i as int);
        let ghost pv = p@;
        let ghost ptags = pv.meta.tags;
        assert(sorted[i as int] == pv);
        assert(all_tags(done) + ptags.take(0) =~= all_tags(done));
        assert forall|k: int| 0 <= k < groups_view(groups@).len() implies
            #[trigger] groups_view(groups@)[k] == group_state(done, pv, ptags.take(0))[k] by {
            let key = distinct_in_order(all_tags(done))[k];
            assert(copies(pv, count_of(ptags.take(0), key)) =~= Seq::<PostView>::empty());
            assert(posts_tagged(done, key) + Seq::<PostView>::empty() =~= posts_tagged(done, key));
        }
        assert(groups_view(groups@) =~= group_state(done, pv, ptags.take(0)));
        let mut j: usize = 0;
        while j < p.meta.tags.len()
            invariant
                sorted == posts_view(posts@),
                i < posts.len(),
                p == posts@[i as int],
                done == sorted.take(i as int),
                pv == p@,
                ptags == pv.meta.tags,
                j <= ptags.len(),
                groups_view(groups@) == group_state(done, pv, ptags.take(j as int)),
            decreases p.meta.tags.len() - j,
        {
            let t = &p.meta.tags[j];
            assert(t@ == ptags[j as int]);
            proof {
                step_group_state(done, pv, ptags, j as int);
            }
            let ghost before = groups_view(groups@);
            let ghost d = distinct_in_order(all_tags(done) + ptags.take(j as int));
            let found = find_group(&groups, t);
            proof {
                assert forall|m: int| 0 <= m < d.len() implies d[m] == groups@[m].tag@ by {
                    assert(before[m] == tag_view(groups@[m]));
                }
            }
            if let Some(k) = found {
                assert(d[k as int] == t@);
                let ghost old_groups = groups@;
                let mut g = groups.remove(k);
                let ghost old_posts = g.posts@;
                let c = p.clone();
                g.posts.push(c);
                assert(posts_view(g.posts@) =~= posts_view(old_posts).push(pv));
                assert(tag_view(g) == (t@, before[k as int].1.push(pv)));
                groups.insert(k, g);
                assert(groups@ =~= old_groups.update(k as int, g));
                assert(groups_view(groups@) =~= before.update(k as int, (t@, before[k as int].1.push(pv))));
            } else {
                assert(!d.contains(t@)) by {
                    if d.contains(t@) {
                        let m = choose|m: int| 0 <= m < d.len() && d[m] == t@;
                        assert(groups@[m].tag@ == t@);
                    }
                }
                let ghost old_groups = groups@;
                let mut first: Vec<Post> = Vec::new();
                first.push(p.clone());
                assert(posts_view(first@) =~= seq![pv]);
                let g = TagPosts { tag: t.clone(), posts: first };
                assert(tag_view(g) == (t@, seq![pv]));
                groups.push(g);
                assert(groups@ =~= old_groups.push(g));
                assert(groups_view(groups@) =~= before.push((t@, seq![pv])));
            }
            j = j + 1;
        }
        proof {
            finish_post(sorted, i as int);
        }
        i = i + 1;
    }
    assert(sorted.take(posts.len() as int) =~= sorted);
    groups
}

/// Orders the posts by creation date and collects the posts of each tag: tags in order of first
/// appearance in the ordered posts, each with the posts that carry it, in date order.
pub fn index(posts: Vec<Post>) -> (r: SiteIndex)
    ensures
        posts_view(r.posts@) == sort_by_date(posts_view(posts@)),
        groups_view(r.tags@) == tag_groups(sort_by_date(posts_view(posts@))),
{
    let posts = sort_posts_by_date(posts);
    let tags = group_by_tag(&posts);
    SiteIndex { posts, tags }
}

/// Whether `s` is in date order.
pub open spec fn date_sorted(s: Seq<PostView>) -> bool {
    forall|i: int, j: int| 0 <= i < j < s.len() ==> date_le(#[trigger] s[i].meta.date_created, #[trigger] s[j].meta.date_created)
}

/// Whether every post of `s` is dated no later than `u`.
pub open spec fn all_not_after(s: Seq<PostView>, u: PostView) -> bool {
    forall|i: int| 0 <= i < s.len() ==> date_le(#[trigger] s[i].meta.date_created, u.meta.date_created)
}

/// Inserting keeps an upper bound.
proof fn lemma_insert_bound(s: Seq<PostView>, p: PostView, u: PostView)
    requires
        all_not_after(s, u),
        date_le(p.meta.date_created, u.meta.date_created),
    ensures
        all_not_after(insert_by_date(s, p), u),
    decreases s.len(),
{
    if s.len() > 0 && !date_le(s.last().meta.date_created, p.meta.date_created) {
        assert(all_not_after(s.drop_last(), u)) by {
            assert forall|i: int| 0 <= i < s.drop_last().len() implies date_le(#[trigger] s.drop_last()[i].meta.date_created, u.meta.date_created) by {
                assert(s.drop_last()[i] == s[i]);
            }
        }
        lemma_insert_bound(s.drop_last(), p, u);
        assert(s.last() == s[s.len() - 1]);
    }
}

/// Inserting into a date-ordered sequence keeps it in date order.
proof fn lemma_insert_sorted(s: Seq<PostView>, p: PostView)
    requires
        date_sorted(s),
    ensures
        date_sorted(insert_by_date(s, p)),
    decreases s.len(),
{
    if s.len() > 0 {
        let last = s.last();
        assert(last == s[s.len() - 1]);
        if date_le(last.meta.date_created, p.meta.date_created) {
            let r = s.push(p);
            assert forall|i: int, j: int| 0 <= i < j < r.len() implies date_le(#[trigger] r[i].meta.date_created, #[trigger] r[j].meta.date_created) by {
                if j == s.len() {
                    if i < s.len() - 1 {
                        assert(date_le(s[i].meta.date_created, s[s.len() - 1].meta.date_created));
                    }
                } else {
                    assert(r[i] == s[i] && r[j] == s[j]);
                }
            }
        } else {
            let init = s.drop_last();
            assert(date_sorted(init)) by {
                assert forall|i: int, j: int| 0 <= i < j < init.len() implies date_le(#[trigger] init[i].meta.date_created, #[trigger] init[j].meta.date_created) by {
                    assert(init[i] == s[i] && init[j] == s[j]);
                }
            }
            lemma_insert_sorted(init, p);
            assert(all_not_after(init, last)) by {
                assert forall|i: int| 0 <= i < init.len() implies date_le(#[trigger] init[i].meta.date_created, last.meta.date_created) by {
                    assert(init[i] == s[i]);
                }
            }
            lemma_insert_bound(init, p, last);
            let mid = insert_by_date(init, p);
            let r = mid.push(last);
            assert forall|i: int, j: int| 0 <= i < j < r.len() implies date_le(#[trigger] r[i].meta.date_created, #[trigger] r[j].meta.date_created) by {
                if j == mid.len() {
                    assert(r[i] == mid[i]);
                } else {
                    assert(r[i] == mid[i] && r[j] == mid[j]);
                }
            }
        }
    }
}

/// The index lists the posts in date order.
pub proof fn law_index_posts_in_date_order(ps: Seq<PostView>)
    ensures
        date_sorted(sort_by_date(ps)),
    decreases ps.len(),
{
    if ps.len() > 0 {
        law_index_posts_in_date_order(ps.drop_last());
        lemma_insert_sorted(sort_by_date(ps.drop_last()), ps.last());
    }
}

/// Inserting adds exactly the one post.
proof fn lemma_insert_multiset(s: Seq<PostView>, p: PostView)
    ensures
        insert_by_date(s, p).to_multiset() == s.to_multiset().insert(p),
    decreases s.len(),
{
    broadcast use vstd::seq_lib::to_multiset_build;
    broadcast use vstd::multiset::group_multiset_axioms;

    if s.len() == 0 {
        assert(insert_by_date(s, p) =~= s.push(p));
        assert(s.push(p).to_multiset() =~= s.to_multiset().insert(p));
    } else if date_le(s.last().meta.date_created, p.meta.date_created) {
        assert(s.push(p).to_multiset() =~= s.to_multiset().insert(p));
    } else {
        let init = s.drop_last();
        let last = s.last();
        lemma_insert_multiset(init, p);
        let mid = insert_by_date(init, p);
        assert(mid.push(last).to_multiset() =~= mid.to_multiset().insert(last));
        assert(init.push(last) =~= s);
        assert(init.push(last).to_multiset() =~= init.to_multiset().insert(last));
        assert(insert_by_date(s, p).to_multiset() =~= s.to_multiset().insert(p));
    }
}

/// The index lists each post as often as it was given: ordering loses and adds none.
pub proof fn law_index_keeps_every_post(ps: Seq<PostView>)
    ensures
        sort_by_date(ps).to_multiset() == ps.to_multiset(),
    decreases ps.len(),
{
    broadcast use vstd::seq_lib::to_multiset_build;

    if ps.len() == 0 {
        assert(sort_by_date(ps) =~= ps);
    } else {
        law_index_keeps_every_post(ps.drop_last());
        lemma_insert_multiset(sort_by_date(ps.drop_last()), ps.last());
        assert(ps.drop_last().push(ps.last()) =~= ps);
        assert(ps.drop_last().push(ps.last()).to_multiset() =~= ps.drop_last().to_multiset().insert(ps.last()));
    }
}

/// A post's tags are among all tags exactly when some post carries them.
proof fn lemma_all_tags_contains(ps: Seq<PostView>, t: Seq<char>)
    ensures
        all_tags(ps).contains(t) == exists|i: int| 0 <= i < ps.len() && (#[trigger] ps[i]).meta.tags.contains(t),
    decreases ps.len(),
{
    if ps.len() > 0 {
        let init = ps.drop_last();
        let a = all_tags(init);
        let b = ps.last().meta.tags;
        lemma_all_tags_contains(init, t);
        if all_tags(ps).contains(t) {
            let q = choose|q: int| 0 <= q < (a + b).len() && (a + b)[q] == t;
            if q < a.len() {
                assert(a[q] == t);
                let i = choose|i: int| 0 <= i < init.len() && (#[trigger] init[i]).meta.tags.contains(t);
                assert(ps[i] == init[i]);
            } else {
                assert(b[q - a.len()] == t);
                assert(ps[ps.len() - 1].meta.tags.contains(t));
            }
        }
        if exists|i: int| 0 <= i < ps.len() && (#[trigger] ps[i]).meta.tags.contains(t) {
            let i = choose|i: int| 0 <= i < ps.len() && (#[trigger] ps[i]).meta.tags.contains(t);
            if i < init.len() {
                assert(init[i] == ps[i]);
                let q = choose|q: int| 0 <= q < a.len() && a[q] == t;
                assert((a + b)[q] == t);
            } else {
                let q = choose|q: int| 0 <= q < b.len() && b[q] == t;
                assert((a + b)[a.len() + q] == t);
            }
        }
    }
}

/// An element counted at least once occurs.
proof fn lemma_count_positive(s: Seq<Seq<char>>, x: Seq<char>)
    ensures
        count_of(s, x) > 0 ==> s.contains(x),
        s.contains(x) ==> count_of(s, x) > 0,
    decreases s.len(),
{
    if s.len() > 0 {
        lemma_count_positive(s.drop_last(), x);
        if count_of(s, x) > 0 && s.last() != x {
            let k = choose|k: int| 0 <= k < s.drop_last().len() && s.drop_last()[k] == x;
            assert(s[k] == x);
        }
        if s.last() == x {
            assert(s[s.len() - 1] == x);
        }
        if s.contains(x) && s.last() != x {
            let k = choose|k: int| 0 <= k < s.len() && s[k] == x;
            assert(s.drop_last()[k] == x);
        }
    }
}

/// Every post listed under a tag carries the tag, and comes from the posts given.
proof fn lemma_tagged_members(ps: Seq<PostView>, t: Seq<char>)
    ensures
        forall|k: int| 0 <= k < posts_tagged(ps, t).len() ==> (#[trigger] posts_tagged(ps, t)[k]).meta.tags.contains(t),
        forall|k: int| 0 <= k < posts_tagged(ps, t).len() ==> exists|m: int| 0 <= m < ps.len() && ps[m] == #[trigger] posts_tagged(ps, t)[k],
    decreases ps.len(),
{
    if ps.len() > 0 {
        let init = ps.drop_last();
        lemma_tagged_members(init, t);
        lemma_count_positive(ps.last().meta.tags, t);
        let a = posts_tagged(init, t);
        let r = posts_tagged(ps, t);
        assert forall|k: int| 0 <= k < r.len() implies (#[trigger] r[k]).meta.tags.contains(t) && exists|m: int| 0 <= m < ps.len() && ps[m] == r[k] by {
            if k < a.len() {
                assert(r[k] == a[k]);
                let m = choose|m: int| 0 <= m < init.len() && init[m] == a[k];
                assert(ps[m] == init[m]);
            } else {
                assert(r[k] == ps.last());
                assert(ps[ps.len() - 1] == ps.last());
            }
        }
    }
}

/// Every post that carries a tag is listed under it.
proof fn lemma_tagged_complete(ps: Seq<PostView>, t: Seq<char>, m: int)
    requires
        0 <= m < ps.len(),
        ps[m].meta.tags.contains(t),
    ensures
        posts_tagged(ps, t).contains(ps[m]),
    decreases ps.len(),
{
    let init = ps.drop_last();
    let a = posts_tagged(init, t);
    let r = posts_tagged(ps, t);
    if m < ps.len() - 1 {
        assert(init[m] == ps[m]);
        lemma_tagged_complete(init, t, m);
        let k = choose|k: int| 0 <= k < a.len() && a[k] == ps[m];
        assert(r[k] == a[k]);
    } else {
        lemma_count_positive(ps.last().meta.tags, t);
        assert(r[a.len() as int] == ps.last());
    }
}

/// The posts listed under a tag are in date order when all posts are.
proof fn lemma_tagged_sorted(ps: Seq<PostView>, t: Seq<char>)
    requires
        date_sorted(ps),
    ensures
        date_sorted(posts_tagged(ps, t)),
    decreases ps.len(),
{
    if ps.len() > 0 {
        let init = ps.drop_last();
        let last = ps.last();
        assert(last == ps[ps.len() - 1]);
        assert(date_sorted(init)) by {
            assert forall|i: int, j: int| 0 <= i < j < init.len() implies date_le(#[trigger] init[i].meta.date_created, #[trigger] init[j].meta.date_created) by {
                assert(init[i] == ps[i] && init[j] == ps[j]);
            }
        }
        lemma_tagged_sorted(init, t);
        lemma_tagged_members(init, t);
        let a = posts_tagged(init, t);
        let r = posts_tagged(ps, t);
        assert forall|i: int, j: int| 0 <= i < j < r.len() implies date_le(#[trigger] r[i].meta.date_created, #[trigger] r[j].meta.date_created) by {
            if j < a.len() {
                assert(r[i] == a[i] && r[j] == a[j]);
            } else if i < a.len() {
                assert(r[i] == a[i]);
                assert(r[j] == last);
                let m = choose|m: int| 0 <= m < init.len() && init[m] == a[i];
                assert(ps[m] == init[m]);
            } else {
                assert(r[i] == last && r[j] == last);
            }
        }
    }
}

/// Of the tag groups of the index of `posts`: no tag heads two groups; a tag heads a group
/// exactly when some post carries it; a group lists only posts that carry its tag, lists every
/// such post, and lists them in date order.
pub proof fn law_tag_groups(posts: Seq<PostView>, t: Seq<char>)
    ensures
        ({
            let sorted = sort_by_date(posts);
            let g = tag_groups(sorted);
            &&& forall|a: int, b: int| 0 <= a < b < g.len() ==> (#[trigger] g[a]).0 != (#[trigger] g[b]).0
            &&& (exists|k: int| 0 <= k < g.len() && (#[trigger] g[k]).0 == t)
                == (exists|i: int| 0 <= i < sorted.len() && (#[trigger] sorted[i]).meta.tags.contains(t))
            &&& forall|k: int| 0 <= k < g.len() && (#[trigger] g[k]).0 == t ==> {
                &&& forall|q: int| 0 <= q < g[k].1.len() ==> (#[trigger] g[k].1[q]).meta.tags.contains(t)
                &&& forall|i: int| 0 <= i < sorted.len() && (#[trigger] sorted[i]).meta.tags.contains(t) ==> g[k].1.contains(sorted[i])
                &&& date_sorted(g[k].1)
            }
        }),
{
    let sorted = sort_by_date(posts);
    law_index_posts_in_date_order(posts);
    let g = tag_groups(sorted);
    let keys = distinct_in_order(all_tags(sorted));
    lemma_distinct_no_repeats(all_tags(sorted));
    lemma_distinct_contains(all_tags(sorted), t);
    lemma_all_tags_contains(sorted, t);
    if exists|k: int| 0 <= k < g.len() && (#[trigger] g[k]).0 == t {
        let k = choose|k: int| 0 <= k < g.len() && (#[trigger] g[k]).0 == t;
        assert(keys[k] == t);
    }
    if keys.contains(t) {
        let k = choose|k: int| 0 <= k < keys.len() && keys[k] == t;
        assert(g[k].0 == t);
    }
    lemma_tagged_members(sorted, t);
    lemma_tagged_sorted(sorted, t);
    assert forall|i: int| 0 <= i < sorted.len() && (#[trigger] sorted[i]).meta.tags.contains(t) implies posts_tagged(sorted, t).contains(sorted[i]) by {
        lemma_tagged_complete(sorted, t, i);
    }
}

} // verus!
