//! Which category each tag belongs to.
use vstd::prelude::*;
use crate::markdown::texts;
use crate::text::{first_index, lemma_first_index};
use crate::types::TagCategory;

verus! {

/// Each tag with the name and colour of the category that lists it, in category order.
pub struct TagMap {
    pub entries: Vec<(String, String, String)>,
}

/// The value of a tag map entry: tag, category name, category colour.
pub open spec fn entry_view(e: (String, String, String)) -> (Seq<char>, Seq<char>, Seq<char>) {
    (e.0@, e.1@, e.2@)
}

/// The values of the entries of a tag map.
pub open spec fn entries_view(v: Seq<(String, String, String)>) -> Seq<(Seq<char>, Seq<char>, Seq<char>)> {
    v.map_values(|e: (String, String, String)| entry_view(e))
}

/// The tags that a category lists, each with the category's name and colour.
pub open spec fn category_pairs(c: TagCategory) -> Seq<(Seq<char>, Seq<char>, Seq<char>)> {
    texts(c.tags@).map_values(|t: Seq<char>| (t, c.name@, c.color@))
}

/// The tags of all categories, in order, each with its category's name and colour.
pub open spec fn tag_pairs(cats: Seq<TagCategory>) -> Seq<(Seq<char>, Seq<char>, Seq<char>)>
    decreases cats.len(),
{
    if cats.len() == 0 {
        seq![]
    } else {
        tag_pairs(cats.drop_last()) + category_pairs(cats.last())
    }
}

/// The tags of a sequence of tag map entries.
pub open spec fn pair_tags(ps: Seq<(Seq<char>, Seq<char>, Seq<char>)>) -> Seq<Seq<char>> {
    ps.map_values(|e: (Seq<char>, Seq<char>, Seq<char>)| e.0)
}

/// The first index at which `s` repeats an earlier element.
pub open spec fn first_repeat(s: Seq<Seq<char>>) -> Option<int>
    decreases s.len(),
{
    if s.len() == 0 {
        None
    } else {
        match first_repeat(s.drop_last()) {
            Some(k) => Some(k),
            None => if s.drop_last().contains(s.last()) { Some(s.len() - 1) } else { None },
        }
    }
}

/// The category name and colour of tag `t`: those of its first entry.
pub open spec fn tag_entry(ps: Seq<(Seq<char>, Seq<char>, Seq<char>)>, t: Seq<char>) -> Option<(Seq<char>, Seq<char>)> {
    if pair_tags(ps).contains(t) {
        let e = ps[first_index(pair_tags(ps), t)];
        Some((e.1, e.2))
    } else {
        None
    }
}

/// A tag listed twice, in two categories or in one.
pub struct TagMapError {
    /// The tag.
    pub tag: String,
    /// The category that lists it first.
    pub first: String,
    /// The category that lists it again.
    pub second: String,
}

/// What `{:?}` writes for the text `s`: the text quoted, with characters escaped as `str`'s
/// `Debug` escapes them.
pub uninterp spec fn debug_quoted(s: Seq<char>) -> Seq<char>;

/// Whether `c` is printable ASCII other than a quote, an apostrophe or a backslash: a character
/// that `{:?}` writes as it is.
pub open spec fn is_plain_char(c: char) -> bool {
    ' ' <= c && c <= '~' && c != '"' && c != '\'' && c != '\\'
}

/// `format!("{:?}", s)` for a string slice: the text in double quotes, with characters
/// escaped as `str`'s `Debug` escapes them. The result is named by `debug_quoted`, a function of
/// the text alone; of a text made only of printable ASCII other than quotes and backslashes it is
/// stated: the text between two double quotes.
#[verifier::external_body]
fn debug_quote(s: &str) -> (r: String)
    ensures
        r@ == debug_quoted(s@),
        (forall|i: int| 0 <= i < s@.len() ==> is_plain_char(#[trigger] s@[i])) ==> r@ == seq!['"'] + s@ + seq!['"'],
{
    format!("{:?}", s)
}

/// Whether `s` is made only of characters that `{:?}` writes as they are.
pub open spec fn is_plain_text(s: Seq<char>) -> bool {
    forall|i: int| 0 <= i < s.len() ==> is_plain_char(#[trigger] s[i])
}

/// `s` between two double quotes.
pub open spec fn quoted(s: Seq<char>) -> Seq<char> {
    seq!['"'] + s + seq!['"']
}

/// The error message naming a tag listed twice and the two categories that list it.
pub open spec fn repeat_message(tag: Seq<char>, first: Seq<char>, second: Seq<char>) -> Seq<char> {
    "tag "@ + debug_quoted(tag) + " appears in both "@ + debug_quoted(first) + " and "@ + debug_quoted(second)
}

impl TagMapError {
    /// The error message: `tag "<tag>" appears in both "<first>" and "<second>"`, each name
    /// quoted and escaped as `{:?}` writes it.
    pub fn message(&self) -> (r: String)
        ensures
            r@ == repeat_message(self.tag@, self.first@, self.second@),
            is_plain_text(self.tag@) && is_plain_text(self.first@) && is_plain_text(self.second@) ==> r@
                == "tag "@ + quoted(self.tag@) + " appears in both "@ + quoted(self.first@) + " and "@ + quoted(
                self.second@,
            ),
    {
        let mut m = String::new();
        m.append("tag ");
        m.append(debug_quote(self.tag.as_str()).as_str());
        m.append(" appears in both ");
        m.append(debug_quote(self.first.as_str()).as_str());
        m.append(" and ");
        m.append(debug_quote(self.second.as_str()).as_str());
        m
    }
}

/// Whether no tag is listed twice across `cats`.
pub open spec fn tags_unique(cats: Seq<TagCategory>) -> bool {
    first_repeat(pair_tags(tag_pairs(cats))) is None
}

/// Whether `e` names the first tag that `cats` list twice, the category that lists it first
/// and the category that lists it again.
pub open spec fn describes_repeat(cats: Seq<TagCategory>, e: TagMapError) -> bool {
    let ps = tag_pairs(cats);
    let keys = pair_tags(ps);
    match first_repeat(keys) {
        Some(k) => e.tag@ == keys[k] && e.first@ == ps[first_index(keys, keys[k])].1 && e.second@ == ps[k].1,
        None => false,
    }
}

/// A repeat found in a prefix is the first repeat of the whole.
proof fn lemma_first_repeat_prefix(s: Seq<Seq<char>>, m: int)
    requires
        0 <= m <= s.len(),
        first_repeat(s.take(m)) is Some,
    ensures
        first_repeat(s) == first_repeat(s.take(m)),
    decreases s.len(),
{
    if s.len() == m {
        assert(s.take(m) =~= s);
    } else {
        assert(s.drop_last().take(m) =~= s.take(m));
        lemma_first_repeat_prefix(s.drop_last(), m);
    }
}

/// The tags of the first categories, and then of the next one, begin the tags of all.
proof fn lemma_pairs_prefix(cats: Seq<TagCategory>, c: int)
    requires
        0 <= c < cats.len(),
    ensures
        ({
            let p = tag_pairs(cats.take(c)) + category_pairs(cats[c]);
            p.len() <= tag_pairs(cats).len() && tag_pairs(cats).take(p.len() as int) == p
        }),
    decreases cats.len(),
{
    let p = tag_pairs(cats.take(c)) + category_pairs(cats[c]);
    assert(cats.take(c + 1).drop_last() =~= cats.take(c));
    if c == cats.len() - 1 {
        assert(cats.take(c + 1) =~= cats);
        assert(tag_pairs(cats).take(p.len() as int) =~= p);
    } else {
        assert(cats.drop_last().take(c) =~= cats.take(c));
        lemma_pairs_prefix(cats.drop_last(), c);
        let q = tag_pairs(cats.drop_last());
        assert(tag_pairs(cats).take(p.len() as int) =~= q.take(p.len() as int));
    }
}

/// Finds the first entry of tag `t` among `entries`.
fn find_entry(entries: &Vec<(String, String, String)>, t: &String) -> (r: Option<usize>)
    ensures
        match r {
            Some(j) => j < entries@.len() && entries@[j as int].0@ == t@
                && forall|m: int| 0 <= m < j ==> entries@[m].0@ != t@,
            None => forall|m: int| 0 <= m < entries@.len() ==> entries@[m].0@ != t@,
        },
{
    let mut j: usize = 0;
    while j < entries.len()
        invariant
            j <= entries.len(),
            forall|m: int| 0 <= m < j ==> entries@[m].0@ != t@,
        decreases entries.len() - j,
    {
        if entries[j].0 == *t {
            return Some(j);
        }
        j = j + 1;
    }
    None
}

/// Maps each tag to the category that lists it.
///
/// Fails where a tag is listed twice, naming the tag and the two categories (which may be the
/// same one) at its first repeat.
pub fn make_tag_map(categories: &[TagCategory]) -> (r: Result<TagMap, TagMapError>)
    ensures
        tags_unique(categories@) ==> (r matches Ok(m) && entries_view(m.entries@) == tag_pairs(categories@)),
        !tags_unique(categories@) ==> (r matches Err(e) && describes_repeat(categories@, e)),
{
    let ghost cats = categories@;
    let mut entries: Vec<(String, String, String)> = Vec::new();
    let mut c: usize = 0;
    assert(cats.take(0) =~= Seq::<TagCategory>::empty());
    assert(entries_view(entries@) =~= tag_pairs(cats.take(0)));
    while c < categories.len()
        invariant
            cats == categories@,
            c <= cats.len(),
            entries_view(entries@) == tag_pairs(cats.take(c as int)),
            first_repeat(pair_tags(entries_view(entries@))) is None,
        decreases categories.len() - c,
    {
        let cat = &categories[c];
        let ghost base = tag_pairs(cats.take(c as int));
        let ghost mine = category_pairs(cats[c as int]);
        assert(cats[c as int] == *cat);
        assert(mine.take(0) =~= Seq::<(Seq<char>, Seq<char>, Seq<char>)>::empty());
        assert(base + mine.take(0) =~= base);
        let mut j: usize = 0;
        while j < cat.tags.len()
            invariant
                cats == categories@,
                c < cats.len(),
                *cat == cats[c as int],
                base == tag_pairs(cats.take(c as int)),
                mine == category_pairs(cats[c as int]),
                j <= cat.tags@.len(),
                entries_view(entries@) == base + mine.take(j as int),
                first_repeat(pair_tags(entries_view(entries@))) is None,
            decreases cat.tags.len() - j,
        {
            let t = &cat.tags[j];
            let ghost cur = entries_view(entries@);
            let ghost next = base + mine.take(j + 1);
            assert(next =~= cur.push((t@, cat.name@, cat.color@)));
            assert(pair_tags(next).drop_last() =~= pair_tags(cur));
            match find_entry(&entries, t) {
                Some(j0) => {
                    proof {
                        let keys = pair_tags(tag_pairs(cats));
                        assert(pair_tags(cur)[j0 as int] == t@);
                        assert(first_repeat(pair_tags(next)) == Some(cur.len() as int));
                        lemma_pairs_prefix(cats, c as int);
                        let whole = base + mine;
                        assert(whole.take(next.len() as int) =~= next);
                        let all = tag_pairs(cats);
                        assert(all.take(next.len() as int) =~= next);
                        assert(pair_tags(all).take(next.len() as int) =~= pair_tags(next));
                        lemma_first_repeat_prefix(pair_tags(all), next.len() as int);
                        assert(keys[cur.len() as int] == t@);
                        assert(all[cur.len() as int] == next[cur.len() as int]);
                        assert forall|m: int| 0 <= m < j0 implies keys[m] != t@ by {
                            assert(keys[m] == pair_tags(cur)[m]);
                        }
                        assert(keys[j0 as int] == t@);
                        lemma_first_index(keys, t@, j0 as int);
                        assert(all[j0 as int] == cur[j0 as int]);
                    }
                    return Err(TagMapError {
                        tag: t.clone(),
                        first: entries[j0].1.clone(),
                        second: cat.name.clone(),
                    });
                },
                None => {
                    proof {
                        assert(!pair_tags(cur).contains(t@)) by {
                            if pair_tags(cur).contains(t@) {
                                let m = choose|m: int| 0 <= m < pair_tags(cur).len() && pair_tags(cur)[m] == t@;
                                assert(cur[m] == entry_view(entries@[m]));
                            }
                        }
                    }
                    let ghost before = entries@;
                    entries.push((t.clone(), cat.name.clone(), cat.color.clone()));
                    assert(entries_view(entries@) =~= entries_view(before).push((t@, cat.name@, cat.color@)));
                },
            }
            j = j + 1;
        }
        assert(mine.take(cat.tags@.len() as int) =~= mine);
        assert(cats.take(c + 1).drop_last() =~= cats.take(c as int));
        c = c + 1;
    }
    assert(cats.take(cats.len() as int) =~= cats);
    Ok(TagMap { entries })
}

/// Without a repeat, no element occurs twice.
proof fn lemma_no_repeat_distinct(s: Seq<Seq<char>>)
    requires
        first_repeat(s) is None,
    ensures
        s.no_duplicates(),
    decreases s.len(),
{
    if s.len() > 0 {
        let init = s.drop_last();
        lemma_no_repeat_distinct(init);
        assert forall|i: int, j: int| 0 <= i < s.len() && 0 <= j < s.len() && i != j implies s[i] != s[j] by {
            if i < init.len() && j < init.len() {
                assert(s[i] == init[i] && s[j] == init[j]);
            } else if i == s.len() - 1 {
                assert(s[j] == init[j]);
                if s[i] == s[j] {
                    assert(init.contains(s.last()));
                }
            } else {
                assert(s[i] == init[i]);
                if s[i] == s[j] {
                    assert(init.contains(s.last()));
                }
            }
        }
    }
}

/// Where no tag is listed twice, looking up a tag that a category lists gives that category's
/// name and colour.
pub proof fn law_tag_map_gives_listing_category(cats: Seq<TagCategory>, ci: int, ti: int)
    requires
        tags_unique(cats),
        0 <= ci < cats.len(),
        0 <= ti < cats[ci].tags@.len(),
    ensures
        tag_entry(tag_pairs(cats), cats[ci].tags@[ti]@) == Some((cats[ci].name@, cats[ci].color@)),
{
    let ps = tag_pairs(cats);
    let keys = pair_tags(ps);
    let t = cats[ci].tags@[ti]@;
    lemma_no_repeat_distinct(keys);
    lemma_pairs_prefix(cats, ci);
    let prefix = tag_pairs(cats.take(ci));
    let mine = category_pairs(cats[ci]);
    let q = prefix.len() + ti;
    assert(ps.take((prefix + mine).len() as int) == prefix + mine);
    assert(ps[q] == (prefix + mine)[q]);
    assert(mine[ti] == (t, cats[ci].name@, cats[ci].color@));
    assert(keys[q] == t);
    assert forall|j: int| 0 <= j < q implies keys[j] != t by {
        assert(keys[j] != keys[q]);
    }
    lemma_first_index(keys, t, q);
    assert(keys.contains(t));
}

impl TagMap {
    /// The category name and colour of `tag`, where a category lists it.
    pub fn get(&self, tag: &String) -> (r: Option<(&String, &String)>)
        ensures
            match tag_entry(entries_view(self.entries@), tag@) {
                Some((name, color)) => r matches Some((n, c)) && n@ == name && c@ == color,
                None => r is None,
            },
    {
        let ghost ps = entries_view(self.entries@);
        match find_entry(&self.entries, tag) {
            Some(j) => {
                proof {
                    assert forall|m: int| 0 <= m < j implies pair_tags(ps)[m] != tag@ by {
                        assert(ps[m] == entry_view(self.entries@[m]));
                    }
                    assert(pair_tags(ps)[j as int] == tag@);
                    lemma_first_index(pair_tags(ps), tag@, j as int);
                }
                let e = &self.entries[j];
                Some((&e.1, &e.2))
            },
            None => {
                proof {
                    assert(!pair_tags(ps).contains(tag@)) by {
                        if pair_tags(ps).contains(tag@) {
                            let m = choose|m: int| 0 <= m < pair_tags(ps).len() && pair_tags(ps)[m] == tag@;
                            assert(ps[m] == entry_view(self.entries@[m]));
                        }
                    }
                }
                None
            },
        }
    }
}

/// The index of the last occurrence of `x` in `s`.
pub open spec fn last_index(s: Seq<Seq<char>>, x: Seq<char>) -> Option<int>
    decreases s.len(),
{
    if s.len() == 0 {
        None
    } else if s.last() == x {
        Some(s.len() - 1)
    } else {
        last_index(s.drop_last(), x)
    }
}

/// The rank of a tag's category among the category names in order: the index of the last
/// category of that name, or the largest `usize` where the tag has no listed category.
pub open spec fn category_rank(names: Seq<Seq<char>>, category: Option<Seq<char>>) -> int {
    match category {
        Some(c) => match last_index(names, c) {
            Some(i) => i,
            None => usize::MAX as int,
        },
        None => usize::MAX as int,
    }
}

} // verus!
