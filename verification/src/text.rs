//! Character-level helpers shared by the page-building logic.
use vstd::prelude::*;
use vstd::string::*;

verus! {

/// The characters of `s`, in order.
pub fn chars_of(s: &str) -> (r: Vec<char>)
    ensures
        r@ == s@,
{
    broadcast use vstd::string::group_string_axioms;

    let mut r: Vec<char> = Vec::new();
    for c in it: s.chars()
        invariant
            it.seq() == s@,
            r@ == s@.take(it.index() as int),
    {
        r.push(c);
    }
    assert(r@ =~= s@);
    r
}

/// `String::push`: appends one character.
#[verifier::external_body]
pub(crate) fn push_char(s: &mut String, c: char)
    ensures
        final(s)@ == old(s)@.push(c),
{
    s.push(c);
}

/// Whether `pat` occurs in `s` starting at index `i`.
pub open spec fn occurs_at(s: Seq<char>, i: int, pat: Seq<char>) -> bool {
    &&& 0 <= i
    &&& i + pat.len() <= s.len()
    &&& s.subrange(i, i + pat.len()) == pat
}

/// Tests whether `pat` occurs in `s` starting at index `i`.
pub fn matches_at(s: &Vec<char>, i: usize, pat: &Vec<char>) -> (r: bool)
    ensures
        r == occurs_at(s@, i as int, pat@),
{
    if i > s.len() || pat.len() > s.len() - i {
        return false;
    }
    let mut k: usize = 0;
    while k < pat.len()
        invariant
            i + pat.len() <= s.len(),
            k <= pat.len(),
            forall|m: int| 0 <= m < k ==> s@[i + m] == pat@[m],
        decreases pat.len() - k,
    {
        if s[i + k] != pat[k] {
            assert(s@.subrange(i as int, i + pat.len())[k as int] != pat@[k as int]);
            return false;
        }
        k = k + 1;
    }
    assert(s@.subrange(i as int, i + pat@.len()) =~= pat@);
    true
}

/// Whether two character sequences are equal, compared one character at a time.
pub fn same_text(a: &str, b: &str) -> (r: bool)
    ensures
        r == (a@ == b@),
{
    let ca = chars_of(a);
    let cb = chars_of(b);
    if ca.len() != cb.len() {
        return false;
    }
    let mut k: usize = 0;
    while k < ca.len()
        invariant
            ca@ == a@,
            cb@ == b@,
            ca.len() == cb.len(),
            k <= ca.len(),
            forall|m: int| 0 <= m < k ==> ca@[m] == cb@[m],
        decreases ca.len() - k,
    {
        if ca[k] != cb[k] {
            return false;
        }
        k = k + 1;
    }
    assert(ca@ =~= cb@);
    true
}

/// The decimal digit character for `d < 10`.
pub open spec fn digit_char(d: nat) -> char {
    ((48 + d) as u8) as char
}

/// The decimal representation of `n`, without leading zeros.
pub open spec fn decimal(n: nat) -> Seq<char>
    decreases n,
{
    if n < 10 {
        seq![digit_char(n)]
    } else {
        decimal(n / 10).push(digit_char(n % 10))
    }
}

/// Appends the decimal representation of `n` to `s`.
pub fn push_decimal(s: &mut String, n: u64)
    ensures
        final(s)@ == old(s)@ + decimal(n as nat),
    decreases n,
{
    if n >= 10 {
        push_decimal(s, n / 10);
    }
    let d: u8 = (n % 10) as u8;
    push_char(s, (48u8 + d) as char);
    assert(old(s)@ + decimal(n as nat) =~= s@);
}

/// The index of the first occurrence of `x` in `s` (`s.len()` where there is none).
pub open spec fn first_index(s: Seq<Seq<char>>, x: Seq<char>) -> int
    decreases s.len(),
{
    if s.len() == 0 {
        0
    } else if s[0] == x {
        0
    } else {
        1 + first_index(s.drop_first(), x)
    }
}

/// Where `x` first stands in `s`, if no earlier element is `x`.
pub proof fn lemma_first_index(s: Seq<Seq<char>>, x: Seq<char>, j: int)
    requires
        0 <= j <= s.len(),
        j < s.len() ==> s[j] == x,
        forall|k: int| 0 <= k < j ==> s[k] != x,
    ensures
        first_index(s, x) == j,
    decreases j,
{
    if j > 0 {
        lemma_first_index(s.drop_first(), x, j - 1);
    }
}

/// `s` without its first `k` characters.
pub open spec fn skip_chars(s: Seq<char>, k: usize) -> Seq<char> {
    s.skip(k as int)
}

/// Skipping nothing leaves the text as it is.
pub proof fn lemma_skip_chars_zero(s: Seq<char>)
    ensures
        skip_chars(s, 0) == s,
{
    assert(s.skip(0) =~= s);
}

/// Skipping one more character drops the first of what was left.
pub proof fn lemma_skip_chars_next(s: Seq<char>, k: usize)
    requires
        k < s.len(),
        k < usize::MAX,
    ensures
        skip_chars(s, k).drop_first() == skip_chars(s, (k + 1) as usize),
        skip_chars(s, k)[0] == s[k as int],
{
    assert(s.skip(k as int).drop_first() =~= s.skip(k + 1));
}

/// What is left after `k` characters starts with the `k`-th, or is empty at the end.
pub proof fn lemma_skip_chars_start(s: Seq<char>, k: usize)
    requires
        k <= s.len(),
    ensures
        k == s.len() ==> skip_chars(s, k).len() == 0,
        k < s.len() ==> skip_chars(s, k).len() > 0 && skip_chars(s, k)[0] == s[k as int],
{
}

/// The distinct elements of `s`, in order of first occurrence.
pub open spec fn distinct_in_order(s: Seq<Seq<char>>) -> Seq<Seq<char>>
    decreases s.len(),
{
    if s.len() == 0 {
        seq![]
    } else {
        let d = distinct_in_order(s.drop_last());
        if d.contains(s.last()) { d } else { d.push(s.last()) }
    }
}

/// An element is among the distinct elements exactly when it occurs.
pub proof fn lemma_distinct_contains(s: Seq<Seq<char>>, x: Seq<char>)
    ensures
        distinct_in_order(s).contains(x) == s.contains(x),
    decreases s.len(),
{
    if s.len() > 0 {
        lemma_distinct_contains(s.drop_last(), x);
        let d = distinct_in_order(s.drop_last());
        if s.drop_last().contains(x) {
            let k = choose|k: int| 0 <= k < s.drop_last().len() && s.drop_last()[k] == x;
            assert(s[k] == x);
        }
        if s.contains(x) && x != s.last() {
            let k = choose|k: int| 0 <= k < s.len() && s[k] == x;
            assert(s.drop_last()[k] == x);
        }
        if x == s.last() && !d.contains(x) {
            assert(d.push(x)[d.len() as int] == x);
        }
        if d.contains(x) && !d.contains(s.last()) {
            let k = choose|k: int| 0 <= k < d.len() && d[k] == x;
            assert(d.push(s.last())[k] == x);
        }
        if d.push(s.last()).contains(x) && x != s.last() {
            let k = choose|k: int| 0 <= k < d.len() + 1 && d.push(s.last())[k] == x;
            assert(d[k] == x);
        }
    }
}

/// The distinct elements have no repeats.
pub proof fn lemma_distinct_no_repeats(s: Seq<Seq<char>>)
    ensures
        distinct_in_order(s).no_duplicates(),
    decreases s.len(),
{
    if s.len() > 0 {
        lemma_distinct_no_repeats(s.drop_last());
    }
}

} // verus!
