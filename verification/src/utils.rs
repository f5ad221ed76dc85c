//! Small text utilities.
use vstd::prelude::*;
use crate::text::{chars_of, push_char};

verus! {

/// Whether `c` is kept in a slug: an ASCII letter or digit.
pub open spec fn is_slug_char(c: char) -> bool {
    ('a' <= c && c <= 'z') || ('A' <= c && c <= 'Z') || ('0' <= c && c <= '9')
}

/// `c` with an ASCII capital letter made lower case.
pub open spec fn slug_lower(c: char) -> char {
    if 'A' <= c && c <= 'Z' {
        ((c as u32) + 32) as char
    } else {
        c
    }
}

/// Scans `cs` into a slug: the slug so far, and whether a separator is pending.
pub open spec fn slug_scan(cs: Seq<char>) -> (Seq<char>, bool)
    decreases cs.len(),
{
    if cs.len() == 0 {
        (seq![], false)
    } else {
        let (out, pending) = slug_scan(cs.drop_last());
        let c = cs.last();
        if is_slug_char(c) {
            let out2 = if pending && out.len() > 0 { out.push('-') } else { out };
            (out2.push(slug_lower(c)), false)
        } else {
            (out, true)
        }
    }
}

/// The slug of `cs`: its ASCII letters (made lower case) and digits, where each run of other
/// characters between two kept ones becomes a single `-`, and runs at either end are dropped.
pub open spec fn slug_of(cs: Seq<char>) -> Seq<char> {
    slug_scan(cs).0
}

/// Turns heading text into an anchor id.
pub fn slugify(text: &str) -> (r: String)
    ensures
        r@ == slug_of(text@),
{
    let cs = chars_of(text);
    let mut out = String::new();
    let mut pending = false;
    let mut i: usize = 0;
    while i < cs.len()
        invariant
            cs@ == text@,
            i <= cs.len(),
            (out@, pending) == slug_scan(cs@.take(i as int)),
        decreases cs.len() - i,
    {
        let c = cs[i];
        assert(cs@.take(i + 1).drop_last() =~= cs@.take(i as int));
        if ('a' <= c && c <= 'z') || ('A' <= c && c <= 'Z') || ('0' <= c && c <= '9') {
            if pending && out.as_str().unicode_len() > 0 {
                push_char(&mut out, '-');
            }
            if 'A' <= c && c <= 'Z' {
                let lower = ((c as u8) + 32) as char;
                assert(lower == slug_lower(c));
                push_char(&mut out, lower);
            } else {
                push_char(&mut out, c);
            }
            pending = false;
        } else {
            pending = true;
        }
        i = i + 1;
    }
    assert(cs@.take(cs.len() as int) =~= cs@);
    out
}

/// Whether `c` may stand in a slug: a lower-case ASCII letter, a digit, or `-`.
pub open spec fn is_slug_output_char(c: char) -> bool {
    ('a' <= c && c <= 'z') || ('0' <= c && c <= '9') || c == '-'
}

/// A slug holds only lower-case ASCII letters, digits and `-`, never starts or ends with `-`,
/// and never holds two `-` in a row.
pub proof fn law_slug_shape(cs: Seq<char>)
    ensures
        forall|i: int| 0 <= i < slug_of(cs).len() ==> is_slug_output_char(#[trigger] slug_of(cs)[i]),
        slug_of(cs).len() > 0 ==> slug_of(cs)[0] != '-' && slug_of(cs).last() != '-',
        forall|i: int| 0 <= i < slug_of(cs).len() - 1 ==> !(#[trigger] slug_of(cs)[i] == '-' && slug_of(cs)[i + 1] == '-'),
    decreases cs.len(),
{
    if cs.len() > 0 {
        law_slug_shape(cs.drop_last());
        let (out, pending) = slug_scan(cs.drop_last());
        let c = cs.last();
        if is_slug_char(c) {
            let out2 = if pending && out.len() > 0 { out.push('-') } else { out };
            let r = out2.push(slug_lower(c));
            assert(r == slug_of(cs));
            assert(is_slug_output_char(slug_lower(c)) && slug_lower(c) != '-');
            assert forall|i: int| 0 <= i < r.len() implies is_slug_output_char(#[trigger] r[i]) by {
                if i < out.len() {
                    assert(r[i] == out[i]);
                }
            }
            if out.len() > 0 {
                assert(r[0] == out[0]);
            }
            assert forall|i: int| 0 <= i < r.len() - 1 implies !(#[trigger] r[i] == '-' && r[i + 1] == '-') by {
                if i + 1 < out.len() {
                    assert(r[i] == out[i] && r[i + 1] == out[i + 1]);
                } else if i + 1 == out.len() {
                    assert(r[i] == out[i]);
                    assert(out[i] == out.last());
                }
            }
        }
    }
}

} // verus!
