//! Story ids: titles normalised into lowercase, dash-separated slugs.
use vstd::prelude::*;

use crate::text::{
    lemma_trimmed_end_take, lemma_trimmed_start_skip, push_char, trim_set, trimmed, trimmed_end,
    trimmed_start, TrimSet,
};

verus! {

/// `char::to_ascii_lowercase`: `A`..`Z` become `a`..`z`, everything else is unchanged.
pub open spec fn ascii_lower(c: char) -> char {
    if 'A' <= c && c <= 'Z' {
        ((c as u32) + 32) as char
    } else {
        c
    }
}

/// `char::is_ascii_alphanumeric`.
pub open spec fn is_ascii_alnum(c: char) -> bool {
    ('0' <= c && c <= '9') || ('a' <= c && c <= 'z') || ('A' <= c && c <= 'Z')
}

/// The slug before its outer dashes are trimmed: letters lowercased, alphanumerics kept,
/// and every run of other characters replaced by one dash.
pub open spec fn slug_raw(s: Seq<char>) -> Seq<char>
    decreases s.len(),
{
    if s.len() == 0 {
        Seq::empty()
    } else {
        let prev = slug_raw(s.drop_last());
        let c = ascii_lower(s.last());
        if is_ascii_alnum(c) {
            prev.push(c)
        } else if prev.len() > 0 && prev.last() == '-' {
            prev
        } else {
            prev.push('-')
        }
    }
}

/// The slug of a title.
pub open spec fn slug(s: Seq<char>) -> Seq<char> {
    trimmed(slug_raw(s), TrimSet::Char('-'))
}

/// A character that may appear in a slug.
pub open spec fn is_slug_char(c: char) -> bool {
    ('0' <= c && c <= '9') || ('a' <= c && c <= 'z') || c == '-'
}

/// Lowercase ASCII alphanumerics and single dashes, with no dash at either end.
pub open spec fn is_slug(s: Seq<char>) -> bool {
    &&& forall|i: int| 0 <= i < s.len() ==> is_slug_char(#[trigger] s[i])
    &&& forall|i: int| 0 <= i < s.len() - 1 ==> !(#[trigger] s[i] == '-' && s[i + 1] == '-')
    &&& s.len() > 0 ==> s[0] != '-' && s.last() != '-'
}

proof fn lemma_ascii_lower(c: char)
    ensures
        is_ascii_alnum(ascii_lower(c)) ==> ('0' <= ascii_lower(c) && ascii_lower(c) <= '9') || (
        'a' <= ascii_lower(c) && ascii_lower(c) <= 'z'),
{
    if 'A' <= c && c <= 'Z' {
        assert(('a' as u32) <= (c as u32) + 32 <= ('z' as u32));
        assert((((c as u32) + 32) as char) as u32 == (c as u32) + 32);
    }
}

proof fn lemma_slug_raw_shape(s: Seq<char>)
    ensures
        forall|i: int| 0 <= i < slug_raw(s).len() ==> is_slug_char(#[trigger] slug_raw(s)[i]),
        forall|i: int|
            0 <= i < slug_raw(s).len() - 1 ==> !(#[trigger] slug_raw(s)[i] == '-' && slug_raw(
                s,
            )[i + 1] == '-'),
    decreases s.len(),
{
    if s.len() > 0 {
        let prev = slug_raw(s.drop_last());
        let r = slug_raw(s);
        lemma_slug_raw_shape(s.drop_last());
        lemma_ascii_lower(s.last());
        assert forall|i: int| 0 <= i < r.len() implies is_slug_char(#[trigger] r[i]) by {
            if i < prev.len() {
                assert(r[i] == prev[i]);
            }
        }
        assert forall|i: int| 0 <= i < r.len() - 1 implies !(#[trigger] r[i] == '-' && r[i + 1]
            == '-') by {
            if i + 1 < prev.len() {
                assert(r[i] == prev[i] && r[i + 1] == prev[i + 1]);
            } else {
                assert(r[i] == prev[i]);
                assert(i == prev.len() - 1);
            }
        }
    }
}

proof fn lemma_slug_raw_of_slug_prefix(s: Seq<char>)
    requires
        forall|i: int| 0 <= i < s.len() ==> is_slug_char(#[trigger] s[i]),
        forall|i: int| 0 <= i < s.len() - 1 ==> !(#[trigger] s[i] == '-' && s[i + 1] == '-'),
        s.len() > 0 ==> s[0] != '-',
    ensures
        slug_raw(s) == s,
    decreases s.len(),
{
    if s.len() > 0 {
        let init = s.drop_last();
        assert forall|i: int| 0 <= i < init.len() - 1 implies !(#[trigger] init[i] == '-' && init[i
            + 1] == '-') by {
            assert(init[i] == s[i] && init[i + 1] == s[i + 1]);
        }
        lemma_slug_raw_of_slug_prefix(init);
        assert(s == init.push(s.last()));
        if s.last() == '-' {
            assert(s.len() >= 2);
            assert(init.last() == s[s.len() - 2]);
        }
    }
}

/// A slug is made of lowercase ASCII letters, digits and single inner dashes.
pub proof fn lemma_slug_is_slug(s: Seq<char>)
    ensures
        is_slug(slug(s)),
{
    let raw = slug_raw(s);
    lemma_slug_raw_shape(s);
    let a = lemma_trimmed_start_skip(raw, TrimSet::Char('-'));
    let rest = raw.skip(a);
    let b = lemma_trimmed_end_take(rest, TrimSet::Char('-'));
    let t = rest.take(b);
    assert(slug(s) == t);
    assert forall|i: int| 0 <= i < t.len() implies is_slug_char(#[trigger] t[i]) by {
        assert(t[i] == raw[a + i]);
    }
    assert forall|i: int| 0 <= i < t.len() - 1 implies !(#[trigger] t[i] == '-' && t[i + 1]
        == '-') by {
        assert(t[i] == raw[a + i]);
        assert(t[i + 1] == raw[a + i + 1]);
    }
    if t.len() > 0 {
        assert(t[0] == rest[0]);
        assert(t.last() == rest[b - 1]);
    }
}

/// Slugifying is idempotent: a slug is its own slug.
pub proof fn lemma_slug_idempotent(s: Seq<char>)
    ensures
        slug(slug(s)) == slug(s),
{
    let t = slug(s);
    lemma_slug_is_slug(s);
    lemma_slug_raw_of_slug_prefix(t);
    if t.len() > 0 {
        assert(trimmed_start(t, TrimSet::Char('-')) == t);
        assert(trimmed_end(t, TrimSet::Char('-')) == t);
    } else {
        assert(trimmed_start(t, TrimSet::Char('-')) == t);
        assert(trimmed_end(t, TrimSet::Char('-')) == t);
    }
}

fn ascii_lowercase(c: char) -> (r: char)
    ensures
        r == ascii_lower(c),
{
    if 'A' <= c && c <= 'Z' {
        ((c as u8) + 32) as char
    } else {
        c
    }
}

fn is_ascii_alphanumeric(c: char) -> (r: bool)
    ensures
        r == is_ascii_alnum(c),
{
    ('0' <= c && c <= '9') || ('a' <= c && c <= 'z') || ('A' <= c && c <= 'Z')
}

/// Normalizes a title into the slug format used by story ids.
pub fn slugify_title(title: &str) -> (r: String)
    ensures
        r@ == slug(title@),
{
    let n = title.unicode_len();
    let mut out = String::new();
    let mut prev_dash = false;
    let mut i: usize = 0;
    while i < n
        invariant
            n == title@.len(),
            i <= n,
            out@ == slug_raw(title@.take(i as int)),
            prev_dash == (out@.len() > 0 && out@.last() == '-'),
        decreases n - i,
    {
        let c = title.get_char(i);
        proof {
            assert(title@.take(i + 1).drop_last() =~= title@.take(i as int));
            assert(title@.take(i + 1).last() == c);
        }
        let normalized = ascii_lowercase(c);
        if is_ascii_alphanumeric(normalized) {
            push_char(&mut out, normalized);
            prev_dash = false;
        } else if !prev_dash {
            push_char(&mut out, '-');
            prev_dash = true;
        }
        i = i + 1;
    }
    proof {
        assert(title@.take(n as int) =~= title@);
    }
    trim_set(out.as_str(), &TrimSet::Char('-'))
}

} // verus!
