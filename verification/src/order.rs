//! The lexicographic order of strings (the order `Ord` gives `String`), and sorted sets of
//! strings.
use vstd::prelude::*;

use crate::text::str_eq;

verus! {

/// `a < b` in lexicographic order of characters, which for UTF-8 text is the order of
/// its bytes.
pub open spec fn chars_lt(a: Seq<char>, b: Seq<char>) -> bool
    decreases a.len(),
{
    if a.len() == 0 {
        b.len() > 0
    } else if b.len() == 0 {
        false
    } else if a[0] != b[0] {
        a[0] < b[0]
    } else {
        chars_lt(a.drop_first(), b.drop_first())
    }
}

/// No string is below itself.
pub proof fn lemma_chars_lt_irreflexive(a: Seq<char>)
    ensures
        !chars_lt(a, a),
    decreases a.len(),
{
    if a.len() > 0 {
        lemma_chars_lt_irreflexive(a.drop_first());
    }
}

/// The order is transitive.
pub proof fn lemma_chars_lt_transitive(a: Seq<char>, b: Seq<char>, c: Seq<char>)
    requires
        chars_lt(a, b),
        chars_lt(b, c),
    ensures
        chars_lt(a, c),
    decreases a.len(),
{
    if a.len() > 0 && b.len() > 0 && c.len() > 0 && a[0] == b[0] && b[0] == c[0] {
        lemma_chars_lt_transitive(a.drop_first(), b.drop_first(), c.drop_first());
    }
}

/// Any two distinct strings are ordered one way or the other.
pub proof fn lemma_chars_lt_total(a: Seq<char>, b: Seq<char>)
    ensures
        a == b || chars_lt(a, b) || chars_lt(b, a),
    decreases a.len(),
{
    if a.len() > 0 && b.len() > 0 && a[0] == b[0] {
        lemma_chars_lt_total(a.drop_first(), b.drop_first());
        if a.drop_first() == b.drop_first() {
            assert forall|k: int| 0 <= k < a.len() implies a[k] == b[k] by {
                if k > 0 {
                    assert(a[k] == a.drop_first()[k - 1]);
                    assert(b[k] == b.drop_first()[k - 1]);
                }
            }
            assert(a =~= b);
        }
    }
}

/// One string below the other can not also be above it.
pub proof fn lemma_chars_lt_asymmetric(a: Seq<char>, b: Seq<char>)
    requires
        chars_lt(a, b),
    ensures
        !chars_lt(b, a),
    decreases a.len(),
{
    if a.len() > 0 && b.len() > 0 && a[0] == b[0] {
        lemma_chars_lt_asymmetric(a.drop_first(), b.drop_first());
    }
}

/// Whether `a` comes before `b` in lexicographic order.
pub fn str_lt(a: &str, b: &str) -> (r: bool)
    ensures
        r == chars_lt(a@, b@),
{
    let n = a.unicode_len();
    let m = b.unicode_len();
    let mut i: usize = 0;
    proof {
        assert(a@.skip(0) =~= a@);
        assert(b@.skip(0) =~= b@);
    }
    while i < n && i < m && a.get_char(i) == b.get_char(i)
        invariant
            n == a@.len(),
            m == b@.len(),
            i <= n,
            i <= m,
            chars_lt(a@, b@) == chars_lt(a@.skip(i as int), b@.skip(i as int)),
        decreases n - i,
    {
        assert(a@.skip(i as int).drop_first() =~= a@.skip(i + 1));
        assert(b@.skip(i as int).drop_first() =~= b@.skip(i + 1));
        i = i + 1;
    }
    if i == n {
        i < m
    } else if i == m {
        false
    } else {
        assert(a@.skip(i as int)[0] == a@[i as int]);
        assert(b@.skip(i as int)[0] == b@[i as int]);
        a.get_char(i) < b.get_char(i)
    }
}

/// Strictly increasing: sorted and without repeats.
pub open spec fn strictly_sorted(s: Seq<Seq<char>>) -> bool {
    forall|i: int, j: int| 0 <= i < j < s.len() ==> chars_lt(#[trigger] s[i], #[trigger] s[j])
}

/// Two strictly sorted lists of strings holding the same strings are the same list.
pub proof fn lemma_strictly_sorted_unique(a: Seq<Seq<char>>, b: Seq<Seq<char>>)
    requires
        strictly_sorted(a),
        strictly_sorted(b),
        forall|t: Seq<char>| a.contains(t) <==> b.contains(t),
    ensures
        a == b,
    decreases a.len(),
{
    if a.len() == 0 {
        if b.len() > 0 {
            assert(b.contains(b[0]));
        }
        assert(a =~= b);
        return;
    }
    if b.len() == 0 {
        assert(a.contains(a[0]));
        return;
    }
    assert(a.contains(a[0]));
    assert(b.contains(b[0]));
    let k = choose|k: int| 0 <= k < b.len() && b[k] == a[0];
    let m = choose|m: int| 0 <= m < a.len() && a[m] == b[0];
    if a[0] != b[0] {
        assert(k > 0 && m > 0);
        assert(chars_lt(b[0], b[k]));
        assert(chars_lt(a[0], a[m]));
        lemma_chars_lt_asymmetric(a[0], b[0]);
    }
    let ta = a.drop_first();
    let tb = b.drop_first();
    assert forall|i: int, j: int| 0 <= i < j < ta.len() implies chars_lt(#[trigger] ta[i], #[trigger] ta[j]) by {
        assert(ta[i] == a[i + 1] && ta[j] == a[j + 1]);
    }
    assert forall|i: int, j: int| 0 <= i < j < tb.len() implies chars_lt(#[trigger] tb[i], #[trigger] tb[j]) by {
        assert(tb[i] == b[i + 1] && tb[j] == b[j + 1]);
    }
    assert forall|t: Seq<char>| ta.contains(t) <==> tb.contains(t) by {
        if ta.contains(t) {
            let i = choose|i: int| 0 <= i < ta.len() && ta[i] == t;
            assert(a[i + 1] == t);
            assert(a.contains(t));
            let j = choose|j: int| 0 <= j < b.len() && b[j] == t;
            if j == 0 {
                assert(chars_lt(a[0], a[i + 1]));
                lemma_chars_lt_irreflexive(t);
            } else {
                assert(tb[j - 1] == t);
            }
        }
        if tb.contains(t) {
            let i = choose|i: int| 0 <= i < tb.len() && tb[i] == t;
            assert(b[i + 1] == t);
            assert(b.contains(t));
            let j = choose|j: int| 0 <= j < a.len() && a[j] == t;
            if j == 0 {
                assert(chars_lt(b[0], b[i + 1]));
                lemma_chars_lt_irreflexive(t);
            } else {
                assert(ta[j - 1] == t);
            }
        }
    }
    lemma_strictly_sorted_unique(ta, tb);
    assert(a =~= b) by {
        assert forall|i: int| 0 <= i < a.len() implies a[i] == b[i] by {
            if i > 0 {
                assert(a[i] == ta[i - 1] && b[i] == tb[i - 1]);
            }
        }
    }
}

/// Inserts `x` into a strictly sorted vector of strings unless it is already there.
pub fn insert_sorted_unique(v: &mut Vec<String>, x: &str)
    requires
        strictly_sorted(crate::manifest::strings_view(old(v)@)),
    ensures
        strictly_sorted(crate::manifest::strings_view(final(v)@)),
        forall|t: Seq<char>|
            crate::manifest::strings_view(final(v)@).contains(t) <==> (crate::manifest::strings_view(
                old(v)@,
            ).contains(t) || t == x@),
{
    let ghost before = crate::manifest::strings_view(v@);
    let mut p: usize = 0;
    while p < v.len() && str_lt(v[p].as_str(), x)
        invariant
            before == crate::manifest::strings_view(v@),
            strictly_sorted(before),
            p <= v@.len(),
            forall|k: int| 0 <= k < p ==> chars_lt(#[trigger] before[k], x@),
        decreases v@.len() - p,
    {
        p = p + 1;
    }
    if p < v.len() && str_eq(v[p].as_str(), x) {
        proof {
            assert(before[p as int] == x@);
        }
        return;
    }
    let ghost others = before;
    proof {
        if p < before.len() {
            lemma_chars_lt_total(before[p as int], x@);
        }
    }
    v.insert(p, x.to_owned());
    proof {
        let after = crate::manifest::strings_view(v@);
        assert(after =~= before.insert(p as int, x@));
        assert forall|i: int, j: int| 0 <= i < j < after.len() implies chars_lt(
            #[trigger] after[i],
            #[trigger] after[j],
        ) by {
            if j < p {
                assert(after[i] == before[i] && after[j] == before[j]);
            } else if j == p {
                assert(after[i] == before[i]);
            } else if i > p {
                assert(after[i] == before[i - 1] && after[j] == before[j - 1]);
            } else if i == p {
                assert(after[j] == before[j - 1]);
                if j - 1 > p {
                    lemma_chars_lt_transitive(x@, before[p as int], before[j - 1]);
                }
            } else {
                assert(after[i] == before[i] && after[j] == before[j - 1]);
                lemma_chars_lt_transitive(before[i], x@, before[p as int]);
                if j - 1 > p {
                    lemma_chars_lt_transitive(before[i], before[p as int], before[j - 1]);
                }
            }
        }
        assert forall|t: Seq<char>| after.contains(t) <==> (before.contains(t) || t == x@) by {
            if after.contains(t) {
                let i = choose|i: int| 0 <= i < after.len() && after[i] == t;
                if i < p {
                    assert(before[i] == t);
                } else if i > p {
                    assert(before[i - 1] == t);
                }
            }
            if before.contains(t) {
                let i = choose|i: int| 0 <= i < before.len() && before[i] == t;
                if i < p {
                    assert(after[i] == t);
                } else {
                    assert(after[i + 1] == t);
                }
            }
            if t == x@ {
                assert(after[p as int] == t);
            }
        }
    }
}

} // verus!
