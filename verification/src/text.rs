//! Character and string primitives shared by every module.
use vstd::prelude::*;

verus! {

/// Whether a character carries the Unicode `White_Space` property, as `char::is_whitespace`
/// reports it: U+0009 to U+000D, U+0020, U+0085, U+00A0, U+1680, U+2000 to U+200A, U+2028,
/// U+2029, U+202F, U+205F and U+3000.
pub open spec fn unicode_white_space(c: char) -> bool {
    ('\u{9}' <= c && c <= '\u{d}') || c == ' ' || c == '\u{85}' || c == '\u{a0}' || c == '\u{1680}'
        || ('\u{2000}' <= c && c <= '\u{200a}') || c == '\u{2028}' || c == '\u{2029}' || c
        == '\u{202f}' || c == '\u{205f}' || c == '\u{3000}'
}

/// Reports whether `c` is whitespace in the sense of `char::is_whitespace`.
pub fn char_is_whitespace(c: char) -> (r: bool)
    ensures
        r == unicode_white_space(c),
{
    ('\u{9}' <= c && c <= '\u{d}') || c == ' ' || c == '\u{85}' || c == '\u{a0}' || c == '\u{1680}'
        || ('\u{2000}' <= c && c <= '\u{200a}') || c == '\u{2028}' || c == '\u{2029}' || c
        == '\u{202f}' || c == '\u{205f}' || c == '\u{3000}'
}

/// `String::push`: appends `c` to the end of `s`.
///
/// Trusted: std documents that the character is appended and nothing else changes.
#[verifier::external_body]
pub(crate) fn push_char(s: &mut String, c: char)
    ensures
        final(s)@ == old(s)@.push(c),
{
    s.push(c)
}

/// The characters a trim removes from either end of a string.
pub enum TrimSet {
    Whitespace,
    Char(char),
}

impl TrimSet {
    pub open spec fn holds(self, c: char) -> bool {
        match self {
            TrimSet::Whitespace => unicode_white_space(c),
            TrimSet::Char(x) => c == x,
        }
    }

    pub fn test(&self, c: char) -> (r: bool)
        ensures
            r == self.holds(c),
    {
        match self {
            TrimSet::Whitespace => char_is_whitespace(c),
            TrimSet::Char(x) => c == *x,
        }
    }
}

/// `s` without its longest prefix of characters in `set`.
pub open spec fn trimmed_start(s: Seq<char>, set: TrimSet) -> Seq<char>
    decreases s.len(),
{
    if s.len() > 0 && set.holds(s[0]) {
        trimmed_start(s.drop_first(), set)
    } else {
        s
    }
}

/// `s` without its longest suffix of characters in `set`.
pub open spec fn trimmed_end(s: Seq<char>, set: TrimSet) -> Seq<char>
    decreases s.len(),
{
    if s.len() > 0 && set.holds(s.last()) {
        trimmed_end(s.drop_last(), set)
    } else {
        s
    }
}

/// `s` without its longest prefix and suffix of characters in `set`.
pub open spec fn trimmed(s: Seq<char>, set: TrimSet) -> Seq<char> {
    trimmed_end(trimmed_start(s, set), set)
}

/// What a start trim removes is a prefix of characters in the set, stopping at one outside it.
pub proof fn lemma_trimmed_start_skip(s: Seq<char>, set: TrimSet) -> (k: int)
    ensures
        0 <= k <= s.len(),
        trimmed_start(s, set) == s.skip(k),
        forall|j: int| 0 <= j < k ==> set.holds(#[trigger] s[j]),
        k < s.len() ==> !set.holds(s[k]),
    decreases s.len(),
{
    if s.len() > 0 && set.holds(s[0]) {
        let k = lemma_trimmed_start_skip(s.drop_first(), set);
        assert(s.drop_first().skip(k) =~= s.skip(k + 1));
        assert forall|j: int| 0 <= j < k + 1 implies set.holds(#[trigger] s[j]) by {
            if j > 0 {
                assert(s[j] == s.drop_first()[j - 1]);
            }
        }
        k + 1
    } else {
        assert(s.skip(0) =~= s);
        0
    }
}

/// What an end trim removes is a suffix of characters in the set, stopping at one outside it.
pub proof fn lemma_trimmed_end_take(s: Seq<char>, set: TrimSet) -> (k: int)
    ensures
        0 <= k <= s.len(),
        trimmed_end(s, set) == s.take(k),
        forall|j: int| k <= j < s.len() ==> set.holds(#[trigger] s[j]),
        k > 0 ==> !set.holds(s[k - 1]),
    decreases s.len(),
{
    if s.len() > 0 && set.holds(s.last()) {
        let k = lemma_trimmed_end_take(s.drop_last(), set);
        assert(s.drop_last().take(k) =~= s.take(k));
        assert forall|j: int| k <= j < s.len() implies set.holds(#[trigger] s[j]) by {
            if j < s.len() - 1 {
                assert(s[j] == s.drop_last()[j]);
            }
        }
        k
    } else {
        assert(s.take(s.len() as int) =~= s);
        s.len() as int
    }
}

/// Builds an owned string holding exactly the characters of `s[from..to]`.
pub fn substring(s: &str, from: usize, to: usize) -> (r: String)
    requires
        from <= to <= s@.len(),
    ensures
        r@ == s@.subrange(from as int, to as int),
{
    s.substring_char(from, to).to_owned()
}

/// The index of the first character of `s` that is not in `set`, searching from `start`.
fn skip_start(s: &str, start: usize, len: usize, set: &TrimSet) -> (i: usize)
    requires
        len == s@.len(),
        start <= len,
    ensures
        start <= i <= len,
        trimmed_start(s@.skip(start as int), *set) == s@.skip(i as int),
{
    let mut i = start;
    while i < len && set.test(s.get_char(i))
        invariant
            len == s@.len(),
            start <= i <= len,
            trimmed_start(s@.skip(start as int), *set) == trimmed_start(s@.skip(i as int), *set),
        decreases len - i,
    {
        assert(s@.skip(i as int).drop_first() =~= s@.skip(i + 1));
        i = i + 1;
    }
    assert(i == len ==> s@.skip(i as int) =~= Seq::<char>::empty());
    i
}

/// The index just past the last character of `s[..end]` that is not in `set`, not going below `lo`.
fn skip_end(s: &str, lo: usize, end: usize, set: &TrimSet) -> (j: usize)
    requires
        lo <= end <= s@.len(),
    ensures
        lo <= j <= end,
        j > lo ==> !set.holds(s@[j - 1]),
        forall|k: int| j <= k < end ==> set.holds(#[trigger] s@[k]),
{
    let mut j = end;
    while j > lo && set.test(s.get_char(j - 1))
        invariant
            lo <= j <= end <= s@.len(),
            forall|k: int| j <= k < end ==> set.holds(#[trigger] s@[k]),
        decreases j,
    {
        j = j - 1;
    }
    j
}

proof fn lemma_trimmed_end_of_held_suffix(s: Seq<char>, set: TrimSet, j: int)
    requires
        0 <= j <= s.len(),
        j > 0 ==> !set.holds(s[j - 1]),
        forall|k: int| j <= k < s.len() ==> set.holds(#[trigger] s[k]),
    ensures
        trimmed_end(s, set) == s.take(j),
    decreases s.len(),
{
    if s.len() > j {
        assert(set.holds(s[s.len() - 1]));
        lemma_trimmed_end_of_held_suffix(s.drop_last(), set, j);
        assert(s.drop_last().take(j) =~= s.take(j));
    } else {
        assert(s.take(j) =~= s);
    }
}

/// `str::trim` generalised over the set of characters removed.
pub fn trim_set(s: &str, set: &TrimSet) -> (r: String)
    ensures
        r@ == trimmed(s@, *set),
{
    let len = s.unicode_len();
    let i = skip_start(s, 0, len, set);
    let j = skip_end(s, i, len, set);
    proof {
        assert(s@.skip(0) =~= s@);
        let t = s@.skip(i as int);
        assert forall|k: int| (j - i) <= k < t.len() implies set.holds(#[trigger] t[k]) by {
            assert(t[k] == s@[k + i]);
        }
        if j > i {
            assert(t[j - i - 1] == s@[j - 1]);
        }
        lemma_trimmed_end_of_held_suffix(t, *set, j - i);
        assert(t.take(j - i) =~= s@.subrange(i as int, j as int));
    }
    substring(s, i, j)
}


/// Whether two string slices hold the same characters.
pub fn str_eq(a: &str, b: &str) -> (r: bool)
    ensures
        r == (a@ == b@),
{
    let n = a.unicode_len();
    if n != b.unicode_len() {
        return false;
    }
    let mut i: usize = 0;
    while i < n
        invariant
            n == a@.len() == b@.len(),
            i <= n,
            forall|k: int| 0 <= k < i ==> a@[k] == b@[k],
        decreases n - i,
    {
        if a.get_char(i) != b.get_char(i) {
            return false;
        }
        i = i + 1;
    }
    assert(a@ =~= b@);
    true
}

/// Appends the characters of `tail` to `s`.
pub fn push_str(s: &mut String, tail: &str)
    ensures
        final(s)@ == old(s)@ + tail@,
{
    s.append(tail);
}

/// A fresh string holding `a` followed by `b`.
pub fn concat2(a: &str, b: &str) -> (r: String)
    ensures
        r@ == a@ + b@,
{
    let mut r = a.to_owned();
    r.append(b);
    r
}

/// A fresh string holding `a`, `b` and `c` in order.
pub fn concat3(a: &str, b: &str, c: &str) -> (r: String)
    ensures
        r@ == a@ + b@ + c@,
{
    let mut r = a.to_owned();
    r.append(b);
    r.append(c);
    r
}

/// Copies a vector of strings, element by element.
pub fn copy_strings(v: &Vec<String>) -> (r: Vec<String>)
    ensures
        r@ == v@,
{
    let mut r: Vec<String> = Vec::new();
    let mut i: usize = 0;
    while i < v.len()
        invariant
            i <= v@.len(),
            r@ == v@.take(i as int),
        decreases v@.len() - i,
    {
        r.push(v[i].clone());
        proof {
            assert(v@.take(i + 1) =~= v@.take(i as int).push(v@[i as int]));
        }
        i = i + 1;
    }
    assert(v@.take(v@.len() as int) =~= v@);
    r
}

} // verus!
