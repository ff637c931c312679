//! The decisions of the walk over the entry crate's source files: which files reached from
//! its roots are new, and which of those are Rust sources to list and follow further. The
//! walk itself, which asks the file system for canonical paths and file contents, runs
//! outside the library and hands each file it reaches to [`SourceWalk::visit`].
use vstd::prelude::*;

use crate::manifest::strings_view;
use crate::navigation::split_on;
use crate::paths::split_at_char;
use crate::text::str_eq;

verus! {

/// The last segment of `segments` that names something: neither empty nor `.`.
pub open spec fn last_named(segments: Seq<Seq<char>>) -> Option<Seq<char>>
    decreases segments.len(),
{
    if segments.len() == 0 {
        None
    } else if segments.last().len() > 0 && segments.last() != "."@ {
        Some(segments.last())
    } else {
        last_named(segments.drop_last())
    }
}

/// The file name of a path as `Path::file_name` gives it: its last component that names
/// something, unless that is `..`.
pub open spec fn path_file_name(path: Seq<char>) -> Option<Seq<char>> {
    match last_named(split_on(path, '/')) {
        Some(name) => if name == ".."@ {
            None
        } else {
            Some(name)
        },
        None => None,
    }
}

/// The index of the last `c` in the first `n` characters of `s`, or -1.
pub open spec fn last_index_before(s: Seq<char>, c: char, n: int) -> int
    decreases n,
{
    if n <= 0 {
        -1
    } else if s[n - 1] == c {
        n - 1
    } else {
        last_index_before(s, c, n - 1)
    }
}

/// Whether a path names a Rust source file, as `Path::extension` reads it: its file name
/// has a dot after its first character, and the text after the last dot is `rs`.
pub open spec fn rust_source_path(path: Seq<char>) -> bool {
    match path_file_name(path) {
        None => false,
        Some(name) => {
            let dot = last_index_before(name, '.', name.len() as int);
            dot > 0 && name.subrange(dot + 1, name.len() as int) == "rs"@
        },
    }
}

proof fn lemma_last_index_before_range(s: Seq<char>, c: char, n: int)
    requires
        0 <= n <= s.len(),
    ensures
        -1 <= last_index_before(s, c, n) < n,
        last_index_before(s, c, n) >= 0 ==> s[last_index_before(s, c, n)] == c,
    decreases n,
{
    if n > 0 && s[n - 1] != c {
        lemma_last_index_before_range(s, c, n - 1);
    }
}

fn file_name(path: &str) -> (r: Option<String>)
    ensures
        match path_file_name(path@) {
            Some(name) => r is Some && r->0@ == name,
            None => r is None,
        },
{
    let segments = split_at_char(path, '/');
    let ghost view = strings_view(segments@);
    let mut n: usize = segments.len();
    proof {
        assert(view.take(n as int) =~= view);
    }
    while n > 0
        invariant
            n <= segments@.len(),
            view == strings_view(segments@),
            view == split_on(path@, '/'),
            last_named(view) == last_named(view.take(n as int)),
        decreases n,
    {
        let seg = &segments[n - 1];
        proof {
            assert(view.take(n as int).last() == seg@);
            assert(view.take(n as int).drop_last() =~= view.take(n - 1));
        }
        if seg.as_str().unicode_len() > 0 && !str_eq(seg.as_str(), ".") {
            if str_eq(seg.as_str(), "..") {
                return None;
            }
            return Some(seg.clone());
        }
        n = n - 1;
    }
    None
}

/// Reports whether `path` names a Rust source file.
pub fn is_rust_source_path(path: &str) -> (r: bool)
    ensures
        r == rust_source_path(path@),
{
    let name = match file_name(path) {
        Some(name) => name,
        None => {
            return false;
        },
    };
    let len = name.as_str().unicode_len();
    let mut k: usize = len;
    while k > 0 && name.as_str().get_char(k - 1) != '.'
        invariant
            k <= len,
            len == name@.len(),
            last_index_before(name@, '.', len as int) == last_index_before(name@, '.', k as int),
        decreases k,
    {
        k = k - 1;
    }
    let ghost dot = last_index_before(name@, '.', len as int);
    proof {
        lemma_last_index_before_range(name@, '.', len as int);
    }
    if k <= 1 {
        return false;
    }
    proof {
        assert(dot == k - 1);
    }
    let ext = name.as_str().substring_char(k, len);
    str_eq(ext, "rs")
}

/// The files a walk has reached (by canonical path) and the Rust sources it has listed
/// (as written), each in the order first reached.
pub struct SourceWalk {
    pub visited: Vec<String>,
    pub files: Vec<String>,
}

impl SourceWalk {
    /// A walk that has reached nothing yet.
    pub fn new() -> (w: SourceWalk)
        ensures
            w.visited@.len() == 0,
            w.files@.len() == 0,
    {
        SourceWalk { visited: Vec::new(), files: Vec::new() }
    }

    fn has_visited(&self, canonical: &str) -> (r: bool)
        ensures
            r == strings_view(self.visited@).contains(canonical@),
    {
        let mut k: usize = 0;
        while k < self.visited.len()
            invariant
                k <= self.visited@.len(),
                forall|j: int| 0 <= j < k ==> strings_view(self.visited@)[j] != canonical@,
            decreases self.visited@.len() - k,
        {
            if str_eq(self.visited[k].as_str(), canonical) {
                proof {
                    assert(strings_view(self.visited@)[k as int] == canonical@);
                }
                return true;
            }
            k = k + 1;
        }
        false
    }

    /// Decides what to do with a file the walk reaches, known by its canonical path and by
    /// the path it was reached under: a file reached before is left alone; a new one is
    /// marked reached, and, when it is a Rust source, listed, and the walk goes on into the
    /// modules it declares (the result says whether it does).
    pub fn visit(&mut self, canonical: String, path: String) -> (descend: bool)
        ensures
            strings_view(old(self).visited@).contains(canonical@) ==> !descend && strings_view(
                final(self).visited@,
            ) == strings_view(old(self).visited@) && strings_view(final(self).files@) == strings_view(
                old(self).files@,
            ),
            !strings_view(old(self).visited@).contains(canonical@) ==> descend == rust_source_path(path@)
                && strings_view(final(self).visited@) == strings_view(old(self).visited@).push(canonical@)
                && strings_view(final(self).files@) == (if descend {
                strings_view(old(self).files@).push(path@)
            } else {
                strings_view(old(self).files@)
            }),
            strings_view(old(self).visited@).no_duplicates() ==> strings_view(
                final(self).visited@,
            ).no_duplicates(),
    {
        if self.has_visited(canonical.as_str()) {
            return false;
        }
        let ghost c = canonical@;
        self.visited.push(canonical);
        proof {
            assert(strings_view(self.visited@) =~= strings_view(old(self).visited@).push(c));
            if strings_view(old(self).visited@).no_duplicates() {
                lemma_visit_keeps_paths_distinct(strings_view(old(self).visited@), strings_view(self.visited@), c);
            }
        }
        if !is_rust_source_path(path.as_str()) {
            return false;
        }
        self.files.push(path);
        proof {
            assert(strings_view(self.files@) =~= strings_view(old(self).files@).push(self.files@.last()@));
        }
        true
    }
}

/// However many files a walk reaches, it reaches each canonical path once: the paths it
/// has marked stay free of repeats after every visit.
pub proof fn lemma_visit_keeps_paths_distinct(before: Seq<Seq<char>>, after: Seq<Seq<char>>, canonical: Seq<char>)
    requires
        before.no_duplicates(),
        before.contains(canonical) ==> after == before,
        !before.contains(canonical) ==> after == before.push(canonical),
    ensures
        after.no_duplicates(),
        after.contains(canonical),
{
    if !before.contains(canonical) {
        assert(after[after.len() - 1] == canonical);
        assert forall|i: int, j: int| 0 <= i < j < after.len() implies after[i] != after[j] by {
            if j == after.len() - 1 {
                assert(before[i] == after[i]);
            } else {
                assert(before[i] == after[i] && before[j] == after[j]);
            }
        }
    }
}

} // verus!
