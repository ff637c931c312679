//! The public sub-path the showcase site is served under, and the URLs shown under it.
use vstd::prelude::*;

use crate::templates::{bare_base_path, trim_base_path};
use crate::text::{concat3, trim_set, trimmed_start, TrimSet};

verus! {

/// The normal form of a base path: empty at the root, otherwise the bare path after one
/// leading slash, e.g. `/my-repo`.
pub open spec fn normalized_base(raw: Seq<char>) -> Seq<char> {
    if bare_base_path(raw).len() == 0 {
        Seq::empty()
    } else {
        seq!['/'] + bare_base_path(raw)
    }
}

/// A normalised base path: either empty (served from the domain root) or a leading-slash
/// path with no trailing slash.
#[derive(Debug, PartialEq, Eq)]
pub struct BasePath(String);

impl View for BasePath {
    type V = Seq<char>;

    closed spec fn view(&self) -> Seq<char> {
        self.0@
    }
}

/// Whether a path is a well-formed base path: empty, or `/` followed by at least one
/// character and not ending in `/`.
pub open spec fn is_base_path(s: Seq<char>) -> bool {
    s.len() == 0 || (s.len() >= 2 && s[0] == '/' && s.last() != '/')
}

/// The URL of the in-app path `path` under the base path `base`: single slashes at the
/// boundary, and the site root `/` rather than the empty string.
pub open spec fn joined_url(base: Seq<char>, path: Seq<char>) -> Seq<char> {
    let rest = trimmed_start(path, TrimSet::Char('/'));
    if rest.len() == 0 {
        if base.len() == 0 {
            seq!['/']
        } else {
            base
        }
    } else {
        base + seq!['/'] + rest
    }
}

impl BasePath {
    /// Normalises a raw configured base path such as `"/"`, `""` or `"/my-repo/"`.
    pub fn new(raw: &str) -> (r: Self)
        ensures
            r@ == normalized_base(raw@),
            is_base_path(r@),
    {
        let bare = trim_base_path(raw);
        proof {
            let a = crate::text::lemma_trimmed_start_skip(
                crate::text::trimmed(raw@, TrimSet::Whitespace),
                TrimSet::Char('/'),
            );
            let t = crate::text::trimmed(raw@, TrimSet::Whitespace).skip(a);
            let b = crate::text::lemma_trimmed_end_take(t, TrimSet::Char('/'));
            assert(bare@ == t.take(b));
            if b > 0 {
                assert(bare@.last() == t[b - 1]);
            }
        }
        if bare.as_str().unicode_len() == 0 {
            BasePath(String::new())
        } else {
            let mut value = String::new();
            crate::text::push_char(&mut value, '/');
            crate::text::push_str(&mut value, bare.as_str());
            proof {
                assert(value@ =~= seq!['/'] + bare@);
            }
            BasePath(value)
        }
    }

    /// Returns `true` when the site is served straight from the domain root.
    pub fn is_root(&self) -> (r: bool)
        ensures
            r == (self@.len() == 0),
    {
        self.0.as_str().unicode_len() == 0
    }

    /// Joins an in-app absolute path onto the base path.
    pub fn join(&self, path: &str) -> (r: String)
        ensures
            r@ == joined_url(self@, path@),
    {
        let rest = trim_start_slashes(path);
        if rest.as_str().unicode_len() == 0 {
            if self.is_root() {
                proof {
                    reveal_strlit("/");
                    assert("/"@ =~= seq!['/']);
                }
                "/".to_owned()
            } else {
                self.0.clone()
            }
        } else {
            proof {
                reveal_strlit("/");
                assert("/"@ =~= seq!['/']);
            }
            concat3(self.0.as_str(), "/", rest.as_str())
        }
    }
}

impl Default for BasePath {
    fn default() -> (r: Self)
        ensures
            r@.len() == 0,
    {
        BasePath(String::new())
    }
}

/// Every joined URL is absolute, and the base path and the in-app path meet at exactly
/// one slash.
pub proof fn lemma_join_single_slash(base: Seq<char>, path: Seq<char>)
    requires
        is_base_path(base),
    ensures
        joined_url(base, path).len() > 0,
        joined_url(base, path)[0] == '/',
        trimmed_start(path, TrimSet::Char('/')).len() > 0 ==> joined_url(base, path)[base.len() as int]
            == '/' && joined_url(base, path)[base.len() as int + 1] != '/',
{
    let k = crate::text::lemma_trimmed_start_skip(path, TrimSet::Char('/'));
    let rest = trimmed_start(path, TrimSet::Char('/'));
    if rest.len() > 0 {
        assert(rest[0] == path[k]);
        let j = joined_url(base, path);
        assert(j == base + seq!['/'] + rest);
        assert(j[base.len() as int + 1] == rest[0]);
        if base.len() > 0 {
            assert(j[0] == base[0]);
        }
    }
}

/// The shell's base path and the entry point's `base_path` prop agree: the prop is the
/// normal form, or `/` at the root.
pub proof fn lemma_app_prop_matches_shell(raw: Seq<char>)
    ensures
        crate::templates::app_base_path(raw) == if normalized_base(raw).len() == 0 {
            seq!['/']
        } else {
            normalized_base(raw)
        },
{
}

/// `str::trim_start_matches('/')`.
fn trim_start_slashes(path: &str) -> (r: String)
    ensures
        r@ == trimmed_start(path@, TrimSet::Char('/')),
{
    let n = path.unicode_len();
    let mut i: usize = 0;
    proof {
        assert(path@.skip(0) =~= path@);
    }
    while i < n && path.get_char(i) == '/'
        invariant
            n == path@.len(),
            i <= n,
            trimmed_start(path@, TrimSet::Char('/')) == trimmed_start(
                path@.skip(i as int),
                TrimSet::Char('/'),
            ),
        decreases n - i,
    {
        assert(path@.skip(i as int).drop_first() =~= path@.skip(i + 1));
        i = i + 1;
    }
    proof {
        if i == n {
            assert(path@.skip(i as int) =~= Seq::<char>::empty());
        }
        assert(path@.skip(i as int) =~= path@.subrange(i as int, n as int));
    }
    crate::text::substring(path, i, n)
}

} // verus!
