//! Unix path components and the relative path between two directories.
use vstd::prelude::*;

use crate::navigation::split_on;
use crate::manifest::{lemma_strings_view_push, strings_view};
use crate::text::{concat2, concat3, push_char, push_str, str_eq};

verus! {

/// One component of a path, as `Path::components` reports it on Unix.
pub enum PathPart {
    Root,
    Current,
    Parent,
    Normal(Seq<char>),
}

/// The component a piece between separators stands for; empty pieces and `.` stand for none.
pub open spec fn piece_part(p: Seq<char>) -> Option<PathPart> {
    if p.len() == 0 || p == seq!['.'] {
        None
    } else if p == seq!['.', '.'] {
        Some(PathPart::Parent)
    } else {
        Some(PathPart::Normal(p))
    }
}

/// The components of a list of pieces, in order.
pub open spec fn pieces_parts(pieces: Seq<Seq<char>>) -> Seq<PathPart>
    decreases pieces.len(),
{
    if pieces.len() == 0 {
        Seq::empty()
    } else {
        let prev = pieces_parts(pieces.drop_last());
        match piece_part(pieces.last()) {
            Some(part) => prev.push(part),
            None => prev,
        }
    }
}

/// `Path::components` on Unix: a leading `/` is the root; repeated separators, a trailing
/// separator and `.` are normalised away, except a `.` that begins a relative path.
pub open spec fn path_parts(s: Seq<char>) -> Seq<PathPart> {
    let pieces = split_on(s, '/');
    if s.len() > 0 && s[0] == '/' {
        seq![PathPart::Root] + pieces_parts(pieces.drop_first())
    } else if pieces[0] == seq!['.'] {
        seq![PathPart::Current] + pieces_parts(pieces.drop_first())
    } else {
        pieces_parts(pieces)
    }
}

/// The text of one component (`Component::as_os_str`).
pub open spec fn part_text(p: PathPart) -> Seq<char> {
    match p {
        PathPart::Root => seq!['/'],
        PathPart::Current => seq!['.'],
        PathPart::Parent => seq!['.', '.'],
        PathPart::Normal(s) => s,
    }
}

/// `PathBuf::push` on Unix: an absolute path replaces the buffer, otherwise it is adjoined
/// with a separator when one is needed.
pub open spec fn path_push(acc: Seq<char>, x: Seq<char>) -> Seq<char> {
    if x.len() > 0 && x[0] == '/' {
        x
    } else if acc.len() == 0 {
        x
    } else if acc.last() == '/' {
        acc + x
    } else {
        acc + seq!['/'] + x
    }
}

/// Pushes the text of each component in turn.
pub open spec fn push_parts(acc: Seq<char>, parts: Seq<PathPart>) -> Seq<char>
    decreases parts.len(),
{
    if parts.len() == 0 {
        acc
    } else {
        path_push(push_parts(acc, parts.drop_last()), part_text(parts.last()))
    }
}

/// Pushes `..` `n` times.
pub open spec fn push_parents(acc: Seq<char>, n: nat) -> Seq<char>
    decreases n,
{
    if n == 0 {
        acc
    } else {
        path_push(push_parents(acc, (n - 1) as nat), seq!['.', '.'])
    }
}

/// The length of the longest common prefix of two component lists.
pub open spec fn shared_prefix_len(a: Seq<PathPart>, b: Seq<PathPart>, from: nat) -> nat
    decreases a.len() - from,
{
    if from < a.len() && from < b.len() && a[from as int] == b[from as int] {
        shared_prefix_len(a, b, from + 1)
    } else {
        from
    }
}

/// The relative path from directory `from` to directory `to`: one `..` per component of
/// `from` past their shared prefix, then the rest of `to`; `.` when that is empty.
pub open spec fn relative_path(from: Seq<char>, to: Seq<char>) -> Seq<char> {
    let a = path_parts(from);
    let b = path_parts(to);
    let shared = shared_prefix_len(a, b, 0);
    let rel = push_parts(push_parents(Seq::empty(), (a.len() - shared) as nat), b.skip(shared as int));
    if rel.len() == 0 {
        seq!['.']
    } else {
        rel
    }
}


/// Splits `s` at every `sep`, keeping empty pieces, as `str::split` does.
pub fn split_at_char(s: &str, sep: char) -> (r: Vec<String>)
    ensures
        strings_view(r@) == split_on(s@, sep),
{
    let n = s.unicode_len();
    let mut out: Vec<String> = Vec::new();
    let mut current = String::new();
    let mut i: usize = 0;
    proof {
        assert(s@.take(0) =~= Seq::<char>::empty());
        assert(strings_view(out@).push(current@) =~= seq![Seq::<char>::empty()]);
    }
    while i < n
        invariant
            n == s@.len(),
            i <= n,
            split_on(s@.take(i as int), sep) == strings_view(out@).push(current@),
        decreases n - i,
    {
        let c = s.get_char(i);
        proof {
            assert(s@.take(i + 1).drop_last() =~= s@.take(i as int));
            assert(s@.take(i + 1).last() == c);
        }
        if c == sep {
            let piece = current;
            proof {
                lemma_strings_view_push(out@, piece);
            }
            out.push(piece);
            current = String::new();
        } else {
            let ghost before = current@;
            push_char(&mut current, c);
            proof {
                assert(strings_view(out@).push(before).update(out@.len() as int, before.push(c))
                    =~= strings_view(out@).push(current@));
            }
        }
        i = i + 1;
    }
    proof {
        assert(s@.take(n as int) =~= s@);
        lemma_strings_view_push(out@, current);
    }
    out.push(current);
    out
}

/// One component of a path.
pub enum PathComponent {
    Root,
    Current,
    Parent,
    Normal(String),
}

impl View for PathComponent {
    type V = PathPart;

    open spec fn view(&self) -> PathPart {
        match self {
            PathComponent::Root => PathPart::Root,
            PathComponent::Current => PathPart::Current,
            PathComponent::Parent => PathPart::Parent,
            PathComponent::Normal(s) => PathPart::Normal(s@),
        }
    }
}

/// The views of a list of components.
pub open spec fn parts_view(v: Seq<PathComponent>) -> Seq<PathPart> {
    v.map_values(|c: PathComponent| c@)
}

fn is_dot(p: &str) -> (r: bool)
    ensures
        r == (p@ == seq!['.']),
{
    if p.unicode_len() == 1 && p.get_char(0) == '.' {
        assert(p@ =~= seq!['.']);
        true
    } else {
        false
    }
}

fn is_dot_dot(p: &str) -> (r: bool)
    ensures
        r == (p@ == seq!['.', '.']),
{
    let n = p.unicode_len();
    if n == 2 && p.get_char(0) == '.' && p.get_char(1) == '.' {
        assert(p@ =~= seq!['.', '.']);
        true
    } else {
        false
    }
}

/// Appends the components of `pieces[from..]` to `out`.
fn push_piece_parts(out: &mut Vec<PathComponent>, pieces: &Vec<String>, from: usize)
    requires
        from <= pieces@.len(),
    ensures
        parts_view(final(out)@) == parts_view(old(out)@) + pieces_parts(
            strings_view(pieces@).skip(from as int),
        ),
{
    let ghost start = parts_view(out@);
    let ghost all = strings_view(pieces@).skip(from as int);
    let mut i: usize = from;
    proof {
        assert(all.take(0) =~= Seq::<Seq<char>>::empty());
        assert(start + pieces_parts(Seq::empty()) =~= start);
    }
    while i < pieces.len()
        invariant
            from <= i <= pieces@.len(),
            all == strings_view(pieces@).skip(from as int),
            all.len() == pieces@.len() - from,
            parts_view(out@) == start + pieces_parts(all.take(i - from)),
        decreases pieces@.len() - i,
    {
        let piece = pieces[i].as_str();
        proof {
            assert(all.take(i - from + 1).drop_last() =~= all.take(i - from));
            assert(all.take(i - from + 1).last() == piece@);
        }
        let ghost before = out@;
        if piece.unicode_len() == 0 || is_dot(piece) {
        } else if is_dot_dot(piece) {
            out.push(PathComponent::Parent);
            proof {
                assert(parts_view(out@) =~= parts_view(before).push(PathPart::Parent));
            }
        } else {
            let part = PathComponent::Normal(piece.to_owned());
            out.push(part);
            proof {
                assert(parts_view(out@) =~= parts_view(before).push(PathPart::Normal(piece@)));
            }
        }
        i = i + 1;
    }
    proof {
        assert(all.take(pieces@.len() - from) =~= all);
    }
}

/// The components of a Unix path, as `Path::components` reports them.
pub fn path_components(path: &str) -> (r: Vec<PathComponent>)
    ensures
        parts_view(r@) == path_parts(path@),
{
    let pieces = split_at_char(path, '/');
    proof {
        crate::navigation::lemma_split_on_nonempty(path@, '/');
        assert(strings_view(pieces@).drop_first() =~= strings_view(pieces@).skip(1));
        assert(strings_view(pieces@).skip(0) =~= strings_view(pieces@));
    }
    let mut out: Vec<PathComponent> = Vec::new();
    if path.unicode_len() > 0 && path.get_char(0) == '/' {
        out.push(PathComponent::Root);
        proof {
            assert(parts_view(out@) =~= seq![PathPart::Root]);
        }
        push_piece_parts(&mut out, &pieces, 1);
    } else if is_dot(pieces[0].as_str()) {
        out.push(PathComponent::Current);
        proof {
            assert(parts_view(out@) =~= seq![PathPart::Current]);
        }
        push_piece_parts(&mut out, &pieces, 1);
    } else {
        proof {
            assert(parts_view(out@) =~= Seq::<PathPart>::empty());
        }
        push_piece_parts(&mut out, &pieces, 0);
        proof {
            assert(Seq::<PathPart>::empty() + pieces_parts(strings_view(pieces@)) =~= pieces_parts(
                strings_view(pieces@),
            ));
        }
    }
    out
}


fn component_eq(a: &PathComponent, b: &PathComponent) -> (r: bool)
    ensures
        r == (a@ == b@),
{
    match (a, b) {
        (PathComponent::Root, PathComponent::Root) => true,
        (PathComponent::Current, PathComponent::Current) => true,
        (PathComponent::Parent, PathComponent::Parent) => true,
        (PathComponent::Normal(x), PathComponent::Normal(y)) => str_eq(x.as_str(), y.as_str()),
        _ => false,
    }
}

fn component_text(c: &PathComponent) -> (r: String)
    ensures
        r@ == part_text(c@),
{
    proof {
        reveal_strlit("/");
        reveal_strlit(".");
        reveal_strlit("..");
        assert("/"@ =~= seq!['/']);
        assert("."@ =~= seq!['.']);
        assert(".."@ =~= seq!['.', '.']);
    }
    match c {
        PathComponent::Root => "/".to_owned(),
        PathComponent::Current => ".".to_owned(),
        PathComponent::Parent => "..".to_owned(),
        PathComponent::Normal(s) => s.clone(),
    }
}

/// `PathBuf::push` of a relative or absolute piece onto a path held as text.
fn path_push_text(acc: &mut String, x: &str)
    ensures
        final(acc)@ == path_push(old(acc)@, x@),
{
    let n = acc.as_str().unicode_len();
    if x.unicode_len() > 0 && x.get_char(0) == '/' {
        *acc = x.to_owned();
    } else if n == 0 {
        *acc = x.to_owned();
    } else if acc.as_str().get_char(n - 1) == '/' {
        push_str(acc, x);
    } else {
        push_char(acc, '/');
        push_str(acc, x);
        proof {
            assert(final(acc)@ =~= old(acc)@ + seq!['/'] + x@);
        }
    }
}

/// Computes the relative dependency path from the generated showcase app to the entry crate.
pub fn relative_dependency_path(from_dir: &str, to_dir: &str) -> (r: Result<String, String>)
    ensures
        r is Ok,
        r->Ok_0@ == relative_path(from_dir@, to_dir@),
{
    let a = path_components(from_dir);
    let b = path_components(to_dir);
    let ghost av = parts_view(a@);
    let ghost bv = parts_view(b@);
    let mut shared: usize = 0;
    while shared < a.len() && shared < b.len() && component_eq(&a[shared], &b[shared])
        invariant
            av == parts_view(a@),
            bv == parts_view(b@),
            av.len() == a@.len(),
            bv.len() == b@.len(),
            shared <= a@.len(),
            shared <= b@.len(),
            shared_prefix_len(av, bv, 0) == shared_prefix_len(av, bv, shared as nat),
        decreases a@.len() - shared,
    {
        proof {
            assert(av[shared as int] == a@[shared as int]@);
            assert(bv[shared as int] == b@[shared as int]@);
        }
        shared = shared + 1;
    }
    proof {
        if shared < a@.len() && shared < b@.len() {
            assert(av[shared as int] == a@[shared as int]@);
            assert(bv[shared as int] == b@[shared as int]@);
        }
    }
    let mut relative = String::new();
    let mut k: usize = shared;
    while k < a.len()
        invariant
            shared <= k <= a@.len(),
            relative@ == push_parents(Seq::empty(), (k - shared) as nat),
        decreases a@.len() - k,
    {
        proof {
            reveal_strlit("..");
            assert(".."@ =~= seq!['.', '.']);
        }
        path_push_text(&mut relative, "..");
        k = k + 1;
    }
    let ghost base = relative@;
    let ghost rest = bv.skip(shared as int);
    let mut j: usize = shared;
    proof {
        assert(rest.take(0) =~= Seq::<PathPart>::empty());
    }
    while j < b.len()
        invariant
            shared <= j <= b@.len(),
            bv == parts_view(b@),
            bv.len() == b@.len(),
            rest == bv.skip(shared as int),
            relative@ == push_parts(base, rest.take(j - shared)),
        decreases b@.len() - j,
    {
        let text = component_text(&b[j]);
        proof {
            assert(rest.take(j - shared + 1).drop_last() =~= rest.take(j - shared));
            assert(rest.take(j - shared + 1).last() == b@[j as int]@);
        }
        path_push_text(&mut relative, text.as_str());
        j = j + 1;
    }
    proof {
        assert(rest.take(b@.len() - shared) =~= rest);
    }
    if relative.as_str().unicode_len() == 0 {
        proof {
            reveal_strlit(".");
            assert("."@ =~= seq!['.']);
        }
        return Ok(".".to_owned());
    }
    Ok(relative)
}


/// `Path::strip_prefix` on components: what follows `prefix` when it is a whole-component
/// prefix of `path`.
pub open spec fn strip_prefix_parts(path: Seq<PathPart>, prefix: Seq<PathPart>) -> Option<
    Seq<PathPart>,
> {
    if prefix.len() <= path.len() && path.take(prefix.len() as int) == prefix {
        Some(path.skip(prefix.len() as int))
    } else {
        None
    }
}

/// The index of the last `c` in `s`, or -1.
pub open spec fn last_index_of(s: Seq<char>, c: char) -> int
    decreases s.len(),
{
    if s.len() == 0 {
        -1
    } else if s.last() == c {
        s.len() - 1
    } else {
        last_index_of(s.drop_last(), c)
    }
}

/// `Path::file_stem` of a file name: the part before its last `.`, unless that dot is the
/// first character or there is none.
pub open spec fn file_stem(name: Seq<char>) -> Seq<char> {
    let i = last_index_of(name, '.');
    if i <= 0 {
        name
    } else {
        name.take(i)
    }
}

/// The module path segments a source file contributes below the crate's source directory:
/// its parent directories, then its stem unless that is `lib`, `main` or `mod`.
pub open spec fn module_prefix(dir: Seq<char>, path: Seq<char>) -> Result<Seq<Seq<char>>, Seq<char>> {
    match strip_prefix_parts(path_parts(path), path_parts(dir)) {
        None => Err(
            "failed to compute module path for "@ + path + " relative to "@ + dir
                + ": prefix not found"@,
        ),
        Some(rel) => {
            let parent = if rel.len() > 0 {
                rel.drop_last()
            } else {
                Seq::empty()
            };
            let segments = parent.map_values(|p: PathPart| part_text(p));
            let name = if rel.len() > 0 {
                match rel.last() {
                    PathPart::Normal(n) => Some(n),
                    _ => None,
                }
            } else {
                None
            };
            match name {
                None => Err("failed to derive module name from "@ + path),
                Some(n) => {
                    let stem = file_stem(n);
                    if stem == "lib"@ || stem == "main"@ || stem == "mod"@ {
                        Ok(segments)
                    } else {
                        Ok(segments.push(stem))
                    }
                },
            }
        },
    }
}

/// A file strictly below the source directory contributes every directory component between
/// the two, in order, and then its stem unless that is `lib`, `main` or `mod`: the segments
/// number the directories, plus one for any other stem.
pub proof fn lemma_module_prefix_keeps_every_directory(
    dir: Seq<char>,
    path: Seq<char>,
    dirs: Seq<Seq<char>>,
    file: Seq<char>,
)
    requires
        path_parts(path) == path_parts(dir) + dirs.map_values(|d: Seq<char>| PathPart::Normal(d)) + seq![
            PathPart::Normal(file),
        ],
    ensures
        module_prefix(dir, path) == Ok::<Seq<Seq<char>>, Seq<char>>(
            if file_stem(file) == "lib"@ || file_stem(file) == "main"@ || file_stem(file) == "mod"@ {
                dirs
            } else {
                dirs.push(file_stem(file))
            },
        ),
        module_prefix(dir, path)->Ok_0.take(dirs.len() as int) == dirs,
        module_prefix(dir, path)->Ok_0.len() == dirs.len() + (if file_stem(file) == "lib"@ || file_stem(file)
            == "main"@ || file_stem(file) == "mod"@ {
            0int
        } else {
            1int
        }),
{
    let a = path_parts(dir);
    let middle = dirs.map_values(|d: Seq<char>| PathPart::Normal(d));
    let rel = middle + seq![PathPart::Normal(file)];
    assert(path_parts(path) =~= a + rel);
    assert((a + rel).take(a.len() as int) =~= a);
    assert((a + rel).skip(a.len() as int) =~= rel);
    assert(strip_prefix_parts(path_parts(path), a) == Some(rel));
    assert(rel.drop_last() =~= middle);
    assert(rel.last() == PathPart::Normal(file));
    assert(middle.map_values(|p: PathPart| part_text(p)) =~= dirs);
    assert(dirs.push(file_stem(file)).take(dirs.len() as int) =~= dirs);
    assert(dirs.take(dirs.len() as int) =~= dirs);
}

/// The stem of a file named `<s>.rs` is `s`.
pub proof fn lemma_file_stem_of_rust_file(s: Seq<char>)
    requires
        s.len() > 0,
    ensures
        file_stem(s + ".rs"@) == s,
{
    reveal_strlit(".rs");
    let f = s + ".rs"@;
    assert(f.last() == 's');
    assert(f.drop_last().last() == 'r');
    assert(f.drop_last().drop_last().last() == '.');
    assert(last_index_of(f.drop_last().drop_last(), '.') == s.len());
    assert(last_index_of(f.drop_last(), '.') == s.len());
    assert(last_index_of(f, '.') == s.len());
    assert(f.take(s.len() as int) =~= s);
}

fn last_dot(s: &str) -> (r: Option<usize>)
    ensures
        match r {
            Some(i) => i < s@.len() && last_index_of(s@, '.') == i,
            None => last_index_of(s@, '.') == -1,
        },
{
    let mut i = s.unicode_len();
    proof {
        assert(s@.take(i as int) =~= s@);
    }
    while i > 0
        invariant
            i <= s@.len(),
            last_index_of(s@, '.') == last_index_of(s@.take(i as int), '.'),
        decreases i,
    {
        proof {
            assert(s@.take(i as int).drop_last() =~= s@.take(i - 1));
        }
        if s.get_char(i - 1) == '.' {
            return Some(i - 1);
        }
        i = i - 1;
    }
    None
}

/// `Path::file_stem` of a file name.
pub fn file_stem_of(name: &str) -> (r: String)
    ensures
        r@ == file_stem(name@),
{
    match last_dot(name) {
        Some(i) => {
            if i == 0 {
                name.to_owned()
            } else {
                crate::text::substring(name, 0, i)
            }
        },
        None => name.to_owned(),
    }
}

/// Computes the module path segments of a source file below the entry crate's `src/`.
pub fn module_prefix_from_path(entry_src_dir: &str, path: &str) -> (r: Result<Vec<String>, String>)
    ensures
        match module_prefix(entry_src_dir@, path@) {
            Ok(segments) => r is Ok && strings_view(r->Ok_0@) == segments,
            Err(e) => r is Err && r->Err_0@ == e,
        },
{
    let dir_parts = path_components(entry_src_dir);
    let path_parts_v = path_components(path);
    let ghost a = parts_view(path_parts_v@);
    let ghost b = parts_view(dir_parts@);
    let mut matched = dir_parts.len() <= path_parts_v.len();
    let mut k: usize = 0;
    if dir_parts.len() <= path_parts_v.len() {
        proof {
            assert(a.take(0) =~= b.take(0));
        }
        while k < dir_parts.len()
            invariant
                a == parts_view(path_parts_v@),
                b == parts_view(dir_parts@),
                a.len() == path_parts_v@.len(),
                b.len() == dir_parts@.len(),
                b.len() <= a.len(),
                k <= b.len(),
                matched == (a.take(k as int) == b.take(k as int)),
            decreases b.len() - k,
        {
            let same = component_eq(&path_parts_v[k], &dir_parts[k]);
            proof {
                assert(a.take(k + 1) =~= a.take(k as int).push(a[k as int]));
                assert(b.take(k + 1) =~= b.take(k as int).push(b[k as int]));
                if !(a.take(k as int) == b.take(k as int)) {
                    if a.take(k + 1) == b.take(k + 1) {
                        assert(a.take(k + 1).drop_last() =~= a.take(k as int));
                        assert(b.take(k + 1).drop_last() =~= b.take(k as int));
                    }
                }
                if a.take(k + 1) == b.take(k + 1) {
                    assert(a.take(k + 1)[k as int] == b.take(k + 1)[k as int]);
                }
            }
            matched = matched && same;
            k = k + 1;
        }
        proof {
            assert(b.take(b.len() as int) =~= b);
        }
    }
    if !matched {
        let mut message = concat3("failed to compute module path for ", path, " relative to ");
        push_str(&mut message, entry_src_dir);
        push_str(&mut message, ": prefix not found");
        return Err(message);
    }
    let start = dir_parts.len();
    let count = path_parts_v.len();
    let ghost rel = a.skip(start as int);
    let mut segments: Vec<String> = Vec::new();
    if count > start {
        let mut j: usize = start;
        proof {
            assert(strings_view(segments@) =~= rel.drop_last().take(0).map_values(|p: PathPart| part_text(p)));
        }
        while j < count - 1
            invariant
                a == parts_view(path_parts_v@),
                a.len() == path_parts_v@.len(),
                count == a.len(),
                start < count,
                rel == a.skip(start as int),
                start <= j <= count - 1,
                strings_view(segments@) == rel.drop_last().take(j - start).map_values(
                    |p: PathPart| part_text(p),
                ),
            decreases count - 1 - j,
        {
            let text = component_text(&path_parts_v[j]);
            proof {
                lemma_strings_view_push(segments@, text);
                assert(rel.drop_last()[j - start] == path_parts_v@[j as int]@);
                assert(rel.drop_last().take(j - start + 1).map_values(|p: PathPart| part_text(p))
                    =~= rel.drop_last().take(j - start).map_values(|p: PathPart| part_text(p)).push(
                    text@,
                ));
            }
            segments.push(text);
            j = j + 1;
        }
        proof {
            assert(rel.drop_last().take(count - 1 - start) =~= rel.drop_last());
            assert(rel.last() == path_parts_v@[count - 1]@);
        }
        match &path_parts_v[count - 1] {
            PathComponent::Normal(name) => {
                let stem = file_stem_of(name.as_str());
                if str_eq(stem.as_str(), "lib") || str_eq(stem.as_str(), "main") || str_eq(
                    stem.as_str(),
                    "mod",
                ) {
                    return Ok(segments);
                }
                proof {
                    lemma_strings_view_push(segments@, stem);
                }
                segments.push(stem);
                Ok(segments)
            },
            _ => Err(concat2("failed to derive module name from ", path)),
        }
    } else {
        Err(concat2("failed to derive module name from ", path))
    }
}

} // verus!
