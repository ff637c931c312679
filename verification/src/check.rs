//! Diagnostics of `dioxus-showcase check`: missing `lto` settings and colliding story ids.
use vstd::prelude::*;

use crate::format::{decimal, push_decimal};
use crate::manifest::{joined, StoryDefinition, StoryDefinitionView};
use crate::navigation::split_on;
use crate::paths::split_at_char;
use crate::scaffold::definitions_view;
use crate::templates::{cargo_lto_profiles, first_index_of, showcase_render, text_lines, ShowcaseTemplate};
use crate::text::{concat3, push_str, str_eq, trim_set, trimmed, TrimSet};

verus! {

/// The key of a manifest line: the text before its first `=` (all of it when there is
/// none), trimmed.
pub open spec fn line_key(line: Seq<char>) -> Seq<char> {
    let eq = first_index_of(line, '=', 0);
    trimmed(if eq < 0 { line } else { line.subrange(0, eq) }, TrimSet::Whitespace)
}

/// Whether a trimmed line is a `[...]` table header.
pub open spec fn is_header(line: Seq<char>) -> bool {
    line.len() > 0 && line[0] == '[' && line.last() == ']'
}

/// Whether some line after a `header` line (and before the next table header) has the
/// key `lto`; `inside` says whether the scan starts inside that table.
pub open spec fn lto_scan(lines: Seq<Seq<char>>, header: Seq<char>, inside: bool) -> bool
    decreases lines.len(),
{
    if lines.len() == 0 {
        false
    } else {
        let line = trimmed(lines[0], TrimSet::Whitespace);
        if is_header(line) {
            lto_scan(lines.drop_first(), header, line == header)
        } else if inside && line_key(line) == "lto"@ {
            true
        } else {
            lto_scan(lines.drop_first(), header, inside)
        }
    }
}

/// The header of the table of build profile `profile`.
pub open spec fn profile_header(profile: Seq<char>) -> Seq<char> {
    "[profile."@ + profile + "]"@
}

/// Splitting text whose first part ends with the separator splits each part on its own.
proof fn lemma_split_on_after_separator(a: Seq<char>, b: Seq<char>, sep: char)
    requires
        a.len() > 0,
        a.last() == sep,
    ensures
        split_on(a + b, sep) == split_on(a, sep).drop_last() + split_on(b, sep),
    decreases b.len(),
{
    crate::navigation::lemma_split_on_nonempty(a, sep);
    if b.len() == 0 {
        assert(a + b =~= a);
        assert(a.drop_last() + seq![sep] =~= a);
        assert(split_on(a, sep).last() == Seq::<char>::empty());
        assert(split_on(a, sep).drop_last() + split_on(b, sep) =~= split_on(a, sep));
    } else {
        let b0 = b.drop_last();
        lemma_split_on_after_separator(a, b0, sep);
        crate::navigation::lemma_split_on_nonempty(b0, sep);
        assert((a + b).drop_last() =~= a + b0);
        assert((a + b).last() == b.last());
        let p = split_on(a, sep).drop_last();
        let q = split_on(b0, sep);
        if b.last() == sep {
            assert(p + q.push(Seq::empty()) =~= (p + q).push(Seq::empty()));
        } else {
            let u = q.update(q.len() - 1, q.last().push(b.last()));
            assert(p + u =~= (p + q).update((p + q).len() - 1, (p + q).last().push(b.last())));
        }
    }
}

/// Text without the separator is one piece.
proof fn lemma_split_on_single(a: Seq<char>, sep: char)
    requires
        !a.contains(sep),
    ensures
        split_on(a, sep) == seq![a],
    decreases a.len(),
{
    if a.len() == 0 {
        assert(a =~= Seq::<char>::empty());
    } else {
        let a0 = a.drop_last();
        assert(!a0.contains(sep)) by {
            if a0.contains(sep) {
                let k = choose|k: int| 0 <= k < a0.len() && a0[k] == sep;
                assert(a[k] == sep);
            }
        }
        lemma_split_on_single(a0, sep);
        assert(a.last() != sep) by {
            assert(a[a.len() - 1] == a.last());
        }
        assert(a0.push(a.last()) =~= a);
        assert(seq![a0].update(0, a0.push(a.last())) =~= seq![a]);
    }
}

/// A line without the separator, then the separator, then the rest: the line is the first
/// piece.
proof fn lemma_split_on_line(a: Seq<char>, b: Seq<char>, sep: char)
    requires
        !a.contains(sep),
    ensures
        split_on(a + seq![sep] + b, sep) == seq![a] + split_on(b, sep),
{
    let line = a + seq![sep];
    lemma_split_on_after_separator(line, b, sep);
    lemma_split_on_single(a, sep);
    assert(line.drop_last() =~= a);
    assert(split_on(line, sep) == split_on(a, sep).push(Seq::empty()));
    assert(split_on(line, sep).drop_last() =~= seq![a]);
}

/// The lines of text that ends a line, followed by text that also ends one, are the lines
/// of the first part and then those of the second.
proof fn lemma_text_lines_concat(a: Seq<char>, b: Seq<char>)
    requires
        a.len() > 0,
        a.last() == '\n',
        b.len() > 0,
        b.last() == '\n',
    ensures
        text_lines(a + b) == text_lines(a) + text_lines(b),
{
    lemma_split_on_after_separator(a, b, '\n');
    crate::navigation::lemma_split_on_nonempty(a.drop_last(), '\n');
    crate::navigation::lemma_split_on_nonempty(b.drop_last(), '\n');
    let p = split_on(a, '\n');
    let q = split_on(b, '\n');
    assert(p.last() == Seq::<char>::empty());
    assert(q.last() == Seq::<char>::empty());
    assert((a + b).last() == '\n');
    assert((a + b).len() > 0);
    assert(split_on(a + b, '\n') == p.drop_last() + q);
    assert((p.drop_last() + q).last() == q.last());
    assert((p.drop_last() + q).drop_last() =~= p.drop_last() + q.drop_last());
}

/// When every scan of the last lines finds `lto`, so does every scan of more lines before
/// them.
proof fn lemma_lto_scan_reaches(front: Seq<Seq<char>>, back: Seq<Seq<char>>, header: Seq<char>, inside: bool)
    requires
        forall|x: bool| #[trigger] lto_scan(back, header, x),
    ensures
        lto_scan(front + back, header, inside),
    decreases front.len(),
{
    if front.len() == 0 {
        assert(front + back =~= back);
        assert(lto_scan(back, header, inside));
    } else {
        assert((front + back).drop_first() =~= front.drop_first() + back);
        assert((front + back)[0] == front[0]);
        let line = trimmed(front[0], TrimSet::Whitespace);
        let next = if is_header(line) {
            line == header
        } else {
            inside
        };
        lemma_lto_scan_reaches(front.drop_first(), back, header, next);
    }
}

/// A line that starts and ends with characters other than whitespace is its own trim.
proof fn lemma_trimmed_unchanged(line: Seq<char>)
    requires
        line.len() > 0,
        !crate::text::unicode_white_space(line[0]),
        !crate::text::unicode_white_space(line.last()),
    ensures
        trimmed(line, TrimSet::Whitespace) == line,
{
    assert(crate::text::trimmed_start(line, TrimSet::Whitespace) == line);
}

/// The key of an `lto = ...` line.
proof fn lemma_lto_line_key(line: Seq<char>)
    requires
        line.len() > 4,
        line.subrange(0, 4) == "lto "@,
        line[4] == '=',
    ensures
        line_key(line) == "lto"@,
{
    reveal_strlit("lto ");
    reveal_strlit("lto");
    let key = line.subrange(0, 4);
    assert(key[0] == 'l' && key[1] == 't' && key[2] == 'o' && key[3] == ' ');
    assert(line[0] == key[0] && line[1] == key[1] && line[2] == key[2] && line[3] == key[3]);
    assert(first_index_of(line, '=', 4) == 4);
    assert(first_index_of(line, '=', 3) == 4);
    assert(first_index_of(line, '=', 2) == 4);
    assert(first_index_of(line, '=', 1) == 4);
    assert(first_index_of(line, '=', 0) == 4);
    assert(crate::text::trimmed_start(key, TrimSet::Whitespace) == key);
    assert(key.drop_last() =~= "lto"@);
    assert(crate::text::trimmed_end(key.drop_last(), TrimSet::Whitespace) == key.drop_last());
    assert(crate::text::trimmed_end(key, TrimSet::Whitespace) == key.drop_last());
}

/// The lines of the build profiles that end a generated `Cargo.toml`.
proof fn lemma_lto_profile_lines()
    ensures
        text_lines(cargo_lto_profiles()) == seq![
            "[profile.dev]"@,
            "lto = \"thin\""@,
            Seq::<char>::empty(),
            "[profile.release]"@,
            "lto = true"@,
            "strip = true"@,
        ],
{
    reveal_strlit("[profile.dev]\nlto = \"thin\"\n\n[profile.release]\nlto = true\nstrip = true\n");
    reveal_strlit("[profile.dev]");
    reveal_strlit("lto = \"thin\"");
    reveal_strlit("[profile.release]");
    reveal_strlit("lto = true");
    reveal_strlit("strip = true");
    let nl = seq!['\n'];
    let e = Seq::<char>::empty();
    let l1 = "[profile.dev]"@;
    let l2 = "lto = \"thin\""@;
    let l4 = "[profile.release]"@;
    let l5 = "lto = true"@;
    let l6 = "strip = true"@;
    let r5 = l6 + nl + e;
    let r4 = l5 + nl + r5;
    let r3 = l4 + nl + r4;
    let r2 = e + nl + r3;
    let r1 = l2 + nl + r2;
    let t = l1 + nl + r1;
    assert(cargo_lto_profiles() =~= t);
    assert(!l1.contains('\n'));
    assert(!l2.contains('\n'));
    assert(!e.contains('\n'));
    assert(!l4.contains('\n'));
    assert(!l5.contains('\n'));
    assert(!l6.contains('\n'));
    lemma_split_on_line(l6, e, '\n');
    lemma_split_on_line(l5, r5, '\n');
    lemma_split_on_line(l4, r4, '\n');
    lemma_split_on_line(e, r3, '\n');
    lemma_split_on_line(l2, r2, '\n');
    lemma_split_on_line(l1, r1, '\n');
    assert(split_on(t, '\n') =~= seq![l1, l2, e, l4, l5, l6, e]);
}

/// Whether `[profile.<profile>]` in `manifest` assigns `lto`.
pub open spec fn sets_lto(manifest: Seq<char>, profile: Seq<char>) -> bool {
    lto_scan(text_lines(manifest), profile_header(profile), false)
}

/// The closing lines of a generated `Cargo.toml` set `lto` in both profiles, whatever table
/// the scan is in when it reaches them.
proof fn lemma_lto_profiles_found(inside: bool)
    ensures
        lto_scan(text_lines(cargo_lto_profiles()), profile_header("dev"@), inside),
        lto_scan(text_lines(cargo_lto_profiles()), profile_header("release"@), inside),
{
    lemma_lto_profile_lines();
    reveal_strlit("[profile.dev]");
    reveal_strlit("lto = \"thin\"");
    reveal_strlit("[profile.release]");
    reveal_strlit("lto = true");
    reveal_strlit("strip = true");
    reveal_strlit("[profile.");
    reveal_strlit("dev");
    reveal_strlit("release");
    reveal_strlit("]");
    reveal_strlit("lto ");
    let e = Seq::<char>::empty();
    let l1 = "[profile.dev]"@;
    let l2 = "lto = \"thin\""@;
    let l4 = "[profile.release]"@;
    let l5 = "lto = true"@;
    let s0 = text_lines(cargo_lto_profiles());
    let s1 = s0.drop_first();
    let s2 = s1.drop_first();
    let s3 = s2.drop_first();
    let s4 = s3.drop_first();
    assert(s1[0] == l2);
    assert(s2[0] == e);
    assert(s3[0] == l4);
    assert(s4[0] == l5);
    lemma_trimmed_unchanged(l1);
    lemma_trimmed_unchanged(l2);
    lemma_trimmed_unchanged(l4);
    lemma_trimmed_unchanged(l5);
    assert(trimmed(e, TrimSet::Whitespace) == e);
    assert(l2.subrange(0, 4) =~= "lto "@);
    assert(l5.subrange(0, 4) =~= "lto "@);
    lemma_lto_line_key(l2);
    lemma_lto_line_key(l5);
    let dev = profile_header("dev"@);
    let rel = profile_header("release"@);
    assert(dev =~= l1);
    assert(rel =~= l4);
    assert(l1 != rel);
    assert(!is_header(l2) && !is_header(l5) && !is_header(e));
    assert(is_header(l1) && is_header(l4));
    assert(lto_scan(s1, dev, true));
    assert(lto_scan(s0, dev, inside));
    assert(lto_scan(s4, rel, true));
    assert(lto_scan(s3, rel, false));
    assert(lto_scan(s2, rel, false));
    assert(lto_scan(s1, rel, false));
    assert(lto_scan(s0, rel, inside));
}

/// A freshly generated `Cargo.toml` passes the `lto` check: whatever package name, version
/// and paths it is rendered with, its `[profile.dev]` and `[profile.release]` tables both set
/// `lto`, so the check reports no profile missing it.
pub proof fn lemma_generated_cargo_sets_lto(ctx: Seq<(Seq<char>, crate::templates::TemplateValueView)>)
    ensures
        sets_lto(showcase_render(ShowcaseTemplate::Cargo, ctx), "dev"@),
        sets_lto(showcase_render(ShowcaseTemplate::Cargo, ctx), "release"@),
        missing_lto(Some(showcase_render(ShowcaseTemplate::Cargo, ctx))) == Seq::<Seq<char>>::empty(),
{
    let r = showcase_render(ShowcaseTemplate::Cargo, ctx);
    let tail = cargo_lto_profiles();
    reveal_strlit("\" }\n\n[features]\ndefault = [\"web\"]\nweb = [\"dioxus/web\"]\n\n");
    reveal_strlit("[profile.dev]\nlto = \"thin\"\n\n[profile.release]\nlto = true\nstrip = true\n");
    let head = r.subrange(0, r.len() - tail.len());
    assert(r == head + tail);
    assert(head.len() > 0);
    assert(head.last() == '\n');
    assert(tail.last() == '\n');
    lemma_text_lines_concat(head, tail);
    lemma_lto_profiles_found(true);
    lemma_lto_profiles_found(false);
    lemma_lto_scan_reaches(text_lines(head), text_lines(tail), profile_header("dev"@), false);
    lemma_lto_scan_reaches(text_lines(head), text_lines(tail), profile_header("release"@), false);
}

/// Whether a manifest line, trimmed, is a table header.
pub open spec fn header_line(line: Seq<char>) -> bool {
    is_header(trimmed(line, TrimSet::Whitespace))
}

/// Lines under a table header other than the profile's, up to the next header, never set
/// `lto` for the profile, whatever table the scan was in before.
pub proof fn lemma_other_table_never_sets_lto(other: Seq<char>, tail: Seq<Seq<char>>, header: Seq<char>, inside: bool)
    requires
        header_line(other),
        trimmed(other, TrimSet::Whitespace) != header,
        forall|i: int| 0 <= i < tail.len() ==> !header_line(#[trigger] tail[i]),
    ensures
        !lto_scan(seq![other] + tail, header, inside),
{
    assert((seq![other] + tail)[0] == other);
    assert((seq![other] + tail).drop_first() =~= tail);
    lemma_scan_outside_table(tail, header);
}

proof fn lemma_scan_outside_table(lines: Seq<Seq<char>>, header: Seq<char>)
    requires
        forall|i: int| 0 <= i < lines.len() ==> !header_line(#[trigger] lines[i]),
    ensures
        !lto_scan(lines, header, false),
    decreases lines.len(),
{
    if lines.len() > 0 {
        assert(!header_line(lines[0]));
        assert forall|i: int| 0 <= i < lines.drop_first().len() implies !header_line(
            #[trigger] lines.drop_first()[i],
        ) by {
            assert(lines.drop_first()[i] == lines[i + 1]);
        }
        lemma_scan_outside_table(lines.drop_first(), header);
    }
}

/// Appending a table other than `[profile.<name>]` to a manifest never changes whether that
/// profile sets `lto`: an `lto` key counts only under the profile's own header.
pub proof fn lemma_appended_table_keeps_lto_answer(
    front: Seq<Seq<char>>,
    other: Seq<char>,
    tail: Seq<Seq<char>>,
    header: Seq<char>,
    inside: bool,
)
    requires
        header_line(other),
        trimmed(other, TrimSet::Whitespace) != header,
        forall|i: int| 0 <= i < tail.len() ==> !header_line(#[trigger] tail[i]),
    ensures
        lto_scan(front + (seq![other] + tail), header, inside) == lto_scan(front, header, inside),
    decreases front.len(),
{
    if front.len() == 0 {
        assert(front + (seq![other] + tail) =~= seq![other] + tail);
        lemma_other_table_never_sets_lto(other, tail, header, inside);
    } else {
        let back = seq![other] + tail;
        assert((front + back).drop_first() =~= front.drop_first() + back);
        assert((front + back)[0] == front[0]);
        let line = trimmed(front[0], TrimSet::Whitespace);
        let next = if is_header(line) {
            line == header
        } else {
            inside
        };
        lemma_appended_table_keeps_lto_answer(front.drop_first(), other, tail, header, next);
    }
}

/// A manifest whose only `lto` key sits under another table does not set `lto` for the
/// profile: `[profile.<name>]` followed by its own lines without `lto`, then another table
/// with `lto`, is reported as missing.
pub proof fn lemma_lto_of_another_profile_does_not_count(
    own: Seq<char>,
    own_lines: Seq<Seq<char>>,
    other: Seq<char>,
    tail: Seq<Seq<char>>,
    header: Seq<char>,
)
    requires
        trimmed(own, TrimSet::Whitespace) == header,
        is_header(header),
        forall|i: int| 0 <= i < own_lines.len() ==> !header_line(#[trigger] own_lines[i]) && line_key(
            trimmed(own_lines[i], TrimSet::Whitespace),
        ) != "lto"@,
        header_line(other),
        trimmed(other, TrimSet::Whitespace) != header,
        forall|i: int| 0 <= i < tail.len() ==> !header_line(#[trigger] tail[i]),
    ensures
        !lto_scan(seq![own] + own_lines + (seq![other] + tail), header, false),
        !lto_scan(seq![own] + own_lines + (seq![other] + tail), header, true),
{
    lemma_appended_table_keeps_lto_answer(seq![own] + own_lines, other, tail, header, false);
    lemma_appended_table_keeps_lto_answer(seq![own] + own_lines, other, tail, header, true);
    let front = seq![own] + own_lines;
    assert(front[0] == own);
    assert(front.drop_first() =~= own_lines);
    lemma_scan_table_without_lto(own_lines, header);
}

proof fn lemma_scan_table_without_lto(lines: Seq<Seq<char>>, header: Seq<char>)
    requires
        forall|i: int| 0 <= i < lines.len() ==> !header_line(#[trigger] lines[i]) && line_key(
            trimmed(lines[i], TrimSet::Whitespace),
        ) != "lto"@,
    ensures
        !lto_scan(lines, header, true),
        !lto_scan(lines, header, false),
    decreases lines.len(),
{
    if lines.len() > 0 {
        assert(!header_line(lines[0]));
        assert(line_key(trimmed(lines[0], TrimSet::Whitespace)) != "lto"@);
        assert forall|i: int| 0 <= i < lines.drop_first().len() implies !header_line(
            #[trigger] lines.drop_first()[i],
        ) && line_key(trimmed(lines.drop_first()[i], TrimSet::Whitespace)) != "lto"@ by {
            assert(lines.drop_first()[i] == lines[i + 1]);
        }
        lemma_scan_table_without_lto(lines.drop_first(), header);
    }
}

proof fn lemma_inside_reaches_lto(lines: Seq<Seq<char>>, lto_line: Seq<char>, rest: Seq<Seq<char>>, header: Seq<char>)
    requires
        forall|i: int| 0 <= i < lines.len() ==> !header_line(#[trigger] lines[i]),
        !header_line(lto_line),
        line_key(trimmed(lto_line, TrimSet::Whitespace)) == "lto"@,
    ensures
        lto_scan(lines + (seq![lto_line] + rest), header, true),
    decreases lines.len(),
{
    let back = seq![lto_line] + rest;
    if lines.len() == 0 {
        assert(lines + back =~= back);
        assert(back[0] == lto_line);
    } else {
        assert(!header_line(lines[0]));
        assert((lines + back)[0] == lines[0]);
        assert((lines + back).drop_first() =~= lines.drop_first() + back);
        assert forall|i: int| 0 <= i < lines.drop_first().len() implies !header_line(
            #[trigger] lines.drop_first()[i],
        ) by {
            assert(lines.drop_first()[i] == lines[i + 1]);
        }
        lemma_inside_reaches_lto(lines.drop_first(), lto_line, rest, header);
    }
}

/// An `lto` key under the profile's own header, with no other header between them, sets
/// `lto` for the profile, whatever the manifest holds before or after.
pub proof fn lemma_own_table_lto_counts(
    front: Seq<Seq<char>>,
    own: Seq<char>,
    own_lines: Seq<Seq<char>>,
    lto_line: Seq<char>,
    rest: Seq<Seq<char>>,
    header: Seq<char>,
    inside: bool,
)
    requires
        trimmed(own, TrimSet::Whitespace) == header,
        is_header(header),
        forall|i: int| 0 <= i < own_lines.len() ==> !header_line(#[trigger] own_lines[i]),
        !header_line(lto_line),
        line_key(trimmed(lto_line, TrimSet::Whitespace)) == "lto"@,
    ensures
        lto_scan(front + (seq![own] + (own_lines + (seq![lto_line] + rest))), header, inside),
{
    let back = seq![own] + (own_lines + (seq![lto_line] + rest));
    lemma_inside_reaches_lto(own_lines, lto_line, rest, header);
    assert forall|x: bool| #[trigger] lto_scan(back, header, x) by {
        assert(back[0] == own);
        assert(back.drop_first() =~= own_lines + (seq![lto_line] + rest));
    }
    lemma_lto_scan_reaches(front, back, header, inside);
}

/// Reports whether `[profile.<name>]` in a manifest assigns `lto`.
pub fn profile_sets_lto(manifest: &str, profile: &str) -> (r: bool)
    ensures
        r == sets_lto(manifest@, profile@),
{
    let header = concat3("[profile.", profile, "]");
    let pieces = split_at_char(manifest, '\n');
    proof {
        crate::navigation::lemma_split_on_nonempty(manifest@, '\n');
    }
    let mut count = pieces.len();
    if pieces[count - 1].as_str().unicode_len() == 0 {
        count = count - 1;
    }
    let ghost lines = text_lines(manifest@);
    proof {
        assert(lines =~= crate::manifest::strings_view(pieces@).take(count as int));
        assert(lines.skip(0) =~= lines);
    }
    let mut inside = false;
    let mut i: usize = 0;
    while i < count
        invariant
            count <= pieces@.len(),
            lines == text_lines(manifest@),
            lines == crate::manifest::strings_view(pieces@).take(count as int),
            i <= count,
            header@ == profile_header(profile@),
            sets_lto(manifest@, profile@) == lto_scan(lines.skip(i as int), header@, inside),
        decreases count - i,
    {
        let ghost rest = lines.skip(i as int);
        proof {
            assert(rest[0] == pieces@[i as int]@);
            assert(rest.drop_first() =~= lines.skip(i + 1));
        }
        let line = trim_set(pieces[i].as_str(), &TrimSet::Whitespace);
        let len = line.as_str().unicode_len();
        if len > 0 && line.as_str().get_char(0) == '[' && line.as_str().get_char(len - 1) == ']' {
            inside = str_eq(line.as_str(), header.as_str());
        } else {
            let key_end = match crate::templates::find_char_index(line.as_str(), '=') {
                Some(eq) => eq,
                None => len,
            };
            let key = trim_set(
                crate::text::substring(line.as_str(), 0, key_end).as_str(),
                &TrimSet::Whitespace,
            );
            proof {
                assert(line@.subrange(0, len as int) =~= line@);
            }
            if inside && str_eq(key.as_str(), "lto") {
                return true;
            }
        }
        i = i + 1;
    }
    false
}

/// The profiles among `dev` and `release` whose table does not set `lto`; none when the
/// manifest could not be read.
pub open spec fn missing_lto(manifest: Option<Seq<char>>) -> Seq<Seq<char>> {
    match manifest {
        None => Seq::empty(),
        Some(m) => {
            let dev = if sets_lto(m, "dev"@) { Seq::empty() } else { seq!["dev"@] };
            if sets_lto(m, "release"@) { dev } else { dev.push("release"@) }
        },
    }
}

/// Returns the build profiles of the showcase app's manifest (its text, when it could be
/// read) that do not set `lto`.
pub fn profiles_missing_lto(manifest: Option<&str>) -> (r: Vec<&'static str>)
    ensures
        r@.map_values(|p: &'static str| p@) == missing_lto(
            match manifest {
                Some(m) => Some(m@),
                None => None,
            },
        ),
{
    let mut out: Vec<&'static str> = Vec::new();
    match manifest {
        None => {
            assert(out@.map_values(|p: &'static str| p@) =~= Seq::<Seq<char>>::empty());
        },
        Some(m) => {
            if !profile_sets_lto(m, "dev") {
                out.push("dev");
            }
            if !profile_sets_lto(m, "release") {
                out.push("release");
            }
            proof {
                let dev: Seq<Seq<char>> = if sets_lto(m@, "dev"@) {
                    Seq::empty()
                } else {
                    seq!["dev"@]
                };
                assert(out@.map_values(|p: &'static str| p@) =~= if sets_lto(m@, "release"@) {
                    dev
                } else {
                    dev.push("release"@)
                });
            }
        },
    }
    out
}

} // verus!
