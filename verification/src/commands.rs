//! The decisions of the interactive `init` command and the checks the other commands
//! share.
use vstd::prelude::*;

use crate::config::{ShowcaseBuildConfig, ShowcaseConfig, ShowcaseDevConfig, ShowcaseProjectConfig};
use crate::manifest::{StoryDefinition, StoryDefinitionView};
use crate::meta::{all_digits, digits_value};
use crate::scaffold::definitions_view;
use crate::sorting::{is_index_permutation, stable_sort_indices, stably_sorted};
use crate::text::{trim_set, trimmed, TrimSet};

verus! {

/// The entry crate `init` proposes: `.` inside a crate, `examples/basic` when that example
/// exists, `web` otherwise.
pub open spec fn proposed_entry_crate(has_src_dir: bool, has_cargo_toml: bool, has_example: bool) -> Seq<char> {
    if has_src_dir && has_cargo_toml {
        "."@
    } else if has_example {
        "examples/basic"@
    } else {
        "web"@
    }
}

/// Chooses the default entry crate from what exists in the working directory: a `src`
/// directory, a `Cargo.toml`, and an `examples/basic/src` directory.
pub fn default_entry_crate(has_src_dir: bool, has_cargo_toml: bool, has_example: bool) -> (r: String)
    ensures
        r@ == proposed_entry_crate(has_src_dir, has_cargo_toml, has_example),
{
    if has_src_dir && has_cargo_toml {
        return ".".to_owned();
    }
    if has_example {
        return "examples/basic".to_owned();
    }
    "web".to_owned()
}

/// The answer to a prompt: the trimmed line, or the default when that is empty.
pub open spec fn answer_of(line: Seq<char>, default: Seq<char>) -> Seq<char> {
    if trimmed(line, TrimSet::Whitespace).len() == 0 {
        default
    } else {
        trimmed(line, TrimSet::Whitespace)
    }
}

/// Resolves a line typed at a prompt against the prompt's default.
pub fn prompt_answer(line: &str, default: &str) -> (r: String)
    ensures
        r@ == answer_of(line@, default@),
{
    let trimmed_line = trim_set(line, &TrimSet::Whitespace);
    if trimmed_line.as_str().unicode_len() == 0 {
        default.to_owned()
    } else {
        trimmed_line
    }
}

/// `str::parse::<u16>`: an optional `+`, then at least one decimal digit, the value in range.
pub open spec fn parsed_u16(s: Seq<char>) -> Option<u16> {
    let body = if s.len() > 0 && s[0] == '+' {
        s.drop_first()
    } else {
        s
    };
    if body.len() == 0 || !all_digits(body) || digits_value(body) > 65535 {
        None
    } else {
        Some(digits_value(body) as u16)
    }
}

/// The message for a port answer that is not a valid port number.
pub const INVALID_PORT: &'static str = "invalid port provided";

/// Parses the port typed at the `Dev port` prompt.
pub fn parse_port(answer: &str) -> (r: Result<u16, String>)
    ensures
        match parsed_u16(answer@) {
            Some(p) => r == Ok::<u16, String>(p),
            None => r is Err && r->Err_0@ == INVALID_PORT@,
        },
{
    let n = answer.unicode_len();
    let start: usize = if n > 0 && answer.get_char(0) == '+' {
        1
    } else {
        0
    };
    let ghost body = if n > 0 && answer@[0] == '+' {
        answer@.drop_first()
    } else {
        answer@
    };
    assert(body =~= answer@.skip(start as int));
    if start == n {
        return Err(INVALID_PORT.to_owned());
    }
    let mut value: u32 = 0;
    let mut i: usize = start;
    while i < n
        invariant
            n == answer@.len(),
            start <= i <= n,
            start < n,
            body == answer@.skip(start as int),
            body == (if n > 0 && answer@[0] == '+' {
                answer@.drop_first()
            } else {
                answer@
            }),
            forall|k: int| 0 <= k < i - start ==> '0' <= #[trigger] body[k] && body[k] <= '9',
            value == digits_value(body.take(i - start)),
            value <= 65535,
        decreases n - i,
    {
        let c = answer.get_char(i);
        proof {
            assert(body[i - start] == c);
            assert(body.take(i - start + 1).drop_last() =~= body.take(i - start));
            assert(body.take(i - start + 1).last() == c);
        }
        if c < '0' || c > '9' {
            assert(!all_digits(body));
            return Err(INVALID_PORT.to_owned());
        }
        let next = value * 10 + (c as u32 - '0' as u32);
        if next > 65535 {
            proof {
                if all_digits(body) {
                    crate::meta::lemma_digits_value_bound(body, i - start + 1);
                    assert(digits_value(body.take(i - start + 1)) == next);
                }
            }
            return Err(INVALID_PORT.to_owned());
        }
        value = next;
        i = i + 1;
    }
    proof {
        assert(body.take(n - start) =~= body);
    }
    Ok(value as u16)
}

/// The defaults `init` offers when no configuration exists: the working directory's name
/// (or `my-ui`), the proposed entry crate, and the stock values for everything else.
pub fn init_defaults(cwd_name: Option<&str>, entry_crate: &str) -> (r: ShowcaseConfig)
    ensures
        r.project.name@ == match cwd_name {
            Some(n) => n@,
            None => "my-ui"@,
        },
        r.project.entry_crate@ == entry_crate@,
        r.project.showcase_crate@ == "showcase"@,
        r.dev.port == 6111,
        r.dev.host@ == "127.0.0.1"@,
        r.build.out_dir@ == "target/showcase"@,
        r.build.base_path@ == "/"@,
{
    let name = match cwd_name {
        Some(n) => n.to_owned(),
        None => "my-ui".to_owned(),
    };
    ShowcaseConfig {
        project: ShowcaseProjectConfig {
            name,
            entry_crate: entry_crate.to_owned(),
            showcase_crate: "showcase".to_owned(),
        },
        dev: ShowcaseDevConfig { port: 6111, host: "127.0.0.1".to_owned() },
        build: ShowcaseBuildConfig {
            out_dir: "target/showcase".to_owned(),
            base_path: "/".to_owned(),
        },
    }
}

/// The configuration `init` writes from the answers to its prompts; the base path is kept
/// from the defaults, and a port answer that is not a port is an error.
pub fn config_from_answers(
    project_name: String,
    entry_crate: String,
    showcase_crate: String,
    host: String,
    port_answer: &str,
    out_dir: String,
    defaults: &ShowcaseConfig,
) -> (r: Result<ShowcaseConfig, String>)
    ensures
        match parsed_u16(port_answer@) {
            Some(p) => r is Ok && r->Ok_0.dev.port == p && r->Ok_0.project.name@ == project_name@
                && r->Ok_0.project.entry_crate@ == entry_crate@
                && r->Ok_0.project.showcase_crate@ == showcase_crate@
                && r->Ok_0.dev.host@ == host@ && r->Ok_0.build.out_dir@ == out_dir@
                && r->Ok_0.build.base_path@ == defaults.build.base_path@,
            None => r is Err && r->Err_0@ == INVALID_PORT@,
        },
{
    let port = match parse_port(port_answer) {
        Ok(p) => p,
        Err(e) => {
            return Err(e);
        },
    };
    Ok(ShowcaseConfig {
        project: ShowcaseProjectConfig { name: project_name, entry_crate, showcase_crate },
        dev: ShowcaseDevConfig { port, host },
        build: ShowcaseBuildConfig { out_dir, base_path: defaults.build.base_path.clone() },
    })
}

/// The stories sorted by title, stories of equal titles in discovery order.
pub fn sort_stories_by_title(stories: &[StoryDefinition]) -> (r: Vec<StoryDefinition>)
    ensures
        exists|order: Seq<usize>|
            #![trigger stably_sorted(story_titles(stories@), order)]
            is_index_permutation(order, stories@.len()) && stably_sorted(story_titles(stories@), order)
                && definitions_view(r@) == order.map_values(|i: usize| stories@[i as int]@),
{
    let mut titles: Vec<String> = Vec::new();
    let mut i: usize = 0;
    while i < stories.len()
        invariant
            i <= stories@.len(),
            titles@ == story_titles(stories@).take(i as int),
        decreases stories@.len() - i,
    {
        titles.push(stories[i].title.clone());
        proof {
            assert(story_titles(stories@).take(i + 1) =~= story_titles(stories@).take(i as int).push(
                titles@[i as int],
            ));
        }
        i = i + 1;
    }
    proof {
        assert(story_titles(stories@).take(stories@.len() as int) =~= story_titles(stories@));
    }
    let order = stable_sort_indices(titles.as_slice());
    let mut out: Vec<StoryDefinition> = Vec::new();
    let mut j: usize = 0;
    while j < order.len()
        invariant
            is_index_permutation(order@, stories@.len()),
            j <= order@.len(),
            definitions_view(out@) == order@.take(j as int).map_values(
                |i: usize| stories@[i as int]@,
            ),
        decreases order@.len() - j,
    {
        let d = stories[order[j]].copy();
        proof {
            assert(definitions_view(out@.push(d)) =~= definitions_view(out@).push(d@));
            assert(order@.take(j + 1).map_values(|i: usize| stories@[i as int]@) =~= order@.take(
                j as int,
            ).map_values(|i: usize| stories@[i as int]@).push(stories@[order@[j as int] as int]@));
        }
        out.push(d);
        j = j + 1;
    }
    proof {
        assert(order@.take(order@.len() as int) =~= order@);
    }
    out
}

/// The titles of a list of stories, as the keys they are sorted by.
pub open spec fn story_titles(stories: Seq<StoryDefinition>) -> Seq<String> {
    stories.map_values(|d: StoryDefinition| d.title)
}

} // verus!
