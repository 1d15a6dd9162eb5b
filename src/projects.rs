//! Choosing the next task of a project, and the project list.
use vstd::prelude::*;
use crate::config::{lemma_lookup_at, lemma_sorted_unique, lookup, Config};
use crate::date::LocalClock;
use crate::error::Error;
use crate::items::{
    filter_not_in_future, has_eligible, is_eligible, is_top, item_text, lemma_top_unique,
    needs_timezone, needs_zone, select, top_index, Item,
};
use crate::text::str_lt;

verus! {

/// The remote number of the project registered as `project_name`: the
/// first step of choosing a project's next task. A name not in the registry
/// (names are compared exactly, case included) fails with `UnknownProject`
/// naming it; the state is only read, so a failure leaves it as it was and
/// nothing is asked of the remote service.
pub fn project_id(config: &Config, project_name: &str) -> (r: Result<u32, Error>)
    requires
        config.wf(),
    ensures
        match lookup(config.projects@, project_name@) {
            Some(id) => r == Ok::<u32, Error>(id),
            None => r matches Err(Error::UnknownProject(n)) && n@ == project_name@,
        },
{
    let name = project_name.to_owned();
    let mut i: usize = 0;
    while i < config.projects.len()
        invariant
            config.wf(),
            name@ == project_name@,
            i <= config.projects@.len(),
            forall|k: int| 0 <= k < i ==> (#[trigger] config.projects@[k]).0@ != name@,
        decreases config.projects@.len() - i,
    {
        if config.projects[i].0 == name {
            proof {
                lemma_sorted_unique(config.projects@);
                lemma_lookup_at(config.projects@, i as int);
            }
            return Ok(config.projects[i].1);
        }
        i = i + 1;
    }
    Err(Error::UnknownProject(name))
}

/// The registered project names, in byte order.
pub fn projects(config: &Config) -> (r: Vec<String>)
    requires
        config.wf(),
    ensures
        r@.len() == config.projects@.len(),
        forall|i: int| 0 <= i < r@.len() ==> (#[trigger] r@[i])@ == config.projects@[i].0@,
        forall|i: int, j: int| 0 <= i < j < r@.len() ==> str_lt(#[trigger] r@[i]@, #[trigger] r@[j]@),
{
    let mut names: Vec<String> = Vec::new();
    let mut i: usize = 0;
    while i < config.projects.len()
        invariant
            i <= config.projects@.len(),
            names@.len() == i,
            forall|k: int| 0 <= k < i ==> (#[trigger] names@[k])@ == config.projects@[k].0@,
        decreases config.projects@.len() - i,
    {
        names.push(config.projects[i].0.clone());
        i = i + 1;
    }
    proof {
        assert forall|a: int, b: int| 0 <= a < b < names@.len() implies str_lt(
            #[trigger] names@[a]@,
            #[trigger] names@[b]@,
        ) by {
            assert(str_lt(config.projects@[a].0@, config.projects@[b].0@));
        }
    }
    names
}

/// The project to show first: the first name, or a notice when there is none.
pub fn get_first_project(projects: Vec<String>) -> (r: String)
    ensures
        projects@.len() > 0 ==> r == projects@[0],
        projects@.len() == 0 ==> r@ == "No projects found"@,
{
    let mut projects = projects;
    if projects.len() > 0 {
        projects.swap_remove(0)
    } else {
        String::from_str("No projects found")
    }
}

/// Takes `project` out of the list of shown projects; returns the rest and
/// the project to show now.
pub fn hide_project(projects: Vec<String>, project: &str) -> (r: (Vec<String>, String))
    ensures
        r.0@ == projects@.filter(|s: String| s@ != project@),
        r.0@.len() > 0 ==> r.1 == r.0@[0],
        r.0@.len() == 0 ==> r.1@ == "No projects found"@,
{
    let ghost orig = projects@;
    let ghost f = |s: String| s@ != project@;
    let target = project.to_owned();
    let mut rest = projects;
    let mut out: Vec<String> = Vec::new();
    assert(orig.take(0).filter(f) =~= Seq::<String>::empty());
    assert(orig.skip(0) =~= orig);
    while rest.len() > 0
        invariant
            f == (|s: String| s@ != project@),
            target@ == project@,
            rest@.len() <= orig.len(),
            rest@ == orig.skip(orig.len() - rest@.len()),
            out@ == orig.take(orig.len() - rest@.len()).filter(f),
        decreases rest@.len(),
    {
        let ghost k = orig.len() - rest@.len();
        let name = rest.remove(0);
        assert(name == orig[k]);
        assert(orig.take(k + 1).drop_last() =~= orig.take(k));
        assert(rest@ =~= orig.skip(k + 1));
        assert(orig.take(k + 1).last() == orig[k]);
        let ghost before = out@;
        proof {
            reveal(Seq::filter);
        }
        if !(name == target) {
            out.push(name);
        }
        assert(orig.take(k + 1).filter(f) == (if f(orig[k]) {
            before.push(orig[k])
        } else {
            before
        }));
    }
    assert(orig.take(orig.len() as int) =~= orig);
    let first = if out.len() > 0 {
        out[0].clone()
    } else {
        String::from_str("No projects found")
    };
    (out, first)
}

/// The state after showing the next task: the pointer moves to the task
/// shown; with nothing to show the state stays as it was.
pub open spec fn next_config(config: Config, items: Seq<Item>, clock: LocalClock) -> Config {
    match top_index(items, clock) {
        Some(i) => Config { next_id: Some(items[i].id), ..config },
        None => config,
    }
}

/// The text shown for the next task, if there is one.
pub open spec fn next_text(items: Seq<Item>, clock: LocalClock) -> Option<Seq<char>> {
    match top_index(items, clock) {
        Some(i) => Some(item_text(items[i])),
        None => None,
    }
}

/// Chooses the next task among a project's `items` and points the state at
/// it. Returns the new state, to be saved, and the text to show; with no
/// eligible task the state is returned unchanged with no text.
pub fn next_item(config: Config, items: Vec<Item>, clock: &LocalClock) -> (r: Result<
    (Config, Option<String>),
    Error,
>)
    requires
        clock.wf(),
    ensures
        needs_timezone(items@, config.timezone) ==> r == Err::<(Config, Option<String>), Error>(
            Error::MissingTimezone,
        ),
        !needs_timezone(items@, config.timezone) ==> (r matches Ok((c, t)) && c == next_config(
            config,
            items@,
            *clock,
        ) && match next_text(items@, *clock) {
            Some(s) => t matches Some(x) && x@ == s,
            None => t is None,
        }),
{
    if needs_zone(&items, &config.timezone) {
        return Err(Error::MissingTimezone);
    }
    let ghost s = items@;
    let mut items = items;
    match select(&items, clock) {
        Some(i) => {
            proof {
                lemma_top_unique(s, i as int, choose|k: int| is_top(s, k, *clock), *clock);
            }
            let item = items.remove(i);
            let text = item.fmt();
            Ok((config.set_next_id(item.id), Some(text)))
        },
        None => {
            proof {
                if exists|k: int| is_top(s, k, *clock) {
                    let k = choose|k: int| is_top(s, k, *clock);
                    assert(is_eligible(s[k], *clock));
                }
            }
            Ok((config, None))
        },
    }
}

/// Asking for the next task twice with the same tasks gives the same
/// state and the same text as asking once: the first call leaves the time
/// zone as it was, and pointing again at the same task changes nothing.
pub proof fn lemma_next_idempotent(config: Config, items: Seq<Item>, clock: LocalClock)
    ensures
        next_config(config, items, clock).timezone == config.timezone,
        next_config(next_config(config, items, clock), items, clock) == next_config(
            config,
            items,
            clock,
        ),
{
}

} // verus!
