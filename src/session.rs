//! The decisions of `complete_current`: whether a close command goes out,
//! and what the state is after the remote service answered it.
use vstd::prelude::*;
use crate::config::Config;
use crate::error::Error;

verus! {

/// The first step of completing: close the task pointed at, or, with no
/// pointer, go straight to choosing the next task.
#[derive(Debug)]
pub enum Completion {
    Close(String),
    Select,
}

pub open spec fn completion_step(config: Config) -> Completion {
    match config.next_id {
        Some(id) => Completion::Close(id),
        None => Completion::Select,
    }
}

/// The close goes to whatever task the pointer names, whichever project is
/// open now.
pub fn begin_complete(config: &Config) -> (r: Completion)
    ensures
        r == completion_step(*config),
{
    match &config.next_id {
        Some(id) => Completion::Close(id.clone()),
        None => Completion::Select,
    }
}

/// The state once the close command was answered: the pointer is cleared
/// only after a confirmed close.
pub open spec fn closed_state(config: Config, closed: bool) -> Config {
    if closed {
        Config { next_id: None, ..config }
    } else {
        config
    }
}

/// Takes the outcome of the close command; returns the state to keep and
/// the outcome to report.
pub fn after_close(config: Config, outcome: Result<(), Error>) -> (r: (Config, Result<(), Error>))
    ensures
        r.0 == closed_state(config, outcome is Ok),
        r.1 == outcome,
{
    if outcome.is_ok() {
        (config.clear_next_id(), outcome)
    } else {
        (config, outcome)
    }
}

/// With no pointer, completing sends nothing and goes straight to choosing
/// the next task, as asking for the next task does.
pub proof fn lemma_complete_without_pointer(config: Config)
    requires
        config.next_id is None,
    ensures
        completion_step(config) == Completion::Select,
{
}

/// A confirmed close clears the pointer; a failed one keeps the state as it
/// was, so that completing again closes the same task.
pub proof fn lemma_close_keeps_pointer_on_failure(config: Config, id: String)
    requires
        config.next_id == Some(id),
    ensures
        completion_step(config) == Completion::Close(id),
        closed_state(config, true).next_id is None,
        closed_state(config, false) == config,
        completion_step(closed_state(config, false)) == Completion::Close(id),
{
}

} // verus!
