//! Process stdio messages.
//!
//! `StdOut` / `StdErr` are process-level concerns; bridging them to a
//! terminal display lives outside this crate.

use bevy::ecs::entity::Entity;
use vstd::prelude::*;

verus! {

broadcast use vstd::string::to_string_from_display_ensures_for_str;

/// Flows from a job or shell into a terminal's ANSI parser. Parameterised by
/// output channel (`1` = stdout, `2` = stderr, matching POSIX fd numbers).
///
/// Use the [`StdOut`] and [`StdErr`] aliases at call sites. The parameter
/// keeps the two channels distinct message types served by one impl.
#[derive(Debug)]
pub struct ProgOutputChannel<const CHANNEL: u8> {
    /// Target terminal entity.
    pub term: Entity,
    /// Spans to write into the buffer. ANSI compatible.
    pub writes: Vec<String>,
}

/// Stdout writes. (POSIX fd 1).
pub type StdOut = ProgOutputChannel<1>;

/// Stderr writes. (POSIX fd 2).
pub type StdErr = ProgOutputChannel<2>;

impl<const CHANNEL: u8> ProgOutputChannel<CHANNEL> {
    /// Construct with arbitrary write spans.
    pub fn new(term: Entity, writes: Vec<String>) -> (msg: Self)
        ensures
            msg.term == term,
            msg.writes == writes,
    {
        ProgOutputChannel { term, writes }
    }

    /// Writes text directly to the buffer. Supports ANSI.
    pub fn write<V: core::fmt::Display + ?Sized>(term: Entity, value: &V) -> (msg: Self)
        ensures
            msg.term == term,
            msg.writes@.len() == 1,
            vstd::string::to_string_from_display_ensures::<V>(value, msg.writes@[0]),
    {
        let line = value.to_string();
        let mut writes = Vec::new();
        writes.push(line);
        ProgOutputChannel { term, writes }
    }
}

} // verus!
