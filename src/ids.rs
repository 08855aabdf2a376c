use vstd::prelude::*;

verus! {

/// The integer key a call or leg identifier is reduced to.
pub uninterp spec fn key_of(s: Seq<char>) -> u64;

/// Relies on `BuildHasher::hash_one` with a `DefaultHasher` built by
/// `BuildHasherDefault`, whose keys are fixed: the value depends on the text
/// alone.
#[verifier::external_body]
fn hash_str(s: &str) -> (r: u64)
    ensures
        r == key_of(s@),
{
    std::hash::BuildHasher::hash_one(
        &std::hash::BuildHasherDefault::<std::collections::hash_map::DefaultHasher>::default(),
        s,
    )
}

/// Reduces a call or leg identifier to its integer key.
pub fn channel_build(channel: &str) -> (r: u64)
    ensures
        r == key_of(channel@),
{
    hash_str(channel)
}

/// The kinds of task a worker runs.
#[derive(Debug, Clone, Copy, PartialEq, Eq, Structural)]
pub enum TaskType {
    Rtp,
}

impl TaskType {
    /// The task type with the given number; only `0` names one.
    pub fn from_index(value: usize) -> (r: TaskType)
        requires
            value == 0,
        ensures
            r == TaskType::Rtp,
    {
        TaskType::Rtp
    }
}

/// A call-scoped publish/subscribe channel.
#[derive(Debug, Clone, Copy, PartialEq, Eq, Hash, Structural)]
pub enum ChannelId {
    Call(u64),
}

/// A task of the worker, by its slot in the task group.
#[derive(Debug, Clone, Copy, PartialEq, Eq, Hash, Structural)]
pub enum TaskId {
    Rtp(usize),
}

impl TaskId {
    pub open spec fn slot(self) -> usize {
        match self {
            TaskId::Rtp(i) => i,
        }
    }

    pub fn index(&self) -> (r: usize)
        ensures
            r == self.slot(),
    {
        match self {
            TaskId::Rtp(i) => *i,
        }
    }
}

/// The ports `min..max` (upper bound excluded) that a worker hands out.
#[derive(Debug, Clone, Copy)]
pub struct PortRange {
    pub min: usize,
    pub max: usize,
}

/// A worker's configuration.
#[derive(Debug, Clone)]
pub struct Config {
    pub port_range: PortRange,
    /// The address written into generated answers.
    pub public_ip: String,
}

} // verus!
