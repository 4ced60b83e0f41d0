//! The integer and text parts of a workload definition.

use vstd::prelude::*;

verus! {

/// What the clients of a workload do.
#[derive(Debug, Clone, Copy, PartialEq, Eq, Structural)]
pub enum WorkloadKind {
    Pub,
    Sub,
    Conn,
}

impl Default for WorkloadKind {
    fn default() -> (r: Self)
        ensures
            r == WorkloadKind::Pub,
    {
        WorkloadKind::Pub
    }
}

/// How topics are assigned to a workload's clients.
#[derive(Debug, Clone, Copy, PartialEq, Eq, Structural)]
pub enum TopicGroupStrategy {
    RoundRobin,
    Hash,
    ClientId,
}

impl Default for TopicGroupStrategy {
    fn default() -> (r: Self)
        ensures
            r == TopicGroupStrategy::ClientId,
    {
        TopicGroupStrategy::ClientId
    }
}

/// The topics a workload publishes to or subscribes on.
#[derive(Debug, Clone)]
pub struct TopicDistribution {
    pub topic_template: String,
    pub partitions: u32,
    pub group_strategy: TopicGroupStrategy,
}

impl Default for TopicDistribution {
    fn default() -> (r: Self)
        ensures
            r.topic_template@ == "velamq/bench/{i}"@,
            r.partitions == 1,
            r.group_strategy == TopicGroupStrategy::ClientId,
    {
        TopicDistribution {
            topic_template: crate::text::string_of("velamq/bench/{i}"),
            partitions: 1,
            group_strategy: TopicGroupStrategy::ClientId,
        }
    }
}

} // verus!
