//! Remote load agents, their registration and the distributed-run requests
//! that schedule work on them.

use vstd::prelude::*;
use crate::model::time::UtcTimestamp;
use crate::text::{
    ascii_alnum, ascii_lower, ascii_lower_all, ascii_lower_chars, blank, byte_len, chars_of,
    is_ascii_alnum, is_blank, is_unicode_whitespace, lemma_seq_less_asymmetric,
    lemma_seq_less_irreflexive, lemma_seq_less_total, lemma_seq_less_transitive,
    lemma_trim_fixed, lemma_trim_idempotent, seq_less, str_eq, string_from_chars, string_less,
    string_of, trim, trim_chars, trim_end, trim_start, utf8_len,
};

verus! {

/// The scheduling state of an agent node.
#[derive(Debug, Clone, PartialEq, Eq, Structural)]
pub enum AgentStatus {
    Online,
    Busy,
    Draining,
    Offline,
    Disabled,
}

/// What an agent reports about its host.
#[derive(Debug, Clone)]
pub struct AgentCapabilities {
    pub os: String,
    pub arch: String,
    pub version: String,
    pub cpu_cores: u32,
    pub memory_bytes: u64,
    pub max_clients: u64,
    pub features: Vec<String>,
}

impl Default for AgentCapabilities {
    fn default() -> (r: Self)
        ensures
            r.os@.len() == 0 && r.arch@.len() == 0 && r.version@.len() == 0,
            r.cpu_cores == 0 && r.memory_bytes == 0 && r.max_clients == 0,
            r.features@.len() == 0,
    {
        AgentCapabilities {
            os: String::new(),
            arch: String::new(),
            version: String::new(),
            cpu_cores: 0,
            memory_bytes: 0,
            max_clients: 0,
            features: Vec::new(),
        }
    }
}

/// A registered agent as the control plane sees it.
#[derive(Debug, Clone)]
pub struct AgentNode {
    pub id: String,
    pub instance_id: String,
    pub name: String,
    pub status: AgentStatus,
    pub enabled: bool,
    pub draining: bool,
    pub labels: Vec<String>,
    pub capabilities: AgentCapabilities,
    pub current_task_id: Option<String>,
    pub last_seen_at: UtcTimestamp,
    pub created_at: UtcTimestamp,
    pub updated_at: UtcTimestamp,
}

/// The first call an agent makes to join the cluster.
#[derive(Debug, Clone)]
pub struct AgentRegistration {
    pub instance_id: String,
    pub name: String,
    pub labels: Vec<String>,
    pub capabilities: AgentCapabilities,
}

/// A periodic liveness report of an agent.
#[derive(Debug, Clone)]
pub struct AgentHeartbeat {
    pub capabilities: Option<AgentCapabilities>,
    pub current_task_id: Option<String>,
    pub lease_id: Option<String>,
}

/// An operator's change to a node; absent fields stay as they are.
#[derive(Debug, Clone)]
pub struct AgentNodeUpdate {
    pub name: Option<String>,
    pub labels: Option<Vec<String>>,
    pub enabled: Option<bool>,
    pub draining: Option<bool>,
}

/// The life cycle of a task leased to an agent.
#[derive(Debug, Clone, PartialEq, Eq, Structural)]
pub enum AgentTaskStatus {
    Queued,
    Leased,
    Running,
    Completed,
    Failed,
    Stopped,
    Expired,
}

impl AgentTaskStatus {
    /// The name under which the status is stored.
    pub open spec fn storage_name(self) -> Seq<char> {
        match self {
            AgentTaskStatus::Queued => "queued"@,
            AgentTaskStatus::Leased => "leased"@,
            AgentTaskStatus::Running => "running"@,
            AgentTaskStatus::Completed => "completed"@,
            AgentTaskStatus::Failed => "failed"@,
            AgentTaskStatus::Stopped => "stopped"@,
            AgentTaskStatus::Expired => "expired"@,
        }
    }

    /// The status a stored name denotes; unknown names read as queued.
    pub open spec fn parse_storage(value: Seq<char>) -> AgentTaskStatus {
        if value == "leased"@ {
            AgentTaskStatus::Leased
        } else if value == "running"@ {
            AgentTaskStatus::Running
        } else if value == "completed"@ {
            AgentTaskStatus::Completed
        } else if value == "failed"@ {
            AgentTaskStatus::Failed
        } else if value == "stopped"@ {
            AgentTaskStatus::Stopped
        } else if value == "expired"@ {
            AgentTaskStatus::Expired
        } else {
            AgentTaskStatus::Queued
        }
    }

    pub fn as_str(&self) -> (r: &'static str)
        ensures
            r@ == self.storage_name(),
    {
        match self {
            AgentTaskStatus::Queued => "queued",
            AgentTaskStatus::Leased => "leased",
            AgentTaskStatus::Running => "running",
            AgentTaskStatus::Completed => "completed",
            AgentTaskStatus::Failed => "failed",
            AgentTaskStatus::Stopped => "stopped",
            AgentTaskStatus::Expired => "expired",
        }
    }

    pub fn from_storage(value: &str) -> (r: Self)
        ensures
            r == AgentTaskStatus::parse_storage(value@),
    {
        if str_eq(value, "leased") {
            AgentTaskStatus::Leased
        } else if str_eq(value, "running") {
            AgentTaskStatus::Running
        } else if str_eq(value, "completed") {
            AgentTaskStatus::Completed
        } else if str_eq(value, "failed") {
            AgentTaskStatus::Failed
        } else if str_eq(value, "stopped") {
            AgentTaskStatus::Stopped
        } else if str_eq(value, "expired") {
            AgentTaskStatus::Expired
        } else {
            AgentTaskStatus::Queued
        }
    }
}

/// Reading back the stored name of a task status gives the status.
pub proof fn lemma_agent_task_status_storage_round_trip(s: AgentTaskStatus)
    ensures
        AgentTaskStatus::parse_storage(s.storage_name()) == s,
{
    reveal_strlit("queued");
    reveal_strlit("leased");
    reveal_strlit("running");
    reveal_strlit("completed");
    reveal_strlit("failed");
    reveal_strlit("stopped");
    reveal_strlit("expired");
    assert("queued"@[0] != "leased"@[0]);
    assert("queued"@[0] != "running"@[0]);
    assert("queued"@[0] != "completed"@[0]);
    assert("queued"@[0] != "failed"@[0]);
    assert("queued"@[0] != "stopped"@[0]);
    assert("queued"@[0] != "expired"@[0]);
    assert("leased"@[0] != "running"@[0]);
    assert("leased"@[0] != "completed"@[0]);
    assert("leased"@[0] != "failed"@[0]);
    assert("leased"@[0] != "stopped"@[0]);
    assert("leased"@[0] != "expired"@[0]);
    assert("running"@[0] != "completed"@[0]);
    assert("running"@[0] != "failed"@[0]);
    assert("running"@[0] != "stopped"@[0]);
    assert("running"@[0] != "expired"@[0]);
    assert("completed"@[0] != "failed"@[0]);
    assert("completed"@[0] != "stopped"@[0]);
    assert("completed"@[0] != "expired"@[0]);
    assert("failed"@[0] != "stopped"@[0]);
    assert("failed"@[0] != "expired"@[0]);
    assert("stopped"@[0] != "expired"@[0]);
}

/// An agent's confirmation that it started a leased task.
#[derive(Debug, Clone)]
pub struct AgentTaskAck {
    pub lease_id: String,
}

/// An agent's report that a leased task ended.
#[derive(Debug, Clone)]
pub struct AgentTaskComplete {
    pub lease_id: String,
    pub status: AgentTaskStatus,
    pub error: Option<String>,
}

/// What the control plane tells an agent about a running task.
#[derive(Debug, Clone)]
pub struct AgentTaskControl {
    pub stop_requested: bool,
}

/// How a distributed run spreads its clients over the nodes.
#[derive(Debug, Clone, PartialEq, Eq, Structural)]
pub enum SchedulingStrategy {
    Selected,
    Even,
    CapacityWeighted,
}

impl SchedulingStrategy {
    /// The name under which the strategy is stored.
    pub open spec fn storage_name(self) -> Seq<char> {
        match self {
            SchedulingStrategy::Selected => "selected"@,
            SchedulingStrategy::Even => "even"@,
            SchedulingStrategy::CapacityWeighted => "capacity_weighted"@,
        }
    }

    /// The strategy a stored name denotes; unknown names read as even.
    pub open spec fn parse_storage(value: Seq<char>) -> SchedulingStrategy {
        if value == "selected"@ {
            SchedulingStrategy::Selected
        } else if value == "capacity_weighted"@ {
            SchedulingStrategy::CapacityWeighted
        } else {
            SchedulingStrategy::Even
        }
    }

    pub fn as_str(&self) -> (r: &'static str)
        ensures
            r@ == self.storage_name(),
    {
        match self {
            SchedulingStrategy::Selected => "selected",
            SchedulingStrategy::Even => "even",
            SchedulingStrategy::CapacityWeighted => "capacity_weighted",
        }
    }

    pub fn from_storage(value: &str) -> (r: Self)
        ensures
            r == SchedulingStrategy::parse_storage(value@),
    {
        if str_eq(value, "selected") {
            SchedulingStrategy::Selected
        } else if str_eq(value, "capacity_weighted") {
            SchedulingStrategy::CapacityWeighted
        } else {
            SchedulingStrategy::Even
        }
    }

    /// Whether this is the capacity-weighted strategy.
    pub fn is_capacity_weighted(&self) -> (r: bool)
        ensures
            r == (*self == SchedulingStrategy::CapacityWeighted),
    {
        match self {
            SchedulingStrategy::CapacityWeighted => true,
            _ => false,
        }
    }
}

/// Reading back the stored name of a strategy gives the strategy.
pub proof fn lemma_scheduling_strategy_storage_round_trip(s: SchedulingStrategy)
    ensures
        SchedulingStrategy::parse_storage(s.storage_name()) == s,
{
    reveal_strlit("selected");
    reveal_strlit("even");
    reveal_strlit("capacity_weighted");
    assert("selected"@[0] != "even"@[0]);
    assert("selected"@[0] != "capacity_weighted"@[0]);
    assert("even"@[0] != "capacity_weighted"@[0]);
}

/// The overall state of a distributed run.
#[derive(Debug, Clone, PartialEq, Eq, Structural)]
pub enum DistributedRunStatus {
    Pending,
    Running,
    Completed,
    Partial,
    Failed,
    Stopped,
}

impl DistributedRunStatus {
    /// The name under which the status is stored.
    pub open spec fn storage_name(self) -> Seq<char> {
        match self {
            DistributedRunStatus::Pending => "pending"@,
            DistributedRunStatus::Running => "running"@,
            DistributedRunStatus::Completed => "completed"@,
            DistributedRunStatus::Partial => "partial"@,
            DistributedRunStatus::Failed => "failed"@,
            DistributedRunStatus::Stopped => "stopped"@,
        }
    }

    /// The status a stored name denotes; unknown names read as pending.
    pub open spec fn parse_storage(value: Seq<char>) -> DistributedRunStatus {
        if value == "running"@ {
            DistributedRunStatus::Running
        } else if value == "completed"@ {
            DistributedRunStatus::Completed
        } else if value == "partial"@ {
            DistributedRunStatus::Partial
        } else if value == "failed"@ {
            DistributedRunStatus::Failed
        } else if value == "stopped"@ {
            DistributedRunStatus::Stopped
        } else {
            DistributedRunStatus::Pending
        }
    }

    pub fn as_str(&self) -> (r: &'static str)
        ensures
            r@ == self.storage_name(),
    {
        match self {
            DistributedRunStatus::Pending => "pending",
            DistributedRunStatus::Running => "running",
            DistributedRunStatus::Completed => "completed",
            DistributedRunStatus::Partial => "partial",
            DistributedRunStatus::Failed => "failed",
            DistributedRunStatus::Stopped => "stopped",
        }
    }

    pub fn from_storage(value: &str) -> (r: Self)
        ensures
            r == DistributedRunStatus::parse_storage(value@),
    {
        if str_eq(value, "running") {
            DistributedRunStatus::Running
        } else if str_eq(value, "completed") {
            DistributedRunStatus::Completed
        } else if str_eq(value, "partial") {
            DistributedRunStatus::Partial
        } else if str_eq(value, "failed") {
            DistributedRunStatus::Failed
        } else if str_eq(value, "stopped") {
            DistributedRunStatus::Stopped
        } else {
            DistributedRunStatus::Pending
        }
    }
}

/// Reading back the stored name of a run status gives the status.
pub proof fn lemma_distributed_run_status_storage_round_trip(s: DistributedRunStatus)
    ensures
        DistributedRunStatus::parse_storage(s.storage_name()) == s,
{
    reveal_strlit("pending");
    reveal_strlit("running");
    reveal_strlit("completed");
    reveal_strlit("partial");
    reveal_strlit("failed");
    reveal_strlit("stopped");
    assert("pending"@[1] != "running"@[1]);
    assert("pending"@[0] != "completed"@[0]);
    assert("pending"@[1] != "partial"@[1]);
    assert("pending"@[0] != "failed"@[0]);
    assert("pending"@[0] != "stopped"@[0]);
    assert("running"@[0] != "completed"@[0]);
    assert("running"@[0] != "partial"@[0]);
    assert("running"@[0] != "failed"@[0]);
    assert("running"@[0] != "stopped"@[0]);
    assert("completed"@[0] != "partial"@[0]);
    assert("completed"@[0] != "failed"@[0]);
    assert("completed"@[0] != "stopped"@[0]);
    assert("partial"@[0] != "failed"@[0]);
    assert("partial"@[0] != "stopped"@[0]);
    assert("failed"@[0] != "stopped"@[0]);
}

/// A request to run a scenario across agent nodes.
#[derive(Debug, Clone)]
pub struct DistributedRunCreate {
    pub scenario_id: String,
    pub node_ids: Vec<String>,
    pub required_labels: Vec<String>,
    pub strategy: SchedulingStrategy,
}

/// A character allowed in a node label.
pub open spec fn is_label_char(c: char) -> bool {
    is_ascii_alnum(c) || c == '-' || c == '_' || c == '.' || c == ':' || c == '='
}

/// A label of 1 to 64 bytes made of ASCII letters, digits and `-_.:=`.
pub open spec fn label_is_valid(l: Seq<char>) -> bool {
    l.len() > 0 && utf8_len(l) <= 64 && forall|i: int| 0 <= i < l.len() ==> is_label_char(
        #[trigger] l[i],
    )
}

/// The first rule of a label list that `labels` breaks, with its message.
pub open spec fn labels_error(labels: Seq<String>) -> Option<Seq<char>> {
    if labels.len() > 32 {
        Some("agent labels must contain <= 32 entries"@)
    } else if exists|i: int| 0 <= i < labels.len() && !label_is_valid(#[trigger] labels[i]@) {
        Some("agent labels contain an invalid value"@)
    } else {
        None
    }
}

fn label_valid(l: &str) -> (r: bool)
    ensures
        r == label_is_valid(l@),
{
    let cs = chars_of(l);
    if cs.len() == 0 || byte_len(l) > 64 {
        return false;
    }
    let mut i: usize = 0;
    while i < cs.len()
        invariant
            cs@ == l@,
            i <= cs@.len(),
            forall|j: int| 0 <= j < i ==> is_label_char(#[trigger] cs@[j]),
        decreases cs@.len() - i,
    {
        let c = cs[i];
        if !(ascii_alnum(c) || c == '-' || c == '_' || c == '.' || c == ':' || c == '=') {
            return false;
        }
        i = i + 1;
    }
    true
}

/// Checks the labels of a node or a run filter.
pub fn validate_labels(labels: &[String]) -> (r: Result<(), String>)
    ensures
        match r {
            Ok(()) => labels_error(labels@) is None,
            Err(e) => labels_error(labels@) == Some(e@),
        },
{
    if labels.len() > 32 {
        return Err(string_of("agent labels must contain <= 32 entries"));
    }
    let mut i: usize = 0;
    while i < labels.len()
        invariant
            i <= labels@.len(),
            labels@.len() <= 32,
            forall|j: int| 0 <= j < i ==> label_is_valid(#[trigger] labels@[j]@),
        decreases labels@.len() - i,
    {
        if !label_valid(labels[i].as_str()) {
            assert(!label_is_valid(labels@[i as int]@));
            return Err(string_of("agent labels contain an invalid value"));
        }
        i = i + 1;
    }
    Ok(())
}

/// The first rule of a registration that `r` breaks, with its message.
pub open spec fn registration_error(r: AgentRegistration) -> Option<Seq<char>> {
    if is_blank(r.instance_id@) || utf8_len(r.instance_id@) > 128 {
        Some("agent instance_id is required and must be <= 128 characters"@)
    } else if is_blank(r.name@) || utf8_len(r.name@) > 120 {
        Some("agent name is required and must be <= 120 characters"@)
    } else if labels_error(r.labels@) is Some {
        labels_error(r.labels@)
    } else if r.capabilities.max_clients > 1_000_000 {
        Some("agent max_clients must be <= 1000000"@)
    } else {
        None
    }
}

impl AgentRegistration {
    /// Checks a registration before the node is created.
    pub fn validate(&self) -> (r: Result<(), String>)
        ensures
            match r {
                Ok(()) => registration_error(*self) is None,
                Err(e) => registration_error(*self) == Some(e@),
            },
    {
        if blank(self.instance_id.as_str()) || byte_len(self.instance_id.as_str()) > 128 {
            return Err(
                string_of("agent instance_id is required and must be <= 128 characters"),
            );
        }
        if blank(self.name.as_str()) || byte_len(self.name.as_str()) > 120 {
            return Err(string_of("agent name is required and must be <= 120 characters"));
        }
        validate_labels(self.labels.as_slice())?;
        if self.capabilities.max_clients > 1_000_000 {
            return Err(string_of("agent max_clients must be <= 1000000"));
        }
        Ok(())
    }
}

/// A label as it is compared and stored: trimmed and in ASCII lower case.
pub open spec fn normalized_label(l: Seq<char>) -> Seq<char> {
    ascii_lower_all(trim(l))
}

/// The texts of a list of strings.
pub open spec fn texts(v: Seq<String>) -> Seq<Seq<char>> {
    v.map_values(|s: String| s@)
}

/// Whether `v` holds a string with the text of `t`.
pub fn contains_text(v: &Vec<String>, t: &String) -> (r: bool)
    ensures
        r == texts(v@).contains(t@),
{
    let mut i: usize = 0;
    while i < v.len()
        invariant
            i <= v@.len(),
            forall|j: int| 0 <= j < i ==> v@[j]@ != t@,
        decreases v@.len() - i,
    {
        if str_eq(v[i].as_str(), t.as_str()) {
            assert(texts(v@)[i as int] == t@);
            return true;
        }
        i = i + 1;
    }
    proof {
        if texts(v@).contains(t@) {
            let j = choose|j: int| 0 <= j < texts(v@).len() && texts(v@)[j] == t@;
            assert(v@[j]@ == t@);
        }
    }
    false
}

/// Each text sorts strictly before the ones after it (so none repeats).
pub open spec fn strictly_sorted(s: Seq<Seq<char>>) -> bool {
    forall|i: int, j: int| 0 <= i < j < s.len() ==> seq_less(#[trigger] s[i], #[trigger] s[j])
}

/// Inserts `x` into a strictly sorted list unless it is already there.
fn insert_sorted_unique(v: &mut Vec<String>, x: String)
    requires
        strictly_sorted(texts(old(v)@)),
    ensures
        strictly_sorted(texts(final(v)@)),
        forall|t: Seq<char>|
            texts(final(v)@).contains(t) <==> (texts(old(v)@).contains(t) || t == x@),
{
    let ghost before = texts(v@);
    let mut p: usize = 0;
    while p < v.len() && string_less(&v[p], &x)
        invariant
            p <= v@.len(),
            before == texts(v@),
            forall|j: int| 0 <= j < p ==> seq_less(#[trigger] before[j], x@),
        decreases v@.len() - p,
    {
        p = p + 1;
    }
    if p < v.len() && str_eq(v[p].as_str(), x.as_str()) {
        assert(before[p as int] == x@);
        return;
    }
    proof {
        if p < v@.len() {
            lemma_seq_less_total(before[p as int], x@);
        }
        assert forall|j: int| p <= j < before.len() implies seq_less(x@, #[trigger] before[j]) by {
            if j > p {
                lemma_seq_less_transitive(x@, before[p as int], before[j]);
            }
        }
    }
    v.insert(p, x);
    proof {
        let after = texts(v@);
        assert(after =~= before.insert(p as int, x@));
        assert forall|i: int, j: int| 0 <= i < j < after.len() implies seq_less(
            #[trigger] after[i],
            #[trigger] after[j],
        ) by {
            if j < p {
            } else if j == p {
            } else if i < p {
                lemma_seq_less_transitive(after[i], x@, after[j]);
            } else if i == p {
            } else {
                assert(after[i] == before[i - 1] && after[j] == before[j - 1]);
            }
        }
        assert forall|t: Seq<char>| after.contains(t) <==> (before.contains(t) || t == x@) by {
            if after.contains(t) {
                let k = choose|k: int| 0 <= k < after.len() && after[k] == t;
                if k < p {
                    assert(before[k] == t);
                } else if k > p {
                    assert(before[k - 1] == t);
                }
            }
            if before.contains(t) {
                let k = choose|k: int| 0 <= k < before.len() && before[k] == t;
                if k < p {
                    assert(after[k] == t);
                } else {
                    assert(after[k + 1] == t);
                }
            }
            if t == x@ {
                assert(after[p as int] == t);
            }
        }
    }
}

/// `out` is the normalized form of `labels`: strictly sorted, and holding
/// exactly the non-empty normalized labels of `labels`.
pub open spec fn labels_normalized_from(labels: Seq<String>, out: Seq<String>) -> bool {
    &&& strictly_sorted(texts(out))
    &&& forall|t: Seq<char>|
        texts(out).contains(t) <==> (t.len() > 0 && exists|k: int|
            0 <= k < labels.len() && normalized_label(#[trigger] labels[k]@) == t)
}

/// Trims each label, lowers its ASCII letters, drops the empty ones and
/// duplicates, and sorts what is left.
pub fn normalize_labels(labels: Vec<String>) -> (r: Vec<String>)
    ensures
        labels_normalized_from(labels@, r@),
{
    let mut output: Vec<String> = Vec::new();
    let mut i: usize = 0;
    while i < labels.len()
        invariant
            i <= labels@.len(),
            strictly_sorted(texts(output@)),
            forall|t: Seq<char>|
                texts(output@).contains(t) <==> (t.len() > 0 && exists|k: int|
                    0 <= k < i && normalized_label(#[trigger] labels@[k]@) == t),
        decreases labels@.len() - i,
    {
        let cs = chars_of(labels[i].as_str());
        let trimmed = trim_chars(cs.as_slice());
        let lowered = ascii_lower_chars(trimmed.as_slice());
        let label = string_from_chars(lowered.as_slice());
        assert(label@ == normalized_label(labels@[i as int]@));
        if lowered.len() > 0 {
            insert_sorted_unique(&mut output, label);
        }
        proof {
            assert forall|t: Seq<char>|
                texts(output@).contains(t) <==> (t.len() > 0 && exists|k: int|
                    0 <= k < i + 1 && normalized_label(#[trigger] labels@[k]@) == t) by {
                if t.len() > 0 && exists|k: int|
                    0 <= k < i + 1 && normalized_label(#[trigger] labels@[k]@) == t {
                    let k = choose|k: int|
                        0 <= k < i + 1 && normalized_label(#[trigger] labels@[k]@) == t;
                    if k < i {
                    }
                }
            }
        }
        i = i + 1;
    }
    output
}

proof fn lemma_ascii_lower_idempotent(s: Seq<char>)
    ensures
        ascii_lower_all(ascii_lower_all(s)) == ascii_lower_all(s),
        ascii_lower_all(s).len() == s.len(),
        forall|i: int|
            0 <= i < s.len() ==> (is_unicode_whitespace(#[trigger] ascii_lower_all(s)[i])
                <==> is_unicode_whitespace(s[i])),
{
    assert forall|i: int| 0 <= i < s.len() implies ascii_lower(
        #[trigger] ascii_lower_all(s)[i],
    ) == ascii_lower_all(s)[i] && (is_unicode_whitespace(ascii_lower_all(s)[i])
        <==> is_unicode_whitespace(s[i])) by {
        let c = s[i];
        if 'A' <= c && c <= 'Z' {
            assert(65 <= (c as u32) <= 90);
            assert((((c as u32) + 32) as char) as u32 == (c as u32) + 32);
        }
    }
    assert(ascii_lower_all(ascii_lower_all(s)) =~= ascii_lower_all(s));
}

/// Normalizing a normalized label changes nothing.
pub proof fn lemma_normalized_label_idempotent(l: Seq<char>)
    ensures
        normalized_label(normalized_label(l)) == normalized_label(l),
{
    let t = trim(l);
    lemma_trim_idempotent(l);
    lemma_ascii_lower_idempotent(t);
    let n = ascii_lower_all(t);
    if n.len() > 0 {
        assert(n[0] == ascii_lower_all(t)[0]);
        assert(n.last() == ascii_lower_all(t)[t.len() - 1]);
        lemma_trim_fixed(n);
    } else {
        assert(trim_start(n) == n);
        assert(trim_end(n) == n);
    }
}

/// Two strictly sorted lists with the same texts are the same list.
proof fn lemma_strictly_sorted_unique(a: Seq<Seq<char>>, b: Seq<Seq<char>>)
    requires
        strictly_sorted(a),
        strictly_sorted(b),
        forall|t: Seq<char>| a.contains(t) <==> b.contains(t),
    ensures
        a == b,
    decreases a.len(),
{
    if a.len() == 0 {
        if b.len() > 0 {
            assert(b.contains(b[0]));
        }
        assert(a =~= b);
    } else {
        assert(a.contains(a[0]));
        let j = choose|j: int| 0 <= j < b.len() && b[j] == a[0];
        assert(b.contains(b[0]));
        let k = choose|k: int| 0 <= k < a.len() && a[k] == b[0];
        if j > 0 {
            if k > 0 {
                lemma_seq_less_asymmetric(b[0], b[j]);
            } else {
                lemma_seq_less_irreflexive(b[0]);
            }
        }
        let a1 = a.drop_first();
        let b1 = b.drop_first();
        assert forall|t: Seq<char>| a1.contains(t) <==> b1.contains(t) by {
            if a1.contains(t) {
                let i = choose|i: int| 0 <= i < a1.len() && a1[i] == t;
                assert(seq_less(a[0], a[i + 1]));
                lemma_seq_less_irreflexive(t);
                assert(b.contains(t));
                let m = choose|m: int| 0 <= m < b.len() && b[m] == t;
                assert(m != 0);
                assert(b1[m - 1] == t);
            }
            if b1.contains(t) {
                let i = choose|i: int| 0 <= i < b1.len() && b1[i] == t;
                assert(seq_less(b[0], b[i + 1]));
                lemma_seq_less_irreflexive(t);
                assert(a.contains(t));
                let m = choose|m: int| 0 <= m < a.len() && a[m] == t;
                assert(m != 0);
                assert(a1[m - 1] == t);
            }
        }
        assert(strictly_sorted(a1));
        assert(strictly_sorted(b1));
        lemma_strictly_sorted_unique(a1, b1);
        assert(a =~= seq![a[0]] + a1);
        assert(b =~= seq![b[0]] + b1);
    }
}

/// Normalizing a normalized label list changes nothing: the second pass
/// gives back the texts of the first.
pub proof fn lemma_normalize_labels_idempotent(
    labels: Seq<String>,
    once: Seq<String>,
    twice: Seq<String>,
)
    requires
        labels_normalized_from(labels, once),
        labels_normalized_from(once, twice),
    ensures
        texts(twice) == texts(once),
{
    assert forall|t: Seq<char>| texts(twice).contains(t) <==> texts(once).contains(t) by {
        if texts(twice).contains(t) {
            let k = choose|k: int| 0 <= k < once.len() && normalized_label(#[trigger] once[k]@) == t;
            assert(texts(once)[k] == once[k]@);
            assert(texts(once).contains(once[k]@));
            let m = choose|m: int|
                0 <= m < labels.len() && normalized_label(#[trigger] labels[m]@) == once[k]@;
            lemma_normalized_label_idempotent(labels[m]@);
        }
        if texts(once).contains(t) {
            let k = choose|k: int| 0 <= k < texts(once).len() && texts(once)[k] == t;
            assert(once[k]@ == t);
            let m = choose|m: int|
                0 <= m < labels.len() && normalized_label(#[trigger] labels[m]@) == t;
            lemma_normalized_label_idempotent(labels[m]@);
            assert(normalized_label(once[k]@) == t);
        }
    }
    lemma_strictly_sorted_unique(texts(twice), texts(once));
}

} // verus!
