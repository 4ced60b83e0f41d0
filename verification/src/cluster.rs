//! The control plane's rules for remote agents: who may register, how agent
//! tokens are checked, which nodes a distributed run may use, and how a
//! workload's client numbers are split between them.

use vstd::prelude::*;
use sha2::Digest;
use crate::allocation::{allocate_clients, allocation, lemma_sum_prefix, node_weights, sum_of};
use crate::runtime::sampler::LatencyBucket;
use crate::model::cluster::{
    contains_text, registration_error, texts, AgentNode, AgentNodeUpdate, AgentRegistration, AgentStatus,
    DistributedRunCreate, SchedulingStrategy, labels_error, labels_normalized_from,
    normalize_labels, validate_labels,
};
use crate::model::broker::BrokerProfile;
use crate::model::payload::PayloadProfile;
use crate::storage::Storage;
use crate::bench::{ScenarioOutline, StageOutline, WorkloadOutline};
use crate::decimal::dec_text;
use crate::text::{
    blank, byte_len, is_blank, lemma_seq_less_irreflexive, lemma_seq_less_total,
    lemma_seq_less_transitive, push_char, seq_less, str_eq, string_less, string_of, trim, trimmed,
    utf8_len,
};

verus! {

/// The agent protocol revision this control plane speaks.
pub const AGENT_PROTOCOL_VERSION: u16 = 1;

/// How often agents are told to send heartbeats.
pub const HEARTBEAT_INTERVAL_SECS: u64 = 5;

/// SHA-256 of a byte string.
pub uninterp spec fn sha256(data: Seq<u8>) -> Seq<u8>;

/// `sha2::Sha256::digest`: the 32-byte SHA-256 digest of `data`.
#[verifier::external_body]
fn sha256_digest(data: &[u8]) -> (r: Vec<u8>)
    ensures
        r@ == sha256(data@),
        r@.len() == 32,
{
    sha2::Sha256::digest(data).to_vec()
}

/// `subtle::ConstantTimeEq::ct_eq` on byte slices, read as a `bool`: true
/// exactly when both have the same length and the same bytes.
#[verifier::external_body]
fn ct_eq_bytes(left: &[u8], right: &[u8]) -> (r: bool)
    ensures
        r == (left@ == right@),
{
    bool::from(subtle::ConstantTimeEq::ct_eq(left, right))
}

/// The lower-case hex digit of `d < 16`.
pub open spec fn hex_digit(d: nat) -> char {
    if d < 10 {
        ((48 + d) as u32) as char
    } else {
        ((87 + d) as u32) as char
    }
}

/// Lower-case hex, two digits per byte (as `format!("{byte:02x}")`).
pub open spec fn hex_lower(bytes: Seq<u8>) -> Seq<char>
    decreases bytes.len(),
{
    if bytes.len() == 0 {
        Seq::empty()
    } else {
        hex_lower(bytes.drop_last()) + seq![
            hex_digit((bytes.last() / 16) as nat),
            hex_digit((bytes.last() % 16) as nat),
        ]
    }
}

proof fn lemma_hex_lower_len(bytes: Seq<u8>)
    ensures
        hex_lower(bytes).len() == 2 * bytes.len(),
    decreases bytes.len(),
{
    if bytes.len() > 0 {
        lemma_hex_lower_len(bytes.drop_last());
    }
}

fn hex_char(d: u8) -> (c: char)
    requires
        d < 16,
    ensures
        c == hex_digit(d as nat),
{
    if d < 10 {
        (48u8 + d) as char
    } else {
        (87u8 + d) as char
    }
}

/// The stored form of an agent token: the lower-case hex SHA-256 of its
/// UTF-8 bytes, so that the database never holds the token itself.
pub fn token_hash(token: &str) -> (r: String)
    ensures
        r@ == hex_lower(sha256(vstd::utf8::encode_utf8(token@))),
        r@.len() == 64,
{
    let digest = sha256_digest(token.as_bytes());
    let mut out = String::new();
    let mut i: usize = 0;
    while i < digest.len()
        invariant
            i <= digest@.len(),
            out@ == hex_lower(digest@.take(i as int)),
        decreases digest@.len() - i,
    {
        let b = digest[i];
        push_char(&mut out, hex_char(b / 16));
        push_char(&mut out, hex_char(b % 16));
        i = i + 1;
        assert(digest@.take(i as int).drop_last() =~= digest@.take(i - 1));
    }
    assert(digest@.take(digest@.len() as int) =~= digest@);
    proof {
        lemma_hex_lower_len(digest@);
    }
    out
}

/// Byte equality in time that does not depend on where the inputs differ.
pub fn constant_time_equal(left: &[u8], right: &[u8]) -> (r: bool)
    ensures
        r == (left@ == right@),
{
    left.len() == right.len() && ct_eq_bytes(left, right)
}

/// The control plane's view of the agent cluster.
#[derive(Debug)]
pub struct ClusterManager {
    storage: Storage,
    bootstrap_token: Option<String>,
}

impl ClusterManager {
    /// The bootstrap token that admits new agents, if registration is open.
    pub closed spec fn bootstrap(&self) -> Option<Seq<char>> {
        match self.bootstrap_token {
            Some(t) => Some(t@),
            None => None,
        }
    }

    /// The database the manager works on.
    pub closed spec fn spec_storage(&self) -> Storage {
        self.storage
    }

    /// A manager over `storage` that admits new agents with `bootstrap_token`;
    /// a blank token leaves registration closed.
    pub fn configured(storage: Storage, bootstrap_token: Option<String>) -> (r: ClusterManager)
        ensures
            r.spec_storage() == storage,
            r.bootstrap() == match bootstrap_token {
                Some(t) => if is_blank(t@) {
                    None
                } else {
                    Some(t@)
                },
                None => None,
            },
    {
        let token = match bootstrap_token {
            Some(t) => if blank(t.as_str()) {
                None
            } else {
                Some(t)
            },
            None => None,
        };
        ClusterManager { storage, bootstrap_token: token }
    }

    /// The database the manager works on.
    pub fn storage(&self) -> (r: &Storage)
        ensures
            *r == self.spec_storage(),
    {
        &self.storage
    }

    pub fn registration_enabled(&self) -> (r: bool)
        ensures
            r == self.bootstrap() is Some,
    {
        self.bootstrap_token.is_some()
    }

    /// Admits a registration: the bearer token must be the bootstrap token
    /// and the registration valid; the instance id and name come back trimmed.
    pub fn admit_registration(&self, bearer_token: &str, registration: AgentRegistration) -> (r:
        Result<AgentRegistration, String>)
        ensures
            match r {
                Ok(accepted) => {
                    &&& self.bootstrap() == Some(bearer_token@)
                    &&& registration_error(registration) is None
                    &&& accepted.instance_id@ == trim(registration.instance_id@)
                    &&& accepted.name@ == trim(registration.name@)
                    &&& accepted.labels == registration.labels
                    &&& accepted.capabilities == registration.capabilities
                },
                Err(e) => if self.bootstrap() is None {
                    e@
                        == "agent registration is disabled; configure VELAMQ_BENCH_AGENT_BOOTSTRAP_TOKEN"@
                } else if self.bootstrap() != Some(bearer_token@) {
                    e@ == "invalid agent bootstrap token"@
                } else {
                    registration_error(registration) == Some(e@)
                },
            },
    {
        let expected = match &self.bootstrap_token {
            Some(t) => t,
            None => {
                return Err(
                    string_of(
                        "agent registration is disabled; configure VELAMQ_BENCH_AGENT_BOOTSTRAP_TOKEN",
                    ),
                );
            },
        };
        if !constant_time_equal(expected.as_str().as_bytes(), bearer_token.as_bytes()) {
            proof {
                if expected@ == bearer_token@ {
                    assert(vstd::utf8::encode_utf8(expected@) == vstd::utf8::encode_utf8(bearer_token@));
                }
            }
            return Err(string_of("invalid agent bootstrap token"));
        }
        proof {
            vstd::utf8::encode_utf8_decode_utf8(expected@);
            vstd::utf8::encode_utf8_decode_utf8(bearer_token@);
        }
        registration.validate()?;
        let mut registration = registration;
        registration.instance_id = trimmed(registration.instance_id.as_str());
        registration.name = trimmed(registration.name.as_str());
        Ok(registration)
    }
}

/// The text under which a token is stored: the lower-case hex SHA-256 of
/// its UTF-8 bytes.
pub open spec fn token_hash_text(token: Seq<char>) -> Seq<char> {
    hex_lower(sha256(vstd::utf8::encode_utf8(token)))
}

/// Whether a bearer token matches the hash stored for a node.
pub fn agent_token_matches(expected_hash: &str, bearer_token: &str) -> (r: bool)
    ensures
        r == (expected_hash@ == token_hash_text(bearer_token@)),
{
    let actual = token_hash(bearer_token);
    let r = constant_time_equal(expected_hash.as_bytes(), actual.as_str().as_bytes());
    proof {
        vstd::utf8::encode_utf8_decode_utf8(expected_hash@);
        vstd::utf8::encode_utf8_decode_utf8(actual@);
    }
    r
}

/// Checks an agent's bearer token against the hash stored for its node,
/// if the node exists.
pub fn check_agent_token(stored_hash: Option<&str>, bearer_token: &str) -> (r: Result<(), String>)
    ensures
        match stored_hash {
            None => r matches Err(e) && e@ == "agent node not found"@,
            Some(h) => if h@ == token_hash_text(bearer_token@) {
                r is Ok
            } else {
                r matches Err(e) && e@ == "invalid agent token"@
            },
        },
{
    match stored_hash {
        None => Err(string_of("agent node not found")),
        Some(h) => if agent_token_matches(h, bearer_token) {
            Ok(())
        } else {
            Err(string_of("invalid agent token"))
        },
    }
}

/// `uuid::Uuid::new_v4().simple().to_string()`: a random version 4 UUID
/// as 32 lower-case hex digits. Nothing else is stated: the value is
/// random.
#[verifier::external_body]
pub(crate) fn new_uuid_simple() -> (r: String)
    ensures
        r@.len() == 32,
{
    uuid::Uuid::new_v4().simple().to_string()
}

/// A new agent token: `vma_` and two random UUIDs in simple form.
pub fn new_agent_token() -> (r: String)
    ensures
        r@.len() == 68,
        "vma_"@.is_prefix_of(r@),
{
    let mut t = crate::text::chars_of("vma_");
    let a = new_uuid_simple();
    let b = new_uuid_simple();
    crate::text::append_chars(&mut t, crate::text::chars_of(a.as_str()).as_slice());
    crate::text::append_chars(&mut t, crate::text::chars_of(b.as_str()).as_slice());
    proof {
        reveal_strlit("vma_");
        assert("vma_"@.is_prefix_of(t@)) by {
            assert(t@.subrange(0, 4) =~= "vma_"@);
        }
    }
    crate::text::string_from_chars(t.as_slice())
}

/// Whether a task may be given to a node: the node exists, is enabled and
/// not draining, and the task's scenario has a stage.
pub open spec fn task_node_error(node: Option<AgentNode>, stages: nat) -> Option<Seq<char>> {
    match node {
        None => Some("agent node not found"@),
        Some(n) => if !n.enabled || n.draining {
            Some("agent node is not available for scheduling"@)
        } else if stages == 0 {
            Some("agent task scenario must contain at least one stage"@)
        } else {
            None
        },
    }
}

pub fn check_task_node(node: Option<&AgentNode>, stages: usize) -> (r: Result<(), String>)
    ensures
        match task_node_error(
            match node {
                Some(n) => Some(*n),
                None => None,
            },
            stages as nat,
        ) {
            Some(m) => r matches Err(e) && e@ == m,
            None => r is Ok,
        },
{
    match node {
        None => Err(string_of("agent node not found")),
        Some(n) => if !n.enabled || n.draining {
            Err(string_of("agent node is not available for scheduling"))
        } else if stages == 0 {
            Err(string_of("agent task scenario must contain at least one stage"))
        } else {
            Ok(())
        },
    }
}

/// The most metric points an agent uploads at once.
pub const MAX_METRIC_BATCH: usize = 500;

/// The most log lines an agent uploads at once.
pub const MAX_LOG_BATCH: usize = 1000;

pub fn check_metric_batch(points: usize) -> (r: Result<(), String>)
    ensures
        points > MAX_METRIC_BATCH ==> (r matches Err(e) && e@ == "metric batch must contain <= 500 points"@),
        points <= MAX_METRIC_BATCH ==> r is Ok,
{
    if points > MAX_METRIC_BATCH {
        Err(string_of("metric batch must contain <= 500 points"))
    } else {
        Ok(())
    }
}

pub fn check_log_batch(points: usize) -> (r: Result<(), String>)
    ensures
        points > MAX_LOG_BATCH ==> (r matches Err(e) && e@ == "log batch must contain <= 1000 points"@),
        points <= MAX_LOG_BATCH ==> r is Ok,
{
    if points > MAX_LOG_BATCH {
        Err(string_of("log batch must contain <= 1000 points"))
    } else {
        Ok(())
    }
}

/// The first rule of a node update that `u` breaks, with its message.
pub open spec fn node_update_error(u: AgentNodeUpdate) -> Option<Seq<char>> {
    if (match u.name {
        Some(n) => is_blank(n@) || utf8_len(n@) > 120,
        None => false,
    }) {
        Some("agent name is required and must be <= 120 characters"@)
    } else {
        match u.labels {
            Some(l) => labels_error(l@),
            None => None,
        }
    }
}

/// Checks an operator's update of a node before it is stored.
pub fn validate_node_update(update: &AgentNodeUpdate) -> (r: Result<(), String>)
    ensures
        match r {
            Ok(()) => node_update_error(*update) is None,
            Err(e) => node_update_error(*update) == Some(e@),
        },
{
    if let Some(name) = &update.name {
        if blank(name.as_str()) || byte_len(name.as_str()) > 120 {
            return Err(string_of("agent name is required and must be <= 120 characters"));
        }
    }
    if let Some(labels) = &update.labels {
        validate_labels(labels.as_slice())?;
    }
    Ok(())
}

/// Whether a node may take part in a distributed run: usable (enabled, not
/// draining, not offline or disabled), among the requested nodes when some
/// are named, and carrying every required label.
pub open spec fn node_is_eligible(n: AgentNode, req: DistributedRunCreate) -> bool {
    &&& n.enabled
    &&& !n.draining
    &&& n.status != AgentStatus::Offline
    &&& n.status != AgentStatus::Disabled
    &&& (req.node_ids@.len() == 0 || texts(req.node_ids@).contains(n.id@))
    &&& forall|k: int|
        0 <= k < req.required_labels@.len() ==> texts(n.labels@).contains(
            #[trigger] req.required_labels@[k]@,
        )
}

pub open spec fn eligibility(req: DistributedRunCreate) -> spec_fn(AgentNode) -> bool {
    |n: AgentNode| node_is_eligible(n, req)
}

/// The distinct texts among some strings.
pub open spec fn text_set(v: Seq<String>) -> Set<Seq<char>> {
    Set::new(|t: Seq<char>| texts(v).contains(t))
}

/// `nodes` ordered by id as a stable sort leaves them: `origin[k]` is the
/// input position of the `k`-th output node.
pub open spec fn stably_sorted_by_id(out: Seq<AgentNode>, input: Seq<AgentNode>, origin: Seq<int>) -> bool {
    &&& out.len() == input.len()
    &&& origin.len() == input.len()
    &&& (forall|k: int| 0 <= k < out.len() ==> 0 <= #[trigger] origin[k] < input.len())
    &&& (forall|k: int, l: int| 0 <= k < l < out.len() ==> #[trigger] origin[k] != #[trigger] origin[l])
    &&& (forall|k: int| 0 <= k < out.len() ==> #[trigger] out[k] == input[origin[k]])
    &&& (forall|k: int, l: int|
        0 <= k < l < out.len() ==> seq_less(#[trigger] out[k].id@, #[trigger] out[l].id@) || (
        out[k].id@ == out[l].id@ && origin[k] < origin[l]))
}

/// `out` holds the nodes of `input` in id order, equal ids in input order.
pub open spec fn sorted_by_id_from(out: Seq<AgentNode>, input: Seq<AgentNode>) -> bool {
    exists|origin: Seq<int>| #[trigger] stably_sorted_by_id(out, input, origin)
}

/// The outcome of choosing nodes for a distributed run, with its message.
pub open spec fn node_selection_error(req: DistributedRunCreate, eligible: Seq<AgentNode>) -> Option<
    Seq<char>,
> {
    if eligible.len() == 0 {
        Some("no eligible agent nodes match this distributed run"@)
    } else if req.strategy == SchedulingStrategy::Selected && req.node_ids@.len() == 0 {
        Some("selected scheduling requires node_ids"@)
    } else if req.node_ids@.len() > 0 && eligible.len() != text_set(req.node_ids@).len() {
        Some("one or more selected nodes are offline, disabled, draining, or label-incompatible"@)
    } else {
        None
    }
}

fn eligible(n: &AgentNode, req: &DistributedRunCreate) -> (r: bool)
    ensures
        r == node_is_eligible(*n, *req),
{
    if !n.enabled || n.draining {
        return false;
    }
    match n.status {
        AgentStatus::Offline | AgentStatus::Disabled => {
            return false;
        },
        _ => {},
    }
    if req.node_ids.len() > 0 && !contains_text(&req.node_ids, &n.id) {
        return false;
    }
    let mut k: usize = 0;
    while k < req.required_labels.len()
        invariant
            k <= req.required_labels@.len(),
            forall|j: int|
                0 <= j < k ==> texts(n.labels@).contains(#[trigger] req.required_labels@[j]@),
        decreases req.required_labels@.len() - k,
    {
        if !contains_text(&n.labels, &req.required_labels[k]) {
            return false;
        }
        k = k + 1;
    }
    true
}

/// How many different texts `v` holds.
fn distinct_count(v: &Vec<String>) -> (r: usize)
    ensures
        text_set(v@).finite(),
        r == text_set(v@).len(),
{
    let mut count: usize = 0;
    let mut i: usize = 0;
    assert(text_set(v@.take(0)) =~= Set::empty());
    while i < v.len()
        invariant
            i <= v@.len(),
            text_set(v@.take(i as int)).finite(),
            count == text_set(v@.take(i as int)).len(),
            count <= i,
        decreases v@.len() - i,
    {
        let ghost before = text_set(v@.take(i as int));
        let ghost after = text_set(v@.take(i + 1));
        let mut seen = false;
        let mut j: usize = 0;
        while j < i
            invariant
                i < v@.len(),
                j <= i,
                seen == exists|q: int| 0 <= q < j && v@[q]@ == v@[i as int]@,
            decreases i - j,
        {
            if str_eq(v[j].as_str(), v[i].as_str()) {
                seen = true;
            }
            j = j + 1;
        }
        proof {
            assert(texts(v@.take(i + 1)) =~= texts(v@.take(i as int)).push(v@[i as int]@));
            let x = v@[i as int]@;
            let pre = texts(v@.take(i as int));
            assert forall|t: Seq<char>| #[trigger] pre.push(x).contains(t) <==> (pre.contains(t) || t == x) by {
                if pre.push(x).contains(t) {
                    let q = choose|q: int| 0 <= q < pre.push(x).len() && pre.push(x)[q] == t;
                    if q < pre.len() {
                        assert(pre[q] == t);
                    }
                }
                if pre.contains(t) {
                    let q = choose|q: int| 0 <= q < pre.len() && pre[q] == t;
                    assert(pre.push(x)[q] == t);
                }
                if t == x {
                    assert(pre.push(x)[pre.len() as int] == t);
                }
            }
            if seen {
                let q = choose|q: int| 0 <= q < i && v@[q]@ == v@[i as int]@;
                assert(texts(v@.take(i as int))[q] == v@[i as int]@);
                assert(after =~= before);
            } else {
                assert(after =~= before.insert(v@[i as int]@));
                assert(!before.contains(v@[i as int]@)) by {
                    if before.contains(v@[i as int]@) {
                        let q = choose|q: int|
                            0 <= q < texts(v@.take(i as int)).len() && texts(v@.take(i as int))[q]
                                == v@[i as int]@;
                        assert(v@[q]@ == v@[i as int]@);
                    }
                }
            }
        }
        if !seen {
            count = count + 1;
        }
        i = i + 1;
    }
    assert(v@.take(v@.len() as int) =~= v@);
    count
}

/// Inserts `node` after every node whose id does not sort after its own.
fn insert_by_id(
    out: &mut Vec<AgentNode>,
    node: AgentNode,
    Ghost(input): Ghost<Seq<AgentNode>>,
    Ghost(origin): Ghost<Seq<int>>,
    Ghost(next): Ghost<int>,
) -> (new_origin: Ghost<Seq<int>>)
    requires
        0 <= next < input.len(),
        input[next] == node,
        old(out)@.len() == origin.len(),
        forall|k: int| 0 <= k < origin.len() ==> 0 <= #[trigger] origin[k] < next,
        forall|k: int, l: int| 0 <= k < l < origin.len() ==> #[trigger] origin[k] != #[trigger] origin[l],
        forall|k: int| 0 <= k < origin.len() ==> #[trigger] old(out)@[k] == input[origin[k]],
        forall|k: int, l: int|
            0 <= k < l < origin.len() ==> seq_less(#[trigger] old(out)@[k].id@, #[trigger] old(out)@[l].id@)
                || (old(out)@[k].id@ == old(out)@[l].id@ && origin[k] < origin[l]),
    ensures
        final(out)@.len() == new_origin@.len(),
        new_origin@.len() == origin.len() + 1,
        forall|k: int| 0 <= k < new_origin@.len() ==> 0 <= #[trigger] new_origin@[k] < next + 1,
        forall|k: int, l: int|
            0 <= k < l < new_origin@.len() ==> #[trigger] new_origin@[k] != #[trigger] new_origin@[l],
        forall|k: int| 0 <= k < new_origin@.len() ==> #[trigger] final(out)@[k] == input[new_origin@[k]],
        forall|k: int, l: int|
            0 <= k < l < new_origin@.len() ==> seq_less(#[trigger] final(out)@[k].id@, #[trigger] final(out)@[l].id@)
                || (final(out)@[k].id@ == final(out)@[l].id@ && new_origin@[k] < new_origin@[l]),
{
    let ghost before = out@;
    let mut p: usize = 0;
    while p < out.len() && !string_less(&node.id, &out[p].id)
        invariant
            p <= out@.len(),
            before == out@,
            forall|j: int| 0 <= j < p ==> !seq_less(node.id@, #[trigger] before[j].id@),
        decreases out@.len() - p,
    {
        p = p + 1;
    }
    proof {
        assert forall|j: int| p <= j < before.len() implies seq_less(node.id@, #[trigger] before[j].id@) by {
            if j > p {
                let a = before[p as int].id@;
                let b = before[j].id@;
                if seq_less(a, b) {
                    lemma_seq_less_transitive(node.id@, a, b);
                } else {
                    assert(a == b);
                }
            }
        }
    }
    let ghost new_origin = origin.insert(p as int, next);
    out.insert(p, node);
    proof {
        let after = out@;
        assert(after =~= before.insert(p as int, input[next]));
        assert forall|k: int, l: int| 0 <= k < l < new_origin.len() implies seq_less(
            #[trigger] after[k].id@,
            #[trigger] after[l].id@,
        ) || (after[k].id@ == after[l].id@ && new_origin[k] < new_origin[l]) by {
            if l < p {
                assert(after[k] == before[k] && after[l] == before[l]);
            } else if l == p {
                assert(after[k] == before[k]);
                assert(!seq_less(node.id@, before[k].id@));
                lemma_seq_less_total(node.id@, before[k].id@);
            } else if k < p {
                assert(after[k] == before[k] && after[l] == before[l - 1]);
                assert(!seq_less(node.id@, before[k].id@));
                lemma_seq_less_total(node.id@, before[k].id@);
                if seq_less(before[k].id@, node.id@) {
                    lemma_seq_less_transitive(before[k].id@, node.id@, before[l - 1].id@);
                }
            } else if k == p {
                assert(after[l] == before[l - 1]);
            } else {
                assert(after[k] == before[k - 1] && after[l] == before[l - 1]);
            }
        }
    }
    Ghost(new_origin)
}

/// What a node a distributed run is given is like: it is one of the nodes
/// offered, an operator has it enabled, it is not draining, it is neither
/// offline nor disabled, it was asked for when the request names nodes, and
/// it carries every label the request requires.
pub proof fn lemma_selected_nodes_usable(
    req: DistributedRunCreate,
    nodes: Seq<AgentNode>,
    out: Seq<AgentNode>,
)
    requires
        sorted_by_id_from(out, nodes.filter(eligibility(req))),
    ensures
        forall|k: int|
            0 <= k < out.len() ==> {
                let n = #[trigger] out[k];
                &&& nodes.contains(n)
                &&& n.enabled
                &&& !n.draining
                &&& n.status != AgentStatus::Offline
                &&& n.status != AgentStatus::Disabled
                &&& req.node_ids@.len() > 0 ==> texts(req.node_ids@).contains(n.id@)
                &&& forall|j: int|
                    0 <= j < req.required_labels@.len() ==> texts(n.labels@).contains(
                        #[trigger] req.required_labels@[j]@,
                    )
            },
{
    broadcast use vstd::seq_lib::group_filter_ensures;

    let pred = eligibility(req);
    let chosen = nodes.filter(pred);
    let origin = choose|origin: Seq<int>| #[trigger] stably_sorted_by_id(out, chosen, origin);
    assert forall|k: int| 0 <= k < out.len() implies {
        let n = #[trigger] out[k];
        &&& nodes.contains(n)
        &&& n.enabled
        &&& !n.draining
        &&& n.status != AgentStatus::Offline
        &&& n.status != AgentStatus::Disabled
        &&& req.node_ids@.len() > 0 ==> texts(req.node_ids@).contains(n.id@)
        &&& forall|j: int|
            0 <= j < req.required_labels@.len() ==> texts(n.labels@).contains(
                #[trigger] req.required_labels@[j]@,
            )
    } by {
        let o = origin[k];
        assert(out[k] == chosen[o]);
        assert(pred(chosen[o]));
        assert(chosen.contains(chosen[o]));
        nodes.lemma_filter_contains_rev(pred, chosen[o]);
    }
}

/// Picks the nodes of a distributed run: the eligible nodes in id order,
/// or the reason there are none fit to run it.
pub fn select_run_nodes(request: &DistributedRunCreate, nodes: Vec<AgentNode>) -> (r: Result<
    Vec<AgentNode>,
    String,
>)
    ensures
        r is Ok ==> node_selection_error(*request, nodes@.filter(eligibility(*request))) is None,
        r matches Ok(out) ==> sorted_by_id_from(out@, nodes@.filter(eligibility(*request))),
        r matches Err(e) ==> node_selection_error(*request, nodes@.filter(eligibility(*request)))
            == Some(e@),
        r matches Ok(out) ==> forall|k: int|
            0 <= k < out@.len() ==> {
                let n = #[trigger] out@[k];
                &&& nodes@.contains(n)
                &&& n.enabled
                &&& !n.draining
                &&& n.status != AgentStatus::Offline
                &&& n.status != AgentStatus::Disabled
            },
{
    let ghost pred = eligibility(*request);
    let ghost all = nodes@;
    let total_len = nodes.len();
    let mut rest = nodes;
    let mut chosen: Vec<AgentNode> = Vec::new();
    let mut i: usize = 0;
    assert(all.skip(0) =~= all);
    while rest.len() > 0
        invariant
            i <= all.len(),
            i + rest@.len() == all.len(),
            all.len() == total_len,
            pred == eligibility(*request),
            rest@ == all.skip(i as int),
            chosen@ == all.take(i as int).filter(pred),
        decreases rest@.len(),
    {
        let n = rest.remove(0);
        proof {
            reveal_with_fuel(Seq::filter, 1);
            assert(all.take(i + 1).drop_last() =~= all.take(i as int));
            assert(all.skip(i as int).drop_first() =~= all.skip(i + 1));
            assert(all.take(i + 1).last() == n);
        }
        if eligible(&n, request) {
            chosen.push(n);
        }
        i = i + 1;
    }
    assert(all.take(i as int) =~= all);
    let ghost chosen_spec = chosen@;
    let chosen_len = chosen.len();
    let mut pending = chosen;
    let mut out: Vec<AgentNode> = Vec::new();
    let ghost mut origin: Seq<int> = Seq::empty();
    let mut k: usize = 0;
    assert(chosen_spec.skip(0) =~= chosen_spec);
    while pending.len() > 0
        invariant
            k <= chosen_spec.len(),
            k + pending@.len() == chosen_spec.len(),
            chosen_spec.len() == chosen_len,
            pending@ == chosen_spec.skip(k as int),
            out@.len() == origin.len(),
            origin.len() == k,
            forall|a: int| 0 <= a < origin.len() ==> 0 <= #[trigger] origin[a] < k,
            forall|a: int, b: int| 0 <= a < b < origin.len() ==> #[trigger] origin[a] != #[trigger] origin[b],
            forall|a: int| 0 <= a < origin.len() ==> #[trigger] out@[a] == chosen_spec[origin[a]],
            forall|a: int, b: int|
                0 <= a < b < origin.len() ==> seq_less(#[trigger] out@[a].id@, #[trigger] out@[b].id@)
                    || (out@[a].id@ == out@[b].id@ && origin[a] < origin[b]),
        decreases pending@.len(),
    {
        let node = pending.remove(0);
        assert(chosen_spec.skip(k as int).drop_first() =~= chosen_spec.skip(k + 1));
        let Ghost(o) = insert_by_id(&mut out, node, Ghost(chosen_spec), Ghost(origin), Ghost(k as int));
        proof {
            origin = o;
        }
        k = k + 1;
    }
    assert(stably_sorted_by_id(out@, chosen_spec, origin));
    assert(chosen_spec == all.filter(eligibility(*request)));
    if out.len() == 0 {
        return Err(string_of("no eligible agent nodes match this distributed run"));
    }
    if request.strategy == SchedulingStrategy::Selected && request.node_ids.len() == 0 {
        return Err(string_of("selected scheduling requires node_ids"));
    }
    if request.node_ids.len() > 0 && out.len() != distinct_count(&request.node_ids) {
        return Err(
            string_of(
                "one or more selected nodes are offline, disabled, draining, or label-incompatible",
            ),
        );
    }
    assert(sorted_by_id_from(out@, nodes@.filter(eligibility(*request))));
    proof {
        lemma_selected_nodes_usable(*request, nodes@, out@);
    }
    Ok(out)
}

/// The clients of one workload that a node runs: how many, and the client
/// number they start from.
#[derive(Debug, Clone, Copy, PartialEq, Eq, Structural)]
pub struct ClientSlice {
    pub clients: u64,
    pub start_number: u64,
}

/// The first client number of the `i`-th node's share: the workload's start
/// plus the shares of the nodes before it.
pub open spec fn slice_start(start_number: u64, shares: Seq<u64>, i: int) -> int {
    start_number + sum_of(shares.take(i))
}

proof fn lemma_prefix_sum_mono(s: Seq<u64>, j: int, k: int)
    requires
        0 <= j <= k <= s.len(),
    ensures
        sum_of(s.take(j)) <= sum_of(s.take(k)),
    decreases k - j,
{
    if j < k {
        lemma_prefix_sum_mono(s, j, k - 1);
        lemma_sum_prefix(s, k - 1);
    }
}

/// The share of node `node_index` in a workload of `clients` clients that
/// starts at `start_number`, or `None` when the node gets no client.
pub fn slice_workload_clients(
    clients: u64,
    start_number: u64,
    nodes: &[AgentNode],
    strategy: &SchedulingStrategy,
    node_index: usize,
) -> (r: Option<ClientSlice>)
    requires
        node_index < nodes@.len(),
        *strategy == SchedulingStrategy::CapacityWeighted ==> sum_of(node_weights(nodes@))
            <= u64::MAX,
        slice_start(start_number, allocation(clients, nodes@, *strategy), node_index as int)
            <= u64::MAX,
    ensures
        r is None <==> allocation(clients, nodes@, *strategy)[node_index as int] == 0,
        r matches Some(s) ==> s.clients == allocation(clients, nodes@, *strategy)[node_index as int]
            && s.start_number == slice_start(
            start_number,
            allocation(clients, nodes@, *strategy),
            node_index as int,
        ),
{
    let shares = allocate_clients(clients, nodes, strategy);
    let ghost a = shares@;
    let count = nodes.len();
    proof {
        crate::allocation::lemma_allocation_len(clients, nodes@, *strategy);
    }
    let mine = shares[node_index];
    if mine == 0 {
        return None;
    }
    let mut start: u64 = start_number;
    let mut j: usize = 0;
    while j < node_index
        invariant
            j <= node_index < a.len(),
            a == shares@,
            start == start_number + sum_of(a.take(j as int)),
            slice_start(start_number, a, node_index as int) <= u64::MAX,
        decreases node_index - j,
    {
        proof {
            lemma_sum_prefix(a, j as int);
            lemma_prefix_sum_mono(a, j + 1, node_index as int);
        }
        start = start + shares[j];
        j = j + 1;
    }
    Some(ClientSlice { clients: mine, start_number: start })
}

/// The part of one stage of a scenario that a node runs: whether the stage
/// runs its workloads side by side, and for each workload the node has
/// clients of, its position in the stage and the node's share.
#[derive(Debug, Clone)]
pub struct NodeStage {
    pub parallel: bool,
    pub workloads: Vec<(usize, ClientSlice)>,
}

/// The part of a scenario that one node of a distributed run runs.
#[derive(Debug, Clone)]
pub struct NodeScenario {
    pub id: String,
    pub name: String,
    pub stages: Vec<NodeStage>,
}

/// The shares node `i` gets of the workloads `ws` of a stage, with their
/// positions in the stage; workloads it gets no client of are left out.
pub open spec fn stage_shares(
    ws: Seq<WorkloadOutline>,
    nodes: Seq<AgentNode>,
    strategy: SchedulingStrategy,
    i: int,
) -> Seq<(usize, ClientSlice)>
    decreases ws.len(),
{
    if ws.len() == 0 {
        seq![]
    } else {
        let rest = stage_shares(ws.drop_last(), nodes, strategy, i);
        let w = ws.last();
        let a = allocation(w.clients, nodes, strategy);
        if a[i] == 0 {
            rest
        } else {
            rest.push(
                (
                    (ws.len() - 1) as usize,
                    ClientSlice { clients: a[i], start_number: slice_start(w.start_number, a, i) as u64 },
                ),
            )
        }
    }
}

/// Every workload of the stages can be split for node `i` without its
/// first client number leaving `u64`.
pub open spec fn shares_fit(
    stages: Seq<StageOutline>,
    nodes: Seq<AgentNode>,
    strategy: SchedulingStrategy,
    i: int,
) -> bool {
    forall|s: int, k: int|
        0 <= s < stages.len() && 0 <= k < stages[s].workloads@.len() ==> slice_start(
            (#[trigger] stages[s].workloads@[k]).start_number,
            allocation(stages[s].workloads@[k].clients, nodes, strategy),
            i,
        ) <= u64::MAX
}

fn slice_stage(
    ws: &Vec<WorkloadOutline>,
    nodes: &[AgentNode],
    strategy: &SchedulingStrategy,
    node_index: usize,
) -> (r: Vec<(usize, ClientSlice)>)
    requires
        node_index < nodes@.len(),
        *strategy == SchedulingStrategy::CapacityWeighted ==> sum_of(node_weights(nodes@))
            <= u64::MAX,
        forall|k: int|
            0 <= k < ws@.len() ==> slice_start(
                (#[trigger] ws@[k]).start_number,
                allocation(ws@[k].clients, nodes@, *strategy),
                node_index as int,
            ) <= u64::MAX,
    ensures
        r@ == stage_shares(ws@, nodes@, *strategy, node_index as int),
{
    let mut out: Vec<(usize, ClientSlice)> = Vec::new();
    let mut k: usize = 0;
    while k < ws.len()
        invariant
            k <= ws@.len(),
            node_index < nodes@.len(),
            *strategy == SchedulingStrategy::CapacityWeighted ==> sum_of(node_weights(nodes@))
                <= u64::MAX,
            forall|m: int|
                0 <= m < ws@.len() ==> slice_start(
                    (#[trigger] ws@[m]).start_number,
                    allocation(ws@[m].clients, nodes@, *strategy),
                    node_index as int,
                ) <= u64::MAX,
            out@ == stage_shares(ws@.take(k as int), nodes@, *strategy, node_index as int),
        decreases ws@.len() - k,
    {
        let w = &ws[k];
        assert(ws@.take(k + 1).drop_last() =~= ws@.take(k as int));
        assert(ws@.take(k + 1).last() == ws@[k as int]);
        match slice_workload_clients(w.clients, w.start_number, nodes, strategy, node_index) {
            Some(slice) => {
                out.push((k, slice));
            },
            None => {},
        }
        k = k + 1;
    }
    assert(ws@.take(ws@.len() as int) =~= ws@);
    out
}

/// `r` is the part of `scenario` that node `i` of `nodes` runs: named
/// after the scenario and the node, with each stage keeping its kind and
/// holding the node's shares of its workloads.
pub open spec fn is_node_scenario(
    r: NodeScenario,
    scenario: ScenarioOutline,
    nodes: Seq<AgentNode>,
    strategy: SchedulingStrategy,
    i: int,
) -> bool {
    &&& r.id@ == scenario.id@ + "-node-"@ + dec_text((i + 1) as nat)
    &&& r.name@ == scenario.name@ + " \u{b7} "@ + nodes[i].name@
    &&& r.stages@.len() == scenario.stages@.len()
    &&& forall|s: int|
        0 <= s < scenario.stages@.len() ==> (#[trigger] r.stages@[s]).parallel
            == scenario.stages@[s].parallel && r.stages@[s].workloads@ == stage_shares(
            scenario.stages@[s].workloads@,
            nodes,
            strategy,
            i,
        )
}

/// The part of `scenario` that node `node_index` of `nodes` runs: named
/// after the scenario and the node, with each stage keeping its kind and
/// the node's shares of its workloads.
pub fn slice_scenario(
    scenario: &ScenarioOutline,
    nodes: &[AgentNode],
    strategy: &SchedulingStrategy,
    node_index: usize,
) -> (r: NodeScenario)
    requires
        node_index < nodes@.len(),
        *strategy == SchedulingStrategy::CapacityWeighted ==> sum_of(node_weights(nodes@))
            <= u64::MAX,
        shares_fit(scenario.stages@, nodes@, *strategy, node_index as int),
    ensures
        is_node_scenario(r, *scenario, nodes@, *strategy, node_index as int),
{
    let count: usize = nodes.len();
    assert(node_index < count);
    let id = node_scenario_id(scenario.id.as_str(), node_index);
    let name = node_scenario_name(scenario.name.as_str(), nodes[node_index].name.as_str());
    let mut stages: Vec<NodeStage> = Vec::new();
    let mut s: usize = 0;
    while s < scenario.stages.len()
        invariant
            s <= scenario.stages@.len(),
            node_index < nodes@.len(),
            *strategy == SchedulingStrategy::CapacityWeighted ==> sum_of(node_weights(nodes@))
                <= u64::MAX,
            shares_fit(scenario.stages@, nodes@, *strategy, node_index as int),
            stages@.len() == s,
            forall|t: int|
                0 <= t < s ==> (#[trigger] stages@[t]).parallel == scenario.stages@[t].parallel
                    && stages@[t].workloads@ == stage_shares(
                    scenario.stages@[t].workloads@,
                    nodes@,
                    *strategy,
                    node_index as int,
                ),
        decreases scenario.stages@.len() - s,
    {
        let stage = &scenario.stages[s];
        assert forall|k: int| 0 <= k < stage.workloads@.len() implies slice_start(
            (#[trigger] stage.workloads@[k]).start_number,
            allocation(stage.workloads@[k].clients, nodes@, *strategy),
            node_index as int,
        ) <= u64::MAX by {
            assert(scenario.stages@[s as int].workloads@[k] == stage.workloads@[k]);
        }
        let workloads = slice_stage(&stage.workloads, nodes, strategy, node_index);
        stages.push(NodeStage { parallel: stage.parallel, workloads });
        s = s + 1;
    }
    NodeScenario { id, name, stages }
}

/// The task a node of a distributed run is given: the node, the key that
/// keeps the task from being created twice, and its part of the scenario.
#[derive(Debug, Clone)]
pub struct NodeTaskPlan {
    pub node_id: String,
    pub idempotency_key: String,
    pub scenario: NodeScenario,
}

/// The tasks of distributed run `run_id` over the chosen `nodes`: one per
/// node, in the nodes' order, each with its idempotency key and its part of
/// the scenario.
pub fn plan_node_tasks(
    run_id: &str,
    scenario: &ScenarioOutline,
    nodes: &[AgentNode],
    strategy: &SchedulingStrategy,
) -> (r: Vec<NodeTaskPlan>)
    requires
        *strategy == SchedulingStrategy::CapacityWeighted ==> sum_of(node_weights(nodes@))
            <= u64::MAX,
        forall|i: int| 0 <= i < nodes@.len() ==> shares_fit(scenario.stages@, nodes@, *strategy, i),
    ensures
        r@.len() == nodes@.len(),
        forall|i: int|
            0 <= i < nodes@.len() ==> {
                let t = #[trigger] r@[i];
                &&& t.node_id@ == nodes@[i].id@
                &&& t.idempotency_key@ == run_id@ + "/"@ + nodes@[i].id@ + "/1"@
                &&& is_node_scenario(t.scenario, *scenario, nodes@, *strategy, i)
            },
{
    let mut out: Vec<NodeTaskPlan> = Vec::new();
    let mut i: usize = 0;
    while i < nodes.len()
        invariant
            i <= nodes@.len(),
            *strategy == SchedulingStrategy::CapacityWeighted ==> sum_of(node_weights(nodes@))
                <= u64::MAX,
            forall|n: int|
                0 <= n < nodes@.len() ==> shares_fit(scenario.stages@, nodes@, *strategy, n),
            out@.len() == i,
            forall|n: int|
                0 <= n < i ==> {
                    let t = #[trigger] out@[n];
                    &&& t.node_id@ == nodes@[n].id@
                    &&& t.idempotency_key@ == run_id@ + "/"@ + nodes@[n].id@ + "/1"@
                    &&& is_node_scenario(t.scenario, *scenario, nodes@, *strategy, n)
                },
        decreases nodes@.len() - i,
    {
        let node = &nodes[i];
        let task = NodeTaskPlan {
            node_id: node.id.clone(),
            idempotency_key: task_idempotency_key(run_id, node.id.as_str()),
            scenario: slice_scenario(scenario, nodes, strategy, i),
        };
        out.push(task);
        i = i + 1;
    }
    out
}

/// The nodes' shares of a workload are consecutive ranges of client
/// numbers: each starts where the one before ends, so no two overlap; when
/// the shares add up to the workload's clients, the last ends where the
/// workload does.
pub proof fn lemma_slices_tile(
    clients: u64,
    start_number: u64,
    nodes: Seq<AgentNode>,
    strategy: SchedulingStrategy,
    i: int,
    j: int,
)
    requires
        0 <= i < j <= nodes.len(),
        nodes.len() <= u64::MAX,
    ensures
        slice_start(start_number, allocation(clients, nodes, strategy), i) + allocation(
            clients,
            nodes,
            strategy,
        )[i] <= slice_start(start_number, allocation(clients, nodes, strategy), j),
        slice_start(start_number, allocation(clients, nodes, strategy), i + 1) == slice_start(
            start_number,
            allocation(clients, nodes, strategy),
            i,
        ) + allocation(clients, nodes, strategy)[i],
        sum_of(allocation(clients, nodes, strategy)) == clients ==> slice_start(
            start_number,
            allocation(clients, nodes, strategy),
            nodes.len() as int,
        ) == start_number + clients,
{
    let a = allocation(clients, nodes, strategy);
    crate::allocation::lemma_allocation_len(clients, nodes, strategy);
    lemma_sum_prefix(a, i);
    lemma_prefix_sum_mono(a, i + 1, j);
    assert(a.take(a.len() as int) =~= a);
}

/// The sum of the counts of some histogram buckets.
pub open spec fn bucket_total(h: Seq<LatencyBucket>) -> int
    decreases h.len(),
{
    if h.len() == 0 {
        0
    } else {
        bucket_total(h.drop_last()) + h.last().count
    }
}

/// The upper bound of the first bucket at which the running count reaches
/// `target`, if it ever does.
pub open spec fn bound_reaching(h: Seq<LatencyBucket>, target: int) -> Option<u64>
    decreases h.len(),
{
    if h.len() == 0 {
        None
    } else if h[0].count >= target {
        Some(h[0].upper_bound_us)
    } else {
        bound_reaching(h.drop_first(), target - h[0].count)
    }
}

proof fn lemma_bucket_total_split(h: Seq<LatencyBucket>, k: int)
    requires
        0 <= k <= h.len(),
    ensures
        bucket_total(h) == bucket_total(h.take(k)) + bucket_total(h.skip(k)),
    decreases h.len(),
{
    if k < h.len() {
        lemma_bucket_total_split(h.drop_last(), k);
        assert(h.drop_last().take(k) =~= h.take(k));
        assert(h.skip(k).drop_last() =~= h.drop_last().skip(k));
    } else {
        assert(h.take(k) =~= h);
        assert(h.skip(k) =~= Seq::<LatencyBucket>::empty());
    }
}

/// The samples of the first `j + 1` buckets: those of the first bucket and
/// those of the next `j`.
proof fn lemma_bucket_total_front(h: Seq<LatencyBucket>, j: int)
    requires
        0 <= j < h.len(),
    ensures
        bucket_total(h.take(j + 1)) == h[0].count + bucket_total(h.drop_first().take(j)),
{
    let t = h.take(j + 1);
    lemma_bucket_total_split(t, 1);
    assert(t.take(1).drop_last() =~= Seq::<LatencyBucket>::empty());
    assert(bucket_total(Seq::<LatencyBucket>::empty()) == 0);
    assert(t.take(1).last() == h[0]);
    assert(bucket_total(t.take(1)) == h[0].count);
    assert(t.skip(1) =~= h.drop_first().take(j));
}

/// A percentile read off a histogram is the bound of the first bucket at
/// which the running count reaches the target: the buckets up to and
/// including it hold at least `target` samples, the buckets before it
/// fewer. When no bucket reaches the target, all of them together hold
/// fewer samples.
pub proof fn lemma_bound_reaching_first(h: Seq<LatencyBucket>, target: int)
    requires
        target >= 1,
    ensures
        match bound_reaching(h, target) {
            Some(b) => exists|k: int|
                0 <= k < h.len() && h[k].upper_bound_us == b && bucket_total(h.take(k + 1))
                    >= target && bucket_total(h.take(k)) < target,
            None => bucket_total(h) < target,
        },
    decreases h.len(),
{
    if h.len() == 0 {
    } else if h[0].count >= target {
        lemma_bucket_total_front(h, 0);
        assert(h.drop_first().take(0) =~= Seq::<LatencyBucket>::empty());
        assert(h.take(0) =~= Seq::<LatencyBucket>::empty());
    } else {
        let rest = h.drop_first();
        let t2 = target - h[0].count;
        lemma_bound_reaching_first(rest, t2);
        match bound_reaching(rest, t2) {
            Some(b) => {
                let k = choose|k: int|
                    0 <= k < rest.len() && rest[k].upper_bound_us == b && bucket_total(
                        rest.take(k + 1),
                    ) >= t2 && bucket_total(rest.take(k)) < t2;
                lemma_bucket_total_front(h, k + 1);
                lemma_bucket_total_front(h, k);
                assert(h[k + 1] == rest[k]);
            },
            None => {
                lemma_bucket_total_front(h, h.len() - 1);
                assert(h.take(h.len() as int) =~= h);
                assert(rest.take(h.len() - 1) =~= rest);
            },
        }
    }
}

/// The bucket bound at the `target`-th smallest latency of a histogram
/// whose buckets are in increasing order: the percentile that the
/// distributed reports show.
pub fn histogram_bound_at(histogram: &[LatencyBucket], target: u64) -> (r: Option<u64>)
    requires
        bucket_total(histogram@) <= u64::MAX,
    ensures
        r == bound_reaching(histogram@, target as int),
        target >= 1 ==> match r {
            Some(b) => exists|k: int|
                0 <= k < histogram@.len() && histogram@[k].upper_bound_us == b && bucket_total(
                    histogram@.take(k + 1),
                ) >= target && bucket_total(histogram@.take(k)) < target,
            None => bucket_total(histogram@) < target,
        },
{
    proof {
        if target >= 1 {
            lemma_bound_reaching_first(histogram@, target as int);
        }
    }
    let ghost h = histogram@;
    let mut seen: u64 = 0;
    let mut k: usize = 0;
    assert(h.skip(0) =~= h);
    assert(h.take(0) =~= Seq::<LatencyBucket>::empty());
    while k < histogram.len()
        invariant
            k <= h.len(),
            h == histogram@,
            bucket_total(h) <= u64::MAX,
            seen == bucket_total(h.take(k as int)),
            k > 0 ==> seen < target,
            bound_reaching(h, target as int) == bound_reaching(h.skip(k as int), target - seen),
        decreases h.len() - k,
    {
        proof {
            lemma_bucket_total_split(h, k + 1);
            assert(h.take(k + 1).drop_last() =~= h.take(k as int));
            assert(bucket_total(h.skip(k + 1)) >= 0) by {
                lemma_bucket_total_nonneg(h.skip(k + 1));
            }
            assert(h.skip(k as int)[0] == h[k as int]);
            assert(h.skip(k as int).drop_first() =~= h.skip(k + 1));
        }
        seen = seen + histogram[k].count;
        if seen >= target {
            return Some(histogram[k].upper_bound_us);
        }
        k = k + 1;
    }
    None
}

proof fn lemma_bucket_total_nonneg(h: Seq<LatencyBucket>)
    ensures
        bucket_total(h) >= 0,
    decreases h.len(),
{
    if h.len() > 0 {
        lemma_bucket_total_nonneg(h.drop_last());
    }
}

/// The required labels of a distributed run as it is scheduled: normalized,
/// then checked.
pub fn prepare_required_labels(labels: Vec<String>) -> (r: Result<Vec<String>, String>)
    ensures
        match r {
            Ok(v) => labels_normalized_from(labels@, v@) && labels_error(v@) is None,
            Err(e) => exists|v: Seq<String>|
                labels_normalized_from(labels@, v) && #[trigger] labels_error(v) == Some(e@),
        },
{
    let ghost input = labels@;
    let v = normalize_labels(labels);
    match validate_labels(v.as_slice()) {
        Ok(()) => Ok(v),
        Err(e) => {
            assert(labels_normalized_from(input, v@) && labels_error(v@) == Some(e@));
            Err(e)
        },
    }
}

/// The key that keeps a node's task of a distributed run from being
/// created twice: the run, the node and the attempt.
pub fn task_idempotency_key(run_id: &str, node_id: &str) -> (r: String)
    ensures
        r@ == run_id@ + "/"@ + node_id@ + "/1"@,
{
    let mut v = crate::text::chars_of(run_id);
    crate::text::append_chars(&mut v, crate::text::chars_of("/").as_slice());
    crate::text::append_chars(&mut v, crate::text::chars_of(node_id).as_slice());
    crate::text::append_chars(&mut v, crate::text::chars_of("/1").as_slice());
    crate::text::string_from_chars(v.as_slice())
}

/// The id of the part of a scenario that node `index` (counted from 0) runs.
pub fn node_scenario_id(scenario_id: &str, index: usize) -> (r: String)
    requires
        index < u64::MAX,
    ensures
        r@ == scenario_id@ + "-node-"@ + crate::decimal::dec_text((index + 1) as nat),
{
    let mut v = crate::text::chars_of(scenario_id);
    crate::text::append_chars(&mut v, crate::text::chars_of("-node-").as_slice());
    let n = crate::decimal::u64_text(index as u64 + 1);
    crate::text::append_chars(&mut v, n.as_slice());
    crate::text::string_from_chars(v.as_slice())
}

/// The name of the part of a scenario that a node runs.
pub fn node_scenario_name(scenario_name: &str, node_name: &str) -> (r: String)
    ensures
        r@ == scenario_name@ + " \u{b7} "@ + node_name@,
{
    let mut v = crate::text::chars_of(scenario_name);
    crate::text::append_chars(&mut v, crate::text::chars_of(" \u{b7} ").as_slice());
    crate::text::append_chars(&mut v, crate::text::chars_of(node_name).as_slice());
    crate::text::string_from_chars(v.as_slice())
}

/// Whether a profile id is among the wanted ones.
pub open spec fn wanted_broker(wanted: Seq<String>) -> spec_fn(BrokerProfile) -> bool {
    |p: BrokerProfile| text_set(wanted).contains(p.id@)
}

/// Whether a profile id is among the wanted ones.
pub open spec fn wanted_payload(wanted: Seq<String>) -> spec_fn(PayloadProfile) -> bool {
    |p: PayloadProfile| text_set(wanted).contains(p.id@)
}

/// The broker profiles a distributed run's scenario names, which must all
/// exist: the stored profiles whose id is wanted, in their order.
pub fn pick_broker_profiles(wanted: &Vec<String>, profiles: Vec<BrokerProfile>) -> (r: Result<
    Vec<BrokerProfile>,
    String,
>)
    ensures
        match r {
            Ok(v) => v@ == profiles@.filter(wanted_broker(wanted@)) && v@.len() == text_set(
                wanted@,
            ).len(),
            Err(e) => profiles@.filter(wanted_broker(wanted@)).len() != text_set(wanted@).len()
                && e@ == "scenario references a missing broker profile"@,
        },
{
    let ghost pred = wanted_broker(wanted@);
    let ghost all = profiles@;
    let total_len = profiles.len();
    let mut rest = profiles;
    let mut chosen: Vec<BrokerProfile> = Vec::new();
    let mut i: usize = 0;
    assert(all.skip(0) =~= all);
    while rest.len() > 0
        invariant
            i <= all.len(),
            i + rest@.len() == all.len(),
            all.len() == total_len,
            pred == wanted_broker(wanted@),
            rest@ == all.skip(i as int),
            chosen@ == all.take(i as int).filter(pred),
        decreases rest@.len(),
    {
        let p = rest.remove(0);
        proof {
            reveal_with_fuel(Seq::filter, 1);
            assert(all.take(i + 1).drop_last() =~= all.take(i as int));
            assert(all.skip(i as int).drop_first() =~= all.skip(i + 1));
            assert(all.take(i + 1).last() == p);
        }
        let keep = contains_text(wanted, &p.id);
        proof {
            assert(text_set(wanted@).contains(p.id@) == texts(wanted@).contains(p.id@));
        }
        if keep {
            chosen.push(p);
        }
        i = i + 1;
    }
    assert(all.take(i as int) =~= all);
    if chosen.len() != distinct_count(wanted) {
        return Err(string_of("scenario references a missing broker profile"));
    }
    Ok(chosen)
}

/// The payload profiles a distributed run's scenario names, which must all
/// exist: the stored profiles whose id is wanted, in their order.
pub fn pick_payload_profiles(wanted: &Vec<String>, profiles: Vec<PayloadProfile>) -> (r: Result<
    Vec<PayloadProfile>,
    String,
>)
    ensures
        match r {
            Ok(v) => v@ == profiles@.filter(wanted_payload(wanted@)) && v@.len() == text_set(
                wanted@,
            ).len(),
            Err(e) => profiles@.filter(wanted_payload(wanted@)).len() != text_set(wanted@).len()
                && e@ == "scenario references a missing payload profile"@,
        },
{
    let ghost pred = wanted_payload(wanted@);
    let ghost all = profiles@;
    let total_len = profiles.len();
    let mut rest = profiles;
    let mut chosen: Vec<PayloadProfile> = Vec::new();
    let mut i: usize = 0;
    assert(all.skip(0) =~= all);
    while rest.len() > 0
        invariant
            i <= all.len(),
            i + rest@.len() == all.len(),
            all.len() == total_len,
            pred == wanted_payload(wanted@),
            rest@ == all.skip(i as int),
            chosen@ == all.take(i as int).filter(pred),
        decreases rest@.len(),
    {
        let p = rest.remove(0);
        proof {
            reveal_with_fuel(Seq::filter, 1);
            assert(all.take(i + 1).drop_last() =~= all.take(i as int));
            assert(all.skip(i as int).drop_first() =~= all.skip(i + 1));
            assert(all.take(i + 1).last() == p);
        }
        let keep = contains_text(wanted, &p.id);
        proof {
            assert(text_set(wanted@).contains(p.id@) == texts(wanted@).contains(p.id@));
        }
        if keep {
            chosen.push(p);
        }
        i = i + 1;
    }
    assert(all.take(i as int) =~= all);
    if chosen.len() != distinct_count(wanted) {
        return Err(string_of("scenario references a missing payload profile"));
    }
    Ok(chosen)
}

} // verus!
