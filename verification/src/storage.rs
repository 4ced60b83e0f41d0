//! The handle on the SQLite database, and the pure rules that storage
//! applies to what it writes and reads back.

use vstd::prelude::*;
use std::hash::{Hash, Hasher};
use std::path::PathBuf;
use std::sync::Arc;
use crate::cluster::hex_digit;
use crate::model::cluster::texts;
use crate::model::legacy::{BenchSpecimen, SpecimenUpdate};
use crate::model::run::{AnnotationCategory, Run, RunStatus};
use crate::model::workload::WorkloadKind;
use crate::text::{
    append_chars, chars_of, is_blank, opt_view, push_char, str_eq, string_from_chars, trim,
    trim_chars, trimmed,
};

verus! {

#[verifier::external_type_specification]
#[verifier::external_body]
pub struct ExPathBuf(PathBuf);

/// `<PathBuf as Clone>::clone`, which the derived `Clone` of payload kinds
/// calls: std documents the clone of a path as an equal path.
pub assume_specification[ <PathBuf as Clone>::clone ](path: &PathBuf) -> (r: PathBuf)
    ensures
        r == *path,
;

/// Where the database lives; the queries are run by the service around the
/// library.
#[derive(Debug, Clone)]
pub struct Storage {
    path: Arc<PathBuf>,
}

impl Storage {
    /// The database file this handle opens.
    pub closed spec fn db_path(&self) -> PathBuf {
        *self.path
    }

    /// A handle on the database file at `path`.
    pub fn at_path(path: PathBuf) -> (r: Storage)
        ensures
            r.db_path() == path,
    {
        Storage { path: Arc::new(path) }
    }

    /// The database file.
    pub fn path(&self) -> (r: &PathBuf)
        ensures
            *r == self.db_path(),
    {
        &self.path
    }
}

/// What is left of some tags once each is trimmed and the blank ones are
/// dropped, in their order.
pub open spec fn kept_tags(v: Seq<Seq<char>>) -> Seq<Seq<char>>
    decreases v.len(),
{
    if v.len() == 0 {
        seq![]
    } else if is_blank(v.last()) {
        kept_tags(v.drop_last())
    } else {
        kept_tags(v.drop_last()).push(trim(v.last()))
    }
}

/// The first `n` items of `s`, or all of them when there are fewer.
pub open spec fn at_most<A>(s: Seq<A>, n: nat) -> Seq<A> {
    if s.len() <= n {
        s
    } else {
        s.take(n as int)
    }
}

/// The most tags a run, specimen or template keeps.
pub const MAX_TAGS: usize = 32;

/// Tags as they are stored: trimmed, the blank ones dropped, the first
/// [`MAX_TAGS`] kept.
pub open spec fn clean_tags(v: Seq<Seq<char>>) -> Seq<Seq<char>> {
    at_most(kept_tags(v), MAX_TAGS as nat)
}

proof fn lemma_kept_tags_clean(v: Seq<Seq<char>>)
    ensures
        forall|i: int|
            0 <= i < kept_tags(v).len() ==> !is_blank(#[trigger] kept_tags(v)[i]) && trim(
                kept_tags(v)[i],
            ) == kept_tags(v)[i],
    decreases v.len(),
{
    if v.len() > 0 {
        lemma_kept_tags_clean(v.drop_last());
        crate::text::lemma_trim_idempotent(v.last());
        let prev = kept_tags(v.drop_last());
        if !is_blank(v.last()) {
            let t = trim(v.last());
            assert(!is_blank(t));
            assert forall|i: int|
                0 <= i < prev.push(t).len() implies !is_blank(#[trigger] prev.push(t)[i]) && trim(
                prev.push(t)[i],
            ) == prev.push(t)[i] by {
                if i < prev.len() {
                    assert(prev.push(t)[i] == prev[i]);
                }
            }
        }
    }
}

proof fn lemma_kept_tags_fixed(w: Seq<Seq<char>>)
    requires
        forall|i: int| 0 <= i < w.len() ==> !is_blank(#[trigger] w[i]) && trim(w[i]) == w[i],
    ensures
        kept_tags(w) == w,
    decreases w.len(),
{
    if w.len() > 0 {
        lemma_kept_tags_fixed(w.drop_last());
        assert(!is_blank(w[w.len() - 1]));
        assert(w.drop_last().push(w.last()) =~= w);
    }
}

/// Cleaning tags that were cleaned already changes nothing.
pub proof fn lemma_clean_tags_idempotent(v: Seq<Seq<char>>)
    ensures
        clean_tags(clean_tags(v)) == clean_tags(v),
        clean_tags(v).len() <= MAX_TAGS,
{
    lemma_kept_tags_clean(v);
    let k = kept_tags(v);
    let c = clean_tags(v);
    assert forall|i: int| 0 <= i < c.len() implies !is_blank(#[trigger] c[i]) && trim(c[i]) == c[i] by {
        assert(c[i] == k[i]);
    }
    lemma_kept_tags_fixed(c);
}

/// Trims the tags, drops the blank ones and keeps the first [`MAX_TAGS`].
pub fn normalize_tags(tags: Vec<String>) -> (r: Vec<String>)
    ensures
        texts(r@) == clean_tags(texts(tags@)),
{
    let mut out: Vec<String> = Vec::new();
    let mut i: usize = 0;
    while i < tags.len()
        invariant
            i <= tags@.len(),
            texts(out@) == kept_tags(texts(tags@).take(i as int)),
        decreases tags@.len() - i,
    {
        let cs = chars_of(tags[i].as_str());
        let t = trim_chars(cs.as_slice());
        let ghost before = out@;
        assert(texts(tags@).take(i + 1).drop_last() =~= texts(tags@).take(i as int));
        if t.len() > 0 {
            out.push(string_from_chars(t.as_slice()));
            assert(texts(out@) =~= texts(before).push(trim(tags@[i as int]@)));
        }
        i = i + 1;
    }
    assert(texts(tags@).take(tags@.len() as int) =~= texts(tags@));
    if out.len() > MAX_TAGS {
        out.truncate(MAX_TAGS);
        assert(texts(out@) =~= kept_tags(texts(tags@)).take(MAX_TAGS as int));
    }
    out
}

/// The name under which a run status is stored.
pub open spec fn run_status_name(status: RunStatus) -> Seq<char> {
    match status {
        RunStatus::Pending => "pending"@,
        RunStatus::Running => "running"@,
        RunStatus::Completed => "completed"@,
        RunStatus::Stopped => "stopped"@,
        RunStatus::Failed => "failed"@,
    }
}

/// The run status a stored name denotes; an unknown name reads as failed.
pub open spec fn run_status_named(name: Seq<char>) -> RunStatus {
    if name == "pending"@ {
        RunStatus::Pending
    } else if name == "running"@ {
        RunStatus::Running
    } else if name == "completed"@ {
        RunStatus::Completed
    } else if name == "stopped"@ {
        RunStatus::Stopped
    } else {
        RunStatus::Failed
    }
}

pub fn run_status_as_str(status: &RunStatus) -> (r: &'static str)
    ensures
        r@ == run_status_name(*status),
{
    match status {
        RunStatus::Pending => "pending",
        RunStatus::Running => "running",
        RunStatus::Completed => "completed",
        RunStatus::Stopped => "stopped",
        RunStatus::Failed => "failed",
    }
}

pub fn parse_run_status(status: &str) -> (r: RunStatus)
    ensures
        r == run_status_named(status@),
{
    if str_eq(status, "pending") {
        RunStatus::Pending
    } else if str_eq(status, "running") {
        RunStatus::Running
    } else if str_eq(status, "completed") {
        RunStatus::Completed
    } else if str_eq(status, "stopped") {
        RunStatus::Stopped
    } else {
        RunStatus::Failed
    }
}

/// Reading back the stored name of a run status gives the status.
pub proof fn lemma_run_status_round_trip(status: RunStatus)
    ensures
        run_status_named(run_status_name(status)) == status,
{
    reveal_strlit("pending");
    reveal_strlit("running");
    reveal_strlit("completed");
    reveal_strlit("stopped");
    reveal_strlit("failed");
    assert("pending"@[0] != "running"@[0]);
    assert("pending"@[0] != "completed"@[0]);
    assert("pending"@[0] != "stopped"@[0]);
    assert("running"@[0] != "completed"@[0]);
    assert("running"@[0] != "stopped"@[0]);
    assert("completed"@[0] != "stopped"@[0]);
    assert("failed"@[0] != "pending"@[0]);
    assert("failed"@[0] != "running"@[0]);
    assert("failed"@[0] != "completed"@[0]);
    assert("failed"@[0] != "stopped"@[0]);
}

/// The name under which a workload kind is stored.
pub open spec fn workload_kind_name(kind: WorkloadKind) -> Seq<char> {
    match kind {
        WorkloadKind::Pub => "pub"@,
        WorkloadKind::Sub => "sub"@,
        WorkloadKind::Conn => "conn"@,
    }
}

/// The workload kind a stored name denotes; an unknown name reads as pub.
pub open spec fn workload_kind_named(name: Seq<char>) -> WorkloadKind {
    if name == "sub"@ {
        WorkloadKind::Sub
    } else if name == "conn"@ {
        WorkloadKind::Conn
    } else {
        WorkloadKind::Pub
    }
}

pub fn workload_kind_as_str(kind: &WorkloadKind) -> (r: &'static str)
    ensures
        r@ == workload_kind_name(*kind),
{
    match kind {
        WorkloadKind::Pub => "pub",
        WorkloadKind::Sub => "sub",
        WorkloadKind::Conn => "conn",
    }
}

pub fn parse_workload_kind(kind: &str) -> (r: WorkloadKind)
    ensures
        r == workload_kind_named(kind@),
{
    if str_eq(kind, "sub") {
        WorkloadKind::Sub
    } else if str_eq(kind, "conn") {
        WorkloadKind::Conn
    } else {
        WorkloadKind::Pub
    }
}

/// Reading back the stored name of a workload kind gives the kind.
pub proof fn lemma_workload_kind_round_trip(kind: WorkloadKind)
    ensures
        workload_kind_named(workload_kind_name(kind)) == kind,
{
    reveal_strlit("pub");
    reveal_strlit("sub");
    reveal_strlit("conn");
    assert("pub"@[0] != "sub"@[0]);
    assert("pub"@[0] != "conn"@[0]);
    assert("sub"@[0] != "conn"@[0]);
}

/// The name under which an annotation category is stored.
pub open spec fn annotation_category_name(category: AnnotationCategory) -> Seq<char> {
    match category {
        AnnotationCategory::Manual => "manual"@,
        AnnotationCategory::BrokerEvent => "broker_event"@,
        AnnotationCategory::SlaBreach => "sla_breach"@,
        AnnotationCategory::ConfigChange => "config_change"@,
    }
}

/// The category a stored name denotes; an unknown name reads as manual.
pub open spec fn annotation_category_named(name: Seq<char>) -> AnnotationCategory {
    if name == "broker_event"@ {
        AnnotationCategory::BrokerEvent
    } else if name == "sla_breach"@ {
        AnnotationCategory::SlaBreach
    } else if name == "config_change"@ {
        AnnotationCategory::ConfigChange
    } else {
        AnnotationCategory::Manual
    }
}

pub fn annotation_category_as_str(category: &AnnotationCategory) -> (r: &'static str)
    ensures
        r@ == annotation_category_name(*category),
{
    match category {
        AnnotationCategory::Manual => "manual",
        AnnotationCategory::BrokerEvent => "broker_event",
        AnnotationCategory::SlaBreach => "sla_breach",
        AnnotationCategory::ConfigChange => "config_change",
    }
}

pub fn parse_annotation_category(category: &str) -> (r: AnnotationCategory)
    ensures
        r == annotation_category_named(category@),
{
    if str_eq(category, "broker_event") {
        AnnotationCategory::BrokerEvent
    } else if str_eq(category, "sla_breach") {
        AnnotationCategory::SlaBreach
    } else if str_eq(category, "config_change") {
        AnnotationCategory::ConfigChange
    } else {
        AnnotationCategory::Manual
    }
}

/// Reading back the stored name of an annotation category gives the category.
pub proof fn lemma_annotation_category_round_trip(category: AnnotationCategory)
    ensures
        annotation_category_named(annotation_category_name(category)) == category,
{
    reveal_strlit("manual");
    reveal_strlit("broker_event");
    reveal_strlit("sla_breach");
    reveal_strlit("config_change");
    assert("manual"@[0] != "broker_event"@[0]);
    assert("manual"@[0] != "sla_breach"@[0]);
    assert("manual"@[0] != "config_change"@[0]);
    assert("broker_event"@[0] != "sla_breach"@[0]);
    assert("broker_event"@[0] != "config_change"@[0]);
    assert("sla_breach"@[0] != "config_change"@[0]);
}

fn prefixed(prefix: &str, value: &str) -> (r: String)
    ensures
        r@ == prefix@ + value@,
{
    let mut v = chars_of(prefix);
    let w = chars_of(value);
    append_chars(&mut v, w.as_slice());
    string_from_chars(v.as_slice())
}

/// The id of the run workload that stands for a run recorded before
/// workloads existed.
pub fn legacy_run_workload_id(run_id: &str) -> (r: String)
    ensures
        r@ == "legacy-run-workload-"@ + run_id@,
{
    prefixed("legacy-run-workload-", run_id)
}

/// The id of the workload that stands for such a run's configuration.
pub fn legacy_workload_id(run_id: &str) -> (r: String)
    ensures
        r@ == "legacy-workload-"@ + run_id@,
{
    prefixed("legacy-workload-", run_id)
}

/// `n` written as `digits` lower-case hex digits, zero-padded on the left
/// (the low `4 * digits` bits of `n`).
pub open spec fn hex_fixed(n: nat, digits: nat) -> Seq<char>
    decreases digits,
{
    if digits == 0 {
        seq![]
    } else {
        hex_fixed(n / 16, (digits - 1) as nat).push(hex_digit(n % 16))
    }
}

/// `<str as std::hash::Hash>::hash`: feeds a string slice to a hasher. std
/// does not document which bytes it writes, so nothing is stated of the
/// hasher's state after it.
#[verifier::external_body]
pub(crate) fn hash_str(value: &str, hasher: &mut std::collections::hash_map::DefaultHasher) {
    value.hash(hasher);
}

/// The hash of a string slice from a fresh `DefaultHasher`. The algorithm is
/// not fixed by std's documentation, so nothing is stated of the value.
fn default_hash(value: &str) -> u64 {
    let mut hasher = std::collections::hash_map::DefaultHasher::new();
    hash_str(value, &mut hasher);
    hasher.finish()
}

/// An id made of a prefix and a 64-bit hash: `{prefix}-{hash:016x}`.
pub fn id_from_hash(prefix: &str, hash: u64) -> (r: String)
    ensures
        r@ == prefix@ + seq!['-'] + hex_fixed(hash as nat, 16),
{
    let mut digits: Vec<char> = Vec::new();
    let mut rest: u64 = hash;
    let mut k: usize = 0;
    while k < 16
        invariant
            k <= 16,
            hex_fixed(hash as nat, 16) == hex_fixed(rest as nat, (16 - k) as nat) + digits@,
        decreases 16 - k,
    {
        let d: u8 = (rest % 16) as u8;
        let c: char = if d < 10 {
            (48u8 + d) as char
        } else {
            (87u8 + d) as char
        };
        let ghost before = digits@;
        digits.insert(0, c);
        assert(hex_fixed(rest as nat, (16 - k) as nat) + before =~= hex_fixed(
            (rest / 16) as nat,
            (16 - k - 1) as nat,
        ) + digits@);
        rest = rest / 16;
        k = k + 1;
    }
    let mut out = chars_of(prefix);
    out.push('-');
    append_chars(&mut out, digits.as_slice());
    assert(hex_fixed(rest as nat, 0) =~= Seq::<char>::empty());
    string_from_chars(out.as_slice())
}

/// A deterministic id for a stored value: its prefix and the hash of the
/// value, as [`id_from_hash`] writes them.
pub fn stable_id(prefix: &str, value: &str) -> (r: String)
    ensures
        exists|hash: u64| r@ == prefix@ + seq!['-'] + #[trigger] hex_fixed(hash as nat, 16),
{
    let hash = default_hash(value);
    id_from_hash(prefix, hash)
}

/// A name after an edit: a non-blank new name, trimmed, replaces it.
pub open spec fn edited_name(old: Seq<char>, name: Option<Seq<char>>) -> Seq<char> {
    match name {
        Some(n) => if is_blank(n) {
            old
        } else {
            trim(n)
        },
        None => old,
    }
}

/// A description after an edit: a new one, trimmed, replaces it.
pub open spec fn edited_description(old: Seq<char>, description: Option<Seq<char>>) -> Seq<char> {
    match description {
        Some(d) => trim(d),
        None => old,
    }
}

/// Tags after an edit: new tags, cleaned, replace them.
pub open spec fn edited_tags(old: Seq<Seq<char>>, tags: Option<Seq<Seq<char>>>) -> Seq<Seq<char>> {
    match tags {
        Some(t) => clean_tags(t),
        None => old,
    }
}

/// The texts of optional tags.
pub open spec fn opt_texts(tags: Option<Vec<String>>) -> Option<Seq<Seq<char>>> {
    match tags {
        Some(t) => Some(texts(t@)),
        None => None,
    }
}

/// `new` is run `old` after an operator's edit of its name, description
/// and tags; nothing else changes.
pub open spec fn run_edited(
    old: Run,
    new: Run,
    name: Option<Seq<char>>,
    description: Option<Seq<char>>,
    tags: Option<Seq<Seq<char>>>,
) -> bool {
    &&& new.name@ == edited_name(old.name@, name)
    &&& new.description@ == edited_description(old.description@, description)
    &&& texts(new.tags@) == edited_tags(texts(old.tags@), tags)
    &&& new == (Run { name: new.name, description: new.description, tags: new.tags, ..old })
}

/// Applies an operator's edit of a run's name, description and tags.
pub fn edit_run_metadata(
    run: &mut Run,
    name: Option<String>,
    description: Option<String>,
    tags: Option<Vec<String>>,
)
    ensures
        run_edited(
            *old(run),
            *final(run),
            opt_view(name),
            opt_view(description),
            opt_texts(tags),
        ),
{
    if let Some(n) = name {
        if !crate::text::blank(n.as_str()) {
            run.name = trimmed(n.as_str());
        }
    }
    if let Some(d) = description {
        run.description = trimmed(d.as_str());
    }
    if let Some(t) = tags {
        run.tags = normalize_tags(t);
    }
}

/// Applies an operator's change to a saved specimen: a non-blank name
/// (trimmed), a description (trimmed) and tags (cleaned) replace what the
/// specimen had; nothing else changes.
pub fn edit_specimen(specimen: &mut BenchSpecimen, update: SpecimenUpdate)
    ensures
        final(specimen).name@ == edited_name(old(specimen).name@, opt_view(update.name)),
        final(specimen).description@ == edited_description(
            old(specimen).description@,
            opt_view(update.description),
        ),
        texts(final(specimen).tags@) == edited_tags(
            texts(old(specimen).tags@),
            opt_texts(update.tags),
        ),
        *final(specimen) == (BenchSpecimen {
            name: final(specimen).name,
            description: final(specimen).description,
            tags: final(specimen).tags,
            ..*old(specimen)
        }),
{
    if let Some(n) = update.name {
        if !crate::text::blank(n.as_str()) {
            specimen.name = trimmed(n.as_str());
        }
    }
    if let Some(d) = update.description {
        specimen.description = trimmed(d.as_str());
    }
    if let Some(t) = update.tags {
        specimen.tags = normalize_tags(t);
    }
}

} // verus!
