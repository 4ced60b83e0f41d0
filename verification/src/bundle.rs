//! Bundles of runs, scenarios and profiles moved between installations:
//! what an export request may ask for, how an import decides for each item
//! whether to keep, rename or overwrite it, and how the ids that point at
//! renamed items are rewritten.

use vstd::prelude::*;
use crate::console::{
    broker_profile_renamed, conflict_named, is_byte_prefix, new_uuid, payload_profile_renamed,
    rename_broker_profile, rename_payload_profile, suffix_bytes, BundleConflict,
};
use crate::model::broker::BrokerProfile;
use crate::model::payload::PayloadProfile;
use crate::model::time::UtcTimestamp;
use crate::cluster::text_set;
use crate::model::cluster::{contains_text, texts};
use crate::model::run::{Annotation, Run, RunWorkload};
use crate::text::{
    append_chars, ascii_lower_all, ascii_lower_chars, chars_of, contains_chars, contains_seq,
    opt_view, str_eq, string_from_chars, string_of,
};

verus! {

/// The map that a list of (old id, new id) entries stands for; a later
/// entry for an id replaces an earlier one.
pub open spec fn map_of(entries: Seq<(String, String)>) -> Map<Seq<char>, Seq<char>>
    decreases entries.len(),
{
    if entries.len() == 0 {
        Map::empty()
    } else {
        map_of(entries.drop_last()).insert(entries.last().0@, entries.last().1@)
    }
}

/// The id that `id` is imported under: its new id when `m` has one, else
/// itself.
pub open spec fn remapped(m: Map<Seq<char>, Seq<char>>, id: Seq<char>) -> Seq<char> {
    if m.contains_key(id) {
        m[id]
    } else {
        id
    }
}

/// An optional id, remapped when present.
pub open spec fn opt_remapped(m: Map<Seq<char>, Seq<char>>, id: Option<Seq<char>>) -> Option<
    Seq<char>,
> {
    match id {
        Some(i) => Some(remapped(m, i)),
        None => None,
    }
}

proof fn lemma_map_of_tail(e: Seq<(String, String)>, i: int, id: Seq<char>)
    requires
        0 <= i <= e.len(),
        forall|j: int| i <= j < e.len() ==> (#[trigger] e[j]).0@ != id,
    ensures
        map_of(e).contains_key(id) == map_of(e.take(i)).contains_key(id),
        map_of(e).contains_key(id) ==> map_of(e)[id] == map_of(e.take(i))[id],
    decreases e.len(),
{
    if i == e.len() {
        assert(e.take(i) =~= e);
    } else {
        assert(e[e.len() - 1].0@ != id);
        lemma_map_of_tail(e.drop_last(), i, id);
        assert(e.drop_last().take(i) =~= e.take(i));
    }
}

/// Old ids and the ids they were imported under.
pub struct IdMap {
    entries: Vec<(String, String)>,
}

impl View for IdMap {
    type V = Map<Seq<char>, Seq<char>>;

    closed spec fn view(&self) -> Map<Seq<char>, Seq<char>> {
        map_of(self.entries@)
    }
}

impl IdMap {
    /// A map with no ids.
    pub fn new() -> (r: IdMap)
        ensures
            r@ == Map::<Seq<char>, Seq<char>>::empty(),
    {
        IdMap { entries: Vec::new() }
    }

    /// Records that `from` is imported as `to`.
    pub fn insert(&mut self, from: String, to: String)
        ensures
            final(self)@ == old(self)@.insert(from@, to@),
    {
        let ghost before = self.entries@;
        self.entries.push((from, to));
        assert(self.entries@.drop_last() =~= before);
    }

    /// The id `id` was imported as, if it was.
    pub fn get(&self, id: &str) -> (r: Option<String>)
        ensures
            match r {
                Some(v) => self@.contains_key(id@) && v@ == self@[id@],
                None => !self@.contains_key(id@),
            },
    {
        let e = &self.entries;
        let mut i: usize = e.len();
        while i > 0
            invariant
                i <= e@.len(),
                self@ == map_of(e@),
                forall|j: int| i <= j < e@.len() ==> (#[trigger] e@[j]).0@ != id@,
            decreases i,
        {
            if str_eq(e[i - 1].0.as_str(), id) {
                proof {
                    lemma_map_of_tail(e@, i as int, id@);
                    assert(e@.take(i as int).drop_last() =~= e@.take(i - 1));
                    assert(e@.take(i as int).last() == e@[i - 1]);
                    let t = e@.take(i as int);
                    assert(map_of(t) == map_of(t.drop_last()).insert(t.last().0@, t.last().1@));
                    assert(map_of(t).contains_key(id@));
                    assert(map_of(t)[id@] == e@[i - 1].1@);
                }
                let v = string_of(e[i - 1].1.as_str());
                assert(v@ == e@[i - 1].1@);
                return Some(v);
            }
            i = i - 1;
        }
        proof {
            lemma_map_of_tail(e@, 0, id@);
            assert(e@.take(0) =~= Seq::<(String, String)>::empty());
        }
        None
    }

    /// The id that `id` is imported under.
    pub fn remap(&self, id: &str) -> (r: String)
        ensures
            r@ == remapped(self@, id@),
    {
        match self.get(id) {
            Some(v) => v,
            None => string_of(id),
        }
    }
}

/// A read of an id after it was recorded gives what was recorded, and the
/// other ids keep what they had.
pub proof fn lemma_remapped_after_insert(
    m: Map<Seq<char>, Seq<char>>,
    from: Seq<char>,
    to: Seq<char>,
    other: Seq<char>,
)
    requires
        other != from,
    ensures
        remapped(m.insert(from, to), from) == to,
        remapped(m.insert(from, to), other) == remapped(m, other),
{
}

/// The ids an import has rewritten so far, by kind of item.
pub struct BundleIdMap {
    pub brokers: IdMap,
    pub payloads: IdMap,
    pub scenarios: IdMap,
    pub runs: IdMap,
    pub run_workloads: IdMap,
}

impl BundleIdMap {
    /// No id rewritten yet.
    pub fn new() -> (r: BundleIdMap)
        ensures
            r.brokers@ == Map::<Seq<char>, Seq<char>>::empty(),
            r.payloads@ == Map::<Seq<char>, Seq<char>>::empty(),
            r.scenarios@ == Map::<Seq<char>, Seq<char>>::empty(),
            r.runs@ == Map::<Seq<char>, Seq<char>>::empty(),
            r.run_workloads@ == Map::<Seq<char>, Seq<char>>::empty(),
    {
        BundleIdMap {
            brokers: IdMap::new(),
            payloads: IdMap::new(),
            scenarios: IdMap::new(),
            runs: IdMap::new(),
            run_workloads: IdMap::new(),
        }
    }
}

/// The only bundle version this service reads.
pub fn check_bundle_version(version: &str) -> (r: Result<(), String>)
    ensures
        match r {
            Ok(()) => version@ == "1.0"@,
            Err(e) => version@ != "1.0"@ && e@ == "unsupported bundle version "@ + version@,
        },
{
    if str_eq(version, "1.0") {
        Ok(())
    } else {
        let mut m = chars_of("unsupported bundle version ");
        append_chars(&mut m, chars_of(version).as_slice());
        Err(string_from_chars(m.as_slice()))
    }
}

/// The conflict policy of an import, `skip` when none is named.
pub fn conflict_policy(value: Option<&str>) -> (r: Result<BundleConflict, String>)
    ensures
        match conflict_named(
            match value {
                Some(v) => Some(v@),
                None => None,
            },
        ) {
            Some(c) => r == Ok::<BundleConflict, String>(c),
            None => r matches Err(e) && e@ == "conflict must be skip, rename, or overwrite"@,
        },
{
    match BundleConflict::parse(value) {
        Some(c) => Ok(c),
        None => Err(string_of("conflict must be skip, rename, or overwrite")),
    }
}

/// What an import does with a profile or a scenario of the bundle.
#[derive(Debug, Clone, Copy, PartialEq, Eq, Structural)]
pub enum ItemImport {
    /// Leave the stored item with the same id as it is, and point at it.
    KeepExisting,
    /// Store the item under a new id and a marked name.
    Rename,
    /// Store the item under its own id, over any stored one.
    Write,
}

/// The action for an item, by the conflict policy and whether an item with
/// its id is stored already.
pub open spec fn item_import(conflict: BundleConflict, exists: bool) -> ItemImport {
    if conflict == BundleConflict::Skip && exists {
        ItemImport::KeepExisting
    } else if conflict == BundleConflict::Rename {
        ItemImport::Rename
    } else {
        ItemImport::Write
    }
}

pub fn item_import_action(conflict: BundleConflict, exists: bool) -> (r: ItemImport)
    ensures
        r == item_import(conflict, exists),
{
    if conflict == BundleConflict::Skip && exists {
        ItemImport::KeepExisting
    } else if conflict == BundleConflict::Rename {
        ItemImport::Rename
    } else {
        ItemImport::Write
    }
}

/// What an import does with a run of the bundle.
#[derive(Debug, Clone, Copy, PartialEq, Eq, Structural)]
pub enum RunImport {
    /// Leave the stored run as it is, and point at it.
    KeepExisting,
    /// Delete the stored run, then store this one under the same id.
    Overwrite,
    /// Store the run under a fresh id.
    NewId,
    /// Store the run under its own id.
    SameId,
}

/// The action for a run, by the conflict policy and whether a run with its
/// id is stored already.
pub open spec fn run_import(conflict: BundleConflict, exists: bool) -> RunImport {
    if exists {
        match conflict {
            BundleConflict::Skip => RunImport::KeepExisting,
            BundleConflict::Overwrite => RunImport::Overwrite,
            BundleConflict::Rename => RunImport::NewId,
        }
    } else if conflict == BundleConflict::Rename {
        RunImport::NewId
    } else {
        RunImport::SameId
    }
}

pub fn run_import_action(conflict: BundleConflict, exists: bool) -> (r: RunImport)
    ensures
        r == run_import(conflict, exists),
{
    if exists {
        match conflict {
            BundleConflict::Skip => RunImport::KeepExisting,
            BundleConflict::Overwrite => RunImport::Overwrite,
            BundleConflict::Rename => RunImport::NewId,
        }
    } else if conflict == BundleConflict::Rename {
        RunImport::NewId
    } else {
        RunImport::SameId
    }
}

/// `prefix` and a fresh UUID.
fn fresh_prefixed(prefix: &str) -> (r: String)
    ensures
        prefix@.is_prefix_of(r@),
        r@.len() == prefix@.len() + 36,
{
    let mut v = chars_of(prefix);
    let ghost p = v@;
    let id = new_uuid();
    append_chars(&mut v, chars_of(id.as_str()).as_slice());
    assert(v@.take(p.len() as int) =~= p);
    string_from_chars(v.as_slice())
}

/// A fresh id for an imported run: `run-` and a UUID.
pub fn new_imported_run_id() -> (r: String)
    ensures
        "run-"@.is_prefix_of(r@),
        r@.len() == 40,
{
    proof {
        reveal_strlit("run-");
    }
    fresh_prefixed("run-")
}

/// Rewrites an id through `map`.
pub fn remap_id(id: &mut String, map: &IdMap)
    ensures
        final(id)@ == remapped(map@, old(id)@),
{
    let r = map.remap(id.as_str());
    *id = r;
}

/// Rewrites an optional id through `map`.
pub fn remap_optional_id(id: &mut Option<String>, map: &IdMap)
    ensures
        opt_view(*final(id)) == opt_remapped(map@, opt_view(*old(id))),
{
    let r = match id {
        Some(v) => Some(map.remap(v.as_str())),
        None => None,
    };
    *id = r;
}

/// Points a workload at the profiles its broker and payload were imported
/// as.
pub fn remap_profile_refs(
    broker_profile_id: &mut String,
    payload_profile_id: &mut Option<String>,
    ids: &BundleIdMap,
)
    ensures
        final(broker_profile_id)@ == remapped(ids.brokers@, old(broker_profile_id)@),
        opt_view(*final(payload_profile_id)) == opt_remapped(
            ids.payloads@,
            opt_view(*old(payload_profile_id)),
        ),
{
    remap_id(broker_profile_id, &ids.brokers);
    remap_optional_id(payload_profile_id, &ids.payloads);
}

/// The ids that `keys` are recorded under, entry by entry, on top of `m`.
pub open spec fn recorded(
    m: Map<Seq<char>, Seq<char>>,
    keys: Seq<Seq<char>>,
    values: Seq<Seq<char>>,
) -> Map<Seq<char>, Seq<char>>
    decreases keys.len(),
{
    if keys.len() == 0 || values.len() != keys.len() {
        m
    } else {
        recorded(m, keys.drop_last(), values.drop_last()).insert(keys.last(), values.last())
    }
}

/// The ids of some run workloads.
pub open spec fn workload_ids(w: Seq<RunWorkload>) -> Seq<Seq<char>> {
    w.map_values(|x: RunWorkload| x.id@)
}

/// `new` is workload `old` of a run imported as `run_id`: it belongs to
/// that run, keeps its id when it belonged to it already and takes a fresh
/// `rw-` id otherwise, and keeps everything else.
pub open spec fn workload_moved(old: RunWorkload, new: RunWorkload, run_id: Seq<char>) -> bool {
    &&& new.run_id@ == run_id
    &&& old.run_id@ == run_id ==> new.id@ == old.id@
    &&& old.run_id@ != run_id ==> "rw-"@.is_prefix_of(new.id@) && new.id@.len() == 39
    &&& new.workload_id@ == old.workload_id@
    &&& new.kind == old.kind
    &&& new.config_snapshot_json@ == old.config_snapshot_json@
}

/// Rewrites a run of a bundle as it is imported under `run_id`: the run
/// takes the id, its scenario links follow the imported scenarios, and its
/// workloads move to the run, each recorded under the id it now has. The
/// configuration snapshots are left to the caller, who reads them.
#[verifier::rlimit(30)]
pub fn remap_run(run: &mut Run, ids: &mut BundleIdMap, run_id: &str)
    ensures
        final(run).id@ == run_id@,
        opt_view(final(run).scenario_id) == opt_remapped(
            old(ids).scenarios@,
            opt_view(old(run).scenario_id),
        ),
        opt_view(final(run).baseline_of_scenario_id) == opt_remapped(
            old(ids).scenarios@,
            opt_view(old(run).baseline_of_scenario_id),
        ),
        final(run).name == old(run).name,
        final(run).tags == old(run).tags,
        final(run).description == old(run).description,
        final(run).status == old(run).status,
        final(run).started_at == old(run).started_at,
        final(run).stopped_at == old(run).stopped_at,
        final(run).workloads@.len() == old(run).workloads@.len(),
        forall|i: int|
            0 <= i < old(run).workloads@.len() ==> workload_moved(
                #[trigger] old(run).workloads@[i],
                final(run).workloads@[i],
                run_id@,
            ),
        final(ids).run_workloads@ == recorded(
            old(ids).run_workloads@,
            workload_ids(old(run).workloads@),
            workload_ids(final(run).workloads@),
        ),
        final(ids).brokers@ == old(ids).brokers@,
        final(ids).payloads@ == old(ids).payloads@,
        final(ids).scenarios@ == old(ids).scenarios@,
        final(ids).runs@ == old(ids).runs@,
{
    run.id = string_of(run_id);
    remap_optional_id(&mut run.scenario_id, &ids.scenarios);
    remap_optional_id(&mut run.baseline_of_scenario_id, &ids.scenarios);
    let mut old_workloads: Vec<RunWorkload> = Vec::new();
    std::mem::swap(&mut old_workloads, &mut run.workloads);
    let mut moved: Vec<RunWorkload> = Vec::new();
    let ghost start = ids.run_workloads@;
    let mut i: usize = 0;
    while i < old_workloads.len()
        invariant
            i <= old_workloads@.len(),
            moved@.len() == i,
            forall|k: int|
                0 <= k < i ==> workload_moved(
                    #[trigger] old_workloads@[k],
                    moved@[k],
                    run_id@,
                ),
            ids.run_workloads@ == recorded(
                start,
                workload_ids(old_workloads@.take(i as int)),
                workload_ids(moved@),
            ),
            ids.brokers@ == old(ids).brokers@,
            ids.payloads@ == old(ids).payloads@,
            ids.scenarios@ == old(ids).scenarios@,
            ids.runs@ == old(ids).runs@,
        decreases old_workloads@.len() - i,
    {
        let w = &old_workloads[i];
        let new_id = if str_eq(w.run_id.as_str(), run_id) {
            string_of(w.id.as_str())
        } else {
            proof {
                reveal_strlit("rw-");
            }
            fresh_prefixed("rw-")
        };
        let ghost keys0 = workload_ids(old_workloads@.take(i as int));
        let ghost vals0 = workload_ids(moved@);
        ids.run_workloads.insert(string_of(w.id.as_str()), string_of(new_id.as_str()));
        moved.push(
            RunWorkload {
                id: new_id,
                run_id: string_of(run_id),
                workload_id: string_of(w.workload_id.as_str()),
                kind: w.kind,
                config_snapshot_json: string_of(w.config_snapshot_json.as_str()),
            },
        );
        proof {
            let keys1 = workload_ids(old_workloads@.take(i + 1));
            let vals1 = workload_ids(moved@);
            assert(keys1.drop_last() =~= keys0);
            assert(vals1.drop_last() =~= vals0);
            assert(keys1.last() == old_workloads@[i as int].id@);
            assert(vals1.last() == moved@[i as int].id@);
        }
        i = i + 1;
    }
    assert(old_workloads@.take(old_workloads@.len() as int) =~= old_workloads@);
    run.workloads = moved;
}

/// Rewrites an annotation of an imported run: a fresh `annotation-` id when
/// the import renames, and its run and workload links through the ids
/// recorded so far.
pub fn remap_annotation(annotation: &mut Annotation, ids: &BundleIdMap, conflict: BundleConflict)
    ensures
        conflict == BundleConflict::Rename ==> "annotation-"@.is_prefix_of(final(annotation).id@)
            && final(annotation).id@.len() == 47,
        conflict != BundleConflict::Rename ==> final(annotation).id == old(annotation).id,
        final(annotation).run_id@ == remapped(ids.runs@, old(annotation).run_id@),
        opt_view(final(annotation).run_workload_id) == opt_remapped(
            ids.run_workloads@,
            opt_view(old(annotation).run_workload_id),
        ),
        final(annotation).ts == old(annotation).ts,
        final(annotation).category == old(annotation).category,
        final(annotation).title == old(annotation).title,
        final(annotation).detail == old(annotation).detail,
{
    if conflict == BundleConflict::Rename {
        proof {
            reveal_strlit("annotation-");
        }
        annotation.id = fresh_prefixed("annotation-");
    }
    remap_id(&mut annotation.run_id, &ids.runs);
    remap_optional_id(&mut annotation.run_workload_id, &ids.run_workloads);
}

/// The two forms a bundle is exported in.
#[derive(Debug, Clone, Copy, PartialEq, Eq, Structural)]
pub enum BundleFormat {
    Json,
    Zip,
}

/// The format an export request asks for, `json` when it names none.
pub open spec fn export_format(format: Option<Seq<char>>) -> Option<BundleFormat> {
    let f = match format {
        Some(f) => f,
        None => "json"@,
    };
    if f == "json"@ {
        Some(BundleFormat::Json)
    } else if f == "zip"@ {
        Some(BundleFormat::Zip)
    } else {
        None
    }
}

/// Checks an export request: it names at least one run and a known format.
pub fn check_bundle_export(run_ids: usize, format: Option<&str>) -> (r: Result<BundleFormat, String>)
    ensures
        run_ids == 0 ==> (r matches Err(e) && e@ == "run_ids is required"@),
        run_ids > 0 ==> match export_format(
            match format {
                Some(f) => Some(f@),
                None => None,
            },
        ) {
            Some(f) => r == Ok::<BundleFormat, String>(f),
            None => r matches Err(e) && e@ == "format must be json or zip"@,
        },
{
    if run_ids == 0 {
        return Err(string_of("run_ids is required"));
    }
    let f = match format {
        Some(f) => f,
        None => "json",
    };
    if str_eq(f, "json") {
        Ok(BundleFormat::Json)
    } else if str_eq(f, "zip") {
        Ok(BundleFormat::Zip)
    } else {
        Err(string_of("format must be json or zip"))
    }
}

/// The content type and the content disposition of an exported bundle.
pub fn bundle_attachment(format: BundleFormat) -> (r: (&'static str, &'static str))
    ensures
        format == BundleFormat::Zip ==> r.0@ == "application/zip"@ && r.1@
            == "attachment; filename=\"velamq-bundle.zip\""@,
        format == BundleFormat::Json ==> r.0@ == "application/json"@ && r.1@
            == "attachment; filename=\"velamq-bundle.json\""@,
{
    match format {
        BundleFormat::Zip => ("application/zip", "attachment; filename=\"velamq-bundle.zip\""),
        BundleFormat::Json => ("application/json", "attachment; filename=\"velamq-bundle.json\""),
    }
}

/// Whether an uploaded bundle is a zip archive: its content type (JSON when
/// none is given), read in lower case, says zip or octet stream, or the
/// body starts with the `PK` signature.
pub open spec fn upload_is_zip(content_type: Option<Seq<char>>, body: Seq<u8>) -> bool {
    let ct = ascii_lower_all(
        match content_type {
            Some(c) => c,
            None => "application/json"@,
        },
    );
    ||| contains_seq(ct, "application/zip"@)
    ||| contains_seq(ct, "application/octet-stream"@)
    ||| (body.len() >= 2 && body[0] == 0x50u8 && body[1] == 0x4Bu8)
}

pub fn bundle_upload_is_zip(content_type: Option<&str>, body: &[u8]) -> (r: bool)
    ensures
        r == upload_is_zip(
            match content_type {
                Some(c) => Some(c@),
                None => None,
            },
            body@,
        ),
{
    let ct = match content_type {
        Some(c) => c,
        None => "application/json",
    };
    let lowered = ascii_lower_chars(chars_of(ct).as_slice());
    let zip = chars_of("application/zip");
    let octet = chars_of("application/octet-stream");
    contains_chars(lowered.as_slice(), zip.as_slice()) || contains_chars(
        lowered.as_slice(),
        octet.as_slice(),
    ) || (body.len() >= 2 && body[0] == 0x50u8 && body[1] == 0x4Bu8)
}

/// Whether the first eight bytes of an id end on a character boundary, as
/// the name of a renamed import needs.
pub open spec fn cuttable_id(id: Seq<char>) -> bool {
    exists|k: int| is_byte_prefix(id, k, suffix_bytes(id))
}

/// Takes one broker profile of a bundle whose id is or is not stored
/// already: the profile to store, if any, with the id it was imported as
/// recorded in `ids`.
pub fn import_broker_profile(
    profile: BrokerProfile,
    conflict: BundleConflict,
    exists: bool,
    ids: &mut IdMap,
) -> (r: Option<BrokerProfile>)
    requires
        item_import(conflict, exists) == ItemImport::Rename ==> cuttable_id(profile.id@),
    ensures
        match item_import(conflict, exists) {
            ItemImport::KeepExisting => r is None && final(ids)@ == old(ids)@.insert(
                profile.id@,
                profile.id@,
            ),
            ItemImport::Write => r == Some(profile) && final(ids)@ == old(ids)@.insert(
                profile.id@,
                profile.id@,
            ),
            ItemImport::Rename => r matches Some(p) && (exists|fresh: Seq<char>, now: UtcTimestamp|
                fresh.len() == 36 && #[trigger] broker_profile_renamed(
                    profile,
                    p,
                    profile.id@,
                    fresh,
                    now,
                )) && final(ids)@ == old(ids)@.insert(profile.id@, p.id@),
        },
{
    let original_id = string_of(profile.id.as_str());
    match item_import_action(conflict, exists) {
        ItemImport::KeepExisting => {
            ids.insert(string_of(original_id.as_str()), original_id);
            None
        },
        ItemImport::Write => {
            ids.insert(string_of(original_id.as_str()), string_of(original_id.as_str()));
            Some(profile)
        },
        ItemImport::Rename => {
            let mut renamed = profile;
            rename_broker_profile(&mut renamed, original_id.as_str());
            ids.insert(original_id, string_of(renamed.id.as_str()));
            Some(renamed)
        },
    }
}

/// Takes one payload profile of a bundle whose id is or is not stored
/// already: the profile to store, if any, with the id it was imported as
/// recorded in `ids`.
pub fn import_payload_profile(
    profile: PayloadProfile,
    conflict: BundleConflict,
    exists: bool,
    ids: &mut IdMap,
) -> (r: Option<PayloadProfile>)
    requires
        item_import(conflict, exists) == ItemImport::Rename ==> cuttable_id(profile.id@),
    ensures
        match item_import(conflict, exists) {
            ItemImport::KeepExisting => r is None && final(ids)@ == old(ids)@.insert(
                profile.id@,
                profile.id@,
            ),
            ItemImport::Write => r == Some(profile) && final(ids)@ == old(ids)@.insert(
                profile.id@,
                profile.id@,
            ),
            ItemImport::Rename => r matches Some(p) && (exists|fresh: Seq<char>, now: UtcTimestamp|
                fresh.len() == 36 && #[trigger] payload_profile_renamed(
                    profile,
                    p,
                    profile.id@,
                    fresh,
                    now,
                )) && final(ids)@ == old(ids)@.insert(profile.id@, p.id@),
        },
{
    let original_id = string_of(profile.id.as_str());
    match item_import_action(conflict, exists) {
        ItemImport::KeepExisting => {
            ids.insert(string_of(original_id.as_str()), original_id);
            None
        },
        ItemImport::Write => {
            ids.insert(string_of(original_id.as_str()), string_of(original_id.as_str()));
            Some(profile)
        },
        ItemImport::Rename => {
            let mut renamed = profile;
            rename_payload_profile(&mut renamed, original_id.as_str());
            ids.insert(original_id, string_of(renamed.id.as_str()));
            Some(renamed)
        },
    }
}

/// Where an imported run goes.
#[derive(Debug, Clone, PartialEq, Eq)]
pub enum RunPlacement {
    /// The stored run stays; nothing is written.
    Skip,
    /// Store the run under `run_id`, deleting the stored run of that id
    /// first when `replace_existing`.
    Store { run_id: String, replace_existing: bool },
}

/// Decides where a run of a bundle goes, by the conflict policy and whether
/// its id is stored already, and records the id it is imported as.
pub fn place_imported_run(original_id: &str, conflict: BundleConflict, exists: bool, runs: &mut IdMap) -> (r:
    RunPlacement)
    ensures
        match run_import(conflict, exists) {
            RunImport::KeepExisting => r == RunPlacement::Skip && final(runs)@ == old(runs)@.insert(
                original_id@,
                original_id@,
            ),
            RunImport::Overwrite => r matches RunPlacement::Store { run_id, replace_existing }
                && run_id@ == original_id@ && replace_existing && final(runs)@ == old(
                runs,
            )@.insert(original_id@, original_id@),
            RunImport::SameId => r matches RunPlacement::Store { run_id, replace_existing }
                && run_id@ == original_id@ && !replace_existing && final(runs)@ == old(
                runs,
            )@.insert(original_id@, original_id@),
            RunImport::NewId => r matches RunPlacement::Store { run_id, replace_existing }
                && "run-"@.is_prefix_of(run_id@) && run_id@.len() == 40 && !replace_existing
                && final(runs)@ == old(runs)@.insert(original_id@, run_id@),
        },
{
    match run_import_action(conflict, exists) {
        RunImport::KeepExisting => {
            runs.insert(string_of(original_id), string_of(original_id));
            RunPlacement::Skip
        },
        RunImport::Overwrite => {
            runs.insert(string_of(original_id), string_of(original_id));
            RunPlacement::Store { run_id: string_of(original_id), replace_existing: true }
        },
        RunImport::SameId => {
            runs.insert(string_of(original_id), string_of(original_id));
            RunPlacement::Store { run_id: string_of(original_id), replace_existing: false }
        },
        RunImport::NewId => {
            let id = new_imported_run_id();
            runs.insert(string_of(original_id), string_of(id.as_str()));
            RunPlacement::Store { run_id: id, replace_existing: false }
        },
    }
}

/// The step of reading an entry out of a zip archive that failed.
#[derive(Debug, Clone, Copy, PartialEq, Eq, Structural)]
pub enum ZipStep {
    /// The bytes are not a readable archive.
    Open,
    /// The archive has no readable entry of that name.
    Entry,
    /// The entry could not be read as UTF-8 text.
    Read,
}

/// Why reading an entry out of a zip archive failed: the step, and the
/// error the zip crate or the reader gave.
#[derive(Debug, Clone)]
pub enum ZipReadError {
    Open(String),
    Entry(String),
    Read(String),
}

/// The step and the message of a zip read error.
pub open spec fn zip_failure(e: ZipReadError) -> (ZipStep, Seq<char>) {
    match e {
        ZipReadError::Open(m) => (ZipStep::Open, m@),
        ZipReadError::Entry(m) => (ZipStep::Entry, m@),
        ZipReadError::Read(m) => (ZipStep::Read, m@),
    }
}

/// The text of entry `name` of the zip archive `archive`, or the step that
/// failed and its error, as `zip` 2.6 reads it from memory.
pub uninterp spec fn zip_entry_text(archive: Seq<u8>, name: Seq<char>) -> Result<
    Seq<char>,
    (ZipStep, Seq<char>),
>;

/// `zip::ZipArchive::new` over the bytes in memory, then `by_name`, then
/// `Read::read_to_string` of that entry: the entry's text, or the step that
/// failed with the `Display` text of its error. What the crate reads out of
/// the bytes is the name `zip_entry_text`; the same bytes and name give the
/// same outcome.
#[verifier::external_body]
fn read_zip_entry(archive: &[u8], name: &str) -> (r: Result<String, ZipReadError>)
    ensures
        match r {
            Ok(t) => zip_entry_text(archive@, name@) == Ok::<Seq<char>, (ZipStep, Seq<char>)>(t@),
            Err(e) => zip_entry_text(archive@, name@) == Err::<Seq<char>, (ZipStep, Seq<char>)>(
                zip_failure(e),
            ),
        },
{
    let mut zip = zip::ZipArchive::new(std::io::Cursor::new(archive))
        .map_err(|e| ZipReadError::Open(e.to_string()))?;
    let mut file = zip.by_name(name).map_err(|e| ZipReadError::Entry(e.to_string()))?;
    let mut text = String::new();
    std::io::Read::read_to_string(&mut file, &mut text).map_err(|e| ZipReadError::Read(e.to_string()))?;
    Ok(text)
}

/// The JSON text of an uploaded zip bundle: its entry `bundle.json`, or
/// the import's message for the step that failed.
pub fn bundle_json_from_zip(body: &[u8]) -> (r: Result<String, String>)
    ensures
        match zip_entry_text(body@, "bundle.json"@) {
            Ok(t) => r matches Ok(s) && s@ == t,
            Err((ZipStep::Open, m)) => r matches Err(e) && e@ == "failed to read zip: "@ + m,
            Err((ZipStep::Entry, _)) => r matches Err(e) && e@ == "zip bundle must contain bundle.json"@,
            Err((ZipStep::Read, m)) => r matches Err(e) && e@ == "failed to read bundle.json: "@ + m,
        },
{
    match read_zip_entry(body, "bundle.json") {
        Ok(t) => Ok(t),
        Err(ZipReadError::Open(m)) => {
            let mut v = chars_of("failed to read zip: ");
            append_chars(&mut v, chars_of(m.as_str()).as_slice());
            Err(string_from_chars(v.as_slice()))
        },
        Err(ZipReadError::Entry(_)) => Err(string_of("zip bundle must contain bundle.json")),
        Err(ZipReadError::Read(m)) => {
            let mut v = chars_of("failed to read bundle.json: ");
            append_chars(&mut v, chars_of(m.as_str()).as_slice());
            Err(string_from_chars(v.as_slice()))
        },
    }
}

/// What `zip` 2.6 gives back for a zip archive holding one deflated entry
/// `name` with the text `text`, written into memory without its `time`
/// feature (so with the fixed timestamp of 1980-01-01): the archive's bytes,
/// or the `Display` text of the error it reports.
pub uninterp spec fn zipped_entry(name: Seq<char>, text: Seq<char>) -> Result<Seq<u8>, Seq<char>>;

/// `zip::ZipWriter` over a buffer in memory: `start_file` with a deflated
/// entry `name`, `write_all` of the text, `finish`. The outcome, archive or
/// error text, is the name `zipped_entry` of the arguments: nothing else
/// goes into the writer. Which arguments succeed is left unsaid: the writer
/// refuses an entry only when its data passes the 4 GiB limit of an entry
/// without ZIP64, which turns on the size the data compresses to.
#[verifier::external_body]
fn zip_single_entry(name: &str, text: &str) -> (r: Result<Vec<u8>, String>)
    ensures
        match r {
            Ok(b) => zipped_entry(name@, text@) == Ok::<Seq<u8>, Seq<char>>(b@),
            Err(e) => zipped_entry(name@, text@) == Err::<Seq<u8>, Seq<char>>(e@),
        },
{
    let options = zip::write::SimpleFileOptions::default()
        .compression_method(zip::CompressionMethod::Deflated);
    let mut zip = zip::ZipWriter::new(std::io::Cursor::new(Vec::new()));
    zip.start_file(name, options).map_err(|e| e.to_string())?;
    std::io::Write::write_all(&mut zip, text.as_bytes()).map_err(|e| e.to_string())?;
    Ok(zip.finish().map_err(|e| e.to_string())?.into_inner())
}

/// A bundle's JSON text packed for download as a zip archive with the one
/// entry `bundle.json`, or the export's message when packing fails.
pub fn bundle_to_zip(json: &str) -> (r: Result<Vec<u8>, String>)
    ensures
        match zipped_entry("bundle.json"@, json@) {
            Ok(b) => r matches Ok(x) && x@ == b,
            Err(m) => r matches Err(e) && e@ == "failed to zip bundle: "@ + m,
        },
{
    match zip_single_entry("bundle.json", json) {
        Ok(b) => Ok(b),
        Err(m) => {
            let mut v = chars_of("failed to zip bundle: ");
            append_chars(&mut v, chars_of(m.as_str()).as_slice());
            Err(string_from_chars(v.as_slice()))
        },
    }
}

/// Adds `id` to a list of distinct ids unless it is there already.
fn add_distinct(ids: &mut Vec<String>, id: &str)
    ensures
        text_set(final(ids)@) == text_set(old(ids)@).insert(id@),
{
    let t = string_of(id);
    if !contains_text(ids, &t) {
        let ghost before = ids@;
        ids.push(t);
        assert(text_set(ids@) =~= text_set(before).insert(id@)) by {
            assert forall|x: Seq<char>| text_set(ids@).contains(x) <==> text_set(before).insert(
                id@,
            ).contains(x) by {
                if texts(ids@).contains(x) {
                    let k = choose|k: int| 0 <= k < texts(ids@).len() && texts(ids@)[k] == x;
                    if k < before.len() {
                        assert(texts(before)[k] == x);
                    }
                }
                if texts(before).contains(x) {
                    let k = choose|k: int| 0 <= k < texts(before).len() && texts(before)[k] == x;
                    assert(texts(ids@)[k] == x);
                }
                if x == id@ {
                    assert(texts(ids@)[before.len() as int] == x);
                }
            }
        }
    } else {
        assert(text_set(ids@) =~= text_set(ids@).insert(id@));
    }
}

/// Collects the profiles a workload of an exported run or scenario names:
/// its broker profile, and its payload profile when it has one.
pub fn collect_profile_ids(
    broker_ids: &mut Vec<String>,
    payload_ids: &mut Vec<String>,
    broker_profile_id: &str,
    payload_profile_id: Option<&str>,
)
    ensures
        text_set(final(broker_ids)@) == text_set(old(broker_ids)@).insert(broker_profile_id@),
        text_set(final(payload_ids)@) == match payload_profile_id {
            Some(p) => text_set(old(payload_ids)@).insert(p@),
            None => text_set(old(payload_ids)@),
        },
{
    add_distinct(broker_ids, broker_profile_id);
    if let Some(p) = payload_profile_id {
        add_distinct(payload_ids, p);
    }
}

/// Points an imported metric snapshot at the run and the run workload it
/// was imported as.
pub fn remap_snapshot(run_id: &mut String, run_workload_id: &mut Option<String>, ids: &BundleIdMap)
    ensures
        final(run_id)@ == remapped(ids.runs@, old(run_id)@),
        opt_view(*final(run_workload_id)) == opt_remapped(
            ids.run_workloads@,
            opt_view(*old(run_workload_id)),
        ),
{
    remap_id(run_id, &ids.runs);
    remap_optional_id(run_workload_id, &ids.run_workloads);
}

/// The (broker, payload) profile ids of some workloads, as text.
pub open spec fn refs_view(refs: Seq<(String, Option<String>)>) -> Seq<(Seq<char>, Option<Seq<char>>)> {
    refs.map_values(|r: (String, Option<String>)| (r.0@, opt_view(r.1)))
}

/// Points an imported scenario at the imported runs and profiles: its
/// baseline run, and the (broker, payload) profiles of each of its
/// workloads, in order.
pub fn remap_scenario(
    baseline_run_id: &mut Option<String>,
    workload_refs: &mut Vec<(String, Option<String>)>,
    ids: &BundleIdMap,
)
    ensures
        opt_view(*final(baseline_run_id)) == opt_remapped(ids.runs@, opt_view(*old(baseline_run_id))),
        refs_view(final(workload_refs)@).len() == old(workload_refs)@.len(),
        forall|i: int|
            0 <= i < old(workload_refs)@.len() ==> #[trigger] refs_view(final(workload_refs)@)[i] == (
                remapped(ids.brokers@, old(workload_refs)@[i].0@),
                opt_remapped(ids.payloads@, opt_view(old(workload_refs)@[i].1)),
            ),
{
    remap_optional_id(baseline_run_id, &ids.runs);
    let mut old_refs: Vec<(String, Option<String>)> = Vec::new();
    std::mem::swap(&mut old_refs, workload_refs);
    let mut out: Vec<(String, Option<String>)> = Vec::new();
    let mut i: usize = 0;
    while i < old_refs.len()
        invariant
            i <= old_refs@.len(),
            out@.len() == i,
            forall|k: int|
                0 <= k < i ==> #[trigger] refs_view(out@)[k] == (
                    remapped(ids.brokers@, old_refs@[k].0@),
                    opt_remapped(ids.payloads@, opt_view(old_refs@[k].1)),
                ),
        decreases old_refs@.len() - i,
    {
        let mut broker = string_of(old_refs[i].0.as_str());
        let mut payload = match &old_refs[i].1 {
            Some(p) => Some(string_of(p.as_str())),
            None => None,
        };
        remap_profile_refs(&mut broker, &mut payload, ids);
        let ghost before = out@;
        out.push((broker, payload));
        proof {
            assert forall|k: int| 0 <= k < i + 1 implies #[trigger] refs_view(out@)[k] == (
                remapped(ids.brokers@, old_refs@[k].0@),
                opt_remapped(ids.payloads@, opt_view(old_refs@[k].1)),
            ) by {
                if k < i {
                    assert(out@[k] == before[k]);
                    assert(refs_view(before)[k] == refs_view(out@)[k]);
                }
            }
        }
        i = i + 1;
    }
    *workload_refs = out;
}

} // verus!
