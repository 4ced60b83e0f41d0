use velamq_bench::model::run::{AnnotationCategory, Run, RunStatus};
use velamq_bench::model::time::UtcTimestamp;
use velamq_bench::storage::{edit_run_metadata, edit_specimen};
use velamq_bench::model::legacy::{BenchConfig, BenchSpecimen, SpecimenUpdate};
use velamq_bench::model::workload::WorkloadKind;
use velamq_bench::storage::{
    annotation_category_as_str, id_from_hash, legacy_run_workload_id, legacy_workload_id,
    normalize_tags, parse_annotation_category, parse_run_status, parse_workload_kind,
    run_status_as_str, stable_id, workload_kind_as_str,
};

#[test]
fn tags_are_trimmed_filtered_and_capped() {
    assert_eq!(
        normalize_tags(vec![" a ".into(), "".into(), "  ".into(), "b".into()]),
        vec!["a".to_string(), "b".to_string()]
    );
    let many = normalize_tags((0..50).map(|i| format!("t{i}")).collect());
    assert_eq!(many.len(), 32);
    assert_eq!(many[31], "t31");
}

#[test]
fn run_statuses_round_trip_and_unknown_is_failed() {
    for status in [RunStatus::Pending, RunStatus::Running, RunStatus::Completed, RunStatus::Stopped, RunStatus::Failed] {
        assert_eq!(parse_run_status(run_status_as_str(&status)), status);
    }
    assert_eq!(run_status_as_str(&RunStatus::Completed), "completed");
    assert_eq!(parse_run_status("bogus"), RunStatus::Failed);
}

#[test]
fn workload_kinds_round_trip_and_unknown_is_pub() {
    for kind in [WorkloadKind::Pub, WorkloadKind::Sub, WorkloadKind::Conn] {
        assert_eq!(parse_workload_kind(workload_kind_as_str(&kind)), kind);
    }
    assert_eq!(parse_workload_kind("?"), WorkloadKind::Pub);
}

#[test]
fn annotation_categories_round_trip_and_unknown_is_manual() {
    for category in [
        AnnotationCategory::Manual,
        AnnotationCategory::BrokerEvent,
        AnnotationCategory::SlaBreach,
        AnnotationCategory::ConfigChange,
    ] {
        assert_eq!(parse_annotation_category(annotation_category_as_str(&category)), category);
    }
    assert_eq!(annotation_category_as_str(&AnnotationCategory::SlaBreach), "sla_breach");
    assert_eq!(parse_annotation_category("x"), AnnotationCategory::Manual);
}

#[test]
fn legacy_ids_have_fixed_prefixes() {
    assert_eq!(legacy_run_workload_id("r1"), "legacy-run-workload-r1");
    assert_eq!(legacy_workload_id("r1"), "legacy-workload-r1");
}

#[test]
fn stable_ids_are_prefixed_hex_and_deterministic() {
    assert_eq!(id_from_hash("broker", 0xdead_beef), "broker-00000000deadbeef");
    assert_eq!(id_from_hash("p", u64::MAX), "p-ffffffffffffffff");
    let id = stable_id("payload", "{\"kind\":\"counter\"}");
    assert_eq!(id, stable_id("payload", "{\"kind\":\"counter\"}"));
    assert!(id.starts_with("payload-"));
    assert_eq!(id.len(), "payload-".len() + 16);
}

#[test]
fn run_metadata_edits_trim_and_clean() {
    let mut run = Run {
        id: "run-1".into(),
        scenario_id: None,
        name: "before".into(),
        tags: vec!["x".into()],
        description: "old".into(),
        status: RunStatus::Completed,
        started_at: UtcTimestamp { secs: 1, nanos: 0 },
        stopped_at: None,
        workloads: Vec::new(),
        baseline_of_scenario_id: None,
    };
    edit_run_metadata(&mut run, Some("   ".into()), None, None);
    assert_eq!(run.name, "before");
    assert_eq!(run.description, "old");
    edit_run_metadata(
        &mut run,
        Some(" after ".into()),
        Some(" notes ".into()),
        Some(vec![" a ".into(), "".into(), "b".into()]),
    );
    assert_eq!(run.name, "after");
    assert_eq!(run.description, "notes");
    assert_eq!(run.tags, vec!["a".to_string(), "b".to_string()]);
    assert_eq!(run.id, "run-1");
}

#[test]
fn specimen_edits_keep_what_is_absent() {
    let mut specimen = BenchSpecimen {
        id: "sp-1".into(),
        run_id: "run-1".into(),
        name: "first".into(),
        description: "d".into(),
        tags: vec!["keep".into()],
        config: BenchConfig::default(),
        created_at: UtcTimestamp { secs: 9, nanos: 0 },
    };
    edit_specimen(&mut specimen, SpecimenUpdate { name: None, description: Some("  new  ".into()), tags: None });
    assert_eq!(specimen.name, "first");
    assert_eq!(specimen.description, "new");
    assert_eq!(specimen.tags, vec!["keep".to_string()]);
    edit_specimen(
        &mut specimen,
        SpecimenUpdate { name: Some(" second ".into()), description: None, tags: Some(vec![" ".into()]) },
    );
    assert_eq!(specimen.name, "second");
    assert_eq!(specimen.description, "new");
    assert!(specimen.tags.is_empty());
    assert_eq!(specimen.run_id, "run-1");
}
