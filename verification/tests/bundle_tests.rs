use velamq_bench::bundle::{
    bundle_attachment, bundle_upload_is_zip, check_bundle_export, check_bundle_version,
    conflict_policy, item_import_action, new_imported_run_id, remap_annotation, remap_id,
    remap_optional_id, remap_profile_refs, remap_run, run_import_action, BundleFormat, BundleIdMap,
    IdMap, ItemImport, RunImport,
};
use velamq_bench::bundle::{import_broker_profile, import_payload_profile, place_imported_run, RunPlacement};
use velamq_bench::bundle::{bundle_json_from_zip, bundle_to_zip};
use velamq_bench::bundle::{collect_profile_ids, remap_scenario, remap_snapshot};
use velamq_bench::console::BundleConflict;
use velamq_bench::model::broker::{BrokerProfile, BrokerProtocol, MqttVersion};
use velamq_bench::model::payload::{PayloadKind, PayloadProfile};
use velamq_bench::model::run::{Annotation, AnnotationCategory, Run, RunStatus, RunWorkload};
use velamq_bench::model::time::UtcTimestamp;
use velamq_bench::model::workload::WorkloadKind;

fn workload(id: &str, run_id: &str) -> RunWorkload {
    RunWorkload {
        id: id.to_string(),
        run_id: run_id.to_string(),
        workload_id: format!("wl-{id}"),
        kind: WorkloadKind::Pub,
        config_snapshot_json: "{}".to_string(),
    }
}

fn run(id: &str, workloads: Vec<RunWorkload>) -> Run {
    Run {
        id: id.to_string(),
        scenario_id: Some("sc-1".to_string()),
        name: "run".to_string(),
        tags: vec!["t".to_string()],
        description: String::new(),
        status: RunStatus::Completed,
        started_at: UtcTimestamp { secs: 10, nanos: 0 },
        stopped_at: None,
        workloads,
        baseline_of_scenario_id: Some("sc-2".to_string()),
    }
}

#[test]
fn id_maps_answer_the_last_recorded_id() {
    let mut m = IdMap::new();
    assert_eq!(m.get("a"), None);
    assert_eq!(m.remap("a"), "a");
    m.insert("a".into(), "b".into());
    m.insert("c".into(), "d".into());
    m.insert("a".into(), "e".into());
    assert_eq!(m.get("a"), Some("e".to_string()));
    assert_eq!(m.remap("c"), "d");
    assert_eq!(m.remap("x"), "x");

    let mut id = "a".to_string();
    remap_id(&mut id, &m);
    assert_eq!(id, "e");
    let mut opt = Some("c".to_string());
    remap_optional_id(&mut opt, &m);
    assert_eq!(opt.as_deref(), Some("d"));
    let mut none: Option<String> = None;
    remap_optional_id(&mut none, &m);
    assert_eq!(none, None);
}

#[test]
fn bundle_versions_and_policies() {
    assert_eq!(check_bundle_version("1.0"), Ok(()));
    assert_eq!(check_bundle_version("2.0"), Err("unsupported bundle version 2.0".to_string()));
    assert_eq!(conflict_policy(None), Ok(BundleConflict::Skip));
    assert_eq!(conflict_policy(Some("overwrite")), Ok(BundleConflict::Overwrite));
    assert_eq!(
        conflict_policy(Some("merge")),
        Err("conflict must be skip, rename, or overwrite".to_string())
    );
}

#[test]
fn import_actions_follow_the_policy() {
    assert_eq!(item_import_action(BundleConflict::Skip, true), ItemImport::KeepExisting);
    assert_eq!(item_import_action(BundleConflict::Skip, false), ItemImport::Write);
    assert_eq!(item_import_action(BundleConflict::Rename, false), ItemImport::Rename);
    assert_eq!(item_import_action(BundleConflict::Overwrite, true), ItemImport::Write);

    assert_eq!(run_import_action(BundleConflict::Skip, true), RunImport::KeepExisting);
    assert_eq!(run_import_action(BundleConflict::Overwrite, true), RunImport::Overwrite);
    assert_eq!(run_import_action(BundleConflict::Rename, true), RunImport::NewId);
    assert_eq!(run_import_action(BundleConflict::Rename, false), RunImport::NewId);
    assert_eq!(run_import_action(BundleConflict::Skip, false), RunImport::SameId);
    assert_eq!(run_import_action(BundleConflict::Overwrite, false), RunImport::SameId);

    let id = new_imported_run_id();
    assert!(id.starts_with("run-"));
    assert_eq!(id.len(), 40);
}

#[test]
fn imported_runs_are_rewritten() {
    let mut ids = BundleIdMap::new();
    ids.scenarios.insert("sc-1".into(), "sc-9".into());
    let mut r = run("run-1", vec![workload("w1", "run-1"), workload("w2", "elsewhere")]);
    remap_run(&mut r, &mut ids, "run-1");
    assert_eq!(r.id, "run-1");
    assert_eq!(r.scenario_id.as_deref(), Some("sc-9"));
    assert_eq!(r.baseline_of_scenario_id.as_deref(), Some("sc-2"));
    assert_eq!(r.workloads[0].id, "w1");
    assert!(r.workloads[1].id.starts_with("rw-"));
    assert_eq!(r.workloads[1].id.len(), 39);
    assert!(r.workloads.iter().all(|w| w.run_id == "run-1"));
    assert_eq!(r.workloads[1].workload_id, "wl-w2");
    assert_eq!(ids.run_workloads.remap("w1"), "w1");
    assert_eq!(ids.run_workloads.remap("w2"), r.workloads[1].id);

    let mut renamed = run("run-1", vec![workload("w1", "run-1")]);
    remap_run(&mut renamed, &mut ids, "run-new");
    assert_eq!(renamed.id, "run-new");
    assert_ne!(renamed.workloads[0].id, "w1");
    assert_eq!(renamed.workloads[0].run_id, "run-new");
    assert_eq!(ids.run_workloads.remap("w1"), renamed.workloads[0].id);
}

#[test]
fn imported_annotations_and_workloads_follow_the_ids() {
    let mut ids = BundleIdMap::new();
    ids.runs.insert("run-1".into(), "run-2".into());
    ids.run_workloads.insert("w1".into(), "rw-x".into());
    ids.brokers.insert("b1".into(), "broker-new".into());
    let note = Annotation {
        id: "an-1".into(),
        run_id: "run-1".into(),
        run_workload_id: Some("w1".into()),
        ts: UtcTimestamp { secs: 5, nanos: 0 },
        category: AnnotationCategory::Manual,
        title: "t".into(),
        detail: "d".into(),
    };
    let mut kept = note.clone();
    remap_annotation(&mut kept, &ids, BundleConflict::Skip);
    assert_eq!(kept.id, "an-1");
    assert_eq!(kept.run_id, "run-2");
    assert_eq!(kept.run_workload_id.as_deref(), Some("rw-x"));
    let mut renamed = note;
    remap_annotation(&mut renamed, &ids, BundleConflict::Rename);
    assert!(renamed.id.starts_with("annotation-"));
    assert_eq!(renamed.id.len(), 47);

    let mut broker = "b1".to_string();
    let mut payload = Some("p1".to_string());
    remap_profile_refs(&mut broker, &mut payload, &ids);
    assert_eq!(broker, "broker-new");
    assert_eq!(payload.as_deref(), Some("p1"));
}

#[test]
fn bundle_exports_and_uploads() {
    assert_eq!(check_bundle_export(0, Some("zip")), Err("run_ids is required".to_string()));
    assert_eq!(check_bundle_export(2, None), Ok(BundleFormat::Json));
    assert_eq!(check_bundle_export(1, Some("zip")), Ok(BundleFormat::Zip));
    assert_eq!(check_bundle_export(1, Some("tar")), Err("format must be json or zip".to_string()));
    assert_eq!(
        bundle_attachment(BundleFormat::Zip),
        ("application/zip", "attachment; filename=\"velamq-bundle.zip\"")
    );
    assert_eq!(bundle_attachment(BundleFormat::Json).0, "application/json");

    assert!(bundle_upload_is_zip(Some("Application/ZIP"), b"{}"));
    assert!(bundle_upload_is_zip(Some("application/octet-stream; x=1"), b"{}"));
    assert!(bundle_upload_is_zip(None, b"PK\x03\x04"));
    assert!(!bundle_upload_is_zip(None, b"{\"bundle\":{}}"));
    assert!(!bundle_upload_is_zip(Some("application/json"), b"P"));
}

fn broker(id: &str) -> BrokerProfile {
    let now = UtcTimestamp { secs: 1, nanos: 0 };
    BrokerProfile {
        id: id.to_string(),
        name: "Edge".to_string(),
        protocol: BrokerProtocol::Mqtt,
        mqtt_version: MqttVersion::V3_1_1,
        host: "h".into(),
        port: 1883,
        websocket_path: None,
        tls: None,
        auth: None,
        keepalive_secs: 30,
        connection_timeout_secs: 10,
        clean_session: true,
        mqtt5: None,
        created_at: now,
        updated_at: now,
    }
}

#[test]
fn imported_profiles_follow_the_conflict_policy() {
    let mut ids = IdMap::new();
    assert!(import_broker_profile(broker("b1"), BundleConflict::Skip, true, &mut ids).is_none());
    assert_eq!(ids.remap("b1"), "b1");
    let written = import_broker_profile(broker("b2"), BundleConflict::Skip, false, &mut ids).unwrap();
    assert_eq!(written.id, "b2");
    let renamed = import_broker_profile(broker("broker-123456789"), BundleConflict::Rename, true, &mut ids)
        .unwrap();
    assert!(renamed.id.starts_with("broker-"));
    assert_ne!(renamed.id, "broker-123456789");
    assert_eq!(renamed.name, "Edge (imported broker-1)");
    assert_eq!(ids.remap("broker-123456789"), renamed.id);
    let over = import_broker_profile(broker("b3"), BundleConflict::Overwrite, true, &mut ids).unwrap();
    assert_eq!(over.id, "b3");

    let mut payload_ids = IdMap::new();
    let payload = PayloadProfile {
        id: "p1".into(),
        name: "Small".into(),
        kind: PayloadKind::default(),
        created_at: UtcTimestamp { secs: 0, nanos: 0 },
        updated_at: UtcTimestamp { secs: 0, nanos: 0 },
    };
    let p = import_payload_profile(payload, BundleConflict::Rename, false, &mut payload_ids).unwrap();
    assert!(p.id.starts_with("payload-"));
    assert_eq!(p.name, "Small (imported p1)");
    assert_eq!(payload_ids.remap("p1"), p.id);
}

#[test]
fn imported_runs_are_placed_by_policy() {
    let mut runs = IdMap::new();
    assert_eq!(place_imported_run("r1", BundleConflict::Skip, true, &mut runs), RunPlacement::Skip);
    assert_eq!(runs.remap("r1"), "r1");
    assert_eq!(
        place_imported_run("r2", BundleConflict::Overwrite, true, &mut runs),
        RunPlacement::Store { run_id: "r2".into(), replace_existing: true }
    );
    assert_eq!(
        place_imported_run("r3", BundleConflict::Skip, false, &mut runs),
        RunPlacement::Store { run_id: "r3".into(), replace_existing: false }
    );
    match place_imported_run("r4", BundleConflict::Rename, false, &mut runs) {
        RunPlacement::Store { run_id, replace_existing } => {
            assert!(run_id.starts_with("run-"));
            assert!(!replace_existing);
            assert_eq!(runs.remap("r4"), run_id);
        }
        RunPlacement::Skip => panic!("a renamed run is stored"),
    }
}

#[test]
fn zip_bundles_round_trip_and_report_each_failure() {
    let json = "{\"version\":\"1.0\",\"runs\":[]}";
    let archive = bundle_to_zip(json).unwrap();
    assert!(archive.starts_with(b"PK"));
    assert_eq!(bundle_to_zip(json).unwrap(), archive);
    assert_eq!(bundle_json_from_zip(&archive), Ok(json.to_string()));

    let not_zip = bundle_json_from_zip(b"{}").unwrap_err();
    assert!(not_zip.starts_with("failed to read zip: "), "{not_zip}");

    let mut writer = zip::ZipWriter::new(std::io::Cursor::new(Vec::new()));
    writer.start_file("other.json", zip::write::SimpleFileOptions::default()).unwrap();
    std::io::Write::write_all(&mut writer, b"{}").unwrap();
    let other = writer.finish().unwrap().into_inner();
    assert_eq!(bundle_json_from_zip(&other), Err("zip bundle must contain bundle.json".to_string()));

    let mut writer = zip::ZipWriter::new(std::io::Cursor::new(Vec::new()));
    writer.start_file("bundle.json", zip::write::SimpleFileOptions::default()).unwrap();
    std::io::Write::write_all(&mut writer, &[0xff, 0xfe]).unwrap();
    let binary = writer.finish().unwrap().into_inner();
    let bad = bundle_json_from_zip(&binary).unwrap_err();
    assert!(bad.starts_with("failed to read bundle.json: "), "{bad}");
}

#[test]
fn exports_collect_each_profile_once() {
    let mut brokers = Vec::new();
    let mut payloads = Vec::new();
    collect_profile_ids(&mut brokers, &mut payloads, "b1", Some("p1"));
    collect_profile_ids(&mut brokers, &mut payloads, "b1", None);
    collect_profile_ids(&mut brokers, &mut payloads, "b2", Some("p1"));
    assert_eq!(brokers, vec!["b1".to_string(), "b2".to_string()]);
    assert_eq!(payloads, vec!["p1".to_string()]);
}

#[test]
fn imported_snapshots_and_scenarios_follow_the_ids() {
    let mut ids = BundleIdMap::new();
    ids.runs.insert("run-1".into(), "run-9".into());
    ids.run_workloads.insert("w1".into(), "rw-9".into());
    ids.brokers.insert("b1".into(), "broker-9".into());
    ids.payloads.insert("p1".into(), "payload-9".into());

    let mut run_id = "run-1".to_string();
    let mut workload = Some("w1".to_string());
    remap_snapshot(&mut run_id, &mut workload, &ids);
    assert_eq!((run_id.as_str(), workload.as_deref()), ("run-9", Some("rw-9")));

    let mut baseline = Some("run-1".to_string());
    let mut refs = vec![
        ("b1".to_string(), Some("p1".to_string())),
        ("b2".to_string(), None),
    ];
    remap_scenario(&mut baseline, &mut refs, &ids);
    assert_eq!(baseline.as_deref(), Some("run-9"));
    assert_eq!(
        refs,
        vec![("broker-9".to_string(), Some("payload-9".to_string())), ("b2".to_string(), None)]
    );
}
