use zonefile::detect::{detect, Change, UpstreamZone};
use zonefile::kvmap::KvMap;
use zonefile::refs::{resolve_refs, RefKey, ReconcileError, ZoneRef};
use zonefile::reconcile::{reconcile, ReconcileOutcome};
use zonefile::serial::{date_candidate, next_serial};
use zonefile::zonefile::{canonical_key, ZoneFile, ZoneFileSpec, ZoneFileStatus, TARGET_ZONEFILE_LABEL};

fn zref(name: &str, ns: Option<&str>) -> ZoneRef {
    ZoneRef { name: name.to_string(), namespace: ns.map(|s| s.to_string()) }
}

fn rkey(ns: &str, name: &str) -> RefKey {
    RefKey { namespace: ns.to_string(), name: name.to_string() }
}

fn up(fp: &str, content: &str) -> Option<UpstreamZone> {
    Some(UpstreamZone { fingerprint: fp.to_string(), content: content.to_string() })
}

fn file_two_refs(status: Option<ZoneFileStatus>) -> ZoneFile {
    ZoneFile {
        name: "db".to_string(),
        namespace: Some("default".to_string()),
        spec: ZoneFileSpec {
            zone_refs: vec![zref("a", None), zref("b", Some("other"))],
            config_map_name: None,
        },
        status,
    }
}

fn get_hash(st: &ZoneFileStatus, ns: &str, name: &str) -> Option<String> {
    st.hash.get(&rkey(ns, name)).cloned()
}

fn get_serial(st: &ZoneFileStatus, ns: &str, name: &str) -> Option<u32> {
    st.serial.get(&rkey(ns, name)).copied()
}

#[test]
fn resolver_defaults_to_owner_namespace() {
    let file = file_two_refs(None);
    let resolved = file.zone_ref();
    assert_eq!(resolved.len(), 2);
    assert_eq!(resolved[0].name, "a");
    assert_eq!(resolved[0].namespace.as_deref(), Some("default"));
    assert_eq!(resolved[1].name, "b");
    assert_eq!(resolved[1].namespace.as_deref(), Some("other"));
}

#[test]
fn resolver_keeps_explicit_namespace() {
    let keys = resolve_refs(
        &vec![zref("z", Some("x")), zref("z", None)],
        &Some("n".to_string()),
    )
    .unwrap();
    assert_eq!(keys[0].namespace, "x");
    assert_eq!(keys[0].name, "z");
    assert_eq!(keys[1].namespace, "n");
    assert_eq!(keys[1].name, "z");
}

#[test]
fn resolver_rejects_unresolvable_namespace() {
    let r = resolve_refs(&vec![zref("z", None)], &None);
    assert_eq!(r.unwrap_err(), ReconcileError::UnresolvableNamespace { index: 0 });
}

#[test]
fn resolver_rejects_duplicate_reference() {
    let r = resolve_refs(
        &vec![zref("z", Some("n")), zref("z", None)],
        &Some("n".to_string()),
    );
    assert_eq!(r.unwrap_err(), ReconcileError::DuplicateReference { index: 1 });
}

#[test]
fn serial_adopts_newer_date() {
    assert_eq!(next_serial(0, 2024010100), 2024010100);
    assert_eq!(next_serial(2024010100, 2024010200), 2024010200);
}

#[test]
fn serial_increments_on_same_day() {
    assert_eq!(next_serial(2024010100, 2024010100), 2024010101);
    assert_eq!(next_serial(2024010205, 2024010100), 2024010206);
}

#[test]
fn serial_wraps_at_counter_top() {
    assert_eq!(next_serial(u32::MAX, 2024010100), 1);
}

#[test]
fn date_candidate_formats_recommended_scheme() {
    assert_eq!(date_candidate(2024, 1, 1), 2024010100);
    assert_eq!(date_candidate(2031, 12, 31), 2031123100);
}

#[test]
fn detect_classifies_all_cases() {
    let z = UpstreamZone { fingerprint: "f1".to_string(), content: "c".to_string() };
    let prior = "f1".to_string();
    let other = "f0".to_string();
    assert_eq!(detect(Some(&prior), Some(&z)), Change::Unchanged);
    assert_eq!(detect(Some(&other), Some(&z)), Change::Changed);
    assert_eq!(detect(None, Some(&z)), Change::New);
    assert_eq!(detect(Some(&prior), None), Change::MissingUpstream);
    assert_eq!(detect(None, None), Change::MissingUpstream);
}

#[test]
fn first_reconcile_assigns_date_serials_and_renders_in_order() {
    let file = file_two_refs(None);
    let upstream = vec![up("fa1", "a-records"), up("fb1", "b-records")];
    let out = reconcile(&file, &upstream, 2024010100).unwrap();

    assert_eq!(get_serial(&out.status, "default", "a"), Some(2024010100));
    assert_eq!(get_serial(&out.status, "other", "b"), Some(2024010100));
    assert_eq!(get_hash(&out.status, "default", "a"), Some("fa1".to_string()));
    assert_eq!(get_hash(&out.status, "other", "b"), Some("fb1".to_string()));

    let artifact = out.artifact.expect("first pass must render");
    assert_eq!(artifact.name, "db");
    assert_eq!(artifact.sections.len(), 2);
    assert_eq!(artifact.sections[0].key.name, "a");
    assert_eq!(artifact.sections[0].serial, 2024010100);
    assert_eq!(artifact.sections[0].content, "a-records");
    assert_eq!(artifact.sections[1].key.name, "b");
    assert_eq!(artifact.sections[1].serial, 2024010100);
    assert_eq!(artifact.sections[1].content, "b-records");

    let labels: Vec<(String, String)> = out
        .desired_labels
        .iter()
        .map(|k| (k.namespace.clone(), k.name.clone()))
        .collect();
    assert_eq!(
        labels,
        vec![
            ("default".to_string(), "a".to_string()),
            ("other".to_string(), "b".to_string())
        ]
    );
    assert!(!out.degraded);
    assert!(!out.serial_warning);
}

#[test]
fn second_reconcile_without_change_is_a_no_op() {
    let file = file_two_refs(None);
    let upstream = vec![up("fa1", "a-records"), up("fb1", "b-records")];
    let first = reconcile(&file, &upstream, 2024010100).unwrap();

    let again = file_two_refs(Some(first.status.clone()));
    let second = reconcile(&again, &upstream, 2024010200).unwrap();
    assert!(second.artifact.is_none(), "no artifact rewrite on an unchanged pass");
    assert_eq!(get_serial(&second.status, "default", "a"), Some(2024010100));
    assert_eq!(get_serial(&second.status, "other", "b"), Some(2024010100));
    assert_eq!(get_hash(&second.status, "default", "a"), Some("fa1".to_string()));
    assert_eq!(get_hash(&second.status, "other", "b"), Some("fb1".to_string()));
}

#[test]
fn changed_fingerprint_bumps_only_that_serial() {
    let file = file_two_refs(None);
    let first = reconcile(
        &file,
        &vec![up("fa1", "a-records"), up("fb1", "b-records")],
        2024010100,
    )
    .unwrap();

    let again = file_two_refs(Some(first.status));
    let second = reconcile(
        &again,
        &vec![up("fa2", "a-records-v2"), up("fb1", "b-records")],
        2024010100,
    )
    .unwrap();

    assert_eq!(get_serial(&second.status, "default", "a"), Some(2024010101));
    assert_eq!(get_serial(&second.status, "other", "b"), Some(2024010100));
    assert_eq!(get_hash(&second.status, "default", "a"), Some("fa2".to_string()));

    let artifact = second.artifact.expect("a change re-renders the whole artifact");
    assert_eq!(artifact.sections.len(), 2);
    assert_eq!(artifact.sections[0].content, "a-records-v2");
    assert_eq!(artifact.sections[0].serial, 2024010101);
    assert_eq!(artifact.sections[1].content, "b-records");
    assert_eq!(artifact.sections[1].serial, 2024010100);
}

#[test]
fn later_date_bumps_dirty_serial_to_new_date() {
    let file = file_two_refs(None);
    let first = reconcile(
        &file,
        &vec![up("fa1", "a"), up("fb1", "b")],
        2024010100,
    )
    .unwrap();
    let again = file_two_refs(Some(first.status));
    let second = reconcile(
        &again,
        &vec![up("fa2", "a2"), up("fb1", "b")],
        2024020100,
    )
    .unwrap();
    assert_eq!(get_serial(&second.status, "default", "a"), Some(2024020100));
    assert_eq!(get_serial(&second.status, "other", "b"), Some(2024010100));
}

#[test]
fn missing_upstream_renders_without_it_and_preserves_status() {
    let file = file_two_refs(None);
    let first = reconcile(
        &file,
        &vec![up("fa1", "a-records"), up("fb1", "b-records")],
        2024010100,
    )
    .unwrap();

    let again = file_two_refs(Some(first.status));
    let second = reconcile(&again, &vec![up("fa1", "a-records"), None], 2024010200).unwrap();

    let artifact = second.artifact.expect("losing a section re-renders the artifact");
    assert_eq!(artifact.sections.len(), 1);
    assert_eq!(artifact.sections[0].key.name, "a");
    assert_eq!(get_hash(&second.status, "other", "b"), Some("fb1".to_string()));
    assert_eq!(get_serial(&second.status, "other", "b"), Some(2024010100));
    assert!(second.degraded, "a missing upstream is degraded, not terminal");
    let labels: Vec<String> = second.desired_labels.iter().map(|k| k.name.clone()).collect();
    assert_eq!(labels, vec!["a".to_string()]);
}

#[test]
fn removed_reference_is_pruned_from_both_maps() {
    let file = file_two_refs(None);
    let first = reconcile(
        &file,
        &vec![up("fa1", "a-records"), up("fb1", "b-records")],
        2024010100,
    )
    .unwrap();

    let shrunk = ZoneFile {
        name: "db".to_string(),
        namespace: Some("default".to_string()),
        spec: ZoneFileSpec { zone_refs: vec![zref("a", None)], config_map_name: None },
        status: Some(first.status),
    };
    let second = reconcile(&shrunk, &vec![up("fa1", "a-records")], 2024010200).unwrap();

    assert!(second.artifact.is_some(), "pruning alone forces a rewrite");
    assert_eq!(get_hash(&second.status, "other", "b"), None);
    assert_eq!(get_serial(&second.status, "other", "b"), None);
    assert_eq!(get_hash(&second.status, "default", "a"), Some("fa1".to_string()));
}

#[test]
fn serial_wrap_sets_warning_and_never_blocks() {
    let mut serial = KvMap::new();
    serial.insert_new(rkey("default", "a"), u32::MAX);
    let mut hash = KvMap::new();
    hash.insert_new(rkey("default", "a"), "old".to_string());
    let status = ZoneFileStatus { hash, serial };
    assert!(status.wf_check());

    let file = ZoneFile {
        name: "db".to_string(),
        namespace: Some("default".to_string()),
        spec: ZoneFileSpec { zone_refs: vec![zref("a", None)], config_map_name: None },
        status: Some(status),
    };
    let out = reconcile(&file, &vec![up("new", "a-records")], 2024010100).unwrap();
    assert!(out.serial_warning);
    assert_eq!(get_serial(&out.status, "default", "a"), Some(1));
    assert!(out.artifact.is_some());
}

#[test]
fn config_map_name_overrides_artifact_name() {
    let file = ZoneFile {
        name: "db".to_string(),
        namespace: Some("default".to_string()),
        spec: ZoneFileSpec {
            zone_refs: vec![zref("a", None)],
            config_map_name: Some("rendered".to_string()),
        },
        status: None,
    };
    let out = reconcile(&file, &vec![up("f", "c")], 2024010100).unwrap();
    assert_eq!(out.artifact.unwrap().name, "rendered");
}

#[test]
fn reconcile_surfaces_configuration_errors() {
    let file = ZoneFile {
        name: "db".to_string(),
        namespace: None,
        spec: ZoneFileSpec { zone_refs: vec![zref("a", None)], config_map_name: None },
        status: None,
    };
    let r = reconcile(&file, &vec![up("f", "c")], 2024010100);
    assert_eq!(r.unwrap_err(), ReconcileError::UnresolvableNamespace { index: 0 });
}

#[test]
fn kvmap_tracks_entries_and_wellformedness() {
    let mut m: KvMap<u32> = KvMap::new();
    assert!(m.wf_check());
    m.insert_new(rkey("n", "a"), 7);
    m.insert_new(rkey("n", "b"), 9);
    assert!(m.wf_check());
    assert_eq!(m.get(&rkey("n", "a")), Some(&7));
    assert_eq!(m.get(&rkey("n", "b")), Some(&9));
    assert_eq!(m.get(&rkey("x", "a")), None);
    assert!(m.contains_key(&rkey("n", "a")));
    assert!(!m.contains_key(&rkey("n", "c")));

    let broken: KvMap<u32> =
        KvMap { entries: vec![(rkey("n", "a"), 1), (rkey("n", "a"), 2)] };
    assert!(!broken.wf_check());
}

#[test]
fn status_check_rejects_mismatched_key_sets() {
    let mut hash = KvMap::new();
    hash.insert_new(rkey("n", "a"), "f".to_string());
    let serial = KvMap::new();
    let status = ZoneFileStatus { hash, serial };
    assert!(!status.wf_check());
}

#[test]
fn empty_reference_list_is_a_no_op_without_prior_state() {
    let file = ZoneFile {
        name: "db".to_string(),
        namespace: Some("default".to_string()),
        spec: ZoneFileSpec { zone_refs: vec![], config_map_name: None },
        status: None,
    };
    let out = reconcile(&file, &vec![], 2024010100).unwrap();
    assert!(out.artifact.is_none());
    assert!(out.desired_labels.is_empty());
    assert!(!out.degraded);
}

#[test]
fn emptied_reference_list_prunes_everything() {
    let full = file_two_refs(None);
    let first = reconcile(
        &full,
        &vec![up("fa1", "a"), up("fb1", "b")],
        2024010100,
    )
    .unwrap();
    let emptied = ZoneFile {
        name: "db".to_string(),
        namespace: Some("default".to_string()),
        spec: ZoneFileSpec { zone_refs: vec![], config_map_name: None },
        status: Some(first.status),
    };
    let second = reconcile(&emptied, &vec![], 2024010200).unwrap();
    let artifact = second.artifact.expect("pruning rewrites the artifact");
    assert!(artifact.sections.is_empty());
    assert_eq!(artifact.merged_content(), "");
    assert_eq!(get_hash(&second.status, "default", "a"), None);
    assert_eq!(get_serial(&second.status, "other", "b"), None);
    assert!(second.desired_labels.is_empty());
}

#[test]
fn reference_missing_from_the_start_records_nothing() {
    let file = ZoneFile {
        name: "db".to_string(),
        namespace: Some("default".to_string()),
        spec: ZoneFileSpec { zone_refs: vec![zref("a", None)], config_map_name: None },
        status: None,
    };
    let out = reconcile(&file, &vec![None], 2024010100).unwrap();
    assert!(out.degraded);
    assert_eq!(get_hash(&out.status, "default", "a"), None);
    assert_eq!(get_serial(&out.status, "default", "a"), None);
    let artifact = out.artifact.expect("a missing reference is not an unchanged one");
    assert!(artifact.sections.is_empty());
}

#[test]
fn merged_content_concatenates_sections_in_order() {
    let file = file_two_refs(None);
    let out = reconcile(
        &file,
        &vec![up("fa1", "a-records"), up("fb1", "b-records")],
        2024010100,
    )
    .unwrap();
    let artifact = out.artifact.unwrap();
    assert_eq!(artifact.merged_content(), "a-records\nb-records\n");
}

#[test]
fn canonical_key_joins_namespace_and_name() {
    assert_eq!(canonical_key(&rkey("default", "a")), "default/a");
    assert_eq!(TARGET_ZONEFILE_LABEL, "kubi.zone/zonefile");
}
