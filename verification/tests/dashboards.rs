//! The rules of discovery, exercised against directories that are held in memory.

use std::collections::BTreeMap;
use vedavid_connector::compile::{Outcome, Tree};
use vedavid_connector::dashboards::{
    Builtin, CompiledScan, Config, Dashboards, Diagnostic, Limits, SourceFile, TreeError,
};
use vedavid_connector::pb;
use vedavid_connector::reader::{reading_order, DirectoryReader, Kind, Scan, Verdict};

/// A directory: the texts of its files by their names.
struct Dir(BTreeMap<String, String>);

impl Dir {
    fn new() -> Self {
        Self(BTreeMap::new())
    }

    fn write(&mut self, file: &str, body: &str) {
        self.0.insert(file.to_string(), body.to_string());
    }

    fn remove(&mut self, file: &str) {
        self.0.remove(file);
    }

    fn store(&self) -> Dashboards {
        self.store_with(|_| {})
    }

    fn store_with(&self, tweak: impl FnOnce(&mut Config)) -> Dashboards {
        let mut config = Config {
            path: "/dashboards".into(),
            cluster_label: "test-cluster".into(),
            sources: vec!["vedavid-dashboards".into()],
            ..Config::default()
        };
        tweak(&mut config);
        Dashboards::new(config, builtins())
    }

    /// What the limits let a scan read of the directory.
    fn read(&self, limits: &Limits) -> Option<Scan> {
        let listing: Vec<(&String, &String)> = self.0.iter().rev().collect();
        let names: Vec<Vec<u8>> = listing.iter().map(|f| f.0.clone().into_bytes()).collect();
        let mut reader = DirectoryReader::new(limits);
        for i in reading_order(Kind::Mounted, &names) {
            let path = format!("/dashboards/{}", listing[i].0);
            let text = listing[i].1.clone();
            let len = text.len() as u64;
            match reader.measure(&path, Some(len)) {
                Verdict::Abort => return None,
                Verdict::PassOver => {}
                Verdict::Read => reader.accept(path, Some(text), Some(1), len),
            }
        }
        Some(reader.finish())
    }

    fn scan(&self, store: &mut Dashboards) -> bool {
        let read = self.read(&store.config().limits).map(|scan| CompiledScan {
            files: scan
                .files
                .into_iter()
                .map(|f| SourceFile {
                    outcome: outcome(&f.text),
                    path: f.path,
                    text: f.text,
                })
                .collect(),
            fingerprint: scan.fingerprint,
        });
        store.scan(read)
    }
}

/// The reply of a compiler that knows as much of the language as the documents here
/// use: a key per line, and no variables.
fn outcome(yaml: &str) -> Outcome {
    let failure = |code: &str, message: &str| Outcome {
        tree: None,
        diagnostics: vec![Diagnostic::error(code, "elements[0].query", message.to_string())],
    };
    let value = |key: &str| yaml.lines().find_map(|l| l.strip_prefix(key));
    if yaml.contains('$') {
        return failure("E-010", "an unknown variable");
    }
    let (Some(id), Some(title)) = (value("id: "), value("title: ")) else {
        return failure("E-001", "not a dashboard");
    };
    let mut sum: u64 = 14695981039346656037;
    for b in yaml.bytes() {
        sum = (sum ^ b as u64).wrapping_mul(1099511628211);
    }
    let hash = format!("{sum:016x}");
    Outcome {
        tree: Some(Tree {
            json: format!(
                "{{\"id\":\"{id}\",\"hash\":\"{hash}\",\
                 \"sections\":[{{\"elements\":[{{\"type\":\"stat\"}}]}}]}}"
            ),
            id: id.to_string(),
            title: title.to_string(),
            hash,
            schema: 1,
        }),
        diagnostics: vec![Diagnostic {
            code: "W-001".to_string(),
            path: String::new(),
            message: "a remark".to_string(),
            error: false,
        }],
    }
}

fn builtins() -> Vec<Builtin> {
    ["cluster-health", "node-health"]
        .into_iter()
        .map(|id| Builtin {
            id: id.to_string(),
            title: format!("Built-in {id}"),
            hash: format!("hash-of-{id}"),
            schema: 1,
            json: format!("{{\"id\":\"{id}\"}}"),
        })
        .collect()
}

fn entry<'a>(inv: &'a pb::DashboardInventory, id: &str) -> &'a pb::DashboardEntry {
    inv.entries
        .iter()
        .find(|d| d.id == id)
        .unwrap_or_else(|| panic!("{id} is not in the inventory"))
}

const GOOD: &str = "\
version: 1
id: team-api
title: Team API
elements:
  - type: stat
    title: Requests
    query: sum(rate(http_requests_total[5m]))
    unit: requests_per_sec
";

/// Same id, different title, so an override is distinguishable.
const OVERRIDE: &str = "\
version: 1
id: node-health
title: Node health, ours
elements:
  - type: stat
    title: Nodes
    query: count(kube_node_info)
    unit: count
";

const BROKEN: &str = "\
version: 1
id: team-api
title: Team API
elements:
  - type: stat
    title: Requests
    query: sum(rate(http_requests_total{cluster=\"$cluster\"}[5m]))
    unit: requests_per_sec
";

#[test]
fn built_ins_are_served_with_no_mounted_directory_at_all() {
    let mut store = Dashboards::new(
        Config {
            path: "/nonexistent/vedavid/dashboards".into(),
            sources: vec!["vedavid-dashboards".into()],
            ..Config::default()
        },
        builtins(),
    );
    Dir::new().scan(&mut store);
    let inv = store.inventory();
    assert!(!inv.entries.is_empty(), "built-ins should still load");
    assert!(inv
        .entries
        .iter()
        .all(|d| d.source == pb::DashboardSource::Builtin));
    assert!(inv
        .entries
        .iter()
        .all(|d| d.status == pb::DashboardStatus::Okay));
}

#[test]
fn a_mounted_file_is_added_and_its_tree_is_held() {
    let mut dir = Dir::new();
    dir.write("team-api.yaml", GOOD);
    let mut store = dir.store();
    dir.scan(&mut store);

    let inv = store.inventory();
    let e = entry(&inv, "team-api");
    assert_eq!(e.title, "Team API");
    assert_eq!(e.source, pb::DashboardSource::Mounted);
    assert_eq!(e.schema, 1);
    assert!(!e.hash.is_empty());

    let doc = store.render_tree("team-api").expect("a held render tree");
    assert_eq!(doc.hash, e.hash);
    let json: serde_json::Value = serde_json::from_slice(&doc.json).expect("valid JSON");
    assert_eq!(json["id"], "team-api");
    assert_eq!(json["sections"][0]["elements"][0]["type"], "stat");
}

#[test]
fn a_mounted_file_replaces_a_built_in_of_the_same_id() {
    let mut dir = Dir::new();
    dir.write("node-health.yaml", OVERRIDE);
    let mut store = dir.store();
    dir.scan(&mut store);

    let inv = store.inventory();
    let e = entry(&inv, "node-health");
    assert_eq!(e.title, "Node health, ours");
    assert_eq!(e.source, pb::DashboardSource::Mounted);
    assert_eq!(
        inv.entries.iter().filter(|d| d.id == "node-health").count(),
        1,
        "the built-in is replaced, not duplicated"
    );
}

/// A bad merge must not remove a working dashboard.
#[test]
fn a_file_that_stops_compiling_keeps_serving_its_last_good_tree() {
    let mut dir = Dir::new();
    dir.write("team-api.yaml", GOOD);
    let mut store = dir.store();
    dir.scan(&mut store);
    let good_hash = entry(&store.inventory(), "team-api").hash.clone();

    dir.write("team-api.yaml", BROKEN);
    dir.scan(&mut store);

    let inv = store.inventory();
    let e = entry(&inv, "team-api");
    assert_eq!(e.status, pb::DashboardStatus::Stale);
    assert_eq!(e.hash, good_hash, "the last good tree is still served");
    assert_eq!(e.diagnostics[0].code, "E-010");
    assert!(store.render_tree("team-api").is_ok());
}

#[test]
fn a_file_that_never_compiled_is_reported_as_failed_with_no_tree() {
    let mut dir = Dir::new();
    dir.write("team-api.yaml", BROKEN);
    let mut store = dir.store();
    dir.scan(&mut store);

    let inv = store.inventory();
    let e = entry(&inv, "team-api");
    assert_eq!(e.status, pb::DashboardStatus::Failed);
    assert_eq!(e.diagnostics[0].code, "E-010");
    assert!(store.render_tree("team-api").is_err());
}

/// Failure granularity is per dashboard.
#[test]
fn one_broken_file_does_not_disturb_the_others() {
    let mut dir = Dir::new();
    dir.write("team-api.yaml", BROKEN);
    dir.write("node-health.yaml", OVERRIDE);
    let mut store = dir.store();
    dir.scan(&mut store);

    let inv = store.inventory();
    assert_eq!(entry(&inv, "team-api").status, pb::DashboardStatus::Failed);
    assert_eq!(entry(&inv, "node-health").status, pb::DashboardStatus::Okay);
    assert_eq!(
        entry(&inv, "cluster-health").status,
        pb::DashboardStatus::Okay
    );
}

/// The relay detects change by comparing one integer, so it must not move
/// when nothing changed.
#[test]
fn the_generation_advances_only_on_a_real_change() {
    let mut dir = Dir::new();
    dir.write("team-api.yaml", GOOD);
    let mut store = dir.store();

    dir.scan(&mut store);
    let first = store.inventory().generation;
    dir.scan(&mut store);
    assert_eq!(store.inventory().generation, first, "a no-op rescan");

    dir.write(
        "team-api.yaml",
        GOOD.replace("Team API", "Team API v2").as_str(),
    );
    dir.scan(&mut store);
    let second = store.inventory().generation;
    assert!(second > first, "a changed title is a change");

    dir.remove("team-api.yaml");
    dir.scan(&mut store);
    assert!(
        store.inventory().generation > second,
        "a removed file is a change"
    );
    assert!(store.render_tree("team-api").is_err());
}

#[test]
fn the_cluster_label_is_announced() {
    let dir = Dir::new();
    let mut store = dir.store();
    dir.scan(&mut store);
    assert_eq!(store.inventory().cluster_label, "test-cluster");
}

#[test]
fn a_file_too_malformed_to_name_itself_is_ignored_rather_than_guessed_at() {
    let mut dir = Dir::new();
    dir.write("junk.yaml", "this: is not: valid yaml: at all\n  - [\n");
    dir.write("team-api.yaml", GOOD);
    let mut store = dir.store();
    dir.scan(&mut store);

    let inv = store.inventory();
    assert_eq!(entry(&inv, "team-api").status, pb::DashboardStatus::Okay);
    assert!(
        inv.entries.iter().all(|d| d.id != "junk"),
        "the filename is not used as an id"
    );
}

#[test]
fn subscribers_are_woken_on_change_and_not_otherwise() {
    let mut dir = Dir::new();
    dir.write("team-api.yaml", GOOD);
    let mut store = dir.store();
    dir.scan(&mut store);

    let mut rx = store.subscribe();
    assert!(rx.try_recv().is_err(), "no event before a change");

    dir.write("team-api.yaml", OVERRIDE);
    dir.scan(&mut store);
    assert!(rx.try_recv().is_ok(), "a change wakes the stream");

    dir.scan(&mut store);
    assert!(rx.try_recv().is_err(), "a rescan does not");
}

#[test]
fn status_reports_what_the_app_needs_to_say_three_of_four_loaded() {
    let mut dir = Dir::new();
    dir.write("team-api.yaml", BROKEN);
    let mut store = dir.store();
    dir.scan(&mut store);

    let inv = store.inventory();
    let ok = inv
        .entries
        .iter()
        .filter(|d| d.status == pb::DashboardStatus::Okay)
        .count();
    assert_eq!(ok, inv.entries.len() - 1);
}

/// Filename order carries no meaning here.
#[test]
fn two_files_declaring_one_id_admit_neither_and_name_both() {
    let mut dir = Dir::new();
    dir.write("a.yaml", GOOD);
    dir.write("b.yaml", &GOOD.replace("Team API", "Team API elsewhere"));
    let mut store = dir.store();
    dir.scan(&mut store);

    let inv = store.inventory();
    let e = entry(&inv, "team-api");
    assert_eq!(e.status, pb::DashboardStatus::Failed);
    let message = &e.diagnostics[0].message;
    assert!(message.contains("a.yaml"), "{message}");
    assert!(message.contains("b.yaml"), "{message}");
    assert!(store.render_tree("team-api").is_err());

    assert_eq!(e.diagnostics.len(), 1);
    assert_eq!(e.diagnostics[0].code, "E-100");
    assert_eq!(
        message,
        "`team-api` is declared by more than one file: /dashboards/a.yaml, /dashboards/b.yaml"
    );
}

/// The counters are the only signal for a chart and generator name mismatch.
#[test]
fn counters_expose_a_mount_that_delivered_nothing() {
    let mut dir = Dir::new();
    let mut store = dir.store();
    dir.scan(&mut store);

    let inv = store.inventory();
    assert_eq!(inv.mounted_sources_seen, 1, "one source is configured");
    assert_eq!(inv.files_scanned, 0, "and it delivered nothing");
    assert!(!inv.entries.is_empty(), "built-ins are still served");

    dir.write("team-api.yaml", GOOD);
    dir.scan(&mut store);
    assert_eq!(store.inventory().files_scanned, 1);
}

#[test]
fn a_file_larger_than_its_limit_is_rejected_without_disturbing_the_others() {
    let mut dir = Dir::new();
    dir.write("team-api.yaml", GOOD);
    dir.write("huge.yaml", &format!("{GOOD}# {}\n", "x".repeat(4096)));
    let mut store = dir.store_with(|c| {
        c.limits = Limits {
            max_dashboard_bytes: 512,
            ..Limits::default()
        }
    });
    dir.scan(&mut store);

    let inv = store.inventory();
    assert_eq!(entry(&inv, "team-api").status, pb::DashboardStatus::Okay);
    assert_eq!(inv.files_scanned, 1, "the oversized file is not scanned");
}

/// A projection far larger than expected must not empty a working inventory.
#[test]
fn a_directory_over_its_limit_retains_the_previous_inventory() {
    let mut dir = Dir::new();
    dir.write("team-api.yaml", GOOD);
    let mut store = dir.store_with(|c| {
        c.limits = Limits {
            max_directory_bytes: 100_000,
            ..Limits::default()
        }
    });
    dir.scan(&mut store);
    let before = store.inventory().generation;
    assert!(store.render_tree("team-api").is_ok());

    dir.write("bulk.yaml", &"# padding\n".repeat(20_000));
    dir.scan(&mut store);

    let inv = store.inventory();
    assert_eq!(inv.generation, before, "the scan aborted");
    assert!(
        store.render_tree("team-api").is_ok(),
        "the good tree survives"
    );
}

#[test]
fn more_dashboards_than_the_limit_allows_are_dropped_by_sorted_id() {
    let mut dir = Dir::new();
    for n in 0..6 {
        dir.write(
            &format!("d{n}.yaml"),
            &GOOD.replace("id: team-api", &format!("id: dash-{n}")),
        );
    }
    let mut store = dir.store_with(|c| {
        c.builtins = false;
        c.limits = Limits {
            max_dashboards: 3,
            ..Limits::default()
        };
    });
    dir.scan(&mut store);

    let inv = store.inventory();
    assert_eq!(inv.entries.len(), 3);
    let ids: Vec<&str> = inv.entries.iter().map(|e| e.id.as_str()).collect();
    assert_eq!(ids, ["dash-0", "dash-1", "dash-2"]);
}

#[test]
fn built_ins_can_be_turned_off_entirely() {
    let mut dir = Dir::new();
    dir.write("team-api.yaml", GOOD);
    let mut store = dir.store_with(|c| c.builtins = false);
    dir.scan(&mut store);

    let inv = store.inventory();
    assert_eq!(inv.entries.len(), 1);
    assert_eq!(inv.entries[0].id, "team-api");
}

/// A connector that could serve nothing at all is a misconfiguration.
#[test]
fn a_configuration_that_can_serve_nothing_is_refused() {
    let bad = Config {
        builtins: false,
        sources: vec![],
        ..Config::default()
    };
    assert!(bad.validate().is_err());

    let first_install = Config {
        builtins: true,
        sources: vec![],
        ..Config::default()
    };
    assert!(
        first_install.validate().is_ok(),
        "no dashboards yet is fine"
    );

    let disabled = Config {
        enabled: false,
        builtins: false,
        sources: vec![],
        ..Config::default()
    };
    assert!(disabled.validate().is_ok());
}

#[test]
fn the_cluster_label_falls_back_to_something_identifying() {
    let dir = Dir::new();
    let mut store = dir.store_with(|c| c.cluster_label = String::new());
    dir.scan(&mut store);
    assert_eq!(store.inventory().cluster_label, "");

    store.set_fallback_label("22222222");
    assert_eq!(store.inventory().cluster_label, "22222222");
}

/// Built-ins are compiled beforehand, so their trees are present without any
/// YAML being parsed at startup.
#[test]
fn built_in_trees_are_embedded_already_compiled() {
    let mut store = Dashboards::new(
        Config {
            path: "/nonexistent".into(),
            ..Config::default()
        },
        builtins(),
    );
    Dir::new().scan(&mut store);
    let tree = store
        .render_tree("cluster-health")
        .expect("a built-in tree");
    assert!(!tree.hash.is_empty());
    assert_eq!(tree.schema, 1);
    let json: serde_json::Value = serde_json::from_slice(&tree.json).unwrap();
    assert_eq!(json["id"], "cluster-health");
}

/// A document that compiles, with the given id and title.
fn document(id: &str, title: &str) -> String {
    format!("version: 1\nid: {id}\ntitle: {title}\nelements: []\n")
}

/// A document that declares the given id and does not compile.
fn broken(id: &str) -> String {
    format!("version: 1\nid: {id}\ntitle: $title\n")
}

/// How often a receiver is woken.
fn wakes(rx: &mut tokio::sync::broadcast::Receiver<()>) -> usize {
    let mut n = 0;
    while rx.try_recv().is_ok() {
        n += 1;
    }
    n
}

#[test]
fn a_store_that_has_not_scanned_announces_nothing() {
    let mut store = Dir::new().store();
    store.set_fallback_label("fallback");
    assert_eq!(
        store.inventory(),
        pb::DashboardInventory {
            generation: 0,
            cluster_label: "test-cluster".to_string(),
            entries: vec![],
            mounted_sources_seen: 1,
            files_scanned: 0,
        }
    );
    assert_eq!(store.generation(), 0);
    assert_eq!(store.path(), "/dashboards");
    assert_eq!(store.config().poll, 30);
}

#[test]
fn an_announced_entry_holds_all_but_the_tree() {
    let mut dir = Dir::new();
    dir.write("b.yaml", &broken("late"));
    let mut store = dir.store_with(|c| c.limits.max_dashboards = 10);
    assert!(dir.scan(&mut store));
    let inv = store.inventory();
    assert_eq!(inv.generation, 1);
    assert_eq!(inv.files_scanned, 1);
    assert_eq!(
        inv.entries[0],
        pb::DashboardEntry {
            id: "cluster-health".to_string(),
            title: "Built-in cluster-health".to_string(),
            hash: "hash-of-cluster-health".to_string(),
            source: pb::DashboardSource::Builtin,
            schema: 1,
            status: pb::DashboardStatus::Okay,
            diagnostics: vec![],
            diagnostics_truncated: 0,
        }
    );
    assert_eq!(
        inv.entries[1],
        pb::DashboardEntry {
            id: "late".to_string(),
            title: String::new(),
            hash: String::new(),
            source: pb::DashboardSource::Mounted,
            schema: 0,
            status: pb::DashboardStatus::Failed,
            diagnostics: vec![pb::DashboardDiagnostic {
                code: "E-010".to_string(),
                message: "an unknown variable".to_string(),
                path: "elements[0].query".to_string(),
            }],
            diagnostics_truncated: 0,
        }
    );
    assert_eq!(
        store.render_tree("cluster-health").unwrap(),
        pb::RenderTree {
            id: "cluster-health".to_string(),
            hash: "hash-of-cluster-health".to_string(),
            schema: 1,
            json: b"{\"id\":\"cluster-health\"}".to_vec(),
        }
    );
}

#[test]
fn an_unknown_dashboard_is_told_from_one_that_never_compiled() {
    let mut dir = Dir::new();
    dir.write("team-api.yaml", BROKEN);
    let mut store = dir.store();
    assert_eq!(store.render_tree("team-api").unwrap_err(), TreeError::Unknown);
    dir.scan(&mut store);
    assert_eq!(
        store.render_tree("team-api").unwrap_err(),
        TreeError::NeverCompiled
    );
    assert_eq!(store.render_tree("team").unwrap_err(), TreeError::Unknown);
    assert_eq!(store.render_tree("").unwrap_err(), TreeError::Unknown);
    dir.remove("team-api.yaml");
    dir.scan(&mut store);
    assert_eq!(store.render_tree("team-api").unwrap_err(), TreeError::Unknown);
}

#[test]
fn the_inventory_and_the_trees_agree_after_each_scan() {
    let mut dir = Dir::new();
    let mut store = dir.store();
    let steps: Vec<Vec<(&str, String)>> = vec![
        vec![("a.yaml", document("one", "One"))],
        vec![("a.yaml", broken("one")), ("b.yaml", broken("two"))],
        vec![("c.yaml", document("two", "Two"))],
        vec![("b.yaml", document("three", "Three")), ("a.yaml", "junk".to_string())],
        vec![("d.yaml", broken("node-health"))],
    ];
    for step in steps {
        for (file, body) in step {
            dir.write(file, &body);
        }
        dir.scan(&mut store);
        let inv = store.inventory();
        for e in &inv.entries {
            match store.render_tree(&e.id) {
                Ok(tree) => {
                    assert_ne!(e.status, pb::DashboardStatus::Failed);
                    assert_eq!((&tree.id, &tree.hash, tree.schema), (&e.id, &e.hash, e.schema));
                }
                Err(err) => {
                    assert_eq!(e.status, pb::DashboardStatus::Failed);
                    assert_eq!(err, TreeError::NeverCompiled);
                }
            }
            assert_eq!(e.status == pb::DashboardStatus::Okay, e.diagnostics.is_empty());
        }
        assert!(inv.entries.windows(2).all(|w| w[0].id < w[1].id));
    }
    let inv = store.inventory();
    let node = entry(&inv, "node-health");
    assert_eq!(node.status, pb::DashboardStatus::Stale, "the embedded tree is kept");
    assert_eq!(node.source, pb::DashboardSource::Mounted);
    assert_eq!(node.hash, "hash-of-node-health");
    assert_eq!(node.title, "Built-in node-health");
}

#[test]
fn a_scan_that_was_given_up_leaves_the_store_as_it_was() {
    let mut dir = Dir::new();
    dir.write("team-api.yaml", GOOD);
    let mut store = dir.store();
    assert!(dir.scan(&mut store));
    let before = store.inventory();
    let mut rx = store.subscribe();
    assert!(!store.scan(None));
    assert_eq!(store.inventory(), before);
    assert_eq!(wakes(&mut rx), 0);
}

#[test]
fn a_store_that_is_switched_off_never_changes() {
    let mut dir = Dir::new();
    dir.write("team-api.yaml", GOOD);
    let mut store = dir.store_with(|c| c.enabled = false);
    assert!(!dir.scan(&mut store));
    assert!(store.inventory().entries.is_empty());
    assert_eq!(store.inventory().files_scanned, 0);
    assert_eq!(store.generation(), 0);
}

#[test]
fn a_rescan_changes_nothing_at_all() {
    let mut dir = Dir::new();
    dir.write("a.yaml", &document("one", "One"));
    dir.write("b.yaml", &broken("two"));
    dir.write("c.yaml", &document("three", "Three"));
    dir.write("d.yaml", &document("three", "Three again"));
    let mut store = dir.store_with(|c| c.limits.max_dashboards = 4);
    assert!(dir.scan(&mut store));
    let first = store.inventory();
    assert_eq!(first.entries.len(), 4);
    assert!(!dir.scan(&mut store));
    assert_eq!(store.inventory(), first);
}

#[test]
fn the_generation_counts_the_changes_and_so_do_the_wakes() {
    let mut dir = Dir::new();
    let mut store = dir.store_with(|c| c.builtins = false);
    let mut rx = store.subscribe();
    assert!(!dir.scan(&mut store), "nothing to nothing is no change");
    dir.write("a.yaml", &document("one", "One"));
    assert!(dir.scan(&mut store));
    assert!(!dir.scan(&mut store));
    dir.write("a.yaml", &broken("one"));
    assert!(dir.scan(&mut store), "the status moved");
    dir.remove("a.yaml");
    assert!(dir.scan(&mut store));
    assert_eq!(store.generation(), 3);
    assert_eq!(wakes(&mut rx), 3);
    assert_eq!(wakes(&mut store.subscribe()), 0, "the past is not told again");
}

#[test]
fn a_moved_file_is_no_change() {
    let mut dir = Dir::new();
    dir.write("a.yaml", &document("one", "One"));
    let mut store = dir.store();
    dir.scan(&mut store);
    dir.remove("a.yaml");
    dir.write("z.yml", &document("one", "One"));
    assert!(!dir.scan(&mut store), "the file name is no identity");
    assert_eq!(store.generation(), 1);
}

#[test]
fn a_slow_subscriber_is_kept_four_changes() {
    let mut dir = Dir::new();
    let mut store = dir.store();
    let mut rx = store.subscribe();
    for n in 0..6 {
        dir.write("a.yaml", &document("one", &format!("Title {n}")));
        assert!(dir.scan(&mut store));
    }
    assert_eq!(
        rx.try_recv(),
        Err(tokio::sync::broadcast::error::TryRecvError::Lagged(2))
    );
    assert_eq!(wakes(&mut rx), 4);
}

#[test]
fn the_last_good_tree_outlives_any_number_of_failures() {
    let mut dir = Dir::new();
    dir.write("a.yaml", &document("one", "One"));
    let mut store = dir.store();
    dir.scan(&mut store);
    let good = store.render_tree("one").unwrap();
    for n in 0..3 {
        dir.write("a.yaml", &format!("{}# try {n}\n", broken("one")));
        dir.scan(&mut store);
        store.scan(None);
        assert_eq!(store.render_tree("one").unwrap(), good);
    }
    assert_eq!(store.generation(), 2, "one failure more is no change");
    dir.write("a.yaml", &document("one", "One more"));
    assert!(dir.scan(&mut store));
    assert_eq!(entry(&store.inventory(), "one").status, pb::DashboardStatus::Okay);
    assert_ne!(store.render_tree("one").unwrap(), good);
}

#[test]
fn a_contested_id_loses_even_the_tree_that_was_served() {
    let mut dir = Dir::new();
    dir.write("a.yaml", &document("one", "One"));
    let mut store = dir.store();
    dir.scan(&mut store);
    dir.write("b.yaml", &broken("one"));
    dir.write("c.yml", &document("one", "One again"));
    dir.scan(&mut store);
    assert_eq!(store.render_tree("one").unwrap_err(), TreeError::NeverCompiled);
    assert_eq!(
        entry(&store.inventory(), "one").diagnostics[0].message,
        "`one` is declared by more than one file: /dashboards/a.yaml, /dashboards/b.yaml, \
         /dashboards/c.yml"
    );
}

#[test]
fn of_embedded_dashboards_with_one_id_the_last_counts() {
    let mut twice = builtins();
    twice.push(Builtin {
        title: "The other".to_string(),
        hash: "other".to_string(),
        id: "cluster-health".to_string(),
        schema: 2,
        json: "{}".to_string(),
    });
    let mut store = Dashboards::new(Config::default(), twice);
    Dir::new().scan(&mut store);
    let inv = store.inventory();
    assert_eq!(inv.entries.len(), 2);
    assert_eq!(entry(&inv, "cluster-health").hash, "other");
    assert_eq!(store.render_tree("cluster-health").unwrap().json, b"{}");
}

#[test]
fn a_bad_file_disturbs_no_other_dashboard() {
    let mut dir = Dir::new();
    dir.write("a.yaml", &document("one", "One"));
    let mut alone = dir.store();
    dir.scan(&mut alone);
    dir.write("b.yaml", &broken("two"));
    dir.write("c.yaml", "\u{0}");
    let mut beside = dir.store();
    dir.scan(&mut beside);
    assert_eq!(alone.render_tree("one").unwrap(), beside.render_tree("one").unwrap());
    assert_eq!(
        entry(&alone.inventory(), "one"),
        entry(&beside.inventory(), "one")
    );
    assert_eq!(alone.inventory().entries.len() + 1, beside.inventory().entries.len());
}

#[test]
fn the_limit_counts_embedded_and_mounted_dashboards_alike() {
    let mut dir = Dir::new();
    dir.write("a.yaml", &document("zebra", "Z"));
    dir.write("b.yaml", &document("aardvark", "A"));
    for (limit, ids) in [
        (0, vec![]),
        (1, vec!["aardvark"]),
        (3, vec!["aardvark", "cluster-health", "node-health"]),
        (4, vec!["aardvark", "cluster-health", "node-health", "zebra"]),
        (usize::MAX, vec!["aardvark", "cluster-health", "node-health", "zebra"]),
    ] {
        let mut store = dir.store_with(|c| c.limits.max_dashboards = limit);
        dir.scan(&mut store);
        let inv = store.inventory();
        let found: Vec<&str> = inv.entries.iter().map(|e| e.id.as_str()).collect();
        assert_eq!(found, ids);
        assert_eq!(inv.files_scanned, 2);
    }
}

#[test]
fn a_label_that_is_set_beats_the_fallback() {
    let mut store = Dir::new().store();
    store.set_fallback_label("22222222");
    assert_eq!(store.inventory().cluster_label, "test-cluster");
}

#[test]
fn a_comment_on_the_id_line_does_not_lose_the_last_good_tree() {
    for line in ["id: team-api # ours", "id: \"team-api\" # ours", "id: 'team-api'", "id: \"team-api", "id: \"\"team-api\"\""] {
        let mut dir = Dir::new();
        dir.write("team-api.yaml", GOOD);
        let mut store = dir.store();
        dir.scan(&mut store);
        let good = store.render_tree("team-api").unwrap();

        dir.write("team-api.yaml", &BROKEN.replace("id: team-api", line));
        dir.scan(&mut store);
        let inv = store.inventory();
        assert_eq!(entry(&inv, "team-api").status, pb::DashboardStatus::Stale, "{line}");
        assert_eq!(inv.entries.len(), 3, "{line}");
        assert_eq!(store.render_tree("team-api").unwrap(), good, "{line}");

        dir.write("again.yaml", &GOOD.replace("Team API", "Team API elsewhere"));
        dir.scan(&mut store);
        assert_eq!(
            entry(&store.inventory(), "team-api").diagnostics[0].code,
            "E-100",
            "{line}"
        );
    }
}

#[test]
fn each_subscriber_is_told_of_each_later_change() {
    let mut dir = Dir::new();
    let mut store = dir.store();
    let mut early = store.subscribe();
    dir.scan(&mut store);
    dir.write("a.yaml", &document("one", "One"));
    dir.scan(&mut store);
    let mut late = store.subscribe();
    store.set_fallback_label("label");
    dir.write("a.yaml", &document("one", "Two"));
    dir.scan(&mut store);
    dir.scan(&mut store);
    assert_eq!(wakes(&mut early), 3);
    assert_eq!(wakes(&mut late), 1);
}

#[test]
fn a_broken_file_moves_no_other_dashboard_over_the_limit() {
    let mut dir = Dir::new();
    for id in ["a", "b", "c"] {
        dir.write(&format!("{id}.yaml"), &document(id, id));
    }
    let ids = |store: &Dashboards| -> Vec<String> {
        store.inventory().entries.into_iter().map(|e| e.id).collect()
    };
    let mut store = dir.store_with(|c| {
        c.builtins = false;
        c.limits.max_dashboards = 2;
    });
    dir.scan(&mut store);
    assert_eq!(ids(&store), ["a", "b"]);
    let kept = store.render_tree("b").unwrap();
    dir.write("a.yaml", &broken("a"));
    dir.scan(&mut store);
    assert_eq!(ids(&store), ["a", "b"]);
    assert_eq!(store.render_tree("b").unwrap(), kept);
    assert_eq!(store.render_tree("c").unwrap_err(), TreeError::Unknown);
}

#[test]
fn what_a_scan_would_do_can_be_asked_beforehand() {
    let scan = |files: Vec<SourceFile>| CompiledScan { files, fingerprint: vec![] };
    let file = |path: &str, text: String| SourceFile {
        path: path.to_string(),
        outcome: outcome(&text),
        text,
    };
    let mut store = Dir::new().store_with(|c| c.limits.max_dashboards = 2);
    assert!(!store.would_change(&None));
    let found = scan(vec![
        file("1", document("x", "X")),
        file("2", document("x", "Y")),
        file("3", document("y", "Y")),
    ]);
    let offered = store.offered(&found);
    let ids: Vec<&str> = (0..offered.len()).map(|i| offered.at(i).id.as_str()).collect();
    assert_eq!(ids, ["cluster-health", "node-health", "x", "y"]);
    assert_eq!(offered.at(2).diagnostics[0].code, "E-100");
    let found = Some(found);
    assert!(store.would_change(&found));
    assert_eq!(store.generation(), 0);
    assert!(store.scan(found));
    assert!(!store.would_change(&Some(scan(vec![]))), "the limit hides the mounted ones");

    let off = Dir::new().store_with(|c| c.enabled = false);
    assert!(!off.would_change(&Some(scan(vec![]))));
}

#[test]
fn text_after_a_closing_mark_makes_another_id() {
    let mut dir = Dir::new();
    dir.write("a.yaml", GOOD);
    dir.write("b.yaml", &broken("\"team-api\"-staging"));
    let mut store = dir.store();
    dir.scan(&mut store);
    let inv = store.inventory();
    assert_eq!(entry(&inv, "team-api").status, pb::DashboardStatus::Okay);
    assert_eq!(
        entry(&inv, "team-api\"-staging").status,
        pb::DashboardStatus::Failed
    );
    assert!(store.render_tree("team-api").is_ok());
}
