use m1_doc::limits::render_inputs_fit;
use m1_doc::scope::parse_levels;
use m1_doc::suggest::{edit_distance, nearest_group};
use std::collections::BTreeSet;
use m1_doc::model::{
    AnchoredKind, CanMessageDoc, CanSignalDoc, DocModel, EnumDoc, FunctionDoc, GroupDoc, ObjectDoc, ProjectGraph,
    ReferenceDoc, SymbolDoc, SymbolDocKind, TableDoc,
};

/// A two-level model with mixed kinds: stats must count every component and
/// the structural metrics from the model alone (#32).
fn stats_model() -> DocModel {
    DocModel {
        title: "Demo".into(),
        target_hardware: None,
        enums: vec![EnumDoc {
            name: "Switch".into(),
            anchor: "switch".into(),
            ..Default::default()
        }],
        groups: vec![
            GroupDoc {
                path: "Root".into(),
                children: vec!["Root.Engine".into()],
                ..Default::default()
            },
            GroupDoc {
                path: "Root.Engine".into(),
                symbols: vec![
                    SymbolDoc {
                        path: "Root.Engine.Speed".into(),
                        kind: SymbolDocKind::Channel,
                        security: Some("Tune".into()),
                        tags: vec!["engine".into()],
                        ..Default::default()
                    },
                    SymbolDoc {
                        path: "Root.Engine.Gain".into(),
                        kind: SymbolDocKind::Parameter,
                        security: Some("Calibration".into()),
                        tags: vec!["engine".into(), "fuel".into()],
                        ..Default::default()
                    },
                ],
                functions: vec![FunctionDoc {
                    path: "Root.Engine.Update".into(),
                    ..Default::default()
                }],
                ..Default::default()
            },
        ],
        graph: m1_doc::model::ProjectGraph::default(),
        m1prj_path: None,
    }
}

#[test]
fn stats_count_every_kind_and_structure() {
    let s = stats_model().stats();
    assert_eq!(s.channels, 1);
    assert_eq!(s.parameters, 1);
    assert_eq!(s.functions, 1);
    assert_eq!(s.enums, 1);
    assert_eq!(s.groups, 2);
    assert_eq!(s.top_level_groups, 1, "only Root is a forest root");
    assert_eq!(s.max_depth, 2, "Root.Engine is two segments deep");
    assert_eq!(s.total_components(), 3, "1 channel + 1 param + 1 function");
}

#[test]
fn top_level_tree_lists_forest_roots_with_direct_counts() {
    let tree = stats_model().top_level_tree();
    assert_eq!(tree.len(), 1, "only Root is top-level");
    assert_eq!(tree[0].path, "Root");
    // Root itself carries no direct members; its children hold them.
    assert_eq!(tree[0].direct_count, 0);
    // The subtree rolls up the 3 components under Root.Engine.
    assert_eq!(tree[0].subtree_count, 3);
    assert!(tree[0].has_children, "Root has the Engine child group");
}

#[test]
fn security_levels_are_sorted_deduped() {
    let levels = stats_model().security_levels();
    assert_eq!(levels, vec!["Calibration".to_string(), "Tune".to_string()]);
}

#[test]
fn tags_are_sorted_deduped_across_symbols() {
    let tags = stats_model().tags();
    assert_eq!(tags, vec!["engine".to_string(), "fuel".to_string()]);
}

// ---- #34: --only-security / --only-tag scoped generation ----

#[test]
fn retain_scoped_by_security_keeps_only_matching_symbols() {
    let mut m = stats_model();
    m.retain_scoped(Some(&["Tune".to_string()]), None);
    // Root (ancestor) + Root.Engine (has the Tune symbol) survive.
    assert_eq!(
        m.groups.iter().map(|g| g.path.as_str()).collect::<Vec<_>>(),
        vec!["Root", "Root.Engine"]
    );
    let eng = m.groups.iter().find(|g| g.path == "Root.Engine").unwrap();
    assert_eq!(eng.symbols.len(), 1);
    assert_eq!(eng.symbols[0].path, "Root.Engine.Speed");
    // A scoped view drops non-symbol entities.
    assert!(
        eng.functions.is_empty(),
        "functions dropped in a scoped view"
    );
    // The ancestor still links its kept child.
    let root = m.groups.iter().find(|g| g.path == "Root").unwrap();
    assert_eq!(root.children, vec!["Root.Engine".to_string()]);
    // The Calibration-only enum reference set is rebuilt (Switch unused here).
    assert!(m.enums.is_empty());
}

#[test]
fn retain_scoped_by_tag_keeps_only_tagged_symbols() {
    let mut m = stats_model();
    m.retain_scoped(None, Some("fuel"));
    let eng = m.groups.iter().find(|g| g.path == "Root.Engine").unwrap();
    assert_eq!(eng.symbols.len(), 1);
    assert_eq!(
        eng.symbols[0].path, "Root.Engine.Gain",
        "only the fuel-tagged symbol"
    );
}

#[test]
fn retain_scoped_intersects_security_and_tag_and_prunes_empty() {
    let mut m = stats_model();
    // Tune AND fuel: Speed is Tune-but-not-fuel, Gain is fuel-but-Calibration
    // → nothing matches → every group is pruned.
    m.retain_scoped(Some(&["Tune".to_string()]), Some("fuel"));
    assert!(m.groups.is_empty(), "no symbol matches both → empty model");
}

#[test]
fn retain_scoped_multiple_security_levels() {
    let mut m = stats_model();
    m.retain_scoped(Some(&["Tune".to_string(), "Calibration".to_string()]), None);
    let eng = m.groups.iter().find(|g| g.path == "Root.Engine").unwrap();
    assert_eq!(
        eng.symbols.len(),
        2,
        "both Tune and Calibration symbols kept"
    );
}

#[test]
fn empty_model_has_zeroed_stats_and_no_facets() {
    let m = DocModel::default();
    let s = m.stats();
    assert_eq!(s.total_components(), 0);
    assert_eq!(s.max_depth, 0);
    assert!(m.security_levels().is_empty());
    assert!(m.tags().is_empty());
    assert!(m.top_level_tree().is_empty());
}

// ---- the single anchored-entity traversal the deep-link consumers share ----

/// A model holding one of every anchored kind, so a single walk can assert
/// the shared iterator covers them all (the historical drift: the search
/// index and the graph node-href map walked different subsets by hand).
fn one_of_every_anchored_kind() -> DocModel {
    DocModel {
        title: "Demo".into(),
        target_hardware: None,
        enums: vec![EnumDoc {
            name: "Switch".into(),
            anchor: "switch".into(),
            ..Default::default()
        }],
        groups: vec![GroupDoc {
            path: "Root.Engine".into(),
            symbols: vec![SymbolDoc {
                path: "Root.Engine.Speed".into(),
                anchor: "root-engine-speed".into(),
                ..Default::default()
            }],
            functions: vec![FunctionDoc {
                path: "Root.Engine.Update".into(),
                anchor: "root-engine-update".into(),
                ..Default::default()
            }],
            tables: vec![TableDoc {
                path: "Root.Engine.Map".into(),
                anchor: "root-engine-map".into(),
                ..Default::default()
            }],
            objects: vec![ObjectDoc {
                path: "Root.Engine.Sensor".into(),
                anchor: "root-engine-sensor".into(),
                ..Default::default()
            }],
            can_messages: vec![CanMessageDoc {
                path: "Root.Engine.Frame".into(),
                anchor: "root-engine-frame".into(),
                signals: vec![CanSignalDoc {
                    path: "Root.Engine.Frame.Rpm".into(),
                    anchor: "root-engine-frame-rpm".into(),
                    ..Default::default()
                }],
                ..Default::default()
            }],
            references: vec![ReferenceDoc {
                path: "Root.Engine.Alias".into(),
                anchor: "root-engine-alias".into(),
                ..Default::default()
            }],
            ..Default::default()
        }],
        graph: ProjectGraph::default(),
        m1prj_path: None,
    }
}

#[test]
fn anchored_entities_cover_all_eight_kinds_with_canonical_hrefs() {
    let m = one_of_every_anchored_kind();
    let ents = m.anchored_entities();

    // Every anchored kind is present exactly once — the search index and the
    // graph node-href map both build on this, so none can be silently missed.
    // The lone symbol defaults to Channel.
    let kinds: BTreeSet<_> = ents.iter().map(|e| e.kind.label().to_string()).collect();
    assert_eq!(
        kinds,
        BTreeSet::from([
            "channel".to_string(),
            "function".to_string(),
            "table".to_string(),
            "object".to_string(),
            "CAN message".to_string(),
            "CAN signal".to_string(),
            "reference".to_string(),
            "enum".to_string(),
        ]),
        "anchored_entities must cover all eight anchored kinds"
    );

    // Group-page entities deep-link to <group>.html#<anchor>; the enum
    // deep-links to the shared enums.html page. href() is the one place the
    // link shape is built, so both consumers agree by construction.
    let by_path: std::collections::HashMap<&str, String> =
        ents.iter().map(|e| (e.path, e.href())).collect();
    assert_eq!(
        by_path["Root.Engine.Speed"],
        "Root.Engine.html#root-engine-speed"
    );
    assert_eq!(
        by_path["Root.Engine.Frame.Rpm"],
        "Root.Engine.html#root-engine-frame-rpm"
    );
    assert_eq!(by_path["Switch"], "enums.html#switch");

    // The hint travels with the entity so the search index need not re-walk
    // the model to recover it (here every fixture entity leaves it empty).
    assert!(ents.iter().all(|e| e.hint.is_empty()));
}

#[test]
fn anchored_entities_signal_follows_its_message() {
    let m = one_of_every_anchored_kind();
    let ents = m.anchored_entities();
    let msg = ents
        .iter()
        .position(|e| e.kind == AnchoredKind::CanMessage)
        .unwrap();
    let sig = ents
        .iter()
        .position(|e| e.kind == AnchoredKind::CanSignal)
        .unwrap();
    assert_eq!(sig, msg + 1, "a signal is yielded right after its message");
}

#[test]
fn security_level_lists_are_split_trimmed_and_pruned() {
    assert_eq!(parse_levels("Tune,Calibration"), vec!["Tune".to_string(), "Calibration".to_string()]);
    assert_eq!(parse_levels(" Tune , ,Calibration ,"), vec!["Tune".to_string(), "Calibration".to_string()]);
    assert_eq!(parse_levels(""), Vec::<String>::new());
    assert_eq!(parse_levels("\tEngineer\u{A0}"), vec!["Engineer".to_string()]);
}

#[test]
fn edit_distance_counts_single_character_edits() {
    assert_eq!(edit_distance("", ""), 0);
    assert_eq!(edit_distance("kitten", "sitting"), 3);
    assert_eq!(edit_distance("Root.Engien", "Root.Engine"), 2);
    assert_eq!(edit_distance("abc", ""), 3);
    assert_eq!(edit_distance("", "ab"), 2);
}

#[test]
fn nearest_group_suggests_only_close_paths() {
    let m = stats_model();
    assert_eq!(nearest_group("Root.Engien", &m), Some("Root.Engine"));
    assert_eq!(nearest_group("Rot", &m), Some("Root"));
    assert_eq!(nearest_group("Completely.Different", &m), None);
}

#[test]
fn render_inputs_fit_accepts_a_tree_and_refuses_a_cycle() {
    assert!(render_inputs_fit(&stats_model()));
    assert!(render_inputs_fit(&DocModel::default()));
    let looped = DocModel {
        groups: vec![
            GroupDoc {
                path: "A".into(),
                children: vec!["A.B".into()],
                ..Default::default()
            },
            GroupDoc {
                path: "A.B".into(),
                children: vec!["A".into()],
                ..Default::default()
            },
        ],
        ..Default::default()
    };
    assert!(!render_inputs_fit(&looped));
}

#[test]
fn edit_distance_is_symmetric_and_zero_on_equal_texts() {
    for (a, b) in [("Root.Engine", "Root.Engien"), ("", "abc"), ("kitten", "sitting")] {
        assert_eq!(edit_distance(a, b), edit_distance(b, a));
        assert_eq!(edit_distance(a, a), 0);
    }
    assert_eq!(edit_distance("abc", ""), 3);
}
