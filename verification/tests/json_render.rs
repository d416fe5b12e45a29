use m1_doc::json::render;
use m1_doc::model::{
    AnnotationDoc, CanMessageDoc, CanSignalDoc, DocModel, EdgeKind, EnumDoc, EnumMemberDoc, FunctionDoc, GraphEdge,
    GroupDoc, ObjectDoc, ProjectGraph, Real, ReferenceDoc, SymbolDoc, SymbolDocKind, TableAxisDoc, TableDoc,
};

/// The library's carrier for a real number, made from an `f64` the way the
/// project loader makes it.
fn real_of(v: f64) -> Real {
    Real {
        fixed3: format!("{v:.3}"),
        fixed4: format!("{v:.4}"),
        magnitude4: format!("{:.4}", v.abs()),
        negative: v < 0.0,
        shortest: if v.is_finite() { Some(format!("{v:?}")) } else { None },
    }
}

/// A model exercising every entity kind and every optional field (both the
/// present and the absent arm).
fn rich_model() -> DocModel {
    DocModel {
        title: "Demo \"Project\"".into(),
        target_hardware: Some("ecu120".into()),
        groups: vec![GroupDoc {
            path: "Root.Engine".into(),
            symbols: vec![SymbolDoc {
                path: "Root.Engine.Speed".into(),
                anchor: "root-engine-speed".into(),
                kind: SymbolDocKind::Channel,
                type_label: "f32".into(),
                quantity: Some("rad/s".into()),
                unit: Some("rpm".into()),
                base_unit: Some("rad/s".into()),
                log_rate_hz: Some(real_of(200.0)),
                security: Some("Engineer".into()),
                enum_ref: None,
                classname: Some("BuiltIn.Channel".into()),
                tags: vec!["engine".into(), "fuel".into()],
                def_line: None,
            }],
            functions: vec![FunctionDoc {
                path: "Root.Engine.Update".into(),
                anchor: "root-engine-update".into(),
                inputs: vec![("Timeout".into(), "float".into())],
                return_type: Some("float".into()),
                annotations: vec![AnnotationDoc {
                    kind: "requires-finite".into(),
                    args: vec!["min=0".into()],
                }],
                call_rate_hz: Some(real_of(100.0)),
                source_path: Some("Engine/Update.m1scr".into()),
                source_text: Some("Out = In;\n".into()),
            }],
            tables: vec![TableDoc {
                path: "Root.Engine.IgnitionMap".into(),
                anchor: "root-engine-ignitionmap".into(),
                axes: vec![TableAxisDoc {
                    size: 16,
                    unit: Some("rpm".into()),
                }],
                output_unit: Some("deg".into()),
                def_line: None,
            }],
            objects: vec![ObjectDoc {
                path: "Root.Engine.OilP".into(),
                anchor: "root-engine-oilp".into(),
                class: Some("MoTeC Input.Sensor".into()),
                members: vec!["Root.Engine.OilP.Resource".into()],
                def_line: None,
            }],
            can_messages: vec![CanMessageDoc {
                path: "Root.Engine.Frame".into(),
                anchor: "root-engine-frame".into(),
                can_id: Some(160),
                dlc: Some(8),
                signals: vec![CanSignalDoc {
                    path: "Root.Engine.Frame.Rpm".into(),
                    anchor: "root-engine-frame-rpm".into(),
                    start_bit: Some(24),
                    length: Some(16),
                    multiplier: Some(real_of(0.5)),
                    offset: Some(real_of(0.0)),
                    range: Some((real_of(0.0), real_of(8000.0))),
                    unit: Some("rpm".into()),
                }],
                def_line: None,
            }],
            references: vec![],
            children: vec!["Root.Engine.Fuel".into()],
        }],
        enums: vec![EnumDoc {
            name: "Switch".into(),
            anchor: "switch".into(),
            members: vec![
                EnumMemberDoc {
                    name: "Off".into(),
                    value: 0,
                },
                EnumMemberDoc {
                    name: "On".into(),
                    value: 1,
                },
            ],
            default: Some("Off".into()),
            open: false,
        }],
        graph: m1_doc::model::ProjectGraph::default(),
        m1prj_path: None,
    }
}

#[test]
fn output_is_deterministic() {
    let model = rich_model();
    assert_eq!(
        render(&model),
        render(&model),
        "two renders of the same model must be byte-identical"
    );
}

#[test]
fn has_versioned_top_level_schema() {
    let json = render(&rich_model());
    assert!(
        json.contains("\"schema_version\": 1"),
        "missing schema_version; got:\n{json}"
    );
}

#[test]
fn covers_every_entity_and_field() {
    let json = render(&rich_model());
    for needle in [
        "\"title\": \"Demo \\\"Project\\\"\"",
        "\"path\": \"Root.Engine.Speed\"",
        "\"kind\": \"channel\"",
        "\"type_label\": \"f32\"",
        "\"quantity\": \"rad/s\"",
        "\"base_unit\": \"rad/s\"",
        "\"log_rate_hz\": 200.0",
        "\"security\": \"Engineer\"",
        "\"classname\": \"BuiltIn.Channel\"",
        "\"return_type\": \"float\"",
        "\"call_rate_hz\": 100.0",
        "\"source_path\": \"Engine/Update.m1scr\"",
        "\"kind\": \"requires-finite\"",
        "\"output_unit\": \"deg\"",
        "\"class\": \"MoTeC Input.Sensor\"",
        "\"id\": 160",
        "\"dlc\": 8",
        "\"range\": [0.0, 8000.0]",
        "\"name\": \"Switch\"",
        "\"open\": false",
    ] {
        assert!(json.contains(needle), "missing {needle:?}; got:\n{json}");
    }
}

#[test]
fn absent_optionals_serialise_as_null() {
    // A symbol with every optional unset → each renders as JSON null, never
    // an invented value (degrade, never fake).
    let model = DocModel {
        title: "T".into(),
        target_hardware: None,
        groups: vec![GroupDoc {
            path: "Root".into(),
            symbols: vec![SymbolDoc {
                path: "Root.X".into(),
                anchor: "root-x".into(),
                kind: SymbolDocKind::Constant,
                type_label: "u8".into(),
                ..Default::default()
            }],
            ..Default::default()
        }],
        enums: vec![],
        graph: m1_doc::model::ProjectGraph::default(),
        m1prj_path: None,
    };
    let json = render(&model);
    assert!(json.contains("\"quantity\": null"), "got:\n{json}");
    assert!(json.contains("\"unit\": null"), "got:\n{json}");
    assert!(json.contains("\"log_rate_hz\": null"), "got:\n{json}");
    assert!(json.contains("\"enum_ref\": null"), "got:\n{json}");
    assert!(json.contains("\"kind\": \"constant\""), "got:\n{json}");
}

#[test]
fn empty_model_still_has_schema_and_containers() {
    let json = render(&DocModel::default());
    assert!(json.contains("\"schema_version\": 1"), "got:\n{json}");
    assert!(json.contains("\"groups\": []"), "got:\n{json}");
    assert!(json.contains("\"enums\": []"), "got:\n{json}");
    assert!(
        json.ends_with("}\n"),
        "must end with a newline; got:\n{json}"
    );
}

#[test]
fn strings_with_control_chars_are_escaped() {
    let model = DocModel {
        title: "tab\there\nnew\\back".into(),
        ..Default::default()
    };
    let json = render(&model);
    assert!(
        json.contains("\"title\": \"tab\\there\\nnew\\\\back\""),
        "control chars must be JSON-escaped; got:\n{json}"
    );
}

#[test]
fn non_finite_floats_degrade_to_null() {
    // A NaN log rate has no JSON number form → null, keeping output valid.
    let model = DocModel {
        title: "T".into(),
        target_hardware: None,
        groups: vec![GroupDoc {
            path: "Root".into(),
            symbols: vec![SymbolDoc {
                path: "Root.X".into(),
                anchor: "root-x".into(),
                kind: SymbolDocKind::Channel,
                type_label: "f32".into(),
                log_rate_hz: Some(real_of(f64::NAN)),
                ..Default::default()
            }],
            ..Default::default()
        }],
        enums: vec![],
        graph: m1_doc::model::ProjectGraph::default(),
        m1prj_path: None,
    };
    let json = render(&model);
    assert!(json.contains("\"log_rate_hz\": null"), "got:\n{json}");
}

#[test]
fn references_serialize_with_raw_and_resolved_targets() {
    let model = DocModel {
        title: "T".into(),
        groups: vec![GroupDoc {
            path: "Root".into(),
            references: vec![
                ReferenceDoc {
                    path: "Root.Alias".into(),
                    anchor: "root-alias".into(),
                    target_raw: "This.Value".into(),
                    target_resolved: Some("Root.Value".into()),
                    def_line: None,
                },
                ReferenceDoc {
                    path: "Root.Dangling".into(),
                    anchor: "root-dangling".into(),
                    target_raw: "Off.Model".into(),
                    target_resolved: None,
                    def_line: None,
                },
            ],
            ..Default::default()
        }],
        ..Default::default()
    };
    let json = render(&model);
    assert!(json.contains("\"references\""), "got:\n{json}");
    assert!(
        json.contains("\"target_raw\": \"This.Value\""),
        "got:\n{json}"
    );
    assert!(
        json.contains("\"target_resolved\": \"Root.Value\""),
        "resolved target must serialize; got:\n{json}"
    );
    // An unresolved target serialises as null — degrade, never invent.
    assert!(
        json.contains("\"target_raw\": \"Off.Model\"")
            && json.contains("\"target_resolved\": null"),
        "unresolved target must be raw + null; got:\n{json}"
    );
}

#[test]
fn graph_edges_serialize_with_typed_kinds() {
    let model = DocModel {
        title: "T".into(),
        graph: ProjectGraph {
            edges: vec![
                GraphEdge {
                    from: "Root.A.Update".into(),
                    to: "Root.A.Helper".into(),
                    kind: EdgeKind::Call,
                },
                GraphEdge {
                    from: "Root.A.Update".into(),
                    to: "Root.A.Speed".into(),
                    kind: EdgeKind::Read,
                },
            ],
        },
        ..Default::default()
    };
    let json = render(&model);
    assert!(json.contains("\"graph\""), "got:\n{json}");
    assert!(json.contains("\"edges\""), "got:\n{json}");
    assert!(
        json.contains("\"from\": \"Root.A.Update\"")
            && json.contains("\"to\": \"Root.A.Helper\"")
            && json.contains("\"kind\": \"call\""),
        "call edge must serialize; got:\n{json}"
    );
    assert!(json.contains("\"kind\": \"read\""), "got:\n{json}");
    // An empty model still emits an empty edges array (never omitted).
    let empty = render(&DocModel::default());
    assert!(
        empty.contains("\"graph\"") && empty.contains("\"edges\": []"),
        "empty graph must still emit edges:[]; got:\n{empty}"
    );
}
