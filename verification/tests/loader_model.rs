use m1_doc::graph::{access_of, build_graph, Access, ResolvedUse, SiteParent};
use m1_doc::loader::{
    assign_anchors, attach_scripts, build_model, relative_source_path, resolve_reference_target, script_by_name, CanRecord,
    EnumTypeRecord, ProjectSymbols, ScriptRecord, SymbolRecord, SymbolRecordKind, TableMetaRecord, ValueKind,
};
use m1_doc::model::{
    AnnotationDoc, DocModel, EdgeKind, FunctionDoc, GroupDoc, Real, SymbolDoc, SymbolDocKind, TableAxisDoc,
};

fn real_of(v: f64) -> Real {
    Real {
        fixed3: format!("{v:.3}"),
        fixed4: format!("{v:.4}"),
        magnitude4: format!("{:.4}", v.abs()),
        negative: v < 0.0,
        shortest: if v.is_finite() { Some(format!("{v:?}")) } else { None },
    }
}

/// A symbol record with nothing but its path and kind.
fn sym(path: &str, kind: SymbolRecordKind) -> SymbolRecord {
    SymbolRecord {
        path: path.to_string(),
        kind,
        classname: None,
        class: None,
        tags: vec![],
        declared_type: None,
        value_type: ValueKind::Unknown,
        enum_assoc: None,
        qty: None,
        display_unit: None,
        unit: None,
        log_rate_hz: None,
        call_rate_hz: None,
        security: None,
        def_line: None,
        in_params: None,
        return_type: None,
        table_meta: None,
        can: None,
        dbc_range: None,
        reference_target: None,
        children: vec![],
        filename: None,
    }
}

fn table(symbols: Vec<SymbolRecord>) -> ProjectSymbols {
    ProjectSymbols {
        symbols,
        enum_types: vec![],
    }
}

/// The demo project: an engine group with a channel shown in rpm, and a
/// parameter one level deeper with a security level.
fn project() -> ProjectSymbols {
    let mut speed = sym("Root.Engine.Speed", SymbolRecordKind::Channel);
    speed.declared_type = Some("f32".into());
    speed.display_unit = Some("rpm".into());
    let mut gain = sym("Root.Engine.Gain.Value", SymbolRecordKind::Parameter);
    gain.declared_type = Some("u16".into());
    gain.security = Some("Tune".into());
    table(vec![sym("Root.Engine", SymbolRecordKind::Group), speed, gain])
}

fn group<'a>(model: &'a DocModel, path: &str) -> &'a GroupDoc {
    model.groups.iter().find(|g| g.path == path).expect("group")
}

#[test]
fn assign_anchors_dedupes_collisions_within_a_page() {
    let mut group = GroupDoc {
        path: "Root.Engine".into(),
        symbols: vec![
            SymbolDoc {
                path: "Root.Engine.Oil Temp".into(),
                ..Default::default()
            },
            SymbolDoc {
                path: "Root.Engine.Oil-Temp".into(),
                ..Default::default()
            },
        ],
        functions: vec![FunctionDoc {
            path: "Root.Engine.Oil.Temp".into(),
            ..Default::default()
        }],
        ..Default::default()
    };
    assign_anchors(&mut group);
    assert_eq!(group.symbols[0].anchor, "root-engine-oil-temp");
    assert_eq!(group.symbols[1].anchor, "root-engine-oil-temp-2");
    assert_eq!(group.functions[0].anchor, "root-engine-oil-temp-3");

    let mut all = [
        group.symbols[0].anchor.clone(),
        group.symbols[1].anchor.clone(),
        group.functions[0].anchor.clone(),
    ];
    all.sort();
    let unique = all.iter().collect::<std::collections::BTreeSet<_>>().len();
    assert_eq!(unique, 3, "anchors must be unique within a page");
}

#[test]
fn build_model_assigns_a_stable_anchor_to_each_symbol() {
    let model = build_model(&project(), "Demo".into());
    let eng = group(&model, "Root.Engine");
    let speed = eng.symbols.iter().find(|s| s.path == "Root.Engine.Speed").unwrap();
    assert_eq!(speed.anchor, "root-engine-speed");
}

#[test]
fn function_with_inputs_collected_under_group() {
    let mut update = sym("Root.Engine.Update", SymbolRecordKind::Function);
    update.in_params = Some(vec![
        ("Timeout".into(), ValueKind::Float),
        ("Enable".into(), ValueKind::Boolean),
    ]);
    update.return_type = Some(ValueKind::Boolean);
    let model = build_model(&table(vec![sym("Root.Engine", SymbolRecordKind::Group), update]), "Demo".into());
    let eng = group(&model, "Root.Engine");
    assert_eq!(eng.functions.len(), 1, "expected one function; got {:?}", eng.functions);
    let f = &eng.functions[0];
    assert_eq!(f.path, "Root.Engine.Update");
    assert_eq!(
        f.inputs,
        vec![
            ("Timeout".to_string(), "float".to_string()),
            ("Enable".to_string(), "bool".to_string()),
        ],
        "unexpected inputs: {:?}",
        f.inputs
    );
}

#[test]
fn method_collected_under_group() {
    let mut control = sym("Root.Engine.Control", SymbolRecordKind::Method);
    control.in_params = Some(vec![("Demand".into(), ValueKind::Float)]);
    control.return_type = Some(ValueKind::Boolean);
    let model = build_model(&table(vec![sym("Root.Engine", SymbolRecordKind::Group), control]), "Demo".into());
    let eng = group(&model, "Root.Engine");
    assert_eq!(eng.functions.len(), 1, "a method must be collected as a function; got {:?}", eng.functions);
    let m = &eng.functions[0];
    assert_eq!(m.path, "Root.Engine.Control");
    assert_eq!(m.inputs, vec![("Demand".to_string(), "float".to_string())]);
}

#[test]
fn function_without_signature_has_empty_inputs() {
    let mut update = sym("Root.Engine.Update", SymbolRecordKind::Function);
    update.filename = Some("Engine.Update.m1scr".into());
    let model = build_model(&table(vec![sym("Root.Engine", SymbolRecordKind::Group), update]), "Demo".into());
    let eng = group(&model, "Root.Engine");
    assert_eq!(eng.functions.len(), 1);
    assert!(eng.functions[0].inputs.is_empty(), "no-signature function must have empty inputs");
}

/// A model with the one function `Root.Engine.Update` whose script is
/// `filename`, with `scripts` attached.
fn with_scripts(filename: &str, scripts: Vec<ScriptRecord>) -> DocModel {
    let mut update = sym("Root.Engine.Update", SymbolRecordKind::Function);
    update.filename = Some(filename.into());
    let symbols = table(vec![sym("Root.Engine", SymbolRecordKind::Group), update]);
    let mut model = build_model(&symbols, "T".into());
    attach_scripts(&mut model, &symbols, &scripts);
    model
}

#[test]
fn annotations_surfaced_from_script_file() {
    let model = with_scripts(
        "Foo.m1scr",
        vec![ScriptRecord {
            name: "Foo.m1scr".into(),
            source: "// @m1:requires-finite\nx = a / b;\n".into(),
            source_path: "Foo.m1scr".into(),
            annotations: vec![AnnotationDoc {
                kind: "requires-finite".into(),
                args: vec![],
            }],
        }],
    );
    let eng = group(&model, "Root.Engine");
    assert_eq!(eng.functions.len(), 1);
    let f = &eng.functions[0];
    assert_eq!(f.annotations.len(), 1, "expected one annotation; got {:?}", f.annotations);
    assert_eq!(f.annotations[0].kind, "requires-finite");
    assert!(f.annotations[0].args.is_empty());
}

#[test]
fn function_retains_source_path_and_body() {
    let model = with_scripts(
        "Update.m1scr",
        vec![ScriptRecord {
            name: "Update.m1scr".into(),
            source: "Out = In.Speed * 2;\n".into(),
            source_path: "Scripts/Update.m1scr".into(),
            annotations: vec![],
        }],
    );
    let f = &group(&model, "Root.Engine").functions[0];
    assert_eq!(f.source_path.as_deref(), Some("Scripts/Update.m1scr"));
    assert_eq!(f.source_text.as_deref(), Some("Out = In.Speed * 2;\n"));
}

#[test]
fn collected_script_lookup_prefers_a_shallower_same_named_file() {
    let scripts = vec![
        ScriptRecord {
            name: "Dup.m1scr".into(),
            source: "// root\n".into(),
            source_path: "Dup.m1scr".into(),
            annotations: vec![],
        },
        ScriptRecord {
            name: "Dup.m1scr".into(),
            source: "// nested\n".into(),
            source_path: "Nested/Dup.m1scr".into(),
            annotations: vec![],
        },
    ];
    let chosen = &scripts[script_by_name(&scripts, "Dup.m1scr").expect("Dup.m1scr collected")];
    assert_eq!(chosen.source, "// root\n");
    assert_eq!(chosen.source_path, "Dup.m1scr");
    assert_eq!(script_by_name(&scripts, "Other.m1scr"), None);
}

#[test]
fn nested_script_resolved_via_collected_map() {
    let model = with_scripts(
        "Update.m1scr",
        vec![ScriptRecord {
            name: "Update.m1scr".into(),
            source: "// @m1:requires-finite\nOut = In.Speed * 2;\n".into(),
            source_path: "Scripts/Engine/Update.m1scr".into(),
            annotations: vec![AnnotationDoc {
                kind: "requires-finite".into(),
                args: vec![],
            }],
        }],
    );
    let f = &group(&model, "Root.Engine").functions[0];
    assert_eq!(f.source_path.as_deref(), Some("Scripts/Engine/Update.m1scr"));
    assert_eq!(f.source_text.as_deref(), Some("// @m1:requires-finite\nOut = In.Speed * 2;\n"));
    assert_eq!(f.annotations.len(), 1);
}

#[test]
fn function_without_a_found_script_is_left_unchanged() {
    let model = with_scripts(
        "Missing.m1scr",
        vec![ScriptRecord {
            name: "Update.m1scr".into(),
            source: "Out = 1;\n".into(),
            source_path: "Update.m1scr".into(),
            annotations: vec![],
        }],
    );
    let f = &group(&model, "Root.Engine").functions[0];
    assert_eq!(f.source_path, None);
    assert_eq!(f.source_text, None);
    assert!(f.annotations.is_empty());
}

#[test]
fn nests_members_under_their_immediate_parent_group() {
    let model = build_model(&project(), "Demo".into());
    let eng = group(&model, "Root.Engine");
    assert!(eng.symbols.iter().any(|s| s.path == "Root.Engine.Speed"
        && s.kind == SymbolDocKind::Channel
        && s.unit.as_deref() == Some("rpm")));
    assert!(!eng.symbols.iter().any(|s| s.path == "Root.Engine.Gain.Value"));
    let gain = group(&model, "Root.Engine.Gain");
    assert!(gain
        .symbols
        .iter()
        .any(|s| s.kind == SymbolDocKind::Parameter && s.security.as_deref() == Some("Tune")));
    assert!(eng.children.iter().any(|c| c == "Root.Engine.Gain"));
}

#[test]
fn table_is_collected_and_listed_even_without_cfg_metadata() {
    let model = build_model(&table(vec![sym("Root.Engine.IgnitionMap", SymbolRecordKind::Table)]), "Demo".into());
    let eng = group(&model, "Root.Engine");
    let tbl = eng.tables.iter().find(|t| t.path == "Root.Engine.IgnitionMap").expect("table must be collected");
    assert!(tbl.axes.is_empty(), "no cfg → no axis shape");
    assert!(!tbl.anchor.is_empty(), "table participates in anchors");
}

#[test]
fn table_carries_axes_and_output_unit_from_cfg_metadata() {
    let mut map = sym("Root.Engine.IgnitionMap", SymbolRecordKind::Table);
    map.table_meta = Some(TableMetaRecord {
        axes: vec![TableAxisDoc {
            size: 16,
            unit: Some("rpm".into()),
        }],
        output_unit: Some("deg".into()),
    });
    let model = build_model(&table(vec![map]), "Demo".into());
    let tbl = &group(&model, "Root.Engine").tables[0];
    assert_eq!(tbl.axes.len(), 1);
    assert_eq!(tbl.axes[0].size, 16);
    assert_eq!(tbl.output_unit.as_deref(), Some("deg"));
}

#[test]
fn deep_nesting_produces_a_node_per_level_with_parent_child_links() {
    let model = build_model(&table(vec![sym("Root.A.B.C.D.Speed", SymbolRecordKind::Channel)]), "Demo".into());
    let node = |p: &str| model.groups.iter().find(|g| g.path == p);
    for level in ["Root", "Root.A", "Root.A.B", "Root.A.B.C", "Root.A.B.C.D"] {
        assert!(node(level).is_some(), "missing group page for {level}");
    }
    assert_eq!(node("Root").unwrap().children, vec!["Root.A".to_string()]);
    assert_eq!(node("Root.A").unwrap().children, vec!["Root.A.B".to_string()]);
    assert_eq!(node("Root.A.B.C").unwrap().children, vec!["Root.A.B.C.D".to_string()]);
    let leaf = node("Root.A.B.C.D").unwrap();
    assert!(leaf.children.is_empty());
    assert!(leaf.symbols.iter().any(|s| s.path == "Root.A.B.C.D.Speed"));
    assert!(node("Root.A.B").unwrap().symbols.is_empty());
    let paths: Vec<&str> = model.groups.iter().map(|g| g.path.as_str()).collect();
    assert_eq!(paths, vec!["Root", "Root.A", "Root.A.B", "Root.A.B.C", "Root.A.B.C.D"]);
}

#[test]
fn constant_collected_under_its_group() {
    let mut max = sym("Root.Engine.MaxRpm", SymbolRecordKind::Constant);
    max.declared_type = Some("u16".into());
    let model = build_model(&table(vec![sym("Root.Engine", SymbolRecordKind::Group), max]), "Demo".into());
    let eng = group(&model, "Root.Engine");
    assert!(eng.symbols.iter().any(|s| s.path == "Root.Engine.MaxRpm"
        && s.kind == SymbolDocKind::Constant
        && s.type_label == "u16"));
}

#[test]
fn object_documented_with_class_and_members() {
    let mut oil = sym("Root.Inputs.OilP", SymbolRecordKind::Object);
    oil.class = Some("MoTeC Input.Sensor".into());
    oil.children = vec![3, 2];
    let model = build_model(
        &table(vec![
            sym("Root.Inputs", SymbolRecordKind::Group),
            oil,
            sym("Root.Inputs.OilP.Resource", SymbolRecordKind::Other),
            sym("Root.Inputs.OilP.Calibration", SymbolRecordKind::Other),
        ]),
        "Demo".into(),
    );
    let inputs = group(&model, "Root.Inputs");
    let obj = inputs.objects.iter().find(|o| o.path == "Root.Inputs.OilP").expect("sensor object must be documented");
    assert_eq!(obj.class.as_deref(), Some("MoTeC Input.Sensor"));
    assert_eq!(
        obj.members,
        vec!["Root.Inputs.OilP.Calibration".to_string(), "Root.Inputs.OilP.Resource".to_string()],
        "immediate members, sorted"
    );
    assert!(!obj.anchor.is_empty(), "object participates in anchors");
}

#[test]
fn can_message_and_signals_documented_from_dbc() {
    let mut msg = sym("Bus.EngineData", SymbolRecordKind::Object);
    msg.classname = Some("BuiltIn.CAN.Message".into());
    msg.can = Some(CanRecord {
        can_id: Some(160),
        dlc: Some(8),
        ..Default::default()
    });
    msg.def_line = Some(3);
    msg.children = vec![2];
    let mut speed = sym("Bus.EngineData.EngineSpeed", SymbolRecordKind::Channel);
    speed.classname = Some("BuiltIn.CAN.Signal".into());
    speed.unit = Some("rpm".into());
    speed.can = Some(CanRecord {
        start_bit: Some(24),
        length: Some(16),
        multiplier: Some(real_of(0.5)),
        offset: Some(real_of(0.0)),
        ..Default::default()
    });
    speed.dbc_range = Some((real_of(0.0), real_of(32767.5)));
    let model = build_model(&table(vec![sym("Bus", SymbolRecordKind::Other), msg, speed]), "Demo".into());
    let bus = group(&model, "Bus");
    let m = bus.can_messages.iter().find(|m| m.path == "Bus.EngineData").expect("CAN message must be documented");
    assert_eq!(m.can_id, Some(160));
    assert_eq!(m.dlc, Some(8));
    assert_eq!(m.def_line, None, "a CAN message links to no project-file line");
    let sig = m.signals.iter().find(|s| s.path == "Bus.EngineData.EngineSpeed").expect("signal packed under its message");
    assert_eq!(sig.start_bit, Some(24));
    assert_eq!(sig.length, Some(16));
    assert_eq!(sig.multiplier.as_ref().map(|r| r.fixed4.as_str()), Some("0.5000"));
    assert_eq!(sig.unit.as_deref(), Some("rpm"));
    assert!(sig.range.is_some());
    assert!(model.groups.iter().all(|g| g.symbols.iter().all(|s| s.path != "Bus.EngineData.EngineSpeed")));
    assert!(model.groups.iter().all(|g| g.path != "Bus.EngineData"));
}

#[test]
fn can_signals_are_packed_in_bit_order() {
    let mut msg = sym("Bus.Frame", SymbolRecordKind::Object);
    msg.classname = Some("BuiltIn.CAN.Message".into());
    msg.children = vec![1, 2, 3];
    let signal = |path: &str, bit: Option<u32>| {
        let mut s = sym(path, SymbolRecordKind::Channel);
        s.classname = Some("BuiltIn.CAN.Signal".into());
        s.can = Some(CanRecord {
            start_bit: bit,
            ..Default::default()
        });
        s
    };
    let model = build_model(
        &table(vec![
            msg,
            signal("Bus.Frame.B", Some(8)),
            signal("Bus.Frame.A", Some(8)),
            signal("Bus.Frame.Z", Some(0)),
        ]),
        "Demo".into(),
    );
    let m = &group(&model, "Bus").can_messages[0];
    let order: Vec<&str> = m.signals.iter().map(|s| s.path.as_str()).collect();
    assert_eq!(order, vec!["Bus.Frame.Z", "Bus.Frame.A", "Bus.Frame.B"]);
    let anchors: Vec<&str> = m.signals.iter().map(|s| s.anchor.as_str()).collect();
    assert_eq!(anchors, vec!["bus-frame-z", "bus-frame-a", "bus-frame-b"]);
    assert_eq!(m.anchor, "bus-frame");
}

#[test]
fn symbol_tags_are_surfaced_including_inherited() {
    let mut speed = sym("Root.Engine.Speed", SymbolRecordKind::Channel);
    speed.tags = vec!["speed".into(), "engine".into()];
    let model = build_model(&table(vec![sym("Root.Engine", SymbolRecordKind::Group), speed]), "Demo".into());
    let s = group(&model, "Root.Engine").symbols.iter().find(|s| s.path == "Root.Engine.Speed").unwrap();
    assert!(s.tags.contains(&"speed".to_string()) && s.tags.contains(&"engine".to_string()));
    assert_eq!(model.tags(), vec!["engine".to_string(), "speed".to_string()]);
}

#[test]
fn references_documented_with_resolved_and_raw_targets() {
    let reference = |path: &str, target: Option<&str>| {
        let mut r = sym(path, SymbolRecordKind::Reference);
        r.reference_target = target.map(|t| t.to_string());
        r
    };
    let model = build_model(
        &table(vec![
            sym("Root.Sensors", SymbolRecordKind::Group),
            sym("Root.Sensors.OilP", SymbolRecordKind::Channel),
            reference("Root.Sensors.AliasThis", Some("This.OilP")),
            reference("Root.Sensors.AliasAbs", Some("Root.Sensors.OilP")),
            reference("Root.Sensors.Dangling", Some("Nowhere.X")),
            reference("Root.Sensors.NoTarget", None),
        ]),
        "Demo".into(),
    );
    let g = group(&model, "Root.Sensors");
    let by_path = |p: &str| g.references.iter().find(|r| r.path == p).unwrap();
    let this = by_path("Root.Sensors.AliasThis");
    assert_eq!(this.target_raw, "This.OilP");
    assert_eq!(this.target_resolved.as_deref(), Some("Root.Sensors.OilP"));
    assert_eq!(by_path("Root.Sensors.AliasAbs").target_resolved.as_deref(), Some("Root.Sensors.OilP"));
    let dangling = by_path("Root.Sensors.Dangling");
    assert_eq!(dangling.target_raw, "Nowhere.X");
    assert_eq!(dangling.target_resolved, None);
    let none = by_path("Root.Sensors.NoTarget");
    assert_eq!(none.target_raw, "");
    assert_eq!(none.target_resolved, None);
    assert!(!none.anchor.is_empty());
}

#[test]
fn reference_keywords_resolve_relative_to_the_enclosing_group() {
    assert_eq!(resolve_reference_target("Root.A.B.Ref", "This.X").as_deref(), Some("Root.A.B.X"));
    assert_eq!(resolve_reference_target("Root.A.B.Ref", "This").as_deref(), Some("Root.A.B"));
    assert_eq!(resolve_reference_target("Root.A.B.Ref", "Parent.Y").as_deref(), Some("Root.A.Y"));
    assert_eq!(resolve_reference_target("Root.A.B.Ref", "Parent").as_deref(), Some("Root.A"));
    assert_eq!(resolve_reference_target("Root.A.B.Ref", "Root").as_deref(), Some("Root"));
    assert_eq!(resolve_reference_target("Root.A.B.Ref", "Other.Z"), None);
    assert_eq!(resolve_reference_target("Ref", "This.X"), None);
    assert_eq!(resolve_reference_target("Root.Ref", "Parent.X"), None);
}

#[test]
fn symbol_carries_def_line() {
    let mut speed = sym("Root.Engine.Speed", SymbolRecordKind::Channel);
    speed.def_line = Some(4);
    let model = build_model(&table(vec![speed]), "Demo".into());
    let s = group(&model, "Root.Engine").symbols.iter().find(|s| s.path == "Root.Engine.Speed").unwrap();
    assert_eq!(s.def_line, Some(4));
    assert_eq!(model.m1prj_path, None, "the symbol table alone knows no project file");
}

#[test]
fn enums_are_deduped_by_name_sorted_and_members_ordered_by_value() {
    let mut a = sym("Root.A", SymbolRecordKind::Channel);
    a.enum_assoc = Some(1);
    let mut b = sym("Root.B", SymbolRecordKind::Channel);
    b.enum_assoc = Some(0);
    let mut c = sym("Root.C", SymbolRecordKind::Channel);
    c.enum_assoc = Some(2);
    let symbols = ProjectSymbols {
        symbols: vec![a, b, c],
        enum_types: vec![
            EnumTypeRecord {
                name: "Switch".into(),
                members: vec![("On".into(), 1), ("Off".into(), 0)],
                default: Some("Off".into()),
                open: false,
            },
            EnumTypeRecord {
                name: "Mode".into(),
                members: vec![("Run".into(), 2), ("Idle".into(), 2), ("Stop".into(), -1)],
                default: None,
                open: true,
            },
            EnumTypeRecord {
                name: "Switch".into(),
                members: vec![],
                default: None,
                open: true,
            },
        ],
    };
    let model = build_model(&symbols, "Demo".into());
    let names: Vec<&str> = model.enums.iter().map(|e| e.name.as_str()).collect();
    assert_eq!(names, vec!["Mode", "Switch"]);
    let mode = &model.enums[0];
    let members: Vec<(&str, i64)> = mode.members.iter().map(|m| (m.name.as_str(), m.value)).collect();
    assert_eq!(members, vec![("Stop", -1), ("Idle", 2), ("Run", 2)]);
    assert!(mode.open);
    let switch = &model.enums[1];
    assert_eq!(switch.members.len(), 2, "the first symbol's Switch type wins");
    assert_eq!(switch.default.as_deref(), Some("Off"));
    assert_eq!(switch.anchor, "switch");
    let a = group(&model, "Root").symbols.iter().find(|s| s.path == "Root.A").unwrap();
    assert_eq!(a.type_label, "Mode");
    assert_eq!(a.enum_ref.as_deref(), Some("Mode"));
}

#[test]
fn compound_assignment_target_is_read_and_write() {
    let assign = |is_target: bool, op: &str| SiteParent::Assignment {
        is_target,
        operator: Some(op.to_string()),
    };
    assert_eq!(access_of(&assign(true, "+=")), Access::ReadWrite);
    assert_eq!(access_of(&assign(false, "+=")), Access::Read);
    assert_eq!(access_of(&assign(true, "=")), Access::Write);
    for op in ["-=", "*=", "/=", "%=", "&=", "|=", "^=", "<<=", ">>="] {
        assert_eq!(access_of(&assign(true, op)), Access::ReadWrite, "`{op}` target must be ReadWrite");
    }
    assert_eq!(access_of(&SiteParent::LocalDeclaration { is_name: true }), Access::Write);
    assert_eq!(access_of(&SiteParent::LocalDeclaration { is_name: false }), Access::Read);
    assert_eq!(access_of(&SiteParent::Other), Access::Read);
}

#[test]
fn graph_extracts_call_read_write_and_reference_edges() {
    let model = build_model(
        &table(vec![
            sym("Root.Engine.Speed", SymbolRecordKind::Channel),
            {
                let mut r = sym("Root.Engine.Alias", SymbolRecordKind::Reference);
                r.reference_target = Some("This.Speed".into());
                r
            },
        ]),
        "Demo".into(),
    );
    let u = |to: &str, target: SymbolRecordKind, access: Access| ResolvedUse {
        from: "Root.Engine.Update".into(),
        to: to.into(),
        target,
        access,
    };
    let uses = vec![
        u("Root.Engine.Speed", SymbolRecordKind::Channel, Access::Read),
        u("Root.Engine.Output", SymbolRecordKind::Channel, Access::Write),
        u("Root.Engine.Helper", SymbolRecordKind::Function, Access::Read),
        u("Root.Engine.Speed", SymbolRecordKind::Channel, Access::Read),
        u("Root.Engine.Update", SymbolRecordKind::Function, Access::Read),
        u("Root.Engine.Count", SymbolRecordKind::Parameter, Access::ReadWrite),
        u("Root.Engine", SymbolRecordKind::Group, Access::Read),
    ];
    let graph = build_graph(&uses, &model);
    let has = |from: &str, to: &str, kind: EdgeKind| {
        graph.edges.iter().any(|e| e.from == from && e.to == to && e.kind == kind)
    };
    assert!(has("Root.Engine.Update", "Root.Engine.Helper", EdgeKind::Call));
    assert!(has("Root.Engine.Update", "Root.Engine.Speed", EdgeKind::Read));
    assert!(has("Root.Engine.Update", "Root.Engine.Output", EdgeKind::Write));
    assert!(has("Root.Engine.Update", "Root.Engine.Count", EdgeKind::Read));
    assert!(has("Root.Engine.Update", "Root.Engine.Count", EdgeKind::Write));
    assert!(has("Root.Engine.Alias", "Root.Engine.Speed", EdgeKind::Reference));
    assert!(!graph.edges.iter().any(|e| e.to == "Root.Engine.Update"), "no self-edge");
    assert!(!graph.edges.iter().any(|e| e.to == "Root.Engine"), "a group is no graph edge");
    assert_eq!(graph.edges.len(), 6, "sorted and deduped; got {:?}", graph.edges);
    let keys: Vec<(String, String, EdgeKind)> =
        graph.edges.iter().map(|e| (e.from.clone(), e.to.clone(), e.kind)).collect();
    let mut sorted = keys.clone();
    sorted.sort();
    assert_eq!(keys, sorted, "edges come out in (from, to, kind) order");
}

#[test]
fn anchors_skip_ids_already_handed_out_on_the_page() {
    let mut group = GroupDoc {
        path: "Root".into(),
        functions: vec![
            FunctionDoc {
                path: "a".into(),
                ..Default::default()
            },
            FunctionDoc {
                path: "a.".into(),
                ..Default::default()
            },
            FunctionDoc {
                path: "a-2".into(),
                ..Default::default()
            },
            FunctionDoc {
                path: "A".into(),
                ..Default::default()
            },
        ],
        ..Default::default()
    };
    assign_anchors(&mut group);
    let anchors: Vec<&str> = group.functions.iter().map(|f| f.anchor.as_str()).collect();
    assert_eq!(anchors, vec!["a", "a-2", "a-2-2", "a-3"]);
}

#[test]
fn relative_source_path_is_project_relative_or_the_base_name() {
    let v = |parts: &[&str]| parts.iter().map(|p| p.to_string()).collect::<Vec<String>>();
    assert_eq!(
        relative_source_path(&v(&["/", "proj"]), &v(&["/", "proj", "Engine", "Update.m1scr"])),
        "Engine/Update.m1scr"
    );
    assert_eq!(relative_source_path(&v(&["/", "proj"]), &v(&["/", "proj", "Project.m1prj"])), "Project.m1prj");
    assert_eq!(relative_source_path(&v(&["/", "proj"]), &v(&["/", "other", "X.m1scr"])), "X.m1scr");
    assert_eq!(relative_source_path(&v(&["."]), &v(&["Project.m1prj"])), "Project.m1prj");
}
