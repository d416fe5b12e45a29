use m1_doc::diagram::{community, js, Diagram};
use m1_doc::model::{EdgeKind, GraphEdge, ProjectGraph};
use std::collections::BTreeSet;

fn edge(from: &str, to: &str, kind: EdgeKind) -> GraphEdge {
    GraphEdge {
        from: from.into(),
        to: to.into(),
        kind,
    }
}

/// `Sensor` calls `Update`; `Update` calls `Output`, reads `Speed`, writes
/// `Torque`. A 2-hop node (`Caller`) is excluded at depth 1.
fn sample() -> ProjectGraph {
    ProjectGraph {
        edges: vec![
            edge("Root.Caller", "Root.Sensor", EdgeKind::Call),
            edge("Root.Sensor", "Root.Update", EdgeKind::Call),
            edge("Root.Update", "Root.Output", EdgeKind::Call),
            edge("Root.Update", "Root.Speed", EdgeKind::Read),
            edge("Root.Update", "Root.Torque", EdgeKind::Write),
        ],
    }
}

#[test]
fn neighbourhood_is_direct_callers_callees_reads_writes() {
    let d = Diagram::for_group(&sample(), &["Root.Update"], "Root", 1);
    let paths: BTreeSet<&str> = d.nodes.iter().map(|n| n.path.as_str()).collect();
    assert!(paths.contains("Root.Update"));
    assert!(paths.contains("Root.Sensor"), "direct caller");
    assert!(paths.contains("Root.Output"), "direct callee");
    assert!(paths.contains("Root.Speed"), "direct read");
    assert!(paths.contains("Root.Torque"), "direct write");
    assert!(!paths.contains("Root.Caller"), "2-hop excluded at depth 1");
    assert!(
        d.nodes
            .iter()
            .find(|n| n.path == "Root.Update")
            .unwrap()
            .primary
    );
    assert!(
        !d.nodes
            .iter()
            .find(|n| n.path == "Root.Output")
            .unwrap()
            .primary
    );
}

#[test]
fn isolated_seed_yields_empty_diagram() {
    let g = ProjectGraph {
        edges: vec![edge("A", "B", EdgeKind::Call)],
    };
    assert!(Diagram::for_group(&g, &["Lonely"], "Root", 1).is_empty());
}

#[test]
fn depth_two_pulls_in_the_second_hop() {
    let d = Diagram::for_group(&sample(), &["Root.Update"], "Root", 2);
    let paths: BTreeSet<&str> = d.nodes.iter().map(|n| n.path.as_str()).collect();
    assert!(paths.contains("Root.Caller"), "2-hop included at depth 2");
}

#[test]
fn subsystem_scopes_to_the_group_prefix() {
    let g = ProjectGraph {
        edges: vec![
            edge("Root.Eng.A", "Root.Eng.B", EdgeKind::Call),
            edge("Root.Eng.B", "Root.Ext.Z", EdgeKind::Write),
        ],
    };
    let d0 = Diagram::subsystem(&g, "Root.Eng", 0);
    assert!(!d0.nodes.iter().any(|n| n.path == "Root.Ext.Z"));
    let d1 = Diagram::subsystem(&g, "Root.Eng", 1);
    assert!(
        d1.nodes.iter().any(|n| n.path == "Root.Ext.Z"),
        "depth 1 crosses boundary"
    );
}

#[test]
fn for_group_seeds_on_direct_members() {
    let d = Diagram::for_group(&sample(), &["Root.Update"], "Root", 1);
    assert!(
        d.nodes
            .iter()
            .find(|n| n.path == "Root.Update")
            .unwrap()
            .primary
    );
    assert!(
        !d.nodes
            .iter()
            .find(|n| n.path == "Root.Speed")
            .unwrap()
            .primary
    );
}

#[test]
fn mermaid_has_header_labels_and_typed_links() {
    let d = Diagram::for_group(&sample(), &["Root.Update"], "Root", 1);
    let m = d.to_mermaid();
    assert!(m.starts_with("graph LR\n"));
    assert!(m.contains("[\"Root.Update\"]"));
    assert!(m.contains(" --> "), "call edge");
    assert!(m.contains("-. reads .->"), "read edge");
    assert!(m.contains("-- writes -->"), "write edge");
}

#[test]
fn json_payload_is_self_contained_with_links_colours_and_legend() {
    let d = Diagram::for_group(&sample(), &["Root.Update"], "Root", 1);
    let json = d.to_json(|p: &str| Some(format!("{}.html#x", community(p).to_lowercase())));
    assert!(json.starts_with("{\"nodes\":["));
    assert!(json.contains("\"kind\":\"call\""));
    assert!(json.contains("\"kind\":\"read\""));
    assert!(json.contains("\"kind\":\"write\""));
    assert!(json.contains("\"communities\":["));
    assert!(json.contains("\"href\":"), "nodes link to their pages");
    assert!(json.contains("#x"));
    assert!(!json.contains("</script"));
    assert!(!json.contains("http://"));
}

#[test]
fn render_is_deterministic() {
    let g = sample();
    let a = Diagram::for_group(&g, &["Root.Update"], "Root", 2);
    let b = Diagram::for_group(&g, &["Root.Update"], "Root", 2);
    assert_eq!(a.to_mermaid(), b.to_mermaid());
    assert_eq!(a.to_json(|_: &str| None), b.to_json(|_: &str| None));
}

#[test]
fn js_escapes_script_close_and_controls() {
    assert_eq!(js("a/b"), "\"a\\/b\"");
    assert_eq!(js("<x>"), "\"\\u003cx>\"");
    assert!(js("a\nb").contains("\\n"));
}

#[test]
fn json_payload_escapes_every_slash_and_angle_bracket() {
    let g = ProjectGraph {
        edges: vec![edge("Root.</script>", "Root.http://x", EdgeKind::Call)],
    };
    let d = Diagram::for_group(&g, &["Root.</script>"], "Root", 1);
    let json = d.to_json(|_: &str| Some("https://example.com/a//b".to_string()));
    assert!(!json.contains('<'));
    assert!(!json.contains("//"));
    assert!(json.contains("https:\\/\\/example.com"));
}
