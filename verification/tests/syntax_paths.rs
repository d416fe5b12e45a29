use m1_doc::graph::Access;
use m1_doc::syntax::{local_names, top_paths, SyntaxEntry, SyntaxKind};

fn node(kind: SyntaxKind, text: &str, parent: Option<usize>) -> SyntaxEntry {
    SyntaxEntry {
        kind,
        text: text.to_string(),
        named: true,
        parent,
        is_target: false,
        is_name: false,
        operator: None,
    }
}

/// `Root.Engine.Count <op> Root.Engine.Delta;` in pre-order.
fn assignment(op: &str) -> Vec<SyntaxEntry> {
    let mut stmt = node(SyntaxKind::AssignmentStatement, "", Some(0));
    stmt.operator = Some(op.to_string());
    let mut target = node(SyntaxKind::MemberExpression, "Root.Engine.Count", Some(1));
    target.is_target = true;
    let mut op_token = node(SyntaxKind::Other, op, Some(1));
    op_token.named = false;
    vec![
        node(SyntaxKind::Other, "", None),
        stmt,
        target,
        node(SyntaxKind::MemberExpression, "Root.Engine", Some(2)),
        node(SyntaxKind::Identifier, "Root", Some(3)),
        node(SyntaxKind::Identifier, "Engine", Some(3)),
        node(SyntaxKind::Identifier, "Count", Some(2)),
        op_token,
        node(SyntaxKind::MemberExpression, "Root.Engine.Delta", Some(1)),
        node(SyntaxKind::MemberExpression, "Root.Engine", Some(8)),
        node(SyntaxKind::Identifier, "Root", Some(9)),
        node(SyntaxKind::Identifier, "Engine", Some(9)),
        node(SyntaxKind::Identifier, "Delta", Some(8)),
    ]
}

#[test]
fn outermost_paths_carry_their_access() {
    let found = top_paths(&assignment("+="));
    assert_eq!(
        found,
        vec![
            ("Root.Engine.Count".to_string(), Access::ReadWrite),
            ("Root.Engine.Delta".to_string(), Access::Read),
        ]
    );
    let plain = top_paths(&assignment("="));
    assert_eq!(plain[0], ("Root.Engine.Count".to_string(), Access::Write));
    for op in ["-=", "*=", "/=", "%=", "&=", "|=", "^=", "<<=", ">>="] {
        assert_eq!(top_paths(&assignment(op))[0].1, Access::ReadWrite, "`{op}` target must be ReadWrite");
    }
}

#[test]
fn type_annotations_and_locals() {
    // local tmp: f32 = Root.Speed;
    let mut decl = node(SyntaxKind::LocalDeclaration, "local tmp: f32 = Root.Speed;", Some(0));
    decl.operator = None;
    let mut keyword = node(SyntaxKind::Other, "local", Some(1));
    keyword.named = false;
    let mut name = node(SyntaxKind::Identifier, "tmp", Some(1));
    name.is_name = true;
    let tree = vec![
        node(SyntaxKind::Other, "", None),
        decl,
        keyword,
        name,
        node(SyntaxKind::TypeAnnotation, ": f32", Some(1)),
        node(SyntaxKind::Identifier, "f32", Some(4)),
        node(SyntaxKind::MemberExpression, "Root.Speed", Some(1)),
        node(SyntaxKind::Identifier, "Root", Some(6)),
        node(SyntaxKind::Identifier, "Speed", Some(6)),
    ];
    assert_eq!(
        top_paths(&tree),
        vec![("tmp".to_string(), Access::Write), ("Root.Speed".to_string(), Access::Read)],
        "the type annotation's identifier is no path"
    );
    assert_eq!(local_names(&tree), vec!["tmp".to_string()]);
}
