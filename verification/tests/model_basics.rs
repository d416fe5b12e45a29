use m1_doc::model::{anchor_slug, AnnotationDoc, FunctionDoc, SymbolDocKind};
use m1_doc::path::parent_group;

#[test]
fn kind_plurals_are_section_headings() {
    assert_eq!(SymbolDocKind::Channel.plural(), "Channels");
    assert_eq!(SymbolDocKind::Parameter.plural(), "Parameters");
    assert_eq!(SymbolDocKind::Constant.plural(), "Constants");
}

#[test]
fn annotation_doc_defaults_to_empty() {
    let a = AnnotationDoc::default();
    assert!(a.kind.is_empty());
    assert!(a.args.is_empty());
}

#[test]
fn function_doc_defaults_to_no_annotations() {
    let f = FunctionDoc::default();
    assert!(f.annotations.is_empty());
}

#[test]
fn anchor_slug_is_lowercase_hyphenated_and_collapsed() {
    assert_eq!(anchor_slug("Root.Engine.Speed"), "root-engine-speed");
    assert_eq!(anchor_slug("Root.Engine.On 100Hz"), "root-engine-on-100hz");
    assert_eq!(anchor_slug("Root..Engine -- X!"), "root-engine-x");
    assert_eq!(anchor_slug(""), "symbol");
    assert_eq!(anchor_slug("...!!!"), "symbol");
}

#[test]
fn annotation_doc_stores_kind_and_args() {
    let a = AnnotationDoc {
        kind: "requires-finite".into(),
        args: vec!["min=0".into()],
    };
    assert_eq!(a.kind, "requires-finite");
    assert_eq!(a.args, vec!["min=0"]);
}

#[test]
fn parent_group_strips_the_leaf_segment() {
    assert_eq!(parent_group("Root.Engine.Speed"), "Root.Engine");
    assert_eq!(parent_group("Root.Engine.Gain.Value"), "Root.Engine.Gain");
    assert_eq!(parent_group("Root.Engine"), "Root");
    assert_eq!(parent_group("Root"), "");
}
