use ironplc::ast::{
    EnumeratedSpecificationKind, EnumerationDeclaration, FunctionBlockBody,
    FunctionBlockDeclaration, FunctionBlockTypeInitializer, Library, LibraryElement, StorageClass,
    TypeInitializer, VarInitDecl, VarInitKind,
};
use ironplc::diagnostic::SemanticDiagnostic;
use ironplc::ident::Id;
use ironplc::stages::{analyze, analyze_within_limits};

fn recursive_block() -> LibraryElement {
    LibraryElement::FunctionBlockDeclaration(FunctionBlockDeclaration {
        name: Id::from("Again"),
        var_decls: vec![VarInitKind::VarInit(VarInitDecl {
            name: Id::from("inner"),
            storage_class: StorageClass::Unspecified,
            initializer: TypeInitializer::FunctionBlock(FunctionBlockTypeInitializer {
                type_id: Id::from("again"),
            }),
        })],
        body: FunctionBlockBody { statements: vec!["inner();".to_string()] },
    })
}

fn enumeration(values: &[&str]) -> LibraryElement {
    LibraryElement::DataTypeDeclaration(vec![EnumerationDeclaration {
        name: Id::from("MODE"),
        spec: EnumeratedSpecificationKind::Values(values.iter().map(|v| Id::from(v)).collect()),
        default: None,
    }])
}

#[test]
fn analyze_passes_valid_library() {
    let library = Library { elems: vec![enumeration(&["AUTO", "MANUAL"])] };
    assert!(analyze(&library).is_ok());
}

#[test]
fn analyze_reports_enumeration_rule_first() {
    let library = Library { elems: vec![recursive_block(), enumeration(&["AUTO", "auto"])] };
    let err = analyze(&library).unwrap_err();
    assert_eq!(err.code, "S0004");
    assert_eq!(err.message, "Enumeration declaration MODE has duplicated value auto");
}

#[test]
fn analyze_reports_recursion() {
    let library = Library { elems: vec![recursive_block(), enumeration(&["AUTO", "MANUAL"])] };
    let err = analyze(&library).unwrap_err();
    assert_eq!(err.code, "S0005");
}

#[test]
fn semantic_diagnostic_error_keeps_code_and_message() {
    let d = SemanticDiagnostic::error("S0001", "something".to_string());
    assert_eq!(d.code, "S0001");
    assert_eq!(d.message, "something");
}

#[test]
fn analyze_within_limits_analyzes_small_libraries() {
    let library = Library { elems: vec![enumeration(&["AUTO", "MANUAL"])] };
    assert!(analyze_within_limits(&library).unwrap().is_ok());
    let library = Library { elems: vec![recursive_block()] };
    let err = analyze_within_limits(&library).unwrap().unwrap_err();
    assert_eq!(err.code, "S0005");
}
