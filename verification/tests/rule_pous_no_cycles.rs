use ironplc::ast::{
    EnumeratedSpecificationKind, EnumerationDeclaration, FunctionBlockBody,
    FunctionBlockDeclaration, FunctionBlockTypeInitializer, FunctionDeclaration, LateResolvedType,
    Library, LibraryElement, ProgramDeclaration, StorageClass, TypeInitializer, VarInitDecl,
    VarInitKind,
};
use ironplc::ident::Id;
use ironplc::rule_pous_no_cycles::apply;

fn body() -> FunctionBlockBody {
    FunctionBlockBody { statements: vec![] }
}

fn instance(name: &str, fb: &str) -> VarInitKind {
    VarInitKind::VarInit(VarInitDecl {
        name: Id::from(name),
        storage_class: StorageClass::Unspecified,
        initializer: TypeInitializer::FunctionBlock(FunctionBlockTypeInitializer {
            type_id: Id::from(fb),
        }),
    })
}

fn simple(name: &str, ty: &str) -> VarInitKind {
    VarInitKind::VarInit(VarInitDecl {
        name: Id::from(name),
        storage_class: StorageClass::Unspecified,
        initializer: TypeInitializer::Simple { type_id: Id::from(ty) },
    })
}

fn function_block(name: &str, var_decls: Vec<VarInitKind>) -> LibraryElement {
    LibraryElement::FunctionBlockDeclaration(FunctionBlockDeclaration {
        name: Id::from(name),
        var_decls,
        body: body(),
    })
}

// FUNCTION_BLOCK SelfRecursive
//     VAR
//        SelfRecursiveInstance : SelfRecursive;
//     END_VAR
// END_FUNCTION_BLOCK
#[test]
fn apply_when_function_block_recursive_call_in_self_then_return_error() {
    let library = Library {
        elems: vec![function_block(
            "SelfRecursive",
            vec![instance("SelfRecursiveInstance", "SelfRecursive")],
        )],
    };
    let result = apply(&library);
    assert_eq!(true, result.is_err());
}

// FUNCTION_BLOCK Callee
//     VAR
//        IN1: BOOL;
//     END_VAR
// END_FUNCTION_BLOCK
//
// FUNCTION_BLOCK Caller
//     VAR
//         CalleeInstance : Callee;
//     END_VAR
// END_FUNCTION_BLOCK
#[test]
fn apply_when_function_block_not_recursive_call_in_self_then_return_ok() {
    let library = Library {
        elems: vec![
            function_block("Callee", vec![simple("IN1", "BOOL")]),
            function_block("Caller", vec![instance("CalleeInstance", "Callee")]),
        ],
    };
    let result = apply(&library);
    assert_eq!(true, result.is_ok());
}

#[test]
fn apply_cycle_reports_code_and_message() {
    let library = Library { elems: vec![function_block("Loop", vec![instance("me", "Loop")])] };
    let err = apply(&library).unwrap_err();
    assert_eq!(err.code, "S0005");
    assert_eq!(err.message, "Library has a recursive cycle");
}

#[test]
fn apply_indirect_cycle_is_error() {
    let library = Library {
        elems: vec![
            function_block("A", vec![instance("b", "B")]),
            function_block("B", vec![instance("c", "C")]),
            function_block("C", vec![simple("x", "INT"), instance("a", "A")]),
        ],
    };
    assert!(apply(&library).is_err());
}

#[test]
fn apply_cycle_ignores_case_of_names() {
    let library = Library {
        elems: vec![
            function_block("Alpha", vec![instance("b", "BETA")]),
            function_block("beta", vec![instance("a", "ALPHA")]),
        ],
    };
    assert!(apply(&library).is_err());
}

#[test]
fn apply_chain_and_diamond_are_ok() {
    let library = Library {
        elems: vec![
            function_block("Top", vec![instance("l", "Left"), instance("r", "Right")]),
            function_block("Left", vec![instance("b", "Bottom")]),
            function_block("Right", vec![instance("b", "Bottom"), instance("b2", "Bottom")]),
            function_block("Bottom", vec![simple("x", "BOOL")]),
        ],
    };
    assert!(apply(&library).is_ok());
}

#[test]
fn apply_program_and_function_references_count() {
    let library = Library {
        elems: vec![
            LibraryElement::ProgramDeclaration(ProgramDeclaration {
                type_id: Id::from("Main"),
                var_declarations: vec![instance("f", "Fb")],
                body: body(),
            }),
            function_block("Fb", vec![instance("m", "Main")]),
        ],
    };
    assert!(apply(&library).is_err());

    let library = Library {
        elems: vec![LibraryElement::FunctionDeclaration(FunctionDeclaration {
            name: Id::from("Fun"),
            return_type: Id::from("INT"),
            var_decls: vec![instance("f", "Fun")],
            body: body(),
        })],
    };
    assert!(apply(&library).is_err());
}

#[test]
fn apply_ignores_unresolved_declarations_and_data_types() {
    let library = Library {
        elems: vec![
            LibraryElement::DataTypeDeclaration(vec![EnumerationDeclaration {
                name: Id::from("Fb"),
                spec: EnumeratedSpecificationKind::Values(vec![Id::from("A")]),
                default: None,
            }]),
            function_block(
                "Fb",
                vec![VarInitKind::LateResolvedType(LateResolvedType {
                    name: Id::from("me"),
                    storage_class: StorageClass::Unspecified,
                    type_id: Id::from("Fb"),
                })],
            ),
        ],
    };
    assert!(apply(&library).is_ok());
}

#[test]
fn apply_empty_library_has_no_cycle() {
    assert!(apply(&Library { elems: vec![] }).is_ok());
}

fn function(name: &str, var_decls: Vec<VarInitKind>) -> LibraryElement {
    LibraryElement::FunctionDeclaration(FunctionDeclaration {
        name: Id::from(name),
        return_type: Id::from("INT"),
        var_decls,
        body: body(),
    })
}

#[test]
fn apply_function_declaring_function_block_instance_is_error() {
    let library = Library {
        elems: vec![
            function_block("Counter", vec![simple("n", "INT")]),
            function("Compute", vec![simple("x", "INT"), instance("c", "Counter")]),
        ],
    };
    let err = apply(&library).unwrap_err();
    assert_eq!(err.code, "S0006");
    assert_eq!(err.message, "Function Compute declares an instance of function block Counter");
}

#[test]
fn apply_reports_first_function_instance() {
    let library = Library {
        elems: vec![
            function_block("A", vec![]),
            function_block("B", vec![]),
            function("F", vec![simple("x", "INT")]),
            function("G", vec![instance("b", "B"), instance("a", "A")]),
            function("H", vec![instance("a", "A")]),
        ],
    };
    let err = apply(&library).unwrap_err();
    assert_eq!(err.message, "Function G declares an instance of function block B");
}

#[test]
fn apply_reports_recursion_before_hierarchy() {
    let library = Library {
        elems: vec![
            function_block("Loop", vec![instance("me", "Loop")]),
            function("F", vec![instance("l", "Loop")]),
        ],
    };
    let err = apply(&library).unwrap_err();
    assert_eq!(err.code, "S0005");
}

#[test]
fn apply_functions_and_programs_within_hierarchy_are_ok() {
    let library = Library {
        elems: vec![
            function("F", vec![simple("x", "INT")]),
            function_block("Fb", vec![instance("inner", "Other")]),
            function_block("Other", vec![]),
            LibraryElement::ProgramDeclaration(ProgramDeclaration {
                type_id: Id::from("Main"),
                var_declarations: vec![instance("fb", "Fb")],
                body: body(),
            }),
        ],
    };
    assert!(apply(&library).is_ok());
}
