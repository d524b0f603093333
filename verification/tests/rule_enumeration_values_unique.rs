use ironplc::ast::{
    EnumeratedSpecificationKind, EnumerationDeclaration, FunctionBlockBody,
    FunctionBlockDeclaration, Library, LibraryElement,
};
use ironplc::ident::Id;
use ironplc::rule_enumeration_values_unique::{apply, visit_enum_declaration};

fn enumeration(name: &str, values: &[&str]) -> EnumerationDeclaration {
    EnumerationDeclaration {
        name: Id::from(name),
        spec: EnumeratedSpecificationKind::Values(values.iter().map(|v| Id::from(v)).collect()),
        default: None,
    }
}

fn types(decls: Vec<EnumerationDeclaration>) -> LibraryElement {
    LibraryElement::DataTypeDeclaration(decls)
}

// TYPE
// LOGLEVEL : (CRITICAL, ERROR);
// END_TYPE
#[test]
fn apply_when_values_unique_then_ok() {
    let library = Library { elems: vec![types(vec![enumeration("LOGLEVEL", &["CRITICAL", "ERROR"])])] };
    let result = apply(&library);

    assert_eq!(true, result.is_ok());
}

// TYPE
// LOGLEVEL : (CRITICAL, CRITICAL);
// END_TYPE
#[test]
fn apply_when_value_duplicated_then_error() {
    let library =
        Library { elems: vec![types(vec![enumeration("LOGLEVEL", &["CRITICAL", "CRITICAL"])])] };
    let result = apply(&library);

    assert_eq!(true, result.is_err());
}

#[test]
fn apply_duplicate_reports_code_and_message() {
    let library =
        Library { elems: vec![types(vec![enumeration("LOGLEVEL", &["CRITICAL", "CRITICAL"])])] };
    let err = apply(&library).unwrap_err();
    assert_eq!(err.code, "S0004");
    assert_eq!(err.message, "Enumeration declaration LOGLEVEL has duplicated value CRITICAL");
}

#[test]
fn apply_duplicate_ignores_case_and_names_later_value() {
    let library = Library {
        elems: vec![types(vec![enumeration("Level", &["Info", "Warn", "INFO", "warn"])])],
    };
    let err = apply(&library).unwrap_err();
    assert_eq!(err.message, "Enumeration declaration Level has duplicated value INFO");
}

#[test]
fn apply_reports_first_position_that_repeats() {
    let library =
        Library { elems: vec![types(vec![enumeration("Color", &["RED", "GREEN", "GREEN", "RED"])])] };
    let err = apply(&library).unwrap_err();
    assert_eq!(err.message, "Enumeration declaration Color has duplicated value GREEN");
}

#[test]
fn apply_reports_first_declaration_that_repeats() {
    let library = Library {
        elems: vec![
            types(vec![enumeration("A", &["X", "Y"]), enumeration("B", &["P", "P"])]),
            types(vec![enumeration("C", &["Q", "Q"])]),
        ],
    };
    let err = apply(&library).unwrap_err();
    assert_eq!(err.message, "Enumeration declaration B has duplicated value P");
}

#[test]
fn apply_same_value_in_two_declarations_is_ok() {
    let library = Library {
        elems: vec![types(vec![enumeration("A", &["ON", "OFF"]), enumeration("B", &["ON", "OFF"])])],
    };
    assert!(apply(&library).is_ok());
}

#[test]
fn apply_ignores_type_name_and_other_elements() {
    let library = Library {
        elems: vec![
            types(vec![EnumerationDeclaration {
                name: Id::from("Alias"),
                spec: EnumeratedSpecificationKind::TypeName(Id::from("LOGLEVEL")),
                default: None,
            }]),
            LibraryElement::FunctionBlockDeclaration(FunctionBlockDeclaration {
                name: Id::from("Fb"),
                var_decls: vec![],
                body: FunctionBlockBody { statements: vec![] },
            }),
        ],
    };
    assert!(apply(&library).is_ok());
}

#[test]
fn apply_empty_library_is_ok() {
    assert!(apply(&Library { elems: vec![] }).is_ok());
}

#[test]
fn visit_enum_declaration_checks_one_declaration() {
    assert!(visit_enum_declaration(&enumeration("E", &["A", "B", "C"])).is_ok());
    let err = visit_enum_declaration(&enumeration("E", &["A", "B", "a"])).unwrap_err();
    assert_eq!(err.code, "S0004");
    assert_eq!(err.message, "Enumeration declaration E has duplicated value a");
}

// TYPE
// LOGLEVEL : (CRITICAL) := CRITICAL;
// END_TYPE
#[test]
fn apply_single_value_with_default_is_ok() {
    let library = Library {
        elems: vec![types(vec![EnumerationDeclaration {
            name: Id::from("LOGLEVEL"),
            spec: EnumeratedSpecificationKind::Values(vec![Id::from("CRITICAL")]),
            default: Some(Id::from("CRITICAL")),
        }])],
    };
    assert!(apply(&library).is_ok());
}
