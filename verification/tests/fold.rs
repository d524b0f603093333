use ironplc::ast::{
    EnumeratedSpecificationKind, EnumerationDeclaration, FunctionBlockBody,
    FunctionBlockDeclaration, FunctionBlockTypeInitializer, FunctionDeclaration, LateResolvedType,
    Library, LibraryElement, ProgramDeclaration, StorageClass, TypeInitializer, VarInitDecl,
    VarInitKind,
};
use ironplc::fold::Fold;
use ironplc::ident::Id;

struct Keep;

impl Fold for Keep {}

/// Resolves declarations of unknown kind as function block instances.
struct ResolveAsFunctionBlocks;

impl Fold for ResolveAsFunctionBlocks {
    fn fold_var_init_kind(&mut self, node: VarInitKind) -> VarInitKind {
        match node {
            VarInitKind::LateResolvedType(late) => VarInitKind::VarInit(VarInitDecl {
                name: late.name,
                storage_class: late.storage_class,
                initializer: TypeInitializer::FunctionBlock(FunctionBlockTypeInitializer {
                    type_id: late.type_id,
                }),
            }),
            other => other,
        }
    }
}

/// Renames the types of all initializers.
struct RenameTypes;

impl Fold for RenameTypes {
    fn fold_type_initializer(&mut self, node: TypeInitializer) -> TypeInitializer {
        match node {
            TypeInitializer::Simple { .. } => TypeInitializer::Simple { type_id: Id::from("RENAMED") },
            TypeInitializer::FunctionBlock(_) => {
                TypeInitializer::FunctionBlock(FunctionBlockTypeInitializer {
                    type_id: Id::from("RENAMED"),
                })
            }
        }
    }
}

fn late(name: &str, ty: &str) -> VarInitKind {
    VarInitKind::LateResolvedType(LateResolvedType {
        name: Id::from(name),
        storage_class: StorageClass::Retain,
        type_id: Id::from(ty),
    })
}

fn simple(name: &str, ty: &str) -> VarInitKind {
    VarInitKind::VarInit(VarInitDecl {
        name: Id::from(name),
        storage_class: StorageClass::Constant,
        initializer: TypeInitializer::Simple { type_id: Id::from(ty) },
    })
}

fn library() -> Library {
    Library {
        elems: vec![
            LibraryElement::DataTypeDeclaration(vec![EnumerationDeclaration {
                name: Id::from("Color"),
                spec: EnumeratedSpecificationKind::Values(vec![Id::from("RED")]),
                default: None,
            }]),
            LibraryElement::FunctionBlockDeclaration(FunctionBlockDeclaration {
                name: Id::from("Fb"),
                var_decls: vec![simple("x", "INT"), late("inner", "Other")],
                body: FunctionBlockBody { statements: vec!["x := 1;".to_string()] },
            }),
            LibraryElement::FunctionDeclaration(FunctionDeclaration {
                name: Id::from("Fun"),
                return_type: Id::from("BOOL"),
                var_decls: vec![simple("y", "BOOL")],
                body: FunctionBlockBody { statements: vec![] },
            }),
            LibraryElement::ProgramDeclaration(ProgramDeclaration {
                type_id: Id::from("Main"),
                var_declarations: vec![late("fb", "Fb")],
                body: FunctionBlockBody { statements: vec!["fb();".to_string()] },
            }),
        ],
    }
}

fn var_decls(elem: &LibraryElement) -> &Vec<VarInitKind> {
    match elem {
        LibraryElement::FunctionBlockDeclaration(d) => &d.var_decls,
        LibraryElement::FunctionDeclaration(d) => &d.var_decls,
        LibraryElement::ProgramDeclaration(d) => &d.var_declarations,
        LibraryElement::DataTypeDeclaration(_) => panic!("no variables"),
    }
}

fn type_of(decl: &VarInitKind) -> String {
    match decl {
        VarInitKind::VarInit(d) => match &d.initializer {
            TypeInitializer::Simple { type_id } => format!("simple {}", type_id.to_string()),
            TypeInitializer::FunctionBlock(fb) => format!("fb {}", fb.type_id.to_string()),
        },
        VarInitKind::LateResolvedType(l) => format!("late {}", l.type_id.to_string()),
    }
}

#[test]
fn fold_with_defaults_keeps_library() {
    let folded = Keep.fold(library());
    assert_eq!(folded.elems.len(), 4);
    match &folded.elems[0] {
        LibraryElement::DataTypeDeclaration(decls) => assert_eq!(decls[0].name.to_string(), "Color"),
        _ => panic!("kind changed"),
    }
    match &folded.elems[1] {
        LibraryElement::FunctionBlockDeclaration(d) => {
            assert_eq!(d.name.to_string(), "Fb");
            assert_eq!(d.body.statements, vec!["x := 1;".to_string()]);
        }
        _ => panic!("kind changed"),
    }
    match &folded.elems[2] {
        LibraryElement::FunctionDeclaration(d) => assert_eq!(d.return_type.to_string(), "BOOL"),
        _ => panic!("kind changed"),
    }
    let types: Vec<String> = folded.elems[1..].iter().flat_map(|e| var_decls(e).iter().map(type_of)).collect();
    assert_eq!(types, vec!["simple INT", "late Other", "simple BOOL", "late Fb"]);
}

#[test]
fn fold_var_init_kind_override_reaches_every_pou() {
    let folded = ResolveAsFunctionBlocks.fold(library());
    let types: Vec<String> = folded.elems[1..].iter().flat_map(|e| var_decls(e).iter().map(type_of)).collect();
    assert_eq!(types, vec!["simple INT", "fb Other", "simple BOOL", "fb Fb"]);
    match &folded.elems[3] {
        LibraryElement::ProgramDeclaration(d) => assert_eq!(d.type_id.to_string(), "Main"),
        _ => panic!("kind changed"),
    }
}

#[test]
fn fold_type_initializer_override_keeps_names_and_storage() {
    let folded = RenameTypes.fold(library());
    let types: Vec<String> = folded.elems[1..].iter().flat_map(|e| var_decls(e).iter().map(type_of)).collect();
    assert_eq!(types, vec!["simple RENAMED", "late Other", "simple RENAMED", "late Fb"]);
    match &var_decls(&folded.elems[1])[0] {
        VarInitKind::VarInit(d) => {
            assert_eq!(d.name.to_string(), "x");
            assert!(d.storage_class == StorageClass::Constant);
        }
        _ => panic!("kind changed"),
    }
}

#[test]
fn fold_single_element_by_kind() {
    let mut folder = RenameTypes;
    let elem = folder.fold_library_element_declaration(library().elems.remove(1));
    match elem {
        LibraryElement::FunctionBlockDeclaration(d) => assert_eq!(type_of(&d.var_decls[0]), "simple RENAMED"),
        _ => panic!("kind changed"),
    }
}
