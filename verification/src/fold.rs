//! Transformations of the syntax tree: a `Fold` rebuilds a library node by
//! node, and an implementation overrides the methods for the nodes that it
//! changes.
use crate::ast::{
    FunctionBlockDeclaration, FunctionDeclaration, Library, LibraryElement, ProgramDeclaration,
    TypeInitializer, VarInitDecl, VarInitKind,
};
use vstd::prelude::*;

verus! {

/// `a` and `b` are the same kind of library element.
pub open spec fn same_element_kind(a: LibraryElement, b: LibraryElement) -> bool {
    match (a, b) {
        (LibraryElement::DataTypeDeclaration(_), LibraryElement::DataTypeDeclaration(_)) => true,
        (
            LibraryElement::FunctionBlockDeclaration(_),
            LibraryElement::FunctionBlockDeclaration(_),
        ) => true,
        (LibraryElement::FunctionDeclaration(_), LibraryElement::FunctionDeclaration(_)) => true,
        (LibraryElement::ProgramDeclaration(_), LibraryElement::ProgramDeclaration(_)) => true,
        _ => false,
    }
}

/// A transformation of a library. Each method folds one kind of node; the
/// provided methods rebuild the node from its folded children and keep
/// everything else, so that an implementation overrides only the methods
/// for the nodes that it changes.
///
/// The contracts of the provided methods follow the folder through the calls
/// that they make: each call starts from the folder that the previous call
/// left (the first from the folder as passed in), the last leaves the folder
/// as returned, and a method that makes no call leaves the folder unchanged.
pub trait Fold: Sized {
    /// Folds each element of the library, in order: the element at each
    /// position of the result is what `fold_library_element_declaration`
    /// returned for the element at that position.
    fn fold(&mut self, node: Library) -> (r: Library)
        default_ensures
            r.elems@.len() == node.elems@.len(),
            exists|states: Seq<&mut Self>|
                #![trigger states.len()]
                {
                    &&& states.len() == node.elems@.len()
                    &&& states.len() == 0 ==> *final(self) == *old(self)
                    &&& states.len() > 0 ==> *states[0] == *old(self) && *final(states[states.len() - 1]) == *final(self)
                    &&& forall|i: int|
                        0 <= i < states.len() - 1 ==> *final(#[trigger] states[i])
                            == *states[i + 1]
                    &&& forall|i: int|
                        0 <= i < node.elems@.len() ==> #[trigger] call_ensures(
                            Self::fold_library_element_declaration,
                            (states[i], node.elems@[i]),
                            r.elems@[i],
                        )
                },
    {
        let ghost inputs = node.elems@;
        let ghost start = *self;
        let mut rest = node.elems;
        let mut folded: Vec<LibraryElement> = Vec::new();
        assert(Seq::<&mut Self>::empty().len() == 0);
        while rest.len() > 0
            invariant
                folded@.len() + rest@.len() == inputs.len(),
                rest@ == inputs.skip(folded@.len() as int),
                exists|states: Seq<&mut Self>|
                        #![trigger states.len()]
                        {
                            &&& states.len() == folded@.len()
                            &&& states.len() == 0 ==> *self == start
                            &&& states.len() > 0 ==> *states[0] == start && *final(states[states.len() - 1]) == *self
                            &&& forall|i: int|
                                0 <= i < states.len() - 1 ==> *final(#[trigger] states[i])
                                    == *states[i + 1]
                            &&& forall|i: int|
                                0 <= i < folded@.len() ==> #[trigger] call_ensures(
                                    Self::fold_library_element_declaration,
                                    (states[i], inputs[i]),
                                    folded@[i],
                                )
                        },
            decreases rest@.len(),
        {
            let elem = rest.remove(0);
            let ghost before = *self;
            let ghost prev = folded@;
            let elem_folded = self.fold_library_element_declaration(elem);
            folded.push(elem_folded);
            assert(exists|states: Seq<&mut Self>|
                    #![trigger states.len()]
                    {
                        &&& states.len() == folded@.len()
                        &&& states.len() == 0 ==> *self == start
                        &&& states.len() > 0 ==> *states[0] == start && *final(states[states.len() - 1]) == *self
                        &&& forall|i: int|
                            0 <= i < states.len() - 1 ==> *final(#[trigger] states[i])
                                == *states[i + 1]
                        &&& forall|i: int|
                            0 <= i < folded@.len() ==> #[trigger] call_ensures(
                                Self::fold_library_element_declaration,
                                (states[i], inputs[i]),
                                folded@[i],
                            )
                    }) by {
                let earlier = choose|states: Seq<&mut Self>|
                    #![trigger states.len()]
                {
                    &&& states.len() == prev.len()
                    &&& states.len() == 0 ==> before == start
                    &&& states.len() > 0 ==> *states[0] == start && *final(states[states.len() - 1]) == before
                    &&& forall|i: int|
                        0 <= i < states.len() - 1 ==> *final(#[trigger] states[i])
                            == *states[i + 1]
                    &&& forall|i: int|
                        0 <= i < prev.len() ==> #[trigger] call_ensures(
                            Self::fold_library_element_declaration,
                            (states[i], inputs[i]),
                            prev[i],
                        )
                };
                let call = choose|call: &mut Self|
                    #[trigger] call_ensures(Self::fold_library_element_declaration, (call, elem), elem_folded)
                        && *call == before && *final(call) == *self;
                assert(earlier.push(call).len() == folded@.len());
            }
            assert(rest@ =~= inputs.skip(folded@.len() as int));
        }
        Library { elems: folded }
    }

    /// Folds a POU declaration by the method for its kind, with one call, and
    /// returns what that method returned, as the same kind of element; keeps
    /// a data type declaration, and then the folder too.
    fn fold_library_element_declaration(&mut self, node: LibraryElement) -> (r: LibraryElement)
        default_ensures
            same_element_kind(r, node),
            node is DataTypeDeclaration ==> r == node && *final(self) == *old(self),
            node matches LibraryElement::FunctionBlockDeclaration(d) ==> (r matches LibraryElement::FunctionBlockDeclaration(e)
                && exists|call: &mut Self| #[trigger] call_ensures(Self::fold_function_block_declaration, (call, d), e)
                    && *call == *old(self) && *final(call) == *final(self)),
            node matches LibraryElement::FunctionDeclaration(d) ==> (r matches LibraryElement::FunctionDeclaration(e)
                && exists|call: &mut Self| #[trigger] call_ensures(Self::fold_function_declaration, (call, d), e)
                    && *call == *old(self) && *final(call) == *final(self)),
            node matches LibraryElement::ProgramDeclaration(d) ==> (r matches LibraryElement::ProgramDeclaration(e)
                && exists|call: &mut Self| #[trigger] call_ensures(Self::fold_program_declaration, (call, d), e)
                    && *call == *old(self) && *final(call) == *final(self)),
    {
        match node {
            LibraryElement::FunctionBlockDeclaration(function_block_decl) => {
                let folded = self.fold_function_block_declaration(function_block_decl);
                let r = LibraryElement::FunctionBlockDeclaration(folded);
                assert(r matches LibraryElement::FunctionBlockDeclaration(e) && e == folded);
                r
            },
            LibraryElement::FunctionDeclaration(function_decl) => {
                let folded = self.fold_function_declaration(function_decl);
                let r = LibraryElement::FunctionDeclaration(folded);
                assert(r matches LibraryElement::FunctionDeclaration(e) && e == folded);
                r
            },
            LibraryElement::ProgramDeclaration(program_decl) => {
                let folded = self.fold_program_declaration(program_decl);
                let r = LibraryElement::ProgramDeclaration(folded);
                assert(r matches LibraryElement::ProgramDeclaration(e) && e == folded);
                r
            },
            _ => node,
        }
    }

    /// Folds the variable declarations, each by `fold_var_init_kind`, in
    /// order; keeps the name and the body.
    fn fold_function_block_declaration(&mut self, node: FunctionBlockDeclaration) -> (r:
        FunctionBlockDeclaration)
        default_ensures
            r.name == node.name,
            r.body == node.body,
            r.var_decls@.len() == node.var_decls@.len(),
            exists|states: Seq<&mut Self>|
                #![trigger states.len()]
                {
                    &&& states.len() == node.var_decls@.len()
                    &&& states.len() == 0 ==> *final(self) == *old(self)
                    &&& states.len() > 0 ==> *states[0] == *old(self) && *final(states[states.len() - 1]) == *final(self)
                    &&& forall|i: int|
                        0 <= i < states.len() - 1 ==> *final(#[trigger] states[i])
                            == *states[i + 1]
                    &&& forall|i: int|
                        0 <= i < node.var_decls@.len() ==> #[trigger] call_ensures(
                            Self::fold_var_init_kind,
                            (states[i], node.var_decls@[i]),
                            r.var_decls@[i],
                        )
                },
    {
        let ghost inputs = node.var_decls@;
        let ghost start = *self;
        let mut rest = node.var_decls;
        let mut folded: Vec<VarInitKind> = Vec::new();
        assert(Seq::<&mut Self>::empty().len() == 0);
        while rest.len() > 0
            invariant
                folded@.len() + rest@.len() == inputs.len(),
                rest@ == inputs.skip(folded@.len() as int),
                exists|states: Seq<&mut Self>|
                        #![trigger states.len()]
                        {
                            &&& states.len() == folded@.len()
                            &&& states.len() == 0 ==> *self == start
                            &&& states.len() > 0 ==> *states[0] == start && *final(states[states.len() - 1]) == *self
                            &&& forall|i: int|
                                0 <= i < states.len() - 1 ==> *final(#[trigger] states[i])
                                    == *states[i + 1]
                            &&& forall|i: int|
                                0 <= i < folded@.len() ==> #[trigger] call_ensures(
                                    Self::fold_var_init_kind,
                                    (states[i], inputs[i]),
                                    folded@[i],
                                )
                        },
            decreases rest@.len(),
        {
            let decl = rest.remove(0);
            let ghost before = *self;
            let ghost prev = folded@;
            let decl_folded = self.fold_var_init_kind(decl);
            folded.push(decl_folded);
            assert(exists|states: Seq<&mut Self>|
                    #![trigger states.len()]
                    {
                        &&& states.len() == folded@.len()
                        &&& states.len() == 0 ==> *self == start
                        &&& states.len() > 0 ==> *states[0] == start && *final(states[states.len() - 1]) == *self
                        &&& forall|i: int|
                            0 <= i < states.len() - 1 ==> *final(#[trigger] states[i])
                                == *states[i + 1]
                        &&& forall|i: int|
                            0 <= i < folded@.len() ==> #[trigger] call_ensures(
                                Self::fold_var_init_kind,
                                (states[i], inputs[i]),
                                folded@[i],
                            )
                    }) by {
                let earlier = choose|states: Seq<&mut Self>|
                    #![trigger states.len()]
                {
                    &&& states.len() == prev.len()
                    &&& states.len() == 0 ==> before == start
                    &&& states.len() > 0 ==> *states[0] == start && *final(states[states.len() - 1]) == before
                    &&& forall|i: int|
                        0 <= i < states.len() - 1 ==> *final(#[trigger] states[i])
                            == *states[i + 1]
                    &&& forall|i: int|
                        0 <= i < prev.len() ==> #[trigger] call_ensures(
                            Self::fold_var_init_kind,
                            (states[i], inputs[i]),
                            prev[i],
                        )
                };
                let call = choose|call: &mut Self|
                    #[trigger] call_ensures(Self::fold_var_init_kind, (call, decl), decl_folded)
                        && *call == before && *final(call) == *self;
                assert(earlier.push(call).len() == folded@.len());
            }
            assert(rest@ =~= inputs.skip(folded@.len() as int));
        }
        FunctionBlockDeclaration { name: node.name, var_decls: folded, body: node.body }
    }

    /// Folds the variable declarations, each by `fold_var_init_kind`, in
    /// order; keeps the name, the return type and the body.
    fn fold_function_declaration(&mut self, node: FunctionDeclaration) -> (r: FunctionDeclaration)
        default_ensures
            r.name == node.name,
            r.return_type == node.return_type,
            r.body == node.body,
            r.var_decls@.len() == node.var_decls@.len(),
            exists|states: Seq<&mut Self>|
                #![trigger states.len()]
                {
                    &&& states.len() == node.var_decls@.len()
                    &&& states.len() == 0 ==> *final(self) == *old(self)
                    &&& states.len() > 0 ==> *states[0] == *old(self) && *final(states[states.len() - 1]) == *final(self)
                    &&& forall|i: int|
                        0 <= i < states.len() - 1 ==> *final(#[trigger] states[i])
                            == *states[i + 1]
                    &&& forall|i: int|
                        0 <= i < node.var_decls@.len() ==> #[trigger] call_ensures(
                            Self::fold_var_init_kind,
                            (states[i], node.var_decls@[i]),
                            r.var_decls@[i],
                        )
                },
    {
        let ghost inputs = node.var_decls@;
        let ghost start = *self;
        let mut rest = node.var_decls;
        let mut folded: Vec<VarInitKind> = Vec::new();
        assert(Seq::<&mut Self>::empty().len() == 0);
        while rest.len() > 0
            invariant
                folded@.len() + rest@.len() == inputs.len(),
                rest@ == inputs.skip(folded@.len() as int),
                exists|states: Seq<&mut Self>|
                        #![trigger states.len()]
                        {
                            &&& states.len() == folded@.len()
                            &&& states.len() == 0 ==> *self == start
                            &&& states.len() > 0 ==> *states[0] == start && *final(states[states.len() - 1]) == *self
                            &&& forall|i: int|
                                0 <= i < states.len() - 1 ==> *final(#[trigger] states[i])
                                    == *states[i + 1]
                            &&& forall|i: int|
                                0 <= i < folded@.len() ==> #[trigger] call_ensures(
                                    Self::fold_var_init_kind,
                                    (states[i], inputs[i]),
                                    folded@[i],
                                )
                        },
            decreases rest@.len(),
        {
            let decl = rest.remove(0);
            let ghost before = *self;
            let ghost prev = folded@;
            let decl_folded = self.fold_var_init_kind(decl);
            folded.push(decl_folded);
            assert(exists|states: Seq<&mut Self>|
                    #![trigger states.len()]
                    {
                        &&& states.len() == folded@.len()
                        &&& states.len() == 0 ==> *self == start
                        &&& states.len() > 0 ==> *states[0] == start && *final(states[states.len() - 1]) == *self
                        &&& forall|i: int|
                            0 <= i < states.len() - 1 ==> *final(#[trigger] states[i])
                                == *states[i + 1]
                        &&& forall|i: int|
                            0 <= i < folded@.len() ==> #[trigger] call_ensures(
                                Self::fold_var_init_kind,
                                (states[i], inputs[i]),
                                folded@[i],
                            )
                    }) by {
                let earlier = choose|states: Seq<&mut Self>|
                    #![trigger states.len()]
                {
                    &&& states.len() == prev.len()
                    &&& states.len() == 0 ==> before == start
                    &&& states.len() > 0 ==> *states[0] == start && *final(states[states.len() - 1]) == before
                    &&& forall|i: int|
                        0 <= i < states.len() - 1 ==> *final(#[trigger] states[i])
                            == *states[i + 1]
                    &&& forall|i: int|
                        0 <= i < prev.len() ==> #[trigger] call_ensures(
                            Self::fold_var_init_kind,
                            (states[i], inputs[i]),
                            prev[i],
                        )
                };
                let call = choose|call: &mut Self|
                    #[trigger] call_ensures(Self::fold_var_init_kind, (call, decl), decl_folded)
                        && *call == before && *final(call) == *self;
                assert(earlier.push(call).len() == folded@.len());
            }
            assert(rest@ =~= inputs.skip(folded@.len() as int));
        }
        FunctionDeclaration {
            name: node.name,
            return_type: node.return_type,
            var_decls: folded,
            body: node.body,
        }
    }

    /// Folds the variable declarations, each by `fold_var_init_kind`, in
    /// order; keeps the name and the body.
    fn fold_program_declaration(&mut self, node: ProgramDeclaration) -> (r: ProgramDeclaration)
        default_ensures
            r.type_id == node.type_id,
            r.body == node.body,
            r.var_declarations@.len() == node.var_declarations@.len(),
            exists|states: Seq<&mut Self>|
                #![trigger states.len()]
                {
                    &&& states.len() == node.var_declarations@.len()
                    &&& states.len() == 0 ==> *final(self) == *old(self)
                    &&& states.len() > 0 ==> *states[0] == *old(self) && *final(states[states.len() - 1]) == *final(self)
                    &&& forall|i: int|
                        0 <= i < states.len() - 1 ==> *final(#[trigger] states[i])
                            == *states[i + 1]
                    &&& forall|i: int|
                        0 <= i < node.var_declarations@.len() ==> #[trigger] call_ensures(
                            Self::fold_var_init_kind,
                            (states[i], node.var_declarations@[i]),
                            r.var_declarations@[i],
                        )
                },
    {
        let ghost inputs = node.var_declarations@;
        let ghost start = *self;
        let mut rest = node.var_declarations;
        let mut folded: Vec<VarInitKind> = Vec::new();
        assert(Seq::<&mut Self>::empty().len() == 0);
        while rest.len() > 0
            invariant
                folded@.len() + rest@.len() == inputs.len(),
                rest@ == inputs.skip(folded@.len() as int),
                exists|states: Seq<&mut Self>|
                        #![trigger states.len()]
                        {
                            &&& states.len() == folded@.len()
                            &&& states.len() == 0 ==> *self == start
                            &&& states.len() > 0 ==> *states[0] == start && *final(states[states.len() - 1]) == *self
                            &&& forall|i: int|
                                0 <= i < states.len() - 1 ==> *final(#[trigger] states[i])
                                    == *states[i + 1]
                            &&& forall|i: int|
                                0 <= i < folded@.len() ==> #[trigger] call_ensures(
                                    Self::fold_var_init_kind,
                                    (states[i], inputs[i]),
                                    folded@[i],
                                )
                        },
            decreases rest@.len(),
        {
            let decl = rest.remove(0);
            let ghost before = *self;
            let ghost prev = folded@;
            let decl_folded = self.fold_var_init_kind(decl);
            folded.push(decl_folded);
            assert(exists|states: Seq<&mut Self>|
                    #![trigger states.len()]
                    {
                        &&& states.len() == folded@.len()
                        &&& states.len() == 0 ==> *self == start
                        &&& states.len() > 0 ==> *states[0] == start && *final(states[states.len() - 1]) == *self
                        &&& forall|i: int|
                            0 <= i < states.len() - 1 ==> *final(#[trigger] states[i])
                                == *states[i + 1]
                        &&& forall|i: int|
                            0 <= i < folded@.len() ==> #[trigger] call_ensures(
                                Self::fold_var_init_kind,
                                (states[i], inputs[i]),
                                folded@[i],
                            )
                    }) by {
                let earlier = choose|states: Seq<&mut Self>|
                    #![trigger states.len()]
                {
                    &&& states.len() == prev.len()
                    &&& states.len() == 0 ==> before == start
                    &&& states.len() > 0 ==> *states[0] == start && *final(states[states.len() - 1]) == before
                    &&& forall|i: int|
                        0 <= i < states.len() - 1 ==> *final(#[trigger] states[i])
                            == *states[i + 1]
                    &&& forall|i: int|
                        0 <= i < prev.len() ==> #[trigger] call_ensures(
                            Self::fold_var_init_kind,
                            (states[i], inputs[i]),
                            prev[i],
                        )
                };
                let call = choose|call: &mut Self|
                    #[trigger] call_ensures(Self::fold_var_init_kind, (call, decl), decl_folded)
                        && *call == before && *final(call) == *self;
                assert(earlier.push(call).len() == folded@.len());
            }
            assert(rest@ =~= inputs.skip(folded@.len() as int));
        }
        ProgramDeclaration { type_id: node.type_id, var_declarations: folded, body: node.body }
    }

    /// Folds a declaration whose type is known by `fold_var_init_decl`, with
    /// one call; keeps any other, and then the folder too.
    fn fold_var_init_kind(&mut self, node: VarInitKind) -> (r: VarInitKind)
        default_ensures
            !(node is VarInit) ==> r == node && *final(self) == *old(self),
            node matches VarInitKind::VarInit(d) ==> (r matches VarInitKind::VarInit(e)
                && exists|call: &mut Self| #[trigger] call_ensures(Self::fold_var_init_decl, (call, d), e)
                    && *call == *old(self) && *final(call) == *final(self)),
    {
        match node {
            VarInitKind::VarInit(var_init) => {
                VarInitKind::VarInit(self.fold_var_init_decl(var_init))
            },
            _ => node,
        }
    }

    /// Folds the initializer by `fold_type_initializer`, with one call; keeps
    /// the name and the storage class.
    fn fold_var_init_decl(&mut self, node: VarInitDecl) -> (r: VarInitDecl)
        default_ensures
            r.name == node.name,
            r.storage_class == node.storage_class,
            exists|call: &mut Self|
                #[trigger] call_ensures(Self::fold_type_initializer, (call, node.initializer), r.initializer)
                    && *call == *old(self) && *final(call) == *final(self),
    {
        VarInitDecl {
            name: node.name,
            storage_class: node.storage_class,
            initializer: self.fold_type_initializer(node.initializer),
        }
    }

    /// Keeps the initializer, and the folder.
    fn fold_type_initializer(&mut self, node: TypeInitializer) -> (r: TypeInitializer)
        default_ensures
            r == node,
            *final(self) == *old(self),
    {
        node
    }
}

} // verus!
