//! Semantic rule that enumeration values in declarations must be unique.
//!
//! ## Passes
//!
//! ```text
//! TYPE
//! LOGLEVEL : (CRITICAL) := CRITICAL;
//! END_TYPE
//! ```
//!
//! ## Fails
//!
//! ```text
//! TYPE
//! LOGLEVEL : (CRITICAL, CRITICAL) := CRITICAL;
//! END_TYPE
//! ```
use crate::ast::{EnumeratedSpecificationKind, EnumerationDeclaration, Library, LibraryElement};
use crate::diagnostic::SemanticDiagnostic;
use crate::ident::Id;
use vstd::prelude::*;
use vstd::string::StringExecFns;

verus! {

/// The value at `j` repeats one before it (identifiers compare case
/// insensitively).
pub open spec fn is_duplicate_at(values: Seq<Id>, j: int) -> bool {
    exists|i: int| 0 <= i < j && #[trigger] values[i].key() == values[j].key()
}

/// Some value repeats another.
pub open spec fn has_duplicate(values: Seq<Id>) -> bool {
    exists|j: int| 0 <= j < values.len() && #[trigger] is_duplicate_at(values, j)
}

/// `j` is the first position whose value repeats an earlier one.
pub open spec fn is_first_duplicate(values: Seq<Id>, j: int) -> bool {
    &&& 0 <= j < values.len()
    &&& is_duplicate_at(values, j)
    &&& forall|k: int| 0 <= k < j ==> !#[trigger] is_duplicate_at(values, k)
}

/// The values that a declaration lists (none where it names another type).
pub open spec fn declared_values(decl: EnumerationDeclaration) -> Seq<Id> {
    match decl.spec {
        EnumeratedSpecificationKind::TypeName(_) => Seq::empty(),
        EnumeratedSpecificationKind::Values(values) => values@,
    }
}

/// The enumeration declarations that an element holds.
pub open spec fn element_enumerations(elem: LibraryElement) -> Seq<EnumerationDeclaration> {
    match elem {
        LibraryElement::DataTypeDeclaration(decls) => decls@,
        _ => Seq::empty(),
    }
}

/// The enumeration declarations of a sequence of elements, in order.
pub open spec fn enumeration_declarations(elems: Seq<LibraryElement>) -> Seq<EnumerationDeclaration>
    decreases elems.len(),
{
    if elems.len() == 0 {
        Seq::empty()
    } else {
        enumeration_declarations(elems.drop_last()) + element_enumerations(elems.last())
    }
}

/// The message for a declaration named `name` that repeats `value`.
pub open spec fn duplicate_message(name: Id, value: Id) -> Seq<char> {
    "Enumeration declaration "@ + name.text() + " has duplicated value "@ + value.text()
}

/// Declaration `k` is the first with a repeated value, and `j` the first
/// position in it that repeats.
pub open spec fn is_first_violation(decls: Seq<EnumerationDeclaration>, k: int, j: int) -> bool {
    &&& 0 <= k < decls.len()
    &&& forall|m: int| 0 <= m < k ==> !has_duplicate(#[trigger] declared_values(decls[m]))
    &&& is_first_duplicate(declared_values(decls[k]), j)
}

/// The diagnostic for a declaration named `name` that repeats `value`.
pub open spec fn is_duplicate_diagnostic(d: SemanticDiagnostic, name: Id, value: Id) -> bool {
    &&& d.code@ == "S0004"@
    &&& d.message@ == duplicate_message(name, value)
}

/// No enumeration declaration among the elements repeats a value.
pub open spec fn enumeration_values_unique(elems: Seq<LibraryElement>) -> bool {
    forall|k: int|
        0 <= k < enumeration_declarations(elems).len() ==> !has_duplicate(
            #[trigger] declared_values(enumeration_declarations(elems)[k]),
        )
}

/// `d` reports the first repeated value of the first enumeration declaration
/// among the elements that repeats one.
pub open spec fn reports_first_duplicate(elems: Seq<LibraryElement>, d: SemanticDiagnostic) -> bool {
    exists|k: int, j: int|
        #[trigger] is_first_violation(enumeration_declarations(elems), k, j)
            && is_duplicate_diagnostic(
            d,
            enumeration_declarations(elems)[k].name,
            declared_values(enumeration_declarations(elems)[k])[j],
        )
}

/// Checks that the values of one enumeration declaration are unique.
pub fn visit_enum_declaration(node: &EnumerationDeclaration) -> (r: Result<(), SemanticDiagnostic>)
    ensures
        r is Ok <==> !has_duplicate(declared_values(*node)),
        r is Ok <==> forall|i: int, j: int|
            0 <= i < j < declared_values(*node).len() ==> #[trigger] declared_values(*node)[i].key()
                != #[trigger] declared_values(*node)[j].key(),
        r matches Err(d) ==> exists|j: int|
            #[trigger] is_first_duplicate(declared_values(*node), j)
                && is_duplicate_diagnostic(d, node.name, declared_values(*node)[j]),
{
    match &node.spec {
        EnumeratedSpecificationKind::TypeName(_) => {
            proof {
                lemma_has_duplicate_iff_equal_keys(declared_values(*node));
            }
            Ok(())
        },
        EnumeratedSpecificationKind::Values(values) => {
            let ghost vs = values@;
            assert(declared_values(*node) == vs);
            let mut j: usize = 0;
            while j < values.len()
                invariant
                    vs == values@,
                    vs == declared_values(*node),
                    0 <= j <= vs.len(),
                    forall|k: int| 0 <= k < j ==> !#[trigger] is_duplicate_at(vs, k),
                decreases vs.len() - j,
            {
                let mut i: usize = 0;
                while i < j
                    invariant
                        vs == values@,
                        vs == declared_values(*node),
                        0 <= i <= j < vs.len(),
                        forall|k: int| 0 <= k < j ==> !#[trigger] is_duplicate_at(vs, k),
                        forall|k: int| 0 <= k < i ==> #[trigger] vs[k].key() != vs[j as int].key(),
                    decreases j - i,
                {
                    if values[i] == values[j] {
                        let mut message = "Enumeration declaration ".to_owned();
                        message.append(node.name.to_string().as_str());
                        message.append(" has duplicated value ");
                        message.append(values[j].to_string().as_str());
                        let d = SemanticDiagnostic::error("S0004", message);
                        assert(is_duplicate_at(vs, j as int));
                        assert(is_first_duplicate(vs, j as int));
                        proof {
                            lemma_has_duplicate_iff_equal_keys(vs);
                        }
                        return Err(d);
                    }
                    i += 1;
                }
                j += 1;
            }
            proof {
                lemma_has_duplicate_iff_equal_keys(vs);
            }
            Ok(())
        },
    }
}

/// Checks every enumeration declaration of the library, in order, and
/// reports the first repeated value of the first declaration that has one.
pub fn apply(lib: &Library) -> (r: Result<(), SemanticDiagnostic>)
    ensures
        r is Ok <==> enumeration_values_unique(lib.elems@),
        r matches Err(d) ==> reports_first_duplicate(lib.elems@, d),
{
    let ghost elems = lib.elems@;
    let mut e: usize = 0;
    while e < lib.elems.len()
        invariant
            elems == lib.elems@,
            0 <= e <= elems.len(),
            forall|k: int|
                0 <= k < enumeration_declarations(elems.take(e as int)).len() ==> !has_duplicate(
                    #[trigger] declared_values(enumeration_declarations(elems.take(e as int))[k]),
                ),
        decreases elems.len() - e,
    {
        let ghost before = enumeration_declarations(elems.take(e as int));
        assert(elems.take(e + 1).drop_last() =~= elems.take(e as int));
        assert(enumeration_declarations(elems.take(e + 1)) == before + element_enumerations(
            elems[e as int],
        ));
        match &lib.elems[e] {
            LibraryElement::DataTypeDeclaration(decls) => {
                let mut m: usize = 0;
                while m < decls.len()
                    invariant
                        elems == lib.elems@,
                        0 <= e < elems.len(),
                        before == enumeration_declarations(elems.take(e as int)),
                        elems[e as int] == LibraryElement::DataTypeDeclaration(*decls),
                        enumeration_declarations(elems.take(e + 1)) == before + decls@,
                        0 <= m <= decls.len(),
                        forall|k: int|
                            0 <= k < before.len() ==> !has_duplicate(
                                #[trigger] declared_values(before[k]),
                            ),
                        forall|k: int|
                            0 <= k < m ==> !has_duplicate(#[trigger] declared_values(decls@[k])),
                    decreases decls.len() - m,
                {
                    let checked = visit_enum_declaration(&decls[m]);
                    match checked {
                        Ok(()) => {},
                        Err(d) => {
                            proof {
                                let all = enumeration_declarations(elems);
                                let k = before.len() + m;
                                lemma_declarations_prefix(elems, e + 1);
                                assert(all[k] == decls@[m as int]);
                                assert forall|n: int| 0 <= n < k implies !has_duplicate(
                                    #[trigger] declared_values(all[n]),
                                ) by {
                                    if n < before.len() {
                                        assert(all[n] == before[n]);
                                    } else {
                                        assert(all[n] == decls@[n - before.len()]);
                                    }
                                }
                                let j = choose|j: int|
                                    #[trigger] is_first_duplicate(declared_values(decls@[m as int]), j)
                                        && is_duplicate_diagnostic(
                                        d,
                                        decls@[m as int].name,
                                        declared_values(decls@[m as int])[j],
                                    );
                                assert(is_first_violation(all, k, j));
                            }
                            return Err(d);
                        },
                    }
                    m += 1;
                }
                assert forall|k: int|
                    0 <= k < enumeration_declarations(elems.take(e + 1)).len() implies !has_duplicate(
                    #[trigger] declared_values(enumeration_declarations(elems.take(e + 1))[k]),
                ) by {
                    if k < before.len() {
                        assert(enumeration_declarations(elems.take(e + 1))[k] == before[k]);
                    } else {
                        assert(enumeration_declarations(elems.take(e + 1))[k] == decls@[k
                            - before.len()]);
                    }
                }
            },
            _ => {
                assert(enumeration_declarations(elems.take(e + 1)) =~= before);
            },
        }
        e += 1;
    }
    assert(elems.take(elems.len() as int) =~= elems);
    Ok(())
}

/// A list of values repeats one exactly when two of its values, at any two
/// positions however far apart, have equal keys (identifiers compare case
/// insensitively).
pub proof fn lemma_has_duplicate_iff_equal_keys(values: Seq<Id>)
    ensures
        has_duplicate(values) <==> exists|i: int, j: int|
            0 <= i < j < values.len() && #[trigger] values[i].key() == #[trigger] values[j].key(),
{
    if has_duplicate(values) {
        let j = choose|j: int| 0 <= j < values.len() && #[trigger] is_duplicate_at(values, j);
        let i = choose|i: int| 0 <= i < j && #[trigger] values[i].key() == values[j].key();
        assert(values[i].key() == values[j].key());
    }
    if exists|i: int, j: int|
        0 <= i < j < values.len() && #[trigger] values[i].key() == #[trigger] values[j].key() {
        let (i, j) = choose|i: int, j: int|
            0 <= i < j < values.len() && #[trigger] values[i].key() == #[trigger] values[j].key();
        assert(is_duplicate_at(values, j));
    }
}

/// Every enumeration declaration of every `TYPE` block is checked: where the
/// declaration at position `m` of the element at position `e` lists, at
/// positions `i < j`, two values with equal keys, the enumeration values of
/// the library are not unique.
pub proof fn lemma_repeated_value_breaks_uniqueness(
    elems: Seq<LibraryElement>,
    e: int,
    m: int,
    i: int,
    j: int,
)
    requires
        0 <= e < elems.len(),
        elems[e] is DataTypeDeclaration,
        0 <= m < elems[e]->DataTypeDeclaration_0@.len(),
        elems[e]->DataTypeDeclaration_0@[m].spec is Values,
        0 <= i < j < elems[e]->DataTypeDeclaration_0@[m].spec->Values_0@.len(),
        elems[e]->DataTypeDeclaration_0@[m].spec->Values_0@[i].key()
            == elems[e]->DataTypeDeclaration_0@[m].spec->Values_0@[j].key(),
    ensures
        !enumeration_values_unique(elems),
{
    let decls = elems[e]->DataTypeDeclaration_0@;
    let vs = decls[m].spec->Values_0@;
    let before = enumeration_declarations(elems.take(e));
    assert(elems.take(e + 1).drop_last() =~= elems.take(e));
    assert(elems.take(e + 1).last() == elems[e]);
    let upto = enumeration_declarations(elems.take(e + 1));
    assert(upto == before + decls);
    lemma_declarations_prefix(elems, e + 1);
    let all = enumeration_declarations(elems);
    let k = before.len() + m;
    assert(upto[k] == decls[m]);
    assert(all[k] == decls[m]);
    assert(declared_values(all[k]) == vs);
    lemma_has_duplicate_iff_equal_keys(vs);
    assert(vs[i].key() == vs[j].key());
    assert(has_duplicate(declared_values(all[k])));
}

/// The declarations of a prefix of the elements come first among those of
/// all the elements.
proof fn lemma_declarations_prefix(elems: Seq<LibraryElement>, n: int)
    requires
        0 <= n <= elems.len(),
    ensures
        enumeration_declarations(elems.take(n)).len() <= enumeration_declarations(elems).len(),
        forall|k: int|
            0 <= k < enumeration_declarations(elems.take(n)).len() ==> #[trigger] enumeration_declarations(
                elems,
            )[k] == enumeration_declarations(elems.take(n))[k],
    decreases elems.len() - n,
{
    if n < elems.len() {
        lemma_declarations_prefix(elems, n + 1);
        assert(elems.take(n + 1).drop_last() =~= elems.take(n));
    } else {
        assert(elems.take(n) =~= elems);
    }
}

} // verus!
