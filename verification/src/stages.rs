//! The semantic stage: the rules that a parsed library must pass.
use crate::ast::{Library, LibraryElement, TypeInitializer, VarInitKind};
use crate::diagnostic::SemanticDiagnostic;
use crate::graph::has_cycle;
use crate::rule_enumeration_values_unique::{enumeration_values_unique, reports_first_duplicate};
use crate::rule_pous_no_cycles::{
    add_key, distinct_keys, element_references, fits_graph_indices, function_instances,
    is_cycle_diagnostic, is_hierarchy_diagnostic, library_references, references,
    var_references, Reference,
};
use crate::{rule_enumeration_values_unique, rule_pous_no_cycles};
use vstd::prelude::*;

verus! {

/// What the semantic stage reports for a library: `Ok` when every rule
/// passes, else the diagnostic of the first rule that fails.
pub open spec fn is_analysis_of(elems: Seq<LibraryElement>, r: Result<(), SemanticDiagnostic>) -> bool {
    &&& r is Ok <==> enumeration_values_unique(elems) && !has_cycle(references(elems))
        && function_instances(elems).len() == 0
    &&& r matches Err(d) ==> if !enumeration_values_unique(elems) {
        reports_first_duplicate(elems, d)
    } else if has_cycle(references(elems)) {
        is_cycle_diagnostic(d)
    } else {
        is_hierarchy_diagnostic(d, function_instances(elems)[0].0, function_instances(elems)[0].1)
    }
}

/// Checks a library against the semantic rules, in order: enumeration
/// values are unique, then no POU is recursive and functions call only
/// functions. Returns the diagnostic of the first rule that fails.
pub fn analyze(library: &Library) -> (r: Result<(), SemanticDiagnostic>)
    requires
        fits_graph_indices(library_references(library.elems@)),
    ensures
        is_analysis_of(library.elems@, r),
        !enumeration_values_unique(library.elems@) ==> (r matches Err(d) && reports_first_duplicate(
            library.elems@,
            d,
        )),
        has_cycle(references(library.elems@)) ==> r is Err,
        function_instances(library.elems@).len() > 0 ==> r is Err,
{
    rule_enumeration_values_unique::apply(library)?;
    rule_pous_no_cycles::apply(library)
}

/// The most function block instances for which `analyze_within_limits`
/// analyzes a library.
pub open spec fn max_instances() -> int {
    0x7fff_ffff
}

/// Analyzes a library that declares at most `max_instances()` function block
/// instances in its POUs (few enough for the graph's `u32` indices), and
/// returns `None` for a larger one.
pub fn analyze_within_limits(library: &Library) -> (r: Option<Result<(), SemanticDiagnostic>>)
    ensures
        r is None <==> library_references(library.elems@).len() > max_instances(),
        library_references(library.elems@).len() <= 0x7fff_ffff ==> r is Some,
        r matches Some(result) ==> is_analysis_of(library.elems@, result),
{
    let count = count_instances(library, 0x7fff_ffff);
    if count > 0x7fff_ffff {
        return None;
    }
    proof {
        lemma_within_limits_fits_graph(library.elems@);
    }
    Some(analyze(library))
}

/// The semantic stage fails whenever any of its rules fails, each rule
/// independently of the others: a repeated enumeration value is reported
/// first, and a recursive library or a function that declares a function
/// block instance is refused whatever the enumerations hold.
pub proof fn lemma_analysis_fails_when_any_rule_fails(
    elems: Seq<LibraryElement>,
    r: Result<(), SemanticDiagnostic>,
)
    requires
        is_analysis_of(elems, r),
    ensures
        !enumeration_values_unique(elems) ==> (r matches Err(d) && reports_first_duplicate(elems, d)),
        has_cycle(references(elems)) ==> r is Err,
        function_instances(elems).len() > 0 ==> r is Err,
        r is Ok ==> enumeration_values_unique(elems) && !has_cycle(references(elems))
            && function_instances(elems).len() == 0,
{
}

/// Every library within the limit of `analyze_within_limits` fits the
/// graph's `u32` indices, so none that fits is declined for its size alone:
/// at most `0x7fff_ffff` references name at most `0xffff_fffe` distinct keys.
pub proof fn lemma_within_limits_fits_graph(elems: Seq<LibraryElement>)
    requires
        library_references(elems).len() <= max_instances(),
    ensures
        fits_graph_indices(library_references(elems)),
        0x7fff_ffff <= max_instances(),
{
    lemma_distinct_keys_bound(library_references(elems));
}

/// The number of function block instances that the POUs of the library
/// declare, or `limit + 1` where there are more than `limit`.
fn count_instances(lib: &Library, limit: usize) -> (n: usize)
    requires
        limit < usize::MAX,
    ensures
        n == if library_references(lib.elems@).len() <= limit {
            library_references(lib.elems@).len() as usize
        } else {
            (limit + 1) as usize
        },
{
    let ghost elems = lib.elems@;
    let mut count: usize = 0;
    let mut e: usize = 0;
    while e < lib.elems.len()
        invariant
            elems == lib.elems@,
            limit < usize::MAX,
            0 <= e <= elems.len(),
            count == library_references(elems.take(e as int)).len(),
            count <= limit,
        decreases elems.len() - e,
    {
        proof {
            assert(elems.take(e + 1).drop_last() =~= elems.take(e as int));
            rule_pous_no_cycles::lemma_library_references_split(elems, e + 1);
        }
        let ghost own = element_references(elems[e as int]);
        let ghost before = count as int;
        let decls = match &lib.elems[e] {
            LibraryElement::FunctionBlockDeclaration(d) => Some(&d.var_decls),
            LibraryElement::FunctionDeclaration(d) => Some(&d.var_decls),
            LibraryElement::ProgramDeclaration(d) => Some(&d.var_declarations),
            LibraryElement::DataTypeDeclaration(_) => None,
        };
        let ghost from: Seq<char> = match elems[e as int] {
            LibraryElement::FunctionBlockDeclaration(d) => d.name.key(),
            LibraryElement::FunctionDeclaration(d) => d.name.key(),
            LibraryElement::ProgramDeclaration(d) => d.type_id.key(),
            LibraryElement::DataTypeDeclaration(_) => Seq::empty(),
        };
        match decls {
            Some(decls) => {
                assert(own == var_references(from, decls@));
                let mut m: usize = 0;
                while m < decls.len()
                    invariant
                        elems == lib.elems@,
                        limit < usize::MAX,
                        0 <= e < elems.len(),
                        0 <= m <= decls@.len(),
                        own == var_references(from, decls@),
                        library_references(elems.take(e + 1)) == library_references(elems.take(e as int)) + own,
                        library_references(elems) == library_references(elems.take(e + 1))
                            + library_references(elems.skip(e + 1)),
                        before == library_references(elems.take(e as int)).len(),
                        count == before + var_references(from, decls@.take(m as int)).len(),
                        count <= limit,
                    decreases decls@.len() - m,
                {
                    proof {
                        assert(decls@.take(m + 1).drop_last() =~= decls@.take(m as int));
                        rule_pous_no_cycles::lemma_var_references_split(from, decls@, m + 1);
                    }
                    let instance = match &decls[m] {
                        VarInitKind::VarInit(decl) => match &decl.initializer {
                            TypeInitializer::FunctionBlock(_) => true,
                            _ => false,
                        },
                        _ => false,
                    };
                    if instance {
                        if count == limit {
                            return limit + 1;
                        }
                        count += 1;
                    }
                    m += 1;
                }
                assert(decls@.take(decls@.len() as int) =~= decls@);
            },
            None => {},
        }
        e += 1;
    }
    assert(elems.take(elems.len() as int) =~= elems);
    count
}

/// No more distinct keys than twice the references: each adds its source
/// and its target at most.
proof fn lemma_distinct_keys_bound(refs: Seq<Reference>)
    ensures
        distinct_keys(refs).len() <= 2 * refs.len(),
    decreases refs.len(),
{
    if refs.len() > 0 {
        lemma_distinct_keys_bound(refs.drop_last());
        let prev = distinct_keys(refs.drop_last());
        assert(add_key(prev, refs.last().0).len() <= prev.len() + 1);
    }
}

} // verus!
