//! Semantic rule that checks POU hierarchy rules.
//!
//! Program can call function or function block
//! Function block can call function or other function block
//! Function can call other functions
//!
//! In all cases, recursion is never allowed.
//!
//! A POU calls a function block through an instance that it declares, so a
//! function that declares a function block instance breaks the hierarchy.
//! Recursion is reported first, then the first such instance.
//!
//! ## Passes
//!
//! ```text
//! FUNCTION_BLOCK Callee
//!    VAR
//!       IN1: BOOL;
//!    END_VAR
//! END_FUNCTION_BLOCK
//!
//! FUNCTION_BLOCK Caller
//!    VAR
//!       CalleeInstance : Callee;
//!    END_VAR
//! END_FUNCTION_BLOCK
//! ```
//!
//! ## Fails
//!
//! ```text
//! FUNCTION_BLOCK SelfRecursive
//!    VAR
//!       SelfRecursiveInstance : SelfRecursive;
//!    END_VAR
//! END_FUNCTION_BLOCK
//! ```
use crate::ast::{
    FunctionBlockDeclaration, FunctionBlockTypeInitializer, FunctionDeclaration, Library,
    LibraryElement, ProgramDeclaration, TypeInitializer, VarInitKind,
};
use crate::diagnostic::SemanticDiagnostic;
use crate::graph::{
    edge_of, graph_add_edge, graph_add_node, graph_edges, graph_is_cyclic, graph_new, graph_nodes,
    has_cycle, is_closed_walk,
};
use crate::ident::Id;
use petgraph::stable_graph::StableGraph;
use petgraph::Directed;
use vstd::prelude::*;
use vstd::string::StringExecFns;

verus! {

/// A reference from the POU named `from` to the function block named `to`,
/// both by their lowercase keys.
pub type Reference = (Seq<char>, Seq<char>);

/// The reference that one variable declaration of the POU keyed `from` makes:
/// one where it declares an instance of a function block.
pub open spec fn decl_references(from: Seq<char>, decl: VarInitKind) -> Seq<Reference> {
    match decl {
        VarInitKind::VarInit(d) => match d.initializer {
            TypeInitializer::FunctionBlock(fb) => seq![(from, fb.type_id.key())],
            _ => Seq::empty(),
        },
        _ => Seq::empty(),
    }
}

/// The references that the variable declarations of the POU keyed `from`
/// make, in order.
pub open spec fn var_references(from: Seq<char>, decls: Seq<VarInitKind>) -> Seq<Reference>
    decreases decls.len(),
{
    if decls.len() == 0 {
        Seq::empty()
    } else {
        var_references(from, decls.drop_last()) + decl_references(from, decls.last())
    }
}

/// The references that a library element makes.
pub open spec fn element_references(elem: LibraryElement) -> Seq<Reference> {
    match elem {
        LibraryElement::FunctionBlockDeclaration(d) => var_references(d.name.key(), d.var_decls@),
        LibraryElement::FunctionDeclaration(d) => var_references(d.name.key(), d.var_decls@),
        LibraryElement::ProgramDeclaration(d) => var_references(
            d.type_id.key(),
            d.var_declarations@,
        ),
        LibraryElement::DataTypeDeclaration(_) => Seq::empty(),
    }
}

/// The references that a sequence of library elements makes, in order.
pub open spec fn library_references(elems: Seq<LibraryElement>) -> Seq<Reference>
    decreases elems.len(),
{
    if elems.len() == 0 {
        Seq::empty()
    } else {
        library_references(elems.drop_last()) + element_references(elems.last())
    }
}

/// The relation "POU `a` declares an instance of function block `b`" of a
/// library, over lowercase keys.
pub open spec fn references(elems: Seq<LibraryElement>) -> spec_fn(Seq<char>, Seq<char>) -> bool {
    |a: Seq<char>, b: Seq<char>| library_references(elems).contains((a, b))
}

/// The message of the diagnostic for a recursive library.
pub open spec fn is_cycle_diagnostic(d: SemanticDiagnostic) -> bool {
    &&& d.code@ == "S0005"@
    &&& d.message@ == "Library has a recursive cycle"@
}

/// `keys` with `key` added at the end, unless it is there already.
pub open spec fn add_key(keys: Seq<Seq<char>>, key: Seq<char>) -> Seq<Seq<char>> {
    if keys.contains(key) {
        keys
    } else {
        keys.push(key)
    }
}

/// The distinct keys that occur in `refs`, in the order in which they first
/// occur (the source of a reference before its target).
pub open spec fn distinct_keys(refs: Seq<Reference>) -> Seq<Seq<char>>
    decreases refs.len(),
{
    if refs.len() == 0 {
        Seq::empty()
    } else {
        add_key(add_key(distinct_keys(refs.drop_last()), refs.last().0), refs.last().1)
    }
}

/// The graph of `refs` fits the `u32` indices of the graph: at most
/// `u32::MAX` edges, one per reference, and at most `u32::MAX` nodes, one per
/// distinct key.
pub open spec fn fits_graph_indices(refs: Seq<Reference>) -> bool {
    &&& refs.len() <= u32::MAX
    &&& distinct_keys(refs).len() <= u32::MAX
}

/// Walks a library to build the graph of its POUs: one node per POU name
/// (case insensitively), one edge per function block instance.
struct RulePousNoCycles {
    graph: StableGraph<(), (), Directed, u32>,
    /// The lowercase key of the node at each index.
    nodes: Vec<String>,
    /// The references visited so far.
    refs: Ghost<Seq<Reference>>,
    /// The edges added so far, in order: one per visited reference.
    edges: Ghost<Seq<(u32, u32)>>,
}

/// The keys of the nodes.
spec fn keys_of(nodes: Seq<String>) -> Seq<Seq<char>> {
    nodes.map_values(|s: String| s@)
}

/// The edge goes from the node keyed as the source of the reference to the
/// node keyed as its target.
spec fn edge_joins(keys: Seq<Seq<char>>, edge: (u32, u32), reference: Reference) -> bool {
    &&& edge.0 < keys.len()
    &&& edge.1 < keys.len()
    &&& keys[edge.0 as int] == reference.0
    &&& keys[edge.1 as int] == reference.1
}

/// The index of the node keyed as `key`.
spec fn node_of(nodes: Seq<String>, key: Seq<char>) -> u32 {
    keys_of(nodes).index_of(key) as u32
}

impl RulePousNoCycles {
    /// The graph has a node at each index of `nodes`, and no two nodes share
    /// a key.
    spec fn nodes_wf(&self) -> bool {
        let keys = keys_of(self.nodes@);
        let n = keys.len();
        &&& graph_nodes(self.graph).len() == n
        &&& forall|k: int| 0 <= k < n ==> #[trigger] graph_nodes(self.graph)[k]
        &&& forall|i: int, j: int| 0 <= i < n && 0 <= j < n && i != j ==> keys[i] != keys[j]
    }

    /// The nodes are the distinct keys of the visited references; the edges
    /// of the graph are those added, the edge added for a reference goes from
    /// the node of its source to the node of its target, and (as relations)
    /// each edge stands for a visited reference and each visited reference
    /// has an edge.
    spec fn wf(&self) -> bool {
        let keys = keys_of(self.nodes@);
        let n = keys.len();
        &&& self.nodes_wf()
        &&& keys == distinct_keys(self.refs@)
        &&& self.edges@.len() == self.refs@.len()
        &&& graph_edges(self.graph) == self.edges@.to_multiset()
        &&& forall|k: int|
            0 <= k < self.refs@.len() ==> #[trigger] edge_joins(keys, self.edges@[k], self.refs@[k])
        &&& forall|a: u32, b: u32| #[trigger]
            graph_edges(self.graph).contains((a, b)) ==> a < n && b < n && self.refs@.contains(
                (keys[a as int], keys[b as int]),
            )
        &&& forall|x: Seq<char>, y: Seq<char>| #[trigger]
            self.refs@.contains((x, y)) ==> exists|a: u32, b: u32|
                a < n && b < n && keys[a as int] == x && keys[b as int] == y
                    && #[trigger] graph_edges(self.graph).contains((a, b))
        &&& graph_edges(self.graph).len() == self.refs@.len()
    }

    fn new() -> (rule: Self)
        ensures
            rule.wf(),
            rule.refs@ == Seq::<Reference>::empty(),
    {
        let rule = RulePousNoCycles {
            graph: graph_new(),
            nodes: Vec::new(),
            refs: Ghost(Seq::empty()),
            edges: Ghost(Seq::empty()),
        };
        assert(keys_of(rule.nodes@) =~= Seq::empty());
        proof {
            broadcast use vstd::seq_lib::group_to_multiset_ensures;
            vstd::multiset::lemma_multiset_empty_len(rule.edges@.to_multiset());
        }
        rule
    }

    /// The index of the node keyed as `id`, added if there is none yet.
    fn add_node(&mut self, id: &Id) -> (index: u32)
        requires
            old(self).nodes_wf(),
            add_key(keys_of(old(self).nodes@), id.key()).len() <= u32::MAX,
        ensures
            final(self).nodes_wf(),
            final(self).refs@ == old(self).refs@,
            final(self).edges@ == old(self).edges@,
            graph_edges(final(self).graph) == graph_edges(old(self).graph),
            keys_of(final(self).nodes@) == add_key(keys_of(old(self).nodes@), id.key()),
            index < final(self).nodes@.len(),
            keys_of(final(self).nodes@)[index as int] == id.key(),
    {
        let key = id.lower_case();
        let mut i: usize = 0;
        while i < self.nodes.len()
            invariant
                *self == *old(self),
                self.nodes_wf(),
                add_key(keys_of(self.nodes@), id.key()).len() <= u32::MAX,
                0 <= i <= self.nodes@.len(),
                key@ == id.key(),
                forall|k: int| 0 <= k < i ==> #[trigger] keys_of(self.nodes@)[k] != id.key(),
            decreases self.nodes@.len() - i,
        {
            if self.nodes[i] == *key {
                assert(keys_of(self.nodes@)[i as int] == id.key());
                assert(keys_of(self.nodes@).contains(id.key()));
                return i as u32;
            }
            i += 1;
        }
        assert(!keys_of(self.nodes@).contains(id.key()));
        let index = graph_add_node(&mut self.graph);
        self.nodes.push(key.clone());
        proof {
            let old_keys = keys_of(old(self).nodes@);
            let keys = keys_of(self.nodes@);
            assert(keys =~= old_keys.push(id.key()));
        }
        index
    }

    /// Records that the POU `from` declares an instance of the function
    /// block of `init`: an edge from the node of `from` to the node of the
    /// function block.
    fn visit_function_block_type_initializer(
        &mut self,
        from: &Id,
        init: &FunctionBlockTypeInitializer,
    )
        requires
            old(self).wf(),
            fits_graph_indices(old(self).refs@.push((from.key(), init.type_id.key()))),
        ensures
            final(self).wf(),
            final(self).refs@ == old(self).refs@.push((from.key(), init.type_id.key())),
            final(self).edges@ == old(self).edges@.push(
                (node_of(final(self).nodes@, from.key()), node_of(final(self).nodes@, init.type_id.key())),
            ),
            graph_edges(final(self).graph) == graph_edges(old(self).graph).insert(
                (node_of(final(self).nodes@, from.key()), node_of(final(self).nodes@, init.type_id.key())),
            ),
    {
        let ghost refs = self.refs@;
        let ghost edge_list = self.edges@;
        let ghost pushed = refs.push((from.key(), init.type_id.key()));
        let ghost edges0 = graph_edges(self.graph);
        let ghost keys0 = keys_of(self.nodes@);
        assert(pushed.drop_last() =~= refs);
        let a = self.add_node(from);
        let ghost keys1 = keys_of(self.nodes@);
        let b = self.add_node(&init.type_id);
        let ghost keys2 = keys_of(self.nodes@);
        graph_add_edge(&mut self.graph, a, b);
        self.refs = Ghost(pushed);
        self.edges = Ghost(edge_list.push((a, b)));
        proof {
            let keys = keys_of(self.nodes@);
            let n = keys.len();
            assert(keys == keys2);
            assert forall|k: int| 0 <= k < keys0.len() implies #[trigger] keys[k] == keys0[k] by {
                assert(keys1[k] == keys0[k]);
            }
            assert(keys[a as int] == from.key());
            assert(keys[b as int] == init.type_id.key());
            assert(keys.contains(from.key()));
            assert(keys.contains(init.type_id.key()));
            assert(node_of(self.nodes@, from.key()) == a);
            assert(node_of(self.nodes@, init.type_id.key()) == b);
            vstd::seq_lib::to_multiset_build(edge_list, (a, b));
            assert forall|k: int| 0 <= k < self.refs@.len() implies #[trigger] edge_joins(
                keys,
                self.edges@[k],
                self.refs@[k],
            ) by {
                if k < refs.len() {
                    assert(edge_joins(keys0, edge_list[k], refs[k]));
                }
            }
            assert forall|x: u32, y: u32| #[trigger]
                graph_edges(self.graph).contains((x, y)) implies x < n && y < n
                && self.refs@.contains((keys[x as int], keys[y as int])) by {
                if (x, y) != (a, b) {
                    assert(edges0.contains((x, y)));
                    assert(refs.contains((keys0[x as int], keys0[y as int])));
                    let k = choose|k: int|
                        0 <= k < refs.len() && refs[k] == (keys0[x as int], keys0[y as int]);
                    assert(self.refs@[k] == refs[k]);
                } else {
                    assert(self.refs@[refs.len() as int] == (from.key(), init.type_id.key()));
                }
            }
            assert forall|x: Seq<char>, y: Seq<char>| #[trigger]
                self.refs@.contains((x, y)) implies exists|p: u32, q: u32|
                p < n && q < n && keys[p as int] == x && keys[q as int] == y
                    && #[trigger] graph_edges(self.graph).contains((p, q)) by {
                let k = choose|k: int| 0 <= k < self.refs@.len() && self.refs@[k] == (x, y);
                if k < refs.len() {
                    assert(refs[k] == (x, y));
                    assert(refs.contains((x, y)));
                    let (p, q) = choose|p: u32, q: u32|
                        p < keys0.len() && q < keys0.len() && keys0[p as int] == x && keys0[q as int]
                            == y && #[trigger] edges0.contains((p, q));
                    assert(keys[p as int] == x);
                    assert(keys[q as int] == y);
                    assert(graph_edges(self.graph).contains((p, q)));
                } else {
                    assert(graph_edges(self.graph).contains((a, b)));
                }
            }
        }
    }

    /// Visits the variable declarations of the POU `from`, in order.
    fn visit_var_decls(&mut self, from: &Id, decls: &Vec<VarInitKind>)
        requires
            old(self).wf(),
            fits_graph_indices(old(self).refs@ + var_references(from.key(), decls@)),
        ensures
            final(self).wf(),
            final(self).refs@ == old(self).refs@ + var_references(from.key(), decls@),
            forall|k: int|
                0 <= k < old(self).edges@.len() ==> #[trigger] final(self).edges@[k]
                    == old(self).edges@[k],
            forall|k: int|
                old(self).edges@.len() <= k < final(self).edges@.len()
                    ==> (#[trigger] final(self).edges@[k]).0 == node_of(final(self).nodes@, from.key()),
    {
        let ghost start = self.refs@;
        let ghost start_edges = self.edges@;
        let ghost all = start + var_references(from.key(), decls@);
        let mut m: usize = 0;
        while m < decls.len()
            invariant
                self.wf(),
                0 <= m <= decls@.len(),
                self.refs@ == start + var_references(from.key(), decls@.take(m as int)),
                all == start + var_references(from.key(), decls@),
                fits_graph_indices(all),
                start_edges.len() <= self.edges@.len(),
                forall|k: int|
                    0 <= k < start_edges.len() ==> #[trigger] self.edges@[k] == start_edges[k],
            decreases decls@.len() - m,
        {
            proof {
                assert(decls@.take(m + 1).drop_last() =~= decls@.take(m as int));
                let next = start + var_references(from.key(), decls@.take(m + 1));
                lemma_var_references_split(from.key(), decls@, m + 1);
                assert(all =~= next + var_references(from.key(), decls@.skip(m + 1)));
                lemma_distinct_keys_grow(next, var_references(from.key(), decls@.skip(m + 1)));
            }
            match &decls[m] {
                VarInitKind::VarInit(decl) => match &decl.initializer {
                    TypeInitializer::FunctionBlock(init) => {
                        assert(self.refs@.push((from.key(), init.type_id.key())) =~= start
                            + var_references(from.key(), decls@.take(m + 1)));
                        self.visit_function_block_type_initializer(from, init);
                    },
                    _ => {},
                },
                _ => {},
            }
            m += 1;
            assert(self.refs@ =~= start + var_references(from.key(), decls@.take(m as int)));
        }
        assert(decls@.take(decls@.len() as int) =~= decls@);
        proof {
            let keys = keys_of(self.nodes@);
            lemma_var_references_source(from.key(), decls@);
            assert forall|k: int| start_edges.len() <= k < self.edges@.len() implies (
            #[trigger] self.edges@[k]).0 == node_of(self.nodes@, from.key()) by {
                assert(edge_joins(keys, self.edges@[k], self.refs@[k]));
                assert(self.refs@[k] == var_references(from.key(), decls@)[k - start.len()]);
                assert(keys[self.edges@[k].0 as int] == from.key());
                assert(keys.contains(from.key()));
            }
        }
    }

    fn visit_function_block_declaration(&mut self, node: &FunctionBlockDeclaration)
        requires
            old(self).wf(),
            fits_graph_indices(old(self).refs@ + var_references(node.name.key(), node.var_decls@)),
        ensures
            final(self).wf(),
            final(self).refs@ == old(self).refs@ + var_references(
                node.name.key(),
                node.var_decls@,
            ),
            forall|k: int|
                0 <= k < old(self).edges@.len() ==> #[trigger] final(self).edges@[k]
                    == old(self).edges@[k],
            forall|k: int|
                old(self).edges@.len() <= k < final(self).edges@.len()
                    ==> (#[trigger] final(self).edges@[k]).0 == node_of(final(self).nodes@, node.name.key()),
    {
        self.visit_var_decls(&node.name, &node.var_decls);
    }

    fn visit_function_declaration(&mut self, node: &FunctionDeclaration)
        requires
            old(self).wf(),
            fits_graph_indices(old(self).refs@ + var_references(node.name.key(), node.var_decls@)),
        ensures
            final(self).wf(),
            final(self).refs@ == old(self).refs@ + var_references(
                node.name.key(),
                node.var_decls@,
            ),
            forall|k: int|
                0 <= k < old(self).edges@.len() ==> #[trigger] final(self).edges@[k]
                    == old(self).edges@[k],
            forall|k: int|
                old(self).edges@.len() <= k < final(self).edges@.len()
                    ==> (#[trigger] final(self).edges@[k]).0 == node_of(final(self).nodes@, node.name.key()),
    {
        self.visit_var_decls(&node.name, &node.var_decls);
    }

    fn visit_program_declaration(&mut self, node: &ProgramDeclaration)
        requires
            old(self).wf(),
            fits_graph_indices(
                old(self).refs@ + var_references(node.type_id.key(), node.var_declarations@),
            ),
        ensures
            final(self).wf(),
            final(self).refs@ == old(self).refs@ + var_references(
                node.type_id.key(),
                node.var_declarations@,
            ),
            forall|k: int|
                0 <= k < old(self).edges@.len() ==> #[trigger] final(self).edges@[k]
                    == old(self).edges@[k],
            forall|k: int|
                old(self).edges@.len() <= k < final(self).edges@.len()
                    ==> (#[trigger] final(self).edges@[k]).0 == node_of(final(self).nodes@, node.type_id.key()),
    {
        self.visit_var_decls(&node.type_id, &node.var_declarations);
    }

    /// Visits the elements of a library, in order.
    fn walk(&mut self, lib: &Library)
        requires
            old(self).wf(),
            old(self).refs@ == Seq::<Reference>::empty(),
            fits_graph_indices(library_references(lib.elems@)),
        ensures
            final(self).wf(),
            final(self).refs@ == library_references(lib.elems@),
    {
        let ghost elems = lib.elems@;
        let mut e: usize = 0;
        while e < lib.elems.len()
            invariant
                elems == lib.elems@,
                self.wf(),
                0 <= e <= elems.len(),
                self.refs@ == library_references(elems.take(e as int)),
                fits_graph_indices(library_references(elems)),
            decreases elems.len() - e,
        {
            proof {
                assert(elems.take(e + 1).drop_last() =~= elems.take(e as int));
                lemma_library_references_split(elems, e + 1);
                lemma_distinct_keys_grow(
                    library_references(elems.take(e + 1)),
                    library_references(elems.skip(e + 1)),
                );
            }
            match &lib.elems[e] {
                LibraryElement::FunctionBlockDeclaration(node) => {
                    self.visit_function_block_declaration(node);
                },
                LibraryElement::FunctionDeclaration(node) => {
                    self.visit_function_declaration(node);
                },
                LibraryElement::ProgramDeclaration(node) => {
                    self.visit_program_declaration(node);
                },
                LibraryElement::DataTypeDeclaration(_) => {},
            }
            e += 1;
            assert(self.refs@ =~= library_references(elems.take(e as int)));
        }
        assert(elems.take(elems.len() as int) =~= elems);
    }
}

/// The function block instances among declarations of the function
/// `function`, in order: (the function, the function block's name).
pub open spec fn function_block_instances(function: Id, decls: Seq<VarInitKind>) -> Seq<(Id, Id)>
    decreases decls.len(),
{
    if decls.len() == 0 {
        Seq::empty()
    } else {
        function_block_instances(function, decls.drop_last()) + match decls.last() {
            VarInitKind::VarInit(d) => match d.initializer {
                TypeInitializer::FunctionBlock(fb) => seq![(function, fb.type_id)],
                _ => Seq::empty(),
            },
            _ => Seq::empty(),
        }
    }
}

/// The function block instances that a library element declares in a
/// function (none unless it is a function).
pub open spec fn element_function_instances(elem: LibraryElement) -> Seq<(Id, Id)> {
    match elem {
        LibraryElement::FunctionDeclaration(d) => function_block_instances(d.name, d.var_decls@),
        _ => Seq::empty(),
    }
}

/// The function block instances that functions among the elements declare,
/// in order: each breaks the hierarchy, since functions call only functions.
pub open spec fn function_instances(elems: Seq<LibraryElement>) -> Seq<(Id, Id)>
    decreases elems.len(),
{
    if elems.len() == 0 {
        Seq::empty()
    } else {
        function_instances(elems.drop_last()) + element_function_instances(elems.last())
    }
}

/// The diagnostic for a function `function` that declares an instance of the
/// function block `fb`.
pub open spec fn is_hierarchy_diagnostic(d: SemanticDiagnostic, function: Id, fb: Id) -> bool {
    &&& d.code@ == "S0006"@
    &&& d.message@ == "Function "@ + function.text() + " declares an instance of function block "@
        + fb.text()
}

/// Checks that no function declares a function block instance, and reports
/// the first one that does.
fn check_hierarchy(lib: &Library) -> (r: Result<(), SemanticDiagnostic>)
    ensures
        r is Ok <==> function_instances(lib.elems@).len() == 0,
        r matches Err(d) ==> function_instances(lib.elems@).len() > 0 && is_hierarchy_diagnostic(
            d,
            function_instances(lib.elems@)[0].0,
            function_instances(lib.elems@)[0].1,
        ),
{
    let ghost elems = lib.elems@;
    let mut e: usize = 0;
    while e < lib.elems.len()
        invariant
            elems == lib.elems@,
            0 <= e <= elems.len(),
            function_instances(elems.take(e as int)).len() == 0,
        decreases elems.len() - e,
    {
        proof {
            assert(elems.take(e + 1).drop_last() =~= elems.take(e as int));
            lemma_function_instances_split(elems, e + 1);
        }
        match &lib.elems[e] {
            LibraryElement::FunctionDeclaration(function) => {
                let ghost decls = function.var_decls@;
                let mut m: usize = 0;
                while m < function.var_decls.len()
                    invariant
                        elems == lib.elems@,
                        0 <= e < elems.len(),
                        elems[e as int] == LibraryElement::FunctionDeclaration(*function),
                        decls == function.var_decls@,
                        0 <= m <= decls.len(),
                        function_instances(elems.take(e as int)).len() == 0,
                        function_instances(elems) == function_instances(elems.take(e + 1))
                            + function_instances(elems.skip(e + 1)),
                        function_block_instances(function.name, decls.take(m as int)).len() == 0,
                    decreases decls.len() - m,
                {
                    proof {
                        assert(decls.take(m + 1).drop_last() =~= decls.take(m as int));
                        lemma_function_block_instances_split(function.name, decls, m + 1);
                    }
                    match &function.var_decls[m] {
                        VarInitKind::VarInit(decl) => match &decl.initializer {
                            TypeInitializer::FunctionBlock(fb) => {
                                let mut message = "Function ".to_owned();
                                message.append(function.name.to_string().as_str());
                                message.append(" declares an instance of function block ");
                                message.append(fb.type_id.to_string().as_str());
                                let d = SemanticDiagnostic::error("S0006", message);
                                proof {
                                    let own = function_block_instances(function.name, decls);
                                    assert(function_block_instances(function.name, decls.take(m + 1))
                                        =~= seq![(function.name, fb.type_id)]);
                                    assert(own[0] == (function.name, fb.type_id));
                                    assert(element_function_instances(elems[e as int]) == own);
                                    assert(elems.take(e + 1).drop_last() =~= elems.take(e as int));
                                    assert(elems.take(e + 1).last() == elems[e as int]);
                                    assert(function_instances(elems.take(e + 1)) =~= own);
                                }
                                return Err(d);
                            },
                            _ => {},
                        },
                        _ => {},
                    }
                    m += 1;
                }
                assert(decls.take(decls.len() as int) =~= decls);
            },
            _ => {},
        }
        e += 1;
    }
    assert(elems.take(elems.len() as int) =~= elems);
    Ok(())
}

/// Checks that no POU of the library refers to itself, directly or through
/// other POUs, by declaring function block instances; then that no function
/// declares a function block instance.
pub fn apply(lib: &Library) -> (r: Result<(), SemanticDiagnostic>)
    requires
        fits_graph_indices(library_references(lib.elems@)),
    ensures
        r is Ok <==> !has_cycle(references(lib.elems@)) && function_instances(lib.elems@).len()
            == 0,
        has_cycle(references(lib.elems@)) ==> (r matches Err(d) && is_cycle_diagnostic(d)),
        !has_cycle(references(lib.elems@)) && function_instances(lib.elems@).len() > 0 ==> (
        r matches Err(d) && is_hierarchy_diagnostic(
            d,
            function_instances(lib.elems@)[0].0,
            function_instances(lib.elems@)[0].1,
        )),
{
    // Walk to build a graph of POUs and their relationships
    let mut visitor = RulePousNoCycles::new();
    visitor.walk(lib);
    proof {
        let keys = keys_of(visitor.nodes@);
        let edge = edge_of(visitor.graph);
        let related = references(lib.elems@);
        assert forall|x: Seq<char>, y: Seq<char>| #[trigger] related(x, y) implies exists|a: u32, b: u32|
            a < keys.len() && b < keys.len() && keys[a as int] == x && keys[b as int] == y
                && #[trigger] edge(a, b) by {
            assert(visitor.refs@.contains((x, y)));
            let (a, b) = choose|a: u32, b: u32|
                a < keys.len() && b < keys.len() && keys[a as int] == x && keys[b as int] == y
                    && #[trigger] graph_edges(visitor.graph).contains((a, b));
            assert(edge(a, b));
        }
        assert forall|a: u32, b: u32| #[trigger] edge(a, b) implies a < keys.len() && b < keys.len()
            && related(keys[a as int], keys[b as int]) by {
            assert(graph_edges(visitor.graph).contains((a, b)));
        }
        lemma_cycle_correspondence(keys, edge, related);
    }
    if graph_is_cyclic(&visitor.graph) {
        return Err(SemanticDiagnostic::error("S0005", "Library has a recursive cycle".to_owned()));
    }
    check_hierarchy(lib)
}

/// `decl` declares a function block instance, whatever its storage class.
pub open spec fn declares_instance(decl: VarInitKind) -> bool {
    decl is VarInit && decl->VarInit_0.initializer is FunctionBlock
}

/// The name of the function block of which `decl` declares an instance.
pub open spec fn instance_type(decl: VarInitKind) -> Id {
    decl->VarInit_0.initializer->FunctionBlock_0.type_id
}

/// Every function block instance that a POU declares, whatever its storage
/// class, is a reference from the POU to the function block: where the POU
/// at position `e` declares at position `j` among its variables an instance
/// of a function block, `references` relates the POU's key to the key of
/// the function block.
pub proof fn lemma_instances_are_references(elems: Seq<LibraryElement>, e: int, j: int)
    requires
        0 <= e < elems.len(),
    ensures
        ({
            let p = elems[e]->FunctionBlockDeclaration_0;
            elems[e] is FunctionBlockDeclaration && 0 <= j < p.var_decls@.len() && declares_instance(
                p.var_decls@[j],
            ) ==> references(elems)(p.name.key(), instance_type(p.var_decls@[j]).key())
        }),
        ({
            let p = elems[e]->FunctionDeclaration_0;
            elems[e] is FunctionDeclaration && 0 <= j < p.var_decls@.len() && declares_instance(
                p.var_decls@[j],
            ) ==> references(elems)(p.name.key(), instance_type(p.var_decls@[j]).key())
        }),
        ({
            let p = elems[e]->ProgramDeclaration_0;
            elems[e] is ProgramDeclaration && 0 <= j < p.var_declarations@.len() && declares_instance(
                p.var_declarations@[j],
            ) ==> references(elems)(p.type_id.key(), instance_type(p.var_declarations@[j]).key())
        }),
{
    let (from, decls): (Seq<char>, Seq<VarInitKind>) = match elems[e] {
        LibraryElement::FunctionBlockDeclaration(p) => (p.name.key(), p.var_decls@),
        LibraryElement::FunctionDeclaration(p) => (p.name.key(), p.var_decls@),
        LibraryElement::ProgramDeclaration(p) => (p.type_id.key(), p.var_declarations@),
        LibraryElement::DataTypeDeclaration(_) => (Seq::empty(), Seq::empty()),
    };
    if !(elems[e] is DataTypeDeclaration) && 0 <= j < decls.len() && declares_instance(decls[j]) {
        let pair = (from, instance_type(decls[j]).key());
        assert(element_references(elems[e]) == var_references(from, decls));
        lemma_var_references_split(from, decls, j + 1);
        assert(decls.take(j + 1).drop_last() =~= decls.take(j));
        assert(decls.take(j + 1).last() == decls[j]);
        let own = var_references(from, decls);
        let upto = var_references(from, decls.take(j + 1));
        assert(upto[upto.len() - 1] == pair);
        assert(own[upto.len() - 1] == pair);
        lemma_library_references_split(elems, e + 1);
        assert(elems.take(e + 1).drop_last() =~= elems.take(e));
        assert(elems.take(e + 1).last() == elems[e]);
        let before = library_references(elems.take(e));
        let all = library_references(elems);
        assert(all[before.len() + upto.len() - 1] == pair);
        assert(all.contains(pair));
    }
}

/// Two function blocks that each declare an instance of the other make the
/// library cyclic, whatever the storage classes of those declarations.
pub proof fn lemma_mutual_instances_are_cycle(elems: Seq<LibraryElement>, a: int, i: int, b: int, j: int)
    requires
        0 <= a < elems.len(),
        0 <= b < elems.len(),
        elems[a] is FunctionBlockDeclaration,
        elems[b] is FunctionBlockDeclaration,
        0 <= i < elems[a]->FunctionBlockDeclaration_0.var_decls@.len(),
        0 <= j < elems[b]->FunctionBlockDeclaration_0.var_decls@.len(),
        declares_instance(elems[a]->FunctionBlockDeclaration_0.var_decls@[i]),
        declares_instance(elems[b]->FunctionBlockDeclaration_0.var_decls@[j]),
        instance_type(elems[a]->FunctionBlockDeclaration_0.var_decls@[i]).key()
            == elems[b]->FunctionBlockDeclaration_0.name.key(),
        instance_type(elems[b]->FunctionBlockDeclaration_0.var_decls@[j]).key()
            == elems[a]->FunctionBlockDeclaration_0.name.key(),
    ensures
        has_cycle(references(elems)),
{
    lemma_instances_are_references(elems, a, i);
    lemma_instances_are_references(elems, b, j);
    let ka = elems[a]->FunctionBlockDeclaration_0.name.key();
    let kb = elems[b]->FunctionBlockDeclaration_0.name.key();
    let walk = seq![ka, kb, ka];
    assert(is_closed_walk(references(elems), walk));
}

/// Recursion is never allowed, not even directly: a POU that declares an
/// instance of itself makes the library cyclic.
pub proof fn lemma_self_reference_is_cycle(elems: Seq<LibraryElement>, name: Seq<char>)
    requires
        references(elems)(name, name),
    ensures
        has_cycle(references(elems)),
{
    let walk = seq![name, name];
    assert(is_closed_walk(references(elems), walk));
}

/// A closed walk over nodes carries over to a closed walk over their keys
/// and back, when keys name nodes one to one and edges stand for related keys.
proof fn lemma_cycle_correspondence(
    keys: Seq<Seq<char>>,
    edge: spec_fn(u32, u32) -> bool,
    related: spec_fn(Seq<char>, Seq<char>) -> bool,
)
    requires
        forall|i: int, j: int|
            0 <= i < keys.len() && 0 <= j < keys.len() && i != j ==> keys[i] != keys[j],
        forall|a: u32, b: u32| #[trigger]
            edge(a, b) ==> a < keys.len() && b < keys.len() && related(keys[a as int], keys[b as int]),
        forall|x: Seq<char>, y: Seq<char>| #[trigger]
            related(x, y) ==> exists|a: u32, b: u32|
                a < keys.len() && b < keys.len() && keys[a as int] == x && keys[b as int] == y
                    && #[trigger] edge(a, b),
    ensures
        has_cycle(edge) <==> has_cycle(related),
{
    if has_cycle(edge) {
        let walk = choose|walk: Seq<u32>| #[trigger] is_closed_walk(edge, walk);
        let named = walk.map_values(|a: u32| keys[a as int]);
        assert forall|i: int| 0 <= i < named.len() - 1 implies #[trigger] related(
            named[i],
            named[i + 1],
        ) by {
            assert(edge(walk[i], walk[i + 1]));
        }
        assert(is_closed_walk(related, named));
    }
    if has_cycle(related) {
        let named = choose|named: Seq<Seq<char>>| #[trigger] is_closed_walk(related, named);
        let index_of = |x: Seq<char>| choose|a: u32| a < keys.len() && keys[a as int] == x;
        let walk = named.map_values(index_of);
        assert forall|i: int| 0 <= i < walk.len() - 1 implies #[trigger] edge(walk[i], walk[i + 1]) by {
            assert(related(named[i], named[i + 1]));
            let (a, b) = choose|a: u32, b: u32|
                a < keys.len() && b < keys.len() && keys[a as int] == named[i] && keys[b as int]
                    == named[i + 1] && #[trigger] edge(a, b);
            assert(keys[walk[i] as int] == named[i]);
            assert(keys[walk[i + 1] as int] == named[i + 1]);
        }
        assert(is_closed_walk(edge, walk));
    }
}

/// The references of declarations split in two are those of the first part
/// followed by those of the second.
pub(crate) proof fn lemma_var_references_split(from: Seq<char>, decls: Seq<VarInitKind>, n: int)
    requires
        0 <= n <= decls.len(),
    ensures
        var_references(from, decls) == var_references(from, decls.take(n)) + var_references(
            from,
            decls.skip(n),
        ),
    decreases decls.len() - n,
{
    if n < decls.len() {
        lemma_var_references_split(from, decls.drop_last(), n);
        assert(decls.drop_last().take(n) =~= decls.take(n));
        assert(decls.skip(n).drop_last() =~= decls.drop_last().skip(n));
        assert(decls.skip(n).last() == decls.last());
    } else {
        assert(decls.take(n) =~= decls);
        assert(decls.skip(n) =~= Seq::<VarInitKind>::empty());
    }
}

/// Each reference of the declarations of the POU keyed `from` starts at
/// `from`.
proof fn lemma_var_references_source(from: Seq<char>, decls: Seq<VarInitKind>)
    ensures
        forall|k: int|
            0 <= k < var_references(from, decls).len() ==> (#[trigger] var_references(
                from,
                decls,
            )[k]).0 == from,
    decreases decls.len(),
{
    if decls.len() > 0 {
        lemma_var_references_source(from, decls.drop_last());
        let earlier = var_references(from, decls.drop_last());
        assert forall|k: int|
            0 <= k < var_references(from, decls).len() implies (#[trigger] var_references(
            from,
            decls,
        )[k]).0 == from by {
            if k >= earlier.len() {
                assert(var_references(from, decls)[k] == decl_references(from, decls.last())[k
                    - earlier.len()]);
            }
        }
    }
}

/// The instances of declarations split in two are those of the first part
/// followed by those of the second.
proof fn lemma_function_block_instances_split(function: Id, decls: Seq<VarInitKind>, n: int)
    requires
        0 <= n <= decls.len(),
    ensures
        function_block_instances(function, decls) == function_block_instances(
            function,
            decls.take(n),
        ) + function_block_instances(function, decls.skip(n)),
    decreases decls.len() - n,
{
    if n < decls.len() {
        lemma_function_block_instances_split(function, decls.drop_last(), n);
        assert(decls.drop_last().take(n) =~= decls.take(n));
        assert(decls.skip(n).drop_last() =~= decls.drop_last().skip(n));
        assert(decls.skip(n).last() == decls.last());
    } else {
        assert(decls.take(n) =~= decls);
        assert(decls.skip(n) =~= Seq::<VarInitKind>::empty());
    }
}

/// The instances of elements split in two are those of the first part
/// followed by those of the second.
proof fn lemma_function_instances_split(elems: Seq<LibraryElement>, n: int)
    requires
        0 <= n <= elems.len(),
    ensures
        function_instances(elems) == function_instances(elems.take(n)) + function_instances(
            elems.skip(n),
        ),
    decreases elems.len() - n,
{
    if n < elems.len() {
        lemma_function_instances_split(elems.drop_last(), n);
        assert(elems.drop_last().take(n) =~= elems.take(n));
        assert(elems.skip(n).drop_last() =~= elems.drop_last().skip(n));
        assert(elems.skip(n).last() == elems.last());
    } else {
        assert(elems.take(n) =~= elems);
        assert(elems.skip(n) =~= Seq::<LibraryElement>::empty());
    }
}

/// The references of elements split in two are those of the first part
/// followed by those of the second.
pub(crate) proof fn lemma_library_references_split(elems: Seq<LibraryElement>, n: int)
    requires
        0 <= n <= elems.len(),
    ensures
        library_references(elems) == library_references(elems.take(n)) + library_references(
            elems.skip(n),
        ),
    decreases elems.len() - n,
{
    if n < elems.len() {
        lemma_library_references_split(elems.drop_last(), n);
        assert(elems.drop_last().take(n) =~= elems.take(n));
        assert(elems.skip(n).drop_last() =~= elems.drop_last().skip(n));
        assert(elems.skip(n).last() == elems.last());
    } else {
        assert(elems.take(n) =~= elems);
        assert(elems.skip(n) =~= Seq::<LibraryElement>::empty());
    }
}

/// More references never mean fewer distinct keys or fewer references.
proof fn lemma_distinct_keys_grow(refs: Seq<Reference>, more: Seq<Reference>)
    ensures
        distinct_keys(refs).len() <= distinct_keys(refs + more).len(),
        refs.len() <= (refs + more).len(),
    decreases more.len(),
{
    if more.len() == 0 {
        assert(refs + more =~= refs);
    } else {
        lemma_distinct_keys_grow(refs, more.drop_last());
        assert((refs + more).drop_last() =~= refs + more.drop_last());
    }
}

} // verus!
