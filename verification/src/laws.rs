//! The library's stated laws: what interning, path deduplication, file
//! removal and call resolution guarantee, proved once over the graph's
//! contracts.

use vstd::prelude::*;

use crate::graph::{adj, spec_resolve_call, CallGraph, CallSite, QualifiedName};
use crate::spec_qkey;

verus! {

/// Interning is stable: two interned strings carry the same symbol
/// exactly when they are the same string. With `intern`'s contract — the
/// returned symbol indexes its argument in the string pool — this says
/// that `intern` agrees on two strings exactly when they are equal, and
/// `resolve` after `intern` hands the argument back.
pub proof fn lemma_interning_stable(g: CallGraph, i: int, j: int)
    requires
        g.wf(),
        0 <= i < g.strings().len(),
        0 <= j < g.strings().len(),
    ensures
        (i == j) <==> (g.strings()[i] == g.strings()[j]),
{
    if i != j && g.strings()[i] == g.strings()[j] {
        if i < j {
            assert(g.strings()[i] != g.strings()[j]);
        } else {
            assert(g.strings()[j] != g.strings()[i]);
        }
    }
}

/// Paths are deduplicated: two live pool entries hold the same path
/// exactly when they are the same entry. With `get_shared_path`'s
/// contract — equal paths yield the id of the one live entry holding
/// them — ids obtained from equal paths are identical.
pub proof fn lemma_path_identity(g: CallGraph, i: int, j: int)
    requires
        g.wf(),
        0 <= i < g.paths().len(),
        0 <= j < g.paths().len(),
        g.paths()[i] is Some,
        g.paths()[j] is Some,
    ensures
        (i == j) <==> (g.paths()[i] == g.paths()[j]),
{
    if i != j && g.paths()[i] == g.paths()[j] {
        if i < j {
            assert(g.paths()[i] != g.paths()[j]);
        } else {
            assert(g.paths()[j] != g.paths()[i]);
        }
    }
}

/// Removal is idempotent: when one `remove_file` takes the graph from a
/// first state to a second, a second `remove_file` of the same path
/// leaves the second state untouched — whether or not the path was held
/// at first. Both premises are exactly `remove_file`'s postcondition.
pub proof fn lemma_remove_file_idempotent(
    g0: CallGraph,
    g1: CallGraph,
    g2: CallGraph,
    file: Seq<char>,
)
    requires
        crate::graph::spec_removed_file(g0, g1, file),
        crate::graph::spec_removed_file(g1, g2, file),
    ensures
        g2 == g1,
{
    if exists|i: int| 0 <= i < g0.paths().len() && g0.paths()[i] == Some(file) {
        assert(!(exists|i: int| 0 <= i < g1.paths().len() && g1.paths()[i] == Some(file)));
    } else {
        assert(g1 == g0);
    }
}

/// File scope is isolated: once a path's pool entry is dead, no
/// definition and no live call site of the graph bears it, so no query
/// can reach content of that file. `remove_file` kills the entry and
/// drops the file's variable scopes, so this holds of every state it
/// leaves behind.
pub proof fn lemma_file_scoped_isolation(g: CallGraph, p: u64)
    requires
        g.wf(),
        !g.path_live(p),
    ensures
        forall|q: u64|
            g.defs().contains_key(q) ==> (#[trigger] g.defs()[q]).file as u64 != p,
        forall|i: int|
            0 <= i < g.sites().len() && g.sites()[i] is Some ==> (
            #[trigger] g.sites()[i])->Some_0.file as u64 != p,
{
    assert forall|q: u64| g.defs().contains_key(q) implies (#[trigger] g.defs()[q]).file as u64
        != p by {
        assert(g.path_live(g.defs()[q].file as u64));
    }
    assert forall|i: int|
        0 <= i < g.sites().len() && g.sites()[i] is Some implies (
    #[trigger] g.sites()[i])->Some_0.file as u64 != p by {
        assert(g.path_live(g.sites()[i]->Some_0.file as u64));
    }
}

/// Resolution precedence: a receiver that names a known object — local
/// or external — wins; otherwise a variable of the caller's scope
/// supplies its type; otherwise the receiver stands as written, and by
/// `add_call_site`'s contract the edge is still recorded under it. An
/// unqualified call targets the caller's own object.
pub proof fn lemma_resolution_precedence(g: CallGraph, caller: QualifiedName, call: CallSite)
    ensures
        (call.callee_object is Some && (g.objects().contains_key(call.callee_object->0 as u64)
            || g.ext_objects().contains_key(call.callee_object->0 as u64)))
            ==> spec_resolve_call(g, caller, call) == (QualifiedName {
            object: call.callee_object->0,
            procedure: call.callee_method,
        }),
        (call.callee_object is Some && !(g.objects().contains_key(call.callee_object->0 as u64)
            || g.ext_objects().contains_key(call.callee_object->0 as u64))
            && crate::graph::spec_lookup_binding(
            adj(g.vars(), caller.spec_key()),
            call.callee_object->0,
        ) is Some) ==> spec_resolve_call(g, caller, call) == (QualifiedName {
            object: crate::graph::spec_lookup_binding(
                adj(g.vars(), caller.spec_key()),
                call.callee_object->0,
            )->0,
            procedure: call.callee_method,
        }),
        (call.callee_object is Some && !(g.objects().contains_key(call.callee_object->0 as u64)
            || g.ext_objects().contains_key(call.callee_object->0 as u64))
            && crate::graph::spec_lookup_binding(
            adj(g.vars(), caller.spec_key()),
            call.callee_object->0,
        ) is None) ==> spec_resolve_call(g, caller, call) == (QualifiedName {
            object: call.callee_object->0,
            procedure: call.callee_method,
        }),
        call.callee_object is None ==> spec_resolve_call(g, caller, call) == (QualifiedName {
            object: caller.object,
            procedure: call.callee_method,
        }),
{
}

/// Two distinct qualified names never collide on one map key: the key is
/// the object symbol in the high half and the procedure symbol in the
/// low half.
pub proof fn lemma_qkey_injective(a: QualifiedName, b: QualifiedName)
    ensures
        (a.spec_key() == b.spec_key()) <==> (a.object == b.object && a.procedure == b.procedure),
{
    if a.spec_key() == b.spec_key() {
        assert(a.object == b.object && a.procedure == b.procedure) by {
            assert(spec_qkey(a.object, a.procedure) as int == (a.object as int) * 0x1_0000_0000
                + a.procedure as int);
            assert(spec_qkey(b.object, b.procedure) as int == (b.object as int) * 0x1_0000_0000
                + b.procedure as int);
            assert((a.object as int) * 0x1_0000_0000 + a.procedure as int == (b.object as int)
                * 0x1_0000_0000 + b.procedure as int ==> a.object == b.object && a.procedure
                == b.procedure) by (nonlinear_arith)
                requires
                    a.object <= 0xFFFF_FFFF && b.object <= 0xFFFF_FFFF && a.procedure
                        <= 0xFFFF_FFFF && b.procedure <= 0xFFFF_FFFF,
            ;
        }
    }
}


/// The definition half of the re-index round trip: when one parsed file
/// has been folded into two graphs — whatever states they started from
/// and whatever symbols or path ids each assigned — the two stores agree
/// on every definition the file contributes: same extent, kind and
/// metrics, name by name. Re-indexing a file with identical content
/// therefore reproduces its definitions exactly; call-site indices may
/// renumber.
pub proof fn lemma_refold_reproduces_definitions(
    g1: CallGraph,
    g2: CallGraph,
    o1: u32,
    o2: u32,
    ot: crate::graph::ObjectType,
    p1: u32,
    p2: u32,
    parsed: crate::parser::ParsedFile,
    k: int,
)
    requires
        0 <= k < parsed.definitions@.len(),
        crate::indexer::spec_def_folded(g1, o1, ot, p1, parsed, k),
        crate::indexer::spec_def_folded(g2, o2, ot, p2, parsed, k),
    ensures
        ({
            let nm = parsed.definitions@[k].name@;
            let d1 = g1.defs()[spec_qkey(o1, crate::indexer::sym_in(g1.strings(), nm))];
            let d2 = g2.defs()[spec_qkey(o2, crate::indexer::sym_in(g2.strings(), nm))];
            &&& d1.range == d2.range
            &&& d1.kind == d2.kind
            &&& d1.complexity == d2.complexity
            &&& d1.line_count == d2.line_count
            &&& d1.parameter_count == d2.parameter_count
            &&& d1.object_type == d2.object_type
        }),
{
}

} // verus!
