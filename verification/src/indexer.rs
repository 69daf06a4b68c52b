//! Folding extracted files into the call graph, in the order resolution
//! needs: the object first, then the variable scopes, then the
//! definitions, then the call sites; and the incremental re-index step
//! that removes a file's contribution before folding it anew.

use vstd::prelude::*;

use crate::graph::{adj, CallGraph, CallSite, CallSiteIdx, Definition, QualifiedName};
use crate::parser::ParsedFile;
use crate::spec_qkey;
use crate::strutil::str_eq;

verus! {

/// The symbol a string holds in an interner without duplicates.
pub open spec fn sym_in(strings: Seq<Seq<char>>, s: Seq<char>) -> u32 {
    (choose|i: int| 0 <= i < strings.len() && strings[i] == s) as u32
}

/// How many strings a fold may intern at most: the object name, and up
/// to three per variable, per definition and per call.
pub open spec fn spec_fold_budget(p: ParsedFile) -> int {
    1 + 3 * p.variables@.len() as int + 3 * p.definitions@.len() as int + 3 * p.calls@.len() as int
}

/// The position of the last definition with a name, or a negative value
/// when none has it: a repeated name keeps the later definition.
pub open spec fn spec_last_def_index(defs: Seq<crate::parser::ParsedDefinition>, nm: Seq<char>) -> int
    decreases defs.len(),
{
    if defs.len() == 0 {
        -1
    } else if defs.last().name@ == nm {
        defs.len() - 1
    } else {
        spec_last_def_index(defs.drop_last(), nm)
    }
}

/// A definition of the parsed file stands in the graph, judged against
/// the first `hi` parsed definitions: keyed by the object and its
/// cleaned name, in the right file, and carrying the payload of the last
/// parsed definition of that name.
pub open spec fn spec_def_folded_upto(
    g: CallGraph,
    osym: u32,
    ot: crate::graph::ObjectType,
    pid: u32,
    p: ParsedFile,
    k: int,
    hi: int,
) -> bool {
    let nm = p.definitions@[k].name@;
    let j = spec_last_def_index(p.definitions@.take(hi), nm);
    &&& g.strings().contains(nm)
    &&& 0 <= j < p.definitions@.len()
    &&& {
        let ns = sym_in(g.strings(), nm);
        &&& g.defs().contains_key(spec_qkey(osym, ns))
        &&& {
            let d = g.defs()[spec_qkey(osym, ns)];
            &&& d.file == pid
            &&& d.object_type == ot
            &&& d.object_name == osym
            &&& d.name == ns
            &&& d.range == p.definitions@[j].range
            &&& d.kind == p.definitions@[j].kind
            &&& d.complexity == p.definitions@[j].complexity
            &&& d.line_count == p.definitions@[j].line_count
            &&& d.parameter_count == p.definitions@[j].parameter_count
            &&& spec_target_folded(g, d, p.definitions@[j])
        }
    }
}

/// A stored definition carries its parsed counterpart's declared event
/// target, interned in lower case so that target matching is
/// case-insensitive; anything else carries none.
pub open spec fn spec_target_folded(
    g: CallGraph,
    d: crate::graph::Definition,
    pd: crate::parser::ParsedDefinition,
) -> bool {
    if pd.kind is EventSubscriber && pd.event_target_object is Some
        && pd.event_target_procedure is Some {
        &&& g.strings().contains(crate::strutil::lower_of(pd.event_target_object->0@))
        &&& g.strings().contains(crate::strutil::lower_of(pd.event_target_procedure->0@))
        &&& d.event_target == Some(
            QualifiedName {
                object: sym_in(
                    g.strings(),
                    crate::strutil::lower_of(pd.event_target_object->0@),
                ),
                procedure: sym_in(
                    g.strings(),
                    crate::strutil::lower_of(pd.event_target_procedure->0@),
                ),
            },
        )
    } else {
        d.event_target is None
    }
}

/// A definition of the parsed file stands in the graph with the payload
/// of the last parsed definition of its name.
pub open spec fn spec_def_folded(
    g: CallGraph,
    osym: u32,
    ot: crate::graph::ObjectType,
    pid: u32,
    p: ParsedFile,
    k: int,
) -> bool {
    spec_def_folded_upto(g, osym, ot, pid, p, k, p.definitions@.len() as int)
}

/// Taking one more definition moves the last index of its own name there
/// and leaves every other name's alone.
proof fn lemma_last_def_index_step(defs: Seq<crate::parser::ParsedDefinition>, nm: Seq<char>, i: int)
    requires
        0 <= i < defs.len(),
    ensures
        spec_last_def_index(defs.take(i + 1), nm) == if defs[i].name@ == nm {
            i
        } else {
            spec_last_def_index(defs.take(i), nm)
        },
{
    assert(defs.take(i + 1).drop_last() =~= defs.take(i));
    assert(defs.take(i + 1).last() == defs[i]);
}


/// Whether a parsed variable is kept for resolution: a local of a
/// record or codeunit type inside a procedure.
pub open spec fn spec_var_eligible(v: crate::parser::ParsedVariable) -> bool {
    &&& v.containing_procedure is Some
    &&& v.ty_kind is Some
    &&& (v.ty_kind->0@ == "Record"@ || v.ty_kind->0@ == "Codeunit"@)
}

/// An eligible variable's `(name, type)` pair stands in its procedure's
/// scope, and the scope is listed under the file for later removal.
pub open spec fn spec_binding_folded(
    post: CallGraph,
    osym: u32,
    pid: u32,
    p: ParsedFile,
    v: int,
) -> bool {
    let pv = p.variables@[v];
    &&& post.strings().contains(pv.containing_procedure->0@)
    &&& post.strings().contains(pv.name@)
    &&& post.strings().contains(pv.ty_name@)
    &&& adj(
        post.vars(),
        spec_qkey(osym, sym_in(post.strings(), pv.containing_procedure->0@)),
    ).contains(
        (sym_in(post.strings(), pv.name@), sym_in(post.strings(), pv.ty_name@)),
    )
    &&& adj(post.file_vars(), pid as u64).contains(
        spec_qkey(osym, sym_in(post.strings(), pv.containing_procedure->0@)),
    )
}

/// One appended call site, at `base + k` of the arena: its payload
/// carries the parsed call's names and extent, its index stands in the
/// caller's outgoing list, and in the incoming list of the target that
/// `spec_resolve_call` names.
pub open spec fn spec_call_folded(
    base: int,
    post: CallGraph,
    osym: u32,
    pid: u32,
    p: ParsedFile,
    k: int,
) -> bool {
    let c = p.calls@[k];
    let idx = base + k;
    &&& 0 <= idx < post.sites().len()
    &&& post.sites()[idx] is Some
    &&& {
        let cs = post.sites()[idx]->Some_0;
        &&& cs.file == pid
        &&& cs.range == c.range
        &&& post.strings().contains(c.method@)
        &&& cs.callee_method == sym_in(post.strings(), c.method@)
        &&& match c.object {
            Some(o) => cs.callee_object is Some && post.strings().contains(o@)
                && cs.callee_object->0 == sym_in(post.strings(), o@),
            None => cs.callee_object is None,
        }
        &&& match c.containing_procedure {
            Some(pn) => post.strings().contains(pn@) && cs.caller == sym_in(
                post.strings(),
                pn@,
            ),
            None => cs.caller == osym,
        }
        &&& adj(post.outgoing(), spec_qkey(osym, cs.caller)).contains(idx as CallSiteIdx)
        &&& adj(
            post.incoming(),
            crate::graph::spec_resolve_call(
                post,
                QualifiedName { object: osym, procedure: cs.caller },
                cs,
            ).spec_key(),
        ).contains(idx as CallSiteIdx)
    }
}

/// What one fold of an extracted file does. A file without an object
/// header contributes nothing. Otherwise: the pool gains or keeps a live
/// entry for the path and the strings only grow; the object is
/// registered; every definition of the file stands in the store with the
/// payload of the last parsed definition of its name; every eligible
/// variable is bound in its scope; and every call is appended to the
/// arena in order, with its outgoing and resolved incoming edges. Since
/// the fold binds variables before it appends calls, and neither the
/// definitions nor the calls touch the scopes or the registered objects,
/// the targets are resolved against exactly the objects and scopes the
/// final state shows.
pub open spec fn spec_folded_file(
    pre: CallGraph,
    post: CallGraph,
    path: Seq<char>,
    p: ParsedFile,
) -> bool {
    &&& ((p.object_name is None || p.object_type is None) ==> post == pre)
    &&& ((p.object_name is Some && p.object_type is Some) ==> ({
        let oname = p.object_name->0@;
        let ot = p.object_type->0;
        let osym = sym_in(post.strings(), oname);
        let pid = sym_in_paths(post.paths(), path);
        &&& post.strings().len() >= pre.strings().len()
        &&& (forall|i: int|
            0 <= i < pre.strings().len() ==> #[trigger] post.strings()[i] == pre.strings()[i])
        &&& post.strings().contains(oname)
        &&& post.paths().len() >= pre.paths().len()
        &&& (forall|i: int|
            0 <= i < pre.paths().len() ==> #[trigger] post.paths()[i] == pre.paths()[i])
        &&& (exists|i: int| 0 <= i < post.paths().len() && post.paths()[i] == Some(path))
        &&& post.objects() == pre.objects().insert(osym as u64, ot)
        &&& post.ext_objects() == pre.ext_objects()
        &&& post.ext_defs() == pre.ext_defs()
        &&& post.sites().len() == pre.sites().len() + p.calls@.len()
        &&& (forall|j: int|
            0 <= j < pre.sites().len() ==> #[trigger] post.sites()[j] == pre.sites()[j])
        &&& (forall|k: int|
            0 <= k < p.definitions@.len() ==> spec_def_folded(post, osym, ot, pid, p, k))
        &&& (forall|q: u64|
            #![trigger adj(post.vars(), q)]
            adj(pre.vars(), q).is_prefix_of(adj(post.vars(), q)))
        &&& (forall|q: u64|
            #![trigger adj(post.file_vars(), q)]
            adj(pre.file_vars(), q).is_prefix_of(adj(post.file_vars(), q)))
        &&& (forall|v: int|
            0 <= v < p.variables@.len() && spec_var_eligible(#[trigger] p.variables@[v])
                ==> spec_binding_folded(post, osym, pid, p, v))
        &&& (forall|k: int|
            0 <= k < p.calls@.len() ==> spec_call_folded(
                pre.sites().len() as int,
                post,
                osym,
                pid,
                p,
                k,
            ))
    }))
}

/// Resolution reads only the registered objects and the scopes, so two
/// states that agree on them resolve every call alike.
proof fn lemma_resolve_same(
    g1: CallGraph,
    g2: CallGraph,
    caller: QualifiedName,
    call: crate::graph::CallSite,
)
    requires
        g1.objects() == g2.objects(),
        g1.ext_objects() == g2.ext_objects(),
        g1.vars() == g2.vars(),
    ensures
        crate::graph::spec_resolve_call(g1, caller, call) == crate::graph::spec_resolve_call(
            g2,
            caller,
            call,
        ),
{
}

/// Appending keeps what a sequence holds.
proof fn lemma_push_contains<T>(l: Seq<T>, x: T, y: T)
    requires
        l.contains(y),
    ensures
        l.push(x).contains(y),
{
    let j = choose|j: int| 0 <= j < l.len() && l[j] == y;
    assert(l.push(x)[j] == y);
}

/// Folds one extracted file into the graph. A file without an object
/// header contributes nothing. Otherwise the object is registered, every
/// object-typed local variable is bound in its scope, every definition is
/// added under the object (a repeated name keeps the later one; an event
/// subscriber's declared target is interned in lower case and indexed),
/// and every call site is appended and resolved.
pub fn fold_parsed_file(graph: &mut CallGraph, path: &str, parsed: &ParsedFile)
    requires
        old(graph).wf(),
        old(graph).strings().len() + spec_fold_budget(*parsed) < 0xFFFF_FFFF,
        old(graph).paths().len() < 0xFFFF_FFFF,
        old(graph).sites().len() + parsed.calls@.len() <= 0xFFFF_FFFF,
        forall|q: u64|
            adj(old(graph).vars(), q).len() + parsed.variables@.len() < 0xFFFF_FFFF,
    ensures
        final(graph).wf(),
        spec_folded_file(*old(graph), *final(graph), path@, *parsed),
{
    let oname = match &parsed.object_name {
        Some(n) => n,
        None => {
            return ;
        },
    };
    let ot = match &parsed.object_type {
        Some(t) => *t,
        None => {
            return ;
        },
    };
    let osym = graph.intern(oname.as_str());
    let pid = graph.get_shared_path(path);
    graph.register_object(osym, ot);
    let ghost base = *graph;
    proof {
        lemma_sym_in(graph.strings(), oname@, osym as int);
        lemma_sym_in_paths(graph.paths(), path@, pid as int);
    }

    // Bind the object-typed local variables first, so calls can see them.
    let nv = parsed.variables.len();
    let mut vi: usize = 0;
    while vi < nv
        invariant
            graph.wf(),
            nv == parsed.variables@.len(),
            0 <= vi <= nv,
            base.strings().len() <= graph.strings().len() <= base.strings().len() + 3 * vi,
            base.strings().len() + 3 * parsed.variables@.len() + 3 * parsed.definitions@.len()
                + 3 * parsed.calls@.len() < 0xFFFF_FFFF,
            forall|i: int|
                0 <= i < base.strings().len() ==> #[trigger] graph.strings()[i]
                    == base.strings()[i],
            (osym as int) < base.strings().len(),
            graph.strings()[osym as int] == oname@,
            graph.paths() == base.paths(),
            graph.path_live(pid as u64),
            graph.objects() == base.objects(),
            graph.sites() == base.sites(),
            graph.defs() == base.defs(),
            graph.ext_objects() == base.ext_objects(),
            graph.ext_defs() == base.ext_defs(),
            forall|q: u64|
                adj(graph.vars(), q).len() <= adj(base.vars(), q).len() + vi,
            forall|q: u64|
                adj(base.vars(), q).len() + parsed.variables@.len() < 0xFFFF_FFFF,
            forall|q: u64|
                #![trigger adj(graph.vars(), q)]
                adj(base.vars(), q).is_prefix_of(adj(graph.vars(), q)),
            forall|q: u64|
                #![trigger adj(graph.file_vars(), q)]
                adj(base.file_vars(), q).is_prefix_of(adj(graph.file_vars(), q)),
            forall|w: int|
                0 <= w < vi && spec_var_eligible(#[trigger] parsed.variables@[w])
                    ==> spec_binding_folded(*graph, osym, pid, *parsed, w),
        decreases nv - vi,
    {
        let ghost lh = *graph;
        let v = &parsed.variables[vi];
        let eligible = match (&v.containing_procedure, &v.ty_kind) {
            (Some(_), Some(k)) => {
                proof {
                    reveal_strlit("Record");
                    reveal_strlit("Codeunit");
                }
                str_eq(k.as_str(), "Record") || str_eq(k.as_str(), "Codeunit")
            },
            _ => false,
        };
        proof {
            assert(eligible == spec_var_eligible(parsed.variables@[vi as int]));
        }
        if eligible {
            let proc_name = match &v.containing_procedure {
                Some(pn) => pn.as_str(),
                None => "",
            };
            let ghost pre = *graph;
            let psym = graph.intern(proc_name);
            let vsym = graph.intern(v.name.as_str());
            let tsym = graph.intern(v.ty_name.as_str());
            let q = QualifiedName { object: osym, procedure: psym };
            proof {
                assert(graph.vars() == pre.vars());
                assert(adj(pre.vars(), q.spec_key()).len() <= adj(base.vars(), q.spec_key()).len()
                    + vi);
                assert(adj(base.vars(), q.spec_key()).len() + parsed.variables@.len()
                    < 0xFFFF_FFFF);
            }
            graph.add_variable_binding(pid, q, vsym, tsym);
            proof {
                assert forall|qq: u64| adj(graph.vars(), qq).len() <= adj(base.vars(), qq).len()
                    + (vi + 1) by {
                    assert(adj(pre.vars(), qq).len() <= adj(base.vars(), qq).len() + vi);
                }
                assert(forall|i: int|
                    0 <= i < lh.strings().len() ==> #[trigger] graph.strings()[i]
                        == lh.strings()[i]);
                lemma_sym_in(graph.strings(), parsed.variables@[vi as int].containing_procedure->0@, psym as int);
                lemma_sym_in(graph.strings(), parsed.variables@[vi as int].name@, vsym as int);
                lemma_sym_in(graph.strings(), parsed.variables@[vi as int].ty_name@, tsym as int);
                assert(adj(graph.vars(), q.spec_key()) == adj(pre.vars(), q.spec_key()).push(
                    (vsym, tsym),
                ));
                assert(adj(graph.vars(), q.spec_key()).contains((vsym, tsym))) by {
                    assert(adj(graph.vars(), q.spec_key()).last() == (vsym, tsym));
                }
                assert(adj(graph.file_vars(), pid as u64) == adj(
                    lh.file_vars(),
                    pid as u64,
                ).push(q.spec_key()));
                assert(adj(graph.file_vars(), pid as u64).contains(q.spec_key())) by {
                    assert(adj(graph.file_vars(), pid as u64).last() == q.spec_key());
                }
                assert(spec_binding_folded(*graph, osym, pid, *parsed, vi as int));
                assert forall|w: int|
                    0 <= w < vi && spec_var_eligible(#[trigger] parsed.variables@[w])
                        implies spec_binding_folded(*graph, osym, pid, *parsed, w) by {
                    lemma_binding_carries(
                        lh,
                        *graph,
                        osym,
                        pid,
                        *parsed,
                        w,
                        q.spec_key(),
                        (vsym, tsym),
                    );
                }
                assert forall|qq: u64| adj(base.vars(), qq).is_prefix_of(
                    #[trigger] adj(graph.vars(), qq),
                ) by {
                    assert(adj(base.vars(), qq).is_prefix_of(adj(lh.vars(), qq)));
                    if qq == q.spec_key() {
                        assert(adj(graph.vars(), qq) == adj(lh.vars(), qq).push((vsym, tsym)));
                        assert(adj(lh.vars(), qq).is_prefix_of(adj(graph.vars(), qq))) by {
                            assert(adj(graph.vars(), qq).subrange(
                                0,
                                adj(lh.vars(), qq).len() as int,
                            ) =~= adj(lh.vars(), qq));
                        }
                    }
                }
                assert forall|qq: u64| adj(base.file_vars(), qq).is_prefix_of(
                    #[trigger] adj(graph.file_vars(), qq),
                ) by {
                    assert(adj(base.file_vars(), qq).is_prefix_of(adj(lh.file_vars(), qq)));
                    if qq == pid as u64 {
                        assert(adj(graph.file_vars(), qq) == adj(lh.file_vars(), qq).push(
                            q.spec_key(),
                        ));
                        assert(adj(lh.file_vars(), qq).is_prefix_of(adj(graph.file_vars(), qq)))
                            by {
                            assert(adj(graph.file_vars(), qq).subrange(
                                0,
                                adj(lh.file_vars(), qq).len() as int,
                            ) =~= adj(lh.file_vars(), qq));
                        }
                    }
                }
            }
        }
        vi = vi + 1;
    }
    let ghost after_vars = *graph;

    // Add the definitions.
    let nd = parsed.definitions.len();
    let mut di: usize = 0;
    while di < nd
        invariant
            graph.wf(),
            nd == parsed.definitions@.len(),
            0 <= di <= nd,
            after_vars.strings().len() <= graph.strings().len() <= after_vars.strings().len() + 3
                * di,
            after_vars.strings().len() + 3 * parsed.definitions@.len() + 3 * parsed.calls@.len()
                < 0xFFFF_FFFF,
            forall|i: int|
                0 <= i < after_vars.strings().len() ==> #[trigger] graph.strings()[i]
                    == after_vars.strings()[i],
            (osym as int) < after_vars.strings().len(),
            graph.strings()[osym as int] == oname@,
            graph.paths() == after_vars.paths(),
            graph.path_live(pid as u64),
            graph.sites() == after_vars.sites(),
            graph.objects() == after_vars.objects(),
            graph.vars() == after_vars.vars(),
            graph.file_vars() == after_vars.file_vars(),
            graph.ext_objects() == after_vars.ext_objects(),
            graph.ext_defs() == after_vars.ext_defs(),
            forall|k: int|
                0 <= k < di ==> spec_def_folded_upto(*graph, osym, ot, pid, *parsed, k, di as int),
        decreases nd - di,
    {
        let d = &parsed.definitions[di];
        let ghost pre = *graph;
        let nsym = graph.intern(d.name.as_str());
        let is_subscriber = matches!(d.kind, crate::graph::DefinitionKind::EventSubscriber);
        let target: Option<QualifiedName> = if is_subscriber {
            match (&d.event_target_object, &d.event_target_procedure) {
                (Some(tobj), Some(tevt)) => {
                    let lo = crate::strutil::lowercase(tobj.as_str());
                    let le = crate::strutil::lowercase(tevt.as_str());
                    let tosym = graph.intern(lo.as_str());
                    let tesym = graph.intern(le.as_str());
                    proof {
                        lemma_sym_in(
                            graph.strings(),
                            crate::strutil::lower_of(d.event_target_object->0@),
                            tosym as int,
                        );
                        lemma_sym_in(
                            graph.strings(),
                            crate::strutil::lower_of(d.event_target_procedure->0@),
                            tesym as int,
                        );
                    }
                    Some(QualifiedName { object: tosym, procedure: tesym })
                },
                _ => None,
            }
        } else {
            None
        };
        graph.add_definition(
            Definition {
                file: pid,
                range: d.range,
                object_type: ot,
                object_name: osym,
                name: nsym,
                kind: d.kind,
                complexity: d.complexity,
                line_count: d.line_count,
                parameter_count: d.parameter_count,
                event_target: target,
            },
        );
        proof {
            lemma_sym_in(graph.strings(), d.name@, nsym as int);
            lemma_last_def_index_step(parsed.definitions@, d.name@, di as int);
            assert(spec_def_folded_upto(*graph, osym, ot, pid, *parsed, di as int, di + 1));
            assert forall|k: int| 0 <= k < di implies #[trigger] spec_def_folded_upto(
                *graph,
                osym,
                ot,
                pid,
                *parsed,
                k,
                di + 1,
            ) by {
                let nm = parsed.definitions@[k].name@;
                lemma_last_def_index_step(parsed.definitions@, nm, di as int);
                assert(spec_def_folded_upto(pre, osym, ot, pid, *parsed, k, di as int));
                assert(pre.strings().contains(nm));
                let oi = choose|i: int| 0 <= i < pre.strings().len() && pre.strings()[i] == nm;
                assert(graph.strings()[oi] == nm);
                lemma_sym_in(graph.strings(), nm, oi);
                assert(sym_in(graph.strings(), nm) == sym_in(pre.strings(), nm));
                if nm == d.name@ {
                    assert(spec_qkey(osym, sym_in(graph.strings(), nm)) == spec_qkey(osym, nsym));
                } else {
                    let jx = spec_last_def_index(parsed.definitions@.take(di as int), nm);
                    let ld = parsed.definitions@[jx];
                    if ld.kind is EventSubscriber && ld.event_target_object is Some
                        && ld.event_target_procedure is Some {
                        let tn = crate::strutil::lower_of(ld.event_target_object->0@);
                        let ti = choose|i: int|
                            0 <= i < pre.strings().len() && pre.strings()[i] == tn;
                        assert(graph.strings()[ti] == tn);
                        lemma_sym_in(graph.strings(), tn, ti);
                        lemma_sym_in(pre.strings(), tn, ti);
                        let en = crate::strutil::lower_of(ld.event_target_procedure->0@);
                        let ei = choose|i: int|
                            0 <= i < pre.strings().len() && pre.strings()[i] == en;
                        assert(graph.strings()[ei] == en);
                        lemma_sym_in(graph.strings(), en, ei);
                        lemma_sym_in(pre.strings(), en, ei);
                    }
                }
            }
        }
        di = di + 1;
    }
    proof {
        assert(parsed.definitions@.take(nd as int) =~= parsed.definitions@);
    }
    let ghost after_defs = *graph;

    // Append and resolve the call sites.
    let nc = parsed.calls.len();
    let ghost site_base = after_defs.sites().len() as int;
    let mut ci: usize = 0;
    while ci < nc
        invariant
            graph.wf(),
            nc == parsed.calls@.len(),
            0 <= ci <= nc,
            site_base == after_defs.sites().len() as int,
            after_defs.strings().len() <= graph.strings().len() <= after_defs.strings().len() + 3
                * ci,
            after_defs.strings().len() + 3 * parsed.calls@.len() < 0xFFFF_FFFF,
            forall|i: int|
                0 <= i < after_defs.strings().len() ==> #[trigger] graph.strings()[i]
                    == after_defs.strings()[i],
            (osym as int) < after_defs.strings().len(),
            graph.strings()[osym as int] == oname@,
            graph.paths() == after_defs.paths(),
            graph.path_live(pid as u64),
            graph.objects() == after_defs.objects(),
            graph.ext_objects() == after_defs.ext_objects(),
            graph.ext_defs() == after_defs.ext_defs(),
            graph.vars() == after_defs.vars(),
            graph.file_vars() == after_defs.file_vars(),
            graph.sites().len() == after_defs.sites().len() + ci,
            forall|j: int|
                0 <= j < after_defs.sites().len() ==> #[trigger] graph.sites()[j]
                    == after_defs.sites()[j],
            after_defs.sites().len() + parsed.calls@.len() <= 0xFFFF_FFFF,
            graph.defs() == after_defs.defs(),
            forall|k: int|
                0 <= k < parsed.definitions@.len() ==> spec_def_folded(
                    after_defs,
                    osym,
                    ot,
                    pid,
                    *parsed,
                    k,
                ),
            forall|k: int|
                0 <= k < ci ==> spec_call_folded(site_base, *graph, osym, pid, *parsed, k),
        decreases nc - ci,
    {
        let ghost lh = *graph;
        let call = &parsed.calls[ci];
        let callee_object = match &call.object {
            Some(o) => Some(graph.intern(o.as_str())),
            None => None,
        };
        let callee_method = graph.intern(call.method.as_str());
        let caller = match &call.containing_procedure {
            Some(p) => graph.intern(p.as_str()),
            None => osym,
        };
        let caller_qname = QualifiedName { object: osym, procedure: caller };
        let ghost st = *graph;
        let site = CallSite { file: pid, range: call.range, caller, callee_object, callee_method };
        graph.add_call_site(caller_qname, site);
        proof {
            assert(forall|i: int|
                0 <= i < lh.strings().len() ==> #[trigger] graph.strings()[i]
                    == lh.strings()[i]);
            let idx = site_base + ci;
            assert(graph.sites()[idx] == Some(site));
            assert(spec_call_folded(site_base, *graph, osym, pid, *parsed, ci as int)) by {
                let c = parsed.calls@[ci as int];
                match c.object {
                    Some(o) => {
                        lemma_sym_in(graph.strings(), o@, callee_object->0 as int);
                    },
                    None => {},
                }
                lemma_sym_in(graph.strings(), c.method@, callee_method as int);
                match c.containing_procedure {
                    Some(pn) => {
                        lemma_sym_in(graph.strings(), pn@, caller as int);
                    },
                    None => {},
                }
                assert(adj(graph.outgoing(), spec_qkey(osym, caller)) == adj(
                    st.outgoing(),
                    spec_qkey(osym, caller),
                ).push(idx as CallSiteIdx));
                assert(adj(graph.outgoing(), spec_qkey(osym, caller)).contains(
                    idx as CallSiteIdx,
                )) by {
                    assert(adj(graph.outgoing(), spec_qkey(osym, caller)).last() == (
                    idx as CallSiteIdx));
                }
                let target = crate::graph::spec_resolve_call(st, caller_qname, site);
                assert(adj(graph.incoming(), target.spec_key()) == adj(
                    st.incoming(),
                    target.spec_key(),
                ).push(idx as CallSiteIdx));
                assert(adj(graph.incoming(), target.spec_key()).contains(idx as CallSiteIdx)) by {
                    assert(adj(graph.incoming(), target.spec_key()).last() == (
                    idx as CallSiteIdx));
                }
                lemma_resolve_same(st, *graph, caller_qname, site);
            }
            assert forall|k: int| 0 <= k < ci implies spec_call_folded(
                site_base,
                *graph,
                osym,
                pid,
                *parsed,
                k,
            ) by {
                lemma_call_carries(
                    lh,
                    *graph,
                    site_base,
                    osym,
                    pid,
                    *parsed,
                    k,
                    spec_qkey(osym, caller),
                    crate::graph::spec_resolve_call(st, caller_qname, site).spec_key(),
                    (site_base + ci) as CallSiteIdx,
                );
            }
        }
        ci = ci + 1;
    }
    proof {
        assert forall|k: int| 0 <= k < parsed.definitions@.len() implies spec_def_folded(
            *graph,
            osym,
            ot,
            pid,
            *parsed,
            k,
        ) by {
            let nm = parsed.definitions@[k].name@;
            assert(spec_def_folded_upto(after_defs, osym, ot, pid, *parsed, k, nd as int));
            let oi = choose|i: int|
                0 <= i < after_defs.strings().len() && after_defs.strings()[i] == nm;
            assert(graph.strings()[oi] == nm);
            lemma_sym_in(graph.strings(), nm, oi);
            lemma_sym_in(after_defs.strings(), nm, oi);
            let jx = spec_last_def_index(parsed.definitions@.take(nd as int), nm);
            let ld = parsed.definitions@[jx];
            if ld.kind is EventSubscriber && ld.event_target_object is Some
                && ld.event_target_procedure is Some {
                let tn = crate::strutil::lower_of(ld.event_target_object->0@);
                let ti = choose|i: int|
                    0 <= i < after_defs.strings().len() && after_defs.strings()[i] == tn;
                assert(graph.strings()[ti] == tn);
                lemma_sym_in(graph.strings(), tn, ti);
                lemma_sym_in(after_defs.strings(), tn, ti);
                let en = crate::strutil::lower_of(ld.event_target_procedure->0@);
                let ei = choose|i: int|
                    0 <= i < after_defs.strings().len() && after_defs.strings()[i] == en;
                assert(graph.strings()[ei] == en);
                lemma_sym_in(graph.strings(), en, ei);
                lemma_sym_in(after_defs.strings(), en, ei);
            }
        }
        assert forall|w: int|
            0 <= w < parsed.variables@.len() && spec_var_eligible(
                #[trigger] parsed.variables@[w],
            ) implies spec_binding_folded(*graph, osym, pid, *parsed, w) by {
            assert(spec_binding_folded(after_vars, osym, pid, *parsed, w));
            assert(forall|i: int|
                0 <= i < after_vars.strings().len() ==> #[trigger] graph.strings()[i]
                    == after_vars.strings()[i]);
            assert(graph.vars() == after_vars.vars());
            assert(graph.file_vars() == after_vars.file_vars());
            lemma_binding_carries(
                after_vars,
                *graph,
                osym,
                pid,
                *parsed,
                w,
                0,
                (0, 0),
            );
        }
        assert forall|q: u64| adj(old(graph).vars(), q).is_prefix_of(
            #[trigger] adj(graph.vars(), q),
        ) by {
            assert(adj(base.vars(), q).is_prefix_of(adj(after_vars.vars(), q)));
            assert(adj(old(graph).vars(), q) == adj(base.vars(), q));
            assert(adj(graph.vars(), q) == adj(after_vars.vars(), q));
        }
        assert forall|q: u64| adj(old(graph).file_vars(), q).is_prefix_of(
            #[trigger] adj(graph.file_vars(), q),
        ) by {
            assert(adj(base.file_vars(), q).is_prefix_of(adj(after_vars.file_vars(), q)));
            assert(adj(old(graph).file_vars(), q) == adj(base.file_vars(), q));
            assert(adj(graph.file_vars(), q) == adj(after_vars.file_vars(), q));
        }
        assert(graph.strings().contains(oname@)) by {
            assert(graph.strings()[osym as int] == oname@);
        }
        lemma_sym_in(graph.strings(), oname@, osym as int);
        assert(graph.objects() == after_defs.objects());
        assert(after_defs.objects() == after_vars.objects());
        assert(after_vars.objects() == base.objects());
        lemma_sym_in_paths(graph.paths(), path@, pid as int);
        assert(graph.paths()[pid as int] == Some(path@));
        assert(exists|i: int|
            0 <= i < graph.paths().len() && graph.paths()[i] == Some(path@)) by {
            assert(graph.paths()[pid as int] == Some(path@));
        }
        assert(base.objects() == old(graph).objects().insert(osym as u64, ot));
        assert(forall|i: int|
            0 <= i < old(graph).strings().len() ==> #[trigger] graph.strings()[i] == old(
                graph,
            ).strings()[i]);
        assert(forall|i: int|
            0 <= i < old(graph).paths().len() ==> #[trigger] graph.paths()[i] == old(
                graph,
            ).paths()[i]);
        assert(forall|j: int|
            0 <= j < old(graph).sites().len() ==> #[trigger] graph.sites()[j] == old(
                graph,
            ).sites()[j]);
        assert(site_base == old(graph).sites().len() as int);
    }
}



/// A binding already in a scope survives a later iteration: strings only
/// grow as a prefix, and at most one scope list gains one appended pair.
proof fn lemma_binding_carries(
    pre: CallGraph,
    post: CallGraph,
    osym: u32,
    pid: u32,
    p: ParsedFile,
    w: int,
    touched: u64,
    appended: (u32, u32),
)
    requires
        pre.wf_strings(),
        post.wf_strings(),
        0 <= w < p.variables@.len(),
        spec_var_eligible(p.variables@[w]),
        spec_binding_folded(pre, osym, pid, p, w),
        post.strings().len() >= pre.strings().len(),
        forall|i: int|
            0 <= i < pre.strings().len() ==> #[trigger] post.strings()[i] == pre.strings()[i],
        forall|q: u64|
            #![trigger adj(post.vars(), q)]
            adj(post.vars(), q) == adj(pre.vars(), q) || (q == touched && adj(post.vars(), q)
                == adj(pre.vars(), q).push(appended)),
        adj(post.file_vars(), pid as u64) == adj(pre.file_vars(), pid as u64) || adj(
            post.file_vars(),
            pid as u64,
        ) == adj(pre.file_vars(), pid as u64).push(touched),
    ensures
        spec_binding_folded(post, osym, pid, p, w),
{
    let pv = p.variables@[w];
    let pi = choose|i: int|
        0 <= i < pre.strings().len() && pre.strings()[i] == pv.containing_procedure->0@;
    assert(post.strings()[pi] == pv.containing_procedure->0@);
    lemma_sym_in(post.strings(), pv.containing_procedure->0@, pi);
    lemma_sym_in(pre.strings(), pv.containing_procedure->0@, pi);
    let ni = choose|i: int| 0 <= i < pre.strings().len() && pre.strings()[i] == pv.name@;
    assert(post.strings()[ni] == pv.name@);
    lemma_sym_in(post.strings(), pv.name@, ni);
    lemma_sym_in(pre.strings(), pv.name@, ni);
    let ti = choose|i: int| 0 <= i < pre.strings().len() && pre.strings()[i] == pv.ty_name@;
    assert(post.strings()[ti] == pv.ty_name@);
    lemma_sym_in(post.strings(), pv.ty_name@, ti);
    lemma_sym_in(pre.strings(), pv.ty_name@, ti);
    let key = spec_qkey(osym, sym_in(pre.strings(), pv.containing_procedure->0@));
    let pair = (sym_in(pre.strings(), pv.name@), sym_in(pre.strings(), pv.ty_name@));
    if adj(post.vars(), key) == adj(pre.vars(), key) {
    } else {
        lemma_push_contains(adj(pre.vars(), key), appended, pair);
    }
    if adj(post.file_vars(), pid as u64) == adj(pre.file_vars(), pid as u64) {
    } else {
        lemma_push_contains(adj(pre.file_vars(), pid as u64), touched, key);
    }
}

/// A call already folded survives a later iteration: strings only grow
/// as a prefix, the arena only grows, at most one outgoing and one
/// incoming list gain one appended index, and the resolution inputs
/// stay put.
proof fn lemma_call_carries(
    pre: CallGraph,
    post: CallGraph,
    base: int,
    osym: u32,
    pid: u32,
    p: ParsedFile,
    k: int,
    out_touched: u64,
    in_touched: u64,
    appended: crate::graph::CallSiteIdx,
)
    requires
        pre.wf_strings(),
        post.wf_strings(),
        0 <= k < p.calls@.len(),
        spec_call_folded(base, pre, osym, pid, p, k),
        post.strings().len() >= pre.strings().len(),
        forall|i: int|
            0 <= i < pre.strings().len() ==> #[trigger] post.strings()[i] == pre.strings()[i],
        post.sites().len() >= pre.sites().len(),
        forall|j: int|
            0 <= j < pre.sites().len() ==> #[trigger] post.sites()[j] == pre.sites()[j],
        forall|q: u64|
            #![trigger adj(post.outgoing(), q)]
            adj(post.outgoing(), q) == adj(pre.outgoing(), q) || (q == out_touched && adj(
                post.outgoing(),
                q,
            ) == adj(pre.outgoing(), q).push(appended)),
        forall|q: u64|
            #![trigger adj(post.incoming(), q)]
            adj(post.incoming(), q) == adj(pre.incoming(), q) || (q == in_touched && adj(
                post.incoming(),
                q,
            ) == adj(pre.incoming(), q).push(appended)),
        post.objects() == pre.objects(),
        post.ext_objects() == pre.ext_objects(),
        post.vars() == pre.vars(),
    ensures
        spec_call_folded(base, post, osym, pid, p, k),
{
    let c = p.calls@[k];
    let idx = base + k;
    assert(post.sites()[idx] == pre.sites()[idx]);
    let cs = pre.sites()[idx]->Some_0;
    let mi = choose|i: int| 0 <= i < pre.strings().len() && pre.strings()[i] == c.method@;
    assert(post.strings()[mi] == c.method@);
    lemma_sym_in(post.strings(), c.method@, mi);
    lemma_sym_in(pre.strings(), c.method@, mi);
    match c.object {
        Some(o) => {
            let oi = choose|i: int| 0 <= i < pre.strings().len() && pre.strings()[i] == o@;
            assert(post.strings()[oi] == o@);
            lemma_sym_in(post.strings(), o@, oi);
            lemma_sym_in(pre.strings(), o@, oi);
        },
        None => {},
    }
    match c.containing_procedure {
        Some(pn) => {
            let ci_ = choose|i: int| 0 <= i < pre.strings().len() && pre.strings()[i] == pn@;
            assert(post.strings()[ci_] == pn@);
            lemma_sym_in(post.strings(), pn@, ci_);
            lemma_sym_in(pre.strings(), pn@, ci_);
        },
        None => {},
    }
    let ok = spec_qkey(osym, cs.caller);
    if adj(post.outgoing(), ok) == adj(pre.outgoing(), ok) {
    } else {
        lemma_push_contains(adj(pre.outgoing(), ok), appended, idx as crate::graph::CallSiteIdx);
    }
    lemma_resolve_same(pre, post, QualifiedName { object: osym, procedure: cs.caller }, cs);
    let tk = crate::graph::spec_resolve_call(
        pre,
        QualifiedName { object: osym, procedure: cs.caller },
        cs,
    ).spec_key();
    if adj(post.incoming(), tk) == adj(pre.incoming(), tk) {
    } else {
        lemma_push_contains(adj(pre.incoming(), tk), appended, idx as crate::graph::CallSiteIdx);
    }
}

/// Under distinct strings, the index of a held string is unique.
pub proof fn lemma_sym_in_pub(strings: Seq<Seq<char>>, s: Seq<char>, i: int)
    requires
        strings.len() <= 0xFFFF_FFFF,
        forall|a: int, b: int| 0 <= a < b < strings.len() ==> strings[a] != strings[b],
        0 <= i < strings.len(),
        strings[i] == s,
    ensures
        sym_in(strings, s) as int == i,
        strings.contains(s),
{
    lemma_sym_in(strings, s, i);
}

/// Under distinct strings, the index of a held string is unique.
proof fn lemma_sym_in(strings: Seq<Seq<char>>, s: Seq<char>, i: int)
    requires
        strings.len() <= 0xFFFF_FFFF,
        forall|a: int, b: int| 0 <= a < b < strings.len() ==> strings[a] != strings[b],
        0 <= i < strings.len(),
        strings[i] == s,
    ensures
        sym_in(strings, s) as int == i,
        strings.contains(s),
{
    assert(0 <= i < strings.len() && strings[i] == s);
    let c = choose|j: int| 0 <= j < strings.len() && strings[j] == s;
    if c < i {
        assert(strings[c] != strings[i]);
        assert(false);
    } else if i < c {
        assert(strings[i] != strings[c]);
        assert(false);
    }
}

/// The pool slot a live path occupies.
pub open spec fn sym_in_paths(paths: Seq<Option<Seq<char>>>, s: Seq<char>) -> u32 {
    (choose|i: int| 0 <= i < paths.len() && paths[i] == Some(s)) as u32
}

/// Under distinct live paths, the slot of a held path is unique.
proof fn lemma_sym_in_paths(paths: Seq<Option<Seq<char>>>, s: Seq<char>, i: int)
    requires
        paths.len() <= 0xFFFF_FFFF,
        forall|a: int, b: int|
            0 <= a < b < paths.len() && paths[a] is Some && paths[b] is Some ==> paths[a]
                != paths[b],
        0 <= i < paths.len(),
        paths[i] == Some(s),
    ensures
        sym_in_paths(paths, s) as int == i,
{
    assert(0 <= i < paths.len() && paths[i] == Some(s));
    let c = choose|j: int| 0 <= j < paths.len() && paths[j] == Some(s);
    if c < i {
        assert(paths[c] != paths[i]);
        assert(false);
    } else if i < c {
        assert(paths[i] != paths[c]);
        assert(false);
    }
}

/// Re-indexes one file: removes everything the file contributed, then
/// folds its new content in; a file that no longer exists is only
/// removed. Readers between the two steps never see the old and the new
/// content mixed, because both happen under the same borrow.
pub fn reindex_file(graph: &mut CallGraph, path: &str, parsed: Option<&ParsedFile>)
    requires
        old(graph).wf(),
        match parsed {
            Some(p) => old(graph).strings().len() + spec_fold_budget(*p) < 0xFFFF_FFFF
                && old(graph).paths().len() < 0xFFFF_FFFF && old(graph).sites().len()
                + p.calls@.len() <= 0xFFFF_FFFF && forall|q: u64|
                adj(old(graph).vars(), q).len() + p.variables@.len() < 0xFFFF_FFFF,
            None => true,
        },
    ensures
        final(graph).wf(),
        match parsed {
            Some(p) => exists|mid: CallGraph|
                #[trigger] crate::graph::spec_removed_file(*old(graph), mid, path@) && mid.wf()
                    && spec_folded_file(mid, *final(graph), path@, *p),
            None => crate::graph::spec_removed_file(*old(graph), *final(graph), path@),
        },
{
    graph.remove_file(path);
    let ghost mid = *graph;
    match parsed {
        Some(p) => {
            proof {
                assert forall|q: u64| adj(graph.vars(), q).len() + p.variables@.len()
                    < 0xFFFF_FFFF by {
                    assert(adj(graph.vars(), q).len() <= adj(old(graph).vars(), q).len()) by {
                        if graph.vars().contains_key(q) {
                            assert(old(graph).vars().contains_key(q));
                        }
                    }
                }
            }
            fold_parsed_file(graph, path, p);
            proof {
                assert(crate::graph::spec_removed_file(*old(graph), mid, path@) && mid.wf()
                    && spec_folded_file(mid, *graph, path@, *p));
            }
        },
        None => {},
    }
}

/// One file-system event the watcher reports: a created or modified
/// file, or a deleted one.
pub enum FileChange {
    Modified(String),
    Deleted(String),
}

impl FileChange {
    /// The path the change concerns.
    pub fn path(&self) -> (r: &str)
        ensures
            match self {
                FileChange::Modified(p) => r@ == p@,
                FileChange::Deleted(p) => r@ == p@,
            },
    {
        match self {
            FileChange::Modified(p) => p.as_str(),
            FileChange::Deleted(p) => p.as_str(),
        }
    }

    /// Whether the file still exists and should be parsed again.
    pub fn needs_parse(&self) -> (r: bool)
        ensures
            r == (self is Modified),
    {
        matches!(self, FileChange::Modified(_))
    }
}

/// How many strings folding a package may intern at most: one for the
/// app, one per object and one per method.
pub open spec fn spec_package_budget(p: crate::versions::ParsedAppPackage) -> int
    decreases p.objects@.len(),
{
    1 + spec_objects_budget(p.objects@)
}

pub open spec fn spec_objects_budget(objs: Seq<crate::versions::ExternalObject>) -> int
    decreases objs.len(),
{
    if objs.len() == 0 {
        0
    } else {
        1 + objs[0].methods@.len() + spec_objects_budget(objs.drop_first())
    }
}

/// The position of the last package object with a name, or a negative
/// value when none has it: a repeated name keeps the later object.
pub open spec fn spec_last_ext_index(
    objs: Seq<crate::versions::ExternalObject>,
    nm: Seq<char>,
) -> int
    decreases objs.len(),
{
    if objs.len() == 0 {
        -1
    } else if objs.last().name@ == nm {
        objs.len() - 1
    } else {
        spec_last_ext_index(objs.drop_last(), nm)
    }
}

/// Taking one more object moves the last index of its own name there
/// and leaves every other name's alone.
proof fn lemma_last_ext_index_step(
    objs: Seq<crate::versions::ExternalObject>,
    nm: Seq<char>,
    i: int,
)
    requires
        0 <= i < objs.len(),
    ensures
        spec_last_ext_index(objs.take(i + 1), nm) == if objs[i].name@ == nm {
            i
        } else {
            spec_last_ext_index(objs.take(i), nm)
        },
{
    assert(objs.take(i + 1).drop_last() =~= objs.take(i));
    assert(objs.take(i + 1).last() == objs[i]);
}

/// How many methods a package ships in all.
pub open spec fn spec_method_total(objs: Seq<crate::versions::ExternalObject>) -> int
    decreases objs.len(),
{
    if objs.len() == 0 {
        0
    } else {
        objs[0].methods@.len() + spec_method_total(objs.drop_first())
    }
}

proof fn lemma_method_total_bounds(objs: Seq<crate::versions::ExternalObject>)
    ensures
        0 <= spec_method_total(objs) <= spec_objects_budget(objs),
    decreases objs.len(),
{
    if objs.len() > 0 {
        lemma_method_total_bounds(objs.drop_first());
    }
}

/// One package object stands registered as external under its symbol,
/// judged against the first `hi` objects: a repeated name keeps the
/// later object's declared type.
pub open spec fn spec_ext_obj_folded_upto(
    post: CallGraph,
    p: crate::versions::ParsedAppPackage,
    i: int,
    hi: int,
) -> bool {
    let nm = p.objects@[i].name@;
    let j = spec_last_ext_index(p.objects@.take(hi), nm);
    &&& post.strings().contains(nm)
    &&& 0 <= j < p.objects@.len()
    &&& post.ext_objects().contains_key(sym_in(post.strings(), nm) as u64)
    &&& post.ext_objects()[sym_in(post.strings(), nm) as u64] == p.objects@[j].object_type
}

/// One package object stands registered as external with the declared
/// type of the last object of its name.
pub open spec fn spec_ext_obj_folded(
    post: CallGraph,
    p: crate::versions::ParsedAppPackage,
    i: int,
) -> bool {
    spec_ext_obj_folded_upto(post, p, i, p.objects@.len() as int)
}

/// One method of a package object stands as an external definition:
/// keyed by the object and method symbols, a plain procedure, sourced
/// from this package.
pub open spec fn spec_ext_method_folded(
    post: CallGraph,
    p: crate::versions::ParsedAppPackage,
    i: int,
    j: int,
) -> bool {
    let nm = p.objects@[i].name@;
    let mn = p.objects@[i].methods@[j].name@;
    &&& post.strings().contains(nm)
    &&& post.strings().contains(mn)
    &&& post.strings().contains(p.metadata.name@)
    &&& {
        let os = sym_in(post.strings(), nm);
        let ms = sym_in(post.strings(), mn);
        &&& post.ext_defs().contains_key(spec_qkey(os, ms))
        &&& {
            let ed = post.ext_defs()[spec_qkey(os, ms)];
            &&& ed.object_name == os
            &&& ed.name == ms
            &&& ed.kind is Procedure
            &&& ed.source.app_name == sym_in(post.strings(), p.metadata.name@)
            &&& ed.source.app_version@ == p.metadata.version@
        }
    }
}

/// A folded method entry survives a later step: strings only grow as a
/// prefix, and the external store changes at most by one insert whose
/// value carries its own key's names and this package's source.
proof fn lemma_ext_method_carries(
    pre: CallGraph,
    post: CallGraph,
    p: crate::versions::ParsedAppPackage,
    a: int,
    b: int,
    i_cur: int,
    j_cur: int,
)
    requires
        pre.wf_strings(),
        post.wf_strings(),
        0 <= a < p.objects@.len(),
        0 <= b < p.objects@[a].methods@.len(),
        spec_ext_method_folded(pre, p, a, b),
        post.strings().len() >= pre.strings().len(),
        forall|i: int|
            0 <= i < pre.strings().len() ==> #[trigger] post.strings()[i] == pre.strings()[i],
        0 <= i_cur < p.objects@.len(),
        0 <= j_cur < p.objects@[i_cur].methods@.len(),
        post.strings().contains(p.objects@[i_cur].name@),
        post.strings().contains(p.objects@[i_cur].methods@[j_cur].name@),
        post.strings().contains(p.metadata.name@),
        ({
            let os2 = sym_in(post.strings(), p.objects@[i_cur].name@);
            let ms2 = sym_in(post.strings(), p.objects@[i_cur].methods@[j_cur].name@);
            post.ext_defs() == pre.ext_defs() || (post.ext_defs() == pre.ext_defs().insert(
                spec_qkey(os2, ms2),
                post.ext_defs()[spec_qkey(os2, ms2)],
            ) && {
                let ed = post.ext_defs()[spec_qkey(os2, ms2)];
                &&& ed.object_name == os2
                &&& ed.name == ms2
                &&& ed.kind is Procedure
                &&& ed.source.app_name == sym_in(post.strings(), p.metadata.name@)
                &&& ed.source.app_version@ == p.metadata.version@
            })
        }),
    ensures
        spec_ext_method_folded(post, p, a, b),
{
    let nm = p.objects@[a].name@;
    let mn = p.objects@[a].methods@[b].name@;
    let ni = choose|i: int| 0 <= i < pre.strings().len() && pre.strings()[i] == nm;
    assert(post.strings()[ni] == nm);
    lemma_sym_in(post.strings(), nm, ni);
    lemma_sym_in(pre.strings(), nm, ni);
    let mi = choose|i: int| 0 <= i < pre.strings().len() && pre.strings()[i] == mn;
    assert(post.strings()[mi] == mn);
    lemma_sym_in(post.strings(), mn, mi);
    lemma_sym_in(pre.strings(), mn, mi);
    let ai = choose|i: int| 0 <= i < pre.strings().len() && pre.strings()[i] == p.metadata.name@;
    assert(post.strings()[ai] == p.metadata.name@);
    lemma_sym_in(post.strings(), p.metadata.name@, ai);
    lemma_sym_in(pre.strings(), p.metadata.name@, ai);
    let os = sym_in(post.strings(), nm);
    let ms = sym_in(post.strings(), mn);
    if post.ext_defs() == pre.ext_defs() {
    } else {
        let os2 = sym_in(post.strings(), p.objects@[i_cur].name@);
        let ms2 = sym_in(post.strings(), p.objects@[i_cur].methods@[j_cur].name@);
        if spec_qkey(os, ms) == spec_qkey(os2, ms2) {
            crate::laws::lemma_qkey_injective(
                QualifiedName { object: os, procedure: ms },
                QualifiedName { object: os2, procedure: ms2 },
            );
        }
    }
}

/// Registers a dependency package's objects as external and adds one
/// external definition per method; externals never shadow local
/// definitions. Returns how many definitions were added: the package's
/// whole method count.
pub fn fold_external_package(
    graph: &mut CallGraph,
    package: &crate::versions::ParsedAppPackage,
) -> (count: usize)
    requires
        old(graph).wf(),
        old(graph).strings().len() + spec_package_budget(*package) < 0xFFFF_FFFF,
    ensures
        final(graph).wf(),
        final(graph).strings().len() >= old(graph).strings().len(),
        forall|i: int|
            0 <= i < old(graph).strings().len() ==> #[trigger] final(graph).strings()[i] == old(
                graph,
            ).strings()[i],
        final(graph).defs() == old(graph).defs(),
        final(graph).sites() == old(graph).sites(),
        final(graph).paths() == old(graph).paths(),
        final(graph).incoming() == old(graph).incoming(),
        final(graph).outgoing() == old(graph).outgoing(),
        final(graph).objects() == old(graph).objects(),
        final(graph).vars() == old(graph).vars(),
        final(graph).file_defs() == old(graph).file_defs(),
        final(graph).file_vars() == old(graph).file_vars(),
        final(graph).file_sites() == old(graph).file_sites(),
        final(graph).subs() == old(graph).subs(),
        forall|i: int|
            0 <= i < package.objects@.len() ==> spec_ext_obj_folded(*final(graph), *package, i),
        forall|i: int, j: int|
            0 <= i < package.objects@.len() && 0 <= j < package.objects@[i].methods@.len()
                ==> #[trigger] spec_ext_method_folded(*final(graph), *package, i, j),
        count == spec_method_total(package.objects@),
{
    let ghost g0 = *graph;
    proof {
        lemma_objects_budget_nonneg(package.objects@);
        lemma_method_total_bounds(package.objects@);
    }
    let app_sym = graph.intern(package.metadata.name.as_str());
    proof {
        lemma_sym_in(graph.strings(), package.metadata.name@, app_sym as int);
    }
    let app_version = package.metadata.version.clone();
    let mut count: usize = 0;
    let n = package.objects.len();
    let ghost objs = package.objects@;
    proof {
        assert(objs.skip(0) =~= objs);
        assert(objs.take(0) =~= Seq::<crate::versions::ExternalObject>::empty());
    }
    let mut i: usize = 0;
    while i < n
        invariant
            graph.wf(),
            n == objs.len(),
            package.objects@ == objs,
            0 <= i <= n,
            count + spec_method_total(objs.skip(i as int)) == spec_method_total(objs),
            0 <= spec_method_total(objs) <= spec_objects_budget(objs) < 0xFFFF_FFFF,
            graph.strings().len() + spec_objects_budget(objs.skip(i as int)) < 0xFFFF_FFFF,
            graph.strings().len() >= g0.strings().len(),
            forall|t: int|
                0 <= t < g0.strings().len() ==> #[trigger] graph.strings()[t]
                    == g0.strings()[t],
            (app_sym as int) < graph.strings().len(),
            graph.strings()[app_sym as int] == package.metadata.name@,
            app_version@ == package.metadata.version@,
            graph.defs() == g0.defs(),
            graph.sites() == g0.sites(),
            graph.paths() == g0.paths(),
            graph.incoming() == g0.incoming(),
            graph.outgoing() == g0.outgoing(),
            graph.objects() == g0.objects(),
            graph.vars() == g0.vars(),
            graph.file_defs() == g0.file_defs(),
            graph.file_vars() == g0.file_vars(),
            graph.file_sites() == g0.file_sites(),
            graph.subs() == g0.subs(),
            forall|a: int|
                0 <= a < i ==> #[trigger] spec_ext_obj_folded_upto(*graph, *package, a, i as int),
            forall|a: int, b: int|
                0 <= a < i && 0 <= b < objs[a].methods@.len()
                    ==> #[trigger] spec_ext_method_folded(*graph, *package, a, b),
        decreases n - i,
    {
        let ghost lh = *graph;
        let obj = &package.objects[i];
        proof {
            assert(objs.skip(i as int)[0] == objs[i as int]);
            assert(objs.skip(i as int).drop_first() =~= objs.skip(i + 1));
            lemma_objects_budget_nonneg(objs.skip(i + 1));
            lemma_method_total_bounds(objs.skip(i + 1));
        }
        let obj_sym = graph.intern(obj.name.as_str());
        graph.register_external_object(obj_sym, obj.object_type);
        proof {
            assert(forall|t: int|
                0 <= t < lh.strings().len() ==> #[trigger] graph.strings()[t]
                    == lh.strings()[t]);
            lemma_sym_in(graph.strings(), obj.name@, obj_sym as int);
            lemma_last_ext_index_step(objs, obj.name@, i as int);
            assert(spec_ext_obj_folded_upto(*graph, *package, i as int, i + 1)) by {
                assert(objs.take(i + 1)[i as int] == objs[i as int]);
            }
            assert forall|a: int| 0 <= a < i implies #[trigger] spec_ext_obj_folded_upto(
                *graph,
                *package,
                a,
                i + 1,
            ) by {
                let nm = objs[a].name@;
                assert(spec_ext_obj_folded_upto(lh, *package, a, i as int));
                let ni = choose|t: int| 0 <= t < lh.strings().len() && lh.strings()[t] == nm;
                assert(graph.strings()[ni] == nm);
                lemma_sym_in(graph.strings(), nm, ni);
                lemma_sym_in(lh.strings(), nm, ni);
                lemma_last_ext_index_step(objs, nm, i as int);
                if objs[i as int].name@ == nm {
                    lemma_sym_in(graph.strings(), nm, obj_sym as int);
                }
            }
            assert forall|a: int, b: int|
                0 <= a < i && 0 <= b < objs[a].methods@.len()
                    implies #[trigger] spec_ext_method_folded(*graph, *package, a, b) by {
                assert(spec_ext_method_folded(lh, *package, a, b));
                let nm = objs[a].name@;
                let ni = choose|t: int| 0 <= t < lh.strings().len() && lh.strings()[t] == nm;
                assert(graph.strings()[ni] == nm);
                let mn = objs[a].methods@[b].name@;
                let mi = choose|t: int| 0 <= t < lh.strings().len() && lh.strings()[t] == mn;
                assert(graph.strings()[mi] == mn);
                let an = package.metadata.name@;
                let ai = choose|t: int| 0 <= t < lh.strings().len() && lh.strings()[t] == an;
                assert(graph.strings()[ai] == an);
                lemma_ext_method_carries(lh, *graph, *package, a, b, a, b);
            }
        }
        let m = obj.methods.len();
        let ghost methods = obj.methods@;
        let ghost after_reg = *graph;
        let mut j: usize = 0;
        while j < m
            invariant
                graph.wf(),
                n == objs.len(),
                package.objects@ == objs,
                0 <= i < n,
                obj == package.objects@[i as int],
                m == methods.len(),
                obj.methods@ == methods,
                0 <= j <= m,
                count + (methods.len() - j) + spec_method_total(objs.skip(i + 1))
                    == spec_method_total(objs),
                0 <= spec_method_total(objs) <= spec_objects_budget(objs) < 0xFFFF_FFFF,
                0 <= spec_method_total(objs.skip(i + 1)),
                graph.strings().len() + (methods.len() - j) + spec_objects_budget(
                    objs.skip(i + 1),
                ) < 0xFFFF_FFFF,
                spec_objects_budget(objs.skip(i + 1)) >= 0,
                graph.strings().len() >= after_reg.strings().len(),
                forall|t: int|
                    0 <= t < after_reg.strings().len() ==> #[trigger] graph.strings()[t]
                        == after_reg.strings()[t],
                after_reg.strings().len() >= g0.strings().len(),
                forall|t: int|
                    0 <= t < g0.strings().len() ==> #[trigger] after_reg.strings()[t]
                        == g0.strings()[t],
                (app_sym as int) < after_reg.strings().len(),
                after_reg.strings()[app_sym as int] == package.metadata.name@,
                (obj_sym as int) < after_reg.strings().len(),
                after_reg.strings()[obj_sym as int] == obj.name@,
                app_version@ == package.metadata.version@,
                graph.defs() == g0.defs(),
                graph.sites() == g0.sites(),
                graph.paths() == g0.paths(),
                graph.incoming() == g0.incoming(),
                graph.outgoing() == g0.outgoing(),
                graph.objects() == g0.objects(),
                graph.vars() == g0.vars(),
                graph.file_defs() == g0.file_defs(),
                graph.file_vars() == g0.file_vars(),
                graph.file_sites() == g0.file_sites(),
                graph.subs() == g0.subs(),
                graph.ext_objects() == after_reg.ext_objects(),
                forall|a: int|
                    0 <= a < i + 1 ==> #[trigger] spec_ext_obj_folded_upto(
                        *graph,
                        *package,
                        a,
                        i + 1,
                    ),
                forall|a: int, b: int|
                    0 <= a < i && 0 <= b < objs[a].methods@.len()
                        ==> #[trigger] spec_ext_method_folded(*graph, *package, a, b),
                forall|b: int|
                    0 <= b < j ==> spec_ext_method_folded(*graph, *package, i as int, b),
            decreases m - j,
        {
            let ghost mh = *graph;
            let method_sym = graph.intern(obj.methods[j].name.as_str());
            graph.add_external_definition(
                crate::graph::ExternalDefinition {
                    source: crate::graph::ExternalSource {
                        app_name: app_sym,
                        app_version: app_version.clone(),
                    },
                    object_type: obj.object_type,
                    object_name: obj_sym,
                    name: method_sym,
                    kind: crate::graph::DefinitionKind::Procedure,
                },
            );
            proof {
                assert(forall|t: int|
                    0 <= t < mh.strings().len() ==> #[trigger] graph.strings()[t]
                        == mh.strings()[t]);
                lemma_sym_in(graph.strings(), methods[j as int].name@, method_sym as int);
                lemma_sym_in(graph.strings(), obj.name@, obj_sym as int);
                lemma_sym_in(graph.strings(), package.metadata.name@, app_sym as int);
                assert(spec_ext_method_folded(*graph, *package, i as int, j as int));
                assert forall|a: int, b: int|
                    0 <= a < i && 0 <= b < objs[a].methods@.len()
                        implies #[trigger] spec_ext_method_folded(*graph, *package, a, b) by {
                    lemma_ext_method_carries(mh, *graph, *package, a, b, i as int, j as int);
                }
                assert forall|b: int| 0 <= b < j implies spec_ext_method_folded(
                    *graph,
                    *package,
                    i as int,
                    b,
                ) by {
                    lemma_ext_method_carries(mh, *graph, *package, i as int, b, i as int, j as int);
                }
                assert forall|a: int| 0 <= a < i + 1 implies #[trigger] spec_ext_obj_folded_upto(
                    *graph,
                    *package,
                    a,
                    i + 1,
                ) by {
                    let nm = objs[a].name@;
                    assert(spec_ext_obj_folded_upto(mh, *package, a, i + 1));
                    let ni = choose|t: int|
                        0 <= t < mh.strings().len() && mh.strings()[t] == nm;
                    assert(graph.strings()[ni] == nm);
                    lemma_sym_in(graph.strings(), nm, ni);
                    lemma_sym_in(mh.strings(), nm, ni);
                }
            }
            count = count + 1;
            j = j + 1;
        }
        proof {
            assert forall|a: int| 0 <= a < i + 1 implies #[trigger] spec_ext_obj_folded_upto(
                *graph,
                *package,
                a,
                i + 1,
            ) by {
                assert(spec_ext_obj_folded_upto(*graph, *package, a, i + 1));
            }
        }
        i = i + 1;
    }
    proof {
        assert(objs.skip(n as int).len() == 0);
        assert forall|a: int| 0 <= a < n implies #[trigger] spec_ext_obj_folded(*graph, *package, a) by {
            assert(spec_ext_obj_folded_upto(*graph, *package, a, n as int));
            assert(objs.take(n as int) =~= objs);
        }
    }
    count
}

/// A package's intern budget never runs negative.
proof fn lemma_objects_budget_nonneg(objs: Seq<crate::versions::ExternalObject>)
    ensures
        spec_objects_budget(objs) >= 0,
    decreases objs.len(),
{
    if objs.len() > 0 {
        lemma_objects_budget_nonneg(objs.drop_first());
    }
}

} // verus!
