//! The pure logic of the language-server queries: the call-hierarchy
//! item at a position, the incoming and outgoing calls of one, the code
//! lenses of a file, and the diagnostics over the whole graph. The
//! transport layer turns these values into protocol messages.

use vstd::prelude::*;
use vstd::string::StringExecFns;

use crate::graph::{
    adj, CallGraph, Definition, DefinitionKind, PathId, QualifiedName, TextRange,
};
use crate::spec_qkey;
use crate::strutil::{dec_digits, u32_to_string};
use crate::syntax::{capped, spec_span_lines};

verus! {

/// How serious a diagnostic is.
#[derive(Clone, Copy, Debug, PartialEq, Eq)]
pub enum Severity {
    Warning,
    Information,
    Hint,
}

/// One diagnostic, attached to a file.
pub struct Diagnostic {
    pub file: PathId,
    pub range: TextRange,
    pub severity: Severity,
    pub code: String,
    pub message: String,
}

/// A diagnostic, by value.
pub open spec fn diag_view(d: Diagnostic) -> (PathId, TextRange, Severity, Seq<char>, Seq<char>) {
    (d.file, d.range, d.severity, d.code@, d.message@)
}

/// `lead` + `label` + `mid` + the number + `tail`.
pub open spec fn spec_msg5(
    lead: Seq<char>,
    label: Seq<char>,
    mid: Seq<char>,
    num: nat,
    tail: Seq<char>,
) -> Seq<char> {
    lead + label + mid + dec_digits(num) + tail
}

/// `object.procedure` from the graph's strings.
pub open spec fn spec_label_of(g: CallGraph, d: Definition) -> Seq<char> {
    g.strings()[d.object_name as int] + seq!['.'] + g.strings()[d.name as int]
}

/// Builds `lead` + `label` + `mid` + number + `tail`.
fn msg5(lead: &str, label: &str, mid: &str, num: u32, tail: &str) -> (r: String)
    ensures
        r@ == spec_msg5(lead@, label@, mid@, num as nat, tail@),
{
    let mut s = lead.to_owned();
    s.append(label);
    s.append(mid);
    let v = u32_to_string(num);
    s.append(v.as_str());
    s.append(tail);
    proof {
        assert(s@ =~= spec_msg5(lead@, label@, mid@, num as nat, tail@));
    }
    s
}

/// `object.procedure` for a definition of a well-formed graph.
fn label_of(g: &CallGraph, d: &Definition) -> (r: String)
    requires
        g.wf(),
        (d.object_name as int) < g.strings().len(),
        (d.name as int) < g.strings().len(),
    ensures
        r@ == spec_label_of(*g, *d),
{
    let obj = match g.resolve(d.object_name) {
        Some(t) => t.to_owned(),
        None => String::new(),
    };
    let mut s = obj;
    s.append(".");
    let pn = match g.resolve(d.name) {
        Some(t) => t,
        None => "",
    };
    s.append(pn);
    proof {
        reveal_strlit(".");
        assert("."@ =~= seq!['.']);
        assert(s@ =~= spec_label_of(*g, *d));
    }
    s
}

/// The diagnostics one definition earns from its metrics and fan-in.
pub open spec fn spec_quality_diags_of(g: CallGraph, d: Definition) -> Seq<
    (PathId, TextRange, Severity, Seq<char>, Seq<char>),
> {
    let label = spec_label_of(g, d);
    let fan_in = adj(g.incoming(), spec_qkey(d.object_name, d.name)).len();
    let lines = spec_span_lines(d.range);
    let comp: Seq<(PathId, TextRange, Severity, Seq<char>, Seq<char>)> = if d.complexity >= 10 {
        seq![
            (
                d.file,
                d.range,
                Severity::Warning,
                "high-complexity"@,
                spec_msg5(
                    "Procedure '"@,
                    label,
                    "' has cyclomatic complexity "@,
                    d.complexity as nat,
                    " (critical threshold: 10) - consider simplifying"@,
                ),
            ),
        ]
    } else if d.complexity >= 5 {
        seq![
            (
                d.file,
                d.range,
                Severity::Information,
                "high-complexity"@,
                spec_msg5(
                    "Procedure '"@,
                    label,
                    "' has cyclomatic complexity "@,
                    d.complexity as nat,
                    " (warning threshold: 5)"@,
                ),
            ),
        ]
    } else {
        Seq::empty()
    };
    let params: Seq<(PathId, TextRange, Severity, Seq<char>, Seq<char>)> = if d.parameter_count
        >= 7 {
        seq![
            (
                d.file,
                d.range,
                Severity::Warning,
                "too-many-parameters"@,
                spec_msg5(
                    "Procedure '"@,
                    label,
                    "' has "@,
                    d.parameter_count as nat,
                    " parameters (critical threshold: 7) - consider using a record or reducing parameters"@,
                ),
            ),
        ]
    } else if d.parameter_count >= 4 {
        seq![
            (
                d.file,
                d.range,
                Severity::Information,
                "too-many-parameters"@,
                spec_msg5(
                    "Procedure '"@,
                    label,
                    "' has "@,
                    d.parameter_count as nat,
                    " parameters (warning threshold: 4)"@,
                ),
            ),
        ]
    } else {
        Seq::empty()
    };
    let fan: Seq<(PathId, TextRange, Severity, Seq<char>, Seq<char>)> = if fan_in > 20 {
        seq![
            (
                d.file,
                d.range,
                Severity::Information,
                "high-fan-in"@,
                spec_msg5(
                    "Procedure '"@,
                    label,
                    "' has "@,
                    capped(fan_in),
                    " callers - consider if it's doing too much"@,
                ),
            ),
        ]
    } else {
        Seq::empty()
    };
    let long: Seq<(PathId, TextRange, Severity, Seq<char>, Seq<char>)> = if lines > 50 {
        seq![
            (
                d.file,
                d.range,
                Severity::Information,
                "long-method"@,
                spec_msg5(
                    "Procedure '"@,
                    label,
                    "' spans "@,
                    lines,
                    " lines - consider breaking it down"@,
                ),
            ),
        ]
    } else {
        Seq::empty()
    };
    comp + params + fan + long
}

/// The code-quality diagnostics of a list of definitions, in order.
pub open spec fn spec_quality_diags(g: CallGraph, defs: Seq<Definition>) -> Seq<
    (PathId, TextRange, Severity, Seq<char>, Seq<char>),
>
    decreases defs.len(),
{
    if defs.len() == 0 {
        Seq::empty()
    } else {
        spec_quality_diags_of(g, defs[0]) + spec_quality_diags(g, defs.drop_first())
    }
}

/// The code-quality diagnostics of every definition: complexity at five
/// and ten, parameters at four and seven, fan-in over twenty, and spans
/// over fifty lines.
pub fn get_code_quality_diagnostics(graph: &CallGraph) -> (r: Vec<Diagnostic>)
    requires
        graph.wf(),
    ensures
        r@.map_values(|d: Diagnostic| diag_view(d)) == spec_quality_diags(
            *graph,
            graph.defs_kv().map_values(|p: (u64, Definition)| p.1),
        ),
{
    let defs = graph.definitions_vec();
    let ghost dl = defs@;
    proof {
        assert(dl.skip(0) =~= dl);
    }
    let mut r: Vec<Diagnostic> = Vec::new();
    proof {
        assert(r@.map_values(|d: Diagnostic| diag_view(d)) =~= Seq::<
            (PathId, TextRange, Severity, Seq<char>, Seq<char>),
        >::empty());
    }
    let n = defs.len();
    let mut t: usize = 0;
    while t < n
        invariant
            graph.wf(),
            defs@ == dl,
            n == dl.len(),
            0 <= t <= n,
            forall|j: int|
                0 <= j < dl.len() ==> graph.defs_kv().map_values(|p: (u64, Definition)| p.1)[j]
                    == #[trigger] dl[j],
            dl == graph.defs_kv().map_values(|p: (u64, Definition)| p.1),
            r@.map_values(|d: Diagnostic| diag_view(d)) + spec_quality_diags(
                *graph,
                dl.skip(t as int),
            ) == spec_quality_diags(*graph, dl),
        decreases n - t,
    {
        let ghost r_pre = r@.map_values(|d: Diagnostic| diag_view(d));
        proof {
            assert(dl.skip(t as int)[0] == dl[t as int]);
            assert(dl.skip(t as int).drop_first() =~= dl.skip(t + 1));
            graph.definitions_lemma(t as int);
        }
        let d = &defs[t];
        proof {
            assert(graph.defs_kv()[t as int].1 == dl[t as int]);
            assert(graph.defs().contains_key(graph.defs_kv()[t as int].0));
            assert(graph.defs()[graph.defs_kv()[t as int].0] == dl[t as int]);
            assert((d.object_name as int) < graph.strings().len() && (d.name as int)
                < graph.strings().len());
        }
        let label = label_of(graph, d);
        let qname = QualifiedName { object: d.object_name, procedure: d.name };
        let fan_in = graph.get_incoming_call_count(&qname);
        let lines = crate::syntax::span_lines(&d.range);
        if d.complexity >= 10 {
            r.push(
                Diagnostic {
                    file: d.file,
                    range: d.range,
                    severity: Severity::Warning,
                    code: lit_owned("high-complexity"),
                    message: msg5(
                        "Procedure '",
                        label.as_str(),
                        "' has cyclomatic complexity ",
                        d.complexity,
                        " (critical threshold: 10) - consider simplifying",
                    ),
                },
            );
        } else if d.complexity >= 5 {
            r.push(
                Diagnostic {
                    file: d.file,
                    range: d.range,
                    severity: Severity::Information,
                    code: lit_owned("high-complexity"),
                    message: msg5(
                        "Procedure '",
                        label.as_str(),
                        "' has cyclomatic complexity ",
                        d.complexity,
                        " (warning threshold: 5)",
                    ),
                },
            );
        }
        if d.parameter_count >= 7 {
            r.push(
                Diagnostic {
                    file: d.file,
                    range: d.range,
                    severity: Severity::Warning,
                    code: lit_owned("too-many-parameters"),
                    message: msg5(
                        "Procedure '",
                        label.as_str(),
                        "' has ",
                        d.parameter_count,
                        " parameters (critical threshold: 7) - consider using a record or reducing parameters",
                    ),
                },
            );
        } else if d.parameter_count >= 4 {
            r.push(
                Diagnostic {
                    file: d.file,
                    range: d.range,
                    severity: Severity::Information,
                    code: lit_owned("too-many-parameters"),
                    message: msg5(
                        "Procedure '",
                        label.as_str(),
                        "' has ",
                        d.parameter_count,
                        " parameters (warning threshold: 4)",
                    ),
                },
            );
        }
        if fan_in > 20 {
            let fan32: u32 = if fan_in > 0xFFFF_FFFFusize {
                0xFFFF_FFFFu32
            } else {
                fan_in as u32
            };
            r.push(
                Diagnostic {
                    file: d.file,
                    range: d.range,
                    severity: Severity::Information,
                    code: lit_owned("high-fan-in"),
                    message: msg5(
                        "Procedure '",
                        label.as_str(),
                        "' has ",
                        fan32,
                        " callers - consider if it's doing too much",
                    ),
                },
            );
        }
        if lines > 50 {
            r.push(
                Diagnostic {
                    file: d.file,
                    range: d.range,
                    severity: Severity::Information,
                    code: lit_owned("long-method"),
                    message: msg5(
                        "Procedure '",
                        label.as_str(),
                        "' spans ",
                        lines,
                        " lines - consider breaking it down",
                    ),
                },
            );
        }
        proof {
            reveal_strlit("Procedure '");
            reveal_strlit("' has cyclomatic complexity ");
            reveal_strlit(" (critical threshold: 10) - consider simplifying");
            reveal_strlit(" (warning threshold: 5)");
            reveal_strlit("' has ");
            reveal_strlit(
                " parameters (critical threshold: 7) - consider using a record or reducing parameters",
            );
            reveal_strlit(" parameters (warning threshold: 4)");
            reveal_strlit(" callers - consider if it's doing too much");
            reveal_strlit("' spans ");
            reveal_strlit(" lines - consider breaking it down");
            reveal_strlit("high-complexity");
            reveal_strlit("too-many-parameters");
            reveal_strlit("high-fan-in");
            reveal_strlit("long-method");
            assert(r@.map_values(|d: Diagnostic| diag_view(d)) =~= r_pre + spec_quality_diags_of(
                *graph,
                dl[t as int],
            ));
            let a = r_pre;
            let b = spec_quality_diags_of(*graph, dl[t as int]);
            let c = spec_quality_diags(*graph, dl.skip(t + 1));
            assert((a + b) + c =~= a + (b + c));
        }
        t = t + 1;
    }
    proof {
        assert(dl.skip(n as int).len() == 0);
        assert(r@.map_values(|d: Diagnostic| diag_view(d)) + Seq::<
            (PathId, TextRange, Severity, Seq<char>, Seq<char>),
        >::empty() =~= r@.map_values(|d: Diagnostic| diag_view(d)));
    }
    r
}

/// An owned copy of a literal.
fn lit_owned(s: &str) -> (r: String)
    ensures
        r@ == s@,
{
    s.to_owned()
}

/// The hint one unused procedure earns.
pub open spec fn spec_unused_diag_of(g: CallGraph, d: Definition) -> (
    PathId,
    TextRange,
    Severity,
    Seq<char>,
    Seq<char>,
) {
    (
        d.file,
        d.range,
        Severity::Hint,
        "unused-procedure"@,
        "Procedure '"@ + spec_label_of(g, d) + "' is never called"@,
    )
}

/// One hint per procedure that nothing calls.
pub fn get_unused_procedure_diagnostics(graph: &CallGraph) -> (r: Vec<Diagnostic>)
    requires
        graph.wf(),
    ensures
        ({
            let unused = crate::graph::spec_unused_of(*graph, graph.defs_kv());
            &&& r@.len() == unused.len()
            &&& forall|t: int|
                0 <= t < r@.len() ==> diag_view(#[trigger] r@[t]) == spec_unused_diag_of(
                    *graph,
                    unused[t],
                )
        }),
{
    let unused = graph.get_unused_procedures();
    let ghost ul = unused@;
    proof {
        lemma_defs_kv_entries(*graph);
        lemma_unused_syms(*graph, graph.defs_kv());
    }
    let mut r: Vec<Diagnostic> = Vec::new();
    let n = unused.len();
    let mut t: usize = 0;
    while t < n
        invariant
            graph.wf(),
            unused@ == ul,
            ul == crate::graph::spec_unused_of(*graph, graph.defs_kv()),
            forall|j: int|
                0 <= j < ul.len() ==> ((#[trigger] ul[j]).object_name as int)
                    < graph.strings().len() && (ul[j].name as int) < graph.strings().len(),
            n == ul.len(),
            0 <= t <= n,
            r@.len() == t,
            forall|j: int|
                0 <= j < t ==> diag_view(#[trigger] r@[j]) == spec_unused_diag_of(*graph, ul[j]),
        decreases n - t,
    {
        let d = &unused[t];
        let label = label_of(graph, d);
        let mut message = lit_owned("Procedure '");
        message.append(label.as_str());
        message.append("' is never called");
        proof {
            reveal_strlit("Procedure '");
            reveal_strlit("' is never called");
            reveal_strlit("unused-procedure");
            assert(message@ =~= "Procedure '"@ + spec_label_of(*graph, ul[t as int])
                + "' is never called"@);
        }
        r.push(
            Diagnostic {
                file: d.file,
                range: d.range,
                severity: Severity::Hint,
                code: lit_owned("unused-procedure"),
                message,
            },
        );
        t = t + 1;
    }
    r
}

/// Every definition an unused-procedure pass hands out carries interned
/// symbols.
proof fn lemma_unused_syms(g: CallGraph, entries: Seq<(u64, Definition)>)
    requires
        g.wf(),
        forall|i: int|
            0 <= i < entries.len() ==> g.defs().contains_key(#[trigger] entries[i].0)
                && g.defs()[entries[i].0] == entries[i].1,
    ensures
        forall|j: int|
            0 <= j < crate::graph::spec_unused_of(g, entries).len() ==> ((
            #[trigger] crate::graph::spec_unused_of(g, entries)[j]).object_name as int)
                < g.strings().len() && (crate::graph::spec_unused_of(g, entries)[j].name as int)
                < g.strings().len(),
    decreases entries.len(),
{
    if entries.len() > 0 {
        assert(forall|i: int|
            0 <= i < entries.drop_first().len() ==> g.defs().contains_key(
                #[trigger] entries.drop_first()[i].0,
            ) && g.defs()[entries.drop_first()[i].0] == entries.drop_first()[i].1);
        lemma_unused_syms(g, entries.drop_first());
        let u = crate::graph::spec_unused_of(g, entries);
        let rest = crate::graph::spec_unused_of(g, entries.drop_first());
        if crate::graph::spec_is_unused(g, entries[0].0, entries[0].1) {
            assert forall|j: int| 0 <= j < u.len() implies ((#[trigger] u[j]).object_name as int)
                < g.strings().len() && (u[j].name as int) < g.strings().len() by {
                if j == 0 {
                    assert(g.defs().contains_key(entries[0].0));
                } else {
                    assert(u[j] == rest[j - 1]);
                }
            }
        }
    }
}

/// The caller of `get_unused_procedure_diagnostics` also needs the list's
/// entries to come from the graph; the graph's own entry lemma supplies
/// that.
pub proof fn lemma_defs_kv_entries(g: CallGraph)
    requires
        g.wf(),
    ensures
        forall|i: int|
            0 <= i < g.defs_kv().len() ==> g.defs().contains_key(#[trigger] g.defs_kv()[i].0)
                && g.defs()[g.defs_kv()[i].0] == g.defs_kv()[i].1,
{
    assert forall|i: int| 0 <= i < g.defs_kv().len() implies g.defs().contains_key(
        #[trigger] g.defs_kv()[i].0,
    ) && g.defs()[g.defs_kv()[i].0] == g.defs_kv()[i].1 by {
        g.definitions_lemma(i);
    }
}


/// A call-hierarchy item: one definition, with its names resolved.
pub struct HierarchyItem {
    pub name: String,
    pub detail: String,
    pub object: String,
    pub procedure: String,
    pub kind: DefinitionKind,
    pub file: PathId,
    pub range: TextRange,
}

/// Finds the definition at a position and shapes it into a hierarchy
/// item carrying the object and procedure names for follow-up queries;
/// a position outside every definition of the file yields nothing.
pub fn prepare_call_hierarchy(graph: &CallGraph, file: &str, line: u32, character: u32) -> (r:
    Option<HierarchyItem>)
    requires
        graph.wf(),
    ensures
        ({
            if exists|i: int| 0 <= i < graph.paths().len() && graph.paths()[i] == Some(file@) {
                let i = choose|i: int|
                    0 <= i < graph.paths().len() && graph.paths()[i] == Some(file@);
                let found = crate::graph::spec_first_def_at(
                    *graph,
                    adj(graph.file_defs(), i as u64),
                    line,
                    character,
                );
                match r {
                    Some(item) => match found {
                        Some(d) => {
                            &&& item.name@ == graph.strings()[d.name as int]
                            &&& item.object@ == graph.strings()[d.object_name as int]
                            &&& item.procedure@ == graph.strings()[d.name as int]
                            &&& item.detail@ == spec_label_of(*graph, d)
                            &&& item.kind == d.kind
                            &&& item.file == d.file
                            &&& item.range == d.range
                        },
                        None => false,
                    },
                    None => found is None,
                }
            } else {
                r is None
            }
        }),
{
    let found = graph.find_definition_at(file, line, character);
    match found {
        Some(d) => {
            proof {
                let i = choose|i: int|
                    0 <= i < graph.paths().len() && graph.paths()[i] == Some(file@);
                lemma_first_def_at_found(
                    *graph,
                    adj(graph.file_defs(), i as u64),
                    line,
                    character,
                    d,
                );
            }
            let name = match graph.resolve(d.name) {
                Some(t) => t.to_owned(),
                None => String::new(),
            };
            let object = match graph.resolve(d.object_name) {
                Some(t) => t.to_owned(),
                None => String::new(),
            };
            let detail = label_of(graph, &d);
            Some(
                HierarchyItem {
                    name: name.clone(),
                    detail,
                    object,
                    procedure: name,
                    kind: d.kind,
                    file: d.file,
                    range: d.range,
                },
            )
        },
        None => None,
    }
}

/// A definition found at a position is stored under its own key and
/// carries interned symbols.
proof fn lemma_first_def_at_found(
    g: CallGraph,
    list: Seq<u64>,
    line: u32,
    character: u32,
    d: Definition,
)
    requires
        g.wf(),
        crate::graph::spec_first_def_at(g, list, line, character) == Some(d),
    ensures
        crate::graph::spec_pos_in_range(d.range, line, character),
        g.defs().contains_key(spec_qkey(d.object_name, d.name)),
        g.defs()[spec_qkey(d.object_name, d.name)] == d,
        (d.object_name as int) < g.strings().len(),
        (d.name as int) < g.strings().len(),
    decreases list.len(),
{
    if list.len() > 0 {
        if g.defs().contains_key(list[0]) && crate::graph::spec_pos_in_range(
            g.defs()[list[0]].range,
            line,
            character,
        ) {
            assert(g.defs().contains_key(list[0]) && g.defs()[list[0]] == d);
            assert(spec_qkey(d.object_name, d.name) == list[0]);
        } else {
            lemma_first_def_at_found(g, list.drop_first(), line, character, d);
        }
    }
}

/// One incoming edge of a definition: a direct call site or an event
/// subscriber declared for it.
pub struct IncomingEntry {
    pub name: String,
    pub detail: Option<String>,
    pub file: PathId,
    pub range: TextRange,
    pub is_subscriber: bool,
}

/// `object.method` from the graph's strings.
pub open spec fn spec_receiver_label(g: CallGraph, o: u32, m: u32) -> Seq<char> {
    g.strings()[o as int] + seq!['.'] + g.strings()[m as int]
}

/// What one direct incoming entry holds, judged against its call site.
pub open spec fn spec_incoming_entry(g: CallGraph, e: IncomingEntry, cs: crate::graph::CallSite) -> bool {
    &&& e.name@ == g.strings()[cs.caller as int]
    &&& e.detail is None
    &&& e.file == cs.file
    &&& e.range == cs.range
    &&& !e.is_subscriber
}

/// What one subscriber entry holds, judged against the subscriber's
/// definition.
pub open spec fn spec_subscriber_entry(g: CallGraph, e: IncomingEntry, sd: Definition) -> bool {
    &&& e.name@ == g.strings()[sd.name as int]
    &&& e.detail is Some
    &&& e.detail->0@ == spec_receiver_label(g, sd.object_name, sd.name) + " [EventSubscriber]"@
    &&& e.file == sd.file
    &&& e.range == sd.range
    &&& e.is_subscriber
}

/// The incoming calls of a qualified name, followed by the subscribers
/// declared for it; nothing when either name was never interned.
pub fn incoming_call_entries(graph: &CallGraph, object: &str, procedure: &str) -> (r: Option<
    Vec<IncomingEntry>,
>)
    requires
        graph.wf(),
    ensures
        match r {
            Some(entries) => {
                &&& graph.strings().contains(object@)
                &&& graph.strings().contains(procedure@)
                &&& {
                    let qk = spec_qkey(
                        crate::indexer::sym_in(graph.strings(), object@),
                        crate::indexer::sym_in(graph.strings(), procedure@),
                    );
                    let calls = adj(graph.incoming(), qk);
                    let subs = crate::graph::spec_defs_of_keys(*graph, adj(graph.subs(), qk));
                    &&& entries@.len() == calls.len() + subs.len()
                    &&& forall|t: int|
                        0 <= t < calls.len() ==> spec_incoming_entry(
                            *graph,
                            #[trigger] entries@[t],
                            graph.sites()[calls[t] as int]->Some_0,
                        )
                    &&& forall|u: int|
                        0 <= u < subs.len() ==> spec_subscriber_entry(
                            *graph,
                            #[trigger] entries@[calls.len() + u],
                            subs[u],
                        )
                }
            },
            None => !graph.strings().contains(object@) || !graph.strings().contains(procedure@),
        },
{
    let obj_sym = match graph.get_symbol(object) {
        Some(s) => s,
        None => {
            return None;
        },
    };
    let proc_sym = match graph.get_symbol(procedure) {
        Some(s) => s,
        None => {
            return None;
        },
    };
    let qname = QualifiedName { object: obj_sym, procedure: proc_sym };
    let ghost gqk = qname.spec_key();
    let calls = graph.get_incoming_calls(&qname);
    let mut entries: Vec<IncomingEntry> = Vec::new();
    let n = calls.len();
    let mut t: usize = 0;
    while t < n
        invariant
            graph.wf(),
            gqk == qname.spec_key(),
            n == calls@.len(),
            n == adj(graph.incoming(), gqk).len(),
            forall|v: int|
                0 <= v < n ==> graph.sites()[adj(graph.incoming(), gqk)[v] as int] == Some(
                    #[trigger] calls@[v],
                ),
            0 <= t <= n,
            entries@.len() == t,
            forall|v: int|
                0 <= v < t ==> spec_incoming_entry(
                    *graph,
                    #[trigger] entries@[v],
                    graph.sites()[adj(graph.incoming(), gqk)[v] as int]->Some_0,
                ),
        decreases n - t,
    {
        let c = &calls[t];
        proof {
            assert(graph.site_live(adj(graph.incoming(), gqk)[t as int]));
        }
        let name = match graph.resolve(c.caller) {
            Some(nm) => nm.to_owned(),
            None => lit_owned("Unknown"),
        };
        entries.push(
            IncomingEntry {
                name,
                detail: None,
                file: c.file,
                range: c.range,
                is_subscriber: false,
            },
        );
        t = t + 1;
    }
    let subs = graph.get_event_subscribers(&qname);
    let ghost gsubs = crate::graph::spec_defs_of_keys(*graph, adj(graph.subs(), gqk));
    proof {
        lemma_defs_of_keys_syms(*graph, adj(graph.subs(), gqk));
    }
    let m = subs.len();
    let mut u: usize = 0;
    while u < m
        invariant
            graph.wf(),
            gqk == qname.spec_key(),
            subs@ == gsubs,
            m == gsubs.len(),
            forall|v: int|
                0 <= v < gsubs.len() ==> ((#[trigger] gsubs[v]).object_name as int)
                    < graph.strings().len() && (gsubs[v].name as int) < graph.strings().len(),
            0 <= u <= m,
            entries@.len() == n + u,
            forall|v: int|
                0 <= v < n ==> spec_incoming_entry(
                    *graph,
                    #[trigger] entries@[v],
                    graph.sites()[adj(graph.incoming(), gqk)[v] as int]->Some_0,
                ),
            n == adj(graph.incoming(), gqk).len(),
            forall|v: int|
                0 <= v < u ==> spec_subscriber_entry(
                    *graph,
                    #[trigger] entries@[n + v],
                    gsubs[v],
                ),
        decreases m - u,
    {
        let sd = &subs[u];
        let name = match graph.resolve(sd.name) {
            Some(nm) => nm.to_owned(),
            None => lit_owned("Unknown"),
        };
        let mut detail = match graph.resolve(sd.object_name) {
            Some(on) => on.to_owned(),
            None => lit_owned("Unknown"),
        };
        detail.append(".");
        detail.append(name.as_str());
        detail.append(" [EventSubscriber]");
        proof {
            reveal_strlit(".");
            reveal_strlit(" [EventSubscriber]");
            assert("."@ =~= seq!['.']);
            assert(detail@ =~= spec_receiver_label(*graph, gsubs[u as int].object_name, gsubs[u as int].name)
                + " [EventSubscriber]"@);
        }
        entries.push(
            IncomingEntry {
                name,
                detail: Some(detail),
                file: sd.file,
                range: sd.range,
                is_subscriber: true,
            },
        );
        u = u + 1;
    }
    proof {
        crate::indexer::lemma_sym_in_pub(graph.strings(), object@, obj_sym as int);
        crate::indexer::lemma_sym_in_pub(graph.strings(), procedure@, proc_sym as int);
    }
    Some(entries)
}

/// Where an outgoing call points.
pub enum OutgoingTarget {
    /// A definition of this workspace: jump to its extent.
    Local { file: PathId, range: TextRange },
    /// A definition of a dependency package, named after its app.
    External { app: String },
    /// Nothing known under the receiver as written.
    Unknown,
}

/// One outgoing edge of a definition.
pub struct OutgoingEntry {
    pub name: String,
    pub detail: String,
    pub target: OutgoingTarget,
    pub file: PathId,
    pub range: TextRange,
}

/// What one outgoing entry holds, judged against its call site: the
/// receiver is classified against the local definitions first, the
/// external ones second, unknown last.
pub open spec fn spec_outgoing_entry(g: CallGraph, e: OutgoingEntry, cs: crate::graph::CallSite) -> bool {
    &&& e.name@ == g.strings()[cs.callee_method as int]
    &&& e.file == cs.file
    &&& e.range == cs.range
    &&& match cs.callee_object {
        None => e.target is Unknown && e.detail@ == "(local)"@,
        Some(o) => {
            let label = spec_receiver_label(g, o, cs.callee_method);
            let tk = spec_qkey(o, cs.callee_method);
            if g.defs().contains_key(tk) {
                &&& e.target == (OutgoingTarget::Local {
                    file: g.defs()[tk].file,
                    range: g.defs()[tk].range,
                })
                &&& e.detail@ == label
            } else if g.ext_defs().contains_key(tk) {
                &&& e.target is External
                &&& e.detail@ == label + " (from "@ + e.target->External_app@ + ")"@
            } else {
                &&& e.target is Unknown
                &&& e.detail@ == label + " (external)"@
            }
        },
    }
}

/// The outgoing calls of a qualified name, each classified; nothing when
/// either name was never interned.
pub fn outgoing_call_entries(graph: &CallGraph, object: &str, procedure: &str) -> (r: Option<
    Vec<OutgoingEntry>,
>)
    requires
        graph.wf(),
    ensures
        match r {
            Some(entries) => {
                &&& graph.strings().contains(object@)
                &&& graph.strings().contains(procedure@)
                &&& {
                    let qk = spec_qkey(
                        crate::indexer::sym_in(graph.strings(), object@),
                        crate::indexer::sym_in(graph.strings(), procedure@),
                    );
                    let calls = adj(graph.outgoing(), qk);
                    &&& entries@.len() == calls.len()
                    &&& forall|t: int|
                        0 <= t < calls.len() ==> spec_outgoing_entry(
                            *graph,
                            #[trigger] entries@[t],
                            graph.sites()[calls[t] as int]->Some_0,
                        )
                }
            },
            None => !graph.strings().contains(object@) || !graph.strings().contains(procedure@),
        },
{
    let obj_sym = match graph.get_symbol(object) {
        Some(s) => s,
        None => {
            return None;
        },
    };
    let proc_sym = match graph.get_symbol(procedure) {
        Some(s) => s,
        None => {
            return None;
        },
    };
    let qname = QualifiedName { object: obj_sym, procedure: proc_sym };
    let ghost gqk = qname.spec_key();
    let calls = graph.get_outgoing_calls(&qname);
    let mut entries: Vec<OutgoingEntry> = Vec::new();
    let n = calls.len();
    let mut t: usize = 0;
    while t < n
        invariant
            graph.wf(),
            gqk == qname.spec_key(),
            n == calls@.len(),
            n == adj(graph.outgoing(), gqk).len(),
            forall|v: int|
                0 <= v < n ==> graph.sites()[adj(graph.outgoing(), gqk)[v] as int] == Some(
                    #[trigger] calls@[v],
                ),
            0 <= t <= n,
            entries@.len() == t,
            forall|v: int|
                0 <= v < t ==> spec_outgoing_entry(
                    *graph,
                    #[trigger] entries@[v],
                    graph.sites()[adj(graph.outgoing(), gqk)[v] as int]->Some_0,
                ),
        decreases n - t,
    {
        let c = &calls[t];
        proof {
            assert(graph.site_live(adj(graph.outgoing(), gqk)[t as int]));
            reveal_strlit(".");
            reveal_strlit(" (from ");
            reveal_strlit(")");
            reveal_strlit(" (external)");
            reveal_strlit("(local)");
            assert("."@ =~= seq!['.']);
        }
        let method = match graph.resolve(c.callee_method) {
            Some(nm) => nm.to_owned(),
            None => lit_owned("Unknown"),
        };
        match c.callee_object {
            Some(obj) => {
                let obj_name = match graph.resolve(obj) {
                    Some(on) => on.to_owned(),
                    None => lit_owned("Unknown"),
                };
                let mut plain = obj_name;
                plain.append(".");
                plain.append(method.as_str());
                proof {
                    assert(plain@ =~= spec_receiver_label(*graph, c.callee_object->0, c.callee_method));
                }
                let target_qname = QualifiedName { object: obj, procedure: c.callee_method };
                match graph.get_definition(&target_qname) {
                    Some(td) => {
                        entries.push(
                            OutgoingEntry {
                                name: method,
                                detail: plain,
                                target: OutgoingTarget::Local { file: td.file, range: td.range },
                                file: c.file,
                                range: c.range,
                            },
                        );
                    },
                    None => {
                        match graph.get_external_definition(&target_qname) {
                            Some(ed) => {
                                let app = match graph.resolve(ed.source.app_name) {
                                    Some(an) => an.to_owned(),
                                    None => lit_owned("external"),
                                };
                                let mut detail = plain;
                                detail.append(" (from ");
                                detail.append(app.as_str());
                                detail.append(")");
                                proof {
                                    assert(detail@ =~= spec_receiver_label(
                                        *graph,
                                        c.callee_object->0,
                                        c.callee_method,
                                    ) + " (from "@ + app@ + ")"@);
                                }
                                entries.push(
                                    OutgoingEntry {
                                        name: method,
                                        detail,
                                        target: OutgoingTarget::External { app },
                                        file: c.file,
                                        range: c.range,
                                    },
                                );
                            },
                            None => {
                                let mut detail = plain;
                                detail.append(" (external)");
                                proof {
                                    assert(detail@ =~= spec_receiver_label(
                                        *graph,
                                        c.callee_object->0,
                                        c.callee_method,
                                    ) + " (external)"@);
                                }
                                entries.push(
                                    OutgoingEntry {
                                        name: method,
                                        detail,
                                        target: OutgoingTarget::Unknown,
                                        file: c.file,
                                        range: c.range,
                                    },
                                );
                            },
                        }
                    },
                }
            },
            None => {
                entries.push(
                    OutgoingEntry {
                        name: method,
                        detail: lit_owned("(local)"),
                        target: OutgoingTarget::Unknown,
                        file: c.file,
                        range: c.range,
                    },
                );
            },
        }
        t = t + 1;
    }
    proof {
        crate::indexer::lemma_sym_in_pub(graph.strings(), object@, obj_sym as int);
        crate::indexer::lemma_sym_in_pub(graph.strings(), procedure@, proc_sym as int);
    }
    Some(entries)
}

/// One code lens: the reference count and metric badges of a definition.
pub struct CodeLens {
    pub range: TextRange,
    pub title: String,
    pub object: String,
    pub procedure: String,
}

/// `N references`, with the singular spelled out.
pub open spec fn spec_ref_text(n: nat) -> Seq<char> {
    if n == 0 {
        "0 references"@
    } else if n == 1 {
        "1 reference"@
    } else {
        dec_digits(n) + " references"@
    }
}

/// The metric badges of a lens title, with markers past the thresholds.
pub open spec fn spec_lens_title(refs: nat, c: nat, lines: nat, params: nat) -> Seq<char> {
    let ct = if c >= 10 {
        "complexity: "@ + dec_digits(c) + " \u{26a0}\u{fe0f} (>10)"@
    } else if c >= 5 {
        "complexity: "@ + dec_digits(c) + " (>5)"@
    } else {
        "complexity: "@ + dec_digits(c)
    };
    let lt = if lines > 50 {
        "lines: "@ + dec_digits(lines) + " \u{26a0}\u{fe0f} (>50)"@
    } else {
        "lines: "@ + dec_digits(lines)
    };
    let pt = if params >= 7 {
        "params: "@ + dec_digits(params) + " \u{26a0}\u{fe0f} (>7)"@
    } else if params >= 4 {
        "params: "@ + dec_digits(params) + " (>4)"@
    } else {
        "params: "@ + dec_digits(params)
    };
    spec_ref_text(refs) + " | "@ + ct + ", "@ + lt + ", "@ + pt
}

/// One lens per definition of a file, with its reference count and its
/// complexity, line and parameter badges.
#[verifier::rlimit(100)]
pub fn code_lens_entries(graph: &CallGraph, file: &str) -> (r: Vec<CodeLens>)
    requires
        graph.wf(),
    ensures
        ({
            let defs = if exists|i: int|
                0 <= i < graph.paths().len() && graph.paths()[i] == Some(file@) {
                crate::graph::spec_defs_of_keys(
                    *graph,
                    adj(
                        graph.file_defs(),
                        (choose|i: int|
                            0 <= i < graph.paths().len() && graph.paths()[i] == Some(
                                file@,
                            )) as u64,
                    ),
                )
            } else {
                Seq::empty()
            };
            &&& r@.len() == defs.len()
            &&& forall|t: int|
                0 <= t < r@.len() ==> {
                    let d = defs[t];
                    &&& (#[trigger] r@[t]).range == d.range
                    &&& r@[t].title@ == spec_lens_title(
                        capped(adj(graph.incoming(), spec_qkey(d.object_name, d.name)).len()),
                        d.complexity as nat,
                        spec_span_lines(d.range),
                        d.parameter_count as nat,
                    )
                }
        }),
{
    let defs = graph.get_definitions_in_file(file);
    let ghost dl = defs@;
    proof {
        lemma_defs_of_keys_syms(
            *graph,
            if exists|i: int| 0 <= i < graph.paths().len() && graph.paths()[i] == Some(file@) {
                adj(
                    graph.file_defs(),
                    (choose|i: int|
                        0 <= i < graph.paths().len() && graph.paths()[i] == Some(file@)) as u64,
                )
            } else {
                Seq::empty()
            },
        );
    }
    let mut r: Vec<CodeLens> = Vec::new();
    let n = defs.len();
    let mut t: usize = 0;
    while t < n
        invariant
            graph.wf(),
            defs@ == dl,
            n == dl.len(),
            0 <= t <= n,
            forall|j: int|
                0 <= j < dl.len() ==> ((#[trigger] dl[j]).object_name as int)
                    < graph.strings().len() && (dl[j].name as int) < graph.strings().len(),
            r@.len() == t,
            forall|j: int|
                0 <= j < t ==> {
                    let d = dl[j];
                    &&& (#[trigger] r@[j]).range == d.range
                    &&& r@[j].title@ == spec_lens_title(
                        capped(adj(graph.incoming(), spec_qkey(d.object_name, d.name)).len()),
                        d.complexity as nat,
                        spec_span_lines(d.range),
                        d.parameter_count as nat,
                    )
                },
        decreases n - t,
    {
        let d = &defs[t];
        let qname = QualifiedName { object: d.object_name, procedure: d.name };
        let refs = graph.get_incoming_call_count(&qname);
        let refs32: u32 = if refs > 0xFFFF_FFFFusize {
            0xFFFF_FFFFu32
        } else {
            refs as u32
        };
        let lines = crate::syntax::span_lines(&d.range);
        let mut title = if refs32 == 0 {
            lit_owned("0 references")
        } else if refs32 == 1 {
            lit_owned("1 reference")
        } else {
            let mut s = u32_to_string(refs32);
            s.append(" references");
            s
        };
        title.append(" | ");
        title.append("complexity: ");
        let cs = u32_to_string(d.complexity);
        title.append(cs.as_str());
        if d.complexity >= 10 {
            title.append(" \u{26a0}\u{fe0f} (>10)");
        } else if d.complexity >= 5 {
            title.append(" (>5)");
        }
        title.append(", ");
        title.append("lines: ");
        let ls = u32_to_string(lines);
        title.append(ls.as_str());
        if lines > 50 {
            title.append(" \u{26a0}\u{fe0f} (>50)");
        }
        title.append(", ");
        title.append("params: ");
        let ps = u32_to_string(d.parameter_count);
        title.append(ps.as_str());
        if d.parameter_count >= 7 {
            title.append(" \u{26a0}\u{fe0f} (>7)");
        } else if d.parameter_count >= 4 {
            title.append(" (>4)");
        }
        let object = match graph.resolve(d.object_name) {
            Some(on) => on.to_owned(),
            None => lit_owned("Unknown"),
        };
        let procedure = match graph.resolve(d.name) {
            Some(pn) => pn.to_owned(),
            None => lit_owned("Unknown"),
        };
        proof {
            reveal_strlit("0 references");
            reveal_strlit("1 reference");
            reveal_strlit(" references");
            reveal_strlit(" | ");
            reveal_strlit("complexity: ");
            reveal_strlit(" \u{26a0}\u{fe0f} (>10)");
            reveal_strlit(" (>5)");
            reveal_strlit(", ");
            reveal_strlit("lines: ");
            reveal_strlit(" \u{26a0}\u{fe0f} (>50)");
            reveal_strlit("params: ");
            reveal_strlit(" \u{26a0}\u{fe0f} (>7)");
            reveal_strlit(" (>4)");
            assert(title@ =~= spec_lens_title(
                capped(adj(graph.incoming(), spec_qkey(d.object_name, d.name)).len()),
                d.complexity as nat,
                spec_span_lines(d.range),
                d.parameter_count as nat,
            ));
        }
        r.push(CodeLens { range: d.range, title, object, procedure });
        t = t + 1;
    }
    r
}

/// Definitions listed for a file carry interned symbols.
proof fn lemma_defs_of_keys_syms(g: CallGraph, list: Seq<u64>)
    requires
        g.wf(),
    ensures
        forall|j: int|
            0 <= j < crate::graph::spec_defs_of_keys(g, list).len() ==> ((
            #[trigger] crate::graph::spec_defs_of_keys(g, list)[j]).object_name as int)
                < g.strings().len() && (crate::graph::spec_defs_of_keys(g, list)[j].name as int)
                < g.strings().len(),
    decreases list.len(),
{
    if list.len() > 0 {
        lemma_defs_of_keys_syms(g, list.drop_first());
        let u = crate::graph::spec_defs_of_keys(g, list);
        if g.defs().contains_key(list[0]) {
            let rest = crate::graph::spec_defs_of_keys(g, list.drop_first());
            assert forall|j: int| 0 <= j < u.len() implies ((#[trigger] u[j]).object_name as int)
                < g.strings().len() && (u[j].name as int) < g.strings().len() by {
                if j > 0 {
                    assert(u[j] == rest[j - 1]);
                }
            }
        }
    }
}

} // verus!
