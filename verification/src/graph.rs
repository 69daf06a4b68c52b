//! The in-memory call graph: interned symbols, deduplicated paths,
//! definitions keyed by qualified name, call sites in a tombstone-capable
//! arena, forward and inverse adjacency, per-file reverse indexes for
//! incremental removal, variable scopes for receiver resolution, and
//! external definitions from dependency packages.

use vstd::prelude::*;

use crate::intern::{
    interner_get, interner_get_or_intern, interner_len, interner_new, interner_resolve,
    interner_strings, SymbolInterner,
};
use crate::keymap::KeyMap;
use crate::spec_qkey;
use crate::varvec::{var_vec_elems, var_vec_get, var_vec_len, var_vec_new, var_vec_push, VarVec};

verus! {

/// An interned symbol: a dense index into the graph's string pool.
pub type Symbol = u32;

/// A deduplicated path: a dense index into the graph's path pool.
pub type PathId = u32;

/// An index into the call-site arena.
pub type CallSiteIdx = u32;

/// The kind of a top-level AL object.
#[derive(Clone, Copy, Debug, PartialEq, Eq, Hash)]
pub enum ObjectType {
    Codeunit,
    Table,
    Page,
    Report,
    Query,
    XmlPort,
    Enum,
    Interface,
    ControlAddIn,
    PageExtension,
    TableExtension,
    EnumExtension,
    PermissionSet,
    PermissionSetExtension,
}

impl ObjectType {
    /// The object type's canonical name.
    pub fn as_str(&self) -> (r: &'static str)
        ensures
            r@ == self.spec_name(),
    {
        proof {
            reveal_strlit("Codeunit");
            reveal_strlit("Table");
            reveal_strlit("Page");
            reveal_strlit("Report");
            reveal_strlit("Query");
            reveal_strlit("XmlPort");
            reveal_strlit("Enum");
            reveal_strlit("Interface");
            reveal_strlit("ControlAddIn");
            reveal_strlit("PageExtension");
            reveal_strlit("TableExtension");
            reveal_strlit("EnumExtension");
            reveal_strlit("PermissionSet");
            reveal_strlit("PermissionSetExtension");
        }
        match self {
            ObjectType::Codeunit => "Codeunit",
            ObjectType::Table => "Table",
            ObjectType::Page => "Page",
            ObjectType::Report => "Report",
            ObjectType::Query => "Query",
            ObjectType::XmlPort => "XmlPort",
            ObjectType::Enum => "Enum",
            ObjectType::Interface => "Interface",
            ObjectType::ControlAddIn => "ControlAddIn",
            ObjectType::PageExtension => "PageExtension",
            ObjectType::TableExtension => "TableExtension",
            ObjectType::EnumExtension => "EnumExtension",
            ObjectType::PermissionSet => "PermissionSet",
            ObjectType::PermissionSetExtension => "PermissionSetExtension",
        }
    }

    /// The canonical name, as a character sequence.
    pub open spec fn spec_name(self) -> Seq<char> {
        match self {
            ObjectType::Codeunit => "Codeunit"@,
            ObjectType::Table => "Table"@,
            ObjectType::Page => "Page"@,
            ObjectType::Report => "Report"@,
            ObjectType::Query => "Query"@,
            ObjectType::XmlPort => "XmlPort"@,
            ObjectType::Enum => "Enum"@,
            ObjectType::Interface => "Interface"@,
            ObjectType::ControlAddIn => "ControlAddIn"@,
            ObjectType::PageExtension => "PageExtension"@,
            ObjectType::TableExtension => "TableExtension"@,
            ObjectType::EnumExtension => "EnumExtension"@,
            ObjectType::PermissionSet => "PermissionSet"@,
            ObjectType::PermissionSetExtension => "PermissionSetExtension"@,
        }
    }
}

/// The kind of a named callable body.
#[derive(Clone, Copy, Debug, PartialEq, Eq, Hash)]
pub enum DefinitionKind {
    Procedure,
    Trigger,
    EventSubscriber,
}

impl DefinitionKind {
    /// The kind's canonical name.
    pub fn as_str(&self) -> (r: &'static str)
        ensures
            r@ == self.spec_name(),
    {
        proof {
            reveal_strlit("Procedure");
            reveal_strlit("Trigger");
            reveal_strlit("EventSubscriber");
        }
        match self {
            DefinitionKind::Procedure => "Procedure",
            DefinitionKind::Trigger => "Trigger",
            DefinitionKind::EventSubscriber => "EventSubscriber",
        }
    }

    pub open spec fn spec_name(self) -> Seq<char> {
        match self {
            DefinitionKind::Procedure => "Procedure"@,
            DefinitionKind::Trigger => "Trigger"@,
            DefinitionKind::EventSubscriber => "EventSubscriber"@,
        }
    }
}

/// A position in a file, zero-based.
#[derive(Clone, Copy, Debug, PartialEq, Eq)]
pub struct TextPos {
    pub line: u32,
    pub character: u32,
}

/// A half-open region of a file between two positions.
#[derive(Clone, Copy, Debug, PartialEq, Eq)]
pub struct TextRange {
    pub start: TextPos,
    pub end: TextPos,
}

/// A fully qualified procedure name: the object and the procedure symbol.
#[derive(Clone, Copy, Debug, PartialEq, Eq, Hash)]
pub struct QualifiedName {
    pub object: Symbol,
    pub procedure: Symbol,
}

impl QualifiedName {
    /// The 64-bit map key of this name.
    pub open spec fn spec_key(self) -> u64 {
        spec_qkey(self.object, self.procedure)
    }

    pub fn key(&self) -> (r: u64)
        ensures
            r == self.spec_key(),
    {
        crate::qkey(self.object, self.procedure)
    }
}

/// A procedure, trigger or event-subscriber definition.
#[derive(Clone, Copy, Debug)]
pub struct Definition {
    /// The file holding the definition.
    pub file: PathId,
    /// The full extent of the definition.
    pub range: TextRange,
    /// The kind of the containing object.
    pub object_type: ObjectType,
    /// The containing object's name.
    pub object_name: Symbol,
    /// The definition's own name.
    pub name: Symbol,
    /// What kind of callable this is.
    pub kind: DefinitionKind,
    /// Cyclomatic complexity of the body.
    pub complexity: u32,
    /// Lines the definition spans.
    pub line_count: u32,
    /// Declared parameters.
    pub parameter_count: u32,
    /// For an event subscriber: the declared target, already normalized
    /// for case-insensitive matching.
    pub event_target: Option<QualifiedName>,
}

/// A call site: one textual invocation inside a definition.
#[derive(Clone, Copy, Debug)]
pub struct CallSite {
    /// The file holding the call.
    pub file: PathId,
    /// The extent of the call expression.
    pub range: TextRange,
    /// The procedure the call stands in.
    pub caller: Symbol,
    /// The receiver before the dot, when the call is qualified.
    pub callee_object: Option<Symbol>,
    /// The method being called.
    pub callee_method: Symbol,
}

/// A variable binding inside a procedure scope.
#[derive(Clone, Debug)]
pub struct VariableBinding {
    /// The variable's name.
    pub name: Symbol,
    /// The object name of its type, for record and codeunit kinds.
    pub ty_name: Symbol,
    /// The type keyword, where one was recognized.
    pub type_kind: Option<String>,
}

/// Where an external definition came from.
#[derive(Clone, Debug)]
pub struct ExternalSource {
    pub app_name: Symbol,
    pub app_version: String,
}

/// A definition known only through a dependency package.
#[derive(Clone, Debug)]
pub struct ExternalDefinition {
    pub source: ExternalSource,
    pub object_type: ObjectType,
    pub object_name: Symbol,
    pub name: Symbol,
    pub kind: DefinitionKind,
}

/// The value at a key of an adjacency map, empty when the key is absent.
pub open spec fn adj<T>(m: Map<u64, Seq<T>>, k: u64) -> Seq<T> {
    if m.contains_key(k) {
        m[k]
    } else {
        Seq::empty()
    }
}

/// The first type bound to a variable name in a scope's binding list.
pub open spec fn spec_lookup_binding(s: Seq<(u32, u32)>, var_name: u32) -> Option<u32>
    decreases s.len(),
{
    if s.len() == 0 {
        None
    } else if s[0].0 == var_name {
        Some(s[0].1)
    } else {
        spec_lookup_binding(s.drop_first(), var_name)
    }
}


/// Where a call points, resolved at insertion time: a qualified receiver
/// that names a known object wins; otherwise a variable of the caller's
/// scope supplies its type; otherwise the receiver is kept as written. An
/// unqualified call targets the caller's own object.
pub open spec fn spec_resolve_call(g: CallGraph, caller_qname: QualifiedName, call: CallSite) -> QualifiedName {
    match call.callee_object {
        Some(obj) => {
            if g.objects().contains_key(obj as u64) || g.ext_objects().contains_key(obj as u64) {
                QualifiedName { object: obj, procedure: call.callee_method }
            } else {
                match spec_lookup_binding(adj(g.vars(), caller_qname.spec_key()), obj) {
                    Some(t) => QualifiedName { object: t, procedure: call.callee_method },
                    None => QualifiedName { object: obj, procedure: call.callee_method },
                }
            }
        },
        None => QualifiedName { object: caller_qname.object, procedure: call.callee_method },
    }
}


/// Whether a position lies inside a range, ends included.
pub open spec fn spec_pos_in_range(range: TextRange, line: u32, character: u32) -> bool {
    &&& range.start.line <= line
    &&& range.end.line >= line
    &&& (range.start.line < line || range.start.character <= character)
    &&& (range.end.line > line || range.end.character >= character)
}

/// The first definition in a key list whose range holds the position.
pub open spec fn spec_first_def_at(
    g: CallGraph,
    list: Seq<u64>,
    line: u32,
    character: u32,
) -> Option<Definition>
    decreases list.len(),
{
    if list.len() == 0 {
        None
    } else if g.defs().contains_key(list[0]) && spec_pos_in_range(
        g.defs()[list[0]].range,
        line,
        character,
    ) {
        Some(g.defs()[list[0]])
    } else {
        spec_first_def_at(g, list.drop_first(), line, character)
    }
}

/// The definitions a key list denotes, skipping keys no longer held.
pub open spec fn spec_defs_of_keys(g: CallGraph, list: Seq<u64>) -> Seq<Definition>
    decreases list.len(),
{
    if list.len() == 0 {
        Seq::empty()
    } else if g.defs().contains_key(list[0]) {
        seq![g.defs()[list[0]]] + spec_defs_of_keys(g, list.drop_first())
    } else {
        spec_defs_of_keys(g, list.drop_first())
    }
}

/// Whether a definition entry is an uncalled plain procedure.
pub open spec fn spec_is_unused(g: CallGraph, q: u64, d: Definition) -> bool {
    d.kind is Procedure && adj(g.incoming(), q).len() == 0
}

/// The uncalled plain procedures among a list of definition entries.
pub open spec fn spec_unused_of(g: CallGraph, entries: Seq<(u64, Definition)>) -> Seq<Definition>
    decreases entries.len(),
{
    if entries.len() == 0 {
        Seq::empty()
    } else if spec_is_unused(g, entries[0].0, entries[0].1) {
        seq![entries[0].1] + spec_unused_of(g, entries.drop_first())
    } else {
        spec_unused_of(g, entries.drop_first())
    }
}


/// The sequence view of every list in a map of vectors.
pub open spec fn deep_lists(m: Map<u64, Vec<CallSiteIdx>>) -> Map<u64, Seq<CallSiteIdx>> {
    m.map_values(|v: Vec<CallSiteIdx>| v@)
}

/// The set of the keys a list holds.
pub open spec fn key_set(l: Seq<u64>) -> Set<u64> {
    Set::new(|q: u64| l.contains(q))
}

/// Whether an arena index survives tombstoning: in range and not removed.
pub open spec fn site_keep(sites: Seq<Option<CallSite>>, i: CallSiteIdx) -> bool {
    i < sites.len() && sites[i as int] is Some
}

/// Extending a prefix by one element extends what it contains by that
/// element.
proof fn lemma_take_contains<T>(s: Seq<T>, i: int)
    requires
        0 <= i < s.len(),
    ensures
        forall|x: T|
            #![trigger s.take(i + 1).contains(x)]
            #![trigger s.take(i).contains(x)]
            s.take(i + 1).contains(x) <==> (s.take(i).contains(x) || s[i] == x),
{
    assert forall|x: T| #[trigger] s.take(i + 1).contains(x) implies (s.take(i).contains(x) || s[i]
        == x) by {
        let j = choose|j: int| 0 <= j < s.take(i + 1).len() && #[trigger] s.take(i + 1)[j] == x;
        if j < i {
            assert(s.take(i)[j] == x);
        }
    }
    assert forall|x: T| (s.take(i).contains(x) || s[i] == x) implies #[trigger] s.take(
        i + 1,
    ).contains(x) by {
        if s.take(i).contains(x) {
            let j = choose|j: int| 0 <= j < s.take(i).len() && #[trigger] s.take(i)[j] == x;
            assert(s.take(i + 1)[j] == x);
        } else {
            assert(s.take(i + 1)[i] == x);
        }
    }
}


/// The sequence view of every list in a map of key lists.
pub open spec fn deep_key_lists(m: Map<u64, Vec<u64>>) -> Map<u64, Seq<u64>> {
    m.map_values(|v: Vec<u64>| v@)
}

/// Whether a vector holds a value.
fn list_contains(v: &Vec<u64>, x: u64) -> (r: bool)
    ensures
        r == v@.contains(x),
{
    let n = v.len();
    let mut i: usize = 0;
    while i < n
        invariant
            n == v@.len(),
            0 <= i <= n,
            forall|j: int| 0 <= j < i ==> v@[j] != x,
        decreases n - i,
    {
        if v[i] == x {
            return true;
        }
        i = i + 1;
    }
    false
}

/// Drops the removed qualified names from every subscriber list.
fn retain_subscribers(m: &mut KeyMap<Vec<u64>>, removed: &Vec<u64>)
    requires
        old(m).wf(),
    ensures
        final(m).wf(),
        deep_key_lists(final(m)@) == deep_key_lists(old(m)@).map_values(
            |l: Seq<u64>| l.filter(|q: u64| !removed@.contains(q)),
        ),
{
    let n = m.num_entries();
    let mut e: usize = 0;
    while e < n
        invariant
            m.wf(),
            n == old(m).kv().len(),
            n == m.kv().len(),
            0 <= e <= n,
            forall|t: int|
                e <= t < n ==> #[trigger] m.kv()[t] == old(m).kv()[t],
            forall|t: int|
                0 <= t < e ==> #[trigger] m.kv()[t].0 == old(m).kv()[t].0 && m.kv()[t].1@ == old(
                    m,
                ).kv()[t].1@.filter(|q: u64| !removed@.contains(q)),
        decreases n - e,
    {
        let mut filtered: Vec<u64> = Vec::new();
        {
            let list = m.value_at(e);
            let ln = list.len();
            let ghost l = list@;
            proof {
                reveal(Seq::filter);
                assert(l.take(0) =~= Seq::<u64>::empty());
            }
            let mut j: usize = 0;
            while j < ln
                invariant
                    list@ == l,
                    ln == l.len(),
                    0 <= j <= ln,
                    filtered@ == l.take(j as int).filter(|q: u64| !removed@.contains(q)),
                decreases ln - j,
            {
                let q = list[j];
                proof {
                    reveal(Seq::filter);
                    assert(l.take(j + 1).drop_last() =~= l.take(j as int));
                    assert(l.take(j + 1).last() == l[j as int]);
                }
                if !list_contains(removed, q) {
                    filtered.push(q);
                }
                j = j + 1;
            }
            proof {
                assert(l.take(ln as int) =~= l);
            }
        }
        m.set_value_at(e, filtered);
        e = e + 1;
    }
    proof {
        let keep = |q: u64| !removed@.contains(q);
        old(m).lemma_entries();
        m.lemma_entries();
        assert(deep_key_lists(m@) =~= deep_key_lists(old(m)@).map_values(
            |l: Seq<u64>| l.filter(keep),
        )) by {
            assert forall|q: u64| #[trigger] m@.contains_key(q) implies old(m)@.contains_key(q)
                && m@[q]@ == old(m)@[q]@.filter(keep) by {
                let t = choose|t: int| 0 <= t < m.kv().len() && #[trigger] m.kv()[t].0 == q;
                assert(old(m).kv()[t].0 == q);
                old(m).lemma_entry_at(t);
                m.lemma_entry_at(t);
            }
            assert forall|q: u64| #[trigger] old(m)@.contains_key(q) implies m@.contains_key(
                q,
            ) by {
                let t = choose|t: int|
                    0 <= t < old(m).kv().len() && #[trigger] old(m).kv()[t].0 == q;
                assert(m.kv()[t].0 == q);
            }
        }
    }
}

/// What one `remove_file` call does: a path no pool entry holds leaves
/// the graph untouched; a held path loses its pool entry, its
/// definitions with their adjacency entries and subscriber listings, its
/// variable scopes and its call sites (tombstoned in place), and every
/// remaining adjacency list keeps exactly its live indices.
pub open spec fn spec_removed_file(pre: CallGraph, post: CallGraph, file: Seq<char>) -> bool {
    &&& (!(exists|i: int| 0 <= i < pre.paths().len() && pre.paths()[i] == Some(file)) ==> post
        == pre)
    &&& ((exists|i: int| 0 <= i < pre.paths().len() && pre.paths()[i] == Some(file)) ==> ({
        let pid = choose|i: int| 0 <= i < pre.paths().len() && pre.paths()[i] == Some(file);
        let removed_defs = adj(pre.file_defs(), pid as u64);
        let removed_scopes = adj(pre.file_vars(), pid as u64);
        let removed_sites = adj(pre.file_sites(), pid as u64);
        &&& post.paths() == pre.paths().update(pid, None)
        &&& post.strings() == pre.strings()
        &&& post.defs() == pre.defs().remove_keys(key_set(removed_defs))
        &&& post.file_defs() == pre.file_defs().remove(pid as u64)
        &&& post.file_vars() == pre.file_vars().remove(pid as u64)
        &&& post.file_sites() == pre.file_sites().remove(pid as u64)
        &&& post.vars() == pre.vars().remove_keys(key_set(removed_scopes))
        &&& post.sites().len() == pre.sites().len()
        &&& forall|j: int|
            0 <= j < pre.sites().len() ==> #[trigger] post.sites()[j] == (
            if removed_sites.contains(j as CallSiteIdx) {
                None
            } else {
                pre.sites()[j]
            })
        &&& post.incoming() == pre.incoming().remove_keys(key_set(removed_defs)).map_values(
            |l: Seq<CallSiteIdx>| l.filter(|i: CallSiteIdx| site_keep(post.sites(), i)),
        )
        &&& post.outgoing() == pre.outgoing().remove_keys(key_set(removed_defs)).map_values(
            |l: Seq<CallSiteIdx>| l.filter(|i: CallSiteIdx| site_keep(post.sites(), i)),
        )
        &&& post.objects() == pre.objects()
        &&& post.ext_objects() == pre.ext_objects()
        &&& post.ext_defs() == pre.ext_defs()
        &&& post.subs() == pre.subs().map_values(
            |l: Seq<u64>| l.filter(|q: u64| !removed_defs.contains(q)),
        )
        &&& !(exists|i: int|
            0 <= i < post.paths().len() && post.paths()[i] == Some(file))
    }))
}

/// The call graph index.
pub struct CallGraph {
    interner: SymbolInterner,
    path_pool: Vec<Option<String>>,
    definitions: KeyMap<Definition>,
    call_sites: Vec<Option<CallSite>>,
    file_call_sites: KeyMap<Vec<CallSiteIdx>>,
    incoming_calls: KeyMap<Vec<CallSiteIdx>>,
    outgoing_calls: KeyMap<Vec<CallSiteIdx>>,
    file_definitions: KeyMap<Vec<u64>>,
    object_types: KeyMap<ObjectType>,
    external_object_types: KeyMap<ObjectType>,
    external_definitions: KeyMap<ExternalDefinition>,
    variable_bindings: KeyMap<VarVec>,
    file_variables: KeyMap<Vec<u64>>,
    subscribers: KeyMap<Vec<u64>>,
}

impl CallGraph {
    /// The interned strings, in symbol order.
    pub closed spec fn strings(self) -> Seq<Seq<char>> {
        interner_strings(self.interner)
    }

    /// The path pool; removed entries are `None`.
    pub closed spec fn paths(self) -> Seq<Option<Seq<char>>> {
        self.path_pool@.map_values(
            |o: Option<String>|
                match o {
                    Some(s) => Some(s@),
                    None => None,
                },
        )
    }

    /// Definitions by qualified-name key.
    pub closed spec fn defs(self) -> Map<u64, Definition> {
        self.definitions@
    }

    /// The definition entries in insertion order.
    pub closed spec fn defs_kv(self) -> Seq<(u64, Definition)> {
        self.definitions.kv()
    }

    /// The call-site arena; tombstones are `None`.
    pub closed spec fn sites(self) -> Seq<Option<CallSite>> {
        self.call_sites@
    }

    /// Call-site indices by file.
    pub closed spec fn file_sites(self) -> Map<u64, Seq<CallSiteIdx>> {
        self.file_call_sites@.map_values(|v: Vec<CallSiteIdx>| v@)
    }

    /// Incoming adjacency: who calls a qualified name.
    pub closed spec fn incoming(self) -> Map<u64, Seq<CallSiteIdx>> {
        self.incoming_calls@.map_values(|v: Vec<CallSiteIdx>| v@)
    }

    /// Outgoing adjacency: what a qualified name calls.
    pub closed spec fn outgoing(self) -> Map<u64, Seq<CallSiteIdx>> {
        self.outgoing_calls@.map_values(|v: Vec<CallSiteIdx>| v@)
    }

    /// Qualified names defined in each file.
    pub closed spec fn file_defs(self) -> Map<u64, Seq<u64>> {
        self.file_definitions@.map_values(|v: Vec<u64>| v@)
    }

    /// Locally registered objects.
    pub closed spec fn objects(self) -> Map<u64, ObjectType> {
        self.object_types@
    }

    /// Objects known from dependency packages.
    pub closed spec fn ext_objects(self) -> Map<u64, ObjectType> {
        self.external_object_types@
    }

    /// Definitions known from dependency packages.
    pub closed spec fn ext_defs(self) -> Map<u64, ExternalDefinition> {
        self.external_definitions@
    }

    /// Variable bindings by procedure scope.
    pub closed spec fn vars(self) -> Map<u64, Seq<(u32, u32)>> {
        self.variable_bindings@.map_values(|v: VarVec| var_vec_elems(v))
    }

    /// Scopes with bindings, by file.
    pub closed spec fn file_vars(self) -> Map<u64, Seq<u64>> {
        self.file_variables@.map_values(|v: Vec<u64>| v@)
    }

    /// Event subscribers by declared target.
    pub closed spec fn subs(self) -> Map<u64, Seq<u64>> {
        self.subscribers@.map_values(|v: Vec<u64>| v@)
    }

    /// Whether a path id names a live pool entry.
    pub open spec fn path_live(self, p: u64) -> bool {
        p < self.paths().len() && self.paths()[p as int] is Some
    }

    /// Whether an arena slot holds a live call site.
    pub open spec fn site_live(self, i: CallSiteIdx) -> bool {
        i < self.sites().len() && self.sites()[i as int] is Some
    }

    /// The interner holds no string twice, and its symbols fit the
    /// symbol type.
    pub open spec fn wf_strings(self) -> bool {
        &&& self.strings().len() <= 0xFFFF_FFFF
        &&& forall|i: int, j: int|
            0 <= i < j < self.strings().len() ==> self.strings()[i] != self.strings()[j]
    }

    /// No two live pool entries hold the same path.
    pub open spec fn wf_paths(self) -> bool {
        &&& self.paths().len() <= 0xFFFF_FFFF
        &&& forall|i: int, j: int|
            0 <= i < j < self.paths().len() && self.paths()[i] is Some && self.paths()[j] is Some
                ==> self.paths()[i] != self.paths()[j]
    }

    /// Every key map is well formed.
    pub closed spec fn wf_maps(self) -> bool {
        &&& self.definitions.wf()
        &&& self.file_call_sites.wf()
        &&& self.incoming_calls.wf()
        &&& self.outgoing_calls.wf()
        &&& self.file_definitions.wf()
        &&& self.object_types.wf()
        &&& self.external_object_types.wf()
        &&& self.external_definitions.wf()
        &&& self.variable_bindings.wf()
        &&& self.file_variables.wf()
        &&& self.subscribers.wf()
    }

    /// Adjacency lists hold only live arena indices, and arena indices
    /// fit the index type.
    pub open spec fn wf_adj(self) -> bool {
        &&& self.sites().len() <= 0xFFFF_FFFF
        &&& forall|q: u64, t: int|
            #![trigger adj(self.incoming(), q)[t]]
            0 <= t < adj(self.incoming(), q).len() ==> self.site_live(adj(self.incoming(), q)[t])
        &&& forall|q: u64, t: int|
            #![trigger adj(self.outgoing(), q)[t]]
            0 <= t < adj(self.outgoing(), q).len() ==> self.site_live(adj(self.outgoing(), q)[t])
    }

    /// The per-file site index lists exactly the live sites of each file.
    pub open spec fn wf_file_sites(self) -> bool {
        &&& forall|p: u64, t: int|
            #![trigger adj(self.file_sites(), p)[t]]
            0 <= t < adj(self.file_sites(), p).len() ==> {
                let i = adj(self.file_sites(), p)[t];
                self.site_live(i) && self.sites()[i as int]->Some_0.file as u64 == p
            }
        &&& forall|i: int|
            #![trigger self.sites()[i]]
            0 <= i < self.sites().len() && self.sites()[i] is Some ==> {
                let p = self.sites()[i]->Some_0.file as u64;
                self.file_sites().contains_key(p) && self.file_sites()[p].contains(i as CallSiteIdx)
            }
    }

    /// Every definition is keyed by its own object and name, is listed
    /// in its file's reverse index, and its file is live.
    pub open spec fn wf_defs(self) -> bool {
        forall|q: u64|
            #![trigger self.defs()[q]]
            self.defs().contains_key(q) ==> {
                let d = self.defs()[q];
                &&& spec_qkey(d.object_name, d.name) == q
                &&& self.path_live(d.file as u64)
                &&& self.file_defs().contains_key(d.file as u64)
                &&& self.file_defs()[d.file as u64].contains(q)
            }
    }

    /// Live call sites reference live files, and every symbol a live site
    /// or definition carries has been interned in this graph.
    pub open spec fn wf_syms(self) -> bool {
        &&& forall|i: int|
            #![trigger self.sites()[i]]
            0 <= i < self.sites().len() && self.sites()[i] is Some ==> {
                let c = self.sites()[i]->Some_0;
                &&& self.path_live(c.file as u64)
                &&& (c.caller as int) < self.strings().len()
                &&& (c.callee_method as int) < self.strings().len()
                &&& (c.callee_object is Some ==> (c.callee_object->0 as int)
                    < self.strings().len())
            }
        &&& forall|q: u64|
            #![trigger self.defs()[q]]
            self.defs().contains_key(q) ==> {
                let d = self.defs()[q];
                (d.object_name as int) < self.strings().len() && (d.name as int)
                    < self.strings().len()
            }
    }

    /// The whole graph invariant.
    pub open spec fn wf(self) -> bool {
        &&& self.wf_strings()
        &&& self.wf_paths()
        &&& self.wf_maps()
        &&& self.wf_adj()
        &&& self.wf_file_sites()
        &&& self.wf_defs()
        &&& self.wf_syms()
    }

    /// A fresh, empty graph.
    pub fn new() -> (r: CallGraph)
        ensures
            r.wf(),
            r.strings() == Seq::<Seq<char>>::empty(),
            r.paths() == Seq::<Option<Seq<char>>>::empty(),
            r.defs() == Map::<u64, Definition>::empty(),
            r.sites() == Seq::<Option<CallSite>>::empty(),
            r.file_sites() == Map::<u64, Seq<CallSiteIdx>>::empty(),
            r.incoming() == Map::<u64, Seq<CallSiteIdx>>::empty(),
            r.outgoing() == Map::<u64, Seq<CallSiteIdx>>::empty(),
            r.file_defs() == Map::<u64, Seq<u64>>::empty(),
            r.objects() == Map::<u64, ObjectType>::empty(),
            r.ext_objects() == Map::<u64, ObjectType>::empty(),
            r.ext_defs() == Map::<u64, ExternalDefinition>::empty(),
            r.vars() == Map::<u64, Seq<(u32, u32)>>::empty(),
            r.file_vars() == Map::<u64, Seq<u64>>::empty(),
            r.subs() == Map::<u64, Seq<u64>>::empty(),
    {
        let r = CallGraph {
            interner: interner_new(),
            path_pool: Vec::new(),
            definitions: KeyMap::new(),
            call_sites: Vec::new(),
            file_call_sites: KeyMap::new(),
            incoming_calls: KeyMap::new(),
            outgoing_calls: KeyMap::new(),
            file_definitions: KeyMap::new(),
            object_types: KeyMap::new(),
            external_object_types: KeyMap::new(),
            external_definitions: KeyMap::new(),
            variable_bindings: KeyMap::new(),
            file_variables: KeyMap::new(),
            subscribers: KeyMap::new(),
        };
        proof {
            assert(r.paths() =~= Seq::<Option<Seq<char>>>::empty());
            assert(r.file_sites() =~= Map::<u64, Seq<CallSiteIdx>>::empty());
            assert(r.incoming() =~= Map::<u64, Seq<CallSiteIdx>>::empty());
            assert(r.outgoing() =~= Map::<u64, Seq<CallSiteIdx>>::empty());
            assert(r.file_defs() =~= Map::<u64, Seq<u64>>::empty());
            assert(r.vars() =~= Map::<u64, Seq<(u32, u32)>>::empty());
            assert(r.file_vars() =~= Map::<u64, Seq<u64>>::empty());
            assert(r.subs() =~= Map::<u64, Seq<u64>>::empty());
        }
        r
    }

    /// All parts of the graph other than the interner, as one tuple, for
    /// saying that an operation leaves them alone.
    pub open spec fn sans_interner(self) -> (
        Seq<Option<Seq<char>>>,
        Map<u64, Definition>,
        Seq<Option<CallSite>>,
        Map<u64, Seq<CallSiteIdx>>,
        Map<u64, Seq<CallSiteIdx>>,
        Map<u64, Seq<CallSiteIdx>>,
        Map<u64, Seq<u64>>,
        Map<u64, ObjectType>,
        Map<u64, ObjectType>,
        Map<u64, ExternalDefinition>,
        Map<u64, Seq<(u32, u32)>>,
        Map<u64, Seq<u64>>,
        Map<u64, Seq<u64>>,
    ) {
        (
            self.paths(),
            self.defs(),
            self.sites(),
            self.file_sites(),
            self.incoming(),
            self.outgoing(),
            self.file_defs(),
            self.objects(),
            self.ext_objects(),
            self.ext_defs(),
            self.vars(),
            self.file_vars(),
            self.subs(),
        )
    }

    /// Interns a string, returning its stable symbol: an already interned
    /// string keeps its symbol, a new one receives the next index.
    pub fn intern(&mut self, s: &str) -> (r: Symbol)
        requires
            old(self).wf(),
            old(self).strings().len() < 0xFFFF_FFFF,
        ensures
            final(self).wf(),
            (r as int) < final(self).strings().len(),
            final(self).strings()[r as int] == s@,
            if old(self).strings().contains(s@) {
                final(self).strings() == old(self).strings()
            } else {
                final(self).strings() == old(self).strings().push(s@) && r as int == old(
                    self,
                ).strings().len()
            },
            final(self).sans_interner() == old(self).sans_interner(),
    {
        let r = interner_get_or_intern(&mut self.interner, s);
        proof {
            if !old(self).strings().contains(s@) {
                assert forall|i: int, j: int|
                    0 <= i < j < self.strings().len() implies self.strings()[i]
                    != self.strings()[j] by {
                    if j < self.strings().len() - 1 {
                        assert(old(self).strings()[i] != old(self).strings()[j]);
                    } else {
                        assert(self.strings()[j] == s@);
                        assert(self.strings()[i] == old(self).strings()[i]);
                        if self.strings()[i] == s@ {
                            assert(old(self).strings().contains(s@));
                        }
                    }
                }
            }
        }
        proof {
            assert(self.paths() == old(self).paths());
            assert(self.defs() == old(self).defs());
            assert(self.sites() == old(self).sites());
            assert(self.file_sites() == old(self).file_sites());
            assert(self.incoming() == old(self).incoming());
            assert(self.outgoing() == old(self).outgoing());
            assert(self.file_defs() == old(self).file_defs());
            assert(self.objects() == old(self).objects());
            assert(self.ext_objects() == old(self).ext_objects());
            assert(self.ext_defs() == old(self).ext_defs());
            assert(self.vars() == old(self).vars());
            assert(self.file_vars() == old(self).file_vars());
            assert(self.subs() == old(self).subs());
            assert(self.wf_strings());
            assert(self.wf_paths());
            assert(self.wf_maps());
            assert(self.wf_adj());
            assert(self.wf_file_sites());
            assert(self.wf_defs());
            assert(self.wf_syms());
        }
        r
    }

    /// The number of strings interned so far.
    pub fn symbol_count(&self) -> (r: usize)
        ensures
            r == self.strings().len(),
    {
        interner_len(&self.interner)
    }

    /// Resolves a symbol to its string; a symbol never handed out
    /// resolves to nothing.
    pub fn resolve(&self, sym: Symbol) -> (r: Option<&str>)
        ensures
            match r {
                Some(t) => (sym as int) < self.strings().len() && t@ == self.strings()[sym as int],
                None => (sym as int) >= self.strings().len(),
            },
    {
        interner_resolve(&self.interner, sym)
    }

    /// Looks a string up without interning it.
    pub fn get_symbol(&self, s: &str) -> (r: Option<Symbol>)
        requires
            self.wf(),
        ensures
            match r {
                Some(i) => (i as int) < self.strings().len() && self.strings()[i as int] == s@,
                None => !self.strings().contains(s@),
            },
    {
        interner_get(&self.interner, s)
    }

    /// Gets the stable id of a path, adding it to the pool when it is
    /// new: equal paths yield the same id for as long as the entry lives.
    pub fn get_shared_path(&mut self, path: &str) -> (r: PathId)
        requires
            old(self).wf(),
            old(self).paths().len() < 0xFFFF_FFFF,
        ensures
            final(self).wf(),
            final(self).path_live(r as u64),
            final(self).paths()[r as int] == Some(path@),
            if exists|i: int|
                0 <= i < old(self).paths().len() && old(self).paths()[i] == Some(path@) {
                final(self).paths() == old(self).paths() && old(self).paths()[r as int] == Some(
                    path@,
                )
            } else {
                final(self).paths() == old(self).paths().push(Some(path@)) && r as int == old(
                    self,
                ).paths().len()
            },
            final(self).strings() == old(self).strings(),
            final(self).defs() == old(self).defs(),
            final(self).sites() == old(self).sites(),
            final(self).file_sites() == old(self).file_sites(),
            final(self).incoming() == old(self).incoming(),
            final(self).outgoing() == old(self).outgoing(),
            final(self).file_defs() == old(self).file_defs(),
            final(self).objects() == old(self).objects(),
            final(self).ext_objects() == old(self).ext_objects(),
            final(self).ext_defs() == old(self).ext_defs(),
            final(self).vars() == old(self).vars(),
            final(self).file_vars() == old(self).file_vars(),
            final(self).subs() == old(self).subs(),
    {
        let n = self.path_pool.len();
        proof {
            assert(self.paths().len() == n);
        }
        let mut i: usize = 0;
        while i < n
            invariant
                *self == *old(self),
                self.wf(),
                n == self.paths().len(),
                0 <= i <= n,
                forall|j: int| 0 <= j < i ==> self.paths()[j] != Some(path@),
            decreases n - i,
        {
            let hit = match &self.path_pool[i] {
                Some(p) => crate::strutil::str_eq(p.as_str(), path),
                None => false,
            };
            if hit {
                proof {
                    assert(self.paths()[i as int] == Some(path@));
                }
                return i as u32;
            }
            proof {
                assert(self.paths()[i as int] != Some(path@));
            }
            i = i + 1;
        }
        proof {
            assert(forall|j: int| 0 <= j < self.paths().len() ==> self.paths()[j] != Some(path@));
        }
        self.path_pool.push(Some(path.to_owned()));
        proof {
            assert(self.paths() =~= old(self).paths().push(Some(path@)));
            assert forall|a: int, b: int|
                0 <= a < b < self.paths().len() && self.paths()[a] is Some
                    && self.paths()[b] is Some implies self.paths()[a] != self.paths()[b] by {
                if b < self.paths().len() - 1 {
                    assert(old(self).paths()[a] != old(self).paths()[b]);
                }
            }
        }
        proof {
            assert(self.strings() == old(self).strings());
            assert(self.defs() == old(self).defs());
            assert(self.sites() == old(self).sites());
            assert(self.file_sites() == old(self).file_sites());
            assert(self.incoming() == old(self).incoming());
            assert(self.outgoing() == old(self).outgoing());
            assert(self.file_defs() == old(self).file_defs());
            assert(self.objects() == old(self).objects());
            assert(self.ext_objects() == old(self).ext_objects());
            assert(self.ext_defs() == old(self).ext_defs());
            assert(self.vars() == old(self).vars());
            assert(self.file_vars() == old(self).file_vars());
            assert(self.subs() == old(self).subs());
            assert(self.wf_strings());
            assert(self.wf_paths());
            assert(self.wf_maps());
            assert(self.wf_adj());
            assert(self.wf_file_sites());
            assert(self.wf_defs());
            assert(self.wf_syms());
        }
        n as u32
    }


    /// Registers a local object and its kind; registering again
    /// overwrites, so the call is idempotent.
    pub fn register_object(&mut self, name: Symbol, object_type: ObjectType)
        requires
            old(self).wf(),
        ensures
            final(self).wf(),
            final(self).objects() == old(self).objects().insert(name as u64, object_type),
            final(self).strings() == old(self).strings(),
            final(self).paths() == old(self).paths(),
            final(self).defs() == old(self).defs(),
            final(self).sites() == old(self).sites(),
            final(self).file_sites() == old(self).file_sites(),
            final(self).incoming() == old(self).incoming(),
            final(self).outgoing() == old(self).outgoing(),
            final(self).file_defs() == old(self).file_defs(),
            final(self).ext_objects() == old(self).ext_objects(),
            final(self).ext_defs() == old(self).ext_defs(),
            final(self).vars() == old(self).vars(),
            final(self).file_vars() == old(self).file_vars(),
            final(self).subs() == old(self).subs(),
    {
        self.object_types.insert(name as u64, object_type);
        proof {
            lemma_wf_unchanged_views(*old(self), *self);
        }
    }

    /// Registers an object known from a dependency package.
    pub fn register_external_object(&mut self, name: Symbol, object_type: ObjectType)
        requires
            old(self).wf(),
        ensures
            final(self).wf(),
            final(self).ext_objects() == old(self).ext_objects().insert(name as u64, object_type),
            final(self).strings() == old(self).strings(),
            final(self).paths() == old(self).paths(),
            final(self).defs() == old(self).defs(),
            final(self).sites() == old(self).sites(),
            final(self).file_sites() == old(self).file_sites(),
            final(self).incoming() == old(self).incoming(),
            final(self).outgoing() == old(self).outgoing(),
            final(self).file_defs() == old(self).file_defs(),
            final(self).objects() == old(self).objects(),
            final(self).ext_defs() == old(self).ext_defs(),
            final(self).vars() == old(self).vars(),
            final(self).file_vars() == old(self).file_vars(),
            final(self).subs() == old(self).subs(),
    {
        self.external_object_types.insert(name as u64, object_type);
        proof {
            lemma_wf_unchanged_views(*old(self), *self);
        }
    }

    /// Records a definition that lives in a dependency package; externals
    /// share the qualified-name space but never shadow local definitions.
    pub fn add_external_definition(&mut self, def: ExternalDefinition)
        requires
            old(self).wf(),
        ensures
            final(self).wf(),
            final(self).ext_defs() == old(self).ext_defs().insert(
                spec_qkey(def.object_name, def.name),
                def,
            ),
            final(self).strings() == old(self).strings(),
            final(self).paths() == old(self).paths(),
            final(self).defs() == old(self).defs(),
            final(self).sites() == old(self).sites(),
            final(self).file_sites() == old(self).file_sites(),
            final(self).incoming() == old(self).incoming(),
            final(self).outgoing() == old(self).outgoing(),
            final(self).file_defs() == old(self).file_defs(),
            final(self).objects() == old(self).objects(),
            final(self).ext_objects() == old(self).ext_objects(),
            final(self).vars() == old(self).vars(),
            final(self).file_vars() == old(self).file_vars(),
            final(self).subs() == old(self).subs(),
    {
        let k = crate::qkey(def.object_name, def.name);
        self.external_definitions.insert(k, def);
        proof {
            lemma_wf_unchanged_views(*old(self), *self);
        }
    }

    /// Looks up a definition known from a dependency package.
    pub fn get_external_definition(&self, qname: &QualifiedName) -> (r: Option<
        &ExternalDefinition,
    >)
        requires
            self.wf(),
        ensures
            match r {
                Some(d) => self.ext_defs().contains_key(qname.spec_key()) && *d == self.ext_defs()[
                    qname.spec_key()
                ],
                None => !self.ext_defs().contains_key(qname.spec_key()),
            },
    {
        self.external_definitions.get(qname.key())
    }

    /// Whether an object name is registered, locally or externally.
    pub fn is_known_object(&self, name: Symbol) -> (r: bool)
        requires
            self.wf(),
        ensures
            r == (self.objects().contains_key(name as u64) || self.ext_objects().contains_key(
                name as u64,
            )),
    {
        self.object_types.contains_key(name as u64) || self.external_object_types.contains_key(
            name as u64,
        )
    }

    /// Adds one variable binding to a procedure scope and records the
    /// scope under the file for later removal.
    pub fn add_variable_binding(
        &mut self,
        file: PathId,
        procedure_qname: QualifiedName,
        var_name: Symbol,
        ty_name: Symbol,
    )
        requires
            old(self).wf(),
            adj(old(self).vars(), procedure_qname.spec_key()).len() < 0xFFFF_FFFF,
        ensures
            final(self).wf(),
            final(self).vars() == old(self).vars().insert(
                procedure_qname.spec_key(),
                adj(old(self).vars(), procedure_qname.spec_key()).push((var_name, ty_name)),
            ),
            final(self).file_vars() == old(self).file_vars().insert(
                file as u64,
                adj(old(self).file_vars(), file as u64).push(procedure_qname.spec_key()),
            ),
            final(self).strings() == old(self).strings(),
            final(self).paths() == old(self).paths(),
            final(self).defs() == old(self).defs(),
            final(self).sites() == old(self).sites(),
            final(self).file_sites() == old(self).file_sites(),
            final(self).incoming() == old(self).incoming(),
            final(self).outgoing() == old(self).outgoing(),
            final(self).file_defs() == old(self).file_defs(),
            final(self).objects() == old(self).objects(),
            final(self).ext_objects() == old(self).ext_objects(),
            final(self).ext_defs() == old(self).ext_defs(),
            final(self).subs() == old(self).subs(),
    {
        let qk = procedure_qname.key();
        let mut scope = match self.variable_bindings.take(qk) {
            Some(v) => v,
            None => var_vec_new(),
        };
        var_vec_push(&mut scope, (var_name, ty_name));
        self.variable_bindings.insert(qk, scope);
        proof {
            assert(self.vars() =~= old(self).vars().insert(
                qk,
                adj(old(self).vars(), qk).push((var_name, ty_name)),
            ));
        }
        let mut scopes = match self.file_variables.take(file as u64) {
            Some(v) => v,
            None => Vec::new(),
        };
        scopes.push(qk);
        self.file_variables.insert(file as u64, scopes);
        proof {
            assert(self.file_vars() =~= old(self).file_vars().insert(
                file as u64,
                adj(old(self).file_vars(), file as u64).push(qk),
            ));
            lemma_wf_unchanged_views(*old(self), *self);
        }
    }

    /// Looks up the type bound to a variable name in a procedure scope:
    /// the first binding of that name wins.
    pub fn lookup_variable_type(&self, procedure_qname: &QualifiedName, var_name: Symbol) -> (r:
        Option<Symbol>)
        requires
            self.wf(),
        ensures
            r == spec_lookup_binding(adj(self.vars(), procedure_qname.spec_key()), var_name),
    {
        let qk = procedure_qname.key();
        match self.variable_bindings.get(qk) {
            Some(scope) => {
                let n = var_vec_len(scope);
                let ghost s = var_vec_elems(*scope);
                proof {
                    assert(self.vars().contains_key(qk));
                    assert(adj(self.vars(), qk) == s);
                    assert(s.skip(0) =~= s);
                }
                let mut i: usize = 0;
                while i < n
                    invariant
                        n == s.len(),
                        0 <= i <= n,
                        var_vec_elems(*scope) == s,
                        qk == procedure_qname.spec_key(),
                        adj(self.vars(), qk) == s,
                        spec_lookup_binding(s, var_name) == spec_lookup_binding(
                            s.skip(i as int),
                            var_name,
                        ),
                        forall|j: int| 0 <= j < i ==> s[j].0 != var_name,
                    decreases n - i,
                {
                    let pair = var_vec_get(scope, i);
                    proof {
                        assert(s.skip(i as int)[0] == s[i as int]);
                    }
                    if pair.0 == var_name {
                        return Some(pair.1);
                    }
                    proof {
                        assert(s.skip(i as int).drop_first() =~= s.skip(i + 1));
                    }
                    i = i + 1;
                }
                proof {
                    assert(s.skip(n as int).len() == 0);
                }
                None
            },
            None => {
                proof {
                    assert(!self.vars().contains_key(qk));
                }
                None
            },
        }
    }


    /// Adds a definition under its qualified name; a duplicate name
    /// overwrites. The definition is also listed under its file, and an
    /// event subscriber under its declared target.
    pub fn add_definition(&mut self, def: Definition)
        requires
            old(self).wf(),
            old(self).path_live(def.file as u64),
            (def.object_name as int) < old(self).strings().len(),
            (def.name as int) < old(self).strings().len(),
        ensures
            final(self).wf(),
            final(self).defs() == old(self).defs().insert(
                spec_qkey(def.object_name, def.name),
                def,
            ),
            final(self).file_defs() == old(self).file_defs().insert(
                def.file as u64,
                adj(old(self).file_defs(), def.file as u64).push(
                    spec_qkey(def.object_name, def.name),
                ),
            ),
            final(self).subs() == if def.kind is EventSubscriber && def.event_target is Some {
                let tk = def.event_target->0.spec_key();
                old(self).subs().insert(
                    tk,
                    adj(old(self).subs(), tk).push(spec_qkey(def.object_name, def.name)),
                )
            } else {
                old(self).subs()
            },
            final(self).strings() == old(self).strings(),
            final(self).paths() == old(self).paths(),
            final(self).sites() == old(self).sites(),
            final(self).file_sites() == old(self).file_sites(),
            final(self).incoming() == old(self).incoming(),
            final(self).outgoing() == old(self).outgoing(),
            final(self).objects() == old(self).objects(),
            final(self).ext_objects() == old(self).ext_objects(),
            final(self).ext_defs() == old(self).ext_defs(),
            final(self).vars() == old(self).vars(),
            final(self).file_vars() == old(self).file_vars(),
    {
        let qk = crate::qkey(def.object_name, def.name);
        let fk = def.file as u64;
        let mut listed = match self.file_definitions.take(fk) {
            Some(v) => v,
            None => Vec::new(),
        };
        listed.push(qk);
        self.file_definitions.insert(fk, listed);
        proof {
            assert(self.file_defs() =~= old(self).file_defs().insert(
                fk,
                adj(old(self).file_defs(), fk).push(qk),
            ));
        }
        let is_subscriber = matches!(def.kind, DefinitionKind::EventSubscriber);
        let target = def.event_target;
        self.definitions.insert(qk, def);
        if is_subscriber {
            match target {
                Some(t) => {
                    let tk = t.key();
                    let mut subs_list = match self.subscribers.take(tk) {
                        Some(v) => v,
                        None => Vec::new(),
                    };
                    subs_list.push(qk);
                    self.subscribers.insert(tk, subs_list);
                    proof {
                        assert(self.subs() =~= old(self).subs().insert(
                            tk,
                            adj(old(self).subs(), tk).push(qk),
                        ));
                    }
                },
                None => {},
            }
        }
        proof {
            lemma_wf_adj_views(*old(self), *self);
            assert(self.wf_defs()) by {
                assert forall|q: u64| self.defs().contains_key(q) implies {
                    let d = self.defs()[q];
                    &&& spec_qkey(d.object_name, d.name) == q
                    &&& self.path_live(d.file as u64)
                    &&& self.file_defs().contains_key(d.file as u64)
                    &&& self.file_defs()[d.file as u64].contains(q)
                } by {
                    let d = self.defs()[q];
                    if q == qk {
                        assert(self.file_defs()[fk].last() == qk);
                    } else {
                        assert(old(self).defs().contains_key(q) && old(self).defs()[q] == d);
                        if d.file as u64 == fk {
                            let l0 = adj(old(self).file_defs(), fk);
                            let j = choose|j: int| 0 <= j < l0.len() && l0[j] == q;
                            assert(self.file_defs()[fk][j] == q);
                        }
                    }
                }
            }
            assert(self.wf_syms()) by {
                assert forall|i: int|
                    0 <= i < self.sites().len() && self.sites()[i] is Some implies {
                    let c = self.sites()[i]->Some_0;
                    &&& self.path_live(c.file as u64)
                    &&& (c.caller as int) < self.strings().len()
                    &&& (c.callee_method as int) < self.strings().len()
                    &&& (c.callee_object is Some ==> (c.callee_object->0 as int)
                        < self.strings().len())
                } by {
                    assert(old(self).sites()[i] is Some);
                }
                assert forall|q: u64| self.defs().contains_key(q) implies {
                    let d = self.defs()[q];
                    (d.object_name as int) < self.strings().len() && (d.name as int)
                        < self.strings().len()
                } by {
                    if q != qk {
                        assert(old(self).defs().contains_key(q) && old(self).defs()[q]
                            == self.defs()[q]);
                    }
                }
            }
        }
    }

    /// Looks a definition up by its qualified name.
    pub fn get_definition(&self, qname: &QualifiedName) -> (r: Option<&Definition>)
        requires
            self.wf(),
        ensures
            match r {
                Some(d) => self.defs().contains_key(qname.spec_key()) && *d == self.defs()[
                    qname.spec_key()
                ],
                None => !self.defs().contains_key(qname.spec_key()),
            },
    {
        self.definitions.get(qname.key())
    }

    /// The number of definitions held.
    pub fn definition_count(&self) -> (r: usize)
        requires
            self.wf(),
        ensures
            r == self.defs().dom().len(),
    {
        self.definitions.len()
    }

    /// The number of live, non-tombstoned call sites.
    pub fn call_site_count(&self) -> (r: usize)
        ensures
            r == self.sites().filter(|o: Option<CallSite>| o is Some).len(),
    {
        let n = self.call_sites.len();
        let mut count: usize = 0;
        let mut i: usize = 0;
        proof {
            reveal(Seq::filter);
            assert(self.sites().subrange(0, 0) =~= Seq::<Option<CallSite>>::empty());
        }
        while i < n
            invariant
                n == self.sites().len(),
                0 <= i <= n,
                count == self.sites().subrange(0, i as int).filter(
                    |o: Option<CallSite>| o is Some,
                ).len(),
                count <= i,
            decreases n - i,
        {
            proof {
                reveal(Seq::filter);
                assert(self.sites().subrange(0, i + 1).drop_last() =~= self.sites().subrange(
                    0,
                    i as int,
                ));
                assert(self.sites().subrange(0, i + 1).last() == self.sites()[i as int]);
            }
            if self.call_sites[i].is_some() {
                count = count + 1;
            }
            i = i + 1;
        }
        proof {
            assert(self.sites().subrange(0, n as int) =~= self.sites());
        }
        count
    }


    /// Resolves a call to the qualified name it targets: a known object
    /// receiver first, then a scope variable's type, then the receiver as
    /// written; an unqualified call stays in the caller's object.
    pub fn resolve_call(&self, caller_qname: &QualifiedName, call: &CallSite) -> (r: QualifiedName)
        requires
            self.wf(),
        ensures
            r == spec_resolve_call(*self, *caller_qname, *call),
    {
        match call.callee_object {
            Some(obj) => {
                if self.is_known_object(obj) {
                    QualifiedName { object: obj, procedure: call.callee_method }
                } else {
                    match self.lookup_variable_type(caller_qname, obj) {
                        Some(t) => QualifiedName { object: t, procedure: call.callee_method },
                        None => QualifiedName { object: obj, procedure: call.callee_method },
                    }
                }
            },
            None => QualifiedName {
                object: caller_qname.object,
                procedure: call.callee_method,
            },
        }
    }

    /// Appends a call site to the arena, records it under its file and the
    /// caller's outgoing edges, resolves its target and records the
    /// incoming edge there.
    pub fn add_call_site(&mut self, caller_qname: QualifiedName, call: CallSite)
        requires
            old(self).wf(),
            old(self).path_live(call.file as u64),
            old(self).sites().len() < 0xFFFF_FFFF,
            (call.caller as int) < old(self).strings().len(),
            (call.callee_method as int) < old(self).strings().len(),
            call.callee_object is Some ==> (call.callee_object->0 as int) < old(
                self,
            ).strings().len(),
        ensures
            final(self).wf(),
            final(self).sites() == old(self).sites().push(Some(call)),
            final(self).file_sites() == old(self).file_sites().insert(
                call.file as u64,
                adj(old(self).file_sites(), call.file as u64).push(
                    old(self).sites().len() as CallSiteIdx,
                ),
            ),
            final(self).outgoing() == old(self).outgoing().insert(
                caller_qname.spec_key(),
                adj(old(self).outgoing(), caller_qname.spec_key()).push(
                    old(self).sites().len() as CallSiteIdx,
                ),
            ),
            final(self).incoming() == old(self).incoming().insert(
                spec_resolve_call(*old(self), caller_qname, call).spec_key(),
                adj(
                    old(self).incoming(),
                    spec_resolve_call(*old(self), caller_qname, call).spec_key(),
                ).push(old(self).sites().len() as CallSiteIdx),
            ),
            final(self).strings() == old(self).strings(),
            final(self).paths() == old(self).paths(),
            final(self).defs() == old(self).defs(),
            final(self).file_defs() == old(self).file_defs(),
            final(self).objects() == old(self).objects(),
            final(self).ext_objects() == old(self).ext_objects(),
            final(self).ext_defs() == old(self).ext_defs(),
            final(self).vars() == old(self).vars(),
            final(self).file_vars() == old(self).file_vars(),
            final(self).subs() == old(self).subs(),
    {
        let target = self.resolve_call(&caller_qname, &call);
        let idx = self.call_sites.len() as CallSiteIdx;
        let fk = call.file as u64;
        self.call_sites.push(Some(call));
        proof {
            assert(self.sites() =~= old(self).sites().push(Some(call)));
        }
        let mut in_file = match self.file_call_sites.take(fk) {
            Some(v) => v,
            None => Vec::new(),
        };
        in_file.push(idx);
        self.file_call_sites.insert(fk, in_file);
        proof {
            assert(self.file_sites() =~= old(self).file_sites().insert(
                fk,
                adj(old(self).file_sites(), fk).push(idx),
            ));
        }
        let ck = caller_qname.key();
        let mut out_list = match self.outgoing_calls.take(ck) {
            Some(v) => v,
            None => Vec::new(),
        };
        out_list.push(idx);
        self.outgoing_calls.insert(ck, out_list);
        proof {
            assert(self.outgoing() =~= old(self).outgoing().insert(
                ck,
                adj(old(self).outgoing(), ck).push(idx),
            ));
        }
        let tk = target.key();
        let mut in_list = match self.incoming_calls.take(tk) {
            Some(v) => v,
            None => Vec::new(),
        };
        in_list.push(idx);
        self.incoming_calls.insert(tk, in_list);
        proof {
            assert(self.incoming() =~= old(self).incoming().insert(
                tk,
                adj(old(self).incoming(), tk).push(idx),
            ));
        }
        proof {
            let pre = *old(self);
            let post = *self;
            assert(post.site_live(idx));
            assert forall|i: int|
                0 <= i < pre.sites().len() && pre.sites()[i] is Some implies post.sites()[i]
                == pre.sites()[i] by {}
            lemma_tr_strings(pre, post);
            lemma_tr_paths(pre, post);
            assert(post.wf_adj()) by {
                assert forall|q: u64, t: int|
                    #![trigger adj(post.incoming(), q)[t]]
                    0 <= t < adj(post.incoming(), q).len() implies post.site_live(
                    adj(post.incoming(), q)[t],
                ) by {
                    if q == tk && t == adj(post.incoming(), q).len() - 1 {
                    } else {
                        assert(adj(post.incoming(), q)[t] == adj(pre.incoming(), q)[t]);
                        assert(pre.site_live(adj(pre.incoming(), q)[t]));
                    }
                }
                assert forall|q: u64, t: int|
                    #![trigger adj(post.outgoing(), q)[t]]
                    0 <= t < adj(post.outgoing(), q).len() implies post.site_live(
                    adj(post.outgoing(), q)[t],
                ) by {
                    if q == ck && t == adj(post.outgoing(), q).len() - 1 {
                    } else {
                        assert(adj(post.outgoing(), q)[t] == adj(pre.outgoing(), q)[t]);
                        assert(pre.site_live(adj(pre.outgoing(), q)[t]));
                    }
                }
            }
            assert(post.wf_file_sites()) by {
                assert forall|p: u64, t: int|
                    #![trigger adj(post.file_sites(), p)[t]]
                    0 <= t < adj(post.file_sites(), p).len() implies {
                    let i = adj(post.file_sites(), p)[t];
                    post.site_live(i) && post.sites()[i as int]->Some_0.file as u64 == p
                } by {
                    if p == fk && t == adj(post.file_sites(), p).len() - 1 {
                    } else {
                        assert(adj(post.file_sites(), p)[t] == adj(pre.file_sites(), p)[t]);
                        assert(pre.site_live(adj(pre.file_sites(), p)[t]));
                    }
                }
                assert forall|i: int|
                    0 <= i < post.sites().len() && post.sites()[i] is Some implies {
                    let p = post.sites()[i]->Some_0.file as u64;
                    post.file_sites().contains_key(p) && post.file_sites()[p].contains(
                        i as CallSiteIdx,
                    )
                } by {
                    let p = post.sites()[i]->Some_0.file as u64;
                    if i == pre.sites().len() {
                        assert(post.file_sites()[fk].last() == idx);
                    } else {
                        assert(pre.sites()[i] is Some);
                        assert(pre.file_sites().contains_key(p) && pre.file_sites()[p].contains(
                            i as CallSiteIdx,
                        ));
                        if p == fk {
                            let l0 = adj(pre.file_sites(), fk);
                            let j = choose|j: int| 0 <= j < l0.len() && l0[j] == i as CallSiteIdx;
                            assert(post.file_sites()[fk][j] == i as CallSiteIdx);
                        }
                    }
                }
            }
            lemma_tr_defs(pre, post);
            assert(post.wf_syms()) by {
                assert forall|i: int|
                    0 <= i < post.sites().len() && post.sites()[i] is Some implies {
                    let c = post.sites()[i]->Some_0;
                    &&& post.path_live(c.file as u64)
                    &&& (c.caller as int) < post.strings().len()
                    &&& (c.callee_method as int) < post.strings().len()
                    &&& (c.callee_object is Some ==> (c.callee_object->0 as int)
                        < post.strings().len())
                } by {
                    if i < pre.sites().len() {
                        assert(pre.sites()[i] is Some);
                    }
                }
                assert forall|q: u64| post.defs().contains_key(q) implies {
                    let d = post.defs()[q];
                    (d.object_name as int) < post.strings().len() && (d.name as int)
                        < post.strings().len()
                } by {
                    assert(pre.defs().contains_key(q) && pre.defs()[q] == post.defs()[q]);
                }
            }
        }
    }

    /// Reads one arena slot; a tombstoned or out-of-range index yields
    /// nothing.
    pub fn get_call_site(&self, idx: CallSiteIdx) -> (r: Option<CallSite>)
        ensures
            match r {
                Some(c) => self.site_live(idx) && self.sites()[idx as int] == Some(c),
                None => !self.site_live(idx),
            },
    {
        if (idx as usize) < self.call_sites.len() {
            self.call_sites[idx as usize]
        } else {
            None
        }
    }

    /// The call sites recorded as incoming to a qualified name, in
    /// insertion order.
    pub fn get_incoming_calls(&self, qname: &QualifiedName) -> (r: Vec<CallSite>)
        requires
            self.wf(),
        ensures
            r@.len() == adj(self.incoming(), qname.spec_key()).len(),
            forall|t: int|
                0 <= t < r@.len() ==> self.sites()[
                    adj(self.incoming(), qname.spec_key())[t] as int
                ] == Some(#[trigger] r@[t]),
    {
        let qk = qname.key();
        self.collect_sites(self.incoming_calls.get(qk), Ghost(adj(self.incoming(), qk)))
    }

    /// The call sites recorded as outgoing from a qualified name, in
    /// insertion order.
    pub fn get_outgoing_calls(&self, qname: &QualifiedName) -> (r: Vec<CallSite>)
        requires
            self.wf(),
        ensures
            r@.len() == adj(self.outgoing(), qname.spec_key()).len(),
            forall|t: int|
                0 <= t < r@.len() ==> self.sites()[
                    adj(self.outgoing(), qname.spec_key())[t] as int
                ] == Some(#[trigger] r@[t]),
    {
        let qk = qname.key();
        self.collect_sites(self.outgoing_calls.get(qk), Ghost(adj(self.outgoing(), qk)))
    }

    /// Turns a list of live arena indices into the sites they hold.
    fn collect_sites(&self, list: Option<&Vec<CallSiteIdx>>, expected: Ghost<Seq<CallSiteIdx>>) -> (r: Vec<CallSite>)
        requires
            match list {
                Some(l) => l@ == expected@,
                None => expected@ == Seq::<CallSiteIdx>::empty(),
            },
            forall|t: int| 0 <= t < expected@.len() ==> self.site_live(#[trigger] expected@[t]),
        ensures
            r@.len() == expected@.len(),
            forall|t: int|
                0 <= t < r@.len() ==> self.sites()[expected@[t] as int] == Some(#[trigger] r@[t]),
    {
        let mut r: Vec<CallSite> = Vec::new();
        match list {
            Some(l) => {
                let n = l.len();
                let mut t: usize = 0;
                while t < n
                    invariant
                        l@ == expected@,
                        n == expected@.len(),
                        forall|u: int|
                            0 <= u < expected@.len() ==> self.site_live(#[trigger] expected@[u]),
                        0 <= t <= n,
                        r@.len() == t,
                        forall|u: int|
                            0 <= u < t ==> self.sites()[expected@[u] as int] == Some(
                                #[trigger] r@[u],
                            ),
                    decreases n - t,
                {
                    let idx = l[t];
                    match self.get_call_site(idx) {
                        Some(c) => {
                            r.push(c);
                        },
                        None => {
                            proof {
                                assert(self.site_live(expected@[t as int]));
                                assert(false);
                            }
                        },
                    }
                    t = t + 1;
                }
                r
            },
            None => r,
        }
    }

    /// The number of live incoming calls of a qualified name, without
    /// materializing them.
    pub fn get_incoming_call_count(&self, qname: &QualifiedName) -> (r: usize)
        requires
            self.wf(),
        ensures
            r == adj(self.incoming(), qname.spec_key()).len(),
    {
        match self.incoming_calls.get(qname.key()) {
            Some(l) => l.len(),
            None => 0,
        }
    }


    /// Finds the live pool id of a path, without adding it.
    fn find_path_id(&self, file: &str) -> (r: Option<PathId>)
        requires
            self.wf(),
        ensures
            match r {
                Some(i) => self.path_live(i as u64) && self.paths()[i as int] == Some(file@),
                None => forall|i: int|
                    0 <= i < self.paths().len() ==> self.paths()[i] != Some(file@),
            },
    {
        let n = self.path_pool.len();
        let mut i: usize = 0;
        while i < n
            invariant
                self.wf(),
                n == self.paths().len(),
                0 <= i <= n,
                forall|j: int| 0 <= j < i ==> self.paths()[j] != Some(file@),
            decreases n - i,
        {
            let hit = match &self.path_pool[i] {
                Some(p) => crate::strutil::str_eq(p.as_str(), file),
                None => false,
            };
            if hit {
                proof {
                    assert(self.paths()[i as int] == Some(file@));
                }
                return Some(i as u32);
            }
            proof {
                assert(self.paths()[i as int] != Some(file@));
            }
            i = i + 1;
        }
        None
    }

    /// Finds the definition whose range holds a position in a file: the
    /// first listed one wins. A file never indexed yields nothing.
    pub fn find_definition_at(&self, file: &str, line: u32, character: u32) -> (r: Option<
        Definition,
    >)
        requires
            self.wf(),
        ensures
            ({
                if exists|i: int| 0 <= i < self.paths().len() && self.paths()[i] == Some(file@) {
                    let i = choose|i: int|
                        0 <= i < self.paths().len() && self.paths()[i] == Some(file@);
                    r == spec_first_def_at(
                        *self,
                        adj(self.file_defs(), i as u64),
                        line,
                        character,
                    )
                } else {
                    r is None
                }
            }),
    {
        let pid = self.find_path_id(file);
        match pid {
            None => None,
            Some(p) => {
                proof {
                    let c = choose|i: int|
                        0 <= i < self.paths().len() && self.paths()[i] == Some(file@);
                    if c != p as int {
                        assert(false);
                    }
                }
                match self.file_definitions.get(p as u64) {
                    None => {
                        proof {
                            assert(adj(self.file_defs(), p as u64) == Seq::<u64>::empty());
                        }
                        None
                    },
                    Some(list) => {
                        let ghost l = adj(self.file_defs(), p as u64);
                        proof {
                            assert(l == list@);
                            assert(l.skip(0) =~= l);
                        }
                        let n = list.len();
                        let mut t: usize = 0;
                        while t < n
                            invariant
                                self.wf(),
                                list@ == l,
                                n == l.len(),
                                0 <= t <= n,
                                self.path_live(p as u64),
                                self.paths()[p as int] == Some(file@),
                                l == adj(self.file_defs(), p as u64),
                                spec_first_def_at(*self, l, line, character)
                                    == spec_first_def_at(*self, l.skip(t as int), line, character),
                            decreases n - t,
                        {
                            proof {
                                assert(l.skip(t as int)[0] == l[t as int]);
                                assert(l.skip(t as int).drop_first() =~= l.skip(t + 1));
                            }
                            let q = list[t];
                            match self.definitions.get(q) {
                                Some(d) => {
                                    let in_range = d.range.start.line <= line && d.range.end.line
                                        >= line && (d.range.start.line < line
                                        || d.range.start.character <= character) && (
                                    d.range.end.line > line || d.range.end.character >= character);
                                    if in_range {
                                        proof {
                                            assert(spec_first_def_at(
                                                *self,
                                                l.skip(t as int),
                                                line,
                                                character,
                                            ) == Some(self.defs()[q]));
                                            let c = choose|i: int|
                                                0 <= i < self.paths().len() && self.paths()[i]
                                                    == Some(file@);
                                            if c != p as int {
                                                assert(false);
                                            }
                                        }
                                        return Some(*d);
                                    }
                                },
                                None => {},
                            }
                            t = t + 1;
                        }
                        proof {
                            assert(l.skip(n as int).len() == 0);
                        }
                        None
                    },
                }
            },
        }
    }

    /// The definitions of a file, in the order they were added. A file
    /// never indexed yields none.
    pub fn get_definitions_in_file(&self, file: &str) -> (r: Vec<Definition>)
        requires
            self.wf(),
        ensures
            ({
                if exists|i: int| 0 <= i < self.paths().len() && self.paths()[i] == Some(file@) {
                    let i = choose|i: int|
                        0 <= i < self.paths().len() && self.paths()[i] == Some(file@);
                    r@ == spec_defs_of_keys(*self, adj(self.file_defs(), i as u64))
                } else {
                    r@ == Seq::<Definition>::empty()
                }
            }),
    {
        let pid = self.find_path_id(file);
        match pid {
            None => Vec::new(),
            Some(p) => {
                proof {
                    let c = choose|i: int|
                        0 <= i < self.paths().len() && self.paths()[i] == Some(file@);
                    if c != p as int {
                        assert(false);
                    }
                }
                match self.file_definitions.get(p as u64) {
                    None => {
                        proof {
                            assert(adj(self.file_defs(), p as u64) == Seq::<u64>::empty());
                        }
                        Vec::new()
                    },
                    Some(list) => self.defs_for_keys(list, Ghost(adj(self.file_defs(), p as u64))),
                }
            },
        }
    }

    /// The definitions of the event subscribers declared for a target.
    pub fn get_event_subscribers(&self, target: &QualifiedName) -> (r: Vec<Definition>)
        requires
            self.wf(),
        ensures
            r@ == spec_defs_of_keys(*self, adj(self.subs(), target.spec_key())),
    {
        match self.subscribers.get(target.key()) {
            None => {
                proof {
                    assert(adj(self.subs(), target.spec_key()) == Seq::<u64>::empty());
                }
                Vec::new()
            },
            Some(list) => self.defs_for_keys(list, Ghost(adj(self.subs(), target.spec_key()))),
        }
    }

    /// Collects the definitions a key list denotes.
    fn defs_for_keys(&self, list: &Vec<u64>, expected: Ghost<Seq<u64>>) -> (r: Vec<Definition>)
        requires
            self.wf(),
            list@ == expected@,
        ensures
            r@ == spec_defs_of_keys(*self, expected@),
    {
        let ghost l = expected@;
        proof {
            assert(l.skip(0) =~= l);
        }
        let mut r: Vec<Definition> = Vec::new();
        let n = list.len();
        let mut t: usize = 0;
        while t < n
            invariant
                self.wf(),
                list@ == l,
                n == l.len(),
                0 <= t <= n,
                r@ + spec_defs_of_keys(*self, l.skip(t as int)) == spec_defs_of_keys(*self, l),
            decreases n - t,
        {
            let ghost r_pre = r@;
            proof {
                assert(l.skip(t as int)[0] == l[t as int]);
                assert(l.skip(t as int).drop_first() =~= l.skip(t + 1));
            }
            match self.definitions.get(list[t]) {
                Some(d) => {
                    r.push(*d);
                    proof {
                        assert(r@ =~= r_pre + seq![self.defs()[l[t as int]]]);
                        assert((r_pre + seq![self.defs()[l[t as int]]]) + spec_defs_of_keys(
                            *self,
                            l.skip(t + 1),
                        ) =~= r_pre + (seq![self.defs()[l[t as int]]] + spec_defs_of_keys(
                            *self,
                            l.skip(t + 1),
                        )));
                    }
                },
                None => {},
            }
            t = t + 1;
        }
        proof {
            assert(l.skip(n as int).len() == 0);
            assert(r@ + Seq::<Definition>::empty() =~= r@);
        }
        r
    }

    /// The definitions that are plain procedures with no incoming calls,
    /// in insertion order.
    pub fn get_unused_procedures(&self) -> (r: Vec<Definition>)
        requires
            self.wf(),
        ensures
            r@ == spec_unused_of(*self, self.defs_kv()),
    {
        let ghost kv = self.defs_kv();
        proof {
            assert(kv.skip(0) =~= kv);
        }
        let mut r: Vec<Definition> = Vec::new();
        let n = self.definitions.num_entries();
        let mut t: usize = 0;
        while t < n
            invariant
                self.wf(),
                kv == self.defs_kv(),
                n == kv.len(),
                0 <= t <= n,
                r@ + spec_unused_of(*self, kv.skip(t as int)) == spec_unused_of(*self, kv),
            decreases n - t,
        {
            let ghost r_pre = r@;
            proof {
                assert(kv.skip(t as int)[0] == kv[t as int]);
                assert(kv.skip(t as int).drop_first() =~= kv.skip(t + 1));
            }
            let q = self.definitions.key_at(t);
            let d = self.definitions.value_at(t);
            let unused = matches!(d.kind, DefinitionKind::Procedure) && match self
                .incoming_calls
                .get(q) {
                Some(l) => l.len() == 0,
                None => true,
            };
            if unused {
                r.push(*d);
                proof {
                    assert(spec_is_unused(*self, kv[t as int].0, kv[t as int].1));
                    assert(r@ =~= r_pre + seq![kv[t as int].1]);
                    assert((r_pre + seq![kv[t as int].1]) + spec_unused_of(*self, kv.skip(t + 1))
                        =~= r_pre + (seq![kv[t as int].1] + spec_unused_of(*self, kv.skip(t + 1))));
                }
            } else {
                proof {
                    assert(!spec_is_unused(*self, kv[t as int].0, kv[t as int].1));
                }
            }
            t = t + 1;
        }
        proof {
            assert(kv.skip(n as int).len() == 0);
            assert(r@ + Seq::<Definition>::empty() =~= r@);
        }
        r
    }


    /// Removes everything a file contributed: its definitions and their
    /// adjacency entries, its variable scopes, its call sites (tombstoned
    /// in place so other indices stay stable), every stale index in the
    /// remaining adjacency lists, its subscriber entries, and the path
    /// pool entry itself. A file never indexed leaves the graph unchanged.
    pub fn remove_file(&mut self, file: &str)
        requires
            old(self).wf(),
        ensures
            final(self).wf(),
            spec_removed_file(*old(self), *final(self), file@),
    {
        let pid_opt = self.find_path_id(file);
        let pid = match pid_opt {
            Some(p) => p,
            None => {
                return ;
            },
        };
        proof {
            let c = choose|i: int|
                0 <= i < self.paths().len() && self.paths()[i] == Some(file@);
            if c != pid as int {
                assert(false);
            }
        }
        let ghost g0 = *self;
        let pk = pid as u64;

        // Drop the file's definitions and their adjacency entries.
        let removed_defs = match self.file_definitions.take(pk) {
            Some(v) => v,
            None => Vec::new(),
        };
        let ghost rd = removed_defs@;
        proof {
            assert(rd == adj(g0.file_defs(), pk));
            assert(self.file_defs() =~= g0.file_defs().remove(pk));
            assert(rd.take(0) =~= Seq::<u64>::empty());
            assert(self.defs() =~= g0.defs().remove_keys(key_set(rd.take(0))));
            assert(self.incoming() =~= g0.incoming().remove_keys(key_set(rd.take(0))));
            assert(self.outgoing() =~= g0.outgoing().remove_keys(key_set(rd.take(0))));
        }
        let nrd = removed_defs.len();
        let mut i: usize = 0;
        while i < nrd
            invariant
                nrd == rd.len(),
                0 <= i <= nrd,
                self.wf_maps(),
                self.defs() == g0.defs().remove_keys(key_set(rd.take(i as int))),
                self.incoming() == g0.incoming().remove_keys(key_set(rd.take(i as int))),
                self.outgoing() == g0.outgoing().remove_keys(key_set(rd.take(i as int))),
                removed_defs@ == rd,
                self.strings() == g0.strings(),
                self.paths() == g0.paths(),
                self.sites() == g0.sites(),
                self.file_sites() == g0.file_sites(),
                self.file_defs() == g0.file_defs().remove(pk),
                self.objects() == g0.objects(),
                self.ext_objects() == g0.ext_objects(),
                self.ext_defs() == g0.ext_defs(),
                self.vars() == g0.vars(),
                self.file_vars() == g0.file_vars(),
                self.subs() == g0.subs(),
            decreases nrd - i,
        {
            let ghost s_head = *self;
            let q = removed_defs[i];
            self.definitions.remove(q);
            self.incoming_calls.remove(q);
            self.outgoing_calls.remove(q);
            proof {
                lemma_take_contains(rd, i as int);
                assert(self.defs() =~= g0.defs().remove_keys(key_set(rd.take(i + 1))));
                assert(self.incoming() =~= s_head.incoming().remove(q));
                assert(self.incoming() =~= g0.incoming().remove_keys(key_set(rd.take(i + 1))));
                assert(self.outgoing() =~= s_head.outgoing().remove(q));
                assert(self.outgoing() =~= g0.outgoing().remove_keys(key_set(rd.take(i + 1))));
            }
            i = i + 1;
        }
        proof {
            assert(rd.take(nrd as int) =~= rd);
        }

        // Drop the variable scopes recorded for the file.
        let removed_scopes = match self.file_variables.take(pk) {
            Some(v) => v,
            None => Vec::new(),
        };
        let ghost rs = removed_scopes@;
        proof {
            assert(rs == adj(g0.file_vars(), pk));
            assert(self.file_vars() =~= g0.file_vars().remove(pk));
            assert(rs.take(0) =~= Seq::<u64>::empty());
            assert(self.vars() =~= g0.vars().remove_keys(key_set(rs.take(0))));
        }
        let nrs = removed_scopes.len();
        let mut i2: usize = 0;
        while i2 < nrs
            invariant
                nrs == rs.len(),
                0 <= i2 <= nrs,
                self.wf_maps(),
                self.vars() == g0.vars().remove_keys(key_set(rs.take(i2 as int))),
                removed_scopes@ == rs,
                self.strings() == g0.strings(),
                self.paths() == g0.paths(),
                self.sites() == g0.sites(),
                self.defs() == g0.defs().remove_keys(key_set(rd)),
                self.incoming() == g0.incoming().remove_keys(key_set(rd)),
                self.outgoing() == g0.outgoing().remove_keys(key_set(rd)),
                self.file_sites() == g0.file_sites(),
                self.file_defs() == g0.file_defs().remove(pk),
                self.objects() == g0.objects(),
                self.ext_objects() == g0.ext_objects(),
                self.ext_defs() == g0.ext_defs(),
                self.file_vars() == g0.file_vars().remove(pk),
                self.subs() == g0.subs(),
            decreases nrs - i2,
        {
            let ghost s_head = *self;
            let q = removed_scopes[i2];
            self.variable_bindings.remove(q);
            proof {
                lemma_take_contains(rs, i2 as int);
                assert(self.vars() =~= s_head.vars().remove(q));
                assert(self.vars() =~= g0.vars().remove_keys(key_set(rs.take(i2 + 1))));
            }
            i2 = i2 + 1;
        }
        proof {
            assert(rs.take(nrs as int) =~= rs);
        }

        // Tombstone the file's call sites; indices of other files stay.
        let removed_sites = match self.file_call_sites.take(pk) {
            Some(v) => v,
            None => Vec::new(),
        };
        let ghost rt = removed_sites@;
        proof {
            assert(rt == adj(g0.file_sites(), pk));
            assert(self.file_sites() =~= g0.file_sites().remove(pk));
            assert(rt.take(0) =~= Seq::<CallSiteIdx>::empty());
        }
        let nrt = removed_sites.len();
        let mut i3: usize = 0;
        while i3 < nrt
            invariant
                nrt == rt.len(),
                0 <= i3 <= nrt,
                self.wf_maps(),
                removed_sites@ == rt,
                forall|t: int| 0 <= t < rt.len() ==> (#[trigger] rt[t] as int) < g0.sites().len(),
                g0.sites().len() <= 0xFFFF_FFFF,
                self.sites().len() == g0.sites().len(),
                forall|j: int|
                    0 <= j < g0.sites().len() ==> #[trigger] self.sites()[j] == (
                    if rt.take(i3 as int).contains(j as CallSiteIdx) {
                        None
                    } else {
                        g0.sites()[j]
                    }),
                self.strings() == g0.strings(),
                self.paths() == g0.paths(),
                self.defs() == g0.defs().remove_keys(key_set(rd)),
                self.incoming() == g0.incoming().remove_keys(key_set(rd)),
                self.outgoing() == g0.outgoing().remove_keys(key_set(rd)),
                self.vars() == g0.vars().remove_keys(key_set(rs)),
                self.file_sites() == g0.file_sites().remove(pk),
                self.file_defs() == g0.file_defs().remove(pk),
                self.objects() == g0.objects(),
                self.ext_objects() == g0.ext_objects(),
                self.ext_defs() == g0.ext_defs(),
                self.file_vars() == g0.file_vars().remove(pk),
                self.subs() == g0.subs(),
            decreases nrt - i3,
        {
            let ghost s_head = *self;
            let idx = removed_sites[i3];
            proof {
                assert((rt[i3 as int] as int) < g0.sites().len());
            }
            self.call_sites[idx as usize] = None;
            proof {
                lemma_take_contains(rt, i3 as int);
                assert(self.sites() == s_head.sites().update(idx as int, None));
                assert forall|j: int| 0 <= j < g0.sites().len() implies #[trigger] self.sites()[j]
                    == (if rt.take(i3 + 1).contains(j as CallSiteIdx) {
                    None
                } else {
                    g0.sites()[j]
                }) by {
                    if j == idx as int {
                        assert(rt.take(i3 + 1).contains(idx)) by {
                            assert(rt.take(i3 + 1)[i3 as int] == idx);
                        }
                    } else {
                        assert(self.sites()[j] == s_head.sites()[j]);
                        assert(j as CallSiteIdx != idx);
                        assert(rt.take(i3 + 1).contains(j as CallSiteIdx) == rt.take(
                            i3 as int,
                        ).contains(j as CallSiteIdx));
                    }
                }
            }
            i3 = i3 + 1;
        }
        proof {
            assert(rt.take(nrt as int) =~= rt);
        }
        let ghost g4 = *self;

        // Compact the remaining adjacency lists.
        compact_adjacency(&mut self.incoming_calls, &self.call_sites);
        compact_adjacency(&mut self.outgoing_calls, &self.call_sites);
        proof {
            let keep = |i: CallSiteIdx| site_keep(g4.sites(), i);
            assert(self.incoming() == deep_lists(self.incoming_calls@));
            assert(g4.incoming() == deep_lists(g4.incoming_calls@));
            assert(self.incoming() =~= g4.incoming().map_values(
                |l: Seq<CallSiteIdx>| l.filter(keep),
            ));
            assert(self.outgoing() =~= g4.outgoing().map_values(
                |l: Seq<CallSiteIdx>| l.filter(keep),
            ));
        }

        // Drop the removed definitions from the subscriber lists.
        retain_subscribers(&mut self.subscribers, &removed_defs);
        proof {
            assert(self.subs() =~= g0.subs().map_values(
                |l: Seq<u64>| l.filter(|q: u64| !rd.contains(q)),
            ));
        }

        // Drop the pool entry.
        self.path_pool[pid as usize] = None;
        proof {
            assert(self.paths() =~= g0.paths().update(pid as int, None));
        }
        proof {
            let post = *self;
            let keepf = |i: CallSiteIdx| site_keep(post.sites(), i);
            let keep4 = |i: CallSiteIdx| site_keep(g4.sites(), i);
            assert(post.sites() == g4.sites());
            assert forall|l: Seq<CallSiteIdx>| true implies #[trigger] l.filter(keepf) == l.filter(
                keep4,
            ) by {
                lemma_filter_same(l, keepf, keep4);
            }
            assert(post.incoming() =~= g0.incoming().remove_keys(key_set(rd)).map_values(
                |l: Seq<CallSiteIdx>| l.filter(keepf),
            ));
            assert(post.outgoing() =~= g0.outgoing().remove_keys(key_set(rd)).map_values(
                |l: Seq<CallSiteIdx>| l.filter(keepf),
            ));
            assert(!(exists|i: int|
                0 <= i < post.paths().len() && post.paths()[i] == Some(file@))) by {
                if exists|i: int| 0 <= i < post.paths().len() && post.paths()[i] == Some(file@) {
                    let i = choose|i: int|
                        0 <= i < post.paths().len() && post.paths()[i] == Some(file@);
                    assert(g0.paths()[i] == Some(file@));
                    assert(i != pid as int);
                    assert(g0.paths()[pid as int] == Some(file@));
                    assert(false);
                }
            }
            lemma_remove_file_wf(g0, g4, post, pid as int, rd, rs, rt);
        }
    }


    /// Every definition, in insertion order.
    pub fn definitions_vec(&self) -> (r: Vec<Definition>)
        ensures
            r@ == self.defs_kv().map_values(|p: (u64, Definition)| p.1),
    {
        let ghost kv = self.defs_kv();
        let n = self.definitions.num_entries();
        let mut r: Vec<Definition> = Vec::new();
        let mut t: usize = 0;
        while t < n
            invariant
                kv == self.defs_kv(),
                n == kv.len(),
                0 <= t <= n,
                r@ == kv.take(t as int).map_values(|p: (u64, Definition)| p.1),
            decreases n - t,
        {
            r.push(*self.definitions.value_at(t));
            proof {
                assert(kv.take(t + 1).drop_last() =~= kv.take(t as int));
                assert(r@ =~= kv.take(t + 1).map_values(|p: (u64, Definition)| p.1));
            }
            t = t + 1;
        }
        proof {
            assert(kv.take(n as int) =~= kv);
        }
        r
    }


    /// One definition entry, as seen through the definitions map.
    pub proof fn definitions_lemma(self, i: int)
        requires
            self.wf(),
            0 <= i < self.defs_kv().len(),
        ensures
            self.defs().contains_key(self.defs_kv()[i].0),
            self.defs()[self.defs_kv()[i].0] == self.defs_kv()[i].1,
    {
        self.definitions.lemma_entry_at(i);
    }


    /// The number of path pool slots, live and dead.
    pub fn path_count(&self) -> (r: usize)
        ensures
            r == self.paths().len(),
    {
        self.path_pool.len()
    }

    /// The number of arena slots, live and tombstoned.
    pub fn arena_size(&self) -> (r: usize)
        ensures
            r == self.sites().len(),
    {
        self.call_sites.len()
    }

    /// Resolves a path id to its string, when the entry is live.
    pub fn resolve_path(&self, id: PathId) -> (r: Option<&str>)
        ensures
            match r {
                Some(t) => self.path_live(id as u64) && Some(t@) == self.paths()[id as int],
                None => !self.path_live(id as u64),
            },
    {
        if (id as usize) < self.path_pool.len() {
            match &self.path_pool[id as usize] {
                Some(p) => Some(p.as_str()),
                None => None,
            }
        } else {
            None
        }
    }
}


proof fn lemma_tr_strings(pre: CallGraph, post: CallGraph)
    requires
        pre.wf_strings(),
        post.strings() == pre.strings(),
    ensures
        post.wf_strings(),
{
    assert forall|i: int, j: int| 0 <= i < j < post.strings().len() implies post.strings()[i]
        != post.strings()[j] by {
        assert(pre.strings()[i] != pre.strings()[j]);
    }
}

proof fn lemma_tr_paths(pre: CallGraph, post: CallGraph)
    requires
        pre.wf_paths(),
        post.paths() == pre.paths(),
    ensures
        post.wf_paths(),
{
    assert forall|i: int, j: int|
        0 <= i < j < post.paths().len() && post.paths()[i] is Some
            && post.paths()[j] is Some implies post.paths()[i] != post.paths()[j] by {
        assert(pre.paths()[i] is Some && pre.paths()[j] is Some);
        assert(pre.paths()[i] != pre.paths()[j]);
    }
}

proof fn lemma_tr_adj(pre: CallGraph, post: CallGraph)
    requires
        pre.wf_adj(),
        post.sites() == pre.sites(),
        post.incoming() == pre.incoming(),
        post.outgoing() == pre.outgoing(),
    ensures
        post.wf_adj(),
{
    assert forall|q: u64, t: int| 0 <= t < adj(post.incoming(), q).len() implies post.site_live(
        adj(post.incoming(), q)[t],
    ) by {
        assert(adj(pre.incoming(), q) == adj(post.incoming(), q));
        assert(pre.site_live(adj(pre.incoming(), q)[t]));
    }
    assert forall|q: u64, t: int| 0 <= t < adj(post.outgoing(), q).len() implies post.site_live(
        adj(post.outgoing(), q)[t],
    ) by {
        assert(adj(pre.outgoing(), q) == adj(post.outgoing(), q));
        assert(pre.site_live(adj(pre.outgoing(), q)[t]));
    }
}

proof fn lemma_tr_file_sites(pre: CallGraph, post: CallGraph)
    requires
        pre.wf_file_sites(),
        post.sites() == pre.sites(),
        post.file_sites() == pre.file_sites(),
    ensures
        post.wf_file_sites(),
{
    assert forall|p: u64, t: int|
        #![trigger adj(post.file_sites(), p)[t]]
        0 <= t < adj(post.file_sites(), p).len() implies {
        let i = adj(post.file_sites(), p)[t];
        post.site_live(i) && post.sites()[i as int]->Some_0.file as u64 == p
    } by {
        assert(adj(pre.file_sites(), p) == adj(post.file_sites(), p));
        assert(pre.site_live(adj(pre.file_sites(), p)[t]));
    }
    assert forall|i: int|
        0 <= i < post.sites().len() && post.sites()[i] is Some implies {
        let p = post.sites()[i]->Some_0.file as u64;
        post.file_sites().contains_key(p) && post.file_sites()[p].contains(i as CallSiteIdx)
    } by {
        assert(pre.sites()[i] is Some);
    }
}

proof fn lemma_tr_defs(pre: CallGraph, post: CallGraph)
    requires
        pre.wf_defs(),
        post.paths() == pre.paths(),
        post.defs() == pre.defs(),
        post.file_defs() == pre.file_defs(),
    ensures
        post.wf_defs(),
{
    assert forall|q: u64| post.defs().contains_key(q) implies {
        let d = post.defs()[q];
        &&& spec_qkey(d.object_name, d.name) == q
        &&& post.path_live(d.file as u64)
        &&& post.file_defs().contains_key(d.file as u64)
        &&& post.file_defs()[d.file as u64].contains(q)
    } by {
        assert(pre.defs().contains_key(q) && pre.defs()[q] == post.defs()[q]);
    }
}

proof fn lemma_tr_syms(pre: CallGraph, post: CallGraph)
    requires
        pre.wf_syms(),
        post.strings() == pre.strings(),
        post.paths() == pre.paths(),
        post.sites() == pre.sites(),
        post.defs() == pre.defs(),
    ensures
        post.wf_syms(),
{
    assert forall|i: int|
        0 <= i < post.sites().len() && post.sites()[i] is Some implies {
        let c = post.sites()[i]->Some_0;
        &&& post.path_live(c.file as u64)
        &&& (c.caller as int) < post.strings().len()
        &&& (c.callee_method as int) < post.strings().len()
        &&& (c.callee_object is Some ==> (c.callee_object->0 as int) < post.strings().len())
    } by {
        assert(pre.sites()[i] is Some);
    }
    assert forall|q: u64| post.defs().contains_key(q) implies {
        let d = post.defs()[q];
        (d.object_name as int) < post.strings().len() && (d.name as int) < post.strings().len()
    } by {
        assert(pre.defs().contains_key(q) && pre.defs()[q] == post.defs()[q]);
    }
}

/// The clauses of the graph invariant stated over views carry over to a
/// state whose views they mention are unchanged.
proof fn lemma_wf_unchanged_views(pre: CallGraph, post: CallGraph)
    requires
        pre.wf(),
        post.wf_maps(),
        post.strings() == pre.strings(),
        post.paths() == pre.paths(),
        post.sites() == pre.sites(),
        post.defs() == pre.defs(),
        post.file_sites() == pre.file_sites(),
        post.incoming() == pre.incoming(),
        post.outgoing() == pre.outgoing(),
        post.file_defs() == pre.file_defs(),
    ensures
        post.wf(),
{
    lemma_tr_strings(pre, post);
    lemma_tr_paths(pre, post);
    lemma_tr_adj(pre, post);
    lemma_tr_file_sites(pre, post);
    lemma_tr_defs(pre, post);
    lemma_tr_syms(pre, post);
}

/// The adjacency-related clauses of the invariant carry over when the
/// views they mention are unchanged.
proof fn lemma_wf_adj_views(pre: CallGraph, post: CallGraph)
    requires
        pre.wf_strings(),
        pre.wf_paths(),
        pre.wf_adj(),
        pre.wf_file_sites(),
        post.strings() == pre.strings(),
        post.paths() == pre.paths(),
        post.sites() == pre.sites(),
        post.file_sites() == pre.file_sites(),
        post.incoming() == pre.incoming(),
        post.outgoing() == pre.outgoing(),
    ensures
        post.wf_strings(),
        post.wf_paths(),
        post.wf_adj(),
        post.wf_file_sites(),
{
    lemma_tr_strings(pre, post);
    lemma_tr_paths(pre, post);
    lemma_tr_adj(pre, post);
    lemma_tr_file_sites(pre, post);
}


/// Rewrites every adjacency list to keep only indices whose arena slot is
/// still live.
fn compact_adjacency(m: &mut KeyMap<Vec<CallSiteIdx>>, sites: &Vec<Option<CallSite>>)
    requires
        old(m).wf(),
    ensures
        final(m).wf(),
        deep_lists(final(m)@) == deep_lists(old(m)@).map_values(
            |l: Seq<CallSiteIdx>| l.filter(|i: CallSiteIdx| site_keep(sites@, i)),
        ),
{
    let n = m.num_entries();
    let mut e: usize = 0;
    while e < n
        invariant
            m.wf(),
            n == old(m).kv().len(),
            n == m.kv().len(),
            0 <= e <= n,
            forall|t: int|
                e <= t < n ==> #[trigger] m.kv()[t] == old(m).kv()[t],
            forall|t: int|
                0 <= t < e ==> #[trigger] m.kv()[t].0 == old(m).kv()[t].0 && m.kv()[t].1@ == old(
                    m,
                ).kv()[t].1@.filter(|i: CallSiteIdx| site_keep(sites@, i)),
        decreases n - e,
    {
        let mut filtered: Vec<CallSiteIdx> = Vec::new();
        {
            let list = m.value_at(e);
            let ln = list.len();
            let ghost l = list@;
            proof {
                reveal(Seq::filter);
                assert(l.take(0) =~= Seq::<CallSiteIdx>::empty());
            }
            let mut j: usize = 0;
            while j < ln
                invariant
                    list@ == l,
                    ln == l.len(),
                    0 <= j <= ln,
                    filtered@ == l.take(j as int).filter(|i: CallSiteIdx| site_keep(sites@, i)),
                decreases ln - j,
            {
                let idx = list[j];
                proof {
                    reveal(Seq::filter);
                    assert(l.take(j + 1).drop_last() =~= l.take(j as int));
                    assert(l.take(j + 1).last() == l[j as int]);
                }
                if (idx as usize) < sites.len() && sites[idx as usize].is_some() {
                    filtered.push(idx);
                }
                j = j + 1;
            }
            proof {
                assert(l.take(ln as int) =~= l);
            }
        }
        m.set_value_at(e, filtered);
        e = e + 1;
    }
    proof {
        let keep = |i: CallSiteIdx| site_keep(sites@, i);
        old(m).lemma_entries();
        m.lemma_entries();
        assert(deep_lists(m@) =~= deep_lists(old(m)@).map_values(
            |l: Seq<CallSiteIdx>| l.filter(keep),
        )) by {
            assert forall|q: u64| #[trigger] m@.contains_key(q) implies old(m)@.contains_key(q)
                && m@[q]@ == old(m)@[q]@.filter(keep) by {
                let t = choose|t: int| 0 <= t < m.kv().len() && #[trigger] m.kv()[t].0 == q;
                assert(old(m).kv()[t].0 == q);
                old(m).lemma_entry_at(t);
                m.lemma_entry_at(t);
            }
            assert forall|q: u64| #[trigger] old(m)@.contains_key(q) implies m@.contains_key(
                q,
            ) by {
                let t = choose|t: int|
                    0 <= t < old(m).kv().len() && #[trigger] old(m).kv()[t].0 == q;
                assert(m.kv()[t].0 == q);
            }
        }
    }
}


/// Filtering by predicates that agree on every element gives the same
/// result.
proof fn lemma_filter_same<T>(l: Seq<T>, p: spec_fn(T) -> bool, q: spec_fn(T) -> bool)
    requires
        forall|x: T| #[trigger] p(x) == q(x),
    ensures
        l.filter(p) == l.filter(q),
    decreases l.len(),
{
    reveal(Seq::filter);
    if l.len() > 0 {
        lemma_filter_same(l.drop_last(), p, q);
    }
}

/// After a removal, the graph invariant holds of the final state.
proof fn lemma_remove_file_wf(
    g0: CallGraph,
    g4: CallGraph,
    post: CallGraph,
    pid: int,
    rd: Seq<u64>,
    rs: Seq<u64>,
    rt: Seq<CallSiteIdx>,
)
    requires
        g0.wf(),
        post.wf_maps(),
        0 <= pid < g0.paths().len(),
        g0.paths()[pid] is Some,
        rd == adj(g0.file_defs(), pid as u64),
        rt == adj(g0.file_sites(), pid as u64),
        post.strings() == g0.strings(),
        post.paths() == g0.paths().update(pid, None),
        post.defs() == g0.defs().remove_keys(key_set(rd)),
        post.file_defs() == g0.file_defs().remove(pid as u64),
        post.file_sites() == g0.file_sites().remove(pid as u64),
        post.sites().len() == g0.sites().len(),
        forall|j: int|
            0 <= j < g0.sites().len() ==> #[trigger] post.sites()[j] == (
            if rt.contains(j as CallSiteIdx) {
                None
            } else {
                g0.sites()[j]
            }),
        post.incoming() == g0.incoming().remove_keys(key_set(rd)).map_values(
            |l: Seq<CallSiteIdx>| l.filter(|i: CallSiteIdx| site_keep(post.sites(), i)),
        ),
        post.outgoing() == g0.outgoing().remove_keys(key_set(rd)).map_values(
            |l: Seq<CallSiteIdx>| l.filter(|i: CallSiteIdx| site_keep(post.sites(), i)),
        ),
    ensures
        post.wf(),
{
    let keep = |i: CallSiteIdx| site_keep(post.sites(), i);
    lemma_tr_strings(g0, post);
    assert(post.wf_paths()) by {
        assert forall|i: int, j: int|
            0 <= i < j < post.paths().len() && post.paths()[i] is Some
                && post.paths()[j] is Some implies post.paths()[i] != post.paths()[j] by {
            assert(g0.paths()[i] is Some && g0.paths()[j] is Some);
            assert(g0.paths()[i] != g0.paths()[j]);
        }
    }
    assert(post.wf_adj()) by {
        assert forall|q: u64, t: int|
            #![trigger adj(post.incoming(), q)[t]]
            0 <= t < adj(post.incoming(), q).len() implies post.site_live(
            adj(post.incoming(), q)[t],
        ) by {
            if post.incoming().contains_key(q) {
                let l0 = g0.incoming()[q];
                l0.lemma_filter_pred(keep, t);
                l0.lemma_filter_len(keep);
            }
        }
        assert forall|q: u64, t: int|
            #![trigger adj(post.outgoing(), q)[t]]
            0 <= t < adj(post.outgoing(), q).len() implies post.site_live(
            adj(post.outgoing(), q)[t],
        ) by {
            if post.outgoing().contains_key(q) {
                let l0 = g0.outgoing()[q];
                l0.lemma_filter_pred(keep, t);
                l0.lemma_filter_len(keep);
            }
        }
    }
    assert(post.wf_file_sites()) by {
        assert forall|p: u64, t: int|
            #![trigger adj(post.file_sites(), p)[t]]
            0 <= t < adj(post.file_sites(), p).len() implies {
            let i = adj(post.file_sites(), p)[t];
            post.site_live(i) && post.sites()[i as int]->Some_0.file as u64 == p
        } by {
            if post.file_sites().contains_key(p) {
                assert(p != pid as u64);
                let i = adj(g0.file_sites(), p)[t];
                assert(g0.site_live(i) && g0.sites()[i as int]->Some_0.file as u64 == p);
                if rt.contains(i) {
                    let u = choose|u: int| 0 <= u < rt.len() && rt[u] == i;
                    assert(adj(g0.file_sites(), pid as u64)[u] == i);
                    assert(g0.sites()[i as int]->Some_0.file as u64 == pid as u64);
                    assert(false);
                }
            }
        }
        assert forall|i: int|
            0 <= i < post.sites().len() && post.sites()[i] is Some implies {
            let p = post.sites()[i]->Some_0.file as u64;
            post.file_sites().contains_key(p) && post.file_sites()[p].contains(i as CallSiteIdx)
        } by {
            assert(!rt.contains(i as CallSiteIdx));
            assert(g0.sites()[i] is Some);
            let p = g0.sites()[i]->Some_0.file as u64;
            assert(g0.file_sites().contains_key(p) && g0.file_sites()[p].contains(
                i as CallSiteIdx,
            ));
            if p == pid as u64 {
                assert(rt.contains(i as CallSiteIdx));
                assert(false);
            }
        }
    }
    assert(post.wf_defs()) by {
        assert forall|q: u64| post.defs().contains_key(q) implies {
            let d = post.defs()[q];
            &&& spec_qkey(d.object_name, d.name) == q
            &&& post.path_live(d.file as u64)
            &&& post.file_defs().contains_key(d.file as u64)
            &&& post.file_defs()[d.file as u64].contains(q)
        } by {
            let d = post.defs()[q];
            assert(g0.defs().contains_key(q) && g0.defs()[q] == d);
            assert(!rd.contains(q));
            if d.file as u64 == pid as u64 {
                assert(adj(g0.file_defs(), pid as u64).contains(q));
                assert(false);
            }
        }
    }
    assert(post.wf_syms()) by {
        assert forall|i: int|
            0 <= i < post.sites().len() && post.sites()[i] is Some implies {
            let c = post.sites()[i]->Some_0;
            &&& post.path_live(c.file as u64)
            &&& (c.caller as int) < post.strings().len()
            &&& (c.callee_method as int) < post.strings().len()
            &&& (c.callee_object is Some ==> (c.callee_object->0 as int) < post.strings().len())
        } by {
            assert(g0.sites()[i] is Some);
            let c = g0.sites()[i]->Some_0;
            if c.file as u64 == pid as u64 {
                assert(g0.file_sites().contains_key(pid as u64) && g0.file_sites()[
                    pid as u64
                ].contains(i as CallSiteIdx));
                assert(rt.contains(i as CallSiteIdx));
                assert(false);
            }
        }
        assert forall|q: u64| post.defs().contains_key(q) implies {
            let d = post.defs()[q];
            (d.object_name as int) < post.strings().len() && (d.name as int)
                < post.strings().len()
        } by {
            assert(g0.defs().contains_key(q) && g0.defs()[q] == post.defs()[q]);
        }
    }
}

} // verus!
