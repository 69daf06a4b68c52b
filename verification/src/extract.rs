//! The syntax extractor: walks a concrete syntax tree and produces the
//! object header, the definitions, the call sites with their containing
//! procedures, and the variable declarations of one file.

use vstd::prelude::*;

use crate::graph::{DefinitionKind, ObjectType, TextRange};
use crate::parser::{
    spec_parse_type_specification, parse_type_specification, ParsedCall, ParsedDefinition,
    ParsedFile, ParsedVariable,
};
use crate::strutil::{chars_to_string, clean_name, spec_clean_name, str_chars};
use crate::syntax::{spec_child_by_field, FieldTag, NodeKind, SyntaxNode};

verus! {

/// The view of an optional string.
pub open spec fn opt_str_view(o: Option<String>) -> Option<Seq<char>> {
    match o {
        Some(s) => Some(s@),
        None => None,
    }
}

/// A parsed definition, by value.
pub open spec fn pd_view(d: ParsedDefinition) -> (
    Seq<char>,
    TextRange,
    DefinitionKind,
    u32,
    u32,
    u32,
    Option<Seq<char>>,
    Option<Seq<char>>,
) {
    (
        d.name@,
        d.range,
        d.kind,
        d.complexity,
        d.line_count,
        d.parameter_count,
        opt_str_view(d.event_target_object),
        opt_str_view(d.event_target_procedure),
    )
}

/// Whether an attribute node is the event-subscriber marker.
pub open spec fn spec_is_subscriber_attr(c: SyntaxNode) -> bool {
    c.kind is Attribute && match spec_child_by_field(c.children@, FieldTag::Name) {
        Some(nm) => spec_clean_name(nm.text@) == "EventSubscriber"@,
        None => false,
    }
}

/// The first event-subscriber attribute among a node's children.
pub open spec fn spec_first_subscriber_attr(s: Seq<SyntaxNode>) -> Option<SyntaxNode>
    decreases s.len(),
{
    if s.len() == 0 {
        None
    } else if spec_is_subscriber_attr(s[0]) {
        Some(s[0])
    } else {
        spec_first_subscriber_attr(s.drop_first())
    }
}

/// The text between the first pair of double quotes, as target-object
/// arguments such as a qualified quoted name carry it; text without such
/// a pair is cleaned whole.
pub open spec fn spec_quoted_fragment(s: Seq<char>) -> Seq<char> {
    match crate::parser::spec_find_char(s, '"') {
        Some(q1) => match crate::parser::spec_find_char(s.skip(q1 + 1), '"') {
            Some(q2) => s.subrange(q1 + 1, q1 + 1 + q2),
            None => spec_clean_name(s),
        },
        None => spec_clean_name(s),
    }
}

/// The declared target of an event subscriber: among the attribute's
/// arguments, the second names the target object and the third the
/// event; an empty name yields no target.
pub open spec fn spec_subscriber_target(n: SyntaxNode) -> Option<(Seq<char>, Seq<char>)> {
    match spec_first_subscriber_attr(n.children@) {
        Some(attr) => match spec_child_by_field(attr.children@, FieldTag::Arguments) {
            Some(args) => if args.children@.len() >= 3 {
                let tobj = spec_quoted_fragment(args.children@[1].text@);
                let tevt = spec_clean_name(args.children@[2].text@);
                if tobj.len() > 0 && tevt.len() > 0 {
                    Some((tobj, tevt))
                } else {
                    None
                }
            } else {
                None
            },
            None => None,
        },
        None => None,
    }
}

/// The measured metrics of a definition node.
pub open spec fn spec_def_metrics(n: SyntaxNode) -> (u32, u32, u32) {
    (
        crate::syntax::capped(crate::syntax::spec_complexity(n)) as u32,
        crate::syntax::spec_span_lines(n.range) as u32,
        crate::syntax::spec_count_params(n) as u32,
    )
}

/// A parsed call, by value.
pub open spec fn pc_view(c: ParsedCall) -> (
    Option<Seq<char>>,
    Seq<char>,
    TextRange,
    Option<Seq<char>>,
) {
    (opt_str_view(c.object), c.method@, c.range, opt_str_view(c.containing_procedure))
}

/// A parsed variable, by value.
pub open spec fn pv_view(v: ParsedVariable) -> (
    Seq<char>,
    Seq<char>,
    Option<Seq<char>>,
    Option<Seq<char>>,
) {
    (v.name@, v.ty_name@, opt_str_view(v.ty_kind), opt_str_view(v.containing_procedure))
}

/// The object type an object-header node declares.
pub open spec fn spec_object_decl_type(k: NodeKind) -> Option<ObjectType> {
    match k {
        NodeKind::CodeunitDeclaration => Some(ObjectType::Codeunit),
        NodeKind::PreprocSplitCodeunitDeclaration => Some(ObjectType::Codeunit),
        NodeKind::TableDeclaration => Some(ObjectType::Table),
        NodeKind::PageDeclaration => Some(ObjectType::Page),
        NodeKind::ReportDeclaration => Some(ObjectType::Report),
        NodeKind::QueryDeclaration => Some(ObjectType::Query),
        NodeKind::XmlPortDeclaration => Some(ObjectType::XmlPort),
        NodeKind::EnumDeclaration => Some(ObjectType::Enum),
        NodeKind::InterfaceDeclaration => Some(ObjectType::Interface),
        NodeKind::ControlAddInDeclaration => Some(ObjectType::ControlAddIn),
        NodeKind::PageExtensionDeclaration => Some(ObjectType::PageExtension),
        NodeKind::TableExtensionDeclaration => Some(ObjectType::TableExtension),
        NodeKind::EnumExtensionDeclaration => Some(ObjectType::EnumExtension),
        NodeKind::PermissionSetDeclaration => Some(ObjectType::PermissionSet),
        NodeKind::PermissionSetExtensionDeclaration => Some(ObjectType::PermissionSetExtension),
        _ => None,
    }
}

/// Whether one string starts with another.
pub open spec fn spec_starts_with(s: Seq<char>, p: Seq<char>) -> bool {
    s.len() >= p.len() && s.subrange(0, p.len() as int) == p
}

/// The name of a named or `OnRun` trigger node: the trigger keyword's
/// name field when present, else its first token, else the node kind's
/// own name.
pub open spec fn spec_named_trigger_name(n: SyntaxNode) -> Seq<char> {
    if n.children@.len() > 0 {
        let c0 = n.children@[0];
        if spec_starts_with(c0.text@, "trigger"@) || spec_starts_with(c0.text@, "Trigger"@) {
            match spec_child_by_field(n.children@, FieldTag::Name) {
                Some(nm) => spec_clean_name(nm.text@),
                None => spec_clean_name(c0.text@),
            }
        } else {
            spec_clean_name(c0.text@)
        }
    } else if n.kind is NamedTrigger {
        "named_trigger"@
    } else {
        "onrun_trigger"@
    }
}

/// What one node contributes to the object header.
pub open spec fn spec_header_own(
    st: (Option<ObjectType>, Option<Seq<char>>),
    n: SyntaxNode,
) -> (Option<ObjectType>, Option<Seq<char>>) {
    match spec_object_decl_type(n.kind) {
        Some(ot) => match spec_child_by_field(n.children@, FieldTag::ObjectName) {
            Some(c) => (Some(ot), Some(spec_clean_name(c.text@))),
            None => st,
        },
        None => st,
    }
}

/// The header state after walking a subtree.
pub open spec fn spec_header_walk(
    st: (Option<ObjectType>, Option<Seq<char>>),
    n: SyntaxNode,
) -> (Option<ObjectType>, Option<Seq<char>>)
    decreases n,
{
    spec_header_seq(spec_header_own(st, n), n.children@)
}

pub open spec fn spec_header_seq(
    st: (Option<ObjectType>, Option<Seq<char>>),
    s: Seq<SyntaxNode>,
) -> (Option<ObjectType>, Option<Seq<char>>)
    decreases s,
{
    if s.len() == 0 {
        st
    } else {
        spec_header_seq(spec_header_walk(st, s[0]), s.drop_first())
    }
}

/// What one node contributes to the definition list: a procedure whose
/// event-subscriber attribute carries a readable target is classified as
/// an event subscriber.
pub open spec fn spec_def_own(n: SyntaxNode) -> Seq<
    (Seq<char>, TextRange, DefinitionKind, u32, u32, u32, Option<Seq<char>>, Option<Seq<char>>),
> {
    let m = spec_def_metrics(n);
    match n.kind {
        NodeKind::Procedure => match spec_child_by_field(n.children@, FieldTag::Name) {
            Some(nm) => match spec_subscriber_target(n) {
                Some(t) => seq![
                    (
                        spec_clean_name(nm.text@),
                        n.range,
                        DefinitionKind::EventSubscriber,
                        m.0,
                        m.1,
                        m.2,
                        Some(t.0),
                        Some(t.1),
                    ),
                ],
                None => seq![
                    (
                        spec_clean_name(nm.text@),
                        n.range,
                        DefinitionKind::Procedure,
                        m.0,
                        m.1,
                        m.2,
                        None,
                        None,
                    ),
                ],
            },
            None => Seq::empty(),
        },
        NodeKind::TriggerDeclaration => match spec_child_by_field(n.children@, FieldTag::Name) {
            Some(nm) => seq![
                (
                    spec_clean_name(nm.text@),
                    n.range,
                    DefinitionKind::Trigger,
                    m.0,
                    m.1,
                    m.2,
                    None,
                    None,
                ),
            ],
            None => Seq::empty(),
        },
        NodeKind::NamedTrigger => seq![
            (
                spec_named_trigger_name(n),
                n.range,
                DefinitionKind::Trigger,
                m.0,
                m.1,
                m.2,
                None,
                None,
            ),
        ],
        NodeKind::OnRunTrigger => seq![
            (
                spec_named_trigger_name(n),
                n.range,
                DefinitionKind::Trigger,
                m.0,
                m.1,
                m.2,
                None,
                None,
            ),
        ],
        _ => Seq::empty(),
    }
}

/// The definitions of a subtree, in source order.
pub open spec fn spec_defs_walk(n: SyntaxNode) -> Seq<
    (Seq<char>, TextRange, DefinitionKind, u32, u32, u32, Option<Seq<char>>, Option<Seq<char>>),
>
    decreases n,
{
    spec_def_own(n) + spec_defs_seq(n.children@)
}

pub open spec fn spec_defs_seq(s: Seq<SyntaxNode>) -> Seq<
    (Seq<char>, TextRange, DefinitionKind, u32, u32, u32, Option<Seq<char>>, Option<Seq<char>>),
>
    decreases s,
{
    if s.len() == 0 {
        Seq::empty()
    } else {
        spec_defs_walk(s[0]) + spec_defs_seq(s.drop_first())
    }
}

/// The containing-procedure context below a node: a named procedure or
/// trigger renames it, a named trigger always names itself, everything
/// else passes it through.
pub open spec fn spec_ctx_after(n: SyntaxNode, ctx: Option<Seq<char>>) -> Option<Seq<char>> {
    match n.kind {
        NodeKind::Procedure => match spec_child_by_field(n.children@, FieldTag::Name) {
            Some(nm) => Some(spec_clean_name(nm.text@)),
            None => ctx,
        },
        NodeKind::TriggerDeclaration => match spec_child_by_field(n.children@, FieldTag::Name) {
            Some(nm) => Some(spec_clean_name(nm.text@)),
            None => ctx,
        },
        NodeKind::NamedTrigger => Some(spec_named_trigger_name(n)),
        NodeKind::OnRunTrigger => Some(spec_named_trigger_name(n)),
        _ => ctx,
    }
}

/// What one node contributes to the call list: a call expression whose
/// function part is a bare identifier, a member expression, or a field
/// access.
pub open spec fn spec_call_own(n: SyntaxNode, ctx: Option<Seq<char>>) -> Seq<
    (Option<Seq<char>>, Seq<char>, TextRange, Option<Seq<char>>),
> {
    if n.kind is CallExpression {
        match spec_child_by_field(n.children@, FieldTag::Function) {
            Some(f) => match f.kind {
                NodeKind::Identifier => seq![
                    (None, spec_clean_name(f.text@), n.range, ctx),
                ],
                NodeKind::MemberExpression => match (
                    spec_child_by_field(f.children@, FieldTag::ObjectPart),
                    spec_child_by_field(f.children@, FieldTag::Property),
                ) {
                    (Some(o), Some(p)) => seq![
                        (
                            Some(spec_clean_name(o.text@)),
                            spec_clean_name(p.text@),
                            n.range,
                            ctx,
                        ),
                    ],
                    _ => Seq::empty(),
                },
                NodeKind::FieldAccess => match (
                    spec_child_by_field(f.children@, FieldTag::RecordPart),
                    spec_child_by_field(f.children@, FieldTag::FieldPart),
                ) {
                    (Some(o), Some(p)) => seq![
                        (
                            Some(spec_clean_name(o.text@)),
                            spec_clean_name(p.text@),
                            n.range,
                            ctx,
                        ),
                    ],
                    _ => Seq::empty(),
                },
                _ => Seq::empty(),
            },
            None => Seq::empty(),
        }
    } else {
        Seq::empty()
    }
}

/// The calls of a subtree, each with its containing procedure.
pub open spec fn spec_calls_walk(n: SyntaxNode, ctx: Option<Seq<char>>) -> Seq<
    (Option<Seq<char>>, Seq<char>, TextRange, Option<Seq<char>>),
>
    decreases n,
{
    spec_call_own(n, ctx) + spec_calls_seq(n.children@, spec_ctx_after(n, ctx))
}

pub open spec fn spec_calls_seq(s: Seq<SyntaxNode>, ctx: Option<Seq<char>>) -> Seq<
    (Option<Seq<char>>, Seq<char>, TextRange, Option<Seq<char>>),
>
    decreases s,
{
    if s.len() == 0 {
        Seq::empty()
    } else {
        spec_calls_walk(s[0], ctx) + spec_calls_seq(s.drop_first(), ctx)
    }
}

/// The first child that is an identifier.
pub open spec fn spec_first_ident(s: Seq<SyntaxNode>) -> Option<SyntaxNode>
    decreases s.len(),
{
    if s.len() == 0 {
        None
    } else if s[0].kind is Identifier || s[0].kind is QuotedIdentifier {
        Some(s[0])
    } else {
        spec_first_ident(s.drop_first())
    }
}

/// The first child that is a type node.
pub open spec fn spec_first_type(s: Seq<SyntaxNode>) -> Option<SyntaxNode>
    decreases s.len(),
{
    if s.len() == 0 {
        None
    } else if s[0].kind is TypeSpecification || s[0].kind is BasicType {
        Some(s[0])
    } else {
        spec_first_type(s.drop_first())
    }
}

/// The name of a declared variable: its name field, the first identifier
/// of its names field, or its first identifier child.
pub open spec fn spec_var_name(n: SyntaxNode) -> Option<Seq<char>> {
    match spec_child_by_field(n.children@, FieldTag::Name) {
        Some(nm) => Some(spec_clean_name(nm.text@)),
        None => match spec_child_by_field(n.children@, FieldTag::Names) {
            Some(ns) => match spec_first_ident(ns.children@) {
                Some(c) => Some(spec_clean_name(c.text@)),
                None => fallback_var_name(n),
            },
            None => fallback_var_name(n),
        },
    }
}

pub open spec fn fallback_var_name(n: SyntaxNode) -> Option<Seq<char>> {
    match spec_first_ident(n.children@) {
        Some(c) => Some(spec_clean_name(c.text@)),
        None => None,
    }
}

/// The raw type text of a declared variable: its type field or its first
/// type child.
pub open spec fn spec_var_type_text(n: SyntaxNode) -> Option<Seq<char>> {
    match spec_child_by_field(n.children@, FieldTag::TypeField) {
        Some(t) => Some(t.text@),
        None => match spec_first_type(n.children@) {
            Some(t) => Some(t.text@),
            None => None,
        },
    }
}

/// What one node contributes to the variable list.
pub open spec fn spec_var_own(n: SyntaxNode, ctx: Option<Seq<char>>) -> Seq<
    (Seq<char>, Seq<char>, Option<Seq<char>>, Option<Seq<char>>),
> {
    if n.kind is VariableDeclaration {
        match (spec_var_name(n), spec_var_type_text(n)) {
            (Some(name), Some(tt)) => {
                let (k, tn) = spec_parse_type_specification(tt);
                seq![(name, tn, k, ctx)]
            },
            _ => Seq::empty(),
        }
    } else {
        Seq::empty()
    }
}

/// The variables of a subtree, each with its containing procedure.
pub open spec fn spec_vars_walk(n: SyntaxNode, ctx: Option<Seq<char>>) -> Seq<
    (Seq<char>, Seq<char>, Option<Seq<char>>, Option<Seq<char>>),
>
    decreases n,
{
    spec_var_own(n, ctx) + spec_vars_seq(n.children@, spec_ctx_after(n, ctx))
}

pub open spec fn spec_vars_seq(s: Seq<SyntaxNode>, ctx: Option<Seq<char>>) -> Seq<
    (Seq<char>, Seq<char>, Option<Seq<char>>, Option<Seq<char>>),
>
    decreases s,
{
    if s.len() == 0 {
        Seq::empty()
    } else {
        spec_vars_walk(s[0], ctx) + spec_vars_seq(s.drop_first(), ctx)
    }
}


/// Whether an attribute node is the event-subscriber marker.
fn is_subscriber_attr(c: &SyntaxNode) -> (r: bool)
    ensures
        r == spec_is_subscriber_attr(*c),
{
    if !matches!(c.kind, NodeKind::Attribute) {
        return false;
    }
    match c.child_by_field(FieldTag::Name) {
        Some(nm) => {
            let cleaned = clean_name(nm.text.as_str());
            proof {
                reveal_strlit("EventSubscriber");
            }
            crate::strutil::str_eq(cleaned.as_str(), "EventSubscriber")
        },
        None => false,
    }
}

/// The first event-subscriber attribute among a node's children.
fn first_subscriber_attr(s: &Vec<SyntaxNode>) -> (r: Option<&SyntaxNode>)
    ensures
        match r {
            Some(c) => spec_first_subscriber_attr(s@) == Some(*c),
            None => spec_first_subscriber_attr(s@) is None,
        },
{
    let n = s.len();
    let ghost sq = s@;
    proof {
        assert(sq.skip(0) =~= sq);
    }
    let mut i: usize = 0;
    while i < n
        invariant
            sq == s@,
            n == sq.len(),
            0 <= i <= n,
            spec_first_subscriber_attr(sq) == spec_first_subscriber_attr(sq.skip(i as int)),
        decreases n - i,
    {
        proof {
            assert(sq.skip(i as int)[0] == sq[i as int]);
            assert(sq.skip(i as int).drop_first() =~= sq.skip(i + 1));
        }
        if is_subscriber_attr(&s[i]) {
            return Some(&s[i]);
        }
        i = i + 1;
    }
    proof {
        assert(sq.skip(n as int).len() == 0);
    }
    None
}

/// The text between the first pair of double quotes, or the cleaned
/// whole when no pair exists.
fn quoted_fragment(s: &str) -> (r: String)
    ensures
        r@ == spec_quoted_fragment(s@),
{
    let v = str_chars(s);
    let n = v.len();
    let ghost sq = s@;
    let mut q1: usize = 0;
    while q1 < n
        invariant
            v@ == sq,
            sq == s@,
            n == sq.len(),
            0 <= q1 <= n,
            forall|j: int| 0 <= j < q1 ==> sq[j] != '"',
        decreases n - q1,
    {
        if v[q1] == '"' {
            proof {
                crate::parser::lemma_find_char_at(sq, '"', q1 as int);
            }
            let mut q2: usize = q1 + 1;
            while q2 < n
                invariant
                    v@ == sq,
                    sq == s@,
                    n == sq.len(),
                    q1 < n,
                    sq[q1 as int] == '"',
                    crate::parser::spec_find_char(sq, '"') == Some(q1 as int),
                    q1 + 1 <= q2 <= n,
                    forall|j: int| q1 + 1 <= j < q2 ==> sq[j] != '"',
                decreases n - q2,
            {
                if v[q2] == '"' {
                    proof {
                        assert forall|j: int|
                            0 <= j < q2 - q1 - 1 implies #[trigger] sq.skip(q1 + 1)[j]
                            != '"' by {
                            assert(sq.skip(q1 + 1)[j] == sq[q1 + 1 + j]);
                        }
                        assert(sq.skip(q1 + 1)[q2 - q1 - 1] == sq[q2 as int]);
                        crate::parser::lemma_find_char_at(
                            sq.skip(q1 + 1),
                            '"',
                            q2 - q1 - 1,
                        );
                    }
                    let mut out: Vec<char> = Vec::new();
                    let mut t: usize = q1 + 1;
                    while t < q2
                        invariant
                            v@ == sq,
                            sq == s@,
                            crate::parser::spec_find_char(sq, '"') == Some(q1 as int),
                            crate::parser::spec_find_char(sq.skip(q1 + 1), '"') == Some(
                                q2 - q1 - 1,
                            ),
                            q1 + 1 <= t <= q2 < sq.len(),
                            out@ == sq.subrange(q1 + 1, t as int),
                        decreases q2 - t,
                    {
                        out.push(v[t]);
                        proof {
                            assert(out@ =~= sq.subrange(q1 + 1, t + 1));
                        }
                        t = t + 1;
                    }
                    return chars_to_string(&out);
                }
                proof {
                    assert(sq.skip(q1 + 1)[q2 - q1 - 1] == sq[q2 as int]);
                }
                q2 = q2 + 1;
            }
            proof {
                assert forall|j: int|
                    0 <= j < sq.skip(q1 + 1).len() implies #[trigger] sq.skip(q1 + 1)[j]
                    != '"' by {
                    assert(sq.skip(q1 + 1)[j] == sq[q1 + 1 + j]);
                }
                crate::parser::lemma_find_char_none(sq.skip(q1 + 1), '"');
            }
            return clean_name(s);
        }
        q1 = q1 + 1;
    }
    proof {
        crate::parser::lemma_find_char_none(sq, '"');
    }
    clean_name(s)
}

/// The declared target of an event subscriber, when the attribute
/// carries a readable one.
fn subscriber_target(n: &SyntaxNode) -> (r: Option<(String, String)>)
    ensures
        match r {
            Some(t) => spec_subscriber_target(*n) == Some((t.0@, t.1@)),
            None => spec_subscriber_target(*n) is None,
        },
{
    match first_subscriber_attr(&n.children) {
        Some(attr) => {
            match attr.child_by_field(FieldTag::Arguments) {
                Some(args) => {
                    if args.children.len() >= 3 {
                        let tobj = quoted_fragment(args.children[1].text.as_str());
                        let tevt = clean_name(args.children[2].text.as_str());
                        if !tobj.as_str().is_empty() && !tevt.as_str().is_empty() {
                            Some((tobj, tevt))
                        } else {
                            None
                        }
                    } else {
                        None
                    }
                },
                None => None,
            }
        },
        None => None,
    }
}

/// Whether one string starts with another.
fn str_starts_with(s: &str, p: &str) -> (r: bool)
    ensures
        r == spec_starts_with(s@, p@),
{
    let sv = str_chars(s);
    let pn = p.unicode_len();
    if pn > sv.len() {
        return false;
    }
    crate::parser::prefix_matches(&sv, p)
}

/// The name of a named or `OnRun` trigger node.
fn named_trigger_name(n: &SyntaxNode) -> (r: String)
    ensures
        r@ == spec_named_trigger_name(*n),
{
    if n.children.len() > 0 {
        let c0 = &n.children[0];
        proof {
            reveal_strlit("trigger");
            reveal_strlit("Trigger");
        }
        if str_starts_with(c0.text.as_str(), "trigger") || str_starts_with(
            c0.text.as_str(),
            "Trigger",
        ) {
            match n.child_by_field(FieldTag::Name) {
                Some(nm) => clean_name(nm.text.as_str()),
                None => clean_name(c0.text.as_str()),
            }
        } else {
            clean_name(c0.text.as_str())
        }
    } else {
        match n.kind {
            NodeKind::NamedTrigger => {
                let r = str_to_owned("named_trigger");
                proof {
                    reveal_strlit("named_trigger");
                }
                r
            },
            _ => {
                let r = str_to_owned("onrun_trigger");
                proof {
                    reveal_strlit("onrun_trigger");
                }
                r
            },
        }
    }
}

/// An owned copy of a string slice.
fn str_to_owned(s: &str) -> (r: String)
    ensures
        r@ == s@,
{
    s.to_owned()
}

/// The object type a header node declares, if any.
pub fn object_decl_type(k: NodeKind) -> (r: Option<ObjectType>)
    ensures
        r == spec_object_decl_type(k),
{
    match k {
        NodeKind::CodeunitDeclaration => Some(ObjectType::Codeunit),
        NodeKind::PreprocSplitCodeunitDeclaration => Some(ObjectType::Codeunit),
        NodeKind::TableDeclaration => Some(ObjectType::Table),
        NodeKind::PageDeclaration => Some(ObjectType::Page),
        NodeKind::ReportDeclaration => Some(ObjectType::Report),
        NodeKind::QueryDeclaration => Some(ObjectType::Query),
        NodeKind::XmlPortDeclaration => Some(ObjectType::XmlPort),
        NodeKind::EnumDeclaration => Some(ObjectType::Enum),
        NodeKind::InterfaceDeclaration => Some(ObjectType::Interface),
        NodeKind::ControlAddInDeclaration => Some(ObjectType::ControlAddIn),
        NodeKind::PageExtensionDeclaration => Some(ObjectType::PageExtension),
        NodeKind::TableExtensionDeclaration => Some(ObjectType::TableExtension),
        NodeKind::EnumExtensionDeclaration => Some(ObjectType::EnumExtension),
        NodeKind::PermissionSetDeclaration => Some(ObjectType::PermissionSet),
        NodeKind::PermissionSetExtensionDeclaration => Some(
            ObjectType::PermissionSetExtension,
        ),
        _ => None,
    }
}

/// Walks a subtree for the object header and the definitions.
fn walk_definitions(
    n: &SyntaxNode,
    object_type: &mut Option<ObjectType>,
    object_name: &mut Option<String>,
    defs: &mut Vec<ParsedDefinition>,
)
    ensures
        (*final(object_type), opt_str_view(*final(object_name))) == spec_header_walk(
            (*old(object_type), opt_str_view(*old(object_name))),
            *n,
        ),
        final(defs)@.map_values(|d: ParsedDefinition| pd_view(d)) == old(defs)@.map_values(
            |d: ParsedDefinition| pd_view(d),
        ) + spec_defs_walk(*n),
    decreases *n,
{
    let ghost st0 = (*old(object_type), opt_str_view(*old(object_name)));
    let ghost defs0 = old(defs)@.map_values(|d: ParsedDefinition| pd_view(d));
    match object_decl_type(n.kind) {
        Some(ot) => {
            match n.child_by_field(FieldTag::ObjectName) {
                Some(c) => {
                    *object_type = Some(ot);
                    *object_name = Some(clean_name(c.text.as_str()));
                },
                None => {},
            }
        },
        None => {},
    }
    let is_def_node = matches!(
        n.kind,
        NodeKind::Procedure | NodeKind::TriggerDeclaration | NodeKind::NamedTrigger
        | NodeKind::OnRunTrigger
    );
    if is_def_node {
        let complexity = crate::syntax::calculate_complexity(n);
        let line_count = crate::syntax::span_lines(&n.range);
        let parameter_count = crate::syntax::count_parameters(n);
        match n.kind {
            NodeKind::Procedure => {
                match n.child_by_field(FieldTag::Name) {
                    Some(nm) => {
                        let name = clean_name(nm.text.as_str());
                        match subscriber_target(n) {
                            Some((tobj, tevt)) => {
                                defs.push(
                                    ParsedDefinition {
                                        name,
                                        range: n.range,
                                        kind: DefinitionKind::EventSubscriber,
                                        complexity,
                                        line_count,
                                        parameter_count,
                                        event_target_object: Some(tobj),
                                        event_target_procedure: Some(tevt),
                                    },
                                );
                            },
                            None => {
                                defs.push(
                                    ParsedDefinition {
                                        name,
                                        range: n.range,
                                        kind: DefinitionKind::Procedure,
                                        complexity,
                                        line_count,
                                        parameter_count,
                                        event_target_object: None,
                                        event_target_procedure: None,
                                    },
                                );
                            },
                        }
                    },
                    None => {},
                }
            },
            NodeKind::TriggerDeclaration => {
                match n.child_by_field(FieldTag::Name) {
                    Some(nm) => {
                        defs.push(
                            ParsedDefinition {
                                name: clean_name(nm.text.as_str()),
                                range: n.range,
                                kind: DefinitionKind::Trigger,
                                complexity,
                                line_count,
                                parameter_count,
                                event_target_object: None,
                                event_target_procedure: None,
                            },
                        );
                    },
                    None => {},
                }
            },
            _ => {
                defs.push(
                    ParsedDefinition {
                        name: named_trigger_name(n),
                        range: n.range,
                        kind: DefinitionKind::Trigger,
                        complexity,
                        line_count,
                        parameter_count,
                        event_target_object: None,
                        event_target_procedure: None,
                    },
                );
            },
        }
    }
    proof {
        assert(defs@.map_values(|d: ParsedDefinition| pd_view(d)) =~= defs0 + spec_def_own(*n));
        assert((*object_type, opt_str_view(*object_name)) == spec_header_own(st0, *n));
    }
    let ghost cs = n.children@;
    let ghost defs_own = defs0 + spec_def_own(*n);
    proof {
        assert(cs.skip(0) =~= cs);
    }
    let m = n.children.len();
    let mut i: usize = 0;
    while i < m
        invariant
            cs == n.children@,
            m == cs.len(),
            0 <= i <= m,
            spec_header_seq(
                (*object_type, opt_str_view(*object_name)),
                cs.skip(i as int),
            ) == spec_header_walk(st0, *n),
            defs@.map_values(|d: ParsedDefinition| pd_view(d)) + spec_defs_seq(cs.skip(i as int))
                == defs0 + spec_defs_walk(*n),
        decreases m - i,
    {
        let ghost hdr_before = (*object_type, opt_str_view(*object_name));
        let ghost defs_before = defs@.map_values(|d: ParsedDefinition| pd_view(d));
        proof {
            assert(decreases_to!(*n => n.children@[i as int]));
            assert(cs.skip(i as int)[0] == cs[i as int]);
            assert(cs.skip(i as int).drop_first() =~= cs.skip(i + 1));
        }
        walk_definitions(&n.children[i], object_type, object_name, defs);
        proof {
            assert(spec_header_seq(hdr_before, cs.skip(i as int)) == spec_header_seq(
                spec_header_walk(hdr_before, cs[i as int]),
                cs.skip(i + 1),
            ));
            let a = defs_before;
            let b = spec_defs_walk(cs[i as int]);
            let c = spec_defs_seq(cs.skip(i + 1));
            assert(spec_defs_seq(cs.skip(i as int)) == b + c);
            assert((a + b) + c =~= a + (b + c));
        }
        i = i + 1;
    }
    proof {
        assert(cs.skip(m as int).len() == 0);
        assert(spec_defs_seq(cs.skip(m as int)) == Seq::<
            (Seq<char>, TextRange, DefinitionKind, u32, u32, u32, Option<Seq<char>>, Option<Seq<char>>),
        >::empty());
        assert(defs@.map_values(|d: ParsedDefinition| pd_view(d)) + Seq::<
            (Seq<char>, TextRange, DefinitionKind, u32, u32, u32, Option<Seq<char>>, Option<Seq<char>>),
        >::empty() =~= defs@.map_values(|d: ParsedDefinition| pd_view(d)));
    }
}

/// The context below a node, computed once per node.
fn ctx_after(n: &SyntaxNode, ctx: &Option<String>) -> (r: Option<String>)
    ensures
        opt_str_view(r) == spec_ctx_after(*n, opt_str_view(*ctx)),
{
    match n.kind {
        NodeKind::Procedure => {
            match n.child_by_field(FieldTag::Name) {
                Some(nm) => Some(clean_name(nm.text.as_str())),
                None => clone_opt(ctx),
            }
        },
        NodeKind::TriggerDeclaration => {
            match n.child_by_field(FieldTag::Name) {
                Some(nm) => Some(clean_name(nm.text.as_str())),
                None => clone_opt(ctx),
            }
        },
        NodeKind::NamedTrigger => Some(named_trigger_name(n)),
        NodeKind::OnRunTrigger => Some(named_trigger_name(n)),
        _ => clone_opt(ctx),
    }
}

/// A copy of an optional string.
fn clone_opt(o: &Option<String>) -> (r: Option<String>)
    ensures
        opt_str_view(r) == opt_str_view(*o),
{
    match o {
        Some(s) => Some(str_to_owned(s.as_str())),
        None => None,
    }
}

/// Walks a subtree for call sites.
fn walk_calls(n: &SyntaxNode, ctx: &Option<String>, calls: &mut Vec<ParsedCall>)
    ensures
        final(calls)@.map_values(|c: ParsedCall| pc_view(c)) == old(calls)@.map_values(
            |c: ParsedCall| pc_view(c),
        ) + spec_calls_walk(*n, opt_str_view(*ctx)),
    decreases *n,
{
    let ghost gctx = opt_str_view(*ctx);
    let ghost calls0 = old(calls)@.map_values(|c: ParsedCall| pc_view(c));
    if matches!(n.kind, NodeKind::CallExpression) {
        match n.child_by_field(FieldTag::Function) {
            Some(f) => {
                match f.kind {
                    NodeKind::Identifier => {
                        calls.push(
                            ParsedCall {
                                object: None,
                                method: clean_name(f.text.as_str()),
                                range: n.range,
                                containing_procedure: clone_opt(ctx),
                            },
                        );
                    },
                    NodeKind::MemberExpression => {
                        let o = f.child_by_field(FieldTag::ObjectPart);
                        let p = f.child_by_field(FieldTag::Property);
                        match (o, p) {
                            (Some(oc), Some(pc)) => {
                                calls.push(
                                    ParsedCall {
                                        object: Some(clean_name(oc.text.as_str())),
                                        method: clean_name(pc.text.as_str()),
                                        range: n.range,
                                        containing_procedure: clone_opt(ctx),
                                    },
                                );
                            },
                            _ => {},
                        }
                    },
                    NodeKind::FieldAccess => {
                        let o = f.child_by_field(FieldTag::RecordPart);
                        let p = f.child_by_field(FieldTag::FieldPart);
                        match (o, p) {
                            (Some(oc), Some(pc)) => {
                                calls.push(
                                    ParsedCall {
                                        object: Some(clean_name(oc.text.as_str())),
                                        method: clean_name(pc.text.as_str()),
                                        range: n.range,
                                        containing_procedure: clone_opt(ctx),
                                    },
                                );
                            },
                            _ => {},
                        }
                    },
                    _ => {},
                }
            },
            None => {},
        }
    }
    proof {
        assert(calls@.map_values(|c: ParsedCall| pc_view(c)) =~= calls0 + spec_call_own(
            *n,
            gctx,
        ));
    }
    let sub_ctx = ctx_after(n, ctx);
    let ghost gsub = spec_ctx_after(*n, gctx);
    let ghost cs = n.children@;
    proof {
        assert(cs.skip(0) =~= cs);
    }
    let m = n.children.len();
    let mut i: usize = 0;
    while i < m
        invariant
            cs == n.children@,
            m == cs.len(),
            0 <= i <= m,
            opt_str_view(sub_ctx) == gsub,
            calls@.map_values(|c: ParsedCall| pc_view(c)) + spec_calls_seq(
                cs.skip(i as int),
                gsub,
            ) == calls0 + spec_calls_walk(*n, gctx),
        decreases m - i,
    {
        let ghost calls_before = calls@.map_values(|c: ParsedCall| pc_view(c));
        proof {
            assert(decreases_to!(*n => n.children@[i as int]));
            assert(cs.skip(i as int)[0] == cs[i as int]);
            assert(cs.skip(i as int).drop_first() =~= cs.skip(i + 1));
        }
        walk_calls(&n.children[i], &sub_ctx, calls);
        proof {
            let a = calls_before;
            let b = spec_calls_walk(cs[i as int], gsub);
            let c = spec_calls_seq(cs.skip(i + 1), gsub);
            assert(spec_calls_seq(cs.skip(i as int), gsub) == b + c);
            assert((a + b) + c =~= a + (b + c));
        }
        i = i + 1;
    }
    proof {
        assert(cs.skip(m as int).len() == 0);
        assert(calls@.map_values(|c: ParsedCall| pc_view(c)) + Seq::<
            (Option<Seq<char>>, Seq<char>, TextRange, Option<Seq<char>>),
        >::empty() =~= calls@.map_values(|c: ParsedCall| pc_view(c)));
    }
}

/// The first identifier child, as the extractor falls back to it.
fn first_ident(s: &Vec<SyntaxNode>) -> (r: Option<&SyntaxNode>)
    ensures
        match r {
            Some(c) => spec_first_ident(s@) == Some(*c),
            None => spec_first_ident(s@) is None,
        },
{
    let n = s.len();
    let ghost sq = s@;
    proof {
        assert(sq.skip(0) =~= sq);
    }
    let mut i: usize = 0;
    while i < n
        invariant
            sq == s@,
            n == sq.len(),
            0 <= i <= n,
            spec_first_ident(sq) == spec_first_ident(sq.skip(i as int)),
        decreases n - i,
    {
        proof {
            assert(sq.skip(i as int)[0] == sq[i as int]);
            assert(sq.skip(i as int).drop_first() =~= sq.skip(i + 1));
        }
        if matches!(s[i].kind, NodeKind::Identifier) || matches!(
            s[i].kind,
            NodeKind::QuotedIdentifier,
        ) {
            return Some(&s[i]);
        }
        i = i + 1;
    }
    proof {
        assert(sq.skip(n as int).len() == 0);
    }
    None
}

/// The first type child.
fn first_type(s: &Vec<SyntaxNode>) -> (r: Option<&SyntaxNode>)
    ensures
        match r {
            Some(c) => spec_first_type(s@) == Some(*c),
            None => spec_first_type(s@) is None,
        },
{
    let n = s.len();
    let ghost sq = s@;
    proof {
        assert(sq.skip(0) =~= sq);
    }
    let mut i: usize = 0;
    while i < n
        invariant
            sq == s@,
            n == sq.len(),
            0 <= i <= n,
            spec_first_type(sq) == spec_first_type(sq.skip(i as int)),
        decreases n - i,
    {
        proof {
            assert(sq.skip(i as int)[0] == sq[i as int]);
            assert(sq.skip(i as int).drop_first() =~= sq.skip(i + 1));
        }
        if matches!(s[i].kind, NodeKind::TypeSpecification) || matches!(
            s[i].kind,
            NodeKind::BasicType,
        ) {
            return Some(&s[i]);
        }
        i = i + 1;
    }
    proof {
        assert(sq.skip(n as int).len() == 0);
    }
    None
}

/// The declared variable's name, by the extractor's fallbacks.
fn var_name_of(n: &SyntaxNode) -> (r: Option<String>)
    ensures
        opt_str_view(r) == spec_var_name(*n),
{
    match n.child_by_field(FieldTag::Name) {
        Some(nm) => Some(clean_name(nm.text.as_str())),
        None => {
            match n.child_by_field(FieldTag::Names) {
                Some(ns) => {
                    match first_ident(&ns.children) {
                        Some(c) => Some(clean_name(c.text.as_str())),
                        None => fallback_name_of(n),
                    }
                },
                None => fallback_name_of(n),
            }
        },
    }
}

fn fallback_name_of(n: &SyntaxNode) -> (r: Option<String>)
    ensures
        opt_str_view(r) == fallback_var_name(*n),
{
    match first_ident(&n.children) {
        Some(c) => Some(clean_name(c.text.as_str())),
        None => None,
    }
}

/// The declared variable's raw type text.
fn var_type_text_of(n: &SyntaxNode) -> (r: Option<String>)
    ensures
        opt_str_view(r) == spec_var_type_text(*n),
{
    match n.child_by_field(FieldTag::TypeField) {
        Some(t) => Some(str_to_owned(t.text.as_str())),
        None => {
            match first_type(&n.children) {
                Some(t) => Some(str_to_owned(t.text.as_str())),
                None => None,
            }
        },
    }
}

/// Walks a subtree for variable declarations.
fn walk_variables(n: &SyntaxNode, ctx: &Option<String>, vars: &mut Vec<ParsedVariable>)
    ensures
        final(vars)@.map_values(|v: ParsedVariable| pv_view(v)) == old(vars)@.map_values(
            |v: ParsedVariable| pv_view(v),
        ) + spec_vars_walk(*n, opt_str_view(*ctx)),
    decreases *n,
{
    let ghost gctx = opt_str_view(*ctx);
    let ghost vars0 = old(vars)@.map_values(|v: ParsedVariable| pv_view(v));
    if matches!(n.kind, NodeKind::VariableDeclaration) {
        let name = var_name_of(n);
        let tt = var_type_text_of(n);
        match (name, tt) {
            (Some(name), Some(tt)) => {
                let (k, tn) = parse_type_specification(tt.as_str());
                vars.push(
                    ParsedVariable {
                        name,
                        ty_name: tn,
                        ty_kind: k,
                        containing_procedure: clone_opt(ctx),
                    },
                );
            },
            _ => {},
        }
    }
    proof {
        assert(vars@.map_values(|v: ParsedVariable| pv_view(v)) =~= vars0 + spec_var_own(
            *n,
            gctx,
        ));
    }
    let sub_ctx = ctx_after(n, ctx);
    let ghost gsub = spec_ctx_after(*n, gctx);
    let ghost cs = n.children@;
    proof {
        assert(cs.skip(0) =~= cs);
    }
    let m = n.children.len();
    let mut i: usize = 0;
    while i < m
        invariant
            cs == n.children@,
            m == cs.len(),
            0 <= i <= m,
            opt_str_view(sub_ctx) == gsub,
            vars@.map_values(|v: ParsedVariable| pv_view(v)) + spec_vars_seq(
                cs.skip(i as int),
                gsub,
            ) == vars0 + spec_vars_walk(*n, gctx),
        decreases m - i,
    {
        let ghost vars_before = vars@.map_values(|v: ParsedVariable| pv_view(v));
        proof {
            assert(decreases_to!(*n => n.children@[i as int]));
            assert(cs.skip(i as int)[0] == cs[i as int]);
            assert(cs.skip(i as int).drop_first() =~= cs.skip(i + 1));
        }
        walk_variables(&n.children[i], &sub_ctx, vars);
        proof {
            let a = vars_before;
            let b = spec_vars_walk(cs[i as int], gsub);
            let c = spec_vars_seq(cs.skip(i + 1), gsub);
            assert(spec_vars_seq(cs.skip(i as int), gsub) == b + c);
            assert((a + b) + c =~= a + (b + c));
        }
        i = i + 1;
    }
    proof {
        assert(cs.skip(m as int).len() == 0);
        assert(vars@.map_values(|v: ParsedVariable| pv_view(v)) + Seq::<
            (Seq<char>, Seq<char>, Option<Seq<char>>, Option<Seq<char>>),
        >::empty() =~= vars@.map_values(|v: ParsedVariable| pv_view(v)));
    }
}

/// Extracts everything from one file's syntax tree: the object header,
/// the definitions, the calls with their containing procedures, and the
/// variable declarations.
pub fn extract_file(root: &SyntaxNode) -> (r: ParsedFile)
    ensures
        (r.object_type, opt_str_view(r.object_name)) == spec_header_walk(
            (None, None),
            *root,
        ),
        r.definitions@.map_values(|d: ParsedDefinition| pd_view(d)) == spec_defs_walk(*root),
        r.calls@.map_values(|c: ParsedCall| pc_view(c)) == spec_calls_walk(*root, None),
        r.variables@.map_values(|v: ParsedVariable| pv_view(v)) == spec_vars_walk(*root, None),
{
    let mut object_type: Option<ObjectType> = None;
    let mut object_name: Option<String> = None;
    let mut definitions: Vec<ParsedDefinition> = Vec::new();
    let mut calls: Vec<ParsedCall> = Vec::new();
    let mut variables: Vec<ParsedVariable> = Vec::new();
    proof {
        assert(definitions@.map_values(|d: ParsedDefinition| pd_view(d)) =~= Seq::<
            (Seq<char>, TextRange, DefinitionKind, u32, u32, u32, Option<Seq<char>>, Option<Seq<char>>),
        >::empty());
        assert(calls@.map_values(|c: ParsedCall| pc_view(c)) =~= Seq::<
            (Option<Seq<char>>, Seq<char>, TextRange, Option<Seq<char>>),
        >::empty());
        assert(variables@.map_values(|v: ParsedVariable| pv_view(v)) =~= Seq::<
            (Seq<char>, Seq<char>, Option<Seq<char>>, Option<Seq<char>>),
        >::empty());
    }
    walk_definitions(root, &mut object_type, &mut object_name, &mut definitions);
    let none_ctx: Option<String> = None;
    walk_calls(root, &none_ctx, &mut calls);
    walk_variables(root, &none_ctx, &mut variables);
    proof {
        assert(Seq::<(Seq<char>, TextRange, DefinitionKind, u32, u32, u32, Option<Seq<char>>, Option<Seq<char>>)>::empty()
            + spec_defs_walk(*root) =~= spec_defs_walk(*root));
        assert(Seq::<(Option<Seq<char>>, Seq<char>, TextRange, Option<Seq<char>>)>::empty()
            + spec_calls_walk(*root, None) =~= spec_calls_walk(*root, None));
        assert(Seq::<(Seq<char>, Seq<char>, Option<Seq<char>>, Option<Seq<char>>)>::empty()
            + spec_vars_walk(*root, None) =~= spec_vars_walk(*root, None));
    }
    ParsedFile { object_type, object_name, definitions, calls, variables }
}

} // verus!
