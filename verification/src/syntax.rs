//! The concrete-syntax model the extractor works on: a tree of nodes with
//! named kinds, field tags, source text and ranges, as the black-box AL
//! parser produces them; and the cyclomatic-complexity count over it.

use vstd::prelude::*;

use crate::graph::TextRange;

verus! {

/// The node kinds the extractor reads; everything else is `Other`.
#[derive(Clone, Copy, Debug, PartialEq, Eq)]
pub enum NodeKind {
    CodeunitDeclaration,
    PreprocSplitCodeunitDeclaration,
    TableDeclaration,
    PageDeclaration,
    ReportDeclaration,
    QueryDeclaration,
    XmlPortDeclaration,
    EnumDeclaration,
    InterfaceDeclaration,
    ControlAddInDeclaration,
    PageExtensionDeclaration,
    TableExtensionDeclaration,
    EnumExtensionDeclaration,
    PermissionSetDeclaration,
    PermissionSetExtensionDeclaration,
    Procedure,
    TriggerDeclaration,
    NamedTrigger,
    OnRunTrigger,
    IfStatement,
    WhileStatement,
    ForStatement,
    ForeachStatement,
    RepeatStatement,
    CaseBranch,
    LogicalExpression,
    CallExpression,
    MemberExpression,
    FieldAccess,
    VariableDeclaration,
    Identifier,
    QuotedIdentifier,
    TypeSpecification,
    BasicType,
    ParameterList,
    Parameter,
    Attribute,
    AttributeArguments,
    OpAnd,
    OpOr,
    OpXor,
    Other,
}

/// The grammar fields the extractor reads.
#[derive(Clone, Copy, Debug, PartialEq, Eq)]
pub enum FieldTag {
    Name,
    Names,
    ElseBranch,
    Operator,
    TypeField,
    ObjectName,
    Arguments,
    Function,
    ObjectPart,
    Property,
    RecordPart,
    FieldPart,
}

/// One node of the concrete syntax tree.
pub struct SyntaxNode {
    /// The node's kind.
    pub kind: NodeKind,
    /// The field this node fills in its parent, when named.
    pub field: Option<FieldTag>,
    /// The source text the node spans.
    pub text: String,
    /// The node's extent.
    pub range: TextRange,
    /// The children, in source order.
    pub children: Vec<SyntaxNode>,
}

/// The first child filling a field.
pub open spec fn spec_child_by_field(s: Seq<SyntaxNode>, f: FieldTag) -> Option<SyntaxNode>
    decreases s.len(),
{
    if s.len() == 0 {
        None
    } else if s[0].field == Some(f) {
        Some(s[0])
    } else {
        spec_child_by_field(s.drop_first(), f)
    }
}

impl SyntaxNode {
    /// The first child filling a field, as the grammar's field accessors
    /// hand it out.
    pub fn child_by_field(&self, f: FieldTag) -> (r: Option<&SyntaxNode>)
        ensures
            match r {
                Some(c) => spec_child_by_field(self.children@, f) == Some(*c),
                None => spec_child_by_field(self.children@, f) is None,
            },
    {
        let n = self.children.len();
        let ghost s = self.children@;
        proof {
            assert(s.skip(0) =~= s);
        }
        let mut i: usize = 0;
        while i < n
            invariant
                s == self.children@,
                n == s.len(),
                0 <= i <= n,
                spec_child_by_field(s, f) == spec_child_by_field(s.skip(i as int), f),
            decreases n - i,
        {
            proof {
                assert(s.skip(i as int)[0] == s[i as int]);
                assert(s.skip(i as int).drop_first() =~= s.skip(i + 1));
            }
            if field_eq(&self.children[i].field, f) {
                return Some(&self.children[i]);
            }
            i = i + 1;
        }
        proof {
            assert(s.skip(n as int).len() == 0);
        }
        None
    }
}

/// Whether an optional field tag is the given one.
fn field_eq(o: &Option<FieldTag>, f: FieldTag) -> (r: bool)
    ensures
        r == (*o == Some(f)),
{
    match o {
        Some(g) => matches!(
            (g, f),
            (FieldTag::Name, FieldTag::Name)
            | (FieldTag::Names, FieldTag::Names)
            | (FieldTag::ElseBranch, FieldTag::ElseBranch)
            | (FieldTag::Operator, FieldTag::Operator)
            | (FieldTag::TypeField, FieldTag::TypeField)
            | (FieldTag::ObjectName, FieldTag::ObjectName)
            | (FieldTag::Arguments, FieldTag::Arguments)
            | (FieldTag::Function, FieldTag::Function)
            | (FieldTag::ObjectPart, FieldTag::ObjectPart)
            | (FieldTag::Property, FieldTag::Property)
            | (FieldTag::RecordPart, FieldTag::RecordPart)
            | (FieldTag::FieldPart, FieldTag::FieldPart)
        ),
        None => false,
    }
}

/// The decision points one node contributes: an `if` counts one, plus one
/// for an `else` branch; each loop counts one; each case branch counts
/// one (the `else` branch of a `case` has its own kind and does not);
/// a logical expression counts one when its operator is `and` or `or`.
pub open spec fn spec_node_points(n: SyntaxNode) -> nat {
    match n.kind {
        NodeKind::IfStatement => if spec_child_by_field(n.children@, FieldTag::ElseBranch)
            is Some {
            2
        } else {
            1
        },
        NodeKind::WhileStatement => 1,
        NodeKind::ForStatement => 1,
        NodeKind::ForeachStatement => 1,
        NodeKind::RepeatStatement => 1,
        NodeKind::CaseBranch => 1,
        NodeKind::LogicalExpression => match spec_child_by_field(
            n.children@,
            FieldTag::Operator,
        ) {
            Some(op) => if op.kind is OpAnd || op.kind is OpOr {
                1
            } else {
                0
            },
            None => 0,
        },
        _ => 0,
    }
}

/// The decision points of a whole subtree.
pub open spec fn spec_decision_points(n: SyntaxNode) -> nat
    decreases n,
{
    spec_node_points(n) + spec_decision_points_seq(n.children@)
}

/// The decision points of a forest.
pub open spec fn spec_decision_points_seq(s: Seq<SyntaxNode>) -> nat
    decreases s,
{
    if s.len() == 0 {
        0
    } else {
        spec_decision_points(s[0]) + spec_decision_points_seq(s.drop_first())
    }
}

/// The cyclomatic complexity of a subtree: one base path plus its
/// decision points.
pub open spec fn spec_complexity(n: SyntaxNode) -> nat {
    1 + spec_decision_points(n)
}

/// A sum capped at what a `u32` holds.
pub open spec fn capped(x: nat) -> nat {
    if x > 0xFFFF_FFFF {
        0xFFFF_FFFF
    } else {
        x
    }
}

proof fn lemma_capped_add(a: nat, b: nat)
    ensures
        capped(capped(a) + b) == capped(a + b),
{
}

/// Counts the decision points of a subtree; a count beyond the index
/// type's range stops at its maximum.
pub fn count_decision_points(n: &SyntaxNode) -> (r: u32)
    ensures
        r == capped(spec_decision_points(*n)),
    decreases *n,
{
    let own: u32 = node_points(n);
    let mut total: u32 = own;
    let m = n.children.len();
    let ghost cs = n.children@;
    proof {
        assert(cs.take(0) =~= Seq::<SyntaxNode>::empty());
    }
    let mut i: usize = 0;
    while i < m
        invariant
            cs == n.children@,
            m == cs.len(),
            0 <= i <= m,
            total == capped(spec_node_points(*n) + spec_points_take(cs, i as int)),
        decreases m - i,
    {
        proof {
            assert(decreases_to!(*n => n.children@[i as int]));
        }
        let c = count_decision_points(&n.children[i]);
        let sum: u64 = (total as u64) + (c as u64);
        if sum > 0xFFFF_FFFFu64 {
            total = 0xFFFF_FFFFu32;
        } else {
            total = sum as u32;
        }
        proof {
            assert(spec_points_take(cs, i + 1) == spec_points_take(cs, i as int)
                + spec_decision_points(cs[i as int])) by {
                assert(cs.take(i + 1).drop_last() =~= cs.take(i as int));
                lemma_points_take_unfold(cs, i as int);
            }
            lemma_capped_add(
                spec_node_points(*n) + spec_points_take(cs, i as int),
                spec_decision_points(cs[i as int]),
            );
            lemma_capped_add(spec_decision_points(cs[i as int]), 0);
        }
        i = i + 1;
    }
    proof {
        lemma_points_seq_take_all(cs);
    }
    total
}

/// The decision points of the first `i` trees of a forest.
pub open spec fn spec_points_take(s: Seq<SyntaxNode>, i: int) -> nat {
    spec_decision_points_seq(s.take(i))
}

/// Splitting the last tree off a prefix splits its count.
proof fn lemma_points_take_unfold(s: Seq<SyntaxNode>, i: int)
    requires
        0 <= i < s.len(),
    ensures
        spec_decision_points_seq(s.take(i + 1)) == spec_decision_points_seq(s.take(i))
            + spec_decision_points(s[i]),
    decreases i,
{
    if i == 0 {
        assert(s.take(1).drop_first() =~= s.take(0));
        assert(s.take(1)[0] == s[0]);
        assert(spec_decision_points_seq(s.take(0)) == 0);
    } else {
        assert(s.take(i + 1)[0] == s[0]);
        assert(s.take(i)[0] == s[0]);
        assert(s.take(i + 1).drop_first() =~= s.drop_first().take(i));
        assert(s.take(i).drop_first() =~= s.drop_first().take(i - 1));
        lemma_points_take_unfold(s.drop_first(), i - 1);
        assert(s.drop_first()[i - 1] == s[i]);
    }
}

proof fn lemma_points_seq_take_all(s: Seq<SyntaxNode>)
    ensures
        spec_decision_points_seq(s.take(s.len() as int)) == spec_decision_points_seq(s),
{
    assert(s.take(s.len() as int) =~= s);
}

/// The decision points of one node, apart from its subtree.
fn node_points(n: &SyntaxNode) -> (r: u32)
    ensures
        r == spec_node_points(*n),
{
    match n.kind {
        NodeKind::IfStatement => {
            if n.child_by_field(FieldTag::ElseBranch).is_some() {
                2
            } else {
                1
            }
        },
        NodeKind::WhileStatement => 1,
        NodeKind::ForStatement => 1,
        NodeKind::ForeachStatement => 1,
        NodeKind::RepeatStatement => 1,
        NodeKind::CaseBranch => 1,
        NodeKind::LogicalExpression => {
            match n.child_by_field(FieldTag::Operator) {
                Some(op) => {
                    if matches!(op.kind, NodeKind::OpAnd) || matches!(op.kind, NodeKind::OpOr) {
                        1
                    } else {
                        0
                    }
                },
                None => 0,
            }
        },
        _ => 0,
    }
}

/// The cyclomatic complexity of a definition's subtree: one for the
/// single path through it, plus one for every decision point. Every
/// subtree has complexity at least one, and a straight-line subtree has
/// complexity exactly one.
pub fn calculate_complexity(n: &SyntaxNode) -> (r: u32)
    ensures
        r == capped(spec_complexity(*n)),
        r >= 1,
        spec_decision_points(*n) == 0 ==> r == 1,
{
    let points = count_decision_points(n);
    if points == 0xFFFF_FFFFu32 {
        points
    } else {
        points + 1
    }
}


/// The first parameter-list child.
pub open spec fn spec_param_list(s: Seq<SyntaxNode>) -> Option<SyntaxNode>
    decreases s.len(),
{
    if s.len() == 0 {
        None
    } else if s[0].kind is ParameterList {
        Some(s[0])
    } else {
        spec_param_list(s.drop_first())
    }
}

/// The declared parameters of a definition node: the parameter children
/// of its first parameter list.
pub open spec fn spec_count_params(n: SyntaxNode) -> nat {
    match spec_param_list(n.children@) {
        Some(pl) => capped(pl.children@.filter(|c: SyntaxNode| c.kind is Parameter).len()),
        None => 0,
    }
}

/// The lines a range spans, capped at the index type.
pub open spec fn spec_span_lines(r: TextRange) -> nat {
    if r.end.line >= r.start.line {
        capped((r.end.line - r.start.line + 1) as nat)
    } else {
        1
    }
}

/// A one-based line number, capped at the index type.
pub open spec fn spec_line_one_based(r: TextRange) -> nat {
    capped((r.start.line + 1) as nat)
}

/// The first parameter-list child.
pub(crate) fn param_list_of(s: &Vec<SyntaxNode>) -> (r: Option<&SyntaxNode>)
    ensures
        match r {
            Some(c) => spec_param_list(s@) == Some(*c),
            None => spec_param_list(s@) is None,
        },
{
    let n = s.len();
    let ghost sq = s@;
    proof {
        assert(sq.skip(0) =~= sq);
    }
    let mut i: usize = 0;
    while i < n
        invariant
            sq == s@,
            n == sq.len(),
            0 <= i <= n,
            spec_param_list(sq) == spec_param_list(sq.skip(i as int)),
        decreases n - i,
    {
        proof {
            assert(sq.skip(i as int)[0] == sq[i as int]);
            assert(sq.skip(i as int).drop_first() =~= sq.skip(i + 1));
        }
        if matches!(s[i].kind, NodeKind::ParameterList) {
            return Some(&s[i]);
        }
        i = i + 1;
    }
    proof {
        assert(sq.skip(n as int).len() == 0);
    }
    None
}

/// Counts a definition node's declared parameters.
pub fn count_parameters(n: &SyntaxNode) -> (r: u32)
    ensures
        r == spec_count_params(*n),
{
    match param_list_of(&n.children) {
        Some(pl) => {
            let m = pl.children.len();
            let ghost cs = pl.children@;
            let mut count: usize = 0;
            let mut i: usize = 0;
            proof {
                reveal(Seq::filter);
                assert(cs.take(0) =~= Seq::<SyntaxNode>::empty());
            }
            while i < m
                invariant
                    cs == pl.children@,
                    m == cs.len(),
                    0 <= i <= m,
                    count <= i,
                    count == cs.take(i as int).filter(
                        |c: SyntaxNode| c.kind is Parameter,
                    ).len(),
                decreases m - i,
            {
                proof {
                    reveal(Seq::filter);
                    assert(cs.take(i + 1).drop_last() =~= cs.take(i as int));
                    assert(cs.take(i + 1).last() == cs[i as int]);
                }
                if matches!(pl.children[i].kind, NodeKind::Parameter) {
                    count = count + 1;
                }
                i = i + 1;
            }
            proof {
                assert(cs.take(m as int) =~= cs);
            }
            if count > 0xFFFF_FFFFusize {
                0xFFFF_FFFFu32
            } else {
                count as u32
            }
        },
        None => 0,
    }
}



/// The lines a range spans.
pub fn span_lines(r: &TextRange) -> (c: u32)
    ensures
        c == spec_span_lines(*r),
{
    if r.end.line >= r.start.line {
        let d = r.end.line - r.start.line;
        if d == 0xFFFF_FFFFu32 {
            d
        } else {
            d + 1
        }
    } else {
        1
    }
}

/// The one-based line of a range's start.
pub fn line_one_based(r: &TextRange) -> (c: u32)
    ensures
        c == spec_line_one_based(*r),
{
    if r.start.line == 0xFFFF_FFFFu32 {
        0xFFFF_FFFFu32
    } else {
        r.start.line + 1
    }
}

} // verus!
