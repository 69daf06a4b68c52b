//! The extractor and the analysis over hand-built syntax trees, the fold
//! into the graph, incremental re-indexing, the protocol conversions and
//! the language-server query logic.

use al_call_hierarchy::analysis::{
    build_summary, calculate_quality_score, generate_findings, ProcedureMetrics,
};
use al_call_hierarchy::extract::extract_file;
use al_call_hierarchy::graph::{
    CallGraph, DefinitionKind, ObjectType, QualifiedName, TextPos, TextRange,
};
use al_call_hierarchy::handlers::{
    code_lens_entries, get_code_quality_diagnostics, get_unused_procedure_diagnostics,
    incoming_call_entries, outgoing_call_entries, prepare_call_hierarchy, Severity,
};
use al_call_hierarchy::indexer::{fold_parsed_file, reindex_file};
use al_call_hierarchy::parser::{ParsedCall, ParsedDefinition, ParsedFile, ParsedVariable};
use al_call_hierarchy::protocol::{path_to_uri, uri_to_path};
use al_call_hierarchy::syntax::{
    calculate_complexity, count_parameters, FieldTag, NodeKind, SyntaxNode,
};

fn range_at(start_line: u32, end_line: u32) -> TextRange {
    TextRange {
        start: TextPos { line: start_line, character: 0 },
        end: TextPos { line: end_line, character: 100 },
    }
}

fn node(
    kind: NodeKind,
    field: Option<FieldTag>,
    text: &str,
    children: Vec<SyntaxNode>,
) -> SyntaxNode {
    SyntaxNode { kind, field, text: text.to_string(), range: range_at(0, 0), children }
}

fn node_spanning(
    kind: NodeKind,
    field: Option<FieldTag>,
    text: &str,
    range: TextRange,
    children: Vec<SyntaxNode>,
) -> SyntaxNode {
    SyntaxNode { kind, field, text: text.to_string(), range, children }
}

fn leaf(kind: NodeKind, field: Option<FieldTag>, text: &str) -> SyntaxNode {
    node(kind, field, text, Vec::new())
}

// ==================== Complexity ====================

#[test]
fn test_complexity_simple_procedure() {
    // A straight-line procedure has complexity one.
    let proc = node(
        NodeKind::Procedure,
        None,
        "",
        vec![
            leaf(NodeKind::Identifier, Some(FieldTag::Name), "SimpleProcedure"),
            leaf(NodeKind::Other, None, "Message('Hello');"),
        ],
    );
    assert_eq!(calculate_complexity(&proc), 1);
}

#[test]
fn test_complexity_canonical_procedure() {
    // One `if`, a nested `if` with an `else`, a `while` guarded by an
    // `and`, and a `case` with two branches plus an uncounted `else`:
    // 1 + 1 + 2 + 1 + 1 + 2 = 8.
    let nested_if = node(
        NodeKind::IfStatement,
        None,
        "",
        vec![leaf(NodeKind::Other, Some(FieldTag::ElseBranch), "else")],
    );
    let outer_if = node(NodeKind::IfStatement, None, "", vec![nested_if]);
    let guard = node(
        NodeKind::LogicalExpression,
        None,
        "",
        vec![leaf(NodeKind::OpAnd, Some(FieldTag::Operator), "and")],
    );
    let while_loop = node(NodeKind::WhileStatement, None, "", vec![guard]);
    let case_like = node(
        NodeKind::Other,
        None,
        "",
        vec![
            leaf(NodeKind::CaseBranch, None, "1:"),
            leaf(NodeKind::CaseBranch, None, "2:"),
            leaf(NodeKind::Other, None, "else"),
        ],
    );
    let proc = node(
        NodeKind::Procedure,
        None,
        "",
        vec![
            leaf(NodeKind::Identifier, Some(FieldTag::Name), "ComplexProcedure"),
            outer_if,
            while_loop,
            case_like,
        ],
    );
    assert_eq!(calculate_complexity(&proc), 8);
}

#[test]
fn test_complexity_if_else() {
    let if_else = node(
        NodeKind::IfStatement,
        None,
        "",
        vec![leaf(NodeKind::Other, Some(FieldTag::ElseBranch), "else")],
    );
    let proc = node(NodeKind::Procedure, None, "", vec![if_else]);
    assert_eq!(calculate_complexity(&proc), 3);
}

#[test]
fn test_complexity_loops() {
    let proc = node(
        NodeKind::Procedure,
        None,
        "",
        vec![
            leaf(NodeKind::ForStatement, None, ""),
            leaf(NodeKind::ForeachStatement, None, ""),
            leaf(NodeKind::RepeatStatement, None, ""),
            leaf(NodeKind::WhileStatement, None, ""),
        ],
    );
    assert_eq!(calculate_complexity(&proc), 5);
}

#[test]
fn test_complexity_ignores_xor() {
    let xor_expr = node(
        NodeKind::LogicalExpression,
        None,
        "",
        vec![leaf(NodeKind::OpXor, Some(FieldTag::Operator), "xor")],
    );
    let proc = node(NodeKind::Procedure, None, "", vec![xor_expr]);
    assert_eq!(calculate_complexity(&proc), 1);
}

#[test]
fn test_count_parameters() {
    let params = node(
        NodeKind::ParameterList,
        None,
        "",
        vec![
            leaf(NodeKind::Parameter, None, "a"),
            leaf(NodeKind::Other, None, ";"),
            leaf(NodeKind::Parameter, None, "b"),
        ],
    );
    let proc = node(NodeKind::Procedure, None, "", vec![params]);
    assert_eq!(count_parameters(&proc), 2);
}

// ==================== Quality score ====================

#[test]
fn test_quality_score_perfect() {
    let score = calculate_quality_score(1, 5, 1);
    assert_eq!(score, 1000);
}

#[test]
fn test_quality_score_high_complexity() {
    let score = calculate_quality_score(10, 5, 1);
    assert!(score < 500);
}

#[test]
fn test_quality_score_long_method() {
    let score = calculate_quality_score(1, 50, 1);
    assert!(score < 500);
}

#[test]
fn test_quality_score_many_params() {
    let score = calculate_quality_score(1, 5, 8);
    assert!(score < 700);
}

#[test]
fn test_findings_generated_for_high_complexity() {
    let metrics = ProcedureMetrics {
        object_type: "Codeunit".to_string(),
        object_name: "Test".to_string(),
        procedure_name: "TestProc".to_string(),
        file: "test.al".to_string(),
        line: 10,
        complexity: 12,
        line_count: 10,
        parameter_count: 2,
        quality_score_centi: 500,
    };
    let findings = generate_findings(&metrics);
    assert!(findings
        .iter()
        .any(|f| f.category == "high_complexity" && f.severity == "critical"));
    assert_eq!(findings[0].location, "test.al:10");
    assert_eq!(findings[0].procedure, "Test.TestProc");
    assert_eq!(
        findings[0].description,
        "Cyclomatic complexity 12 exceeds critical threshold of 10"
    );
}

#[test]
fn test_build_summary_totals() {
    let m1 = ProcedureMetrics {
        object_type: "Codeunit".to_string(),
        object_name: "Test".to_string(),
        procedure_name: "A".to_string(),
        file: "test.al".to_string(),
        line: 1,
        complexity: 12,
        line_count: 30,
        parameter_count: 1,
        quality_score_centi: 0,
    };
    let m2 = ProcedureMetrics {
        object_type: "Codeunit".to_string(),
        object_name: "Test".to_string(),
        procedure_name: "B".to_string(),
        file: "test.al".to_string(),
        line: 40,
        complexity: 2,
        line_count: 4,
        parameter_count: 0,
        quality_score_centi: 1000,
    };
    let mut findings = generate_findings(&m1);
    findings.extend(generate_findings(&m2));
    let metrics = vec![m1, m2];
    let summary = build_summary(&metrics, &findings);
    assert_eq!(summary.total_procedures, 2);
    assert_eq!(summary.complexity_total, 14);
    assert_eq!(summary.quality_score_centi_total, 1000);
    // Complexity 12 is critical; length 30 is a warning; the second
    // metric is clean.
    assert_eq!(summary.critical_findings, 1);
    assert_eq!(summary.warning_findings, 1);
}

// ==================== Extraction and folding ====================

fn call_expr(receiver: Option<&str>, method: &str, range: TextRange) -> SyntaxNode {
    let function = match receiver {
        Some(obj) => node(
            NodeKind::MemberExpression,
            Some(FieldTag::Function),
            "",
            vec![
                leaf(NodeKind::Identifier, Some(FieldTag::ObjectPart), obj),
                leaf(NodeKind::Identifier, Some(FieldTag::Property), method),
            ],
        ),
        None => leaf(NodeKind::Identifier, Some(FieldTag::Function), method),
    };
    node_spanning(NodeKind::CallExpression, None, "", range, vec![function])
}

fn procedure(name: &str, range: TextRange, body: Vec<SyntaxNode>) -> SyntaxNode {
    let mut children = vec![leaf(NodeKind::Identifier, Some(FieldTag::Name), name)];
    children.extend(body);
    node_spanning(NodeKind::Procedure, None, "", range, children)
}

fn codeunit(name: &str, procedures: Vec<SyntaxNode>) -> SyntaxNode {
    let mut children = vec![leaf(NodeKind::Identifier, Some(FieldTag::ObjectName), name)];
    children.extend(procedures);
    node(NodeKind::CodeunitDeclaration, None, "", children)
}

#[test]
fn test_extract_file_header_definitions_and_calls() {
    let tree = codeunit(
        "\"Test Codeunit\"",
        vec![
            procedure("Caller", range_at(3, 6), vec![call_expr(None, "Callee", range_at(4, 4))]),
            procedure("Callee", range_at(8, 10), Vec::new()),
        ],
    );
    let parsed = extract_file(&tree);
    assert_eq!(parsed.object_type, Some(ObjectType::Codeunit));
    assert_eq!(parsed.object_name.as_deref(), Some("Test Codeunit"));
    assert_eq!(parsed.definitions.len(), 2);
    assert_eq!(parsed.definitions[0].name, "Caller");
    assert_eq!(parsed.definitions[1].name, "Callee");
    assert_eq!(parsed.calls.len(), 1);
    assert_eq!(parsed.calls[0].method, "Callee");
    assert!(parsed.calls[0].object.is_none());
    assert_eq!(parsed.calls[0].containing_procedure.as_deref(), Some("Caller"));
}

#[test]
fn test_extract_file_variables() {
    let var_decl = node(
        NodeKind::VariableDeclaration,
        None,
        "",
        vec![
            leaf(NodeKind::Identifier, Some(FieldTag::Name), "Cust"),
            leaf(NodeKind::TypeSpecification, Some(FieldTag::TypeField), "Record \"Customer\""),
        ],
    );
    let tree = codeunit(
        "\"C\"",
        vec![procedure("P", range_at(2, 9), vec![var_decl])],
    );
    let parsed = extract_file(&tree);
    assert_eq!(parsed.variables.len(), 1);
    assert_eq!(parsed.variables[0].name, "Cust");
    assert_eq!(parsed.variables[0].ty_name, "Customer");
    assert_eq!(parsed.variables[0].ty_kind.as_deref(), Some("Record"));
    assert_eq!(parsed.variables[0].containing_procedure.as_deref(), Some("P"));
}

#[test]
fn test_fold_unqualified_call_links_caller_and_callee() {
    // A codeunit whose first procedure calls its second, folded whole.
    let tree = codeunit(
        "\"Test\"",
        vec![
            procedure("Caller", range_at(3, 6), vec![call_expr(None, "Callee", range_at(4, 4))]),
            procedure("Callee", range_at(8, 10), Vec::new()),
        ],
    );
    let parsed = extract_file(&tree);
    let mut graph = CallGraph::new();
    fold_parsed_file(&mut graph, "test.al", &parsed);

    let obj = graph.get_symbol("Test").unwrap();
    let caller = graph.get_symbol("Caller").unwrap();
    let callee = graph.get_symbol("Callee").unwrap();
    let incoming = graph.get_incoming_calls(&QualifiedName { object: obj, procedure: callee });
    let outgoing = graph.get_outgoing_calls(&QualifiedName { object: obj, procedure: caller });
    assert_eq!(incoming.len(), 1);
    assert_eq!(outgoing.len(), 1);
    // Both point at the same arena slot.
    assert_eq!(incoming[0].range, outgoing[0].range);
}

#[test]
fn test_fold_variable_mediated_resolution() {
    // `Cust` is a `Record "Customer"` local; `Cust.Validate(...)` lands
    // on the table's own procedure.
    let var_decl = node(
        NodeKind::VariableDeclaration,
        None,
        "",
        vec![
            leaf(NodeKind::Identifier, Some(FieldTag::Name), "Cust"),
            leaf(NodeKind::TypeSpecification, Some(FieldTag::TypeField), "Record \"Customer\""),
        ],
    );
    let codeunit_tree = codeunit(
        "\"C\"",
        vec![procedure(
            "P",
            range_at(2, 9),
            vec![var_decl, call_expr(Some("Cust"), "Validate", range_at(5, 5))],
        )],
    );
    let mut table_children = vec![leaf(
        NodeKind::Identifier,
        Some(FieldTag::ObjectName),
        "\"Customer\"",
    )];
    table_children.push(procedure("Validate", range_at(3, 6), Vec::new()));
    let table_tree = node(NodeKind::TableDeclaration, None, "", table_children);

    let mut graph = CallGraph::new();
    fold_parsed_file(&mut graph, "table.al", &extract_file(&table_tree));
    fold_parsed_file(&mut graph, "c.al", &extract_file(&codeunit_tree));

    let table = graph.get_symbol("Customer").unwrap();
    let validate = graph.get_symbol("Validate").unwrap();
    let incoming = graph.get_incoming_calls(&QualifiedName {
        object: table,
        procedure: validate,
    });
    assert_eq!(incoming.len(), 1);
}

fn parsed_caller_file(calls_callee: bool) -> ParsedFile {
    let calls = if calls_callee {
        vec![ParsedCall {
            object: Some("B".to_string()),
            method: "M".to_string(),
            range: range_at(4, 4),
            containing_procedure: Some("PA".to_string()),
        }]
    } else {
        Vec::new()
    };
    ParsedFile {
        object_type: Some(ObjectType::Codeunit),
        object_name: Some("A".to_string()),
        definitions: vec![ParsedDefinition {
            name: "PA".to_string(),
            range: range_at(3, 6),
            kind: DefinitionKind::Procedure,
            complexity: 1,
            line_count: 4,
            parameter_count: 0,
            event_target_object: None,
            event_target_procedure: None,
        }],
        calls,
        variables: Vec::new(),
    }
}

fn parsed_callee_file() -> ParsedFile {
    ParsedFile {
        object_type: Some(ObjectType::Codeunit),
        object_name: Some("B".to_string()),
        definitions: vec![ParsedDefinition {
            name: "M".to_string(),
            range: range_at(2, 5),
            kind: DefinitionKind::Procedure,
            complexity: 1,
            line_count: 4,
            parameter_count: 0,
            event_target_object: None,
            event_target_procedure: None,
        }],
        calls: Vec::new(),
        variables: Vec::new(),
    }
}

#[test]
fn test_fold_cross_file_qualified_call() {
    let mut graph = CallGraph::new();
    fold_parsed_file(&mut graph, "b.al", &parsed_callee_file());
    fold_parsed_file(&mut graph, "a.al", &parsed_caller_file(true));

    let b = graph.get_symbol("B").unwrap();
    let m = graph.get_symbol("M").unwrap();
    let incoming = graph.get_incoming_calls(&QualifiedName { object: b, procedure: m });
    assert_eq!(incoming.len(), 1);
    assert_eq!(graph.resolve_path(incoming[0].file), Some("a.al"));
}

#[test]
fn test_reindex_drops_stale_call() {
    let mut graph = CallGraph::new();
    fold_parsed_file(&mut graph, "b.al", &parsed_callee_file());
    fold_parsed_file(&mut graph, "a.al", &parsed_caller_file(true));
    assert_eq!(graph.call_site_count(), 1);

    // The caller no longer calls B.M after the edit.
    reindex_file(&mut graph, "a.al", Some(&parsed_caller_file(false)));

    let b = graph.get_symbol("B").unwrap();
    let m = graph.get_symbol("M").unwrap();
    assert_eq!(
        graph.get_incoming_calls(&QualifiedName { object: b, procedure: m }).len(),
        0
    );
    // The old site is tombstoned, not shifted away.
    assert_eq!(graph.call_site_count(), 0);
}

#[test]
fn test_reindex_with_identical_content_preserves_queries() {
    let mut graph = CallGraph::new();
    fold_parsed_file(&mut graph, "b.al", &parsed_callee_file());
    fold_parsed_file(&mut graph, "a.al", &parsed_caller_file(true));

    reindex_file(&mut graph, "a.al", Some(&parsed_caller_file(true)));

    let a = graph.get_symbol("A").unwrap();
    let b = graph.get_symbol("B").unwrap();
    let m = graph.get_symbol("M").unwrap();
    let pa = graph.get_symbol("PA").unwrap();
    let incoming = graph.get_incoming_calls(&QualifiedName { object: b, procedure: m });
    assert_eq!(incoming.len(), 1);
    assert_eq!(graph.resolve_path(incoming[0].file), Some("a.al"));
    assert_eq!(
        graph.get_outgoing_calls(&QualifiedName { object: a, procedure: pa }).len(),
        1
    );
    assert_eq!(graph.definition_count(), 2);
    assert_eq!(graph.call_site_count(), 1);
}

#[test]
fn test_reindex_of_deleted_file_only_removes() {
    let mut graph = CallGraph::new();
    fold_parsed_file(&mut graph, "a.al", &parsed_caller_file(true));
    assert_eq!(graph.definition_count(), 1);

    reindex_file(&mut graph, "a.al", None);
    assert_eq!(graph.definition_count(), 0);
}


fn subscriber_procedure() -> SyntaxNode {
    // [EventSubscriber(ObjectType::Table, Database::"Sales Header", 'OnInsert', ...)]
    let args = node(
        NodeKind::AttributeArguments,
        Some(FieldTag::Arguments),
        "",
        vec![
            leaf(NodeKind::Other, None, "ObjectType::Table"),
            leaf(NodeKind::Other, None, "Database::\"Sales Header\""),
            leaf(NodeKind::Other, None, "'OnInsert'"),
        ],
    );
    let attr = node(
        NodeKind::Attribute,
        None,
        "",
        vec![leaf(NodeKind::Identifier, Some(FieldTag::Name), "EventSubscriber"), args],
    );
    let mut children = vec![
        leaf(NodeKind::Identifier, Some(FieldTag::Name), "HandleInsert"),
        attr,
    ];
    children.push(leaf(NodeKind::Other, None, "begin end;"));
    node_spanning(NodeKind::Procedure, None, "", range_at(4, 8), children)
}

#[test]
fn test_extract_event_subscriber_with_target() {
    let tree = codeunit("\"Handlers\"", vec![subscriber_procedure()]);
    let parsed = extract_file(&tree);
    assert_eq!(parsed.definitions.len(), 1);
    assert_eq!(parsed.definitions[0].kind, DefinitionKind::EventSubscriber);
    assert_eq!(parsed.definitions[0].name, "HandleInsert");
    // The quoted object name is taken out of the argument text; the
    // event keeps its quotes trimmed.
    assert_eq!(
        parsed.definitions[0].event_target_object.as_deref(),
        Some("Sales Header")
    );
    assert_eq!(parsed.definitions[0].event_target_procedure.as_deref(), Some("OnInsert"));
}

#[test]
fn test_fold_links_subscriber_to_lowercased_target() {
    let tree = codeunit("\"Handlers\"", vec![subscriber_procedure()]);
    let parsed = extract_file(&tree);
    let mut graph = CallGraph::new();
    fold_parsed_file(&mut graph, "handlers.al", &parsed);

    let tobj = graph.get_symbol("sales header").unwrap();
    let tevt = graph.get_symbol("oninsert").unwrap();
    let target = QualifiedName { object: tobj, procedure: tevt };
    let subs = graph.get_event_subscribers(&target);
    assert_eq!(subs.len(), 1);
    assert_eq!(graph.resolve(subs[0].name), Some("HandleInsert"));
}

#[test]
fn test_reindex_keeps_one_subscriber_entry() {
    let tree = codeunit("\"Handlers\"", vec![subscriber_procedure()]);
    let parsed = extract_file(&tree);
    let mut graph = CallGraph::new();
    fold_parsed_file(&mut graph, "handlers.al", &parsed);
    // Re-index the same content twice: the subscriber must not be listed
    // twice under its target.
    reindex_file(&mut graph, "handlers.al", Some(&extract_file(&tree)));
    reindex_file(&mut graph, "handlers.al", Some(&extract_file(&tree)));

    let tobj = graph.get_symbol("sales header").unwrap();
    let tevt = graph.get_symbol("oninsert").unwrap();
    let target = QualifiedName { object: tobj, procedure: tevt };
    assert_eq!(graph.get_event_subscribers(&target).len(), 1);

    // Removal clears the listing entirely.
    graph.remove_file("handlers.al");
    assert!(graph.get_event_subscribers(&target).is_empty());
}

// ==================== Protocol ====================

#[test]
fn test_uri_to_path_windows() {
    let path = uri_to_path("file:///C:/Users/test/file.al");
    assert_eq!(path.as_deref(), Some("/C:/Users/test/file.al"));
}

#[test]
fn test_uri_to_path_with_spaces() {
    let path = uri_to_path("file:///C:/My%20Project/file.al");
    assert_eq!(path.as_deref(), Some("/C:/My Project/file.al"));
}

#[test]
fn test_uri_to_path_rejects_other_schemes() {
    assert!(uri_to_path("https://host/file.al").is_none());
}

#[test]
fn test_path_to_uri() {
    let uri = path_to_uri("/home/user/my project/file (1).al");
    assert_eq!(uri, "file:///home/user/my%20project/file%20%281%29.al");
    // The two conversions undo each other on this path.
    assert_eq!(uri_to_path(&uri).as_deref(), Some("/home/user/my project/file (1).al"));
}

// ==================== Query logic ====================

fn two_proc_graph() -> CallGraph {
    let mut graph = CallGraph::new();
    fold_parsed_file(&mut graph, "b.al", &parsed_callee_file());
    fold_parsed_file(&mut graph, "a.al", &parsed_caller_file(true));
    graph
}

#[test]
fn test_prepare_call_hierarchy_finds_enclosing_definition() {
    let graph = two_proc_graph();
    let item = prepare_call_hierarchy(&graph, "a.al", 4, 10);
    assert!(item.is_some());
    let item = item.unwrap();
    assert_eq!(item.name, "PA");
    assert_eq!(item.object, "A");
    assert_eq!(item.procedure, "PA");
    assert_eq!(item.detail, "A.PA");
    assert_eq!(item.kind, DefinitionKind::Procedure);
}

#[test]
fn test_prepare_call_hierarchy_misses_outside_ranges() {
    let graph = two_proc_graph();
    assert!(prepare_call_hierarchy(&graph, "a.al", 20, 0).is_none());
    assert!(prepare_call_hierarchy(&graph, "nowhere.al", 4, 10).is_none());
}

#[test]
fn test_incoming_call_entries_lists_direct_callers() {
    let graph = two_proc_graph();
    let entries = incoming_call_entries(&graph, "B", "M").unwrap();
    assert_eq!(entries.len(), 1);
    assert_eq!(entries[0].name, "PA");
    assert!(!entries[0].is_subscriber);
    assert_eq!(graph.resolve_path(entries[0].file), Some("a.al"));
}

#[test]
fn test_incoming_call_entries_unknown_names() {
    let graph = two_proc_graph();
    assert!(incoming_call_entries(&graph, "NoSuch", "M").is_none());
}

#[test]
fn test_outgoing_call_entries_classifies_targets() {
    let graph = two_proc_graph();
    let entries = outgoing_call_entries(&graph, "A", "PA").unwrap();
    assert_eq!(entries.len(), 1);
    assert_eq!(entries[0].name, "M");
    assert_eq!(entries[0].detail, "B.M");
    assert!(matches!(
        entries[0].target,
        al_call_hierarchy::handlers::OutgoingTarget::Local { .. }
    ));
}

#[test]
fn test_code_lens_entries_report_counts_and_metrics() {
    let graph = two_proc_graph();
    let lenses = code_lens_entries(&graph, "b.al");
    assert_eq!(lenses.len(), 1);
    assert_eq!(lenses[0].procedure, "M");
    assert_eq!(lenses[0].title, "1 reference | complexity: 1, lines: 4, params: 0");

    let caller_lenses = code_lens_entries(&graph, "a.al");
    assert_eq!(caller_lenses.len(), 1);
    assert_eq!(
        caller_lenses[0].title,
        "0 references | complexity: 1, lines: 4, params: 0"
    );
}

#[test]
fn test_unused_procedure_diagnostics_name_the_procedure() {
    let graph = two_proc_graph();
    let diags = get_unused_procedure_diagnostics(&graph);
    // Only A.PA is never called.
    assert_eq!(diags.len(), 1);
    assert_eq!(diags[0].severity, Severity::Hint);
    assert_eq!(diags[0].code, "unused-procedure");
    assert_eq!(diags[0].message, "Procedure 'A.PA' is never called");
}

#[test]
fn test_code_quality_diagnostics_flag_complex_procedures() {
    let mut graph = CallGraph::new();
    let mut parsed = parsed_caller_file(false);
    parsed.definitions[0].complexity = 12;
    parsed.definitions[0].parameter_count = 5;
    fold_parsed_file(&mut graph, "a.al", &parsed);

    let diags = get_code_quality_diagnostics(&graph);
    assert_eq!(diags.len(), 2);
    assert_eq!(diags[0].code, "high-complexity");
    assert_eq!(diags[0].severity, Severity::Warning);
    assert_eq!(
        diags[0].message,
        "Procedure 'A.PA' has cyclomatic complexity 12 (critical threshold: 10) - consider simplifying"
    );
    assert_eq!(diags[1].code, "too-many-parameters");
    assert_eq!(diags[1].severity, Severity::Information);
}
