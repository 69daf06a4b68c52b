//! The call graph: interning, path deduplication, definitions, call
//! sites, variable bindings, removal, and the resolution precedence.

use al_call_hierarchy::graph::{
    CallGraph, CallSite, Definition, DefinitionKind, ObjectType, QualifiedName, TextPos,
    TextRange,
};

fn make_range(start_line: u32, end_line: u32) -> TextRange {
    TextRange {
        start: TextPos { line: start_line, character: 0 },
        end: TextPos { line: end_line, character: 100 },
    }
}

fn make_def(
    file: u32,
    range: TextRange,
    object_type: ObjectType,
    object_name: u32,
    name: u32,
    kind: DefinitionKind,
) -> Definition {
    Definition {
        file,
        range,
        object_type,
        object_name,
        name,
        kind,
        complexity: 1,
        line_count: 1,
        parameter_count: 0,
        event_target: None,
    }
}

// ==================== Interning ====================

#[test]
fn test_intern_and_resolve() {
    let mut graph = CallGraph::new();
    let sym = graph.intern("TestSymbol");
    assert_eq!(graph.resolve(sym), Some("TestSymbol"));
}

#[test]
fn test_intern_same_string_returns_same_symbol() {
    let mut graph = CallGraph::new();
    let sym1 = graph.intern("TestSymbol");
    let sym2 = graph.intern("TestSymbol");
    assert_eq!(sym1, sym2);
}

#[test]
fn test_intern_different_strings_differ() {
    let mut graph = CallGraph::new();
    let sym1 = graph.intern("First");
    let sym2 = graph.intern("Second");
    assert_ne!(sym1, sym2);
    assert_eq!(graph.resolve(sym1), Some("First"));
    assert_eq!(graph.resolve(sym2), Some("Second"));
}

#[test]
fn test_get_symbol_found() {
    let mut graph = CallGraph::new();
    let sym = graph.intern("TestSymbol");
    assert_eq!(graph.get_symbol("TestSymbol"), Some(sym));
}

#[test]
fn test_get_symbol_not_found() {
    let graph = CallGraph::new();
    assert_eq!(graph.get_symbol("NonExistent"), None);
}

#[test]
fn test_get_shared_path_deduplication() {
    let mut graph = CallGraph::new();
    let path1 = graph.get_shared_path("test.al");
    let path2 = graph.get_shared_path("test.al");
    // Equal paths yield the same pool id.
    assert_eq!(path1, path2);
    assert_eq!(graph.resolve_path(path1), Some("test.al"));
}

#[test]
fn test_get_shared_path_distinct_paths_differ() {
    let mut graph = CallGraph::new();
    let path1 = graph.get_shared_path("a.al");
    let path2 = graph.get_shared_path("b.al");
    assert_ne!(path1, path2);
}

// ==================== Definitions ====================

#[test]
fn test_add_definition_single() {
    let mut graph = CallGraph::new();
    let obj_name = graph.intern("TestCodeunit");
    let proc_name = graph.intern("TestProc");
    let file = graph.get_shared_path("test.al");

    graph.add_definition(make_def(
        file,
        make_range(10, 20),
        ObjectType::Codeunit,
        obj_name,
        proc_name,
        DefinitionKind::Procedure,
    ));

    let qname = QualifiedName { object: obj_name, procedure: proc_name };
    let def = graph.get_definition(&qname);
    assert!(def.is_some());
    assert_eq!(def.unwrap().kind, DefinitionKind::Procedure);
}

#[test]
fn test_add_definition_multiple_same_object() {
    let mut graph = CallGraph::new();
    let obj_name = graph.intern("TestCodeunit");
    let proc1 = graph.intern("Proc1");
    let proc2 = graph.intern("Proc2");
    let file = graph.get_shared_path("test.al");

    graph.add_definition(make_def(
        file,
        make_range(10, 20),
        ObjectType::Codeunit,
        obj_name,
        proc1,
        DefinitionKind::Procedure,
    ));
    graph.add_definition(make_def(
        file,
        make_range(25, 35),
        ObjectType::Codeunit,
        obj_name,
        proc2,
        DefinitionKind::Trigger,
    ));

    assert_eq!(graph.definition_count(), 2);

    let qname1 = QualifiedName { object: obj_name, procedure: proc1 };
    let qname2 = QualifiedName { object: obj_name, procedure: proc2 };
    assert!(graph.get_definition(&qname1).is_some());
    assert!(graph.get_definition(&qname2).is_some());
    assert_eq!(graph.get_definition(&qname2).unwrap().kind, DefinitionKind::Trigger);
}

#[test]
fn test_add_definition_different_objects() {
    let mut graph = CallGraph::new();
    let obj1 = graph.intern("Codeunit1");
    let obj2 = graph.intern("Codeunit2");
    let proc = graph.intern("SameProc");
    let file1 = graph.get_shared_path("file1.al");
    let file2 = graph.get_shared_path("file2.al");

    graph.add_definition(make_def(
        file1,
        make_range(10, 20),
        ObjectType::Codeunit,
        obj1,
        proc,
        DefinitionKind::Procedure,
    ));
    graph.add_definition(make_def(
        file2,
        make_range(10, 20),
        ObjectType::Table,
        obj2,
        proc,
        DefinitionKind::Procedure,
    ));

    assert_eq!(graph.definition_count(), 2);

    let qname1 = QualifiedName { object: obj1, procedure: proc };
    let qname2 = QualifiedName { object: obj2, procedure: proc };
    assert_eq!(graph.get_definition(&qname1).unwrap().object_type, ObjectType::Codeunit);
    assert_eq!(graph.get_definition(&qname2).unwrap().object_type, ObjectType::Table);
}

#[test]
fn test_get_definition_not_found() {
    let mut graph = CallGraph::new();
    let obj = graph.intern("TestCodeunit");
    let proc = graph.intern("NonExistent");
    let qname = QualifiedName { object: obj, procedure: proc };
    assert!(graph.get_definition(&qname).is_none());
}

#[test]
fn test_find_definition_at_exact_match() {
    let mut graph = CallGraph::new();
    let obj_name = graph.intern("TestCodeunit");
    let proc_name = graph.intern("TestProc");
    let file = graph.get_shared_path("test.al");

    graph.add_definition(make_def(
        file,
        TextRange {
            start: TextPos { line: 10, character: 4 },
            end: TextPos { line: 20, character: 8 },
        },
        ObjectType::Codeunit,
        obj_name,
        proc_name,
        DefinitionKind::Procedure,
    ));

    // Inside range
    assert!(graph.find_definition_at("test.al", 15, 10).is_some());
    // At start boundary
    assert!(graph.find_definition_at("test.al", 10, 4).is_some());
    // At end boundary
    assert!(graph.find_definition_at("test.al", 20, 8).is_some());
}

#[test]
fn test_find_definition_at_no_match() {
    let mut graph = CallGraph::new();
    let obj_name = graph.intern("TestCodeunit");
    let proc_name = graph.intern("TestProc");
    let file = graph.get_shared_path("test.al");

    graph.add_definition(make_def(
        file,
        make_range(10, 20),
        ObjectType::Codeunit,
        obj_name,
        proc_name,
        DefinitionKind::Procedure,
    ));

    // Before range
    assert!(graph.find_definition_at("test.al", 5, 0).is_none());
    // After range
    assert!(graph.find_definition_at("test.al", 25, 0).is_none());
}

#[test]
fn test_find_definition_at_wrong_file() {
    let mut graph = CallGraph::new();
    let obj_name = graph.intern("TestCodeunit");
    let proc_name = graph.intern("TestProc");
    let file = graph.get_shared_path("test.al");

    graph.add_definition(make_def(
        file,
        make_range(10, 20),
        ObjectType::Codeunit,
        obj_name,
        proc_name,
        DefinitionKind::Procedure,
    ));

    assert!(graph.find_definition_at("other.al", 15, 10).is_none());
}

// ==================== Call sites ====================

#[test]
fn test_add_call_site_unqualified() {
    let mut graph = CallGraph::new();
    let obj_name = graph.intern("TestCodeunit");
    let caller_proc = graph.intern("Caller");
    let callee_proc = graph.intern("Callee");
    let file = graph.get_shared_path("test.al");

    graph.register_object(obj_name, ObjectType::Codeunit);
    graph.add_definition(make_def(
        file,
        make_range(10, 20),
        ObjectType::Codeunit,
        obj_name,
        caller_proc,
        DefinitionKind::Procedure,
    ));
    graph.add_definition(make_def(
        file,
        make_range(25, 35),
        ObjectType::Codeunit,
        obj_name,
        callee_proc,
        DefinitionKind::Procedure,
    ));

    let caller_qname = QualifiedName { object: obj_name, procedure: caller_proc };
    graph.add_call_site(
        caller_qname,
        CallSite {
            file,
            range: make_range(15, 15),
            caller: caller_proc,
            callee_object: None,
            callee_method: callee_proc,
        },
    );

    let outgoing = graph.get_outgoing_calls(&caller_qname);
    assert_eq!(outgoing.len(), 1);
    assert_eq!(outgoing[0].callee_method, callee_proc);

    let callee_qname = QualifiedName { object: obj_name, procedure: callee_proc };
    let incoming = graph.get_incoming_calls(&callee_qname);
    assert_eq!(incoming.len(), 1);
    // Both views see the same arena slot.
    assert_eq!(incoming[0].range, outgoing[0].range);
}

#[test]
fn test_add_call_site_qualified() {
    let mut graph = CallGraph::new();
    let caller_obj = graph.intern("CallerCodeunit");
    let callee_obj = graph.intern("CalleeCodeunit");
    let caller_proc = graph.intern("CallerProc");
    let callee_proc = graph.intern("CalleeProc");
    let caller_file = graph.get_shared_path("caller.al");
    let callee_file = graph.get_shared_path("callee.al");

    graph.register_object(caller_obj, ObjectType::Codeunit);
    graph.register_object(callee_obj, ObjectType::Codeunit);
    graph.add_definition(make_def(
        caller_file,
        make_range(10, 20),
        ObjectType::Codeunit,
        caller_obj,
        caller_proc,
        DefinitionKind::Procedure,
    ));
    graph.add_definition(make_def(
        callee_file,
        make_range(10, 20),
        ObjectType::Codeunit,
        callee_obj,
        callee_proc,
        DefinitionKind::Procedure,
    ));

    let caller_qname = QualifiedName { object: caller_obj, procedure: caller_proc };
    graph.add_call_site(
        caller_qname,
        CallSite {
            file: caller_file,
            range: make_range(15, 15),
            caller: caller_proc,
            callee_object: Some(callee_obj),
            callee_method: callee_proc,
        },
    );

    let outgoing = graph.get_outgoing_calls(&caller_qname);
    assert_eq!(outgoing.len(), 1);
    assert_eq!(outgoing[0].callee_object, Some(callee_obj));

    let callee_qname = QualifiedName { object: callee_obj, procedure: callee_proc };
    let incoming = graph.get_incoming_calls(&callee_qname);
    assert_eq!(incoming.len(), 1);
    // The incoming call is recorded where it textually stands.
    assert_eq!(incoming[0].file, caller_file);
}

#[test]
fn test_get_incoming_calls_multiple_callers() {
    let mut graph = CallGraph::new();
    let obj = graph.intern("TestCodeunit");
    let caller1 = graph.intern("Caller1");
    let caller2 = graph.intern("Caller2");
    let callee = graph.intern("Callee");
    let file = graph.get_shared_path("test.al");

    graph.register_object(obj, ObjectType::Codeunit);
    for proc in [caller1, caller2, callee] {
        graph.add_definition(make_def(
            file,
            make_range(10, 20),
            ObjectType::Codeunit,
            obj,
            proc,
            DefinitionKind::Procedure,
        ));
    }

    graph.add_call_site(
        QualifiedName { object: obj, procedure: caller1 },
        CallSite {
            file,
            range: make_range(15, 15),
            caller: caller1,
            callee_object: None,
            callee_method: callee,
        },
    );
    graph.add_call_site(
        QualifiedName { object: obj, procedure: caller2 },
        CallSite {
            file,
            range: make_range(25, 25),
            caller: caller2,
            callee_object: None,
            callee_method: callee,
        },
    );

    let callee_qname = QualifiedName { object: obj, procedure: callee };
    assert_eq!(graph.get_incoming_calls(&callee_qname).len(), 2);
}

#[test]
fn test_get_outgoing_calls_multiple() {
    let mut graph = CallGraph::new();
    let obj = graph.intern("TestCodeunit");
    let caller = graph.intern("Caller");
    let callee1 = graph.intern("Callee1");
    let callee2 = graph.intern("Callee2");
    let file = graph.get_shared_path("test.al");

    graph.register_object(obj, ObjectType::Codeunit);
    for proc in [caller, callee1, callee2] {
        graph.add_definition(make_def(
            file,
            make_range(10, 20),
            ObjectType::Codeunit,
            obj,
            proc,
            DefinitionKind::Procedure,
        ));
    }

    let caller_qname = QualifiedName { object: obj, procedure: caller };
    graph.add_call_site(
        caller_qname,
        CallSite {
            file,
            range: make_range(15, 15),
            caller,
            callee_object: None,
            callee_method: callee1,
        },
    );
    graph.add_call_site(
        caller_qname,
        CallSite {
            file,
            range: make_range(16, 16),
            caller,
            callee_object: None,
            callee_method: callee2,
        },
    );

    assert_eq!(graph.get_outgoing_calls(&caller_qname).len(), 2);
}

#[test]
fn test_get_incoming_calls_empty() {
    let mut graph = CallGraph::new();
    let obj = graph.intern("TestCodeunit");
    let proc = graph.intern("TestProc");
    let qname = QualifiedName { object: obj, procedure: proc };
    assert!(graph.get_incoming_calls(&qname).is_empty());
}

#[test]
fn test_get_outgoing_calls_empty() {
    let mut graph = CallGraph::new();
    let obj = graph.intern("TestCodeunit");
    let proc = graph.intern("TestProc");
    let qname = QualifiedName { object: obj, procedure: proc };
    assert!(graph.get_outgoing_calls(&qname).is_empty());
}

// ==================== Variable bindings ====================

#[test]
fn test_add_variable_binding() {
    let mut graph = CallGraph::new();
    let obj = graph.intern("TestCodeunit");
    let proc = graph.intern("TestProc");
    let var_name = graph.intern("Customer");
    let ty = graph.intern("CustomerTable");
    let file = graph.get_shared_path("test.al");

    let proc_qname = QualifiedName { object: obj, procedure: proc };
    graph.add_variable_binding(file, proc_qname, var_name, ty);

    assert_eq!(graph.lookup_variable_type(&proc_qname, var_name), Some(ty));
}

#[test]
fn test_lookup_variable_type_not_found_variable() {
    let mut graph = CallGraph::new();
    let obj = graph.intern("TestCodeunit");
    let proc = graph.intern("TestProc");
    let var_name = graph.intern("Customer");
    let ty = graph.intern("CustomerTable");
    let unknown_var = graph.intern("Unknown");
    let file = graph.get_shared_path("test.al");

    let proc_qname = QualifiedName { object: obj, procedure: proc };
    graph.add_variable_binding(file, proc_qname, var_name, ty);

    assert!(graph.lookup_variable_type(&proc_qname, unknown_var).is_none());
}

#[test]
fn test_lookup_variable_type_not_found_procedure() {
    let mut graph = CallGraph::new();
    let obj = graph.intern("TestCodeunit");
    let proc = graph.intern("TestProc");
    let other_proc = graph.intern("OtherProc");
    let var_name = graph.intern("Customer");
    let ty = graph.intern("CustomerTable");
    let file = graph.get_shared_path("test.al");

    let proc_qname = QualifiedName { object: obj, procedure: proc };
    let other_qname = QualifiedName { object: obj, procedure: other_proc };
    graph.add_variable_binding(file, proc_qname, var_name, ty);

    assert!(graph.lookup_variable_type(&other_qname, var_name).is_none());
}

#[test]
fn test_call_resolution_via_variable_binding() {
    let mut graph = CallGraph::new();
    let caller_obj = graph.intern("CallerCodeunit");
    let record_table = graph.intern("CustomerTable");
    let caller_proc = graph.intern("CallerProc");
    let callee_proc = graph.intern("Validate");
    let var_name = graph.intern("Cust");
    let caller_file = graph.get_shared_path("caller.al");
    let table_file = graph.get_shared_path("table.al");

    graph.register_object(caller_obj, ObjectType::Codeunit);
    graph.register_object(record_table, ObjectType::Table);

    graph.add_definition(make_def(
        caller_file,
        make_range(10, 30),
        ObjectType::Codeunit,
        caller_obj,
        caller_proc,
        DefinitionKind::Procedure,
    ));
    graph.add_definition(make_def(
        table_file,
        make_range(10, 20),
        ObjectType::Table,
        record_table,
        callee_proc,
        DefinitionKind::Procedure,
    ));

    let caller_qname = QualifiedName { object: caller_obj, procedure: caller_proc };
    graph.add_variable_binding(caller_file, caller_qname, var_name, record_table);

    // The receiver is the variable name, not an object name.
    graph.add_call_site(
        caller_qname,
        CallSite {
            file: caller_file,
            range: make_range(20, 20),
            caller: caller_proc,
            callee_object: Some(var_name),
            callee_method: callee_proc,
        },
    );

    let target_qname = QualifiedName { object: record_table, procedure: callee_proc };
    assert_eq!(graph.get_incoming_calls(&target_qname).len(), 1);
}

#[test]
fn test_resolution_prefers_object_over_variable() {
    let mut graph = CallGraph::new();
    let caller_obj = graph.intern("Caller");
    let shared_name = graph.intern("Shady");
    let var_type = graph.intern("SomeTable");
    let method = graph.intern("Run");
    let file = graph.get_shared_path("a.al");

    graph.register_object(caller_obj, ObjectType::Codeunit);
    // An object and a variable share the name.
    graph.register_object(shared_name, ObjectType::Codeunit);
    let caller_qname = QualifiedName { object: caller_obj, procedure: graph.intern("P") };
    graph.add_variable_binding(file, caller_qname, shared_name, var_type);

    graph.add_call_site(
        caller_qname,
        CallSite {
            file,
            range: make_range(5, 5),
            caller: caller_qname.procedure,
            callee_object: Some(shared_name),
            callee_method: method,
        },
    );

    // The object wins over the variable binding.
    let object_target = QualifiedName { object: shared_name, procedure: method };
    let variable_target = QualifiedName { object: var_type, procedure: method };
    assert_eq!(graph.get_incoming_calls(&object_target).len(), 1);
    assert_eq!(graph.get_incoming_calls(&variable_target).len(), 0);
}

#[test]
fn test_resolution_keeps_unknown_receiver() {
    let mut graph = CallGraph::new();
    let caller_obj = graph.intern("Caller");
    let unknown = graph.intern("Mystery");
    let method = graph.intern("Run");
    let file = graph.get_shared_path("a.al");

    graph.register_object(caller_obj, ObjectType::Codeunit);
    let caller_qname = QualifiedName { object: caller_obj, procedure: graph.intern("P") };
    graph.add_call_site(
        caller_qname,
        CallSite {
            file,
            range: make_range(5, 5),
            caller: caller_qname.procedure,
            callee_object: Some(unknown),
            callee_method: method,
        },
    );

    // The edge still appears under the literal receiver.
    let literal_target = QualifiedName { object: unknown, procedure: method };
    assert_eq!(graph.get_incoming_calls(&literal_target).len(), 1);
    assert_eq!(graph.get_outgoing_calls(&caller_qname).len(), 1);
}

// ==================== File removal ====================

#[test]
fn test_remove_file_clears_definitions() {
    let mut graph = CallGraph::new();
    let obj = graph.intern("TestCodeunit");
    let proc = graph.intern("TestProc");
    let file = graph.get_shared_path("test.al");

    graph.add_definition(make_def(
        file,
        make_range(10, 20),
        ObjectType::Codeunit,
        obj,
        proc,
        DefinitionKind::Procedure,
    ));
    assert_eq!(graph.definition_count(), 1);

    graph.remove_file("test.al");
    assert_eq!(graph.definition_count(), 0);
}

#[test]
fn test_remove_file_clears_call_sites() {
    let mut graph = CallGraph::new();
    let obj = graph.intern("TestCodeunit");
    let caller = graph.intern("Caller");
    let callee = graph.intern("Callee");
    let file = graph.get_shared_path("test.al");

    graph.register_object(obj, ObjectType::Codeunit);
    graph.add_definition(make_def(
        file,
        make_range(10, 20),
        ObjectType::Codeunit,
        obj,
        caller,
        DefinitionKind::Procedure,
    ));
    graph.add_definition(make_def(
        file,
        make_range(25, 35),
        ObjectType::Codeunit,
        obj,
        callee,
        DefinitionKind::Procedure,
    ));

    let caller_qname = QualifiedName { object: obj, procedure: caller };
    graph.add_call_site(
        caller_qname,
        CallSite {
            file,
            range: make_range(15, 15),
            caller,
            callee_object: None,
            callee_method: callee,
        },
    );

    graph.remove_file("test.al");

    let callee_qname = QualifiedName { object: obj, procedure: callee };
    assert!(graph.get_incoming_calls(&callee_qname).is_empty());
    assert!(graph.get_outgoing_calls(&caller_qname).is_empty());
}

#[test]
fn test_remove_file_clears_variable_bindings() {
    let mut graph = CallGraph::new();
    let obj = graph.intern("TestCodeunit");
    let proc = graph.intern("TestProc");
    let var_name = graph.intern("Customer");
    let ty = graph.intern("CustomerTable");
    let file = graph.get_shared_path("test.al");

    let proc_qname = QualifiedName { object: obj, procedure: proc };
    graph.add_variable_binding(file, proc_qname, var_name, ty);
    assert!(graph.lookup_variable_type(&proc_qname, var_name).is_some());

    graph.remove_file("test.al");
    assert!(graph.lookup_variable_type(&proc_qname, var_name).is_none());
}

#[test]
fn test_remove_file_preserves_other_files() {
    let mut graph = CallGraph::new();
    let obj1 = graph.intern("Codeunit1");
    let obj2 = graph.intern("Codeunit2");
    let proc = graph.intern("TestProc");
    let file1 = graph.get_shared_path("file1.al");
    let file2 = graph.get_shared_path("file2.al");

    graph.add_definition(make_def(
        file1,
        make_range(10, 20),
        ObjectType::Codeunit,
        obj1,
        proc,
        DefinitionKind::Procedure,
    ));
    graph.add_definition(make_def(
        file2,
        make_range(10, 20),
        ObjectType::Codeunit,
        obj2,
        proc,
        DefinitionKind::Procedure,
    ));
    assert_eq!(graph.definition_count(), 2);

    graph.remove_file("file1.al");
    assert_eq!(graph.definition_count(), 1);

    let qname2 = QualifiedName { object: obj2, procedure: proc };
    assert!(graph.get_definition(&qname2).is_some());
}

#[test]
fn test_remove_file_clears_cross_file_call_sites() {
    let mut graph = CallGraph::new();
    let obj1 = graph.intern("Codeunit1");
    let obj2 = graph.intern("Codeunit2");
    let caller = graph.intern("Caller");
    let callee = graph.intern("Callee");
    let file1 = graph.get_shared_path("file1.al");
    let file2 = graph.get_shared_path("file2.al");

    graph.register_object(obj1, ObjectType::Codeunit);
    graph.register_object(obj2, ObjectType::Codeunit);
    graph.add_definition(make_def(
        file1,
        make_range(10, 20),
        ObjectType::Codeunit,
        obj1,
        caller,
        DefinitionKind::Procedure,
    ));
    graph.add_definition(make_def(
        file2,
        make_range(10, 20),
        ObjectType::Codeunit,
        obj2,
        callee,
        DefinitionKind::Procedure,
    ));

    let caller_qname = QualifiedName { object: obj1, procedure: caller };
    graph.add_call_site(
        caller_qname,
        CallSite {
            file: file1,
            range: make_range(15, 15),
            caller,
            callee_object: Some(obj2),
            callee_method: callee,
        },
    );

    let callee_qname = QualifiedName { object: obj2, procedure: callee };
    assert_eq!(graph.get_incoming_calls(&callee_qname).len(), 1);

    graph.remove_file("file1.al");
    assert!(graph.get_incoming_calls(&callee_qname).is_empty());
}

#[test]
fn test_remove_file_is_a_no_op_for_unknown_path() {
    let mut graph = CallGraph::new();
    let obj = graph.intern("TestCodeunit");
    let proc = graph.intern("TestProc");
    let file = graph.get_shared_path("test.al");
    graph.add_definition(make_def(
        file,
        make_range(10, 20),
        ObjectType::Codeunit,
        obj,
        proc,
        DefinitionKind::Procedure,
    ));

    graph.remove_file("never-indexed.al");
    assert_eq!(graph.definition_count(), 1);
    assert_eq!(graph.call_site_count(), 0);
}

#[test]
fn test_remove_file_twice_equals_once() {
    let mut graph = CallGraph::new();
    let obj = graph.intern("TestCodeunit");
    let proc = graph.intern("TestProc");
    let file = graph.get_shared_path("test.al");
    graph.add_definition(make_def(
        file,
        make_range(10, 20),
        ObjectType::Codeunit,
        obj,
        proc,
        DefinitionKind::Procedure,
    ));

    graph.remove_file("test.al");
    let count_after_once = graph.definition_count();
    graph.remove_file("test.al");
    assert_eq!(graph.definition_count(), count_after_once);
    assert_eq!(count_after_once, 0);
}

// ==================== Object registration ====================

#[test]
fn test_register_object() {
    let mut graph = CallGraph::new();
    let obj_name = graph.intern("TestCodeunit");
    graph.register_object(obj_name, ObjectType::Codeunit);

    // Verify by using it in call resolution.
    let caller_obj = graph.intern("CallerObj");
    let caller_proc = graph.intern("CallerProc");
    let callee_proc = graph.intern("CalleeProc");
    let test_file = graph.get_shared_path("test.al");
    let caller_file = graph.get_shared_path("caller.al");

    graph.register_object(caller_obj, ObjectType::Codeunit);
    let caller_qname = QualifiedName { object: caller_obj, procedure: caller_proc };

    graph.add_definition(make_def(
        test_file,
        make_range(10, 20),
        ObjectType::Codeunit,
        obj_name,
        callee_proc,
        DefinitionKind::Procedure,
    ));
    graph.add_call_site(
        caller_qname,
        CallSite {
            file: caller_file,
            range: make_range(15, 15),
            caller: caller_proc,
            callee_object: Some(obj_name),
            callee_method: callee_proc,
        },
    );

    let callee_qname = QualifiedName { object: obj_name, procedure: callee_proc };
    assert_eq!(graph.get_incoming_calls(&callee_qname).len(), 1);
}

// ==================== Externals and subscribers ====================

#[test]
fn test_external_definition_lookup() {
    let mut graph = CallGraph::new();
    let app = graph.intern("Base Application");
    let obj = graph.intern("Customer");
    let method = graph.intern("Validate");

    graph.register_external_object(obj, ObjectType::Table);
    graph.add_external_definition(al_call_hierarchy::graph::ExternalDefinition {
        source: al_call_hierarchy::graph::ExternalSource {
            app_name: app,
            app_version: "26.0.0.0".to_string(),
        },
        object_type: ObjectType::Table,
        object_name: obj,
        name: method,
        kind: DefinitionKind::Procedure,
    });

    let qname = QualifiedName { object: obj, procedure: method };
    let ext = graph.get_external_definition(&qname);
    assert!(ext.is_some());
    assert_eq!(ext.unwrap().object_type, ObjectType::Table);
}

#[test]
fn test_event_subscribers_by_target() {
    let mut graph = CallGraph::new();
    let target_obj = graph.intern("salestable");
    let target_event = graph.intern("oninsert");
    let sub_obj = graph.intern("Handlers");
    let sub_proc = graph.intern("HandleInsert");
    let file = graph.get_shared_path("handlers.al");

    let mut def = make_def(
        file,
        make_range(5, 9),
        ObjectType::Codeunit,
        sub_obj,
        sub_proc,
        DefinitionKind::EventSubscriber,
    );
    def.event_target = Some(QualifiedName { object: target_obj, procedure: target_event });
    graph.add_definition(def);

    let target = QualifiedName { object: target_obj, procedure: target_event };
    let subs = graph.get_event_subscribers(&target);
    assert_eq!(subs.len(), 1);
    assert_eq!(subs[0].name, sub_proc);

    // Removal drops the subscriber from the query as well.
    graph.remove_file("handlers.al");
    assert!(graph.get_event_subscribers(&target).is_empty());
}

#[test]
fn test_unused_procedures_listing() {
    let mut graph = CallGraph::new();
    let obj = graph.intern("TestCodeunit");
    let caller = graph.intern("Caller");
    let callee = graph.intern("Callee");
    let file = graph.get_shared_path("test.al");

    graph.register_object(obj, ObjectType::Codeunit);
    for proc in [caller, callee] {
        graph.add_definition(make_def(
            file,
            make_range(10, 20),
            ObjectType::Codeunit,
            obj,
            proc,
            DefinitionKind::Procedure,
        ));
    }
    graph.add_call_site(
        QualifiedName { object: obj, procedure: caller },
        CallSite {
            file,
            range: make_range(15, 15),
            caller,
            callee_object: None,
            callee_method: callee,
        },
    );

    let unused = graph.get_unused_procedures();
    // Only the caller is never called.
    assert_eq!(unused.len(), 1);
    assert_eq!(unused[0].name, caller);
}
