use lowering::ast::{
    Identifier, Level, Loc, Namespace, SymtableVariable, Symtable, Target, Type, VariableUsage,
    Variable,
};
use lowering::abi::{Abi, Primitive, Spec, WireField, WireType};
use lowering::cfg::{ASTFunction, ControlFlowGraph, Expression, Instr};
use lowering::events::{topic_hash, EventEmitter, EventField};
use lowering::try_catch::{
    catch_selection, try_catch, CatchClause, CatchOutcome, LoweredBody, TryCatch, TryExpr,
    ERROR_SELECTOR, PANIC_SELECTOR,
};
use lowering::unused_variable::{
    check_unused_events, emit_warning_local_variable, used_variable,
};
use lowering::vartable::Vartable;

fn string_clause(param_pos: Option<usize>, reachable: bool) -> CatchClause {
    CatchClause {
        param_pos,
        param_ty: Some(Type::Str),
        body: LoweredBody { instrs: Vec::new(), reachable },
    }
}

fn panic_error_data(tail: &[u8]) -> Vec<u8> {
    let mut data = PANIC_SELECTOR.to_be_bytes().to_vec();
    data.extend_from_slice(tail);
    data
}

#[test]
fn bubble_without_catch_all() {
    // declared clauses, no catch-all, a selector that matches none:
    // the failure is re-raised, not handled
    let errors = vec![string_clause(None, true)];
    let data = panic_error_data(&[1, 2, 3]);
    assert_eq!(catch_selection(&errors, false, &data), CatchOutcome::Bubble);

    // error data of four bytes or fewer skips every clause
    let short = vec![1, 2, 3, 4];
    assert_eq!(catch_selection(&errors, false, &short), CatchOutcome::Bubble);
}

#[test]
fn catch_all_takes_unmatched_errors() {
    let errors = vec![string_clause(None, true)];
    let data = panic_error_data(&[9]);
    assert_eq!(catch_selection(&errors, true, &data), CatchOutcome::CatchAll);
}

#[test]
fn matching_clause_wins() {
    let errors = vec![
        string_clause(None, true),
        CatchClause {
            param_pos: None,
            param_ty: Some(Type::Uint(256)),
            body: LoweredBody { instrs: Vec::new(), reachable: true },
        },
    ];
    let panic_data = panic_error_data(&[0]);
    assert_eq!(catch_selection(&errors, true, &panic_data), CatchOutcome::Clause(1));

    let mut error_data = ERROR_SELECTOR.to_be_bytes().to_vec();
    error_data.push(0);
    assert_eq!(catch_selection(&errors, true, &error_data), CatchOutcome::Clause(0));
}

#[test]
fn finally_phi_excludes_clause_parameters() {
    let mut vartab = Vartable::new(100);
    let mut cfg = ControlFlowGraph::new("f".to_string(), ASTFunction::SolidityFunction(0));
    let stmt = TryCatch {
        expr: TryExpr::ExternalCall {
            function: Expression::FunctionArg { ty: Type::ExternalFunction, arg_no: 0 },
            args: Vec::new(),
            value: None,
            gas: None,
            flags: None,
            return_tys: Vec::new(),
        },
        return_binds: Vec::new(),
        ok_body: LoweredBody { instrs: Vec::new(), reachable: true },
        errors: vec![string_clause(Some(7), true)],
        catch_all: Some(CatchClause {
            param_pos: Some(8),
            param_ty: None,
            body: LoweredBody { instrs: Vec::new(), reachable: true },
        }),
    };
    let finally_block = cfg.blocks.len() + 2;
    try_catch(stmt, &mut cfg, &mut vartab);
    assert_eq!(cfg.current, finally_block);
    let phis = cfg.blocks[finally_block].phis.as_ref().unwrap();
    // the clause parameter positions are scoped to their clauses
    assert!(!phis.contains(&7));
    assert!(!phis.contains(&8));
    // the shared error-data variable is live across the merge
    assert!(!phis.is_empty());
}

#[test]
fn diverging_clause_adds_no_edge_into_finally() {
    let mut vartab = Vartable::new(0);
    let mut cfg = ControlFlowGraph::new("f".to_string(), ASTFunction::SolidityFunction(0));
    let diverging = LoweredBody {
        instrs: vec![Instr::AssertFailure { encoded_args: None }],
        reachable: false,
    };
    let stmt = TryCatch {
        expr: TryExpr::ExternalCall {
            function: Expression::FunctionArg { ty: Type::ExternalFunction, arg_no: 0 },
            args: Vec::new(),
            value: None,
            gas: None,
            flags: None,
            return_tys: Vec::new(),
        },
        return_binds: Vec::new(),
        ok_body: diverging,
        errors: Vec::new(),
        catch_all: Some(CatchClause {
            param_pos: None,
            param_ty: None,
            body: LoweredBody { instrs: Vec::new(), reachable: true },
        }),
    };
    let ok_block = cfg.blocks.len();
    let finally_block = ok_block + 2;
    try_catch(stmt, &mut cfg, &mut vartab);
    // the ok block ends in its own trap, with no branch to finally
    let ok_instrs = &cfg.blocks[ok_block].instr;
    assert!(matches!(
        ok_instrs.last(),
        Some(Instr::AssertFailure { .. })
    ));
    assert!(!ok_instrs
        .iter()
        .any(|i| matches!(i, Instr::Branch { block } if *block == finally_block)));
}

#[test]
fn diverging_error_clause_adds_no_edge_into_finally() {
    let mut vartab = Vartable::new(0);
    let mut cfg = ControlFlowGraph::new("f".to_string(), ASTFunction::SolidityFunction(0));
    let diverging_clause = CatchClause {
        param_pos: Some(3),
        param_ty: Some(Type::Str),
        body: LoweredBody {
            instrs: vec![Instr::AssertFailure { encoded_args: None }],
            reachable: false,
        },
    };
    let stmt = TryCatch {
        expr: TryExpr::ExternalCall {
            function: Expression::FunctionArg { ty: Type::ExternalFunction, arg_no: 0 },
            args: Vec::new(),
            value: None,
            gas: None,
            flags: None,
            return_tys: Vec::new(),
        },
        return_binds: Vec::new(),
        ok_body: LoweredBody { instrs: Vec::new(), reachable: true },
        errors: vec![diverging_clause],
        catch_all: None,
    };
    let ok_block = cfg.blocks.len();
    let finally_block = ok_block + 2;
    try_catch(stmt, &mut cfg, &mut vartab);
    // only the ok path branches into finally; the diverging clause and
    // the bubbling no-match path contribute no edge
    let incoming: usize = cfg
        .blocks
        .iter()
        .map(|b| {
            b.instr
                .iter()
                .filter(|i| matches!(i, Instr::Branch { block } if *block == finally_block))
                .count()
        })
        .sum();
    assert_eq!(incoming, 1);
    // the unmatched-error path re-raises with the original buffer
    assert!(cfg.blocks.iter().any(|b| {
        matches!(
            b.instr.last(),
            Some(Instr::AssertFailure { encoded_args: Some(Expression::Variable { .. }) })
        )
    }));
}

#[test]
fn topic_hash_pads_short_preimages() {
    let short = vec![1, 2, 3];
    let hashed = topic_hash(&short);
    assert_eq!(hashed.len(), 32);
    assert_eq!(&hashed[..3], &[1, 2, 3]);
    assert!(hashed[3..].iter().all(|b| *b == 0));
}

#[test]
fn topic_hash_reduces_long_preimages() {
    let long = vec![7u8; 48];
    let hashed = topic_hash(&long);
    assert_eq!(hashed.len(), 32);
    // a real digest, not a prefix copy
    assert_ne!(&hashed[..], &long[..32]);
}

#[test]
fn emit_counts_topics_and_data() {
    let mut vartab = Vartable::new(0);
    let mut cfg = ControlFlowGraph::new("f".to_string(), ASTFunction::SolidityFunction(0));
    let emitter = EventEmitter {
        args: vec![
            Expression::FunctionArg { ty: Type::Uint(64), arg_no: 0 },
            Expression::FunctionArg { ty: Type::Bool, arg_no: 1 },
        ],
        event_no: 3,
        contract_name: b"Foo".to_vec(),
        event_name: b"Transfer".to_vec(),
        anonymous: false,
        fields: vec![
            EventField { name: b"from".to_vec(), indexed: true },
            EventField { name: b"ok".to_vec(), indexed: false },
        ],
    };
    emitter.emit(&mut vartab, &mut cfg);
    let current = &cfg.blocks[cfg.current];
    match current.instr.last() {
        Some(Instr::EmitEvent { event_no, data, topics, .. }) => {
            assert_eq!(*event_no, 3);
            // one signature topic plus one indexed field
            assert_eq!(topics.len(), 2);
            assert_eq!(data.len(), 1);
        }
        _ => panic!("no event instruction"),
    }
}

#[test]
fn registry_deduplicates() {
    let mut abi = Abi {
        types: Vec::new(),
        storage: Vec::new(),
        spec_section: Spec { constructors: Vec::new(), messages: Vec::new(), events: Vec::new() },
    };
    let a = abi.builtin_type(Primitive::Uint(8));
    let b = abi.builtin_type(Primitive::Uint(8));
    assert_eq!(a, 1);
    assert_eq!(b, 1);
    assert_eq!(abi.types.len(), 1);

    let c = abi.builtin_array_type(a, 32);
    assert_eq!(c, 2);
    let d = abi.builtin_array_type(a, 32);
    assert_eq!(d, 2);
    assert_eq!(abi.types.len(), 2);

    // structurally different fields are a different descriptor
    let s1 = abi.struct_type(Vec::new(), vec![WireField { name: None, ty: a }]);
    let s2 = abi.struct_type(Vec::new(), vec![WireField { name: Some(b"x".to_vec()), ty: a }]);
    assert_ne!(s1, s2);
    assert!(matches!(abi.types[s1 - 1], WireType::Composite { .. }));
}

#[test]
fn selector_rendering() {
    let f = lowering::ast::Function {
        name: "foo".to_string(),
        loc: Loc::Codegen,
        ty: lowering::ast::FunctionTy::Function,
        params: Vec::new(),
        returns: Vec::new(),
        visibility: lowering::ast::Visibility::Public,
        mutability: None,
        selector: 0x1A7E1EF8,
        tags: Vec::new(),
        is_accessor: false,
        body: Vec::new(),
    };
    let rendered = lowering::abi::render_selector(&f);
    assert_eq!(rendered, "0xf81e7e1a");
    let parsed = lowering::abi::parse_selector(&rendered);
    assert_eq!(parsed, vec![0xF8, 0x1E, 0x7E, 0x1A]);
}

#[test]
fn marking_reads_sets_flags() {
    let mut ns = Namespace {
        target: Target::Substrate,
        next_id: 0,
        address_length: 32,
        value_length: 16,
        contracts: Vec::new(),
        functions: Vec::new(),
        events: Vec::new(),
        structs: Vec::new(),
        enums: Vec::new(),
        constants: Vec::new(),
        diagnostics: Vec::new(),
    };
    let mut sym = Symtable {
        vars: vec![SymtableVariable {
            id: Identifier { loc: Loc::Codegen, name: "x".to_string() },
            ty: Type::Uint(64),
            read: false,
            assigned: false,
            usage_type: VariableUsage::LocalVariable,
        }],
    };
    let expr = lowering::ast::Expression::Variable(Loc::Codegen, Type::Uint(64), 0);
    used_variable(&mut ns, &expr, &mut sym);
    assert!(sym.vars[0].read);
    assert!(!sym.vars[0].assigned);
}

#[test]
fn local_variable_warnings_have_exact_wording() {
    let var = SymtableVariable {
        id: Identifier { loc: Loc::Codegen, name: "x".to_string() },
        ty: Type::Uint(64),
        read: false,
        assigned: true,
        usage_type: VariableUsage::LocalVariable,
    };
    let warning = emit_warning_local_variable(&var).unwrap();
    assert_eq!(warning.level, Level::Warning);
    assert_eq!(
        warning.message,
        "local variable 'x' has been assigned, but never read"
    );

    let read_var = SymtableVariable { read: true, ..var };
    assert!(emit_warning_local_variable(&read_var).is_none());
}

#[test]
fn unused_events_are_reported() {
    let mut ns = Namespace {
        target: Target::Substrate,
        next_id: 0,
        address_length: 32,
        value_length: 16,
        contracts: Vec::new(),
        functions: Vec::new(),
        events: vec![lowering::ast::EventDecl {
            name: "Transfer".to_string(),
            loc: Loc::Codegen,
            fields: Vec::new(),
            anonymous: false,
            used: false,
            tags: Vec::new(),
        }],
        structs: Vec::new(),
        enums: Vec::new(),
        constants: vec![Variable {
            name: "K".to_string(),
            loc: Loc::Codegen,
            ty: Type::Uint(64),
            read: true,
            assigned: true,
        }],
        diagnostics: Vec::new(),
    };
    check_unused_events(&mut ns);
    assert_eq!(ns.diagnostics.len(), 1);
    assert_eq!(ns.diagnostics[0].message, "event 'Transfer' has never been emitted");
}

#[test]
fn lir_vartable_keeps_ids_unique() {
    let mut tab = lowering::lir::Vartable::new();
    let a = tab.new_temp(&Type::Uint(32));
    let b = tab.new_temp(&Type::Bool);
    assert_ne!(a, b);
    assert_eq!(tab.next_id, 2);
    assert_eq!(tab.get_name(0), "temp.ssa_ir.0");

    tab.set_tmp(7, &Type::Uint(8));
    assert_eq!(tab.next_id, 8);
    assert_eq!(tab.get_name(7), "temp.ssa_ir.7");
    // inserting under the same id replaces the entry
    tab.set_tmp(7, &Type::Bool);
    assert!(matches!(tab.get_type(7), Type::Bool));
    assert_eq!(tab.vars.len(), 3);
}

#[test]
fn rebuilt_vartable_counts_past_every_id() {
    let entries = vec![
        lowering::lir::Var::new(4, Type::Uint(32), "a".to_string()),
        lowering::lir::Var::new(1, Type::Bool, "b".to_string()),
    ];
    let tab = lowering::lir::to_vartable(&entries);
    assert_eq!(tab.next_id, 5);
    assert_eq!(tab.get_name(4), "a");
    assert!(matches!(tab.get_type(1), Type::Bool));
}

#[test]
fn codegen_vartable_tracks_dirty_sets() {
    let mut tab = Vartable::new(10);
    let a = tab.temp_name("a", &Type::Uint(32));
    tab.new_dirty_tracker();
    let b = tab.temp_anonymous(&Type::Bool);
    tab.set_dirty(a);
    tab.set_dirty(b);
    tab.set_dirty(a);
    let set = tab.pop_dirty_tracker();
    assert_eq!(set.len(), 2);
    assert!(set.contains(&a));
    assert!(set.contains(&b));
}


#[test]
fn gen_abi_counts_entries() {
    let ctor = lowering::ast::Function {
        name: "new".to_string(),
        loc: Loc::Codegen,
        ty: lowering::ast::FunctionTy::Constructor,
        params: vec![lowering::ast::Parameter {
            loc: Loc::Codegen,
            id: Some(Identifier { loc: Loc::Codegen, name: "u".to_string() }),
            ty: Type::Uint(64),
            indexed: false,
        }],
        returns: Vec::new(),
        visibility: lowering::ast::Visibility::Public,
        mutability: None,
        selector: 0xAABBCCDD,
        tags: Vec::new(),
        is_accessor: false,
        body: Vec::new(),
    };
    let foo = lowering::ast::Function {
        name: "foo".to_string(),
        loc: Loc::Codegen,
        ty: lowering::ast::FunctionTy::Function,
        params: Vec::new(),
        returns: vec![lowering::ast::Parameter {
            loc: Loc::Codegen,
            id: None,
            ty: Type::Uint(64),
            indexed: false,
        }],
        visibility: lowering::ast::Visibility::Public,
        mutability: Some(lowering::ast::StateMutability::View),
        selector: 0xF81E7E1A,
        tags: Vec::new(),
        is_accessor: false,
        body: Vec::new(),
    };
    let contract = lowering::ast::Contract {
        name: "Foo".to_string(),
        tags: Vec::new(),
        layout: vec![lowering::ast::Layout { slot: 0, contract_no: 0, var_no: 0 }],
        variables: vec![Variable {
            name: "u".to_string(),
            loc: Loc::Codegen,
            ty: Type::Uint(64),
            read: true,
            assigned: true,
        }],
        functions: vec![ctor, foo],
        all_functions: vec![(0, 1)],
        default_constructor: None,
        is_library: false,
        sends_events: Vec::new(),
    };
    let ns = Namespace {
        target: Target::Substrate,
        next_id: 0,
        address_length: 32,
        value_length: 16,
        contracts: vec![contract],
        functions: Vec::new(),
        events: Vec::new(),
        structs: Vec::new(),
        enums: Vec::new(),
        constants: Vec::new(),
        diagnostics: Vec::new(),
    };
    let abi = lowering::abi::gen_abi(0, &ns).unwrap();
    assert_eq!(abi.spec_section.constructors.len(), 1);
    assert_eq!(abi.spec_section.messages.len(), 1);
    assert_eq!(abi.spec_section.events.len(), 0);
    assert_eq!(abi.storage.len(), 1);
    assert_eq!(abi.spec_section.messages[0].name, b"foo".to_vec());
    assert!(!abi.spec_section.messages[0].payable);
    // the message's u64 parameterless signature still registered u64
    assert!(abi
        .types
        .iter()
        .any(|t| matches!(t, lowering::abi::WireType::Builtin { primitive: lowering::abi::Primitive::Uint(64) })));
}

#[test]
fn doc_tags_filter_by_name() {
    let ns = Namespace {
        target: Target::Substrate,
        next_id: 0,
        address_length: 32,
        value_length: 16,
        contracts: vec![lowering::ast::Contract {
            name: "c".to_string(),
            tags: vec![
                lowering::ast::Tag { tag: "title".to_string(), value: "first".to_string() },
                lowering::ast::Tag { tag: "author".to_string(), value: "ann".to_string() },
                lowering::ast::Tag { tag: "title".to_string(), value: "second".to_string() },
            ],
            layout: Vec::new(),
            variables: Vec::new(),
            functions: Vec::new(),
            all_functions: Vec::new(),
            default_constructor: None,
            is_library: false,
            sends_events: Vec::new(),
        }],
        functions: Vec::new(),
        events: Vec::new(),
        structs: Vec::new(),
        enums: Vec::new(),
        constants: Vec::new(),
        diagnostics: Vec::new(),
    };
    assert_eq!(
        lowering::abi::tags(0, &"title".to_string(), &ns),
        vec!["first".to_string(), "second".to_string()]
    );
    assert_eq!(lowering::abi::tags(0, &"author".to_string(), &ns), vec!["ann".to_string()]);
    assert!(lowering::abi::tags(0, &"notice".to_string(), &ns).is_empty());
}

#[test]
fn lir_vartable_contains_known_ids_only() {
    let mut tab = lowering::lir::Vartable::new();
    let lowering::lir::Operand::Id { id } = tab.new_temp(&Type::Uint(32));
    assert!(tab.contains(id));
    assert!(!tab.contains(id + 1));
}

#[test]
fn registry_deduplicates_repeated_registration() {
    let ns = Namespace {
        target: Target::Substrate,
        next_id: 0,
        address_length: 32,
        value_length: 16,
        contracts: Vec::new(),
        functions: Vec::new(),
        events: Vec::new(),
        structs: Vec::new(),
        enums: Vec::new(),
        constants: Vec::new(),
        diagnostics: Vec::new(),
    };
    let mut registry = Abi {
        types: Vec::new(),
        storage: Vec::new(),
        spec_section: Spec { constructors: Vec::new(), messages: Vec::new(), events: Vec::new() },
    };
    let ty = Type::DynamicBytes;
    let first = lowering::abi::ty_to_abi(&ty, &ns, &mut registry, 8).unwrap();
    let len_after_first = registry.types.len();
    let second = lowering::abi::ty_to_abi(&ty, &ns, &mut registry, 8).unwrap();
    assert_eq!(first, second);
    assert_eq!(registry.types.len(), len_after_first);
    // a different type still extends the registry
    let third = lowering::abi::ty_to_abi(&Type::Bool, &ns, &mut registry, 8).unwrap();
    assert_ne!(third, first);
    assert_eq!(registry.types.len(), len_after_first + 1);
}
