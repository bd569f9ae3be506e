use lowering::ast::{FunctionTy, Namespace, Target, Type};
use lowering::cfg::{ASTFunction, ControlFlowGraph, Expression, Instr};
use lowering::dispatch::{dispatch_decision, function_dispatch, DispatchOutcome};
use lowering::encoding::{compact_decode, compact_encode};
use lowering::vartable::Vartable;

fn empty_ns() -> Namespace {
    Namespace {
        target: Target::Substrate,
        next_id: 0,
        address_length: 32,
        value_length: 16,
        contracts: Vec::new(),
        functions: Vec::new(),
        events: Vec::new(),
        structs: Vec::new(),
        enums: Vec::new(),
        constants: Vec::new(),
        diagnostics: Vec::new(),
    }
}

fn message_cfg(name: &str, selector: Vec<u8>, nonpayable: bool, ty: FunctionTy) -> ControlFlowGraph {
    let mut cfg = ControlFlowGraph::new(name.to_string(), ASTFunction::NoFunction);
    cfg.public = true;
    cfg.nonpayable = nonpayable;
    cfg.ty = ty;
    cfg.selector = selector;
    cfg
}

/// A contract with one non-payable message backed by a stored counter:
/// dispatching its selector with no transferred value reaches the body,
/// the same selector with value aborts, and the body's returned counter
/// comes back Scale-encoded.
#[test]
fn it_works() {
    let ns = empty_ns();

    // The constructor takes one uint64 and stores it; foo() returns it.
    let ctor = message_cfg("new", vec![0xAA, 0xBB, 0xCC, 0xDD], true, FunctionTy::Constructor);
    let foo = message_cfg("foo", vec![0xF8, 0x1E, 0x7E, 0x1A], true, FunctionTy::Function);
    let all = vec![ctor, foo];

    // deploy: dispatch the constructor selector with the encoded argument
    let mut stored: u64 = 0;
    let ctor_arg: u64 = 1337;
    let mut input = vec![0xAA, 0xBB, 0xCC, 0xDD];
    input.extend_from_slice(&parity_scale_codec::Encode::encode(&ctor_arg));
    match dispatch_decision(&all, &input, 0, &ns) {
        DispatchOutcome::Matched(0) => {
            // the constructor body decodes its argument and stores it
            let mut arg_bytes = [0u8; 8];
            arg_bytes.copy_from_slice(&input[4..12]);
            stored = u64::from_le_bytes(arg_bytes);
        }
        other => panic!("constructor not reached: {:?}", other),
    }

    // call foo() and check the returned encoding
    let call = vec![0xF8, 0x1E, 0x7E, 0x1A];
    let output = match dispatch_decision(&all, &call, 0, &ns) {
        DispatchOutcome::Matched(1) => parity_scale_codec::Encode::encode(&stored),
        other => panic!("foo not reached: {:?}", other),
    };
    assert_eq!(output, parity_scale_codec::Encode::encode(&1337u64));
}

#[test]
fn compact_round_trip_concrete() {
    for n in [0u32, 1, 0x3F, 0x40, 0x41, 0x3FFF, 0x4000, 0x12345, 0x3FFFFFFF] {
        let encoded = compact_encode(n).unwrap();
        let (value, width) = compact_decode(&encoded).unwrap();
        assert_eq!(value, n);
        assert_eq!(width, encoded.len());
    }
}

#[test]
fn compact_out_of_range_is_rejected() {
    assert!(compact_encode(0x4000_0000).is_none());
    assert!(compact_encode(u32::MAX).is_none());
}

#[test]
fn compact_width_classes() {
    // one byte, top six bits zero, tag 0b00
    let e0 = compact_encode(0).unwrap();
    assert_eq!(e0, vec![0u8]);
    assert_eq!(e0[0] & 3, 0);

    // two bytes, tag 0b01
    let e1 = compact_encode(0x40).unwrap();
    assert_eq!(e1.len(), 2);
    assert_eq!(e1[0] & 3, 1);
    assert_eq!(e1, vec![0x01, 0x01]);

    // four bytes, tag 0b10
    let e2 = compact_encode(0x4000).unwrap();
    assert_eq!(e2.len(), 4);
    assert_eq!(e2[0] & 3, 2);
    assert_eq!(e2, vec![0x02, 0x00, 0x01, 0x00]);
}

#[test]
fn dispatch_payability_guard() {
    let ns = empty_ns();
    let foo = message_cfg("foo", vec![1, 2, 3, 4], true, FunctionTy::Function);
    let all = vec![foo];
    let input = vec![1, 2, 3, 4];

    // no value: the body is reached
    assert_eq!(dispatch_decision(&all, &input, 0, &ns), DispatchOutcome::Matched(0));
    // any transferred value routes to the assertion failure instead
    assert_eq!(dispatch_decision(&all, &input, 1, &ns), DispatchOutcome::ValueAborted(0));
    assert_eq!(
        dispatch_decision(&all, &input, u128::MAX, &ns),
        DispatchOutcome::ValueAborted(0)
    );
}

#[test]
fn dispatch_payable_takes_value() {
    let ns = empty_ns();
    let foo = message_cfg("foo", vec![1, 2, 3, 4], false, FunctionTy::Function);
    let all = vec![foo];
    let input = vec![1, 2, 3, 4, 99];
    assert_eq!(dispatch_decision(&all, &input, 7, &ns), DispatchOutcome::Matched(0));
}

#[test]
fn dispatch_unmatched_selector_is_invalid() {
    let ns = empty_ns();
    let foo = message_cfg("foo", vec![1, 2, 3, 4], true, FunctionTy::Function);
    let all = vec![foo];

    // unrelated selector, no fallback, no receive
    let input = vec![9, 9, 9, 9];
    assert_eq!(dispatch_decision(&all, &input, 0, &ns), DispatchOutcome::SelectorInvalid);
    // input shorter than the selector width
    let short = vec![1, 2];
    assert_eq!(dispatch_decision(&all, &short, 0, &ns), DispatchOutcome::SelectorInvalid);
}

#[test]
fn dispatch_fallback_and_receive_split_on_value() {
    let ns = empty_ns();
    let foo = message_cfg("foo", vec![1, 2, 3, 4], true, FunctionTy::Function);
    let fallback = message_cfg("fallback", Vec::new(), true, FunctionTy::Fallback);
    let receive = message_cfg("receive", Vec::new(), false, FunctionTy::Receive);
    let all = vec![foo, fallback, receive];

    let unmatched = vec![9, 9, 9, 9];
    assert_eq!(dispatch_decision(&all, &unmatched, 0, &ns), DispatchOutcome::Fallback(1));
    assert_eq!(dispatch_decision(&all, &unmatched, 5, &ns), DispatchOutcome::Receive(2));
}

#[test]
fn dispatch_cfg_always_terminates() {
    let ns = empty_ns();
    let foo = message_cfg("foo", vec![1, 2, 3, 4], true, FunctionTy::Function);
    let bar = message_cfg("bar", vec![5, 6, 7, 8], false, FunctionTy::Function);
    let all = vec![foo, bar];

    let cfg = function_dispatch(0, &all, &ns);
    assert!(cfg.blocks.len() >= 4);
    for block in &cfg.blocks {
        // every block is either a still-open case seam or ends its path
        if let Some(last) = block.instr.last() {
            let ends = matches!(
                last,
                Instr::Branch { .. }
                    | Instr::BranchCond { .. }
                    | Instr::Switch { .. }
                    | Instr::ReturnCode { .. }
                    | Instr::AssertFailure { .. }
                    | Instr::Call { .. }
            );
            assert!(ends);
        }
    }
    // block 1 is the shared assertion failure
    assert!(matches!(
        cfg.blocks[1].instr.last(),
        Some(Instr::AssertFailure { encoded_args: None })
    ));
    // block 3 holds the selector switch with one case per message
    match cfg.blocks[3].instr.last() {
        Some(Instr::Switch { cases, default, .. }) => {
            assert_eq!(*default, 2);
            assert_eq!(cases.len(), 2);
        }
        other => panic!("no switch: {:?}", other.is_some()),
    }
}

#[test]
fn encode_compact_fragment_shape() {
    let mut vartab = Vartable::new(0);
    let mut cfg = ControlFlowGraph::new("f".to_string(), ASTFunction::SolidityFunction(0));
    let value = Expression::FunctionArg { ty: Type::Uint(32), arg_no: 0 };
    let before = cfg.blocks.len();
    let result = lowering::encoding::encode_compact(&value, None, None, &mut vartab, &mut cfg);
    assert_eq!(cfg.blocks.len(), before + 7);
    // the computed width flows out of `done` through one phi variable
    match result {
        Expression::Variable { ty: Type::Uint(32), var_no } => {
            let done = &cfg.blocks[before + 4];
            assert_eq!(done.phis.as_ref().unwrap(), &vec![var_no]);
        }
        _ => panic!("width is not a variable read"),
    }
}
