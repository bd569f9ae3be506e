//! Synthesis of the universal entry point: read the selector from the call
//! input and demultiplex to the matching function, enforcing payability,
//! with fallback/receive resolution when no selector matches.
//!
//! The decision itself — which handler a given input buffer and
//! transferred value reach — is the pure function `dispatch_decision`; the
//! builder emits a graph whose switch mirrors it case for case.

use vstd::prelude::*;

use crate::ast::{FunctionTy, Loc, Namespace, Type};
use crate::cfg::{
    is_terminator, ASTFunction, BasicBlock, ControlFlowGraph, Expression, ExprV, Instr,
    InternalCallTy, ReturnCode,
};
use crate::vartable::Vartable;

verus! {

/// Where one call of the generated entry point ends up: exactly one of
/// these, for every selector and every transferred value.
#[derive(Clone, Copy, PartialEq, Eq, Structural, Debug)]
pub enum DispatchOutcome {
    /// The selector matched function `i` and the payability check passed:
    /// control reaches that function's body.
    Matched(usize),
    /// The selector matched function `i`, but the function is not payable
    /// and value was transferred: the shared assertion-failure block runs
    /// before any of the body.
    ValueAborted(usize),
    /// No selector matched and no value came along: the fallback runs.
    Fallback(usize),
    /// No selector matched and value came along: the receive handler runs.
    Receive(usize),
    /// Nothing can handle the call: the "selector invalid" code returns.
    SelectorInvalid,
}

/// A function the selector switch can reach: public, and an ordinary
/// function or a constructor.
pub open spec fn dispatchable(c: ControlFlowGraph) -> bool {
    c.public && (c.ty == FunctionTy::Function || c.ty == FunctionTy::Constructor)
}

/// The little-endian value of a byte string.
pub open spec fn le_value(b: Seq<u8>) -> nat
    decreases b.len(),
{
    if b.len() == 0 {
        0nat
    } else {
        (b[0] + 256 * le_value(b.drop_first())) as nat
    }
}

/// 256 to the `n`.
pub open spec fn pow256(n: nat) -> nat
    decreases n,
{
    if n == 0 {
        1nat
    } else {
        256 * pow256((n - 1) as nat)
    }
}

/// A little-endian value fits in as many bytes as it has.
pub proof fn lemma_le_value_bound(b: Seq<u8>)
    ensures
        le_value(b) < pow256(b.len()),
    decreases b.len(),
{
    if b.len() > 0 {
        lemma_le_value_bound(b.drop_first());
    }
}

/// The little-endian value of a byte vector of at most eight bytes.
pub fn le_u128(b: &Vec<u8>, upto: usize) -> (r: u128)
    requires
        upto <= b@.len(),
        upto <= 8,
    ensures
        r == le_value(b@.take(upto as int)),
{
    let mut r: u128 = 0;
    let mut i: usize = upto;
    proof {
        reveal_with_fuel(pow256, 9);
        assert(b@.take(upto as int).skip(upto as int) =~= Seq::<u8>::empty());
    }
    while i > 0
        invariant
            i <= upto,
            upto <= b@.len(),
            upto <= 8,
            r == le_value(b@.take(upto as int).skip(i as int)),
            r < pow256((upto - i) as nat),
        decreases i,
    {
        proof {
            reveal_with_fuel(pow256, 9);
            lemma_le_value_bound(b@.take(upto as int).skip(i as int));
            assert(pow256((upto - i) as nat) <= pow256(7)) by {
                let k = (upto - i) as nat;
                assert(pow256(k) <= pow256(7)) by {
                    lemma_pow256_increases(k, 7);
                }
            }
            assert(b@.take(upto as int).skip(i - 1).drop_first() =~= b@.take(upto as int).skip(
                i as int,
            ));
            assert(b@.take(upto as int).skip(i - 1)[0] == b@[i - 1]);
        }
        i = i - 1;
        r = r * 256 + b[i] as u128;
    }
    proof {
        assert(b@.take(upto as int).skip(0) =~= b@.take(upto as int));
    }
    r
}

/// `pow256` grows with the exponent.
pub proof fn lemma_pow256_increases(a: nat, b: nat)
    requires
        a <= b,
    ensures
        pow256(a) <= pow256(b),
    decreases b,
{
    if a < b {
        lemma_pow256_increases(a, (b - 1) as nat);
        assert(pow256(b) == 256 * pow256((b - 1) as nat));
    }
}

/// Function `i` answers to the first `sel_len` bytes of the input.
pub open spec fn selector_matches(c: ControlFlowGraph, input: Seq<u8>, sel_len: nat) -> bool {
    c.selector@ == input.take(sel_len as int)
}

/// The last public fallback declared, as the builder's fold resolves it.
pub open spec fn spec_fallback(all: Seq<ControlFlowGraph>) -> Option<usize>
    decreases all.len(),
{
    if all.len() == 0 {
        Option::None
    } else if all.last().public && all.last().ty == FunctionTy::Fallback {
        Option::Some((all.len() - 1) as usize)
    } else {
        spec_fallback(all.drop_last())
    }
}

/// The last public receive handler declared.
pub open spec fn spec_receive(all: Seq<ControlFlowGraph>) -> Option<usize>
    decreases all.len(),
{
    if all.len() == 0 {
        Option::None
    } else if all.last().public && all.last().ty == FunctionTy::Receive {
        Option::Some((all.len() - 1) as usize)
    } else {
        spec_receive(all.drop_last())
    }
}

/// Where an unmatched call goes: with no handler at all the selector is
/// invalid outright; otherwise transferred value picks receive, no value
/// picks fallback, and a missing handler on the chosen side is invalid.
pub open spec fn fb_or_recv_outcome(all: Seq<ControlFlowGraph>, value: u128) -> DispatchOutcome {
    if spec_fallback(all) is None && spec_receive(all) is None {
        DispatchOutcome::SelectorInvalid
    } else if value > 0 {
        match spec_receive(all) {
            Option::Some(i) => DispatchOutcome::Receive(i),
            Option::None => DispatchOutcome::SelectorInvalid,
        }
    } else {
        match spec_fallback(all) {
            Option::Some(i) => DispatchOutcome::Fallback(i),
            Option::None => DispatchOutcome::SelectorInvalid,
        }
    }
}

/// Resolve the last public fallback and receive handlers.
fn find_fb_recv(all_cfg: &Vec<ControlFlowGraph>) -> (r: (Option<usize>, Option<usize>))
    ensures
        r.0 == spec_fallback(all_cfg@),
        r.1 == spec_receive(all_cfg@),
{
    let mut fb: Option<usize> = Option::None;
    let mut recv: Option<usize> = Option::None;
    let n = all_cfg.len();
    let mut i: usize = 0;
    while i < n
        invariant
            i <= n,
            n == all_cfg@.len(),
            fb == spec_fallback(all_cfg@.take(i as int)),
            recv == spec_receive(all_cfg@.take(i as int)),
        decreases n - i,
    {
        let c = &all_cfg[i];
        let is_public = c.public;
        match c.ty {
            FunctionTy::Fallback => {
                if is_public {
                    fb = Option::Some(i);
                }
            },
            FunctionTy::Receive => {
                if is_public {
                    recv = Option::Some(i);
                }
            },
            _ => {},
        }
        proof {
            assert(all_cfg@.take(i + 1).drop_last() =~= all_cfg@.take(i as int));
            assert(all_cfg@.take(i + 1).last() == all_cfg@[i as int]);
        }
        i += 1;
    }
    proof {
        assert(all_cfg@.take(n as int) =~= all_cfg@);
    }
    (fb, recv)
}

/// Decide, for one call, which handler the generated entry point reaches.
///
/// This is total: for every input buffer and every transferred value the
/// result is exactly one of the five outcomes — a matched function, the
/// payability abort, fallback, receive, or the invalid-selector return.
pub fn dispatch_decision(
    all_cfg: &Vec<ControlFlowGraph>,
    input: &Vec<u8>,
    value: u128,
    ns: &Namespace,
) -> (r: DispatchOutcome)
    requires
        // selectors are precomputed upstream: one per dispatchable
        // function, of the target's width, pairwise distinct
        forall|i: int|
            0 <= i < all_cfg@.len() && dispatchable(#[trigger] all_cfg@[i]) ==> all_cfg@[i].selector@.len()
                == ns.target.spec_selector_length(),
        forall|i: int, j: int|
            #![trigger dispatchable(all_cfg@[i]), dispatchable(all_cfg@[j])]
            0 <= i < j < all_cfg@.len() && dispatchable(all_cfg@[i]) && dispatchable(all_cfg@[j])
                ==> all_cfg@[i].selector@ != all_cfg@[j].selector@,
    ensures
        input@.len() < ns.target.spec_selector_length() ==> r == fb_or_recv_outcome(
            all_cfg@,
            value,
        ),
        input@.len() >= ns.target.spec_selector_length() ==> {
            &&& forall|i: int|
                0 <= i < all_cfg@.len() && dispatchable(#[trigger] all_cfg@[i])
                    && selector_matches(
                    all_cfg@[i],
                    input@,
                    ns.target.spec_selector_length() as nat,
                ) ==> r == (if all_cfg@[i].nonpayable && value > 0 {
                    DispatchOutcome::ValueAborted(i as usize)
                } else {
                    DispatchOutcome::Matched(i as usize)
                })
            &&& (forall|i: int|
                0 <= i < all_cfg@.len() && dispatchable(#[trigger] all_cfg@[i])
                    ==> !selector_matches(
                    all_cfg@[i],
                    input@,
                    ns.target.spec_selector_length() as nat,
                )) ==> r == fb_or_recv_outcome(all_cfg@, value)
        },
        r matches DispatchOutcome::Matched(i) ==> 0 <= i < all_cfg@.len() && dispatchable(
            all_cfg@[i as int],
        ) && !(all_cfg@[i as int].nonpayable && value > 0),
        r matches DispatchOutcome::ValueAborted(i) ==> 0 <= i < all_cfg@.len() && dispatchable(
            all_cfg@[i as int],
        ) && all_cfg@[i as int].nonpayable && value > 0,
        r matches DispatchOutcome::Fallback(i) ==> spec_fallback(all_cfg@) == Option::Some(i)
            && value == 0,
        r matches DispatchOutcome::Receive(i) ==> spec_receive(all_cfg@) == Option::Some(i)
            && value > 0,
{
    let sel_len = ns.target.selector_length() as usize;
    if input.len() < sel_len {
        let (fb, recv) = find_fb_recv(all_cfg);
        return fb_or_recv_decision(fb, recv, value);
    }
    let n = all_cfg.len();
    let mut i: usize = 0;
    while i < n
        invariant
            i <= n,
            n == all_cfg@.len(),
            sel_len == ns.target.spec_selector_length(),
            input@.len() >= sel_len,
            forall|k: int|
                0 <= k < i && dispatchable(#[trigger] all_cfg@[k]) ==> !selector_matches(
                    all_cfg@[k],
                    input@,
                    sel_len as nat,
                ),
            forall|k: int|
                0 <= k < all_cfg@.len() && dispatchable(#[trigger] all_cfg@[k])
                    ==> all_cfg@[k].selector@.len() == sel_len,
            forall|k: int, l: int|
                #![trigger dispatchable(all_cfg@[k]), dispatchable(all_cfg@[l])]
                0 <= k < l < all_cfg@.len() && dispatchable(all_cfg@[k]) && dispatchable(
                    all_cfg@[l],
                ) ==> all_cfg@[k].selector@ != all_cfg@[l].selector@,
        decreases n - i,
    {
        let c = &all_cfg[i];
        let is_candidate = c.public && (match c.ty {
            FunctionTy::Function => true,
            FunctionTy::Constructor => true,
            _ => false,
        });
        if is_candidate {
            if bytes_match_prefix(&c.selector, input, sel_len) {
                proof {
                    assert forall|j: int|
                        0 <= j < all_cfg@.len() && dispatchable(all_cfg@[j]) && selector_matches(
                            all_cfg@[j],
                            input@,
                            sel_len as nat,
                        ) implies j == i as int by {
                        assert(dispatchable(all_cfg@[i as int]));
                        if j < i as int {
                            assert(all_cfg@[j].selector@ != all_cfg@[i as int].selector@);
                        } else if j > i as int {
                            assert(all_cfg@[i as int].selector@ != all_cfg@[j].selector@);
                        }
                    }
                }
                if c.nonpayable && value > 0 {
                    return DispatchOutcome::ValueAborted(i);
                }
                return DispatchOutcome::Matched(i);
            }
        }
        i += 1;
    }
    let (fb, recv) = find_fb_recv(all_cfg);
    fb_or_recv_decision(fb, recv, value)
}

/// Whether `sel` equals the first `sel_len` bytes of `input`.
fn bytes_match_prefix(sel: &Vec<u8>, input: &Vec<u8>, sel_len: usize) -> (r: bool)
    requires
        sel@.len() == sel_len,
        input@.len() >= sel_len,
    ensures
        r == (sel@ == input@.take(sel_len as int)),
{
    let mut i: usize = 0;
    while i < sel_len
        invariant
            i <= sel_len,
            sel@.len() == sel_len,
            input@.len() >= sel_len,
            forall|k: int| 0 <= k < i ==> sel@[k] == input@[k],
        decreases sel_len - i,
    {
        if sel[i] != input[i] {
            proof {
                assert(input@.take(sel_len as int)[i as int] == input@[i as int]);
            }
            return false;
        }
        i += 1;
    }
    proof {
        assert(sel@ =~= input@.take(sel_len as int));
    }
    true
}

/// Pick among fallback, receive and the invalid-selector return, given
/// the resolved handlers and the transferred value.
fn fb_or_recv_decision(fb: Option<usize>, recv: Option<usize>, value: u128) -> (r:
    DispatchOutcome)
    ensures
        fb is None && recv is None ==> r == DispatchOutcome::SelectorInvalid,
        value > 0 && !(fb is None && recv is None) ==> r == (match recv {
            Option::Some(i) => DispatchOutcome::Receive(i),
            Option::None => DispatchOutcome::SelectorInvalid,
        }),
        value == 0 && !(fb is None && recv is None) ==> r == (match fb {
            Option::Some(i) => DispatchOutcome::Fallback(i),
            Option::None => DispatchOutcome::SelectorInvalid,
        }),
{
    if fb.is_none() && recv.is_none() {
        return DispatchOutcome::SelectorInvalid;
    }
    if value > 0 {
        match recv {
            Option::Some(i) => DispatchOutcome::Receive(i),
            Option::None => DispatchOutcome::SelectorInvalid,
        }
    } else {
        match fb {
            Option::Some(i) => DispatchOutcome::Fallback(i),
            Option::None => DispatchOutcome::SelectorInvalid,
        }
    }
}

/// An instruction that ends a code path of the entry point: a terminator,
/// or the tail call into a resolved handler.
pub open spec fn terminates_path(i: Instr) -> bool {
    is_terminator(i) || i matches Instr::Call { .. }
}

/// Every block of the graph is either still an open seam (empty) or ends
/// on an instruction that terminates its path: the generated entry point
/// never falls through silently.
pub open spec fn all_paths_terminate(c: ControlFlowGraph) -> bool {
    forall|b: int|
        0 <= b < c.blocks@.len() ==> ((#[trigger] c.blocks@[b]).instr@.len() == 0
            || terminates_path(c.blocks@[b].instr@.last()))
}

/// The value-transfer guard of one switch case. A non-payable function's
/// case branches to the shared assertion-failure block when value came
/// along, and on to an (empty, still open) continuation block otherwise;
/// a payable function's case is the open continuation itself. Body call
/// emission into the continuation is a separate, later pass.
pub open spec fn case_block_ok(
    c: ControlFlowGraph,
    case_bb: int,
    f: ControlFlowGraph,
    fail_bb: int,
    value_var: usize,
    value_ty: Type,
) -> bool {
    &&& 0 <= case_bb < c.blocks@.len()
    &&& if f.nonpayable {
        &&& c.blocks@[case_bb].instr@.len() == 1
        &&& c.blocks@[case_bb].instr@[0] matches Instr::BranchCond {
            cond,
            true_block,
            false_block,
        } && true_block == fail_bb && cond == (Expression::More {
            signed: false,
            left: Box::new(Expression::Variable { ty: value_ty, var_no: value_var }),
            right: Box::new(Expression::NumberLiteral { ty: value_ty, value: 0 }),
        }) && case_bb < false_block < c.blocks@.len() && c.blocks@[false_block as int].instr@.len()
            == 0
    } else {
        c.blocks@[case_bb].instr@.len() == 0
    }
}

/// The builder state for one entry point: the shared failure block, the
/// ids holding input length and transferred value, and the graph under
/// construction.
pub struct Dispatch {
    pub fail_bb: usize,
    pub input: usize,
    pub value: usize,
    pub vartab: Vartable,
    pub cfg: ControlFlowGraph,
}

impl Dispatch {
    /// The builder's graph is well formed, its cursor is where the next
    /// instruction belongs, and the fixed prologue blocks are in place.
    pub open spec fn wf(self, ns: Namespace) -> bool {
        &&& self.cfg.wf()
        &&& self.vartab.wf()
        &&& self.vartab.dirty@.len() == 0
        &&& self.cfg.blocks@.len() >= 2
        &&& self.fail_bb == 1
        &&& self.cfg.blocks@[1].instr@.len() == 1
        &&& self.cfg.blocks@[1].instr@[0] matches Instr::AssertFailure { encoded_args }
            && encoded_args is None
        &&& self.value == ns.next_id + 1
    }

    /// Open the graph: read the input length and the transferred value
    /// out of the call context into fresh variables, and set up the
    /// shared assertion-failure block.
    pub fn new(ns: &Namespace) -> (r: Dispatch)
        requires
            ns.next_id + 2 < usize::MAX,
            ns.value_length <= u16::MAX,
        ensures
            r.wf(*ns),
            r.cfg.name@ == "dispatch"@,
            r.cfg.function_no == ASTFunction::NoFunction,
            r.cfg.blocks@.len() == 2,
            r.cfg.current == 1,
            r.input == ns.next_id,
            r.value == ns.next_id + 1,
            r.vartab.next_id == ns.next_id + 2,
            r.cfg.blocks@[0].instr@.len() == 2,
            r.cfg.blocks@[0].instr@[0] matches Instr::Assign { res, expr, .. } && res == ns.next_id
                && expr == (Expression::ArrayLength {
                base: Box::new(
                    Expression::FunctionArg { ty: Type::DynamicBytes, arg_no: 0 },
                ),
            }),
            r.cfg.blocks@[0].instr@[1] matches Instr::Assign { res, expr, .. } && res == ns.next_id
                + 1 && expr == (Expression::FunctionArg {
                ty: Type::Uint(ns.value_length as u16),
                arg_no: 1,
            }),
    {
        let mut vartab = Vartable::new(ns.next_id);
        let mut cfg = ControlFlowGraph::new("dispatch".to_owned(), ASTFunction::NoFunction);
        proof {
            reveal_strlit("dispatch");
        }

        // Read input length from args
        let input_expr = Expression::FunctionArg { ty: Type::DynamicBytes, arg_no: 0 };
        let input = vartab.temp_name("input_len", &Type::Uint(32));
        let expr = Expression::ArrayLength { base: Box::new(input_expr) };
        cfg.add(&mut vartab, Instr::Assign { loc: Loc::Codegen, res: input, expr });

        // Read transferred value from args
        let value_expr = Expression::FunctionArg {
            ty: Type::Uint(ns.value_length as u16),
            arg_no: 1,
        };
        let value = vartab.temp_name("value", &Type::Uint(ns.value_length as u16));
        cfg.add(&mut vartab, Instr::Assign { loc: Loc::Codegen, res: value, expr: value_expr });

        let fail_bb = cfg.new_basic_block("assert_failure".to_owned());
        cfg.set_basic_block(fail_bb);
        cfg.add(&mut vartab, Instr::AssertFailure { encoded_args: Option::None });

        Dispatch { fail_bb, input, value, vartab, cfg }
    }

    /// Insert a trap if the matched function is not payable but the call
    /// carries value; leaves the cursor on the open continuation block.
    pub fn abort_if_value_transfer(&mut self, nonpayable: bool, ns: &Namespace)
        requires
            old(self).wf(*ns),
            old(self).cfg.blocks@[old(self).cfg.current as int].is_open(),
            old(self).cfg.blocks@.len() + 1 < usize::MAX,
            ns.value_length <= u16::MAX,
        ensures
            final(self).wf(*ns),
            final(self).fail_bb == old(self).fail_bb,
            final(self).input == old(self).input,
            final(self).value == old(self).value,
            final(self).vartab.next_id == old(self).vartab.next_id,
            final(self).cfg.meta() == old(self).cfg.meta(),
            !nonpayable ==> *final(self) == *old(self),
            nonpayable ==> {
                &&& final(self).cfg.blocks@.len() == old(self).cfg.blocks@.len() + 1
                &&& forall|b: int|
                    0 <= b < old(self).cfg.blocks@.len() && b != old(self).cfg.current as int
                        ==> final(self).cfg.blocks@[b] == old(self).cfg.blocks@[b]
                &&& final(self).cfg.blocks@[old(self).cfg.current as int].instr@ == old(
                    self,
                ).cfg.blocks@[old(self).cfg.current as int].instr@.push(
                    final(self).cfg.blocks@[old(self).cfg.current as int].instr@.last(),
                )
                &&& final(self).cfg.blocks@[old(self).cfg.current as int].instr@.last()
                    matches Instr::BranchCond { cond, true_block, false_block } && true_block
                    == old(self).fail_bb && false_block == old(self).cfg.blocks@.len() && cond
                    == (Expression::More {
                    signed: false,
                    left: Box::new(
                        Expression::Variable {
                            ty: Type::Uint(ns.value_length as u16),
                            var_no: old(self).value,
                        },
                    ),
                    right: Box::new(
                        Expression::NumberLiteral {
                            ty: Type::Uint(ns.value_length as u16),
                            value: 0,
                        },
                    ),
                })
                &&& final(self).cfg.blocks@.last().instr@.len() == 0
                &&& final(self).cfg.current == old(self).cfg.blocks@.len()
            },
    {
        if !nonpayable {
            return ;
        }
        let value_ty = Type::Uint(ns.value_length as u16);
        let false_block = self.cfg.new_basic_block("no_value".to_owned());
        let cond = Expression::More {
            signed: false,
            left: Box::new(
                Expression::Variable { ty: value_ty.clone(), var_no: self.value },
            ),
            right: Box::new(Expression::NumberLiteral { ty: value_ty, value: 0 }),
        };
        self.cfg.add(
            &mut self.vartab,
            Instr::BranchCond { cond, true_block: self.fail_bb, false_block },
        );
        self.cfg.set_basic_block(false_block);
    }

    /// One switch case: a fresh block holding the payability guard; the
    /// function body call goes into the open continuation in a later pass.
    pub fn dispatch_case(&mut self, nonpayable: bool, ns: &Namespace) -> (case: usize)
        requires
            old(self).wf(*ns),
            old(self).cfg.blocks@.len() + 2 < usize::MAX,
            ns.value_length <= u16::MAX,
        ensures
            final(self).wf(*ns),
            final(self).fail_bb == old(self).fail_bb,
            final(self).input == old(self).input,
            final(self).value == old(self).value,
            final(self).vartab.next_id == old(self).vartab.next_id,
            final(self).cfg.meta() == old(self).cfg.meta(),
            case == old(self).cfg.blocks@.len(),
            final(self).cfg.blocks@.len() >= old(self).cfg.blocks@.len() + 1,
            final(self).cfg.blocks@.len() <= old(self).cfg.blocks@.len() + 2,
            forall|b: int|
                0 <= b < old(self).cfg.blocks@.len() ==> final(self).cfg.blocks@[b] == old(
                    self,
                ).cfg.blocks@[b],
            case_block_ok(
                final(self).cfg,
                case as int,
                ControlFlowGraph {
                    nonpayable,
                    ..final(self).cfg
                },
                old(self).fail_bb as int,
                old(self).value,
                Type::Uint(ns.value_length as u16),
            ),
            all_paths_terminate(old(self).cfg) ==> (forall|b: int|
                old(self).cfg.blocks@.len() <= b < final(self).cfg.blocks@.len() ==> ((
                #[trigger] final(self).cfg.blocks@[b]).instr@.len() == 0 || terminates_path(
                    final(self).cfg.blocks@[b].instr@.last(),
                ))),
    {
        let case = self.cfg.new_basic_block("dispatch_case".to_owned());
        self.cfg.set_basic_block(case);
        self.abort_if_value_transfer(nonpayable, ns);
        case
    }
}

/// One case of the selector switch: its literal is function `i`'s
/// selector value and its block carries `i`'s payability guard.
pub open spec fn switch_case_ok(
    c: ControlFlowGraph,
    case_lit: Expression,
    case_bb: int,
    f: ControlFlowGraph,
    value_var: usize,
    value_ty: Type,
    selector_ty: Type,
) -> bool {
    &&& dispatchable(f)
    &&& case_lit == (Expression::NumberLiteral {
        ty: selector_ty,
        value: le_value(f.selector@) as u128,
    })
    &&& 4 <= case_bb
    &&& case_block_ok(c, case_bb, f, 1, value_var, value_ty)
}

/// The case corresponds to some dispatchable function of the contract.
pub open spec fn case_has_fn(
    c: ControlFlowGraph,
    case: (Expression, usize),
    all: Seq<ControlFlowGraph>,
    value_var: usize,
    value_ty: Type,
    selector_ty: Type,
) -> bool {
    exists|i: int|
        0 <= i < all.len() && switch_case_ok(
            c,
            case.0,
            case.1 as int,
            #[trigger] all[i],
            value_var,
            value_ty,
            selector_ty,
        )
}

/// Every case belongs to a dispatchable function and carries its guard.
pub open spec fn cases_sound(
    c: ControlFlowGraph,
    cases: Seq<(Expression, usize)>,
    all: Seq<ControlFlowGraph>,
    value_var: usize,
    value_ty: Type,
    selector_ty: Type,
) -> bool {
    forall|k: int|
        0 <= k < cases.len() ==> case_has_fn(
            c,
            #[trigger] cases[k],
            all,
            value_var,
            value_ty,
            selector_ty,
        )
}

/// Every dispatchable function has a case with its selector literal.
pub open spec fn cases_complete(
    cases: Seq<(Expression, usize)>,
    all: Seq<ControlFlowGraph>,
    selector_ty: Type,
) -> bool {
    forall|i: int|
        0 <= i < all.len() && dispatchable(#[trigger] all[i]) ==> exists|k: int|
            0 <= k < cases.len() && cases[k].0 == (Expression::NumberLiteral {
                ty: selector_ty,
                value: le_value(all[i].selector@) as u128,
            })
}

/// Case facts survive any mutation that touches only the prologue blocks
/// (indices below four) or appends new ones.
#[verifier::rlimit(60)]
#[verifier::spinoff_prover]
proof fn lemma_cases_preserved(
    oldc: ControlFlowGraph,
    newc: ControlFlowGraph,
    changed: int,
    cases: Seq<(Expression, usize)>,
    all: Seq<ControlFlowGraph>,
    value_var: usize,
    value_ty: Type,
    selector_ty: Type,
)
    requires
        cases_sound(oldc, cases, all, value_var, value_ty, selector_ty),
        newc.blocks@.len() >= oldc.blocks@.len(),
        changed < 4,
        forall|b: int|
            0 <= b < oldc.blocks@.len() && b != changed ==> newc.blocks@[b] == oldc.blocks@[b],
    ensures
        cases_sound(newc, cases, all, value_var, value_ty, selector_ty),
{
    assert forall|k: int| 0 <= k < cases.len() implies case_has_fn(
        newc,
        #[trigger] cases[k],
        all,
        value_var,
        value_ty,
        selector_ty,
    ) by {
        assert(case_has_fn(oldc, cases[k], all, value_var, value_ty, selector_ty));
        let i = choose|i: int|
            0 <= i < all.len() && switch_case_ok(
                oldc,
                cases[k].0,
                cases[k].1 as int,
                #[trigger] all[i],
                value_var,
                value_ty,
                selector_ty,
            );
        assert(newc.blocks@[cases[k].1 as int] == oldc.blocks@[cases[k].1 as int]);
        if all[i].nonpayable {
            let fbk = oldc.blocks@[cases[k].1 as int].instr@[0]->BranchCond_false_block;
            assert(newc.blocks@[fbk as int] == oldc.blocks@[fbk as int]);
        }
        assert(switch_case_ok(
            newc,
            cases[k].0,
            cases[k].1 as int,
            all[i],
            value_var,
            value_ty,
            selector_ty,
        ));
        assert(case_has_fn(newc, cases[k], all, value_var, value_ty, selector_ty));
    }
}


/// What resolving the default does to the builder: only the current
/// (default) block and freshly appended handler blocks change.
pub open spec fn fb_or_recv_post(
    oldd: Dispatch,
    newd: Dispatch,
    all: Seq<ControlFlowGraph>,
    ns: Namespace,
) -> bool {
    &&& newd.cfg.wf()
    &&& newd.vartab.wf()
    &&& newd.cfg.meta() == oldd.cfg.meta()
    &&& newd.vartab.next_id == oldd.vartab.next_id
    &&& forall|b: int|
        0 <= b < oldd.cfg.blocks@.len() && b != oldd.cfg.current as int ==> newd.cfg.blocks@[b]
            == oldd.cfg.blocks@[b]
    &&& (spec_fallback(all) is None && spec_receive(all) is None ==> {
        &&& newd.cfg.blocks@.len() == oldd.cfg.blocks@.len()
        &&& newd.cfg.blocks@[oldd.cfg.current as int].instr@ == oldd.cfg.blocks@[oldd.cfg.current as int].instr@.push(
            Instr::ReturnCode { code: ReturnCode::FunctionSelectorInvalid },
        )
    })
    &&& (!(spec_fallback(all) is None && spec_receive(all) is None) ==> {
        &&& newd.cfg.blocks@.len() == oldd.cfg.blocks@.len() + 2
        &&& newd.cfg.blocks@[oldd.cfg.current as int].instr@ == oldd.cfg.blocks@[oldd.cfg.current as int].instr@.push(
            Instr::BranchCond {
                cond: Expression::More {
                    signed: false,
                    left: Box::new(
                        Expression::Variable {
                            ty: Type::Uint(ns.value_length as u16),
                            var_no: oldd.value,
                        },
                    ),
                    right: Box::new(
                        Expression::NumberLiteral {
                            ty: Type::Uint(ns.value_length as u16),
                            value: 0,
                        },
                    ),
                },
                true_block: (oldd.cfg.blocks@.len() + 1) as usize,
                false_block: oldd.cfg.blocks@.len() as usize,
            },
        )
        &&& handler_block_ok(
            newd.cfg.blocks@[oldd.cfg.blocks@.len() as int],
            spec_fallback(all),
        )
        &&& handler_block_ok(
            newd.cfg.blocks@[oldd.cfg.blocks@.len() as int + 1],
            spec_receive(all),
        )
    })
}

impl Dispatch {
    /// Route the unmatched default: with no handler the selector is
    /// invalid; otherwise branch on transferred value into receive or
    /// fallback, each performing a zero-argument call into its handler or
    /// returning the invalid-selector code where absent.
    pub fn fallback_or_receive(&mut self, all_cfg: &Vec<ControlFlowGraph>, ns: &Namespace)
        requires
            old(self).wf(*ns),
            old(self).cfg.blocks@[old(self).cfg.current as int].is_open(),
            old(self).cfg.blocks@.len() + 2 < usize::MAX,
            ns.value_length <= u16::MAX,
        ensures
            fb_or_recv_post(*old(self), *final(self), all_cfg@, *ns),
            final(self).cfg.wf(),
            final(self).vartab.wf(),
            final(self).cfg.meta() == old(self).cfg.meta(),
            final(self).vartab.next_id == old(self).vartab.next_id,
            forall|b: int|
                0 <= b < old(self).cfg.blocks@.len() && b != old(self).cfg.current as int
                    ==> final(self).cfg.blocks@[b] == old(self).cfg.blocks@[b],
            spec_fallback(all_cfg@) is None && spec_receive(all_cfg@) is None ==> {
                &&& final(self).cfg.blocks@.len() == old(self).cfg.blocks@.len()
                &&& final(self).cfg.blocks@[old(self).cfg.current as int].instr@ == old(
                    self,
                ).cfg.blocks@[old(self).cfg.current as int].instr@.push(
                    Instr::ReturnCode { code: ReturnCode::FunctionSelectorInvalid },
                )
            },
            !(spec_fallback(all_cfg@) is None && spec_receive(all_cfg@) is None) ==> {
                &&& final(self).cfg.blocks@.len() == old(self).cfg.blocks@.len() + 2
                &&& final(self).cfg.blocks@[old(self).cfg.current as int].instr@ == old(
                    self,
                ).cfg.blocks@[old(self).cfg.current as int].instr@.push(
                    Instr::BranchCond {
                        cond: Expression::More {
                            signed: false,
                            left: Box::new(
                                Expression::Variable {
                                    ty: Type::Uint(ns.value_length as u16),
                                    var_no: old(self).value,
                                },
                            ),
                            right: Box::new(
                                Expression::NumberLiteral {
                                    ty: Type::Uint(ns.value_length as u16),
                                    value: 0,
                                },
                            ),
                        },
                        true_block: (old(self).cfg.blocks@.len() + 1) as usize,
                        false_block: old(self).cfg.blocks@.len() as usize,
                    },
                )
                &&& handler_block_ok(
                    final(self).cfg.blocks@[old(self).cfg.blocks@.len() as int],
                    spec_fallback(all_cfg@),
                )
                &&& handler_block_ok(
                    final(self).cfg.blocks@[old(self).cfg.blocks@.len() as int + 1],
                    spec_receive(all_cfg@),
                )
            },
    {
        let (fb, recv) = find_fb_recv(all_cfg);

        // No need to check value transferred; we will abort either way
        if fb.is_none() && recv.is_none() {
            return self.selector_invalid();
        }

        let value_ty = Type::Uint(ns.value_length as u16);
        let fallback_block = self.cfg.new_basic_block("fallback".to_owned());
        let receive_block = self.cfg.new_basic_block("receive".to_owned());
        self.cfg.add(
            &mut self.vartab,
            Instr::BranchCond {
                cond: Expression::More {
                    signed: false,
                    left: Box::new(
                        Expression::Variable { ty: value_ty.clone(), var_no: self.value },
                    ),
                    right: Box::new(Expression::NumberLiteral { ty: value_ty, value: 0 }),
                },
                true_block: receive_block,
                false_block: fallback_block,
            },
        );

        self.cfg.set_basic_block(fallback_block);
        if let Option::Some(cfg_no) = fb {
            self.cfg.add(
                &mut self.vartab,
                Instr::Call {
                    res: Vec::new(),
                    return_tys: Vec::new(),
                    call: InternalCallTy::Static { cfg_no },
                    args: Vec::new(),
                },
            );
        } else {
            self.selector_invalid();
        }

        self.cfg.set_basic_block(receive_block);
        if let Option::Some(cfg_no) = recv {
            self.cfg.add(
                &mut self.vartab,
                Instr::Call {
                    res: Vec::new(),
                    return_tys: Vec::new(),
                    call: InternalCallTy::Static { cfg_no },
                    args: Vec::new(),
                },
            );
        } else {
            self.selector_invalid();
        }
    }

    /// End the current path with the invalid-selector return code.
    pub fn selector_invalid(&mut self)
        requires
            old(self).cfg.wf(),
            old(self).vartab.wf(),
            old(self).cfg.blocks@[old(self).cfg.current as int].is_open(),
        ensures
            final(self).cfg.wf(),
            final(self).vartab.wf(),
            final(self).fail_bb == old(self).fail_bb,
            final(self).input == old(self).input,
            final(self).value == old(self).value,
            final(self).vartab == old(self).vartab,
            final(self).cfg.meta() == old(self).cfg.meta(),
            final(self).cfg.current == old(self).cfg.current,
            final(self).cfg.blocks@.len() == old(self).cfg.blocks@.len(),
            forall|b: int|
                0 <= b < old(self).cfg.blocks@.len() && b != old(self).cfg.current as int
                    ==> final(self).cfg.blocks@[b] == old(self).cfg.blocks@[b],
            final(self).cfg.blocks@[old(self).cfg.current as int].instr@ == old(
                self,
            ).cfg.blocks@[old(self).cfg.current as int].instr@.push(
                Instr::ReturnCode { code: ReturnCode::FunctionSelectorInvalid },
            ),
            final(self).cfg.blocks@[old(self).cfg.current as int].phis == old(self).cfg.blocks@[old(
                self,
            ).cfg.current as int].phis,
            final(self).cfg.blocks@[old(self).cfg.current as int].name == old(self).cfg.blocks@[old(
                self,
            ).cfg.current as int].name,
    {
        let code = ReturnCode::FunctionSelectorInvalid;
        self.cfg.add(&mut self.vartab, Instr::ReturnCode { code });
    }
}

/// A resolved handler block performs the zero-argument call into its
/// handler's graph, or returns the invalid-selector code where the
/// contract declares none.
pub open spec fn handler_block_ok(b: BasicBlock, handler: Option<usize>) -> bool {
    &&& b.instr@.len() == 1
    &&& match handler {
        Option::Some(h) => b.instr@[0] matches Instr::Call { res, return_tys, call, args }
            && res@.len() == 0 && return_tys@.len() == 0 && args@.len() == 0 && (call
            matches InternalCallTy::Static { cfg_no } && cfg_no == h),
        Option::None => b.instr@[0] matches Instr::ReturnCode { code } && code
            == ReturnCode::FunctionSelectorInvalid,
    }
}

/// The shape of the generated entry point.
///
/// Block 0 reads the input length and the transferred value and routes
/// short inputs straight to fallback/receive handling (block 2); block 1
/// is the shared assertion failure; block 3 reads the selector and
/// switches over one sound and complete case per dispatchable function,
/// falling back to block 2; block 2 resolves fallback/receive or returns
/// the invalid-selector code. Every code path terminates.
pub open spec fn dispatch_cfg_shape(
    r: ControlFlowGraph,
    all: Seq<ControlFlowGraph>,
    ns: Namespace,
) -> bool {
    let sel_len = ns.target.spec_selector_length();
    let selector_ty = Type::Uint((8 * sel_len) as u16);
    let value_ty = Type::Uint(ns.value_length as u16);
    let input_var = ns.next_id;
    let value_var = (ns.next_id + 1) as usize;
    &&& r.wf()
    &&& all_paths_terminate(r)
    &&& r.blocks@.len() >= 4
    // block 0: read context, length-check the input
    &&& r.blocks@[0].instr@.len() == 3
    &&& r.blocks@[0].instr@[0] matches Instr::Assign { res, expr, .. } && res == input_var && expr
        == (Expression::ArrayLength {
        base: Box::new(Expression::FunctionArg { ty: Type::DynamicBytes, arg_no: 0 }),
    })
    &&& r.blocks@[0].instr@[1] matches Instr::Assign { res, expr, .. } && res == value_var && expr
        == (Expression::FunctionArg { ty: value_ty, arg_no: 1 })
    &&& r.blocks@[0].instr@[2] == (Instr::BranchCond {
        cond: Expression::Less {
            signed: false,
            left: Box::new(Expression::Variable { ty: Type::Uint(32), var_no: input_var }),
            right: Box::new(
                Expression::NumberLiteral { ty: Type::Uint(32), value: sel_len as u128 },
            ),
        },
        true_block: 2,
        false_block: 3,
    })
    // block 1: the shared trap for non-payable functions given value
    &&& r.blocks@[1].instr@.len() == 1
    &&& r.blocks@[1].instr@[0] matches Instr::AssertFailure { encoded_args } && encoded_args
        is None
    // block 3: the selector switch
    &&& r.blocks@[3].instr@.len() == 1
    &&& r.blocks@[3].instr@[0] matches Instr::Switch { cond, cases, default } && default == 2
        && cond == (Expression::ReadFromBuffer {
        ty: selector_ty,
        buffer: Box::new(Expression::FunctionArg { ty: Type::DynamicBytes, arg_no: 0 }),
        offset: Box::new(Expression::NumberLiteral { ty: selector_ty, value: 0 }),
    }) && cases_sound(r, cases@, all, value_var, value_ty, selector_ty) && cases_complete(
        cases@,
        all,
        selector_ty,
    )
    // block 2: fallback/receive resolution
    &&& (spec_fallback(all) is None && spec_receive(all) is None ==> r.blocks@[2].instr@.len() == 1
        && r.blocks@[2].instr@[0] == (Instr::ReturnCode {
        code: ReturnCode::FunctionSelectorInvalid,
    }))
    &&& (!(spec_fallback(all) is None && spec_receive(all) is None) ==> r.blocks@[2].instr@.len()
        == 1 && (r.blocks@[2].instr@[0] matches Instr::BranchCond {
        cond,
        true_block,
        false_block,
    } && cond == (Expression::More {
        signed: false,
        left: Box::new(Expression::Variable { ty: value_ty, var_no: value_var }),
        right: Box::new(Expression::NumberLiteral { ty: value_ty, value: 0 }),
    }) && 4 <= false_block && false_block + 1 == true_block && true_block < r.blocks@.len()
        && handler_block_ok(r.blocks@[false_block as int], spec_fallback(all)) && handler_block_ok(
        r.blocks@[true_block as int],
        spec_receive(all),
    )))
}

impl Dispatch {
    /// Assemble the entry point: length guard, selector switch with one
    /// guarded case per dispatchable function, fallback/receive default.
    #[verifier::rlimit(100)]
    pub fn build(self, all_cfg: &Vec<ControlFlowGraph>, ns: &Namespace) -> (r: ControlFlowGraph)
        requires
            self.wf(*ns),
            ns.value_length <= u16::MAX,
            self.cfg.blocks@.len() == 2,
            self.cfg.current == 1,
            self.input == ns.next_id,
            self.cfg.blocks@[0].instr@.len() == 2,
            self.cfg.blocks@[0].instr@[0] matches Instr::Assign { res, expr, .. } && res
                == ns.next_id && expr == (Expression::ArrayLength {
                base: Box::new(Expression::FunctionArg { ty: Type::DynamicBytes, arg_no: 0 }),
            }),
            self.cfg.blocks@[0].instr@[1] matches Instr::Assign { res, expr, .. } && res
                == ns.next_id + 1 && expr == (Expression::FunctionArg {
                ty: Type::Uint(ns.value_length as u16),
                arg_no: 1,
            }),
            forall|i: int|
                0 <= i < all_cfg@.len() && dispatchable(#[trigger] all_cfg@[i])
                    ==> all_cfg@[i].selector@.len() == ns.target.spec_selector_length(),
            all_cfg@.len() * 2 + 10 <= usize::MAX,
        ensures
            dispatch_cfg_shape(r, all_cfg@, *ns),
    {
        let mut this = self;
        // Go to fallback or receive if there is no selector in the call input
        let default = this.cfg.new_basic_block("fb_or_recv".to_owned());
        let start_dispatch = this.cfg.new_basic_block("start_dispatch".to_owned());
        this.cfg.set_basic_block(0);
        let selector_len = ns.target.selector_length();
        let bound = Expression::NumberLiteral {
            ty: Type::Uint(32),
            value: selector_len as u128,
        };
        let cond = Expression::Less {
            signed: false,
            left: Box::new(Expression::Variable { ty: Type::Uint(32), var_no: this.input }),
            right: Box::new(bound),
        };
        this.cfg.add(
            &mut this.vartab,
            Instr::BranchCond { cond, true_block: default, false_block: start_dispatch },
        );

        let selector_ty = Type::Uint(8 * selector_len as u16);
        let ghost value_ty = Type::Uint(ns.value_length as u16);
        let ghost pre = this;
        proof {
            assert(all_paths_terminate(this.cfg));
        }

        // One guarded case per public function or constructor
        let mut cases: Vec<(Expression, usize)> = Vec::new();
        let n = all_cfg.len();
        let mut msg_no: usize = 0;
        while msg_no < n
            invariant
                msg_no <= n,
                n == all_cfg@.len(),
                n * 2 + 10 <= usize::MAX,
                this.wf(*ns),
                this.input == pre.input,
                this.value == pre.value,
                this.vartab.next_id == pre.vartab.next_id,
                this.cfg.meta() == pre.cfg.meta(),
                this.cfg.blocks@.len() >= 4,
                this.cfg.blocks@.len() <= 4 + 2 * msg_no,
                forall|b: int| 0 <= b < 4 ==> this.cfg.blocks@[b] == pre.cfg.blocks@[b],
                pre.cfg.blocks@.len() == 4,
                pre.wf(*ns),
                selector_ty == Type::Uint((8 * ns.target.spec_selector_length()) as u16),
                value_ty == Type::Uint(ns.value_length as u16),
                selector_len == ns.target.spec_selector_length(),
                all_paths_terminate(this.cfg),
                cases_sound(this.cfg, cases@, all_cfg@, this.value, value_ty, selector_ty),
                forall|i: int|
                    0 <= i < msg_no && dispatchable(#[trigger] all_cfg@[i]) ==> exists|k: int|
                        0 <= k < cases@.len() && cases@[k].0 == (Expression::NumberLiteral {
                            ty: selector_ty,
                            value: le_value(all_cfg@[i].selector@) as u128,
                        }),
                forall|i: int|
                    0 <= i < all_cfg@.len() && dispatchable(#[trigger] all_cfg@[i])
                        ==> all_cfg@[i].selector@.len() == ns.target.spec_selector_length(),
                ns.value_length <= u16::MAX,
            decreases n - msg_no,
        {
            let msg_cfg = &all_cfg[msg_no];
            let is_candidate = msg_cfg.public && (match msg_cfg.ty {
                FunctionTy::Function => true,
                FunctionTy::Constructor => true,
                _ => false,
            });
            if !is_candidate {
                proof {
                    assert(!dispatchable(all_cfg@[msg_no as int]));
                }
            }
            if is_candidate {
                let ghost before = this;
                let case = this.dispatch_case(msg_cfg.nonpayable, ns);
                proof {
                    lemma_cases_preserved(
                        before.cfg,
                        this.cfg,
                        -1,
                        cases@,
                        all_cfg@,
                        this.value,
                        value_ty,
                        selector_ty,
                    );
                }
                let sel_usize = selector_len as usize;
                let lit_value = le_u128(&msg_cfg.selector, sel_usize);
                proof {
                    assert(msg_cfg.selector@.take(sel_usize as int) =~= msg_cfg.selector@);
                }
                let lit = Expression::NumberLiteral { ty: selector_ty.clone(), value: lit_value };
                let ghost old_cases = cases@;
                cases.push((lit, case));
                proof {
                    assert(dispatchable(all_cfg@[msg_no as int]));
                    assert(cases@[cases@.len() - 1].0 == (Expression::NumberLiteral {
                        ty: selector_ty,
                        value: le_value(all_cfg@[msg_no as int].selector@) as u128,
                    }));
                    assert forall|i: int|
                        0 <= i < msg_no + 1 && dispatchable(#[trigger] all_cfg@[i]) implies exists|
                        k: int,
                    |
                        0 <= k < cases@.len() && cases@[k].0 == (Expression::NumberLiteral {
                            ty: selector_ty,
                            value: le_value(all_cfg@[i].selector@) as u128,
                        }) by {
                        if i == msg_no as int {
                            assert(0 <= cases@.len() - 1 < cases@.len() && cases@[cases@.len()
                                - 1].0 == (Expression::NumberLiteral {
                                ty: selector_ty,
                                value: le_value(all_cfg@[i].selector@) as u128,
                            }));
                        } else {
                            let k = choose|k: int|
                                0 <= k < old_cases.len() && old_cases[k].0 == (
                                Expression::NumberLiteral {
                                    ty: selector_ty,
                                    value: le_value(all_cfg@[i].selector@) as u128,
                                });
                            assert(cases@[k] == old_cases[k]);
                            assert(0 <= k < cases@.len() && cases@[k].0 == (
                            Expression::NumberLiteral {
                                ty: selector_ty,
                                value: le_value(all_cfg@[i].selector@) as u128,
                            }));
                        }
                    }
                    assert(case_block_ok(
                        this.cfg,
                        case as int,
                        all_cfg@[msg_no as int],
                        1,
                        this.value,
                        value_ty,
                    ));
                    assert(switch_case_ok(
                        this.cfg,
                        cases@.last().0,
                        cases@.last().1 as int,
                        all_cfg@[msg_no as int],
                        this.value,
                        value_ty,
                        selector_ty,
                    ));
                    assert forall|k: int| 0 <= k < cases@.len() implies case_has_fn(
                        this.cfg,
                        #[trigger] cases@[k],
                        all_cfg@,
                        this.value,
                        value_ty,
                        selector_ty,
                    ) by {
                        if k < cases@.len() - 1 {
                            assert(case_has_fn(
                                this.cfg,
                                cases@[k],
                                all_cfg@,
                                this.value,
                                value_ty,
                                selector_ty,
                            ));
                        } else {
                            assert(case_has_fn(
                                this.cfg,
                                cases@[k],
                                all_cfg@,
                                this.value,
                                value_ty,
                                selector_ty,
                            ));
                        }
                    }
                }
            }
            msg_no += 1;
        }

        proof {
            assert(this.cfg.blocks@[0] == pre.cfg.blocks@[0]);
            assert(this.cfg.blocks@[2] == pre.cfg.blocks@[2]);
            assert(this.cfg.blocks@[3] == pre.cfg.blocks@[3]);
        }
        this.finish(cases, all_cfg, ns, default, start_dispatch)
    }

    /// Emit the selector switch and resolve the default, completing the
    /// entry point.
    #[verifier::rlimit(100)]
    pub fn finish(
        self,
        cases: Vec<(Expression, usize)>,
        all_cfg: &Vec<ControlFlowGraph>,
        ns: &Namespace,
        default: usize,
        start_dispatch: usize,
    ) -> (r: ControlFlowGraph)
        requires
            self.wf(*ns),
            ns.value_length <= u16::MAX,
            default == 2,
            start_dispatch == 3,
            self.cfg.blocks@.len() >= 4,
            self.cfg.blocks@.len() + 3 <= usize::MAX,
            self.cfg.blocks@[0].instr@.len() == 3,
            self.cfg.blocks@[0].instr@[0] matches Instr::Assign { res, expr, .. } && res
                == ns.next_id && expr == (Expression::ArrayLength {
                base: Box::new(Expression::FunctionArg { ty: Type::DynamicBytes, arg_no: 0 }),
            }),
            self.cfg.blocks@[0].instr@[1] matches Instr::Assign { res, expr, .. } && res
                == ns.next_id + 1 && expr == (Expression::FunctionArg {
                ty: Type::Uint(ns.value_length as u16),
                arg_no: 1,
            }),
            self.cfg.blocks@[0].instr@[2] == (Instr::BranchCond {
                cond: Expression::Less {
                    signed: false,
                    left: Box::new(
                        Expression::Variable { ty: Type::Uint(32), var_no: ns.next_id },
                    ),
                    right: Box::new(
                        Expression::NumberLiteral {
                            ty: Type::Uint(32),
                            value: ns.target.spec_selector_length() as u128,
                        },
                    ),
                },
                true_block: 2,
                false_block: 3,
            }),
            self.cfg.blocks@[2].instr@.len() == 0,
            self.cfg.blocks@[3].instr@.len() == 0,
            all_paths_terminate(self.cfg),
            cases_sound(
                self.cfg,
                cases@,
                all_cfg@,
                self.value,
                Type::Uint(ns.value_length as u16),
                Type::Uint((8 * ns.target.spec_selector_length()) as u16),
            ),
            cases_complete(
                cases@,
                all_cfg@,
                Type::Uint((8 * ns.target.spec_selector_length()) as u16),
            ),
        ensures
            dispatch_cfg_shape(r, all_cfg@, *ns),
    {
        let mut this = self;
        let selector_len = ns.target.selector_length();
        let selector_ty = Type::Uint(8 * selector_len as u16);
        let ghost value_ty = Type::Uint(ns.value_length as u16);
        proof {
            assert(selector_ty == Type::Uint((8 * ns.target.spec_selector_length()) as u16));
        }
        // The selector read and the switch over the collected cases
        this.cfg.set_basic_block(start_dispatch);
        let ghost before_switch = this;
        let offset = Expression::NumberLiteral { ty: selector_ty.clone(), value: 0 };
        let cond = Expression::ReadFromBuffer {
            ty: selector_ty.clone(),
            buffer: Box::new(Expression::FunctionArg { ty: Type::DynamicBytes, arg_no: 0 }),
            offset: Box::new(offset),
        };
        let ghost cases_snapshot = cases@;
        this.cfg.add(&mut this.vartab, Instr::Switch { cond, cases, default });
        proof {
            lemma_cases_preserved(
                before_switch.cfg,
                this.cfg,
                3,
                cases_snapshot,
                all_cfg@,
                this.value,
                value_ty,
                selector_ty,
            );
        }

        proof {
            assert(this.cfg.blocks@[3].instr@ =~= Seq::<Instr>::empty().push(
                this.cfg.blocks@[3].instr@.last(),
            ));
        }

        this.finish_default(Ghost(cases_snapshot), all_cfg, ns, default)
    }

    /// Resolve the default: fallback/receive routing or the invalid
    /// selector code, completing the entry point.
    #[verifier::rlimit(100)]
    #[verifier::spinoff_prover]
    pub fn finish_default(
        self,
        cases_snapshot: Ghost<Seq<(Expression, usize)>>,
        all_cfg: &Vec<ControlFlowGraph>,
        ns: &Namespace,
        default: usize,
    ) -> (r: ControlFlowGraph)
        requires
            self.wf(*ns),
            ns.value_length <= u16::MAX,
            default == 2,
            self.cfg.blocks@.len() >= 4,
            self.cfg.blocks@.len() + 2 < usize::MAX,
            self.cfg.blocks@[0].instr@.len() == 3,
            self.cfg.blocks@[0].instr@[0] matches Instr::Assign { res, expr, .. } && res
                == ns.next_id && expr == (Expression::ArrayLength {
                base: Box::new(Expression::FunctionArg { ty: Type::DynamicBytes, arg_no: 0 }),
            }),
            self.cfg.blocks@[0].instr@[1] matches Instr::Assign { res, expr, .. } && res
                == ns.next_id + 1 && expr == (Expression::FunctionArg {
                ty: Type::Uint(ns.value_length as u16),
                arg_no: 1,
            }),
            self.cfg.blocks@[0].instr@[2] == (Instr::BranchCond {
                cond: Expression::Less {
                    signed: false,
                    left: Box::new(
                        Expression::Variable { ty: Type::Uint(32), var_no: ns.next_id },
                    ),
                    right: Box::new(
                        Expression::NumberLiteral {
                            ty: Type::Uint(32),
                            value: ns.target.spec_selector_length() as u128,
                        },
                    ),
                },
                true_block: 2,
                false_block: 3,
            }),
            self.cfg.blocks@[2].instr@.len() == 0,
            self.cfg.blocks@[3].instr@.len() == 1,
            self.cfg.blocks@[3].instr@[0] matches Instr::Switch { cond, cases, default }
                && default == 2 && cond == (Expression::ReadFromBuffer {
                ty: Type::Uint((8 * ns.target.spec_selector_length()) as u16),
                buffer: Box::new(Expression::FunctionArg { ty: Type::DynamicBytes, arg_no: 0 }),
                offset: Box::new(
                    Expression::NumberLiteral {
                        ty: Type::Uint((8 * ns.target.spec_selector_length()) as u16),
                        value: 0,
                    },
                ),
            }) && cases@ == cases_snapshot@,
            all_paths_terminate(self.cfg),
            cases_sound(
                self.cfg,
                cases_snapshot@,
                all_cfg@,
                self.value,
                Type::Uint(ns.value_length as u16),
                Type::Uint((8 * ns.target.spec_selector_length()) as u16),
            ),
            cases_complete(
                cases_snapshot@,
                all_cfg@,
                Type::Uint((8 * ns.target.spec_selector_length()) as u16),
            ),
        ensures
            dispatch_cfg_shape(r, all_cfg@, *ns),
    {
        let mut this = self;
        let ghost value_ty = Type::Uint(ns.value_length as u16);
        let ghost selector_ty = Type::Uint((8 * ns.target.spec_selector_length()) as u16);
        // Handle fallback or receive case
        this.cfg.set_basic_block(default);
        let ghost before_default = this;
        proof {
            lemma_cases_preserved(
                self.cfg,
                before_default.cfg,
                -1,
                cases_snapshot@,
                all_cfg@,
                this.value,
                value_ty,
                selector_ty,
            );
        }
        this.fallback_or_receive(all_cfg, ns);
        proof {
            lemma_after_default(before_default, this, cases_snapshot@, all_cfg@, *ns);
        }
        this.cfg
    }
}


/// Assembling the final shape from the pre-default state and the effect
/// of resolving the default.
#[verifier::rlimit(100)]
#[verifier::spinoff_prover]
proof fn lemma_after_default(
    oldd: Dispatch,
    newd: Dispatch,
    cases: Seq<(Expression, usize)>,
    all: Seq<ControlFlowGraph>,
    ns: Namespace,
)
    requires
        fb_or_recv_post(oldd, newd, all, ns),
        oldd.cfg.blocks@.len() + 2 < usize::MAX,
        oldd.cfg.current == 2,
        oldd.value == ns.next_id + 1,
        oldd.cfg.blocks@.len() >= 4,
        oldd.cfg.blocks@[0].instr@.len() == 3,
        oldd.cfg.blocks@[0].instr@[0] matches Instr::Assign { res, expr, .. } && res == ns.next_id
            && expr == (Expression::ArrayLength {
            base: Box::new(Expression::FunctionArg { ty: Type::DynamicBytes, arg_no: 0 }),
        }),
        oldd.cfg.blocks@[0].instr@[1] matches Instr::Assign { res, expr, .. } && res == ns.next_id
            + 1 && expr == (Expression::FunctionArg {
            ty: Type::Uint(ns.value_length as u16),
            arg_no: 1,
        }),
        oldd.cfg.blocks@[0].instr@[2] == (Instr::BranchCond {
            cond: Expression::Less {
                signed: false,
                left: Box::new(Expression::Variable { ty: Type::Uint(32), var_no: ns.next_id }),
                right: Box::new(
                    Expression::NumberLiteral {
                        ty: Type::Uint(32),
                        value: ns.target.spec_selector_length() as u128,
                    },
                ),
            },
            true_block: 2,
            false_block: 3,
        }),
        oldd.cfg.blocks@[1].instr@.len() == 1,
        oldd.cfg.blocks@[1].instr@[0] matches Instr::AssertFailure { encoded_args } && encoded_args
            is None,
        oldd.cfg.blocks@[2].instr@.len() == 0,
        oldd.cfg.blocks@[3].instr@.len() == 1,
        oldd.cfg.blocks@[3].instr@[0] matches Instr::Switch { cond, cases: cs, default } && default
            == 2 && cond == (Expression::ReadFromBuffer {
            ty: Type::Uint((8 * ns.target.spec_selector_length()) as u16),
            buffer: Box::new(Expression::FunctionArg { ty: Type::DynamicBytes, arg_no: 0 }),
            offset: Box::new(
                Expression::NumberLiteral {
                    ty: Type::Uint((8 * ns.target.spec_selector_length()) as u16),
                    value: 0,
                },
            ),
        }) && cs@ == cases,
        all_paths_terminate(oldd.cfg),
        cases_sound(
            oldd.cfg,
            cases,
            all,
            oldd.value,
            Type::Uint(ns.value_length as u16),
            Type::Uint((8 * ns.target.spec_selector_length()) as u16),
        ),
        cases_complete(cases, all, Type::Uint((8 * ns.target.spec_selector_length()) as u16)),
    ensures
        dispatch_cfg_shape(newd.cfg, all, ns),
{
    let value_ty = Type::Uint(ns.value_length as u16);
    let selector_ty = Type::Uint((8 * ns.target.spec_selector_length()) as u16);
    lemma_cases_preserved(oldd.cfg, newd.cfg, 2, cases, all, oldd.value, value_ty, selector_ty);
    if !(spec_fallback(all) is None && spec_receive(all) is None) {
        let fbb = oldd.cfg.blocks@.len() as int;
        assert(newd.cfg.blocks@[2].instr@.len() == 1);
        assert(handler_block_ok(newd.cfg.blocks@[fbb], spec_fallback(all)));
        assert(handler_block_ok(newd.cfg.blocks@[fbb + 1], spec_receive(all)));
    }
    assert(all_paths_terminate(newd.cfg)) by {
        assert forall|b: int|
            0 <= b < newd.cfg.blocks@.len() implies ((#[trigger] newd.cfg.blocks@[b]).instr@.len()
            == 0 || terminates_path(newd.cfg.blocks@[b].instr@.last())) by {
            if b < oldd.cfg.blocks@.len() && b != 2 {
                assert(newd.cfg.blocks@[b] == oldd.cfg.blocks@[b]);
            }
        }
    }
    let r = newd.cfg;
    assert(r.wf());
    assert(r.blocks@.len() >= 4);
    assert(r.blocks@[0] == oldd.cfg.blocks@[0]);
    assert(r.blocks@[1] == oldd.cfg.blocks@[1]);
    assert(r.blocks@[3] == oldd.cfg.blocks@[3]);
    assert(r.blocks@[0].instr@.len() == 3);
    assert(r.blocks@[0].instr@[2] == (Instr::BranchCond {
        cond: Expression::Less {
            signed: false,
            left: Box::new(Expression::Variable { ty: Type::Uint(32), var_no: ns.next_id }),
            right: Box::new(
                Expression::NumberLiteral {
                    ty: Type::Uint(32),
                    value: ns.target.spec_selector_length() as u128,
                },
            ),
        },
        true_block: 2,
        false_block: 3,
    }));
    assert(r.blocks@[3].instr@[0] matches Instr::Switch { cond, cases: cs, default } && default
        == 2 && cond == (Expression::ReadFromBuffer {
        ty: selector_ty,
        buffer: Box::new(Expression::FunctionArg { ty: Type::DynamicBytes, arg_no: 0 }),
        offset: Box::new(Expression::NumberLiteral { ty: selector_ty, value: 0 }),
    }) && cases_sound(r, cs@, all, (ns.next_id + 1) as usize, value_ty, selector_ty)
        && cases_complete(cs@, all, selector_ty));
    if spec_fallback(all) is None && spec_receive(all) is None {
        assert(r.blocks@[2].instr@.len() == 1 && r.blocks@[2].instr@[0] == (Instr::ReturnCode {
            code: ReturnCode::FunctionSelectorInvalid,
        }));
    } else {
        assert(r.blocks@[2].instr@.len() == 1 && (r.blocks@[2].instr@[0]
            matches Instr::BranchCond { cond, true_block, false_block } && cond
            == (Expression::More {
            signed: false,
            left: Box::new(
                Expression::Variable { ty: value_ty, var_no: (ns.next_id + 1) as usize },
            ),
            right: Box::new(Expression::NumberLiteral { ty: value_ty, value: 0 }),
        }) && 4 <= false_block && false_block + 1 == true_block && true_block < r.blocks@.len()
            && handler_block_ok(r.blocks@[false_block as int], spec_fallback(all))
            && handler_block_ok(r.blocks@[true_block as int], spec_receive(all))));
    }
    assert(dispatch_cfg_shape(newd.cfg, all, ns));
}

/// Synthesize the universal entry point for one contract from the lowered
/// graphs of all its functions.
pub fn function_dispatch(
    _contract_no: usize,
    all_cfg: &Vec<ControlFlowGraph>,
    ns: &Namespace,
) -> (r: ControlFlowGraph)
    requires
        ns.next_id + 2 < usize::MAX,
        ns.value_length <= u16::MAX,
        forall|i: int|
            0 <= i < all_cfg@.len() && dispatchable(#[trigger] all_cfg@[i])
                ==> all_cfg@[i].selector@.len() == ns.target.spec_selector_length(),
        all_cfg@.len() * 2 + 10 <= usize::MAX,
    ensures
        dispatch_cfg_shape(r, all_cfg@, *ns),
{
    Dispatch::new(ns).build(all_cfg, ns)
}

} // verus!
