//! Lowering of try/catch: execute an external call or constructor,
//! collect the error return data on failure, dispatch declared error
//! clauses by the four-byte error selector, re-raise unmatched errors
//! when no catch-all exists, and reconcile the phi set of the join block.
//!
//! Clause bodies arrive already lowered to straight-line instructions by
//! the statement pass, together with whether control can reach their end.

use vstd::prelude::*;

use crate::ast::{Loc, Parameter, Type};
use crate::cfg::{assigned_set, assigned_vars, is_terminator, lemma_assigned_set_push,
    ControlFlowGraph, Expression, ExprV, Instr};
use crate::encoding::ScaleEncoding;
use crate::vartable::{no_dups, Vartable};

verus! {

/// The four-byte selector of the string-carrying `Error` revert payload.
pub const ERROR_SELECTOR: u32 = 0x08c379a0;

/// The four-byte selector of the numeric `Panic` revert payload.
pub const PANIC_SELECTOR: u32 = 0x4e487b71;

/// A statement list after lowering: straight-line instructions, plus
/// whether control can reach the end of the list.
pub struct LoweredBody {
    pub instrs: Vec<Instr>,
    pub reachable: bool,
}

impl LoweredBody {
    /// No terminator anywhere but at the very end, and `reachable` says
    /// whether the end is fall-through.
    pub open spec fn wf(self) -> bool {
        &&& forall|k: int|
            0 <= k < self.instrs@.len() - 1 ==> !is_terminator(#[trigger] self.instrs@[k])
        &&& self.reachable <==> (self.instrs@.len() == 0 || !is_terminator(
            self.instrs@.last(),
        ))
    }
}

/// One catch clause: the bound variable position, the declared payload
/// type, and the lowered body.
pub struct CatchClause {
    pub param_pos: Option<usize>,
    pub param_ty: Option<Type>,
    pub body: LoweredBody,
}

/// The try/catch statement as the lowering consumes it. The callee and
/// argument expressions were lowered by the expression pass.
pub struct TryCatch {
    pub expr: TryExpr,
    pub return_binds: Vec<(Option<usize>, Parameter)>,
    pub ok_body: LoweredBody,
    pub errors: Vec<CatchClause>,
    pub catch_all: Option<CatchClause>,
}

/// What the `try` executes: an external function call or a contract
/// constructor.
pub enum TryExpr {
    ExternalCall {
        function: Expression,
        args: Vec<Expression>,
        value: Option<Expression>,
        gas: Option<Expression>,
        flags: Option<Expression>,
        return_tys: Vec<Type>,
    },
    ConstructorCall {
        contract_no: usize,
        constructor_no: Option<usize>,
        args: Vec<Expression>,
        value: Option<Expression>,
        gas: Option<Expression>,
        salt: Option<Expression>,
    },
}

/// The expected error selector of a clause payload type: only the
/// string-carrying `Error` and the numeric `Panic` can be caught; any
/// other type here means an upstream invariant was broken.
pub open spec fn spec_clause_selector(ty: Type) -> Option<u32> {
    match ty {
        Type::Str => Option::Some(ERROR_SELECTOR),
        Type::Uint(bits) => if bits == 256 {
            Option::Some(PANIC_SELECTOR)
        } else {
            Option::None
        },
        _ => Option::None,
    }
}

/// Executable mirror of `spec_clause_selector`.
pub fn clause_selector(ty: &Type) -> (r: Option<u32>)
    ensures
        r == spec_clause_selector(*ty),
{
    match ty {
        Type::Str => Option::Some(ERROR_SELECTOR),
        Type::Uint(bits) => if *bits == 256 {
            Option::Some(PANIC_SELECTOR)
        } else {
            Option::None
        },
        _ => Option::None,
    }
}

/// A clause may be entered at all: it binds one of the two supported
/// payload kinds.
pub open spec fn clause_supported(c: CatchClause) -> bool {
    c.param_ty matches Option::Some(ty) && spec_clause_selector(ty) is Some
}

/// The big-endian value of the first four bytes: how a four-byte
/// selector read compares against a `bytes4` literal.
pub open spec fn be_u32(b: Seq<u8>) -> u32
    recommends
        b.len() >= 4,
{
    (b[0] * 0x1000000 + b[1] * 0x10000 + b[2] * 0x100 + b[3]) as u32
}

/// The first clause, in source order, whose expected selector equals
/// `sel`.
pub open spec fn first_matching_clause(errors: Seq<CatchClause>, sel: u32) -> Option<int>
    decreases errors.len(),
{
    if errors.len() == 0 {
        Option::None
    } else if errors[0].param_ty matches Option::Some(ty) && spec_clause_selector(ty)
        == Option::Some(sel) {
        Option::Some(0)
    } else {
        match first_matching_clause(errors.drop_first(), sel) {
            Option::Some(i) => Option::Some(i + 1),
            Option::None => Option::None,
        }
    }
}

/// Which handler a given error buffer reaches in the lowered catch
/// region.
#[derive(Clone, Copy, PartialEq, Eq, Structural, Debug)]
pub enum CatchOutcome {
    /// The error selector matched declared clause `i`.
    Clause(usize),
    /// No clause matched (or the buffer is too short) and the catch-all
    /// takes the raw buffer.
    CatchAll,
    /// No clause matched and there is no catch-all: the failure is
    /// re-raised with the original error buffer as payload.
    Bubble,
}

/// Decide which handler error data reaches: buffers of four bytes or
/// fewer skip clause dispatch entirely; otherwise the first clause whose
/// selector equals the buffer's leading four bytes wins; unmatched data
/// falls to the catch-all, or bubbles unchanged when none exists.
pub fn catch_selection(
    errors: &Vec<CatchClause>,
    has_catch_all: bool,
    error_data: &Vec<u8>,
) -> (r: CatchOutcome)
    requires
        forall|j: int| 0 <= j < errors@.len() ==> clause_supported(#[trigger] errors@[j]),
    ensures
        error_data@.len() <= 4 ==> r == (if has_catch_all {
            CatchOutcome::CatchAll
        } else {
            CatchOutcome::Bubble
        }),
        error_data@.len() > 4 ==> r == (match first_matching_clause(
            errors@,
            be_u32(error_data@),
        ) {
            Option::Some(i) => CatchOutcome::Clause(i as usize),
            Option::None => if has_catch_all {
                CatchOutcome::CatchAll
            } else {
                CatchOutcome::Bubble
            },
        }),
        r is Bubble <==> !has_catch_all && (error_data@.len() <= 4 || first_matching_clause(
            errors@,
            be_u32(error_data@),
        ) is None),
{
    if error_data.len() <= 4 {
        if has_catch_all {
            return CatchOutcome::CatchAll;
        }
        return CatchOutcome::Bubble;
    }
    let sel: u32 = error_data[0] as u32 * 0x1000000 + error_data[1] as u32 * 0x10000
        + error_data[2] as u32 * 0x100 + error_data[3] as u32;
    let n = errors.len();
    let mut j: usize = 0;
    proof {
        assert(errors@.skip(0) =~= errors@);
    }
    while j < n
        invariant
            j <= n,
            n == errors@.len(),
            sel == be_u32(error_data@),
            error_data@.len() > 4,
            forall|k: int| 0 <= k < errors@.len() ==> clause_supported(#[trigger] errors@[k]),
            first_matching_clause(errors@.skip(j as int), sel) matches Option::Some(i)
                ==> first_matching_clause(errors@, sel) == Option::Some(i + j),
            first_matching_clause(errors@.skip(j as int), sel) is None
                ==> first_matching_clause(errors@, sel) is None,
        decreases n - j,
    {
        let matched = match &errors[j].param_ty {
            Option::Some(ty) => {
                match clause_selector(ty) {
                    Option::Some(s) => s == sel,
                    Option::None => false,
                }
            },
            Option::None => false,
        };
        proof {
            assert(errors@.skip(j as int)[0] == errors@[j as int]);
            assert(errors@.skip(j as int).drop_first() =~= errors@.skip(j + 1));
        }
        if matched {
            proof {
                assert(first_matching_clause(errors@.skip(j as int), sel) == Option::Some(0int));
            }
            return CatchOutcome::Clause(j);
        }
        j += 1;
    }
    proof {
        assert(errors@.skip(n as int) =~= Seq::<CatchClause>::empty());
        assert(first_matching_clause(errors@, sel) is None);
    }
    if has_catch_all {
        CatchOutcome::CatchAll
    } else {
        CatchOutcome::Bubble
    }
}

/// Append an already-lowered body to the current block; when control can
/// reach its end, close the path with a branch to `finally_block`. A body
/// that provably diverges contributes no edge into the join block.
pub fn append_body(
    cfg: &mut ControlFlowGraph,
    vartab: &mut Vartable,
    body: LoweredBody,
    finally_block: usize,
) -> (reachable: bool)
    requires
        old(cfg).wf(),
        old(cfg).blocks@[old(cfg).current as int].is_open(),
        old(vartab).wf(),
        body.wf(),
    ensures
        final(cfg).wf(),
        final(vartab).wf(),
        reachable == body.reachable,
        final(vartab).vars == old(vartab).vars,
        final(vartab).next_id == old(vartab).next_id,
        final(vartab).dirty@.len() == old(vartab).dirty@.len(),
        // every open tracker gains exactly what the body assigns
        forall|t: int|
            0 <= t < final(vartab).dirty@.len() ==> #[trigger] final(vartab).tracker_set(t)
                == old(vartab).tracker_set(t).union(assigned_set(body.instrs@)),
        final(cfg).blocks@.len() == old(cfg).blocks@.len(),
        final(cfg).current == old(cfg).current,
        final(cfg).meta() == old(cfg).meta(),
        forall|b: int|
            0 <= b < final(cfg).blocks@.len() && b != old(cfg).current as int ==> final(cfg).blocks@[b] == old(cfg).blocks@[b],
        final(cfg).blocks@[old(cfg).current as int].phis == old(cfg).blocks@[old(
            cfg,
        ).current as int].phis,
        body.reachable ==> final(cfg).blocks@[old(cfg).current as int].instr@ == old(
            cfg,
        ).blocks@[old(cfg).current as int].instr@ + body.instrs@ + seq![
            Instr::Branch { block: finally_block },
        ],
        !body.reachable ==> final(cfg).blocks@[old(cfg).current as int].instr@ == old(
            cfg,
        ).blocks@[old(cfg).current as int].instr@ + body.instrs@,
{
    let LoweredBody { instrs, reachable } = body;
    let n = instrs.len();
    let mut i: usize = 0;
    let mut rest = instrs;
    let ghost body_instrs = rest@;
    // consume the body front to back
    while i < n
        invariant
            i <= n,
            n == body_instrs.len(),
            rest@ == body_instrs.skip(i as int),
            cfg.wf(),
            vartab.wf(),
            vartab.vars == old(vartab).vars,
            vartab.next_id == old(vartab).next_id,
            vartab.dirty@.len() == old(vartab).dirty@.len(),
            forall|t: int|
                0 <= t < vartab.dirty@.len() ==> #[trigger] vartab.tracker_set(t) == old(
                    vartab,
                ).tracker_set(t).union(assigned_set(body_instrs.take(i as int))),
            cfg.blocks@.len() == old(cfg).blocks@.len(),
            cfg.current == old(cfg).current,
            cfg.meta() == old(cfg).meta(),
            forall|b: int|
                0 <= b < cfg.blocks@.len() && b != old(cfg).current as int ==> cfg.blocks@[b]
                    == old(cfg).blocks@[b],
            cfg.blocks@[old(cfg).current as int].instr@ == old(cfg).blocks@[old(
                cfg,
            ).current as int].instr@ + body_instrs.take(i as int),
            cfg.blocks@[old(cfg).current as int].phis == old(cfg).blocks@[old(
                cfg,
            ).current as int].phis,
            forall|k: int| 0 <= k < body_instrs.len() - 1 ==> !is_terminator(#[trigger] body_instrs[k]),
            reachable <==> (body_instrs.len() == 0 || !is_terminator(body_instrs.last())),
            old(cfg).blocks@[old(cfg).current as int].is_open(),
            i < n || n == 0 || reachable ==> cfg.blocks@[cfg.current as int].is_open(),
        decreases n - i,
    {
        let ins = rest.remove(0);
        proof {
            assert(ins == body_instrs[i as int]);
            assert(rest@ =~= body_instrs.skip(i + 1));
            assert(cfg.blocks@[cfg.current as int].is_open()) by {
                let cur = cfg.blocks@[old(cfg).current as int].instr@;
                if i > 0 {
                    assert(cur.last() == body_instrs[i - 1]);
                    assert(!is_terminator(body_instrs[i - 1]));
                }
            }
        }
        let ghost vt_pre = *vartab;
        cfg.add(vartab, ins);
        proof {
            assert(cfg.blocks@[old(cfg).current as int].instr@ =~= old(cfg).blocks@[old(
                cfg,
            ).current as int].instr@ + body_instrs.take(i + 1));
            assert(body_instrs.take(i + 1) =~= body_instrs.take(i as int).push(ins));
            lemma_assigned_set_push(body_instrs.take(i as int), ins);
            assert forall|t: int| 0 <= t < vartab.dirty@.len() implies #[trigger] vartab.tracker_set(
                t,
            ) == old(vartab).tracker_set(t).union(assigned_set(body_instrs.take(i + 1))) by {
                assert(vartab.tracker_set(t) == vt_pre.tracker_set(t).union(
                    assigned_vars(ins).to_set(),
                ));
                assert(old(vartab).tracker_set(t).union(assigned_set(body_instrs.take(i as int))).union(
                    assigned_vars(ins).to_set(),
                ) =~= old(vartab).tracker_set(t).union(
                    assigned_set(body_instrs.take(i as int)).union(assigned_vars(ins).to_set()),
                ));
            }
        }
        i += 1;
    }
    proof {
        assert(body_instrs.take(n as int) =~= body_instrs);
        assert(assigned_set(Seq::<Instr>::empty()) =~= Set::<usize>::empty());
    }
    if reachable {
        proof {
            assert(cfg.blocks@[cfg.current as int].is_open());
        }
        cfg.add(vartab, Instr::Branch { block: finally_block });
        proof {
            assert(cfg.blocks@[old(cfg).current as int].instr@ =~= old(cfg).blocks@[old(
                cfg,
            ).current as int].instr@ + body_instrs + seq![
                Instr::Branch { block: finally_block },
            ]);
        }
    }
    reachable
}

/// Execute the success branch in the `ok` block; if its last statement is
/// reachable, branch on to `finally`.
pub fn insert_success_code_block(
    ok_body: LoweredBody,
    cfg: &mut ControlFlowGraph,
    vartab: &mut Vartable,
    ok_block: usize,
    finally_block: usize,
) -> (reachable: bool)
    requires
        old(cfg).wf(),
        ok_block < old(cfg).blocks@.len(),
        old(cfg).blocks@[ok_block as int].is_open(),
        old(vartab).wf(),
        ok_body.wf(),
    ensures
        final(cfg).wf(),
        final(vartab).wf(),
        reachable == ok_body.reachable,
        final(vartab).vars == old(vartab).vars,
        final(vartab).next_id == old(vartab).next_id,
        final(vartab).dirty@.len() == old(vartab).dirty@.len(),
        // every open tracker gains exactly what the body assigns
        forall|t: int|
            0 <= t < final(vartab).dirty@.len() ==> #[trigger] final(vartab).tracker_set(t)
                == old(vartab).tracker_set(t).union(assigned_set(ok_body.instrs@)),
        final(cfg).blocks@.len() == old(cfg).blocks@.len(),
        final(cfg).meta() == old(cfg).meta(),
        forall|b: int|
            0 <= b < final(cfg).blocks@.len() && b != ok_block ==> final(cfg).blocks@[b] == old(
                cfg,
            ).blocks@[b],
        ok_body.reachable ==> final(cfg).blocks@[ok_block as int].instr@ == old(
            cfg,
        ).blocks@[ok_block as int].instr@ + ok_body.instrs@ + seq![
            Instr::Branch { block: finally_block },
        ],
        !ok_body.reachable ==> final(cfg).blocks@[ok_block as int].instr@ == old(
            cfg,
        ).blocks@[ok_block as int].instr@ + ok_body.instrs@,
{
    cfg.set_basic_block(ok_block);
    append_body(cfg, vartab, ok_body, finally_block)
}

/// The three continuations of a checked external call: clean success,
/// failure with revert data, and failure without data.
pub struct RetCodeCheck {
    pub success: usize,
    pub revert: usize,
    pub error_no_data: usize,
}

/// The success check appended after a call whose blocks start at `base`:
/// the entry branches on the captured flag (success at `base`, the
/// failure check at `base + 3`), and the failure check branches on
/// whether the callee left return data (revert at `base + 1`, no data at
/// `base + 2`).
pub open spec fn ret_check_shape(
    cfg: ControlFlowGraph,
    entry: int,
    base: int,
    success_var: usize,
) -> bool {
    &&& 0 <= entry < cfg.blocks@.len()
    &&& base + 3 < cfg.blocks@.len()
    &&& cfg.blocks@[entry].instr@.len() > 0
    &&& cfg.blocks@[entry].instr@.last() == (Instr::BranchCond {
        cond: Expression::Variable { ty: Type::Bool, var_no: success_var },
        true_block: base as usize,
        false_block: (base + 3) as usize,
    })
    &&& cfg.blocks@[base + 3].instr@ == seq![
        Instr::BranchCond {
            cond: Expression::More {
                signed: false,
                left: Box::new(
                    Expression::ArrayLength { base: Box::new(Expression::ReturnData) },
                ),
                right: Box::new(Expression::NumberLiteral { ty: Type::Uint(32), value: 0 }),
            },
            true_block: (base + 1) as usize,
            false_block: (base + 2) as usize,
        },
    ]
}

/// Branch on the captured success flag and, on failure, on whether the
/// callee left return data; each continuation starts as a fresh block.
fn ret_code_check(
    success_var: usize,
    vartab: &mut Vartable,
    cfg: &mut ControlFlowGraph,
) -> (cases: RetCodeCheck)
    requires
        old(cfg).wf(),
        old(cfg).blocks@[old(cfg).current as int].is_open(),
        old(vartab).wf(),
        old(cfg).blocks@.len() + 4 < usize::MAX,
    ensures
        final(cfg).wf(),
        final(vartab).wf(),
        *final(vartab) == *old(vartab),
        final(cfg).meta() == old(cfg).meta(),
        final(cfg).blocks@.len() == old(cfg).blocks@.len() + 4,
        forall|b: int|
            0 <= b < old(cfg).blocks@.len() && b != old(cfg).current as int ==> final(cfg).blocks@[b] == old(cfg).blocks@[b],
        cases.success == old(cfg).blocks@.len(),
        cases.revert == old(cfg).blocks@.len() + 1,
        cases.error_no_data == old(cfg).blocks@.len() + 2,
        final(cfg).blocks@[cases.success as int].instr@.len() == 0,
        final(cfg).blocks@[cases.revert as int].instr@.len() == 0,
        final(cfg).blocks@[cases.error_no_data as int].instr@.len() == 0,
        final(cfg).blocks@[old(cfg).current as int].instr@ == old(cfg).blocks@[old(
            cfg,
        ).current as int].instr@.push(final(cfg).blocks@[old(cfg).current as int].instr@.last()),
        ret_check_shape(
            *final(cfg),
            old(cfg).current as int,
            old(cfg).blocks@.len() as int,
            success_var,
        ),
{
    let success = cfg.new_basic_block("success".to_owned());
    let revert = cfg.new_basic_block("revert".to_owned());
    let error_no_data = cfg.new_basic_block("error_no_data".to_owned());
    let fail = cfg.new_basic_block("fail".to_owned());
    cfg.add(
        vartab,
        Instr::BranchCond {
            cond: Expression::Variable { ty: Type::Bool, var_no: success_var },
            true_block: success,
            false_block: fail,
        },
    );
    cfg.set_basic_block(fail);
    cfg.add(
        vartab,
        Instr::BranchCond {
            cond: Expression::More {
                signed: false,
                left: Box::new(
                    Expression::ArrayLength { base: Box::new(Expression::ReturnData) },
                ),
                right: Box::new(
                    Expression::NumberLiteral { ty: Type::Uint(32), value: 0 },
                ),
            },
            true_block: revert,
            false_block: error_no_data,
        },
    );
    proof {
        assert(cfg.blocks@[fail as int].instr@ =~= seq![
            Instr::BranchCond {
                cond: Expression::More {
                    signed: false,
                    left: Box::new(
                        Expression::ArrayLength { base: Box::new(Expression::ReturnData) },
                    ),
                    right: Box::new(
                        Expression::NumberLiteral { ty: Type::Uint(32), value: 0 },
                    ),
                },
                true_block: revert,
                false_block: error_no_data,
            },
        ]);
    }
    RetCodeCheck { success, revert, error_no_data }
}

/// Emit the `try` expression itself: lower the call or constructor, with
/// defaults for value and gas, capture the success flag, and hand back
/// the three continuations and the callee's declared return types.
pub fn exec_try(
    try_expr: &TryExpr,
    return_binds: &Vec<(Option<usize>, Parameter)>,
    cfg: &mut ControlFlowGraph,
    vartab: &mut Vartable,
) -> (r: (RetCodeCheck, Vec<Type>))
    requires
        old(cfg).wf(),
        old(cfg).blocks@[old(cfg).current as int].is_open(),
        old(vartab).wf(),
        old(vartab).next_id + 4 < usize::MAX,
        old(cfg).blocks@.len() + 8 < usize::MAX,
    ensures
        final(cfg).wf(),
        final(vartab).wf(),
        final(vartab).dirty@.len() == old(vartab).dirty@.len(),
        final(vartab).next_id >= old(vartab).next_id,
        final(vartab).next_id <= old(vartab).next_id + 2,
        final(cfg).meta() == old(cfg).meta(),
        final(cfg).blocks@.len() >= old(cfg).blocks@.len() + 4,
        final(cfg).blocks@.len() <= old(cfg).blocks@.len() + 4,
        forall|b: int|
            0 <= b < old(cfg).blocks@.len() && b != old(cfg).current as int ==> final(cfg).blocks@[b] == old(cfg).blocks@[b],
        r.0.success < final(cfg).blocks@.len(),
        r.0.revert < final(cfg).blocks@.len(),
        r.0.error_no_data < final(cfg).blocks@.len(),
        r.0.success != r.0.revert && r.0.revert != r.0.error_no_data && r.0.success
            != r.0.error_no_data,
        r.0.success >= old(cfg).blocks@.len(),
        r.0.revert >= old(cfg).blocks@.len(),
        r.0.error_no_data >= old(cfg).blocks@.len(),
        final(cfg).blocks@[r.0.success as int].instr@.len() == 0,
        final(cfg).blocks@[r.0.revert as int].instr@.len() == 0,
        final(cfg).blocks@[r.0.error_no_data as int].instr@.len() == 0,
        *try_expr matches TryExpr::ExternalCall { return_tys, .. } ==> r.1@ == return_tys@,
        *try_expr matches TryExpr::ConstructorCall { .. } ==> r.1@.len() == 0,
        r.0.success == old(cfg).blocks@.len(),
        r.0.revert == old(cfg).blocks@.len() + 1,
        r.0.error_no_data == old(cfg).blocks@.len() + 2,
        ret_check_shape(
            *final(cfg),
            old(cfg).current as int,
            old(cfg).blocks@.len() as int,
            old(vartab).next_id as usize,
        ),
        // the external call: encode [selector, arguments] into a fresh
        // buffer, then the call itself capturing the fresh success flag,
        // with zero value and gas defaults
        *try_expr matches TryExpr::ExternalCall { function, args, value, gas, flags, .. } ==> {
            let eb = final(cfg).blocks@[old(cfg).current as int].instr@;
            let pre_len = old(cfg).blocks@[old(cfg).current as int].instr@.len() as int;
            &&& eb.len() == pre_len + 3
            &&& eb[pre_len] matches Instr::Assign { res, expr, .. } && res == old(vartab).next_id
                + 1 && (expr matches Expression::AbiEncode { packed, args: eargs, .. }
                && packed@.len() == 0 && eargs@.len() == args@.len() + 1 && eargs@[0].deep_view()
                == (ExprV::ExternalFunctionSelector { function: Box::new(function.deep_view()) })
                && (forall|k: int|
                0 <= k < args@.len() ==> eargs@[k + 1].deep_view() == args@[k].deep_view()))
            &&& eb[pre_len + 1] matches Instr::ExternalCall {
                success,
                address,
                payload,
                value: v,
                gas: g,
                flags: fl,
            } && success == Option::Some(old(vartab).next_id) && (address matches Option::Some(a)
                && a.deep_view() == (ExprV::ExternalFunctionAddress {
                function: Box::new(function.deep_view()),
            })) && payload == (Expression::Variable {
                ty: Type::DynamicBytes,
                var_no: (old(vartab).next_id + 1) as usize,
            }) && (value matches Option::Some(ve) ==> v.deep_view() == ve.deep_view()) && (value
                is None ==> v == (Expression::NumberLiteral { ty: Type::Value, value: 0 })) && (
            gas matches Option::Some(ge) ==> g.deep_view() == ge.deep_view()) && (gas is None ==> g
                == (Expression::NumberLiteral { ty: Type::Uint(64), value: 0 })) && (flags
                matches Option::Some(fe) ==> fl matches Option::Some(fv) && fv.deep_view()
                == fe.deep_view()) && (flags is None ==> fl is None)
        },
        // the constructor call, binding the new address and capturing the
        // fresh success flag
        *try_expr matches TryExpr::ConstructorCall {
            contract_no,
            constructor_no,
            args,
            value,
            gas,
            salt,
        } ==> {
            let eb = final(cfg).blocks@[old(cfg).current as int].instr@;
            let pre_len = old(cfg).blocks@[old(cfg).current as int].instr@.len() as int;
            &&& eb.len() == pre_len + 2
            &&& eb[pre_len] matches Instr::Constructor {
                success,
                res,
                contract_no: cn,
                constructor_no: cno,
                args: cargs,
                value: v,
                gas: g,
                salt: st,
            } && success == Option::Some(old(vartab).next_id) && cn == contract_no && cno
                == constructor_no && cargs@.len() == args@.len() && (forall|k: int|
                0 <= k < args@.len() ==> cargs@[k].deep_view() == args@[k].deep_view()) && (
            return_binds@.len() > 0 ==> (return_binds@[0].0 matches Option::Some(pos) ==> res
                == pos))
                && (value matches Option::Some(ve) ==> v matches Option::Some(vv)
                && vv.deep_view() == ve.deep_view()) && (value is None ==> v is None) && (gas
                matches Option::Some(ge) ==> g.deep_view() == ge.deep_view()) && (gas is None ==> g
                == (Expression::NumberLiteral { ty: Type::Uint(64), value: 0 })) && (salt
                matches Option::Some(se) ==> st matches Option::Some(sv) && sv.deep_view()
                == se.deep_view()) && (salt is None ==> st is None)
        },
{
    let success = vartab.temp_name("success", &Type::Bool);
    match try_expr {
        TryExpr::ExternalCall { function, args, value, gas, flags, return_tys } => {
            let value_expr = match value {
                Option::Some(v) => v.clone(),
                Option::None => Expression::NumberLiteral { ty: Type::Value, value: 0 },
            };
            let gas_expr = match gas {
                Option::Some(g) => g.clone(),
                Option::None => Expression::NumberLiteral { ty: Type::Uint(64), value: 0 },
            };
            let selector = function.external_function_selector();
            let address = function.external_function_address();

            // the payload starts with the selector, then the arguments
            let mut payload_args: Vec<Expression> = Vec::new();
            payload_args.push(selector);
            let n = args.len();
            let mut i: usize = 0;
            while i < n
                invariant
                    i <= n,
                    n == args@.len(),
                    payload_args@.len() == i + 1,
                    payload_args@[0].deep_view() == (ExprV::ExternalFunctionSelector {
                        function: Box::new(function.deep_view()),
                    }),
                    forall|k: int|
                        0 <= k < i ==> payload_args@[k + 1].deep_view() == args@[k].deep_view(),
                decreases n - i,
            {
                payload_args.push(args[i].clone());
                i += 1;
            }
            let ghost payload_views = payload_args.deep_view();
            let ghost entry = old(cfg).current as int;
            let ghost pre_len = old(cfg).blocks@[entry].instr@.len() as int;
            let (payload, _len) = crate::encoding::abi_encode(payload_args, vartab, cfg, false);
            let ghost mid_eb = cfg.blocks@[entry].instr@;
            proof {
                assert(cfg.blocks@[cfg.current as int].instr@.last() matches Instr::Assign {
                    ..
                });
                assert(!is_terminator(cfg.blocks@[cfg.current as int].instr@.last()));
                assert(cfg.blocks@[cfg.current as int].is_open());
            }

            let flags_expr = match flags {
                Option::Some(f) => Option::Some(f.clone()),
                Option::None => Option::None,
            };
            cfg.add(
                vartab,
                Instr::ExternalCall {
                    success: Option::Some(success),
                    address: Option::Some(address),
                    payload,
                    value: value_expr,
                    gas: gas_expr,
                    flags: flags_expr,
                },
            );
            proof {
                let eb = cfg.blocks@[entry].instr@;
                assert(eb == mid_eb.push(eb.last()));
                assert(eb[pre_len] == mid_eb[pre_len]);
                assert(mid_eb[pre_len] == mid_eb.last());
                assert(eb[pre_len] matches Instr::Assign { .. });
                assert(eb.last() matches Instr::ExternalCall { .. });
            }
            let ghost pre_rc_eb = cfg.blocks@[entry].instr@;
            let cases = ret_code_check(success, vartab, cfg);
            proof {
                let eb = cfg.blocks@[entry].instr@;
                assert(eb == pre_rc_eb.push(eb.last()));
                assert(eb.len() == pre_len + 3);
                assert(eb[pre_len] == pre_rc_eb[pre_len]);
                assert(eb[pre_len + 1] == pre_rc_eb[pre_len + 1]);
                assert(eb[pre_len] == mid_eb.last());
                assert(eb[pre_len] matches Instr::Assign { res, .. } && res == old(
                    vartab,
                ).next_id + 1);
                assert(eb[pre_len] matches Instr::Assign { expr, .. } && (expr
                    matches Expression::AbiEncode { packed, .. } && packed@.len() == 0));
                assert(eb[pre_len] matches Instr::Assign { expr, .. } && (expr
                    matches Expression::AbiEncode { args: eargs, .. } && eargs@.len()
                    == args@.len() + 1));
                assert(eb[pre_len] matches Instr::Assign { expr, .. } && (expr
                    matches Expression::AbiEncode { args: eargs, .. } && eargs@[0].deep_view()
                    == (ExprV::ExternalFunctionSelector {
                    function: Box::new(function.deep_view()),
                })));
                assert(eb[pre_len] matches Instr::Assign { expr, .. } && (expr
                    matches Expression::AbiEncode { args: eargs, .. } && (forall|k: int|
                    0 <= k < args@.len() ==> eargs@[k + 1].deep_view() == args@[
                        k
                    ].deep_view())));
                assert(eb[pre_len + 1] matches Instr::ExternalCall { success: sv, .. } && sv
                    == Option::Some(old(vartab).next_id));
            }
            let mut ret_tys: Vec<Type> = Vec::new();
            let m = return_tys.len();
            let mut k: usize = 0;
            while k < m
                invariant
                    k <= m,
                    m == return_tys@.len(),
                    ret_tys@.len() == k,
                    forall|t: int| 0 <= t < k ==> ret_tys@[t] == return_tys@[t],
                decreases m - k,
            {
                ret_tys.push(return_tys[k].clone());
                k += 1;
            }
            proof {
                assert(ret_tys@ =~= return_tys@);
            }
            (cases, ret_tys)
        },
        TryExpr::ConstructorCall { contract_no, constructor_no, args, value, gas, salt } => {
            let address_res = match return_binds.get(0) {
                Option::Some((Option::Some(pos), _)) => *pos,
                _ => vartab.temp_anonymous(&Type::Contract(*contract_no)),
            };
            let gas_expr = match gas {
                Option::Some(g) => g.clone(),
                Option::None => Expression::NumberLiteral { ty: Type::Uint(64), value: 0 },
            };
            let value_expr = match value {
                Option::Some(v) => Option::Some(v.clone()),
                Option::None => Option::None,
            };
            let salt_expr = match salt {
                Option::Some(x) => Option::Some(x.clone()),
                Option::None => Option::None,
            };
            let mut ctor_args: Vec<Expression> = Vec::new();
            let n = args.len();
            let mut i: usize = 0;
            while i < n
                invariant
                    i <= n,
                    n == args@.len(),
                    ctor_args@.len() == i,
                    forall|k: int|
                        0 <= k < i ==> ctor_args@[k].deep_view() == args@[k].deep_view(),
                decreases n - i,
            {
                ctor_args.push(args[i].clone());
                i += 1;
            }
            let ghost entry = old(cfg).current as int;
            let ghost pre_len = old(cfg).blocks@[entry].instr@.len() as int;
            cfg.add(
                vartab,
                Instr::Constructor {
                    success: Option::Some(success),
                    res: address_res,
                    contract_no: *contract_no,
                    constructor_no: *constructor_no,
                    args: ctor_args,
                    value: value_expr,
                    gas: gas_expr,
                    salt: salt_expr,
                },
            );
            let ghost pre_rc_eb = cfg.blocks@[entry].instr@;
            let cases = ret_code_check(success, vartab, cfg);
            proof {
                let eb = cfg.blocks@[entry].instr@;
                assert(eb == pre_rc_eb.push(eb.last()));
                assert(eb.len() == pre_len + 2);
                assert(eb[pre_len] == pre_rc_eb[pre_len]);
                assert(eb[pre_len] == pre_rc_eb.last());
            }
            (cases, Vec::new())
        },
    }
}

/// Remove every id in `ids` from `set`, keeping everything else.
fn remove_ids(set: Vec<usize>, ids: &Vec<usize>) -> (r: Vec<usize>)
    requires
        no_dups(set@),
    ensures
        no_dups(r@),
        forall|x: usize| r@.contains(x) <==> (set@.contains(x) && !ids@.contains(x)),
{
    let mut r: Vec<usize> = Vec::new();
    let n = set.len();
    let mut i: usize = 0;
    while i < n
        invariant
            i <= n,
            n == set@.len(),
            no_dups(set@),
            forall|x: usize| r@.contains(x) <==> (set@.take(i as int).contains(x)
                && !ids@.contains(x)),
            forall|k: int, l: int| 0 <= k < l < r@.len() ==> r@[k] != r@[l],
        decreases n - i,
    {
        let x = set[i];
        let mut keep = true;
        let m = ids.len();
        let mut j: usize = 0;
        while j < m
            invariant
                j <= m,
                m == ids@.len(),
                keep <==> !(exists|k: int| 0 <= k < j && ids@[k] == x),
            decreases m - j,
        {
            if ids[j] == x {
                keep = false;
            }
            j += 1;
        }
        let ghost before = r@;
        if keep {
            proof {
                assert(!ids@.contains(x));
                assert(!set@.take(i as int).contains(x)) by {
                    if set@.take(i as int).contains(x) {
                        let k = choose|k: int|
                            0 <= k < i && set@.take(i as int)[k] == x;
                        assert(set@[k] == x);
                        assert(set@[i as int] == x);
                    }
                }
                assert(!before.contains(x));
            }
            r.push(x);
        }
        proof {
            assert(set@.take(i + 1).drop_last() =~= set@.take(i as int));
            assert(set@.take(i + 1).last() == set@[i as int]);
            assert forall|y: usize|
                r@.contains(y) <==> (set@.take(i + 1).contains(y) && !ids@.contains(y)) by {
                if keep {
                    assert(r@ == before.push(x));
                    if r@.contains(y) {
                        let k = choose|k: int| 0 <= k < r@.len() && r@[k] == y;
                        if k < before.len() {
                            assert(before[k] == y);
                            assert(before.contains(y));
                        } else {
                            assert(y == x);
                        }
                    }
                    if set@.take(i + 1).contains(y) && !ids@.contains(y) {
                        let k = choose|k: int| 0 <= k < i + 1 && #[trigger] set@.take(i + 1)[k] == y;
                        if k < i {
                            assert(set@.take(i as int).contains(y));
                            assert(before.contains(y));
                            let l = choose|l: int| 0 <= l < before.len() && before[l] == y;
                            assert(r@[l] == y);
                        } else {
                            assert(y == x);
                            assert(r@.last() == x);
                        }
                    }
                } else {
                    if set@.take(i + 1).contains(y) && !ids@.contains(y) {
                        let k = choose|k: int| 0 <= k < i + 1 && #[trigger] set@.take(i + 1)[k] == y;
                        if k < i {
                            assert(set@.take(i as int).contains(y));
                        } else {
                            assert(y == x);
                            assert(false);
                        }
                    }
                }
            }
        }
        i += 1;
    }
    proof {
        assert(set@.take(n as int) =~= set@);
    }
    r
}

/// Run the try expression and collect error return data: a failure with
/// revert data binds the raw return buffer, a failure without data binds
/// a fresh empty buffer, and both failure paths converge into the catch
/// block, whose phi set records exactly that shared variable. On success
/// the declared returns are decoded from the call's return buffer before
/// control branches to `ok_block`.
pub fn insert_try_expression(
    try_expr: &TryExpr,
    return_binds: &Vec<(Option<usize>, Parameter)>,
    cfg: &mut ControlFlowGraph,
    vartab: &mut Vartable,
    ok_block: usize,
    catch_block: usize,
) -> (error_var: usize)
    requires
        old(cfg).wf(),
        old(cfg).blocks@[old(cfg).current as int].is_open(),
        old(vartab).wf(),
        ok_block < old(cfg).blocks@.len(),
        catch_block < old(cfg).blocks@.len(),
        ok_block != old(cfg).current,
        catch_block != old(cfg).current,
        ok_block != catch_block,
        old(vartab).next_id + 2 * return_binds@.len() + 8 < usize::MAX,
        old(cfg).blocks@.len() + 12 < usize::MAX,
        *try_expr matches TryExpr::ExternalCall { return_tys, .. } ==> return_binds@.len()
            == return_tys@.len(),
    ensures
        final(cfg).wf(),
        final(vartab).wf(),
        final(vartab).dirty@.len() == old(vartab).dirty@.len(),
        final(cfg).meta() == old(cfg).meta(),
        final(cfg).blocks@.len() == old(cfg).blocks@.len() + 4,
        final(vartab).next_id <= old(vartab).next_id + 2 * return_binds@.len() + 4,
        // the error buffer variable is fresh, never a pre-existing id
        old(vartab).next_id <= error_var < final(vartab).next_id,
        ret_check_shape(
            *final(cfg),
            old(cfg).current as int,
            old(cfg).blocks@.len() as int,
            old(vartab).next_id as usize,
        ),
        final(cfg).blocks@[ok_block as int] == old(cfg).blocks@[ok_block as int],
        forall|b: int|
            0 <= b < old(cfg).blocks@.len() && b != old(cfg).current as int && b != catch_block
                ==> final(cfg).blocks@[b] == old(cfg).blocks@[b],
        final(cfg).blocks@[catch_block as int].instr@ == old(cfg).blocks@[catch_block as int].instr@,
        final(cfg).blocks@[catch_block as int].phis matches Option::Some(p) && p@.to_set()
            == Set::<usize>::empty().insert(error_var) && no_dups(p@),
        final(cfg).current < final(cfg).blocks@.len(),
        final(cfg).current != ok_block && final(cfg).current != catch_block,
        final(cfg).blocks@[final(cfg).current as int].instr@.len() > 0,
        final(cfg).blocks@[final(cfg).current as int].instr@.last() == (Instr::Branch {
            block: ok_block,
        }),
        // failure without data binds a fresh empty buffer and joins catch
        final(cfg).blocks@[old(cfg).blocks@.len() as int + 2].instr@.len() == 2,
        final(cfg).blocks@[old(cfg).blocks@.len() as int + 2].instr@[0] matches Instr::Assign {
            res,
            expr,
            ..
        } && res == error_var && (expr matches Expression::AllocDynamicBytes {
            ty,
            size,
            initializer,
        } && ty == Type::DynamicBytes && *size == (Expression::NumberLiteral {
            ty: Type::Uint(32),
            value: 0,
        }) && (initializer matches Option::Some(init) && init@.len() == 0)),
        final(cfg).blocks@[old(cfg).blocks@.len() as int + 2].instr@[1] == (Instr::Branch {
            block: catch_block,
        }),
        // failure with data binds the raw return buffer and joins catch
        final(cfg).blocks@[old(cfg).blocks@.len() as int + 1].instr@ == seq![
            Instr::Assign { loc: Loc::Codegen, res: error_var, expr: Expression::ReturnData },
            Instr::Branch { block: catch_block },
        ],
        // on success the declared returns are decoded from the call's
        // return buffer and bound in declaration order
        final(cfg).current == old(cfg).blocks@.len(),
        return_binds@.len() == 0 ==> final(cfg).blocks@[old(cfg).blocks@.len() as int].instr@
            == seq![Instr::Branch { block: ok_block }],
        return_binds@.len() > 0 ==> {
            let sb = final(cfg).blocks@[old(cfg).blocks@.len() as int].instr@;
            &&& sb[0] matches Instr::AbiDecode { res: dres, tys: dtys, data, data_len, .. }
                && data.deep_view() == ExprV::ReturnData && data_len is None && dtys@.len()
                == dres@.len() && (*try_expr matches TryExpr::ExternalCall { return_tys, .. }
                ==> dres@.len() == return_tys@.len() && (forall|k: int|
                0 <= k < return_tys@.len() ==> dtys@[k].ty == return_tys@[k])) && (*try_expr
                matches TryExpr::ConstructorCall { .. } ==> dres@.len() == 0) && sb.len()
                == dres@.len() + 2 && (forall|k: int|
                0 <= k < dres@.len() ==> (#[trigger] sb[1 + k] matches Instr::Assign {
                    res: rk,
                    expr,
                    ..
                }
                    && expr == (Expression::Variable { ty: dtys@[k].ty, var_no: dres@[k] }) && (
                return_binds@[k].0 matches Option::Some(pos) ==> rk == pos)))
            &&& sb.last() == (Instr::Branch { block: ok_block })
        },
{
    let (cases, return_tys) = exec_try(try_expr, return_binds, cfg, vartab);
    let ghost entry_snapshot = cfg.blocks@[old(cfg).current as int];
    let ghost fail_snapshot = cfg.blocks@[old(cfg).blocks@.len() as int + 3];
    proof {
        assert(return_tys@.len() <= return_binds@.len());
    }

    let error_ret_data_var = vartab.temp_name("error_ret_data", &Type::DynamicBytes);

    vartab.new_dirty_tracker();
    proof {
        assert(vartab.dirty@.last()@ =~= Seq::<usize>::empty());
        assert(vartab.tracker_set(vartab.dirty@.len() - 1) =~= Set::<usize>::empty());
    }

    cfg.set_basic_block(cases.error_no_data);
    cfg.add(
        vartab,
        Instr::Assign {
            loc: Loc::Codegen,
            res: error_ret_data_var,
            expr: Expression::AllocDynamicBytes {
                ty: Type::DynamicBytes,
                size: Box::new(
                    Expression::NumberLiteral { ty: Type::Uint(32), value: 0 },
                ),
                initializer: Option::Some(Vec::new()),
            },
        },
    );
    cfg.add(vartab, Instr::Branch { block: catch_block });

    cfg.set_basic_block(cases.revert);
    cfg.add(
        vartab,
        Instr::Assign {
            loc: Loc::Codegen,
            res: error_ret_data_var,
            expr: Expression::ReturnData,
        },
    );
    cfg.add(vartab, Instr::Branch { block: catch_block });

    vartab.set_dirty(error_ret_data_var);
    proof {
        assert(vartab.tracker_set(vartab.dirty@.len() - 1) =~= Set::<usize>::empty().insert(
            error_ret_data_var,
        ));
    }
    let phis = vartab.pop_dirty_tracker();
    proof {
        assert(phis@.to_set() =~= Set::<usize>::empty().insert(error_ret_data_var));
    }
    cfg.set_phis(catch_block, phis);

    cfg.set_basic_block(cases.success);
    let ghost eno_snapshot = cfg.blocks@[cases.error_no_data as int].instr@;
    let ghost revert_snapshot = cfg.blocks@[cases.revert as int].instr@;
    proof {
        assert(cfg.blocks@[old(cfg).current as int] == entry_snapshot);
        assert(cfg.blocks@[old(cfg).blocks@.len() as int + 3] == fail_snapshot);
    }

    if return_binds.len() > 0 {
        let buf = Expression::ReturnData;
        let decoder = ScaleEncoding::new(false);
        let decoded = decoder.abi_decode(&buf, &return_tys, vartab, cfg, Option::None);
        let ghost decode_row = cfg.blocks@[cases.success as int].instr@[0];
        let n = return_binds.len();
        let mut res_vars: Vec<usize> = Vec::new();
        let ghost pre1 = *vartab;
        let mut i: usize = 0;
        while i < n
            invariant
                i <= n,
                n == return_binds@.len(),
                vartab.wf(),
                vartab.dirty@.len() == old(vartab).dirty@.len(),
                vartab.next_id + (n - i) < usize::MAX,
                vartab.next_id <= pre1.next_id + i,
                error_ret_data_var < vartab.next_id,
                pre1.next_id > error_ret_data_var,
                res_vars@.len() == i,
                forall|j: int|
                    0 <= j < i ==> ((#[trigger] return_binds@[j]).0 matches Option::Some(pos)
                        ==> res_vars@[j] == pos),
            decreases n - i,
        {
            let res = match &return_binds[i].0 {
                Option::Some(pos) => *pos,
                Option::None => vartab.temp_anonymous(&return_binds[i].1.ty),
            };
            res_vars.push(res);
            i += 1;
        }
        let m = decoded.len();
        let ghost mid_cfg = *cfg;
        let ghost mid_vt = *vartab;
        let mut k: usize = 0;
        proof {
            assert(m <= res_vars@.len());
        }
        while k < m
            invariant
                k <= m,
                m == decoded@.len(),
                m <= res_vars@.len(),
                cfg.wf(),
                vartab.wf(),
                vartab.dirty@.len() == old(vartab).dirty@.len(),
                vartab.next_id == mid_vt.next_id,
                cfg.meta() == old(cfg).meta(),
                cfg.current == mid_cfg.current,
                cfg.current < cfg.blocks@.len(),
                catch_block < cfg.blocks@.len(),
                ok_block < cfg.blocks@.len(),
                cfg.blocks@[catch_block as int].phis matches Option::Some(p) && p@.to_set()
                    == Set::<usize>::empty().insert(error_ret_data_var) && no_dups(p@),
                cfg.current != catch_block,
                cfg.current != ok_block,
                cfg.blocks@.len() == mid_cfg.blocks@.len(),
                cfg.blocks@[ok_block as int] == mid_cfg.blocks@[ok_block as int],
                cfg.blocks@[catch_block as int].instr@ == mid_cfg.blocks@[catch_block as int].instr@,
                forall|b: int|
                    0 <= b < cfg.blocks@.len() && b != cfg.current as int ==> cfg.blocks@[b]
                        == mid_cfg.blocks@[b],
                cfg.blocks@[old(cfg).current as int] == entry_snapshot,
                cfg.blocks@[old(cfg).blocks@.len() as int + 3] == fail_snapshot,
                cfg.blocks@[cases.error_no_data as int].instr@ == eno_snapshot,
                cfg.blocks@[cases.revert as int].instr@ == revert_snapshot,
                cases.error_no_data == old(cfg).blocks@.len() + 2,
                cases.revert == old(cfg).blocks@.len() + 1,
                old(cfg).current != cfg.current,
                old(cfg).current < old(cfg).blocks@.len(),
                cfg.blocks@.len() == old(cfg).blocks@.len() + 4,
                cfg.current == old(cfg).blocks@.len(),
                forall|b: int|
                    0 <= b < old(cfg).blocks@.len() && b != old(cfg).current as int && b
                        != catch_block ==> cfg.blocks@[b] == old(cfg).blocks@[b],
                cfg.blocks@[cfg.current as int].instr@.len() == 1 + k,
                cfg.blocks@[cfg.current as int].instr@[0] == decode_row,
                !is_terminator(decode_row),
                forall|j: int|
                    0 <= j < k ==> cfg.blocks@[cfg.current as int].instr@[1 + j] == (
                    Instr::Assign {
                        loc: Loc::Codegen,
                        res: res_vars@[j],
                        expr: decoded@[j],
                    }),
                forall|j: int|
                    0 <= j < m ==> (#[trigger] decoded@[j]) matches Expression::Variable { .. },
                mid_cfg.blocks@[mid_cfg.current as int].instr@.len() == 1,
                mid_cfg.blocks@[mid_cfg.current as int].instr@[0] == decode_row,
            decreases m - k,
        {
            // rebuild the decoded read so the appended instruction is the
            // exact expression the decode produced
            let expr = match &decoded[k] {
                Expression::Variable { ty, var_no } => Expression::Variable {
                    ty: ty.clone(),
                    var_no: *var_no,
                },
                _ => {
                    proof {
                        assert(false);
                    }
                    unreached()
                },
            };
            proof {
                assert(expr == decoded@[k as int]);
                assert(cfg.blocks@[cfg.current as int].is_open()) by {
                    if k == 0 {
                    } else {
                        assert(cfg.blocks@[cfg.current as int].instr@.last() == (Instr::Assign {
                            loc: Loc::Codegen,
                            res: res_vars@[k - 1],
                            expr: decoded@[k - 1],
                        }));
                    }
                }
            }
            cfg.add(
                vartab,
                Instr::Assign { loc: Loc::Codegen, res: res_vars[k], expr },
            );
            k += 1;
        }
        proof {
            assert(cfg.blocks@[cfg.current as int].is_open()) by {
                if m == 0 {
                } else {
                    assert(cfg.blocks@[cfg.current as int].instr@.last() == (Instr::Assign {
                        loc: Loc::Codegen,
                        res: res_vars@[m - 1],
                        expr: decoded@[m - 1],
                    }));
                }
            }
            let sb = cfg.blocks@[cfg.current as int].instr@;
            assert(sb[0] == decode_row);
            assert(decode_row matches Instr::AbiDecode { data, data_len, .. } && data.deep_view()
                == ExprV::ReturnData && data_len is None);
            assert(decode_row matches Instr::AbiDecode { res: dres, tys: dtys, .. }
                && dtys@.len() == dres@.len() && dres@.len() == return_tys@.len() && (forall|
                k: int,
            |
                0 <= k < return_tys@.len() ==> dtys@[k].ty == return_tys@[k]));
            assert(decode_row matches Instr::AbiDecode { res: dres, tys: dtys, .. } && (forall|
                k: int,
            |
                0 <= k < dres@.len() ==> #[trigger] sb[1 + k] == (Instr::Assign {
                    loc: Loc::Codegen,
                    res: res_vars@[k],
                    expr: decoded@[k],
                })));
            assert(decode_row matches Instr::AbiDecode { res: dres, tys: dtys, .. } && (forall|
                k: int,
            |
                0 <= k < dres@.len() ==> decoded@[k] == (Expression::Variable {
                    ty: dtys@[k].ty,
                    var_no: dres@[k],
                })));
        }
    }
    cfg.add(vartab, Instr::Branch { block: ok_block });
    proof {
        assert(cfg.blocks@[old(cfg).current as int] == entry_snapshot);
        assert(cfg.blocks@[old(cfg).blocks@.len() as int + 3] == fail_snapshot);
        assert(cfg.blocks@[cases.error_no_data as int].instr@ == eno_snapshot);
        assert(cfg.blocks@[cases.revert as int].instr@ == revert_snapshot);
        assert(cfg.blocks@[cases.revert as int].instr@ =~= seq![
            Instr::Assign {
                loc: Loc::Codegen,
                res: error_ret_data_var,
                expr: Expression::ReturnData,
            },
            Instr::Branch { block: catch_block },
        ]);
        if return_binds@.len() == 0 {
            assert(cfg.blocks@[cases.success as int].instr@ =~= seq![
                Instr::Branch { block: ok_block },
            ]);
        }
    }

    error_ret_data_var
}

/// The catch-all: bind the raw error buffer to its variable, if it has
/// one, then run its body, branching to `finally` only when reachable.
pub fn insert_catchall_clause_code_block(
    clause: CatchClause,
    cfg: &mut ControlFlowGraph,
    vartab: &mut Vartable,
    finally_block: usize,
    error_data_buf: Expression,
) -> (reachable: bool)
    requires
        old(cfg).wf(),
        old(cfg).blocks@[old(cfg).current as int].is_open(),
        old(vartab).wf(),
        clause.body.wf(),
    ensures
        final(cfg).wf(),
        final(vartab).wf(),
        reachable == clause.body.reachable,
        final(vartab).vars == old(vartab).vars,
        final(vartab).next_id == old(vartab).next_id,
        final(vartab).dirty@.len() == old(vartab).dirty@.len(),
        // every open tracker gains the bound parameter, if any, and what
        // the body assigns
        forall|t: int|
            0 <= t < final(vartab).dirty@.len() ==> #[trigger] final(vartab).tracker_set(t)
                == old(vartab).tracker_set(t).union(clause_assigned(clause)),
        final(cfg).blocks@.len() == old(cfg).blocks@.len(),
        final(cfg).current == old(cfg).current,
        final(cfg).meta() == old(cfg).meta(),
        forall|b: int|
            0 <= b < final(cfg).blocks@.len() && b != old(cfg).current as int ==> final(cfg).blocks@[b] == old(cfg).blocks@[b],
        final(cfg).blocks@[old(cfg).current as int].phis == old(cfg).blocks@[old(
            cfg,
        ).current as int].phis,
        // the raw error buffer is bound first when the clause names a
        // variable, then the body runs, reaching finally only when its
        // end is reachable
        clause.param_pos matches Option::Some(res) ==> final(cfg).blocks@[old(
            cfg,
        ).current as int].instr@ == old(cfg).blocks@[old(cfg).current as int].instr@ + seq![
            Instr::Assign { loc: Loc::Codegen, res, expr: error_data_buf },
        ] + clause.body.instrs@ + (if clause.body.reachable {
            seq![Instr::Branch { block: finally_block }]
        } else {
            Seq::<Instr>::empty()
        }),
        clause.param_pos is None ==> final(cfg).blocks@[old(cfg).current as int].instr@ == old(
            cfg,
        ).blocks@[old(cfg).current as int].instr@ + clause.body.instrs@ + (if clause.body.reachable {
            seq![Instr::Branch { block: finally_block }]
        } else {
            Seq::<Instr>::empty()
        }),
{
    let CatchClause { param_pos, param_ty: _, body } = clause;
    let ghost pre = cfg.blocks@[old(cfg).current as int].instr@;
    if let Option::Some(res) = param_pos {
        cfg.add(vartab, Instr::Assign { loc: Loc::Codegen, res, expr: error_data_buf });
        proof {
            assert(cfg.blocks@[cfg.current as int].is_open());
            assert(cfg.blocks@[old(cfg).current as int].phis == old(cfg).blocks@[old(
                cfg,
            ).current as int].phis);
        }
    }
    let ghost mid = cfg.blocks@[old(cfg).current as int].instr@;
    let ghost mid_phis = cfg.blocks@[old(cfg).current as int].phis;
    let ghost vt_mid = *vartab;
    let reachable = append_body(cfg, vartab, body, finally_block);
    proof {
        assert forall|t: int| 0 <= t < vartab.dirty@.len() implies #[trigger] vartab.tracker_set(
            t,
        ) == old(vartab).tracker_set(t).union(clause_assigned(clause)) by {
            assert(vartab.tracker_set(t) == vt_mid.tracker_set(t).union(
                assigned_set(clause.body.instrs@),
            ));
            if clause.param_pos is Some {
                let p = clause.param_pos->0;
                assert(assigned_vars(Instr::Assign {
                    loc: Loc::Codegen,
                    res: p,
                    expr: error_data_buf,
                }) == seq![p]);
                assert(seq![p][0] == p);
                assert(seq![p].contains(p));
                assert forall|x: usize| seq![p].contains(x) implies x == p by {
                    let l = choose|l: int| 0 <= l < seq![p].len() && seq![p][l] == x;
                }
                assert(seq![p].to_set() =~= Set::<usize>::empty().insert(p));
                assert(vt_mid.tracker_set(t) == old(vartab).tracker_set(t).union(
                    Set::<usize>::empty().insert(p),
                ));
                assert(old(vartab).tracker_set(t).union(Set::<usize>::empty().insert(p)).union(
                    assigned_set(clause.body.instrs@),
                ) =~= old(vartab).tracker_set(t).union(clause_assigned(clause)));
            } else {
                assert(vt_mid.tracker_set(t) == old(vartab).tracker_set(t));
                assert(old(vartab).tracker_set(t).union(assigned_set(clause.body.instrs@))
                    =~= old(vartab).tracker_set(t).union(clause_assigned(clause)));
            }
        }
        assert(cfg.blocks@[old(cfg).current as int].phis == mid_phis);
        assert(cfg.blocks@[old(cfg).current as int].phis == old(cfg).blocks@[old(
            cfg,
        ).current as int].phis);
        let fin = cfg.blocks@[old(cfg).current as int].instr@;
        if clause.param_pos is Some {
            assert(mid == pre.push(Instr::Assign {
                loc: Loc::Codegen,
                res: clause.param_pos->0,
                expr: error_data_buf,
            }));
            if clause.body.reachable {
                assert(fin =~= pre + seq![
                    Instr::Assign {
                        loc: Loc::Codegen,
                        res: clause.param_pos->0,
                        expr: error_data_buf,
                    },
                ] + clause.body.instrs@ + seq![Instr::Branch { block: finally_block }]);
            } else {
                assert(fin =~= pre + seq![
                    Instr::Assign {
                        loc: Loc::Codegen,
                        res: clause.param_pos->0,
                        expr: error_data_buf,
                    },
                ] + clause.body.instrs@);
            }
        } else {
            if clause.body.reachable {
                assert(fin =~= pre + clause.body.instrs@ + seq![
                    Instr::Branch { block: finally_block },
                ]);
            } else {
                assert(fin =~= pre + clause.body.instrs@);
            }
        }
    }
    reachable
}

/// Dispatch the declared error clauses over the error buffer's selector.
///
/// Buffers of four bytes or fewer skip straight past every clause. Each
/// clause compares the four-byte selector against its own tag and, on a
/// match, decodes `[selector, payload]`, binds the payload and runs its
/// body. Unmatched errors reach the catch-all if one exists; otherwise
/// the original error buffer is re-raised unchanged, so the failure
/// propagates to this call's own caller.
/// The variables one clause binds or its body assigns: its parameter
/// position when it names one, plus everything the body's instructions
/// assign.
pub open spec fn clause_assigned(c: CatchClause) -> Set<usize> {
    assigned_set(c.body.instrs@).union(
        match c.param_pos {
            Option::Some(p) => Set::<usize>::empty().insert(p),
            Option::None => Set::<usize>::empty(),
        },
    )
}

/// The variables any of the declared clauses binds or assigns.
pub open spec fn clauses_assigned(errs: Seq<CatchClause>) -> Set<usize> {
    Set::new(
        |x: usize|
            exists|j: int| 0 <= j < errs.len() && #[trigger] clause_assigned(errs[j]).contains(x),
    )
}

/// Whether `x` is the parameter position of a declared clause or of the
/// catch-all: such a variable is scoped to its clause.
pub open spec fn clause_param_pos(
    errs: Seq<CatchClause>,
    catch_all: Option<CatchClause>,
    x: usize,
) -> bool {
    (exists|j: int| 0 <= j < errs.len() && (#[trigger] errs[j]).param_pos == Option::Some(x))
        || (catch_all matches Option::Some(c) && c.param_pos == Option::Some(x))
}

/// Extending the clause listing by one clause extends the assigned set
/// by exactly that clause's bindings and assignments.
proof fn lemma_clauses_assigned_take_step(errs: Seq<CatchClause>, i: int)
    requires
        0 <= i < errs.len(),
    ensures
        clauses_assigned(errs.take(i + 1)) == clauses_assigned(errs.take(i)).union(
            clause_assigned(errs[i]),
        ),
{
    assert forall|x: usize|
        clauses_assigned(errs.take(i + 1)).contains(x) implies clauses_assigned(
        errs.take(i),
    ).union(clause_assigned(errs[i])).contains(x) by {
        let j = choose|j: int|
            0 <= j < errs.take(i + 1).len() && #[trigger] clause_assigned(
                errs.take(i + 1)[j],
            ).contains(x);
        if j < i {
            assert(errs.take(i + 1)[j] == errs.take(i)[j]);
            assert(clause_assigned(errs.take(i)[j]).contains(x));
        } else {
            assert(errs.take(i + 1)[j] == errs[i]);
        }
    }
    assert forall|x: usize|
        clauses_assigned(errs.take(i)).union(clause_assigned(errs[i])).contains(
            x,
        ) implies clauses_assigned(errs.take(i + 1)).contains(x) by {
        if clauses_assigned(errs.take(i)).contains(x) {
            let j = choose|j: int|
                0 <= j < errs.take(i).len() && #[trigger] clause_assigned(
                    errs.take(i)[j],
                ).contains(x);
            assert(errs.take(i + 1)[j] == errs.take(i)[j]);
            assert(clause_assigned(errs.take(i + 1)[j]).contains(x));
        } else {
            assert(errs.take(i + 1)[i] == errs[i]);
            assert(clause_assigned(errs.take(i + 1)[i]).contains(x));
        }
    }
    assert(clauses_assigned(errs.take(i + 1)) =~= clauses_assigned(errs.take(i)).union(
        clause_assigned(errs[i]),
    ));
}

/// What the catch-all appends to a block: the raw error buffer bound to
/// its variable when it names one, the body, and the branch into
/// `finally` exactly when the body's end is reachable.
pub open spec fn catchall_appended(
    got: Seq<Instr>,
    before: Seq<Instr>,
    clause: CatchClause,
    error_var: usize,
    finally_block: usize,
) -> bool {
    got == before + (if clause.param_pos is Some {
        seq![
            Instr::Assign {
                loc: Loc::Codegen,
                res: clause.param_pos->0,
                expr: Expression::Variable { ty: Type::DynamicBytes, var_no: error_var },
            },
        ]
    } else {
        Seq::<Instr>::empty()
    }) + clause.body.instrs@ + (if clause.body.reachable {
        seq![Instr::Branch { block: finally_block }]
    } else {
        Seq::<Instr>::empty()
    })
}

/// The two blocks one error clause lowers to, both in `[lo, below)`: a
/// check block comparing the buffer's four-byte selector against the
/// clause's tag, falling through to `miss` on inequality, and on
/// equality a match block that decodes
/// `[selector, payload]`, binds the payload (not the selector) to the
/// clause's variable, runs the body, and reaches `finally` only when the
/// body's end is reachable.
pub open spec fn clause_pair_ok(
    cfg: ControlFlowGraph,
    check_b: int,
    match_b: int,
    miss: int,
    lo: int,
    below: int,
    clause: CatchClause,
    error_var: usize,
    finally_block: usize,
) -> bool {
    &&& lo <= check_b < below <= cfg.blocks@.len()
    &&& lo <= match_b < below
    &&& cfg.blocks@[check_b].instr@.len() == 1
    &&& cfg.blocks@[check_b].instr@[0] matches Instr::BranchCond {
        cond,
        true_block,
        false_block,
    } && true_block == match_b && false_block == miss && cond == (Expression::Equal {
        left: Box::new(
            Expression::ReadFromBuffer {
                ty: Type::Bytes(4),
                buffer: Box::new(
                    Expression::Variable { ty: Type::DynamicBytes, var_no: error_var },
                ),
                offset: Box::new(Expression::NumberLiteral { ty: Type::Uint(32), value: 0 }),
            },
        ),
        right: Box::new(
            Expression::NumberLiteral {
                ty: Type::Bytes(4),
                value: spec_clause_selector(clause.param_ty->0)->0 as u128,
            },
        ),
    })
    &&& {
        let mb = cfg.blocks@[match_b].instr@;
        &&& mb.len() == 2 + clause.body.instrs@.len() + (if clause.body.reachable {
            1int
        } else {
            0int
        })
        &&& mb[0] matches Instr::AbiDecode { res: dres, tys: dtys, data, data_len, .. } && data
            == (Expression::Variable { ty: Type::DynamicBytes, var_no: error_var }) && data_len
            is None && dres@.len() == 2 && dtys@.len() == 2 && dtys@[0].ty == Type::Bytes(4) && (
        clause.param_ty matches Option::Some(t) ==> dtys@[1].ty == t) && (mb[1]
            matches Instr::Assign { res, expr, .. } && (clause.param_pos matches Option::Some(pos)
            ==> res == pos) && expr == (Expression::Variable {
            ty: dtys@[1].ty,
            var_no: dres@[1],
        }))
        &&& mb.subrange(2, 2 + clause.body.instrs@.len() as int) == clause.body.instrs@
        &&& clause.body.reachable ==> mb.last() == (Instr::Branch { block: finally_block })
    }
}

/// The recorded clause layout: one (check, match) block pair per
/// declared clause, all inside `[lo, below)`, chained in source order:
/// each check block's mismatch edge falls to the next clause's check
/// block, and the last clause's to `no_match`.
pub open spec fn clause_layout_ok(
    cfg: ControlFlowGraph,
    layout: Seq<(int, int)>,
    lo: int,
    below: int,
    errs: Seq<CatchClause>,
    error_var: usize,
    finally_block: usize,
    no_match: int,
) -> bool {
    &&& layout.len() == errs.len()
    &&& forall|j: int|
        0 <= j < errs.len() ==> clause_pair_ok(
            cfg,
            (#[trigger] layout[j]).0,
            layout[j].1,
            if j + 1 < layout.len() {
                layout[j + 1].0
            } else {
                no_match
            },
            lo,
            below,
            errs[j],
            error_var,
            finally_block,
        )
}

/// A clause layout survives any mutation outside `[lo, bound)` and any
/// growth of the graph.
proof fn lemma_clause_layout_preserved(
    oldc: ControlFlowGraph,
    newc: ControlFlowGraph,
    layout: Seq<(int, int)>,
    lo: int,
    bound: int,
    new_below: int,
    errs: Seq<CatchClause>,
    error_var: usize,
    finally_block: usize,
    no_match: int,
)
    requires
        clause_layout_ok(oldc, layout, lo, bound, errs, error_var, finally_block, no_match),
        forall|b: int| lo <= b < bound ==> newc.blocks@[b] == oldc.blocks@[b],
        bound <= new_below <= newc.blocks@.len(),
        bound <= oldc.blocks@.len(),
    ensures
        clause_layout_ok(newc, layout, lo, new_below, errs, error_var, finally_block, no_match),
{
    assert forall|j: int| 0 <= j < errs.len() implies clause_pair_ok(
        newc,
        (#[trigger] layout[j]).0,
        layout[j].1,
        if j + 1 < layout.len() {
            layout[j + 1].0
        } else {
            no_match
        },
        lo,
        new_below,
        errs[j],
        error_var,
        finally_block,
    ) by {
        assert(clause_pair_ok(
            oldc,
            layout[j].0,
            layout[j].1,
            if j + 1 < layout.len() {
                layout[j + 1].0
            } else {
                no_match
            },
            lo,
            bound,
            errs[j],
            error_var,
            finally_block,
        ));
        assert(newc.blocks@[layout[j].0] == oldc.blocks@[layout[j].0]);
        assert(newc.blocks@[layout[j].1] == oldc.blocks@[layout[j].1]);
    }
}

pub fn insert_catch_clauses(
    errors: Vec<CatchClause>,
    catch_all: Option<CatchClause>,
    cfg: &mut ControlFlowGraph,
    vartab: &mut Vartable,
    catch_block: usize,
    finally_block: usize,
    error_ret_data_var: usize,
) -> (clause_layout: Ghost<Seq<(int, int)>>)
    requires
        old(cfg).wf(),
        catch_block < old(cfg).blocks@.len(),
        old(cfg).blocks@[catch_block as int].is_open(),
        old(vartab).wf(),
        forall|j: int| 0 <= j < errors@.len() ==> (#[trigger] errors@[j]).body.wf(),
        forall|j: int| 0 <= j < errors@.len() ==> clause_supported(#[trigger] errors@[j]),
        catch_all matches Option::Some(c) ==> c.body.wf(),
        errors@.len() > 0 || catch_all is Some,
        old(vartab).next_id + 4 * errors@.len() + 8 < usize::MAX,
        old(cfg).blocks@.len() + 4 * errors@.len() + 8 < usize::MAX,
    ensures
        final(cfg).wf(),
        final(vartab).wf(),
        final(vartab).dirty@.len() == old(vartab).dirty@.len(),
        final(vartab).next_id >= old(vartab).next_id,
        // every open tracker retains what it held, gains every variable a
        // clause binds or assigns, and gains nothing else but fresh
        // temporaries
        forall|t: int|
            0 <= t < final(vartab).dirty@.len() ==> {
                &&& old(vartab).tracker_set(t).subset_of(#[trigger] final(vartab).tracker_set(t))
                &&& clauses_assigned(errors@).subset_of(final(vartab).tracker_set(t))
                &&& (catch_all matches Option::Some(c) ==> clause_assigned(c).subset_of(
                    final(vartab).tracker_set(t),
                ))
                &&& final(vartab).tracker_set(t).subset_of(
                    old(vartab).tracker_set(t).union(clauses_assigned(errors@)).union(
                        match catch_all {
                            Option::Some(c) => clause_assigned(c),
                            Option::None => Set::<usize>::empty(),
                        },
                    ).union(
                        Set::new(
                            |x: usize|
                                old(vartab).next_id <= x < final(vartab).next_id,
                        ),
                    ),
                )
            },
        final(cfg).meta() == old(cfg).meta(),
        final(cfg).blocks@.len() >= old(cfg).blocks@.len(),
        errors@.len() > 0 ==> final(cfg).blocks@.len() >= old(cfg).blocks@.len() + 2,
        forall|b: int|
            0 <= b < old(cfg).blocks@.len() && b != catch_block ==> final(cfg).blocks@[b] == old(
                cfg,
            ).blocks@[b],
        final(cfg).blocks@[catch_block as int].phis == old(cfg).blocks@[catch_block as int].phis,
        // with no typed clauses, everything lands in the catch-all,
        // appended to the catch block itself
        errors@.len() == 0 ==> catchall_appended(
            final(cfg).blocks@[catch_block as int].instr@,
            old(cfg).blocks@[catch_block as int].instr@,
            catch_all->0,
            error_ret_data_var,
            finally_block,
        ),
        // with clauses, the catch block guards on the buffer holding more
        // than the four selector bytes, then dispatches clause by clause
        errors@.len() > 0 ==> final(cfg).blocks@[catch_block as int].instr@ == old(
            cfg,
        ).blocks@[catch_block as int].instr@.push(
            Instr::BranchCond {
                cond: Expression::More {
                    signed: false,
                    left: Box::new(
                        Expression::ArrayLength {
                            base: Box::new(
                                Expression::Variable {
                                    ty: Type::DynamicBytes,
                                    var_no: error_ret_data_var,
                                },
                            ),
                        },
                    ),
                    right: Box::new(
                        Expression::NumberLiteral { ty: Type::Uint(32), value: 4 },
                    ),
                },
                true_block: (old(cfg).blocks@.len() + 1) as usize,
                false_block: old(cfg).blocks@.len() as usize,
            },
        ),
        errors@.len() > 0 ==> clause_layout@.len() == errors@.len() && clause_layout_ok(
            *final(cfg),
            clause_layout@,
            old(cfg).blocks@.len() as int + 1,
            final(cfg).blocks@.len() as int,
            errors@,
            error_ret_data_var,
            finally_block,
            old(cfg).blocks@.len() as int,
        ),
        // unmatched selectors bubble: with no catch-all, the no-match
        // block re-raises the original error buffer as its payload
        errors@.len() > 0 && catch_all is None ==> final(cfg).blocks@[old(
            cfg,
        ).blocks@.len() as int].instr@ == seq![
            Instr::AssertFailure {
                encoded_args: Option::Some(
                    Expression::Variable {
                        ty: Type::DynamicBytes,
                        var_no: error_ret_data_var,
                    },
                ),
            },
        ],
        // with a catch-all, unmatched selectors land there instead
        errors@.len() > 0 && catch_all is Some ==> catchall_appended(
            final(cfg).blocks@[old(cfg).blocks@.len() as int].instr@,
            Seq::empty(),
            catch_all->0,
            error_ret_data_var,
            finally_block,
        ),
{
    cfg.set_basic_block(catch_block);

    let buffer = Expression::Variable {
        ty: Type::DynamicBytes,
        var_no: error_ret_data_var,
    };

    // with no typed clauses, everything lands in the catch-all
    if errors.len() == 0 {
        proof {
            assert(clauses_assigned(errors@) =~= Set::<usize>::empty());
        }
        if let Option::Some(clause) = catch_all {
            insert_catchall_clause_code_block(clause, cfg, vartab, finally_block, buffer);
        }
        return Ghost(Seq::empty());
    }

    let no_match_err_id = cfg.new_basic_block("no_match_err_id".to_owned());
    let first_clause = cfg.new_basic_block("catch_error".to_owned());
    let ghost lo = first_clause as int;

    // the selector dispatch needs more than the four selector bytes
    cfg.add(
        vartab,
        Instr::BranchCond {
            cond: Expression::More {
                signed: false,
                left: Box::new(Expression::ArrayLength { base: Box::new(buffer.clone()) }),
                right: Box::new(
                    Expression::NumberLiteral { ty: Type::Uint(32), value: 4 },
                ),
            },
            true_block: first_clause,
            false_block: no_match_err_id,
        },
    );
    let ghost guarded_catch = cfg.blocks@[catch_block as int].instr@;

    let mut next_clause = first_clause;
    let mut rest = errors;
    let ghost all_errors = rest@;
    let n = rest.len();
    let ghost mut layout = Seq::<(int, int)>::empty();
    let mut i: usize = 0;
    while i < n
        invariant
            i <= n,
            rest@.len() == n - i,
            rest@ == all_errors.skip(i as int),
            all_errors.len() == n,
            cfg.wf(),
            vartab.wf(),
            vartab.dirty@.len() == old(vartab).dirty@.len(),
            vartab.next_id >= old(vartab).next_id,
            forall|t: int|
                0 <= t < vartab.dirty@.len() ==> {
                    &&& old(vartab).tracker_set(t).subset_of(#[trigger] vartab.tracker_set(t))
                    &&& clauses_assigned(all_errors.take(i as int)).subset_of(
                        vartab.tracker_set(t),
                    )
                    &&& vartab.tracker_set(t).subset_of(
                        old(vartab).tracker_set(t).union(
                            clauses_assigned(all_errors.take(i as int)),
                        ).union(
                            Set::new(
                                |x: usize| old(vartab).next_id <= x < vartab.next_id,
                            ),
                        ),
                    )
                },
            vartab.next_id + 4 * (n - i) + 2 < usize::MAX,
            cfg.blocks@.len() + 4 * (n - i) + 4 < usize::MAX,
            cfg.meta() == old(cfg).meta(),
            cfg.blocks@.len() >= lo + 1,
            lo == old(cfg).blocks@.len() + 1,
            next_clause < cfg.blocks@.len(),
            cfg.blocks@[next_clause as int].instr@.len() == 0,
            no_match_err_id == old(cfg).blocks@.len(),
            i < n ==> no_match_err_id != next_clause,
            i < n ==> lo <= next_clause,
            i == n ==> next_clause == no_match_err_id,
            cfg.blocks@[no_match_err_id as int].instr@.len() == 0,
            catch_block < old(cfg).blocks@.len(),
            cfg.blocks@[catch_block as int].instr@ == guarded_catch,
            cfg.blocks@[catch_block as int].phis == old(cfg).blocks@[catch_block as int].phis,
            forall|b: int|
                0 <= b < old(cfg).blocks@.len() && b != catch_block ==> cfg.blocks@[b] == old(
                    cfg,
                ).blocks@[b],
            buffer == (Expression::Variable {
                ty: Type::DynamicBytes,
                var_no: error_ret_data_var,
            }),
            forall|j: int| 0 <= j < rest@.len() ==> (#[trigger] rest@[j]).body.wf(),
            forall|j: int| 0 <= j < rest@.len() ==> clause_supported(#[trigger] rest@[j]),
            layout.len() == i,
            clause_layout_ok(
                *cfg,
                layout,
                lo,
                cfg.blocks@.len() as int,
                all_errors.take(i as int),
                error_ret_data_var,
                finally_block,
                next_clause as int,
            ),
            i < n ==> (forall|j: int|
                0 <= j < i ==> (#[trigger] layout[j]).0 < next_clause && layout[j].1
                    < next_clause),
        decreases n - i,
    {
        cfg.set_basic_block(next_clause);
        let ghost vt_a = *vartab;
        let clause = rest.remove(0);
        proof {
            assert(clause == all_errors[i as int]);
            assert(rest@ =~= all_errors.skip(i + 1));
        }
        let ghost body_snapshot = clause.body.instrs@;
        let ghost reachable_snapshot = clause.body.reachable;
        let CatchClause { param_pos, param_ty, body } = clause;

        let match_err_id = cfg.new_basic_block("match_err_id".to_owned());
        let following = if i + 1 < n {
            cfg.new_basic_block("catch_error".to_owned())
        } else {
            no_match_err_id
        };

        let ty = match param_ty {
            Option::Some(t) => t,
            Option::None => Type::Uint(256),
        };
        let error_var = match param_pos {
            Option::Some(pos) => pos,
            Option::None => vartab.temp_anonymous(&ty),
        };
        let err_id = match clause_selector(&ty) {
            Option::Some(s) => s,
            Option::None => 0,
        };

        let ghost vt_b = *vartab;
        let ghost pre_iter = *cfg;
        cfg.add(
            vartab,
            Instr::BranchCond {
                cond: Expression::Equal {
                    left: Box::new(
                        Expression::ReadFromBuffer {
                            ty: Type::Bytes(4),
                            buffer: Box::new(buffer.clone()),
                            offset: Box::new(
                                Expression::NumberLiteral { ty: Type::Uint(32), value: 0 },
                            ),
                        },
                    ),
                    right: Box::new(
                        Expression::NumberLiteral {
                            ty: Type::Bytes(4),
                            value: err_id as u128,
                        },
                    ),
                },
                true_block: match_err_id,
                false_block: following,
            },
        );

        cfg.set_basic_block(match_err_id);
        let mut tys: Vec<Type> = Vec::new();
        tys.push(Type::Bytes(4));
        tys.push(ty);
        let decoder = ScaleEncoding::new(false);
        let ghost vt_c = *vartab;
        let decoded = decoder.abi_decode(&buffer, &tys, vartab, cfg, Option::None);
        let ghost vt_d = *vartab;
        let ghost mrow = cfg.blocks@[match_err_id as int].instr@[0];
        proof {
            assert(decoded@[1] matches Expression::Variable { .. });
            assert(cfg.blocks@[match_err_id as int].instr@.len() == 1);
            assert(mrow matches Instr::AbiDecode { .. });
            assert(mrow matches Instr::AbiDecode { data, .. } && data == buffer);
            assert(mrow matches Instr::AbiDecode { data_len, .. } && data_len is None);
            assert(mrow matches Instr::AbiDecode { res: dres, tys: dtys, .. } && dres@.len() == 2
                && dtys@.len() == 2);
            assert(tys@.len() == 2);
            assert(tys@[0] == Type::Bytes(4));
            assert(mrow matches Instr::AbiDecode { tys: dtys, .. } && dtys@[0].ty == tys@[0]
                && dtys@[1].ty == tys@[1]);
            assert(mrow matches Instr::AbiDecode { tys: dtys, .. } && dtys@[0].ty == Type::Bytes(
                4,
            ) && dtys@[1].ty == tys@[1]);
            assert(mrow matches Instr::AbiDecode { res: dres, tys: dtys, .. } && decoded@[1] == (
            Expression::Variable { ty: dtys@[1].ty, var_no: dres@[1] }));
        }
        cfg.add(
            vartab,
            Instr::Assign {
                loc: Loc::Codegen,
                res: error_var,
                expr: decoded[1].clone(),
            },
        );
        let ghost vt_e = *vartab;
        proof {
            assert(cfg.blocks@[cfg.current as int].is_open());
            assert(cfg.blocks@[match_err_id as int].instr@[0] == mrow);
        }
        append_body(cfg, vartab, body, finally_block);
        proof {
            assert(seq![error_var][0] == error_var);
            assert(seq![error_var].contains(error_var));
            assert forall|x: usize| seq![error_var].contains(x) implies x == error_var by {
                let l = choose|l: int| 0 <= l < seq![error_var].len() && seq![error_var][l] == x;
            }
            assert(seq![error_var].to_set() =~= Set::<usize>::empty().insert(error_var));
            lemma_clauses_assigned_take_step(all_errors, i as int);
            assert(clause_assigned(all_errors[i as int]) == assigned_set(body_snapshot).union(
                match all_errors[i as int].param_pos {
                    Option::Some(p) => Set::<usize>::empty().insert(p),
                    Option::None => Set::<usize>::empty(),
                },
            ));
            let fresh2 = Set::new(|x: usize| vt_c.next_id <= x < vt_c.next_id + 2);
            assert(Set::new(|x: usize| vt_c.next_id <= x < vt_c.next_id + tys@.len()) =~= fresh2);
            assert forall|t: int|
                0 <= t < vartab.dirty@.len() implies {
                &&& old(vartab).tracker_set(t).subset_of(#[trigger] vartab.tracker_set(t))
                &&& clauses_assigned(all_errors.take(i + 1)).subset_of(vartab.tracker_set(t))
                &&& vartab.tracker_set(t).subset_of(
                    old(vartab).tracker_set(t).union(
                        clauses_assigned(all_errors.take(i + 1)),
                    ).union(
                        Set::new(|x: usize| old(vartab).next_id <= x < vartab.next_id),
                    ),
                )
            } by {
                assert(vt_b.tracker_set(t) == vt_a.tracker_set(t));
                assert(vt_c.tracker_set(t) == vt_b.tracker_set(t));
                assert(vt_d.tracker_set(t) == vt_c.tracker_set(t).union(fresh2));
                assert(vt_e.tracker_set(t) == vt_d.tracker_set(t).union(
                    Set::<usize>::empty().insert(error_var),
                ));
                assert(vartab.tracker_set(t) == vt_e.tracker_set(t).union(
                    assigned_set(body_snapshot),
                ));
                assert forall|x: usize|
                    vartab.tracker_set(t).contains(x) implies old(vartab).tracker_set(t).union(
                    clauses_assigned(all_errors.take(i + 1)),
                ).union(
                    Set::new(|y: usize| old(vartab).next_id <= y < vartab.next_id),
                ).contains(x) by {
                    if vt_a.tracker_set(t).contains(x) {
                        assert(old(vartab).tracker_set(t).union(
                            clauses_assigned(all_errors.take(i as int)),
                        ).union(
                            Set::new(|y: usize| old(vartab).next_id <= y < vt_a.next_id),
                        ).contains(x));
                        if clauses_assigned(all_errors.take(i as int)).contains(x) {
                            assert(clauses_assigned(all_errors.take(i + 1)).contains(x));
                        }
                    } else if fresh2.contains(x) {
                        assert(Set::new(
                            |y: usize| old(vartab).next_id <= y < vartab.next_id,
                        ).contains(x));
                    } else if x == error_var {
                        if all_errors[i as int].param_pos is Some {
                            assert(clause_assigned(all_errors[i as int]).contains(x));
                            assert(clauses_assigned(all_errors.take(i + 1)).contains(x));
                        } else {
                            assert(error_var == vt_a.next_id);
                            assert(Set::new(
                                |y: usize| old(vartab).next_id <= y < vartab.next_id,
                            ).contains(x));
                        }
                    } else {
                        assert(assigned_set(body_snapshot).contains(x));
                        assert(clause_assigned(all_errors[i as int]).contains(x));
                        assert(clauses_assigned(all_errors.take(i + 1)).contains(x));
                    }
                }
                assert forall|x: usize|
                    clauses_assigned(all_errors.take(i + 1)).contains(
                        x,
                    ) implies vartab.tracker_set(t).contains(x) by {
                    if clauses_assigned(all_errors.take(i as int)).contains(x) {
                        assert(vt_a.tracker_set(t).contains(x));
                    } else {
                        assert(clause_assigned(all_errors[i as int]).contains(x));
                        if !assigned_set(body_snapshot).contains(x) {
                            assert(x == error_var);
                        }
                    }
                }
                assert forall|x: usize|
                    old(vartab).tracker_set(t).contains(x) implies vartab.tracker_set(
                    t,
                ).contains(x) by {
                    assert(vt_a.tracker_set(t).contains(x));
                }
            }
        }
        proof {
            let mb = cfg.blocks@[match_err_id as int].instr@;
            assert(mb[0] == mrow);
            assert(mb.subrange(2, 2 + body_snapshot.len() as int) =~= body_snapshot);
            assert(clause_supported(all_errors[i as int]));
            assert(err_id == spec_clause_selector(all_errors[i as int].param_ty->0)->0);
            assert(cfg.blocks@[next_clause as int].instr@.len() == 1);
            assert(cfg.blocks@[next_clause as int].instr@[0] matches Instr::BranchCond {
                cond,
                true_block,
                ..
            } && true_block == match_err_id && cond == (Expression::Equal {
                left: Box::new(
                    Expression::ReadFromBuffer {
                        ty: Type::Bytes(4),
                        buffer: Box::new(
                            Expression::Variable {
                                ty: Type::DynamicBytes,
                                var_no: error_ret_data_var,
                            },
                        ),
                        offset: Box::new(
                            Expression::NumberLiteral { ty: Type::Uint(32), value: 0 },
                        ),
                    },
                ),
                right: Box::new(
                    Expression::NumberLiteral { ty: Type::Bytes(4), value: err_id as u128 },
                ),
            }));
            assert(mb[0] matches Instr::AbiDecode { res: dres, tys: dtys, data, data_len, .. }
                && data == (Expression::Variable {
                ty: Type::DynamicBytes,
                var_no: error_ret_data_var,
            }) && data_len is None && dres@.len() == 2 && dtys@.len() == 2 && dtys@[0].ty
                == Type::Bytes(4));
            assert(mb.len() == 2 + body_snapshot.len() + (if reachable_snapshot {
                1int
            } else {
                0int
            }));
            lemma_clause_layout_preserved(
                pre_iter,
                *cfg,
                layout,
                lo,
                next_clause as int,
                cfg.blocks@.len() as int,
                all_errors.take(i as int),
                error_ret_data_var,
                finally_block,
                next_clause as int,
            );
            assert(clause_pair_ok(
                *cfg,
                next_clause as int,
                match_err_id as int,
                following as int,
                lo,
                cfg.blocks@.len() as int,
                all_errors[i as int],
                error_ret_data_var,
                finally_block,
            ));
            layout = layout.push((next_clause as int, match_err_id as int));
            assert(all_errors.take(i + 1).drop_last() =~= all_errors.take(i as int));
            assert(all_errors.take(i + 1).last() == all_errors[i as int]);
            assert forall|j: int| 0 <= j < i + 1 implies clause_pair_ok(
                *cfg,
                (#[trigger] layout[j]).0,
                layout[j].1,
                if j + 1 < layout.len() {
                    layout[j + 1].0
                } else {
                    following as int
                },
                lo,
                cfg.blocks@.len() as int,
                all_errors.take(i + 1)[j],
                error_ret_data_var,
                finally_block,
            ) by {
                if j < i as int {
                    assert(all_errors.take(i + 1)[j] == all_errors.take(i as int)[j]);
                }
            }
        }

        next_clause = following;
        i += 1;
    }
    proof {
        assert(all_errors.take(n as int) =~= all_errors);
        assert(next_clause == no_match_err_id);
    }

    // selector matched no clause: catch-all if present, else bubble
    cfg.set_basic_block(no_match_err_id);
    let ghost vt_f = *vartab;
    let ghost pre_tail = *cfg;
    match catch_all {
        Option::None => {
            let encoded_args = Option::Some(buffer);
            cfg.add(vartab, Instr::AssertFailure { encoded_args });
            proof {
                assert(cfg.blocks@[no_match_err_id as int].instr@ =~= seq![
                    Instr::AssertFailure {
                        encoded_args: Option::Some(
                            Expression::Variable {
                                ty: Type::DynamicBytes,
                                var_no: error_ret_data_var,
                            },
                        ),
                    },
                ]);
            }
        },
        Option::Some(clause) => {
            insert_catchall_clause_code_block(clause, cfg, vartab, finally_block, buffer);
        },
    }
    proof {
        lemma_clause_layout_preserved(
            pre_tail,
            *cfg,
            layout,
            lo,
            pre_tail.blocks@.len() as int,
            cfg.blocks@.len() as int,
            all_errors,
            error_ret_data_var,
            finally_block,
            no_match_err_id as int,
        );
        assert forall|t: int|
            0 <= t < vartab.dirty@.len() implies {
            &&& old(vartab).tracker_set(t).subset_of(#[trigger] vartab.tracker_set(t))
            &&& clauses_assigned(all_errors).subset_of(vartab.tracker_set(t))
            &&& (catch_all matches Option::Some(c) ==> clause_assigned(c).subset_of(
                vartab.tracker_set(t),
            ))
            &&& vartab.tracker_set(t).subset_of(
                old(vartab).tracker_set(t).union(clauses_assigned(all_errors)).union(
                    match catch_all {
                        Option::Some(c) => clause_assigned(c),
                        Option::None => Set::<usize>::empty(),
                    },
                ).union(
                    Set::new(|x: usize| old(vartab).next_id <= x < vartab.next_id),
                ),
            )
        } by {
            if catch_all is Some {
                assert(vartab.tracker_set(t) == vt_f.tracker_set(t).union(
                    clause_assigned(catch_all->0),
                ));
            } else {
                assert(vartab.tracker_set(t) == vt_f.tracker_set(t));
            }
            assert forall|x: usize|
                vartab.tracker_set(t).contains(x) implies old(vartab).tracker_set(t).union(
                clauses_assigned(all_errors),
            ).union(
                match catch_all {
                    Option::Some(c) => clause_assigned(c),
                    Option::None => Set::<usize>::empty(),
                },
            ).union(
                Set::new(|y: usize| old(vartab).next_id <= y < vartab.next_id),
            ).contains(x) by {
                if vt_f.tracker_set(t).contains(x) {
                    assert(old(vartab).tracker_set(t).union(
                        clauses_assigned(all_errors.take(n as int)),
                    ).union(
                        Set::new(|y: usize| old(vartab).next_id <= y < vt_f.next_id),
                    ).contains(x));
                    if Set::new(
                        |y: usize| old(vartab).next_id <= y < vt_f.next_id,
                    ).contains(x) {
                        assert(Set::new(
                            |y: usize| old(vartab).next_id <= y < vartab.next_id,
                        ).contains(x));
                    }
                }
            }
            assert forall|x: usize|
                clauses_assigned(all_errors).contains(x) implies vartab.tracker_set(
                t,
            ).contains(x) by {
                assert(clauses_assigned(all_errors.take(n as int)).contains(x));
                assert(vt_f.tracker_set(t).contains(x));
            }
            assert forall|x: usize|
                old(vartab).tracker_set(t).contains(x) implies vartab.tracker_set(t).contains(
                x,
            ) by {
                assert(vt_f.tracker_set(t).contains(x));
            }
        }
    }
    Ghost(layout)
}

/// The wiring of one lowered try/catch whose blocks start at `base`
/// (`ok` at `base`, `catch` at `base + 1`, `finally` at `base + 2`): the
/// two failure paths converge in `catch` on the shared error variable
/// `ev`, whose value therefore sits in `catch`'s phi set; with declared
/// clauses `catch` guards on the buffer length and dispatches to the
/// clause blocks, and an unmatched selector bubbles the original buffer
/// or lands in the catch-all; without clauses the catch-all takes the
/// buffer directly.
pub open spec fn try_wiring(
    cfg: ControlFlowGraph,
    base: int,
    errs: Seq<CatchClause>,
    catch_all: Option<CatchClause>,
    ev: usize,
) -> bool {
    &&& cfg.blocks@[base + 1].phis matches Option::Some(q) && q@.to_set()
        == Set::<usize>::empty().insert(ev) && no_dups(q@)
    &&& errs.len() == 0 ==> catchall_appended(
        cfg.blocks@[base + 1].instr@,
        Seq::empty(),
        catch_all->0,
        ev,
        (base + 2) as usize,
    )
    &&& errs.len() > 0 ==> cfg.blocks@[base + 1].instr@ == seq![
        Instr::BranchCond {
            cond: Expression::More {
                signed: false,
                left: Box::new(
                    Expression::ArrayLength {
                        base: Box::new(
                            Expression::Variable { ty: Type::DynamicBytes, var_no: ev },
                        ),
                    },
                ),
                right: Box::new(Expression::NumberLiteral { ty: Type::Uint(32), value: 4 }),
            },
            true_block: (base + 8) as usize,
            false_block: (base + 7) as usize,
        },
    ]
    &&& errs.len() > 0 && catch_all is None ==> cfg.blocks@[base + 7].instr@ == seq![
        Instr::AssertFailure {
            encoded_args: Option::Some(
                Expression::Variable { ty: Type::DynamicBytes, var_no: ev },
            ),
        },
    ]
    &&& errs.len() > 0 && catch_all is Some ==> catchall_appended(
        cfg.blocks@[base + 7].instr@,
        Seq::empty(),
        catch_all->0,
        ev,
        (base + 2) as usize,
    )
    &&& errs.len() > 0 ==> exists|layout: Seq<(int, int)>|
        #[trigger] clause_layout_ok(
            cfg,
            layout,
            base + 8,
            cfg.blocks@.len() as int,
            errs,
            ev,
            (base + 2) as usize,
            base + 7,
        )
}

/// Lower one try/catch statement into the graph.
///
/// Creates the `ok`, `catch` and `finally` blocks, executes the call,
/// wires success and failure into `ok` and `catch`, lowers every clause,
/// and records `finally`'s phi set: the variables dirtied across the
/// diverging region, minus the clause parameter positions, which are
/// scoped to their clause and not live on the `ok`-only path. Leaves the
/// cursor on `finally`.
pub fn try_catch(try_stmt: TryCatch, cfg: &mut ControlFlowGraph, vartab: &mut Vartable)
    requires
        old(cfg).wf(),
        old(cfg).blocks@[old(cfg).current as int].is_open(),
        old(vartab).wf(),
        try_stmt.ok_body.wf(),
        forall|j: int| 0 <= j < try_stmt.errors@.len() ==> (#[trigger] try_stmt.errors@[j]).body.wf(),
        forall|j: int|
            0 <= j < try_stmt.errors@.len() ==> clause_supported(#[trigger] try_stmt.errors@[j]),
        try_stmt.catch_all matches Option::Some(c) ==> c.body.wf(),
        try_stmt.errors@.len() > 0 || try_stmt.catch_all is Some,
        try_stmt.expr matches TryExpr::ExternalCall { return_tys, .. }
            ==> try_stmt.return_binds@.len() == return_tys@.len(),
        old(vartab).next_id + 2 * try_stmt.return_binds@.len() + 4 * try_stmt.errors@.len() + 16
            < usize::MAX,
        old(cfg).blocks@.len() + 4 * try_stmt.errors@.len() + 20 < usize::MAX,
    ensures
        final(cfg).wf(),
        final(vartab).wf(),
        final(vartab).dirty@.len() == old(vartab).dirty@.len(),
        final(cfg).meta() == old(cfg).meta(),
        // the cursor rests on the join block, whose phi set excludes
        // every clause-scoped parameter position
        final(cfg).current == old(cfg).blocks@.len() + 2,
        final(cfg).blocks@[final(cfg).current as int].phis matches Option::Some(p) && no_dups(p@)
            && (forall|j: int|
            0 <= j < try_stmt.errors@.len() ==> ((#[trigger] try_stmt.errors@[j]).param_pos
                matches Option::Some(pos) ==> !p@.contains(pos))) && (try_stmt.catch_all
            matches Option::Some(c) ==> (c.param_pos matches Option::Some(pos) ==> !p@.contains(
            pos,
        ))),
        // every other variable dirtied across the region is retained:
        // whatever the ok body or a clause assigns sits in the join
        // block's phi set unless it is a clause parameter
        final(cfg).blocks@[final(cfg).current as int].phis matches Option::Some(p) && (forall|
            x: usize,
        |
            ((assigned_set(try_stmt.ok_body.instrs@).contains(x) || clauses_assigned(
                try_stmt.errors@,
            ).contains(x) || (try_stmt.catch_all matches Option::Some(c) && clause_assigned(
                c,
            ).contains(x))) && !clause_param_pos(try_stmt.errors@, try_stmt.catch_all, x)
                ==> p@.contains(x))) && (forall|x: usize|
            p@.contains(x) ==> !clause_param_pos(try_stmt.errors@, try_stmt.catch_all, x) && (x
                >= old(vartab).next_id || assigned_set(try_stmt.ok_body.instrs@).contains(x)
                || clauses_assigned(try_stmt.errors@).contains(x) || (try_stmt.catch_all
                matches Option::Some(c) && clause_assigned(c).contains(x)))),
        final(cfg).blocks@.len() >= old(cfg).blocks@.len() + 7,
        // the call and its success/failure routing stay in the block the
        // statement started in
        ret_check_shape(
            *final(cfg),
            old(cfg).current as int,
            old(cfg).blocks@.len() as int + 3,
            old(vartab).next_id as usize,
        ),
        // the ok block holds exactly the success statements, reaching
        // finally only when their end is reachable
        try_stmt.ok_body.reachable ==> final(cfg).blocks@[old(cfg).blocks@.len() as int].instr@
            == try_stmt.ok_body.instrs@ + seq![
            Instr::Branch { block: (old(cfg).blocks@.len() + 2) as usize },
        ],
        !try_stmt.ok_body.reachable ==> final(cfg).blocks@[old(cfg).blocks@.len() as int].instr@
            == try_stmt.ok_body.instrs@,
        // the failure paths, the catch dispatch and the clause blocks,
        // all over one shared error-data variable
        exists|ev: usize|
            #[trigger] try_wiring(
                *final(cfg),
                old(cfg).blocks@.len() as int,
                try_stmt.errors@,
                try_stmt.catch_all,
                ev,
            ),
{
    // parameter positions scoped to the clauses: never part of the join
    // block's phi set
    let mut param_positions: Vec<usize> = Vec::new();
    let n_err = try_stmt.errors.len();
    let mut j: usize = 0;
    while j < n_err
        invariant
            j <= n_err,
            n_err == try_stmt.errors@.len(),
            forall|k: int|
                0 <= k < j ==> ((#[trigger] try_stmt.errors@[k]).param_pos
                    matches Option::Some(pos) ==> param_positions@.contains(pos)),
            forall|l: int|
                0 <= l < param_positions@.len() ==> clause_param_pos(
                    try_stmt.errors@,
                    Option::None,
                    #[trigger] param_positions@[l],
                ),
        decreases n_err - j,
    {
        let ghost before = param_positions@;
        match &try_stmt.errors[j].param_pos {
            Option::Some(pos) => {
                param_positions.push(*pos);
                proof {
                    assert(param_positions@.last() == try_stmt.errors@[j as int].param_pos->0);
                    assert(clause_param_pos(try_stmt.errors@, Option::None, *pos));
                    assert forall|k: int|
                        0 <= k < j + 1 implies ((#[trigger] try_stmt.errors@[k]).param_pos
                        matches Option::Some(pos) ==> param_positions@.contains(pos)) by {
                        if k < j as int {
                            if try_stmt.errors@[k].param_pos is Some {
                                let p = try_stmt.errors@[k].param_pos->0;
                                assert(before.contains(p));
                                let l = choose|l: int| 0 <= l < before.len() && before[l] == p;
                                assert(param_positions@[l] == p);
                            }
                        }
                    }
                }
            },
            Option::None => {},
        }
        j += 1;
    }
    let ghost before_ca = param_positions@;
    let ghost catch_all_pos = if try_stmt.catch_all is Some {
        try_stmt.catch_all->0.param_pos
    } else {
        Option::<usize>::None
    };
    match &try_stmt.catch_all {
        Option::Some(c) => {
            match &c.param_pos {
                Option::Some(pos) => {
                    param_positions.push(*pos);
                    proof {
                        assert(param_positions@[param_positions@.len() - 1] == *pos);
                        assert(clause_param_pos(try_stmt.errors@, try_stmt.catch_all, *pos));
                        assert forall|l: int|
                            0 <= l < param_positions@.len() implies clause_param_pos(
                            try_stmt.errors@,
                            try_stmt.catch_all,
                            #[trigger] param_positions@[l],
                        ) by {
                            if l < before_ca.len() {
                                assert(param_positions@[l] == before_ca[l]);
                                assert(clause_param_pos(
                                    try_stmt.errors@,
                                    Option::None,
                                    before_ca[l],
                                ));
                            }
                        }
                        assert(param_positions@.contains(catch_all_pos->0));
                        assert forall|k: int|
                            0 <= k < n_err implies ((#[trigger] try_stmt.errors@[k]).param_pos
                            matches Option::Some(pos) ==> param_positions@.contains(pos)) by {
                            if try_stmt.errors@[k].param_pos is Some {
                                let p = try_stmt.errors@[k].param_pos->0;
                                assert(before_ca.contains(p));
                                let l = choose|l: int|
                                    0 <= l < before_ca.len() && before_ca[l] == p;
                                assert(param_positions@[l] == p);
                            }
                        }
                    }
                },
                Option::None => {},
            }
        },
        Option::None => {},
    }
    let TryCatch { expr, return_binds, ok_body, errors, catch_all } = try_stmt;
    let ghost errors_snapshot = errors@;

    let ok_block = cfg.new_basic_block("ok".to_owned());
    let catch_block = cfg.new_basic_block("catch".to_owned());
    let finally_block = cfg.new_basic_block("finally".to_owned());

    let ghost base = old(cfg).blocks@.len() as int;
    let error_ret_data_var = insert_try_expression(
        &expr,
        &return_binds,
        cfg,
        vartab,
        ok_block,
        catch_block,
    );
    let ghost entry_snapshot = cfg.blocks@[old(cfg).current as int];
    let ghost fail_snapshot = cfg.blocks@[base + 6];
    let ghost catch_phis_snapshot = cfg.blocks@[catch_block as int].phis;

    vartab.new_dirty_tracker();
    let ghost vt_push = *vartab;

    insert_success_code_block(ok_body, cfg, vartab, ok_block, finally_block);
    let ghost vt_s = *vartab;
    let ghost ok_snapshot = cfg.blocks@[ok_block as int].instr@;

    proof {
        assert(cfg.blocks@[catch_block as int].is_open()) by {
            assert(cfg.blocks@[catch_block as int].instr@.len() == 0);
        }
    }
    let ghost pre_cc = *cfg;
    let clause_layout = insert_catch_clauses(
        errors,
        catch_all,
        cfg,
        vartab,
        catch_block,
        finally_block,
        error_ret_data_var,
    );
    let ghost post_cc = *cfg;

    // variables scoped to the catch clauses are not live on the ok path
    let ghost vt_p = *vartab;
    let set = vartab.pop_dirty_tracker();
    let ghost popped = set@;
    let set = remove_ids(set, &param_positions);
    proof {
        let tix = vt_push.dirty@.len() - 1;
        assert(vt_push.tracker_set(tix) =~= Set::<usize>::empty());
        assert(vt_s.tracker_set(tix) == vt_push.tracker_set(tix).union(
            assigned_set(try_stmt.ok_body.instrs@),
        ));
        assert(vt_p.dirty@.len() == vt_push.dirty@.len());
        assert(popped.to_set() == vt_p.tracker_set(tix));
        // the only-params direction of the filter list
        assert forall|l: int|
            0 <= l < param_positions@.len() implies clause_param_pos(
            try_stmt.errors@,
            try_stmt.catch_all,
            #[trigger] param_positions@[l],
        ) by {
            if try_stmt.catch_all is None || try_stmt.catch_all->0.param_pos is None {
                assert(clause_param_pos(try_stmt.errors@, Option::None, param_positions@[l]));
            }
        }
        assert forall|x: usize|
            ((assigned_set(try_stmt.ok_body.instrs@).contains(x) || clauses_assigned(
                try_stmt.errors@,
            ).contains(x) || (try_stmt.catch_all matches Option::Some(c) && clause_assigned(
                c,
            ).contains(x))) && !clause_param_pos(
                try_stmt.errors@,
                try_stmt.catch_all,
                x,
            )) implies set@.contains(x) by {
            assert(errors_snapshot == try_stmt.errors@);
            assert(vt_p.tracker_set(tix).contains(x)) by {
                if assigned_set(try_stmt.ok_body.instrs@).contains(x) {
                    assert(vt_s.tracker_set(tix).contains(x));
                }
            }
            assert(popped.contains(x));
            assert(!param_positions@.contains(x)) by {
                if param_positions@.contains(x) {
                    let l = choose|l: int|
                        0 <= l < param_positions@.len() && param_positions@[l] == x;
                    assert(clause_param_pos(try_stmt.errors@, try_stmt.catch_all, x));
                }
            }
        }
        assert forall|x: usize| set@.contains(x) implies !clause_param_pos(
            errors_snapshot,
            try_stmt.catch_all,
            x,
        ) && (x >= old(vartab).next_id || assigned_set(try_stmt.ok_body.instrs@).contains(x)
            || clauses_assigned(errors_snapshot).contains(x) || (try_stmt.catch_all
            matches Option::Some(c) && clause_assigned(c).contains(x))) by {
            assert(popped.contains(x) && !param_positions@.contains(x));
            assert(!clause_param_pos(errors_snapshot, try_stmt.catch_all, x)) by {
                if clause_param_pos(errors_snapshot, try_stmt.catch_all, x) {
                    assert(param_positions@.contains(x));
                }
            }
            assert(vt_p.tracker_set(tix).contains(x));
            if !assigned_set(try_stmt.ok_body.instrs@).contains(x) && !clauses_assigned(
                try_stmt.errors@,
            ).contains(x) && !(try_stmt.catch_all matches Option::Some(c) && clause_assigned(
                c,
            ).contains(x)) {
                assert(vt_s.next_id <= x < vt_p.next_id);
                assert(x >= old(vartab).next_id);
            }
        }
    }
    cfg.set_phis(finally_block, set);

    cfg.set_basic_block(finally_block);
    proof {
        let ev = error_ret_data_var;
        assert(cfg.blocks@[old(cfg).current as int] == entry_snapshot);
        assert(cfg.blocks@[base + 6] == fail_snapshot);
        assert(cfg.blocks@[ok_block as int].instr@ == ok_snapshot);
        assert(cfg.blocks@[catch_block as int].phis == catch_phis_snapshot);
        assert(cfg.blocks@[catch_block as int].instr@ == post_cc.blocks@[catch_block as int].instr@);
        if errors_snapshot.len() > 0 {
            assert(pre_cc.blocks@.len() == base + 7);
            assert(cfg.blocks@[catch_block as int].instr@ =~= seq![
                Instr::BranchCond {
                    cond: Expression::More {
                        signed: false,
                        left: Box::new(
                            Expression::ArrayLength {
                                base: Box::new(
                                    Expression::Variable {
                                        ty: Type::DynamicBytes,
                                        var_no: ev,
                                    },
                                ),
                            },
                        ),
                        right: Box::new(
                            Expression::NumberLiteral { ty: Type::Uint(32), value: 4 },
                        ),
                    },
                    true_block: (base + 8) as usize,
                    false_block: (base + 7) as usize,
                },
            ]);
            assert(cfg.blocks@[base + 7] == post_cc.blocks@[base + 7]);
            lemma_clause_layout_preserved(
                post_cc,
                *cfg,
                clause_layout@,
                base + 8,
                post_cc.blocks@.len() as int,
                cfg.blocks@.len() as int,
                errors_snapshot,
                ev,
                finally_block,
                base + 7,
            );
        } else {
            assert(pre_cc.blocks@[catch_block as int].instr@ =~= Seq::<Instr>::empty());
            assert(catchall_appended(
                cfg.blocks@[catch_block as int].instr@,
                Seq::empty(),
                try_stmt.catch_all->0,
                ev,
                (base + 2) as usize,
            ));
        }
        assert(cfg.blocks@[base + 1].phis matches Option::Some(q) && q@.to_set()
            == Set::<usize>::empty().insert(ev) && no_dups(q@));
        if errors_snapshot.len() > 0 {
            assert(clause_layout_ok(
                *cfg,
                clause_layout@,
                base + 8,
                cfg.blocks@.len() as int,
                errors_snapshot,
                ev,
                (base + 2) as usize,
                base + 7,
            )) by {
                assert(finally_block == (base + 2) as usize);
            }
            assert(exists|layout: Seq<(int, int)>|
                #[trigger] clause_layout_ok(
                    *cfg,
                    layout,
                    base + 8,
                    cfg.blocks@.len() as int,
                    errors_snapshot,
                    ev,
                    (base + 2) as usize,
                    base + 7,
                ));
            if try_stmt.catch_all is None {
                assert(cfg.blocks@[base + 7].instr@ == seq![
                    Instr::AssertFailure {
                        encoded_args: Option::Some(
                            Expression::Variable { ty: Type::DynamicBytes, var_no: ev },
                        ),
                    },
                ]);
            } else {
                assert(catchall_appended(
                    cfg.blocks@[base + 7].instr@,
                    Seq::empty(),
                    try_stmt.catch_all->0,
                    ev,
                    (base + 2) as usize,
                ));
            }
        }
        assert(try_wiring(*cfg, base, errors_snapshot, try_stmt.catch_all, ev));
    }
}

} // verus!
