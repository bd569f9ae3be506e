//! The control-flow-graph substrate: pure expression trees, tagged
//! instructions, basic blocks and the graph itself.
//!
//! Blocks are referenced by index into the graph's block vector; there are
//! no pointers and no cycles. Every reachable block must end in exactly one
//! terminator; the builder enforces this by refusing to append to a block
//! that is already terminated.

use vstd::prelude::*;

use crate::ast::{FunctionTy, Parameter, Type};
use crate::vartable::Vartable;

verus! {

broadcast use vstd::std_specs::vec::axiom_vec_index_decreases;

/// Which source-level function a graph was lowered from.
#[derive(Clone, Copy, PartialEq, Eq, Structural, Debug)]
pub enum ASTFunction {
    SolidityFunction(usize),
    YulFunction(usize),
    NoFunction,
}

/// Numeric result codes the generated entry point can return to the host.
#[derive(Clone, Copy, PartialEq, Eq, Structural, Debug)]
pub enum ReturnCode {
    Success,
    FunctionSelectorInvalid,
    AbiEncodingInvalid,
}

/// A compile-time constant or a runtime operand for string concatenation.
pub enum StringLocation {
    CompileTime(Vec<u8>),
    RunTime(Box<Expression>),
}

/// A pure expression tree. Expressions have no side effects and are fully
/// evaluated before the instruction that consumes them is appended.
/// Builtin intrinsics appear as dedicated variants.
pub enum Expression {
    NumberLiteral { ty: Type, value: u128 },
    Variable { ty: Type, var_no: usize },
    FunctionArg { ty: Type, arg_no: usize },
    ArrayLength { base: Box<Expression> },
    ReadFromBuffer { ty: Type, buffer: Box<Expression>, offset: Box<Expression> },
    Blake2b256 { arg: Box<Expression> },
    ExternalFunctionAddress { function: Box<Expression> },
    ExternalFunctionSelector { function: Box<Expression> },
    Add { ty: Type, overflowing: bool, left: Box<Expression>, right: Box<Expression> },
    Multiply { ty: Type, overflowing: bool, left: Box<Expression>, right: Box<Expression> },
    BitwiseOr { ty: Type, left: Box<Expression>, right: Box<Expression> },
    More { signed: bool, left: Box<Expression>, right: Box<Expression> },
    Less { signed: bool, left: Box<Expression>, right: Box<Expression> },
    Equal { left: Box<Expression>, right: Box<Expression> },
    Trunc { ty: Type, expr: Box<Expression> },
    Cast { ty: Type, expr: Box<Expression> },
    AbiEncode { tys: Vec<Type>, packed: Vec<Expression>, args: Vec<Expression> },
    AllocDynamicBytes { ty: Type, size: Box<Expression>, initializer: Option<Vec<u8>> },
    ReturnData,
    StringConcat { ty: Type, left: StringLocation, right: StringLocation },
}

/// The mathematical value of a `StringLocation`.
#[verifier::ext_equal]
pub enum StringLocV {
    CompileTime(Seq<u8>),
    RunTime(Box<ExprV>),
}

/// The mathematical value of an `Expression`: the same tree with sequences
/// in place of vectors, so that equality is structural.
#[verifier::ext_equal]
pub enum ExprV {
    NumberLiteral { ty: Type, value: u128 },
    Variable { ty: Type, var_no: usize },
    FunctionArg { ty: Type, arg_no: usize },
    ArrayLength { base: Box<ExprV> },
    ReadFromBuffer { ty: Type, buffer: Box<ExprV>, offset: Box<ExprV> },
    Blake2b256 { arg: Box<ExprV> },
    ExternalFunctionAddress { function: Box<ExprV> },
    ExternalFunctionSelector { function: Box<ExprV> },
    Add { ty: Type, overflowing: bool, left: Box<ExprV>, right: Box<ExprV> },
    Multiply { ty: Type, overflowing: bool, left: Box<ExprV>, right: Box<ExprV> },
    BitwiseOr { ty: Type, left: Box<ExprV>, right: Box<ExprV> },
    More { signed: bool, left: Box<ExprV>, right: Box<ExprV> },
    Less { signed: bool, left: Box<ExprV>, right: Box<ExprV> },
    Equal { left: Box<ExprV>, right: Box<ExprV> },
    Trunc { ty: Type, expr: Box<ExprV> },
    Cast { ty: Type, expr: Box<ExprV> },
    AbiEncode { tys: Seq<Type>, packed: Seq<ExprV>, args: Seq<ExprV> },
    AllocDynamicBytes { ty: Type, size: Box<ExprV>, initializer: Option<Seq<u8>> },
    ReturnData,
    StringConcat { ty: Type, left: StringLocV, right: StringLocV },
}

impl DeepView for Type {
    type V = Type;

    open spec fn deep_view(&self) -> Type {
        *self
    }
}

impl DeepView for StringLocation {
    type V = StringLocV;

    open spec fn deep_view(&self) -> StringLocV
        decreases self,
    {
        match self {
            StringLocation::CompileTime(bytes) => StringLocV::CompileTime(bytes@),
            StringLocation::RunTime(e) => StringLocV::RunTime(Box::new((**e).deep_view())),
        }
    }
}

impl DeepView for Expression {
    type V = ExprV;

    open spec fn deep_view(&self) -> ExprV
        decreases self,
    {
        match self {
            Expression::NumberLiteral { ty, value } => ExprV::NumberLiteral {
                ty: *ty,
                value: *value,
            },
            Expression::Variable { ty, var_no } => ExprV::Variable { ty: *ty, var_no: *var_no },
            Expression::FunctionArg { ty, arg_no } => ExprV::FunctionArg {
                ty: *ty,
                arg_no: *arg_no,
            },
            Expression::ArrayLength { base } => ExprV::ArrayLength {
                base: Box::new((**base).deep_view()),
            },
            Expression::ReadFromBuffer { ty, buffer, offset } => ExprV::ReadFromBuffer {
                ty: *ty,
                buffer: Box::new((**buffer).deep_view()),
                offset: Box::new((**offset).deep_view()),
            },
            Expression::Blake2b256 { arg } => ExprV::Blake2b256 {
                arg: Box::new((**arg).deep_view()),
            },
            Expression::ExternalFunctionAddress { function } => ExprV::ExternalFunctionAddress {
                function: Box::new((**function).deep_view()),
            },
            Expression::ExternalFunctionSelector { function } => ExprV::ExternalFunctionSelector {
                function: Box::new((**function).deep_view()),
            },
            Expression::Add { ty, overflowing, left, right } => ExprV::Add {
                ty: *ty,
                overflowing: *overflowing,
                left: Box::new((**left).deep_view()),
                right: Box::new((**right).deep_view()),
            },
            Expression::Multiply { ty, overflowing, left, right } => ExprV::Multiply {
                ty: *ty,
                overflowing: *overflowing,
                left: Box::new((**left).deep_view()),
                right: Box::new((**right).deep_view()),
            },
            Expression::BitwiseOr { ty, left, right } => ExprV::BitwiseOr {
                ty: *ty,
                left: Box::new((**left).deep_view()),
                right: Box::new((**right).deep_view()),
            },
            Expression::More { signed, left, right } => ExprV::More {
                signed: *signed,
                left: Box::new((**left).deep_view()),
                right: Box::new((**right).deep_view()),
            },
            Expression::Less { signed, left, right } => ExprV::Less {
                signed: *signed,
                left: Box::new((**left).deep_view()),
                right: Box::new((**right).deep_view()),
            },
            Expression::Equal { left, right } => ExprV::Equal {
                left: Box::new((**left).deep_view()),
                right: Box::new((**right).deep_view()),
            },
            Expression::Trunc { ty, expr } => ExprV::Trunc {
                ty: *ty,
                expr: Box::new((**expr).deep_view()),
            },
            Expression::Cast { ty, expr } => ExprV::Cast {
                ty: *ty,
                expr: Box::new((**expr).deep_view()),
            },
            Expression::AbiEncode { tys, packed, args } => ExprV::AbiEncode {
                tys: tys.deep_view(),
                packed: Seq::new(
                    packed.len() as nat,
                    |i: int|
                        if 0 <= i < packed.len() {
                            packed[i].deep_view()
                        } else {
                            ExprV::ReturnData
                        },
                ),
                args: Seq::new(
                    args.len() as nat,
                    |i: int|
                        if 0 <= i < args.len() {
                            args[i].deep_view()
                        } else {
                            ExprV::ReturnData
                        },
                ),
            },
            Expression::AllocDynamicBytes { ty, size, initializer } => ExprV::AllocDynamicBytes {
                ty: *ty,
                size: Box::new((**size).deep_view()),
                initializer: match initializer {
                    Option::Some(bytes) => Option::Some(bytes@),
                    Option::None => Option::None,
                },
            },
            Expression::ReturnData => ExprV::ReturnData,
            Expression::StringConcat { ty, left, right } => ExprV::StringConcat {
                ty: *ty,
                left: left.deep_view(),
                right: right.deep_view(),
            },
        }
    }
}

/// Element-wise clone of an expression vector; the mathematical value is
/// preserved.
fn clone_exprs(v: &Vec<Expression>) -> (r: Vec<Expression>)
    ensures
        r@.len() == v@.len(),
        forall|k: int| 0 <= k < v@.len() ==> r@[k].deep_view() == v@[k].deep_view(),
    decreases *v,
{
    let n = v.len();
    let mut r: Vec<Expression> = Vec::new();
    let mut i: usize = 0;
    while i < n
        invariant
            i <= n,
            n == v@.len(),
            r@.len() == i,
            forall|k: int| 0 <= k < i ==> r@[k].deep_view() == v@[k].deep_view(),
        decreases n - i,
    {
        r.push(v[i].clone());
        i += 1;
    }
    r
}

/// Element-wise copy of a type vector.
fn clone_types(v: &Vec<Type>) -> (r: Vec<Type>)
    ensures
        r@.len() == v@.len(),
        forall|k: int| 0 <= k < v@.len() ==> r@[k] == v@[k],
{
    let n = v.len();
    let mut r: Vec<Type> = Vec::new();
    let mut i: usize = 0;
    while i < n
        invariant
            i <= n,
            n == v@.len(),
            r@.len() == i,
            forall|k: int| 0 <= k < i ==> r@[k] == v@[k],
        decreases n - i,
    {
        r.push(v[i].clone());
        i += 1;
    }
    r
}

/// Byte-for-byte copy of a buffer.
pub fn clone_bytes(v: &Vec<u8>) -> (r: Vec<u8>)
    ensures
        r@ == v@,
{
    let n = v.len();
    let mut r: Vec<u8> = Vec::new();
    let mut i: usize = 0;
    while i < n
        invariant
            i <= n,
            n == v@.len(),
            r@ =~= v@.take(i as int),
        decreases n - i,
    {
        r.push(v[i]);
        proof {
            assert(r@ =~= v@.take(i + 1));
        }
        i += 1;
    }
    proof {
        assert(r@ =~= v@);
    }
    r
}

impl Clone for StringLocation {
    fn clone(&self) -> (r: Self)
        ensures
            r.deep_view() == self.deep_view(),
        decreases *self,
    {
        match self {
            StringLocation::CompileTime(bytes) => StringLocation::CompileTime(clone_bytes(bytes)),
            StringLocation::RunTime(e) => StringLocation::RunTime(Box::new((**e).clone())),
        }
    }
}

impl Clone for Expression {
    fn clone(&self) -> (r: Self)
        ensures
            r.deep_view() == self.deep_view(),
            *self matches Expression::Variable { .. } ==> r == *self,
            *self matches Expression::NumberLiteral { .. } ==> r == *self,
            *self matches Expression::ReturnData ==> r == *self,
        decreases *self,
    {
        match self {
            Expression::NumberLiteral { ty, value } => Expression::NumberLiteral {
                ty: ty.clone(),
                value: *value,
            },
            Expression::Variable { ty, var_no } => Expression::Variable {
                ty: ty.clone(),
                var_no: *var_no,
            },
            Expression::FunctionArg { ty, arg_no } => Expression::FunctionArg {
                ty: ty.clone(),
                arg_no: *arg_no,
            },
            Expression::ArrayLength { base } => Expression::ArrayLength {
                base: Box::new((**base).clone()),
            },
            Expression::ReadFromBuffer { ty, buffer, offset } => Expression::ReadFromBuffer {
                ty: ty.clone(),
                buffer: Box::new((**buffer).clone()),
                offset: Box::new((**offset).clone()),
            },
            Expression::Blake2b256 { arg } => Expression::Blake2b256 {
                arg: Box::new((**arg).clone()),
            },
            Expression::ExternalFunctionAddress { function } => {
                Expression::ExternalFunctionAddress { function: Box::new((**function).clone()) }
            },
            Expression::ExternalFunctionSelector { function } => {
                Expression::ExternalFunctionSelector { function: Box::new((**function).clone()) }
            },
            Expression::Add { ty, overflowing, left, right } => Expression::Add {
                ty: ty.clone(),
                overflowing: *overflowing,
                left: Box::new((**left).clone()),
                right: Box::new((**right).clone()),
            },
            Expression::Multiply { ty, overflowing, left, right } => Expression::Multiply {
                ty: ty.clone(),
                overflowing: *overflowing,
                left: Box::new((**left).clone()),
                right: Box::new((**right).clone()),
            },
            Expression::BitwiseOr { ty, left, right } => Expression::BitwiseOr {
                ty: ty.clone(),
                left: Box::new((**left).clone()),
                right: Box::new((**right).clone()),
            },
            Expression::More { signed, left, right } => Expression::More {
                signed: *signed,
                left: Box::new((**left).clone()),
                right: Box::new((**right).clone()),
            },
            Expression::Less { signed, left, right } => Expression::Less {
                signed: *signed,
                left: Box::new((**left).clone()),
                right: Box::new((**right).clone()),
            },
            Expression::Equal { left, right } => Expression::Equal {
                left: Box::new((**left).clone()),
                right: Box::new((**right).clone()),
            },
            Expression::Trunc { ty, expr } => Expression::Trunc {
                ty: ty.clone(),
                expr: Box::new((**expr).clone()),
            },
            Expression::Cast { ty, expr } => Expression::Cast {
                ty: ty.clone(),
                expr: Box::new((**expr).clone()),
            },
            Expression::AbiEncode { tys, packed, args } => {
                let r = Expression::AbiEncode {
                    tys: clone_types(tys),
                    packed: clone_exprs(packed),
                    args: clone_exprs(args),
                };
                proof {
                    let rv = r.deep_view();
                    let sv = self.deep_view();
                    assert(rv matches ExprV::AbiEncode { tys: rt, packed: rp, args: ra }
                        && sv matches ExprV::AbiEncode { tys: st, packed: sp, args: sa } ==> {
                        &&& rt =~= st
                        &&& rp =~= sp
                        &&& ra =~= sa
                    });
                    assert(rv =~= sv);
                }
                r
            },
            Expression::AllocDynamicBytes { ty, size, initializer } => {
                Expression::AllocDynamicBytes {
                    ty: ty.clone(),
                    size: Box::new((**size).clone()),
                    initializer: match initializer {
                        Option::Some(bytes) => Option::Some(clone_bytes(bytes)),
                        Option::None => Option::None,
                    },
                }
            },
            Expression::ReturnData => Expression::ReturnData,
            Expression::StringConcat { ty, left, right } => Expression::StringConcat {
                ty: ty.clone(),
                left: left.clone(),
                right: right.clone(),
            },
        }
    }
}

impl Expression {
    /// The address half of an external-function reference.
    pub fn external_function_address(&self) -> (r: Expression)
        ensures
            r matches Expression::ExternalFunctionAddress { function } && function.deep_view()
                == self.deep_view(),
    {
        Expression::ExternalFunctionAddress { function: Box::new(self.clone()) }
    }

    /// The selector half of an external-function reference.
    pub fn external_function_selector(&self) -> (r: Expression)
        ensures
            r matches Expression::ExternalFunctionSelector { function } && function.deep_view()
                == self.deep_view(),
    {
        Expression::ExternalFunctionSelector { function: Box::new(self.clone()) }
    }
}

/// How an internal call names its target.
pub enum InternalCallTy {
    Static { cfg_no: usize },
    Dynamic(Expression),
}

/// One instruction. A block's last instruction must be a terminator:
/// `Branch`, `BranchCond`, `Switch`, `ReturnCode` or `AssertFailure`.
pub enum Instr {
    Assign { loc: crate::ast::Loc, res: usize, expr: Expression },
    Branch { block: usize },
    BranchCond { cond: Expression, true_block: usize, false_block: usize },
    Switch { cond: Expression, cases: Vec<(Expression, usize)>, default: usize },
    WriteBuffer { buf: Expression, offset: Expression, value: Expression },
    AbiDecode {
        res: Vec<usize>,
        selector: Option<u32>,
        exception_block: Option<usize>,
        tys: Vec<Parameter>,
        data: Expression,
        data_len: Option<Expression>,
    },
    Call { res: Vec<usize>, return_tys: Vec<Type>, call: InternalCallTy, args: Vec<Expression> },
    ExternalCall {
        success: Option<usize>,
        address: Option<Expression>,
        payload: Expression,
        value: Expression,
        gas: Expression,
        flags: Option<Expression>,
    },
    Constructor {
        success: Option<usize>,
        res: usize,
        contract_no: usize,
        constructor_no: Option<usize>,
        args: Vec<Expression>,
        value: Option<Expression>,
        gas: Expression,
        salt: Option<Expression>,
    },
    AssertFailure { encoded_args: Option<Expression> },
    ReturnCode { code: ReturnCode },
    EmitEvent {
        event_no: usize,
        data: Vec<Expression>,
        data_tys: Vec<Type>,
        topics: Vec<Expression>,
        topic_tys: Vec<Type>,
    },
    Nop,
}

/// Whether an instruction ends a basic block.
pub open spec fn is_terminator(i: Instr) -> bool {
    match i {
        Instr::Branch { .. } => true,
        Instr::BranchCond { .. } => true,
        Instr::Switch { .. } => true,
        Instr::ReturnCode { .. } => true,
        Instr::AssertFailure { .. } => true,
        _ => false,
    }
}

/// The variables an instruction assigns; they become dirty in every open
/// tracker when the instruction is appended.
pub open spec fn assigned_vars(i: Instr) -> Seq<usize> {
    match i {
        Instr::Assign { res, .. } => seq![res],
        Instr::AbiDecode { res, .. } => res@,
        Instr::Call { res, .. } => res@,
        _ => Seq::empty(),
    }
}

/// Every variable some instruction of the sequence assigns.
pub open spec fn assigned_set(instrs: Seq<Instr>) -> Set<usize> {
    Set::new(
        |x: usize|
            exists|k: int|
                0 <= k < instrs.len() && assigned_vars(#[trigger] instrs[k]).contains(x),
    )
}

/// Appending one instruction grows the assigned set by exactly that
/// instruction's assignments.
pub proof fn lemma_assigned_set_push(instrs: Seq<Instr>, ins: Instr)
    ensures
        assigned_set(instrs.push(ins)) == assigned_set(instrs).union(
            assigned_vars(ins).to_set(),
        ),
{
    assert forall|x: usize| assigned_set(instrs.push(ins)).contains(x) implies assigned_set(
        instrs,
    ).union(assigned_vars(ins).to_set()).contains(x) by {
        let k = choose|k: int|
            0 <= k < instrs.push(ins).len() && assigned_vars(
                #[trigger] instrs.push(ins)[k],
            ).contains(x);
        if k < instrs.len() {
            assert(instrs.push(ins)[k] == instrs[k]);
            assert(assigned_set(instrs).contains(x));
        } else {
            assert(instrs.push(ins)[k] == ins);
            assert(assigned_vars(ins).to_set().contains(x));
        }
    }
    assert forall|x: usize|
        assigned_set(instrs).union(assigned_vars(ins).to_set()).contains(
            x,
        ) implies assigned_set(instrs.push(ins)).contains(x) by {
        if assigned_set(instrs).contains(x) {
            let k = choose|k: int|
                0 <= k < instrs.len() && assigned_vars(#[trigger] instrs[k]).contains(x);
            assert(instrs.push(ins)[k] == instrs[k]);
            assert(assigned_vars(instrs.push(ins)[k]).contains(x));
        } else {
            assert(instrs.push(ins)[instrs.len() as int] == ins);
            assert(assigned_vars(instrs.push(ins)[instrs.len() as int]).contains(x));
        }
    }
    assert(assigned_set(instrs.push(ins)) =~= assigned_set(instrs).union(
        assigned_vars(ins).to_set(),
    ));
}

/// A straight-line sequence of instructions. `phis` records, for a merge
/// block, the ids whose value depends on the incoming edge.
pub struct BasicBlock {
    pub name: String,
    pub instr: Vec<Instr>,
    pub phis: Option<Vec<usize>>,
}

impl BasicBlock {
    /// The block accepts further instructions: it is empty or its last
    /// instruction is no terminator.
    pub open spec fn is_open(self) -> bool {
        self.instr@.len() == 0 || !is_terminator(self.instr@.last())
    }

    /// No terminator anywhere but (possibly) last.
    pub open spec fn wf(self) -> bool {
        forall|k: int| 0 <= k < self.instr@.len() - 1 ==> !is_terminator(#[trigger] self.instr@[k])
    }
}

/// An ordered set of basic blocks plus the target metadata dispatch needs.
/// Block 0 is the unique entry. `current` is where `add` appends.
pub struct ControlFlowGraph {
    pub name: String,
    pub function_no: ASTFunction,
    pub params: Vec<Parameter>,
    pub returns: Vec<Parameter>,
    pub blocks: Vec<BasicBlock>,
    pub current: usize,
    pub nonpayable: bool,
    pub public: bool,
    pub ty: FunctionTy,
    pub selector: Vec<u8>,
}

impl ControlFlowGraph {
    /// Every block holds at most one terminator, at its end, and the
    /// cursor points at an existing block.
    pub open spec fn wf(self) -> bool {
        &&& self.current < self.blocks@.len()
        &&& forall|b: int| 0 <= b < self.blocks@.len() ==> (#[trigger] self.blocks@[b]).wf()
    }

    /// The fields `add` and the block builders never touch.
    pub open spec fn meta(self) -> (String, ASTFunction, Seq<Parameter>, Seq<Parameter>, bool, bool, FunctionTy, Seq<u8>) {
        (self.name, self.function_no, self.params@, self.returns@, self.nonpayable, self.public, self.ty, self.selector@)
    }

    /// A fresh graph with a single, empty entry block.
    pub fn new(name: String, function_no: ASTFunction) -> (r: ControlFlowGraph)
        ensures
            r.wf(),
            r.name == name,
            r.function_no == function_no,
            r.blocks@.len() == 1,
            r.blocks@[0].instr@.len() == 0,
            r.blocks@[0].phis is None,
            r.current == 0,
            r.params@.len() == 0,
            r.returns@.len() == 0,
            !r.nonpayable,
            !r.public,
            r.ty == FunctionTy::Function,
            r.selector@.len() == 0,
    {
        let entry = BasicBlock { name: "entry".to_owned(), instr: Vec::new(), phis: Option::None };
        let mut blocks = Vec::new();
        blocks.push(entry);
        ControlFlowGraph {
            name,
            function_no,
            params: Vec::new(),
            returns: Vec::new(),
            blocks,
            current: 0,
            nonpayable: false,
            public: false,
            ty: FunctionTy::Function,
            selector: Vec::new(),
        }
    }

    /// Append a fresh, empty block and hand back its index. The cursor
    /// does not move: the new block receives instructions only after
    /// `set_basic_block`.
    pub fn new_basic_block(&mut self, name: String) -> (bb: usize)
        requires
            old(self).wf(),
            old(self).blocks@.len() < usize::MAX,
        ensures
            final(self).wf(),
            bb == old(self).blocks@.len(),
            final(self).blocks@.len() == old(self).blocks@.len() + 1,
            final(self).blocks@ == old(self).blocks@.push(final(self).blocks@.last()),
            final(self).blocks@.last().name == name,
            final(self).blocks@.last().instr@.len() == 0,
            final(self).blocks@.last().phis is None,
            final(self).current == old(self).current,
            final(self).meta() == old(self).meta(),
    {
        let bb = self.blocks.len();
        self.blocks.push(BasicBlock { name, instr: Vec::new(), phis: Option::None });
        bb
    }

    /// Move the cursor: subsequent `add` calls append to block `bb`.
    pub fn set_basic_block(&mut self, bb: usize)
        requires
            old(self).wf(),
            bb < old(self).blocks@.len(),
        ensures
            final(self).wf(),
            *final(self) == (ControlFlowGraph { current: bb, ..*old(self) }),
    {
        self.current = bb;
    }

    /// Record the phi set of a merge block.
    pub fn set_phis(&mut self, block: usize, phis: Vec<usize>)
        requires
            old(self).wf(),
            block < old(self).blocks@.len(),
        ensures
            final(self).wf(),
            final(self).blocks@ == old(self).blocks@.update(
                block as int,
                BasicBlock { phis: Option::Some(phis), ..old(self).blocks@[block as int] },
            ),
            final(self).current == old(self).current,
            final(self).meta() == old(self).meta(),
    {
        let b = &mut self.blocks[block];
        b.phis = Option::Some(phis);
        proof {
            assert(self.blocks@[block as int].wf());
        }
    }

    /// Append `ins` to the current block, which must still be open, and
    /// mark the variables `ins` assigns as dirty in every open tracker.
    pub fn add(&mut self, vartab: &mut Vartable, ins: Instr)
        requires
            old(self).wf(),
            old(self).blocks@[old(self).current as int].is_open(),
            old(vartab).wf(),
        ensures
            final(self).wf(),
            final(vartab).wf(),
            final(self).blocks@ == old(self).blocks@.update(
                old(self).current as int,
                BasicBlock {
                    instr: final(self).blocks@[old(self).current as int].instr,
                    ..old(self).blocks@[old(self).current as int]
                },
            ),
            final(self).blocks@[old(self).current as int].instr@ == old(self).blocks@[old(
                self,
            ).current as int].instr@.push(ins),
            final(self).current == old(self).current,
            final(self).meta() == old(self).meta(),
            final(vartab).vars == old(vartab).vars,
            final(vartab).next_id == old(vartab).next_id,
            final(vartab).dirty@.len() == old(vartab).dirty@.len(),
            forall|t: int|
                0 <= t < final(vartab).dirty@.len() ==> final(vartab).tracker_set(t) == old(
                    vartab,
                ).tracker_set(t).union(assigned_vars(ins).to_set()),
            assigned_vars(ins).len() == 0 ==> *final(vartab) == *old(vartab),
    {
        match &ins {
            Instr::Assign { res, .. } => {
                vartab.set_dirty(*res);
                proof {
                    assert forall|t: int| 0 <= t < vartab.dirty@.len() implies vartab.tracker_set(
                        t,
                    ) == old(vartab).tracker_set(t).union(assigned_vars(ins).to_set()) by {
                        assert(assigned_vars(ins) == seq![*res]);
                        assert(seq![*res][0] == *res);
                        assert(seq![*res].contains(*res));
                        assert forall|x: usize| seq![*res].contains(x) implies x == *res by {
                            let i = choose|i: int| 0 <= i < seq![*res].len() && seq![*res][i] == x;
                            assert(seq![*res][i] == *res);
                        }
                        assert(assigned_vars(ins).to_set() =~= Set::empty().insert(*res));
                        assert(old(vartab).tracker_set(t).insert(*res) =~= old(vartab).tracker_set(
                            t,
                        ).union(Set::empty().insert(*res)));
                    }
                }
            },
            Instr::AbiDecode { res, .. } => {
                mark_all_dirty(vartab, res);
            },
            Instr::Call { res, .. } => {
                mark_all_dirty(vartab, res);
            },
            _ => {
                proof {
                    assert forall|t: int| 0 <= t < vartab.dirty@.len() implies vartab.tracker_set(
                        t,
                    ) == old(vartab).tracker_set(t).union(assigned_vars(ins).to_set()) by {
                        assert(assigned_vars(ins).to_set() =~= Set::empty());
                        assert(old(vartab).tracker_set(t).union(Set::empty()) =~= old(
                            vartab,
                        ).tracker_set(t));
                    }
                }
            },
        }
        let cur = self.current;
        let b = &mut self.blocks[cur];
        let ghost prev = *b;
        b.instr.push(ins);
        proof {
            assert(self.blocks@[cur as int].wf()) by {
                assert(prev.is_open());
                assert(self.blocks@[cur as int].instr@ == prev.instr@.push(ins));
            }
        }
    }
}

/// Mark every id in `res` dirty in every open tracker.
fn mark_all_dirty(vartab: &mut Vartable, res: &Vec<usize>)
    requires
        old(vartab).wf(),
    ensures
        final(vartab).wf(),
        final(vartab).vars == old(vartab).vars,
        final(vartab).next_id == old(vartab).next_id,
        final(vartab).dirty@.len() == old(vartab).dirty@.len(),
        forall|t: int|
            0 <= t < final(vartab).dirty@.len() ==> final(vartab).tracker_set(t) == old(
                vartab,
            ).tracker_set(t).union(res@.to_set()),
        res@.len() == 0 ==> *final(vartab) == *old(vartab),
{
    let n = res.len();
    let mut i: usize = 0;
    while i < n
        invariant
            i <= n,
            n == res@.len(),
            vartab.wf(),
            vartab.vars == old(vartab).vars,
            vartab.next_id == old(vartab).next_id,
            vartab.dirty@.len() == old(vartab).dirty@.len(),
            forall|t: int|
                0 <= t < vartab.dirty@.len() ==> vartab.tracker_set(t) == old(
                    vartab,
                ).tracker_set(t).union(res@.take(i as int).to_set()),
            i == 0 ==> *vartab == *old(vartab),
        decreases n - i,
    {
        let ghost pre = *vartab;
        vartab.set_dirty(res[i]);
        proof {
            assert forall|t: int| 0 <= t < vartab.dirty@.len() implies vartab.tracker_set(t)
                == old(vartab).tracker_set(t).union(res@.take(i + 1).to_set()) by {
                assert(vartab.tracker_set(t) == pre.tracker_set(t).insert(res@[i as int]));
                assert(res@.take(i + 1) == res@.take(i as int).push(res@[i as int]));
                res@.take(i as int).lemma_push_to_set_commute(res@[i as int]);
                assert(pre.tracker_set(t).insert(res@[i as int]) =~= old(vartab).tracker_set(
                    t,
                ).union(res@.take(i + 1).to_set()));
            }
        }
        i += 1;
    }
    proof {
        assert(res@.take(n as int) == res@);
    }
}

impl Expression {
    /// The type an expression evaluates to.
    pub open spec fn spec_ty(&self) -> Type {
        match self {
            Expression::NumberLiteral { ty, .. } => *ty,
            Expression::Variable { ty, .. } => *ty,
            Expression::FunctionArg { ty, .. } => *ty,
            Expression::ArrayLength { .. } => Type::Uint(32),
            Expression::ReadFromBuffer { ty, .. } => *ty,
            Expression::Blake2b256 { .. } => Type::Bytes(32),
            Expression::ExternalFunctionAddress { .. } => Type::Address(false),
            Expression::ExternalFunctionSelector { .. } => Type::Bytes(4),
            Expression::Add { ty, .. } => *ty,
            Expression::Multiply { ty, .. } => *ty,
            Expression::BitwiseOr { ty, .. } => *ty,
            Expression::More { .. } => Type::Bool,
            Expression::Less { .. } => Type::Bool,
            Expression::Equal { .. } => Type::Bool,
            Expression::Trunc { ty, .. } => *ty,
            Expression::Cast { ty, .. } => *ty,
            Expression::AbiEncode { .. } => Type::DynamicBytes,
            Expression::AllocDynamicBytes { ty, .. } => *ty,
            Expression::ReturnData => Type::DynamicBytes,
            Expression::StringConcat { ty, .. } => *ty,
        }
    }

    /// Executable mirror of `spec_ty`.
    pub fn ty(&self) -> (r: Type)
        ensures
            r == self.spec_ty(),
    {
        match self {
            Expression::NumberLiteral { ty, .. } => ty.clone(),
            Expression::Variable { ty, .. } => ty.clone(),
            Expression::FunctionArg { ty, .. } => ty.clone(),
            Expression::ArrayLength { .. } => Type::Uint(32),
            Expression::ReadFromBuffer { ty, .. } => ty.clone(),
            Expression::Blake2b256 { .. } => Type::Bytes(32),
            Expression::ExternalFunctionAddress { .. } => Type::Address(false),
            Expression::ExternalFunctionSelector { .. } => Type::Bytes(4),
            Expression::Add { ty, .. } => ty.clone(),
            Expression::Multiply { ty, .. } => ty.clone(),
            Expression::BitwiseOr { ty, .. } => ty.clone(),
            Expression::More { .. } => Type::Bool,
            Expression::Less { .. } => Type::Bool,
            Expression::Equal { .. } => Type::Bool,
            Expression::Trunc { ty, .. } => ty.clone(),
            Expression::Cast { ty, .. } => ty.clone(),
            Expression::AbiEncode { .. } => Type::DynamicBytes,
            Expression::AllocDynamicBytes { ty, .. } => ty.clone(),
            Expression::ReturnData => Type::DynamicBytes,
            Expression::StringConcat { ty, .. } => ty.clone(),
        }
    }
}

} // verus!
