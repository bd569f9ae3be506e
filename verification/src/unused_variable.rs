//! Marking of variable usage and the unused-variable diagnostics.
//!
//! The checks walk the typed expression tree and set `read` / `assigned`
//! flags on local variables (in the symbol table) and on storage
//! variables and constants (in the namespace); a later pass turns the
//! flags that never went on into warnings.

use vstd::prelude::*;
use vstd::string::StringExecFns;

use crate::ast::{
    Builtin, Contract, Diagnostic, ErrorType, Expression, Function, Level, Loc, Namespace, Note,
    Statement, Symtable, SymtableVariable, Variable, VariableUsage,
};

verus! {

broadcast use {
    vstd::std_specs::vec::axiom_vec_decreases_to_view,
    vstd::seq::axiom_seq_index_decreases,
};

/// Every variable reference in the expression resolves: local offsets
/// point into the symbol table, storage references into their contract,
/// constants into the constant table, functions into the function table.
pub open spec fn expr_wf(ns: Namespace, e: Expression, sym: Symtable) -> bool
    decreases e,
{
    match e {
        Expression::StorageVariable(_, _, contract_no, offset) => contract_no
            < ns.contracts@.len() && offset < ns.contracts@[contract_no as int].variables@.len(),
        Expression::Variable(_, _, offset) => offset < sym.vars@.len(),
        Expression::ConstantVariable(_, _, contract, offset) => match contract {
            Option::Some(c) => c < ns.contracts@.len() && offset
                < ns.contracts@[c as int].variables@.len(),
            Option::None => offset < ns.constants@.len(),
        },
        Expression::StructMember(_, _, base, _) => expr_wf(ns, *base, sym),
        Expression::Subscript(_, _, array, index) => expr_wf(ns, *array, sym) && expr_wf(
            ns,
            *index,
            sym,
        ),
        Expression::DynamicArraySubscript(_, _, array, index) => expr_wf(ns, *array, sym)
            && expr_wf(ns, *index, sym),
        Expression::StorageBytesSubscript(_, array, index) => expr_wf(ns, *array, sym) && expr_wf(
            ns,
            *index,
            sym,
        ),
        Expression::DynamicArrayLength(_, array) => expr_wf(ns, *array, sym),
        Expression::StorageArrayLength { array, .. } => expr_wf(ns, *array, sym),
        Expression::StorageLoad(_, _, inner) => expr_wf(ns, *inner, sym),
        Expression::SignExt(_, _, inner) => expr_wf(ns, *inner, sym),
        Expression::ZeroExt(_, _, inner) => expr_wf(ns, *inner, sym),
        Expression::Trunc(_, _, inner) => expr_wf(ns, *inner, sym),
        Expression::Cast(_, _, inner) => expr_wf(ns, *inner, sym),
        Expression::BytesCast(_, _, _, inner) => expr_wf(ns, *inner, sym),
        Expression::InternalFunctionCall { function, args, .. } => expr_wf(ns, *function, sym)
            && seq_wf(ns, args@, sym),
        Expression::ExternalFunctionCall { function, args, value, gas, .. } => expr_wf(
            ns,
            *function,
            sym,
        ) && seq_wf(ns, args@, sym) && expr_wf(ns, *value, sym) && expr_wf(ns, *gas, sym),
        Expression::Constructor { args, gas, value, salt, space, .. } => seq_wf(ns, args@, sym)
            && expr_wf(ns, *gas, sym) && (value matches Option::Some(v) ==> expr_wf(ns, *v, sym))
            && (salt matches Option::Some(v) ==> expr_wf(ns, *v, sym)) && (space
            matches Option::Some(v) ==> expr_wf(ns, *v, sym)),
        Expression::ExternalFunctionCallRaw { address, args, value, gas, .. } => expr_wf(
            ns,
            *address,
            sym,
        ) && expr_wf(ns, *args, sym) && expr_wf(ns, *value, sym) && expr_wf(ns, *gas, sym),
        Expression::ExternalFunction { address, function_no, .. } => expr_wf(ns, *address, sym)
            && function_no < ns.functions@.len(),
        Expression::Builtin(_, _, _, args) => seq_wf(ns, args@, sym),
        Expression::DynamicArrayPush(_, array, _, arg) => expr_wf(ns, *array, sym) && expr_wf(
            ns,
            *arg,
            sym,
        ),
        Expression::DynamicArrayPop(_, array, _) => expr_wf(ns, *array, sym),
        _ => true,
    }
}

/// Well-formedness of every expression in a sequence.
pub open spec fn seq_wf(ns: Namespace, s: Seq<Expression>, sym: Symtable) -> bool
    decreases s,
{
    forall|i: int| 0 <= i < s.len() ==> expr_wf(ns, #[trigger] s[i], sym)
}

/// The usage flags may only switch on, and nothing else changes: same
/// tables, same names, same types, same diagnostics.
pub open spec fn flags_monotone(
    pre_ns: Namespace,
    pre_sym: Symtable,
    post_ns: Namespace,
    post_sym: Symtable,
) -> bool {
    &&& post_ns.target == pre_ns.target
    &&& post_ns.next_id == pre_ns.next_id
    &&& post_ns.address_length == pre_ns.address_length
    &&& post_ns.value_length == pre_ns.value_length
    &&& post_ns.functions@ == pre_ns.functions@
    &&& post_ns.events@ == pre_ns.events@
    &&& post_ns.structs@ == pre_ns.structs@
    &&& post_ns.enums@ == pre_ns.enums@
    &&& post_ns.diagnostics@ == pre_ns.diagnostics@
    &&& post_ns.contracts@.len() == pre_ns.contracts@.len()
    &&& forall|c: int|
        0 <= c < pre_ns.contracts@.len() ==> (#[trigger] post_ns.contracts@[c]) == (Contract {
            variables: post_ns.contracts@[c].variables,
            ..pre_ns.contracts@[c]
        })
    &&& forall|c: int|
        0 <= c < pre_ns.contracts@.len() ==> (#[trigger] post_ns.contracts@[c].variables@.len())
            == pre_ns.contracts@[c].variables@.len()
    &&& forall|c: int, o: int|
        0 <= c < pre_ns.contracts@.len() && 0 <= o < pre_ns.contracts@[c].variables@.len() ==> (
        #[trigger] post_ns.contracts@[c].variables@[o]) == (Variable {
            read: post_ns.contracts@[c].variables@[o].read,
            assigned: post_ns.contracts@[c].variables@[o].assigned,
            ..pre_ns.contracts@[c].variables@[o]
        }) && (pre_ns.contracts@[c].variables@[o].read
            ==> post_ns.contracts@[c].variables@[o].read) && (
        pre_ns.contracts@[c].variables@[o].assigned
            ==> post_ns.contracts@[c].variables@[o].assigned)
    &&& post_ns.constants@.len() == pre_ns.constants@.len()
    &&& forall|o: int|
        0 <= o < pre_ns.constants@.len() ==> (#[trigger] post_ns.constants@[o]) == (Variable {
            read: post_ns.constants@[o].read,
            assigned: post_ns.constants@[o].assigned,
            ..pre_ns.constants@[o]
        }) && (pre_ns.constants@[o].read ==> post_ns.constants@[o].read) && (
        pre_ns.constants@[o].assigned ==> post_ns.constants@[o].assigned)
    &&& post_sym.vars@.len() == pre_sym.vars@.len()
    &&& forall|o: int|
        0 <= o < pre_sym.vars@.len() ==> (#[trigger] post_sym.vars@[o]) == (SymtableVariable {
            read: post_sym.vars@[o].read,
            assigned: post_sym.vars@[o].assigned,
            ..pre_sym.vars@[o]
        }) && (pre_sym.vars@[o].read ==> post_sym.vars@[o].read) && (pre_sym.vars@[o].assigned
            ==> post_sym.vars@[o].assigned)
}

/// The table sizes expression well-formedness depends on.
pub open spec fn same_shape(
    pre_ns: Namespace,
    pre_sym: Symtable,
    post_ns: Namespace,
    post_sym: Symtable,
) -> bool {
    &&& post_ns.contracts@.len() == pre_ns.contracts@.len()
    &&& forall|c: int|
        0 <= c < pre_ns.contracts@.len() ==> (#[trigger] post_ns.contracts@[c].variables@.len())
            == pre_ns.contracts@[c].variables@.len()
    &&& post_ns.constants@.len() == pre_ns.constants@.len()
    &&& post_ns.functions@.len() == pre_ns.functions@.len()
    &&& post_sym.vars@.len() == pre_sym.vars@.len()
}

/// Monotone flag evolution composes.
pub proof fn lemma_flags_monotone_trans(
    ns0: Namespace,
    sym0: Symtable,
    ns1: Namespace,
    sym1: Symtable,
    ns2: Namespace,
    sym2: Symtable,
)
    requires
        flags_monotone(ns0, sym0, ns1, sym1),
        flags_monotone(ns1, sym1, ns2, sym2),
    ensures
        flags_monotone(ns0, sym0, ns2, sym2),
{
}

/// Well-formedness of an expression depends only on table sizes, which
/// flag marking never changes.
pub proof fn lemma_expr_wf_preserved(
    ns0: Namespace,
    sym0: Symtable,
    ns1: Namespace,
    sym1: Symtable,
    e: Expression,
)
    requires
        expr_wf(ns0, e, sym0),
        flags_monotone(ns0, sym0, ns1, sym1),
    ensures
        expr_wf(ns1, e, sym1),
    decreases e,
{
    match e {
        Expression::StructMember(_, _, base, _) => {
            lemma_expr_wf_preserved(ns0, sym0, ns1, sym1, *base);
        },
        Expression::Subscript(_, _, array, index) => {
            lemma_expr_wf_preserved(ns0, sym0, ns1, sym1, *array);
            lemma_expr_wf_preserved(ns0, sym0, ns1, sym1, *index);
        },
        Expression::DynamicArraySubscript(_, _, array, index) => {
            lemma_expr_wf_preserved(ns0, sym0, ns1, sym1, *array);
            lemma_expr_wf_preserved(ns0, sym0, ns1, sym1, *index);
        },
        Expression::StorageBytesSubscript(_, array, index) => {
            lemma_expr_wf_preserved(ns0, sym0, ns1, sym1, *array);
            lemma_expr_wf_preserved(ns0, sym0, ns1, sym1, *index);
        },
        Expression::DynamicArrayLength(_, array) => {
            lemma_expr_wf_preserved(ns0, sym0, ns1, sym1, *array);
        },
        Expression::StorageArrayLength { array, .. } => {
            lemma_expr_wf_preserved(ns0, sym0, ns1, sym1, *array);
        },
        Expression::StorageLoad(_, _, inner) => {
            lemma_expr_wf_preserved(ns0, sym0, ns1, sym1, *inner);
        },
        Expression::SignExt(_, _, inner) => {
            lemma_expr_wf_preserved(ns0, sym0, ns1, sym1, *inner);
        },
        Expression::ZeroExt(_, _, inner) => {
            lemma_expr_wf_preserved(ns0, sym0, ns1, sym1, *inner);
        },
        Expression::Trunc(_, _, inner) => {
            lemma_expr_wf_preserved(ns0, sym0, ns1, sym1, *inner);
        },
        Expression::Cast(_, _, inner) => {
            lemma_expr_wf_preserved(ns0, sym0, ns1, sym1, *inner);
        },
        Expression::BytesCast(_, _, _, inner) => {
            lemma_expr_wf_preserved(ns0, sym0, ns1, sym1, *inner);
        },
        Expression::InternalFunctionCall { function, args, .. } => {
            lemma_expr_wf_preserved(ns0, sym0, ns1, sym1, *function);
            assert forall|i: int| 0 <= i < args@.len() implies expr_wf(
                ns1,
                #[trigger] args@[i],
                sym1,
            ) by {
                assert(seq_wf(ns0, args@, sym0));
                assert(expr_wf(ns0, args@[i], sym0));
                lemma_expr_wf_preserved(ns0, sym0, ns1, sym1, args@[i]);
            }
            assert(seq_wf(ns1, args@, sym1));
        },
        Expression::ExternalFunctionCall { function, args, value, gas, .. } => {
            lemma_expr_wf_preserved(ns0, sym0, ns1, sym1, *function);
            lemma_expr_wf_preserved(ns0, sym0, ns1, sym1, *value);
            lemma_expr_wf_preserved(ns0, sym0, ns1, sym1, *gas);
            assert forall|i: int| 0 <= i < args@.len() implies expr_wf(
                ns1,
                #[trigger] args@[i],
                sym1,
            ) by {
                assert(seq_wf(ns0, args@, sym0));
                assert(expr_wf(ns0, args@[i], sym0));
                lemma_expr_wf_preserved(ns0, sym0, ns1, sym1, args@[i]);
            }
            assert(seq_wf(ns1, args@, sym1));
        },
        Expression::Constructor { args, gas, value, salt, space, .. } => {
            lemma_expr_wf_preserved(ns0, sym0, ns1, sym1, *gas);
            if value is Some {
                lemma_expr_wf_preserved(ns0, sym0, ns1, sym1, *value->0);
            }
            if salt is Some {
                lemma_expr_wf_preserved(ns0, sym0, ns1, sym1, *salt->0);
            }
            if space is Some {
                lemma_expr_wf_preserved(ns0, sym0, ns1, sym1, *space->0);
            }
            assert forall|i: int| 0 <= i < args@.len() implies expr_wf(
                ns1,
                #[trigger] args@[i],
                sym1,
            ) by {
                assert(seq_wf(ns0, args@, sym0));
                assert(expr_wf(ns0, args@[i], sym0));
                lemma_expr_wf_preserved(ns0, sym0, ns1, sym1, args@[i]);
            }
            assert(seq_wf(ns1, args@, sym1));
        },
        Expression::ExternalFunctionCallRaw { address, args, value, gas, .. } => {
            lemma_expr_wf_preserved(ns0, sym0, ns1, sym1, *address);
            lemma_expr_wf_preserved(ns0, sym0, ns1, sym1, *args);
            lemma_expr_wf_preserved(ns0, sym0, ns1, sym1, *value);
            lemma_expr_wf_preserved(ns0, sym0, ns1, sym1, *gas);
        },
        Expression::ExternalFunction { address, .. } => {
            lemma_expr_wf_preserved(ns0, sym0, ns1, sym1, *address);
        },
        Expression::Builtin(_, _, _, args) => {
            assert forall|i: int| 0 <= i < args@.len() implies expr_wf(
                ns1,
                #[trigger] args@[i],
                sym1,
            ) by {
                assert(seq_wf(ns0, args@, sym0));
                assert(expr_wf(ns0, args@[i], sym0));
                lemma_expr_wf_preserved(ns0, sym0, ns1, sym1, args@[i]);
            }
            assert(seq_wf(ns1, args@, sym1));
        },
        Expression::DynamicArrayPush(_, array, _, arg) => {
            lemma_expr_wf_preserved(ns0, sym0, ns1, sym1, *array);
            lemma_expr_wf_preserved(ns0, sym0, ns1, sym1, *arg);
        },
        Expression::DynamicArrayPop(_, array, _) => {
            lemma_expr_wf_preserved(ns0, sym0, ns1, sym1, *array);
        },
        _ => {},
    }
}

/// Well-formedness is insensitive to anything but the table sizes.
pub proof fn lemma_expr_wf_shape(
    ns0: Namespace,
    sym0: Symtable,
    ns1: Namespace,
    sym1: Symtable,
    e: Expression,
)
    requires
        expr_wf(ns0, e, sym0),
        same_shape(ns0, sym0, ns1, sym1),
    ensures
        expr_wf(ns1, e, sym1),
    decreases e,
{
    match e {
        Expression::StructMember(_, _, base, _) => {
            lemma_expr_wf_shape(ns0, sym0, ns1, sym1, *base);
        },
        Expression::Subscript(_, _, array, index) => {
            lemma_expr_wf_shape(ns0, sym0, ns1, sym1, *array);
            lemma_expr_wf_shape(ns0, sym0, ns1, sym1, *index);
        },
        Expression::DynamicArraySubscript(_, _, array, index) => {
            lemma_expr_wf_shape(ns0, sym0, ns1, sym1, *array);
            lemma_expr_wf_shape(ns0, sym0, ns1, sym1, *index);
        },
        Expression::StorageBytesSubscript(_, array, index) => {
            lemma_expr_wf_shape(ns0, sym0, ns1, sym1, *array);
            lemma_expr_wf_shape(ns0, sym0, ns1, sym1, *index);
        },
        Expression::DynamicArrayLength(_, array) => {
            lemma_expr_wf_shape(ns0, sym0, ns1, sym1, *array);
        },
        Expression::StorageArrayLength { array, .. } => {
            lemma_expr_wf_shape(ns0, sym0, ns1, sym1, *array);
        },
        Expression::StorageLoad(_, _, inner) => {
            lemma_expr_wf_shape(ns0, sym0, ns1, sym1, *inner);
        },
        Expression::SignExt(_, _, inner) => {
            lemma_expr_wf_shape(ns0, sym0, ns1, sym1, *inner);
        },
        Expression::ZeroExt(_, _, inner) => {
            lemma_expr_wf_shape(ns0, sym0, ns1, sym1, *inner);
        },
        Expression::Trunc(_, _, inner) => {
            lemma_expr_wf_shape(ns0, sym0, ns1, sym1, *inner);
        },
        Expression::Cast(_, _, inner) => {
            lemma_expr_wf_shape(ns0, sym0, ns1, sym1, *inner);
        },
        Expression::BytesCast(_, _, _, inner) => {
            lemma_expr_wf_shape(ns0, sym0, ns1, sym1, *inner);
        },
        Expression::InternalFunctionCall { function, args, .. } => {
            lemma_expr_wf_shape(ns0, sym0, ns1, sym1, *function);
            assert forall|i: int| 0 <= i < args@.len() implies expr_wf(
                ns1,
                #[trigger] args@[i],
                sym1,
            ) by {
                assert(seq_wf(ns0, args@, sym0));
                assert(expr_wf(ns0, args@[i], sym0));
                lemma_expr_wf_shape(ns0, sym0, ns1, sym1, args@[i]);
            }
            assert(seq_wf(ns1, args@, sym1));
        },
        Expression::ExternalFunctionCall { function, args, value, gas, .. } => {
            lemma_expr_wf_shape(ns0, sym0, ns1, sym1, *function);
            lemma_expr_wf_shape(ns0, sym0, ns1, sym1, *value);
            lemma_expr_wf_shape(ns0, sym0, ns1, sym1, *gas);
            assert forall|i: int| 0 <= i < args@.len() implies expr_wf(
                ns1,
                #[trigger] args@[i],
                sym1,
            ) by {
                assert(seq_wf(ns0, args@, sym0));
                assert(expr_wf(ns0, args@[i], sym0));
                lemma_expr_wf_shape(ns0, sym0, ns1, sym1, args@[i]);
            }
            assert(seq_wf(ns1, args@, sym1));
        },
        Expression::Constructor { args, gas, value, salt, space, .. } => {
            lemma_expr_wf_shape(ns0, sym0, ns1, sym1, *gas);
            if value is Some {
                lemma_expr_wf_shape(ns0, sym0, ns1, sym1, *value->0);
            }
            if salt is Some {
                lemma_expr_wf_shape(ns0, sym0, ns1, sym1, *salt->0);
            }
            if space is Some {
                lemma_expr_wf_shape(ns0, sym0, ns1, sym1, *space->0);
            }
            assert forall|i: int| 0 <= i < args@.len() implies expr_wf(
                ns1,
                #[trigger] args@[i],
                sym1,
            ) by {
                assert(seq_wf(ns0, args@, sym0));
                assert(expr_wf(ns0, args@[i], sym0));
                lemma_expr_wf_shape(ns0, sym0, ns1, sym1, args@[i]);
            }
            assert(seq_wf(ns1, args@, sym1));
        },
        Expression::ExternalFunctionCallRaw { address, args, value, gas, .. } => {
            lemma_expr_wf_shape(ns0, sym0, ns1, sym1, *address);
            lemma_expr_wf_shape(ns0, sym0, ns1, sym1, *args);
            lemma_expr_wf_shape(ns0, sym0, ns1, sym1, *value);
            lemma_expr_wf_shape(ns0, sym0, ns1, sym1, *gas);
        },
        Expression::ExternalFunction { address, .. } => {
            lemma_expr_wf_shape(ns0, sym0, ns1, sym1, *address);
        },
        Expression::Builtin(_, _, _, args) => {
            assert forall|i: int| 0 <= i < args@.len() implies expr_wf(
                ns1,
                #[trigger] args@[i],
                sym1,
            ) by {
                assert(seq_wf(ns0, args@, sym0));
                assert(expr_wf(ns0, args@[i], sym0));
                lemma_expr_wf_shape(ns0, sym0, ns1, sym1, args@[i]);
            }
            assert(seq_wf(ns1, args@, sym1));
        },
        Expression::DynamicArrayPush(_, array, _, arg) => {
            lemma_expr_wf_shape(ns0, sym0, ns1, sym1, *array);
            lemma_expr_wf_shape(ns0, sym0, ns1, sym1, *arg);
        },
        Expression::DynamicArrayPop(_, array, _) => {
            lemma_expr_wf_shape(ns0, sym0, ns1, sym1, *array);
        },
        _ => {},
    }
}


/// One flag the marking can switch on.
#[derive(Clone, Copy, PartialEq, Eq, Structural, Debug)]
pub enum UsageMark {
    LocalRead(usize),
    LocalAssigned(usize),
    StorageRead(usize, usize),
    StorageAssigned(usize, usize),
    ConstantRead(usize),
}

/// The post state is the pre state with exactly the given marks applied:
/// a flag is on afterwards precisely when it was on before or its mark is
/// in the set, and nothing else changes.
pub open spec fn marked(
    pre_ns: Namespace,
    pre_sym: Symtable,
    post_ns: Namespace,
    post_sym: Symtable,
    m: Set<UsageMark>,
) -> bool {
    &&& post_ns.target == pre_ns.target
    &&& post_ns.next_id == pre_ns.next_id
    &&& post_ns.address_length == pre_ns.address_length
    &&& post_ns.value_length == pre_ns.value_length
    &&& post_ns.functions@ == pre_ns.functions@
    &&& post_ns.events@ == pre_ns.events@
    &&& post_ns.structs@ == pre_ns.structs@
    &&& post_ns.enums@ == pre_ns.enums@
    &&& post_ns.diagnostics@ == pre_ns.diagnostics@
    &&& post_ns.contracts@.len() == pre_ns.contracts@.len()
    &&& forall|c: usize|
        c < pre_ns.contracts@.len() ==> (#[trigger] post_ns.contracts@[c as int]) == (Contract {
            variables: post_ns.contracts@[c as int].variables,
            ..pre_ns.contracts@[c as int]
        })
    &&& forall|c: usize|
        c < pre_ns.contracts@.len() ==> (#[trigger] post_ns.contracts@[c as int].variables@.len())
            == pre_ns.contracts@[c as int].variables@.len()
    &&& forall|c: usize, o: usize|
        c < pre_ns.contracts@.len() && o < pre_ns.contracts@[c as int].variables@.len() ==> (
        #[trigger] post_ns.contracts@[c as int].variables@[o as int]) == (Variable {
            read: pre_ns.contracts@[c as int].variables@[o as int].read || m.contains(
                UsageMark::StorageRead(c, o),
            ),
            assigned: pre_ns.contracts@[c as int].variables@[o as int].assigned || m.contains(
                UsageMark::StorageAssigned(c, o),
            ),
            ..pre_ns.contracts@[c as int].variables@[o as int]
        })
    &&& post_ns.constants@.len() == pre_ns.constants@.len()
    &&& forall|o: usize|
        o < pre_ns.constants@.len() ==> (#[trigger] post_ns.constants@[o as int]) == (Variable {
            read: pre_ns.constants@[o as int].read || m.contains(UsageMark::ConstantRead(o)),
            assigned: pre_ns.constants@[o as int].assigned,
            ..pre_ns.constants@[o as int]
        })
    &&& post_sym.vars@.len() == pre_sym.vars@.len()
    &&& forall|o: usize|
        o < pre_sym.vars@.len() ==> (#[trigger] post_sym.vars@[o as int]) == (SymtableVariable {
            read: pre_sym.vars@[o as int].read || m.contains(UsageMark::LocalRead(o)),
            assigned: pre_sym.vars@[o as int].assigned || m.contains(
                UsageMark::LocalAssigned(o),
            ),
            ..pre_sym.vars@[o as int]
        })
}

/// Applying one mark set and then another applies their union.
pub proof fn lemma_marked_trans(
    ns0: Namespace,
    sym0: Symtable,
    ns1: Namespace,
    sym1: Symtable,
    ns2: Namespace,
    sym2: Symtable,
    m1: Set<UsageMark>,
    m2: Set<UsageMark>,
)
    requires
        marked(ns0, sym0, ns1, sym1, m1),
        marked(ns1, sym1, ns2, sym2, m2),
    ensures
        marked(ns0, sym0, ns2, sym2, m1.union(m2)),
{
}

/// The reads an expression marks.
pub open spec fn used_marks(e: Expression) -> Set<UsageMark>
    decreases e,
{
    match e {
        Expression::StorageVariable(_, _, c, o) => Set::empty().insert(
            UsageMark::StorageRead(c, o),
        ),
        Expression::Variable(_, _, o) => Set::empty().insert(UsageMark::LocalRead(o)),
        Expression::ConstantVariable(_, _, contract, o) => match contract {
            Option::Some(c) => Set::empty().insert(UsageMark::StorageRead(c, o)),
            Option::None => Set::empty().insert(UsageMark::ConstantRead(o)),
        },
        Expression::StructMember(_, _, base, _) => used_marks(*base),
        Expression::Subscript(_, _, array, index) => used_marks(*array).union(
            used_marks(*index),
        ),
        Expression::DynamicArraySubscript(_, _, array, index) => used_marks(*array).union(
            used_marks(*index),
        ),
        Expression::StorageBytesSubscript(_, array, index) => used_marks(*array).union(
            used_marks(*index),
        ),
        Expression::DynamicArrayLength(_, array) => used_marks(*array),
        Expression::StorageArrayLength { array, .. } => used_marks(*array),
        Expression::StorageLoad(_, _, inner) => used_marks(*inner),
        Expression::SignExt(_, _, inner) => used_marks(*inner),
        Expression::ZeroExt(_, _, inner) => used_marks(*inner),
        Expression::Trunc(_, _, inner) => used_marks(*inner),
        Expression::Cast(_, _, inner) => used_marks(*inner),
        Expression::BytesCast(_, _, _, inner) => used_marks(*inner),
        _ => Set::empty(),
    }
}

/// The marks an assignment target sets: the base is assigned, subscript
/// indexes are read.
pub open spec fn assigned_marks(e: Expression) -> Set<UsageMark>
    decreases e,
{
    match e {
        Expression::StorageVariable(_, _, c, o) => Set::empty().insert(
            UsageMark::StorageAssigned(c, o),
        ),
        Expression::Variable(_, _, o) => Set::empty().insert(UsageMark::LocalAssigned(o)),
        Expression::StructMember(_, _, base, _) => assigned_marks(*base),
        Expression::Subscript(_, _, array, index) => assigned_marks(*array).union(
            used_marks(*index),
        ),
        Expression::DynamicArraySubscript(_, _, array, index) => assigned_marks(*array).union(
            used_marks(*index),
        ),
        Expression::StorageBytesSubscript(_, array, index) => assigned_marks(*array).union(
            used_marks(*index),
        ),
        Expression::Trunc(_, _, inner) => assigned_marks(*inner),
        Expression::Cast(_, _, inner) => assigned_marks(*inner),
        Expression::BytesCast(_, _, _, inner) => assigned_marks(*inner),
        _ => Set::empty(),
    }
}

/// The reads of the first `n` expressions of an argument list.
pub open spec fn args_marks(args: Seq<Expression>, n: int) -> Set<UsageMark> {
    Set::new(
        |mk: UsageMark|
            exists|i: int| 0 <= i < n && #[trigger] used_marks(args[i]).contains(mk),
    )
}

/// Extending the prefix adjoins one expression's reads.
pub proof fn lemma_args_marks_step(args: Seq<Expression>, i: int)
    requires
        0 <= i < args.len(),
    ensures
        args_marks(args, i + 1) == args_marks(args, i).union(used_marks(args[i])),
{
    assert(args_marks(args, i + 1) =~= args_marks(args, i).union(used_marks(args[i])));
}

/// The marks a call expression sets.
pub open spec fn call_marks(funcs: Seq<Function>, e: Expression) -> Set<UsageMark>
    decreases e,
{
    match e {
        Expression::InternalFunctionCall { function, args, .. } => args_marks(
            args@,
            args@.len() as int,
        ).union(call_marks(funcs, *function)),
        Expression::ExternalFunctionCall { function, args, value, gas, .. } => args_marks(
            args@,
            args@.len() as int,
        ).union(used_marks(*gas)).union(used_marks(*value)).union(call_marks(funcs, *function)),
        Expression::Constructor { args, gas, value, salt, space, .. } => args_marks(
            args@,
            args@.len() as int,
        ).union(used_marks(*gas)).union(
            match value {
                Option::Some(v) => used_marks(*v),
                Option::None => Set::empty(),
            },
        ).union(
            match salt {
                Option::Some(v) => used_marks(*v),
                Option::None => Set::empty(),
            },
        ).union(
            match space {
                Option::Some(v) => used_marks(*v),
                Option::None => Set::empty(),
            },
        ),
        Expression::ExternalFunctionCallRaw { address, args, value, gas, .. } => used_marks(
            *args,
        ).union(used_marks(*address)).union(used_marks(*value)).union(used_marks(*gas)),
        Expression::ExternalFunction { address, function_no, .. } => used_marks(*address).union(
            if function_no < funcs.len() && funcs[function_no as int].is_accessor
                && funcs[function_no as int].body@.len() > 0 {
                match funcs[function_no as int].body@[0] {
                    Statement::Return(_, exprs) => if exprs@.len() > 0 {
                        used_marks(exprs@[0])
                    } else {
                        Set::empty()
                    },
                    _ => Set::empty(),
                }
            } else {
                Set::empty()
            },
        ),
        Expression::Builtin(_, _, kind, args) => if kind == Builtin::ArrayPush {
            (if args@.len() > 0 {
                assigned_marks(args@[0])
            } else {
                Set::empty()
            }).union(
                if args@.len() > 1 {
                    used_marks(args@[1])
                } else {
                    Set::empty()
                },
            )
        } else {
            args_marks(args@, args@.len() as int)
        },
        Expression::DynamicArrayPush(_, array, _, arg) => assigned_marks(*array).union(
            used_marks(*arg),
        ),
        Expression::DynamicArrayPop(_, array, _) => used_marks(*array),
        _ => Set::empty(),
    }
}

/// Mark a variable as assigned: local variables in the symbol table,
/// storage variables in the namespace. Assignments through member and
/// subscript accesses mark the base; subscript indexes count as reads.
pub fn assigned_variable(ns: &mut Namespace, exp: &Expression, symtable: &mut Symtable)
    requires
        expr_wf(*old(ns), *exp, *old(symtable)),
    ensures
        flags_monotone(*old(ns), *old(symtable), *final(ns), *final(symtable)),
        marked(*old(ns), *old(symtable), *final(ns), *final(symtable), assigned_marks(*exp)),
        *exp matches Expression::StorageVariable(_, _, c, o) ==> final(ns).contracts@[c as int].variables@[o as int].assigned,
        *exp matches Expression::Variable(_, _, o) ==> final(symtable).vars@[o as int].assigned,
    decreases *exp,
{
    match exp {
        Expression::StorageVariable(_, _, contract_no, offset) => {
            let v = &mut ns.contracts[*contract_no].variables[*offset];
            v.assigned = true;
        },
        Expression::Variable(_, _, offset) => {
            let v = &mut symtable.vars[*offset];
            v.assigned = true;
        },
        Expression::StructMember(_, _, base, _) => {
            assigned_variable(ns, base, symtable);
        },
        Expression::Subscript(_, _, array, index) => {
            let ghost (n0, s0) = (*ns, *symtable);
            assigned_variable(ns, array, symtable);
            let ghost (n1, s1) = (*ns, *symtable);
            proof {
                lemma_expr_wf_preserved(n0, s0, n1, s1, **index);
            }
            used_variable(ns, index, symtable);
            proof {
                lemma_flags_monotone_trans(n0, s0, n1, s1, *ns, *symtable);
                lemma_marked_trans(
                    n0,
                    s0,
                    n1,
                    s1,
                    *ns,
                    *symtable,
                    assigned_marks(**array),
                    used_marks(**index),
                );
            }
        },
        Expression::DynamicArraySubscript(_, _, array, index) => {
            let ghost (n0, s0) = (*ns, *symtable);
            assigned_variable(ns, array, symtable);
            let ghost (n1, s1) = (*ns, *symtable);
            proof {
                lemma_expr_wf_preserved(n0, s0, n1, s1, **index);
            }
            used_variable(ns, index, symtable);
            proof {
                lemma_flags_monotone_trans(n0, s0, n1, s1, *ns, *symtable);
                lemma_marked_trans(
                    n0,
                    s0,
                    n1,
                    s1,
                    *ns,
                    *symtable,
                    assigned_marks(**array),
                    used_marks(**index),
                );
            }
        },
        Expression::StorageBytesSubscript(_, array, index) => {
            let ghost (n0, s0) = (*ns, *symtable);
            assigned_variable(ns, array, symtable);
            let ghost (n1, s1) = (*ns, *symtable);
            proof {
                lemma_expr_wf_preserved(n0, s0, n1, s1, **index);
            }
            used_variable(ns, index, symtable);
            proof {
                lemma_flags_monotone_trans(n0, s0, n1, s1, *ns, *symtable);
                lemma_marked_trans(
                    n0,
                    s0,
                    n1,
                    s1,
                    *ns,
                    *symtable,
                    assigned_marks(**array),
                    used_marks(**index),
                );
            }
        },
        Expression::Trunc(_, _, inner) => {
            assigned_variable(ns, inner, symtable);
        },
        Expression::Cast(_, _, inner) => {
            assigned_variable(ns, inner, symtable);
        },
        Expression::BytesCast(_, _, _, inner) => {
            assigned_variable(ns, inner, symtable);
        },
        _ => {},
    }
}

/// Mark a variable as read: local variables in the symbol table, storage
/// variables and constants in the namespace. Compound expressions are
/// walked recursively: lengths, loads, casts and subscripts read their
/// operands.
pub fn used_variable(ns: &mut Namespace, exp: &Expression, symtable: &mut Symtable)
    requires
        expr_wf(*old(ns), *exp, *old(symtable)),
    ensures
        flags_monotone(*old(ns), *old(symtable), *final(ns), *final(symtable)),
        marked(*old(ns), *old(symtable), *final(ns), *final(symtable), used_marks(*exp)),
        *exp matches Expression::StorageVariable(_, _, c, o) ==> final(ns).contracts@[c as int].variables@[o as int].read,
        *exp matches Expression::Variable(_, _, o) ==> final(symtable).vars@[o as int].read,
        *exp matches Expression::ConstantVariable(_, _, Option::Some(c), o) ==> final(ns).contracts@[c as int].variables@[o as int].read,
        *exp matches Expression::ConstantVariable(_, _, Option::None, o) ==> final(ns).constants@[o as int].read,
    decreases *exp,
{
    match exp {
        Expression::StorageVariable(_, _, contract_no, offset) => {
            let v = &mut ns.contracts[*contract_no].variables[*offset];
            v.read = true;
            proof {
                assert(marked(*old(ns), *old(symtable), *ns, *symtable, used_marks(*exp)));
            }
        },
        Expression::Variable(_, _, offset) => {
            let v = &mut symtable.vars[*offset];
            v.read = true;
            proof {
                assert(marked(*old(ns), *old(symtable), *ns, *symtable, used_marks(*exp)));
            }
        },
        Expression::ConstantVariable(_, _, contract, offset) => {
            match contract {
                Option::Some(contract_no) => {
                    let v = &mut ns.contracts[*contract_no].variables[*offset];
                    v.read = true;
                },
                Option::None => {
                    let v = &mut ns.constants[*offset];
                    v.read = true;
                },
            }
        },
        Expression::StructMember(_, _, base, _) => {
            used_variable(ns, base, symtable);
        },
        Expression::Subscript(_, _, array, index) => {
            let ghost (n0, s0) = (*ns, *symtable);
            used_variable(ns, array, symtable);
            let ghost (n1, s1) = (*ns, *symtable);
            proof {
                lemma_expr_wf_preserved(n0, s0, n1, s1, **index);
            }
            used_variable(ns, index, symtable);
            proof {
                lemma_flags_monotone_trans(n0, s0, n1, s1, *ns, *symtable);
                lemma_marked_trans(
                    n0,
                    s0,
                    n1,
                    s1,
                    *ns,
                    *symtable,
                    used_marks(**array),
                    used_marks(**index),
                );
            }
        },
        Expression::DynamicArraySubscript(_, _, array, index) => {
            let ghost (n0, s0) = (*ns, *symtable);
            used_variable(ns, array, symtable);
            let ghost (n1, s1) = (*ns, *symtable);
            proof {
                lemma_expr_wf_preserved(n0, s0, n1, s1, **index);
            }
            used_variable(ns, index, symtable);
            proof {
                lemma_flags_monotone_trans(n0, s0, n1, s1, *ns, *symtable);
                lemma_marked_trans(
                    n0,
                    s0,
                    n1,
                    s1,
                    *ns,
                    *symtable,
                    used_marks(**array),
                    used_marks(**index),
                );
            }
        },
        Expression::StorageBytesSubscript(_, array, index) => {
            let ghost (n0, s0) = (*ns, *symtable);
            used_variable(ns, array, symtable);
            let ghost (n1, s1) = (*ns, *symtable);
            proof {
                lemma_expr_wf_preserved(n0, s0, n1, s1, **index);
            }
            used_variable(ns, index, symtable);
            proof {
                lemma_flags_monotone_trans(n0, s0, n1, s1, *ns, *symtable);
                lemma_marked_trans(
                    n0,
                    s0,
                    n1,
                    s1,
                    *ns,
                    *symtable,
                    used_marks(**array),
                    used_marks(**index),
                );
            }
        },
        Expression::DynamicArrayLength(_, array) => {
            used_variable(ns, array, symtable);
        },
        Expression::StorageArrayLength { array, .. } => {
            used_variable(ns, array, symtable);
        },
        Expression::StorageLoad(_, _, inner) => {
            used_variable(ns, inner, symtable);
        },
        Expression::SignExt(_, _, inner) => {
            used_variable(ns, inner, symtable);
        },
        Expression::ZeroExt(_, _, inner) => {
            used_variable(ns, inner, symtable);
        },
        Expression::Trunc(_, _, inner) => {
            used_variable(ns, inner, symtable);
        },
        Expression::Cast(_, _, inner) => {
            used_variable(ns, inner, symtable);
        },
        Expression::BytesCast(_, _, _, inner) => {
            used_variable(ns, inner, symtable);
        },
        _ => {},
    }
}

/// Well-formedness of a call expression as `check_function_call` walks
/// it: arguments and operands resolve, and an accessor's body holds the
/// return expression the marking follows.
pub open spec fn call_wf(ns: Namespace, e: Expression, sym: Symtable) -> bool
    decreases e,
{
    match e {
        Expression::InternalFunctionCall { function, args, .. } => seq_wf(ns, args@, sym)
            && call_wf(ns, *function, sym),
        Expression::ExternalFunctionCall { function, args, value, gas, .. } => seq_wf(
            ns,
            args@,
            sym,
        ) && expr_wf(ns, *value, sym) && expr_wf(ns, *gas, sym) && call_wf(ns, *function, sym),
        Expression::Constructor { args, gas, value, salt, space, .. } => seq_wf(ns, args@, sym)
            && expr_wf(ns, *gas, sym) && (value matches Option::Some(v) ==> expr_wf(ns, *v, sym))
            && (salt matches Option::Some(v) ==> expr_wf(ns, *v, sym)) && (space
            matches Option::Some(v) ==> expr_wf(ns, *v, sym)),
        Expression::ExternalFunctionCallRaw { address, args, value, gas, .. } => expr_wf(
            ns,
            *address,
            sym,
        ) && expr_wf(ns, *args, sym) && expr_wf(ns, *value, sym) && expr_wf(ns, *gas, sym),
        Expression::ExternalFunction { address, function_no, .. } => expr_wf(ns, *address, sym)
            && function_no < ns.functions@.len() && (ns.functions@[function_no as int].is_accessor
            ==> ns.functions@[function_no as int].body@.len() > 0 && (
        ns.functions@[function_no as int].body@[0] matches Statement::Return(_, exprs)
            ==> exprs@.len() > 0 && expr_wf(ns, exprs@[0], sym))),
        Expression::Builtin(_, _, kind, args) => seq_wf(ns, args@, sym) && (kind
            == Builtin::ArrayPush ==> args@.len() >= 1),
        Expression::DynamicArrayPush(_, array, _, arg) => expr_wf(ns, *array, sym) && expr_wf(
            ns,
            *arg,
            sym,
        ),
        Expression::DynamicArrayPop(_, array, _) => expr_wf(ns, *array, sym),
        _ => true,
    }
}

/// `call_wf` also depends only on table sizes and function bodies, which
/// marking preserves.
pub proof fn lemma_call_wf_preserved(
    ns0: Namespace,
    sym0: Symtable,
    ns1: Namespace,
    sym1: Symtable,
    e: Expression,
)
    requires
        call_wf(ns0, e, sym0),
        flags_monotone(ns0, sym0, ns1, sym1),
    ensures
        call_wf(ns1, e, sym1),
    decreases e,
{
    match e {
        Expression::InternalFunctionCall { function, args, .. } => {
            lemma_call_wf_preserved(ns0, sym0, ns1, sym1, *function);
            assert forall|i: int| 0 <= i < args@.len() implies expr_wf(
                ns1,
                #[trigger] args@[i],
                sym1,
            ) by {
                assert(expr_wf(ns0, args@[i], sym0));
                lemma_expr_wf_preserved(ns0, sym0, ns1, sym1, args@[i]);
            }
            assert(seq_wf(ns1, args@, sym1));
        },
        Expression::ExternalFunctionCall { function, args, value, gas, .. } => {
            lemma_call_wf_preserved(ns0, sym0, ns1, sym1, *function);
            lemma_expr_wf_preserved(ns0, sym0, ns1, sym1, *value);
            lemma_expr_wf_preserved(ns0, sym0, ns1, sym1, *gas);
            assert forall|i: int| 0 <= i < args@.len() implies expr_wf(
                ns1,
                #[trigger] args@[i],
                sym1,
            ) by {
                assert(expr_wf(ns0, args@[i], sym0));
                lemma_expr_wf_preserved(ns0, sym0, ns1, sym1, args@[i]);
            }
            assert(seq_wf(ns1, args@, sym1));
        },
        Expression::Constructor { args, gas, value, salt, space, .. } => {
            lemma_expr_wf_preserved(ns0, sym0, ns1, sym1, *gas);
            if value is Some {
                lemma_expr_wf_preserved(ns0, sym0, ns1, sym1, *value->0);
            }
            if salt is Some {
                lemma_expr_wf_preserved(ns0, sym0, ns1, sym1, *salt->0);
            }
            if space is Some {
                lemma_expr_wf_preserved(ns0, sym0, ns1, sym1, *space->0);
            }
            assert forall|i: int| 0 <= i < args@.len() implies expr_wf(
                ns1,
                #[trigger] args@[i],
                sym1,
            ) by {
                assert(expr_wf(ns0, args@[i], sym0));
                lemma_expr_wf_preserved(ns0, sym0, ns1, sym1, args@[i]);
            }
            assert(seq_wf(ns1, args@, sym1));
        },
        Expression::ExternalFunctionCallRaw { address, args, value, gas, .. } => {
            lemma_expr_wf_preserved(ns0, sym0, ns1, sym1, *address);
            lemma_expr_wf_preserved(ns0, sym0, ns1, sym1, *args);
            lemma_expr_wf_preserved(ns0, sym0, ns1, sym1, *value);
            lemma_expr_wf_preserved(ns0, sym0, ns1, sym1, *gas);
        },
        Expression::ExternalFunction { address, function_no, .. } => {
            lemma_expr_wf_preserved(ns0, sym0, ns1, sym1, *address);
            assert(ns1.functions@ == ns0.functions@);
            if ns0.functions@[function_no as int].is_accessor {
                match ns0.functions@[function_no as int].body@[0] {
                    Statement::Return(_, exprs) => {
                        lemma_expr_wf_preserved(ns0, sym0, ns1, sym1, exprs@[0]);
                    },
                    _ => {},
                }
            }
        },
        Expression::Builtin(_, _, _, args) => {
            assert forall|i: int| 0 <= i < args@.len() implies expr_wf(
                ns1,
                #[trigger] args@[i],
                sym1,
            ) by {
                assert(expr_wf(ns0, args@[i], sym0));
                lemma_expr_wf_preserved(ns0, sym0, ns1, sym1, args@[i]);
            }
            assert(seq_wf(ns1, args@, sym1));
        },
        Expression::DynamicArrayPush(_, array, _, arg) => {
            lemma_expr_wf_preserved(ns0, sym0, ns1, sym1, *array);
            lemma_expr_wf_preserved(ns0, sym0, ns1, sym1, *arg);
        },
        Expression::DynamicArrayPop(_, array, _) => {
            lemma_expr_wf_preserved(ns0, sym0, ns1, sym1, *array);
        },
        _ => {},
    }
}

/// Mark the arguments (and operands) of a call expression as used; an
/// accessor call also marks the storage variable its body returns. Array
/// push counts as an assignment of the array, pop as a read.
pub fn check_function_call(ns: &mut Namespace, exp: &Expression, symtable: &mut Symtable)
    requires
        call_wf(*old(ns), *exp, *old(symtable)),
    ensures
        flags_monotone(*old(ns), *old(symtable), *final(ns), *final(symtable)),
        marked(
            *old(ns),
            *old(symtable),
            *final(ns),
            *final(symtable),
            call_marks(old(ns).functions@, *exp),
        ),
    decreases *exp,
{
    let ghost n0 = *ns;
    let ghost s0 = *symtable;
    match exp {
        Expression::InternalFunctionCall { function, args, .. } => {
            mark_args_used(ns, args, symtable);
            proof {
                lemma_call_wf_preserved(n0, s0, *ns, *symtable, *exp->InternalFunctionCall_function);
            }
            let ghost (n1, s1) = (*ns, *symtable);
            check_function_call(ns, function, symtable);
            proof {
                lemma_flags_monotone_trans(n0, s0, n1, s1, *ns, *symtable);
                assert(n1.functions@ == n0.functions@);
                lemma_marked_trans(
                    n0,
                    s0,
                    n1,
                    s1,
                    *ns,
                    *symtable,
                    args_marks(args@, args@.len() as int),
                    call_marks(n0.functions@, **function),
                );
            }
        },
        Expression::ExternalFunctionCall { function, args, value, gas, .. } => {
            mark_args_used(ns, args, symtable);
            let ghost (n1, s1) = (*ns, *symtable);
            proof {
                lemma_expr_wf_preserved(n0, s0, n1, s1, **gas);
            }
            used_variable(ns, gas, symtable);
            let ghost (n2, s2) = (*ns, *symtable);
            proof {
                lemma_flags_monotone_trans(n0, s0, n1, s1, n2, s2);
                lemma_expr_wf_preserved(n0, s0, n2, s2, **value);
            }
            used_variable(ns, value, symtable);
            let ghost (n3, s3) = (*ns, *symtable);
            proof {
                lemma_flags_monotone_trans(n0, s0, n2, s2, n3, s3);
                lemma_call_wf_preserved(n0, s0, n3, s3, **function);
            }
            check_function_call(ns, function, symtable);
            proof {
                lemma_flags_monotone_trans(n0, s0, n3, s3, *ns, *symtable);
                assert(n3.functions@ == n0.functions@);
                lemma_marked_trans(
                    n0,
                    s0,
                    n1,
                    s1,
                    n2,
                    s2,
                    args_marks(args@, args@.len() as int),
                    used_marks(**gas),
                );
                lemma_marked_trans(
                    n0,
                    s0,
                    n2,
                    s2,
                    n3,
                    s3,
                    args_marks(args@, args@.len() as int).union(used_marks(**gas)),
                    used_marks(**value),
                );
                lemma_marked_trans(
                    n0,
                    s0,
                    n3,
                    s3,
                    *ns,
                    *symtable,
                    args_marks(args@, args@.len() as int).union(used_marks(**gas)).union(
                        used_marks(**value),
                    ),
                    call_marks(n0.functions@, **function),
                );
            }
        },
        Expression::Constructor { args, gas, value, salt, space, .. } => {
            mark_args_used(ns, args, symtable);
            let ghost (n1, s1) = (*ns, *symtable);
            let ghost mut acc = args_marks(args@, args@.len() as int);
            proof {
                lemma_expr_wf_preserved(n0, s0, n1, s1, **gas);
            }
            used_variable(ns, gas, symtable);
            proof {
                lemma_flags_monotone_trans(n0, s0, n1, s1, *ns, *symtable);
                lemma_marked_trans(n0, s0, n1, s1, *ns, *symtable, acc, used_marks(**gas));
                acc = acc.union(used_marks(**gas));
            }
            if let Option::Some(expr) = value {
                let ghost (n2, s2) = (*ns, *symtable);
                proof {
                    lemma_expr_wf_preserved(n0, s0, n2, s2, *value->0);
                }
                used_variable(ns, expr, symtable);
                proof {
                    lemma_flags_monotone_trans(n0, s0, n2, s2, *ns, *symtable);
                    lemma_marked_trans(n0, s0, n2, s2, *ns, *symtable, acc, used_marks(*value->0));
                    acc = acc.union(used_marks(*value->0));
                }
            } else {
                proof {
                    assert(acc.union(Set::<UsageMark>::empty()) =~= acc);
                    acc = acc.union(Set::empty());
                }
            }
            if let Option::Some(expr) = salt {
                let ghost (n2, s2) = (*ns, *symtable);
                proof {
                    lemma_expr_wf_preserved(n0, s0, n2, s2, *salt->0);
                }
                used_variable(ns, expr, symtable);
                proof {
                    lemma_flags_monotone_trans(n0, s0, n2, s2, *ns, *symtable);
                    lemma_marked_trans(n0, s0, n2, s2, *ns, *symtable, acc, used_marks(*salt->0));
                    acc = acc.union(used_marks(*salt->0));
                }
            } else {
                proof {
                    assert(acc.union(Set::<UsageMark>::empty()) =~= acc);
                    acc = acc.union(Set::empty());
                }
            }
            if let Option::Some(expr) = space {
                let ghost (n2, s2) = (*ns, *symtable);
                proof {
                    lemma_expr_wf_preserved(n0, s0, n2, s2, *space->0);
                }
                used_variable(ns, expr, symtable);
                proof {
                    lemma_flags_monotone_trans(n0, s0, n2, s2, *ns, *symtable);
                    lemma_marked_trans(n0, s0, n2, s2, *ns, *symtable, acc, used_marks(*space->0));
                    acc = acc.union(used_marks(*space->0));
                }
            } else {
                proof {
                    assert(acc.union(Set::<UsageMark>::empty()) =~= acc);
                    acc = acc.union(Set::empty());
                }
            }
            proof {
                assert(acc == call_marks(n0.functions@, *exp));
                assert(marked(n0, s0, *ns, *symtable, call_marks(n0.functions@, *exp)));
            }
        },
        Expression::ExternalFunctionCallRaw { address, args, value, gas, .. } => {
            used_variable(ns, args, symtable);
            let ghost (n1, s1) = (*ns, *symtable);
            proof {
                lemma_expr_wf_preserved(n0, s0, n1, s1, **address);
            }
            used_variable(ns, address, symtable);
            let ghost (n2, s2) = (*ns, *symtable);
            proof {
                lemma_flags_monotone_trans(n0, s0, n1, s1, n2, s2);
                lemma_expr_wf_preserved(n0, s0, n2, s2, **value);
            }
            used_variable(ns, value, symtable);
            let ghost (n3, s3) = (*ns, *symtable);
            proof {
                lemma_flags_monotone_trans(n0, s0, n2, s2, n3, s3);
                lemma_expr_wf_preserved(n0, s0, n3, s3, **gas);
            }
            used_variable(ns, gas, symtable);
            proof {
                lemma_flags_monotone_trans(n0, s0, n3, s3, *ns, *symtable);
                lemma_marked_trans(n0, s0, n1, s1, n2, s2, used_marks(**args), used_marks(
                    **address,
                ));
                lemma_marked_trans(
                    n0,
                    s0,
                    n2,
                    s2,
                    n3,
                    s3,
                    used_marks(**args).union(used_marks(**address)),
                    used_marks(**value),
                );
                lemma_marked_trans(
                    n0,
                    s0,
                    n3,
                    s3,
                    *ns,
                    *symtable,
                    used_marks(**args).union(used_marks(**address)).union(used_marks(**value)),
                    used_marks(**gas),
                );
            }
        },
        Expression::ExternalFunction { address, function_no, .. } => {
            used_variable(ns, address, symtable);
            let ghost (n1, s1) = (*ns, *symtable);
            if ns.functions[*function_no].is_accessor {
                // the accessor's body returns the variable being read;
                // take the body out, mark through it, and put it back
                let mut body_tmp: Vec<Statement> = Vec::new();
                let f = &mut ns.functions[*function_no];
                let ghost orig_fn = *f;
                core::mem::swap(&mut body_tmp, &mut f.body);
                let ghost swapped_ns = *ns;
                let ghost e0 = n0.functions@[*function_no as int].body@[0]->Return_1@[0];
                let ghost mut tail_marks = Set::<UsageMark>::empty();
                if let Statement::Return(_, exprs) = &body_tmp[0] {
                    proof {
                        assert(body_tmp@ == n1.functions@[*function_no as int].body@);
                        assert(n1.functions@ == n0.functions@);
                        assert(expr_wf(n0, e0, s0));
                        assert(exprs@[0] == e0);
                        assert(same_shape(n0, s0, swapped_ns, s1));
                        lemma_expr_wf_shape(n0, s0, swapped_ns, s1, e0);
                    }
                    used_variable(ns, &exprs[0], symtable);
                    proof {
                        tail_marks = used_marks(e0);
                    }
                }
                let ghost (n2, s2) = (*ns, *symtable);
                let f = &mut ns.functions[*function_no];
                core::mem::swap(&mut body_tmp, &mut f.body);
                proof {
                    assert(ns.functions@ =~= n1.functions@) by {
                        assert(n2.functions@ == swapped_ns.functions@);
                        assert(ns.functions@[*function_no as int] == orig_fn);
                        assert forall|k: int|
                            0 <= k < ns.functions@.len() implies ns.functions@[k]
                            == n1.functions@[k] by {}
                    }
                    assert(flags_monotone(n1, s1, *ns, *symtable));
                    lemma_flags_monotone_trans(n0, s0, n1, s1, *ns, *symtable);
                    assert(marked(n1, s1, *ns, *symtable, tail_marks)) by {
                        assert(swapped_ns.contracts == n1.contracts);
                        assert(swapped_ns.constants == n1.constants);
                        assert(n2.contracts == ns.contracts);
                        assert(n2.constants == ns.constants);
                    }
                    lemma_marked_trans(
                        n0,
                        s0,
                        n1,
                        s1,
                        *ns,
                        *symtable,
                        used_marks(**address),
                        tail_marks,
                    );
                    assert(used_marks(**address).union(tail_marks) == call_marks(
                        n0.functions@,
                        *exp,
                    ));
                }
            } else {
                proof {
                    assert(used_marks(**address).union(Set::<UsageMark>::empty()) =~= used_marks(
                        **address,
                    ));
                    assert(marked(n0, s0, *ns, *symtable, call_marks(n0.functions@, *exp)));
                }
            }
        },
        Expression::Builtin(_, _, kind, args) => {
            match kind {
                Builtin::ArrayPush => {
                    assigned_variable(ns, &args[0], symtable);
                    if args.len() > 1 {
                        let ghost (n1, s1) = (*ns, *symtable);
                        proof {
                            lemma_expr_wf_preserved(n0, s0, n1, s1, args@[1]);
                        }
                        used_variable(ns, &args[1], symtable);
                        proof {
                            lemma_flags_monotone_trans(n0, s0, n1, s1, *ns, *symtable);
                            lemma_marked_trans(
                                n0,
                                s0,
                                n1,
                                s1,
                                *ns,
                                *symtable,
                                assigned_marks(args@[0]),
                                used_marks(args@[1]),
                            );
                        }
                    } else {
                        proof {
                            assert(assigned_marks(args@[0]).union(Set::<UsageMark>::empty())
                                =~= assigned_marks(args@[0]));
                            assert(marked(n0, s0, *ns, *symtable, call_marks(
                                n0.functions@,
                                *exp,
                            )));
                        }
                    }
                },
                _ => {
                    mark_args_used(ns, args, symtable);
                },
            }
        },
        Expression::DynamicArrayPush(_, array, _, arg) => {
            assigned_variable(ns, array, symtable);
            let ghost (n1, s1) = (*ns, *symtable);
            proof {
                lemma_expr_wf_preserved(n0, s0, n1, s1, **arg);
            }
            used_variable(ns, arg, symtable);
            proof {
                lemma_flags_monotone_trans(n0, s0, n1, s1, *ns, *symtable);
                lemma_marked_trans(
                    n0,
                    s0,
                    n1,
                    s1,
                    *ns,
                    *symtable,
                    assigned_marks(**array),
                    used_marks(**arg),
                );
            }
        },
        Expression::DynamicArrayPop(_, array, _) => {
            used_variable(ns, array, symtable);
        },
        _ => {
            proof {
                assert(marked(n0, s0, *ns, *symtable, call_marks(n0.functions@, *exp)));
            }
        },
    }
}

/// Mark every expression of an argument list as used.
fn mark_args_used(ns: &mut Namespace, args: &Vec<Expression>, symtable: &mut Symtable)
    requires
        seq_wf(*old(ns), args@, *old(symtable)),
    ensures
        flags_monotone(*old(ns), *old(symtable), *final(ns), *final(symtable)),
        marked(
            *old(ns),
            *old(symtable),
            *final(ns),
            *final(symtable),
            args_marks(args@, args@.len() as int),
        ),
{
    let n = args.len();
    let mut i: usize = 0;
    proof {
        assert(args_marks(args@, 0) =~= Set::<UsageMark>::empty());
        assert(marked(*old(ns), *old(symtable), *ns, *symtable, args_marks(args@, 0)));
    }
    while i < n
        invariant
            i <= n,
            n == args@.len(),
            seq_wf(*old(ns), args@, *old(symtable)),
            flags_monotone(*old(ns), *old(symtable), *ns, *symtable),
            marked(*old(ns), *old(symtable), *ns, *symtable, args_marks(args@, i as int)),
        decreases n - i,
    {
        let ghost (n1, s1) = (*ns, *symtable);
        proof {
            assert(expr_wf(*old(ns), args@[i as int], *old(symtable)));
            lemma_expr_wf_preserved(*old(ns), *old(symtable), n1, s1, args@[i as int]);
        }
        used_variable(ns, &args[i], symtable);
        proof {
            lemma_flags_monotone_trans(*old(ns), *old(symtable), n1, s1, *ns, *symtable);
            lemma_marked_trans(
                *old(ns),
                *old(symtable),
                n1,
                s1,
                *ns,
                *symtable,
                args_marks(args@, i as int),
                used_marks(args@[i as int]),
            );
            lemma_args_marks_step(args@, i as int);
        }
        i += 1;
    }
}

/// Marks as used the variables on both sides of a binary expression.
pub fn check_var_usage_expression(
    ns: &mut Namespace,
    left: &Expression,
    right: &Expression,
    symtable: &mut Symtable,
)
    requires
        expr_wf(*old(ns), *left, *old(symtable)),
        expr_wf(*old(ns), *right, *old(symtable)),
    ensures
        flags_monotone(*old(ns), *old(symtable), *final(ns), *final(symtable)),
        marked(
            *old(ns),
            *old(symtable),
            *final(ns),
            *final(symtable),
            used_marks(*left).union(used_marks(*right)),
        ),
        *left matches Expression::Variable(_, _, o) ==> final(symtable).vars@[o as int].read,
        *right matches Expression::Variable(_, _, o) ==> final(symtable).vars@[o as int].read,
{
    let ghost (n0, s0) = (*ns, *symtable);
    used_variable(ns, left, symtable);
    let ghost (n1, s1) = (*ns, *symtable);
    proof {
        lemma_expr_wf_preserved(n0, s0, n1, s1, *right);
    }
    used_variable(ns, right, symtable);
    proof {
        lemma_flags_monotone_trans(n0, s0, n1, s1, *ns, *symtable);
        lemma_marked_trans(
            n0,
            s0,
            n1,
            s1,
            *ns,
            *symtable,
            used_marks(*left),
            used_marks(*right),
        );
    }
}

/// Build one warning diagnostic.
pub fn generate_unused_warning(loc: Loc, text: &str, notes: Vec<Note>) -> (r: Diagnostic)
    ensures
        r.level == Level::Warning,
        r.ty == ErrorType::Warning,
        r.pos == Option::Some(loc),
        r.message@ == text@,
        r.notes == notes,
{
    Diagnostic {
        level: Level::Warning,
        ty: ErrorType::Warning,
        pos: Option::Some(loc),
        message: text.to_owned(),
        notes,
    }
}

/// Whether a local variable earns an unused-variable warning, by its
/// role: parameters and the try/catch bindings warn when never read,
/// return variables when never assigned, plain locals unless both
/// assigned and read; anonymous return variables never warn.
pub open spec fn local_warning_expected(v: SymtableVariable) -> bool {
    match v.usage_type {
        VariableUsage::Parameter => !v.read,
        VariableUsage::ReturnVariable => !v.assigned,
        VariableUsage::LocalVariable => !(v.assigned && v.read),
        VariableUsage::DestructureVariable => !v.read,
        VariableUsage::TryCatchReturns => !v.read,
        VariableUsage::TryCatchErrorBytes => !v.read,
        VariableUsage::TryCatchErrorString => !v.read,
        VariableUsage::AnonymousReturnVariable => false,
    }
}

/// The warning text for a local variable, by its role and flags.
pub open spec fn local_warning_message(v: SymtableVariable) -> Seq<char> {
    match v.usage_type {
        VariableUsage::Parameter => "function parameter '"@ + v.id.name@
            + "' has never been read"@,
        VariableUsage::ReturnVariable => "return variable '"@ + v.id.name@
            + "' has never been assigned"@,
        VariableUsage::LocalVariable => if !v.assigned && !v.read {
            "local variable '"@ + v.id.name@ + "' has never been read nor assigned"@
        } else if v.assigned && !v.read {
            "local variable '"@ + v.id.name@ + "' has been assigned, but never read"@
        } else {
            "local variable '"@ + v.id.name@
                + "' has never been assigned a value, but has been read"@
        },
        VariableUsage::DestructureVariable => "destructure variable '"@ + v.id.name@
            + "' has never been used"@,
        VariableUsage::TryCatchReturns => "try-catch returns variable '"@ + v.id.name@
            + "' has never been read"@,
        VariableUsage::TryCatchErrorBytes => "try-catch error bytes '"@ + v.id.name@
            + "' has never been used"@,
        VariableUsage::TryCatchErrorString => "try-catch error string '"@ + v.id.name@
            + "' has never been used"@,
        VariableUsage::AnonymousReturnVariable => Seq::empty(),
    }
}

/// Concatenate the three pieces of a warning text.
fn warning_text(prefix: &str, name: &str, suffix: &str) -> (r: String)
    ensures
        r@ == prefix@ + name@ + suffix@,
{
    let mut m = prefix.to_owned();
    m.append(name);
    m.append(suffix);
    m
}

/// The unused-variable warning for one local variable, if it earns one.
pub fn emit_warning_local_variable(variable: &SymtableVariable) -> (r: Option<Diagnostic>)
    ensures
        r is Some <==> local_warning_expected(*variable),
        r matches Option::Some(d) ==> {
            &&& d.level == Level::Warning
            &&& d.ty == ErrorType::Warning
            &&& d.pos == Option::Some(variable.id.loc)
            &&& d.message@ == local_warning_message(*variable)
            &&& d.notes@.len() == 0
        },
{
    match variable.usage_type {
        VariableUsage::Parameter => {
            if !variable.read {
                return Option::Some(
                    generate_unused_warning(
                        variable.id.loc,
                        warning_text(
                            "function parameter '",
                            variable.id.name.as_str(),
                            "' has never been read",
                        ).as_str(),
                        Vec::new(),
                    ),
                );
            }
            Option::None
        },
        VariableUsage::ReturnVariable => {
            if !variable.assigned {
                return Option::Some(
                    generate_unused_warning(
                        variable.id.loc,
                        warning_text(
                            "return variable '",
                            variable.id.name.as_str(),
                            "' has never been assigned",
                        ).as_str(),
                        Vec::new(),
                    ),
                );
            }
            Option::None
        },
        VariableUsage::LocalVariable => {
            if !variable.assigned && !variable.read {
                return Option::Some(
                    generate_unused_warning(
                        variable.id.loc,
                        warning_text(
                            "local variable '",
                            variable.id.name.as_str(),
                            "' has never been read nor assigned",
                        ).as_str(),
                        Vec::new(),
                    ),
                );
            }
            if variable.assigned && !variable.read {
                return Option::Some(
                    generate_unused_warning(
                        variable.id.loc,
                        warning_text(
                            "local variable '",
                            variable.id.name.as_str(),
                            "' has been assigned, but never read",
                        ).as_str(),
                        Vec::new(),
                    ),
                );
            }
            if !variable.assigned && variable.read {
                return Option::Some(
                    generate_unused_warning(
                        variable.id.loc,
                        warning_text(
                            "local variable '",
                            variable.id.name.as_str(),
                            "' has never been assigned a value, but has been read",
                        ).as_str(),
                        Vec::new(),
                    ),
                );
            }
            Option::None
        },
        VariableUsage::DestructureVariable => {
            if !variable.read {
                return Option::Some(
                    generate_unused_warning(
                        variable.id.loc,
                        warning_text(
                            "destructure variable '",
                            variable.id.name.as_str(),
                            "' has never been used",
                        ).as_str(),
                        Vec::new(),
                    ),
                );
            }
            Option::None
        },
        VariableUsage::TryCatchReturns => {
            if !variable.read {
                return Option::Some(
                    generate_unused_warning(
                        variable.id.loc,
                        warning_text(
                            "try-catch returns variable '",
                            variable.id.name.as_str(),
                            "' has never been read",
                        ).as_str(),
                        Vec::new(),
                    ),
                );
            }
            Option::None
        },
        VariableUsage::TryCatchErrorBytes => {
            if !variable.read {
                return Option::Some(
                    generate_unused_warning(
                        variable.id.loc,
                        warning_text(
                            "try-catch error bytes '",
                            variable.id.name.as_str(),
                            "' has never been used",
                        ).as_str(),
                        Vec::new(),
                    ),
                );
            }
            Option::None
        },
        VariableUsage::TryCatchErrorString => {
            if !variable.read {
                return Option::Some(
                    generate_unused_warning(
                        variable.id.loc,
                        warning_text(
                            "try-catch error string '",
                            variable.id.name.as_str(),
                            "' has never been used",
                        ).as_str(),
                        Vec::new(),
                    ),
                );
            }
            Option::None
        },
        VariableUsage::AnonymousReturnVariable => Option::None,
    }
}

/// The warning text for a storage variable, by its flags.
pub open spec fn storage_warning_message(v: Variable) -> Seq<char> {
    if v.assigned {
        "storage variable '"@ + v.name@ + "' has been assigned, but never read"@
    } else {
        "storage variable '"@ + v.name@ + "' has never been used"@
    }
}

/// The unused-variable warning for one storage variable: one is due
/// exactly when the variable was never read.
pub fn emit_warning_contract_variables(variable: &Variable) -> (r: Option<Diagnostic>)
    ensures
        r is Some <==> !variable.read,
        r matches Option::Some(d) ==> {
            &&& d.level == Level::Warning
            &&& d.ty == ErrorType::Warning
            &&& d.pos == Option::Some(variable.loc)
            &&& d.message@ == storage_warning_message(*variable)
            &&& d.notes@.len() == 0
        },
{
    if variable.assigned && !variable.read {
        return Option::Some(
            generate_unused_warning(
                variable.loc,
                warning_text(
                    "storage variable '",
                    variable.name.as_str(),
                    "' has been assigned, but never read",
                ).as_str(),
                Vec::new(),
            ),
        );
    }
    if !variable.assigned && !variable.read {
        return Option::Some(
            generate_unused_warning(
                variable.loc,
                warning_text(
                    "storage variable '",
                    variable.name.as_str(),
                    "' has never been used",
                ).as_str(),
                Vec::new(),
            ),
        );
    }
    Option::None
}

/// How many variables of a listing were never read.
pub open spec fn count_unread(vars: Seq<Variable>) -> int
    decreases vars.len(),
{
    if vars.len() == 0 {
        0
    } else {
        count_unread(vars.drop_last()) + if vars.last().read {
            0int
        } else {
            1int
        }
    }
}

/// How many storage variables across a contract listing were never read.
pub open spec fn count_unread_storage(contracts: Seq<Contract>) -> int
    decreases contracts.len(),
{
    if contracts.len() == 0 {
        0
    } else {
        count_unread_storage(contracts.drop_last()) + count_unread(contracts.last().variables@)
    }
}

/// How many events of a listing were never emitted.
pub open spec fn count_unused_events(events: Seq<crate::ast::EventDecl>) -> int
    decreases events.len(),
{
    if events.len() == 0 {
        0
    } else {
        count_unused_events(events.drop_last()) + if events.last().used {
            0int
        } else {
            1int
        }
    }
}

/// A pushed diagnostic belongs to an unread storage variable or an
/// unread constant of the namespace.
pub open spec fn is_namespace_var_warning(d: Diagnostic, ns: Namespace) -> bool {
    ||| exists|c: int, o: int|
        0 <= c < ns.contracts@.len() && 0 <= o < ns.contracts@[c].variables@.len() && !(
        #[trigger] ns.contracts@[c].variables@[o]).read && d.message@ == storage_warning_message(
            ns.contracts@[c].variables@[o],
        ) && d.pos == Option::Some(ns.contracts@[c].variables@[o].loc) && d.level
            == Level::Warning
    ||| exists|o: int|
        0 <= o < ns.constants@.len() && !(#[trigger] ns.constants@[o]).read && d.message@
            == "global constant '"@ + ns.constants@[o].name@ + "' has never been used"@ && d.pos
            == Option::Some(ns.constants@[o].loc) && d.level == Level::Warning
}

/// Report every storage variable that was never read and every constant
/// that was never used; the warnings are appended to the diagnostics.
pub fn check_unused_namespace_variables(ns: &mut Namespace)
    ensures
        *final(ns) == (Namespace { diagnostics: final(ns).diagnostics, ..*old(ns) }),
        final(ns).diagnostics@.len() == old(ns).diagnostics@.len() + count_unread_storage(
            old(ns).contracts@,
        ) + count_unread(old(ns).constants@),
        final(ns).diagnostics@.subrange(0, old(ns).diagnostics@.len() as int) == old(
            ns,
        ).diagnostics@,
        forall|k: int|
            old(ns).diagnostics@.len() <= k < final(ns).diagnostics@.len()
                ==> is_namespace_var_warning(#[trigger] final(ns).diagnostics@[k], *old(ns)),
{
    let ghost pre = *ns;
    let n = ns.contracts.len();
    let mut c: usize = 0;
    while c < n
        invariant
            c <= n,
            n == ns.contracts@.len(),
            *ns == (Namespace { diagnostics: ns.diagnostics, ..pre }),
            ns.diagnostics@.len() >= pre.diagnostics@.len(),
            ns.diagnostics@.len() == pre.diagnostics@.len() + count_unread_storage(
                pre.contracts@.take(c as int),
            ),
            ns.diagnostics@.subrange(0, pre.diagnostics@.len() as int) == pre.diagnostics@,
            forall|k: int|
                pre.diagnostics@.len() <= k < ns.diagnostics@.len() ==> is_namespace_var_warning(
                    #[trigger] ns.diagnostics@[k],
                    pre,
                ),
        decreases n - c,
    {
        let m = ns.contracts[c].variables.len();
        let mut o: usize = 0;
        while o < m
            invariant
                c < n,
                o <= m,
                n == ns.contracts@.len(),
                m == ns.contracts@[c as int].variables@.len(),
                *ns == (Namespace { diagnostics: ns.diagnostics, ..pre }),
                ns.diagnostics@.len() >= pre.diagnostics@.len(),
                ns.diagnostics@.len() == pre.diagnostics@.len() + count_unread_storage(
                    pre.contracts@.take(c as int),
                ) + count_unread(pre.contracts@[c as int].variables@.take(o as int)),
                ns.diagnostics@.subrange(0, pre.diagnostics@.len() as int) == pre.diagnostics@,
                forall|k: int|
                    pre.diagnostics@.len() <= k < ns.diagnostics@.len()
                        ==> is_namespace_var_warning(#[trigger] ns.diagnostics@[k], pre),
            decreases m - o,
        {
            proof {
                assert(pre.contracts@[c as int].variables@.take(o + 1).drop_last()
                    =~= pre.contracts@[c as int].variables@.take(o as int));
                assert(pre.contracts@[c as int].variables@.take(o + 1).last()
                    == pre.contracts@[c as int].variables@[o as int]);
            }
            let ghost dpre = ns.diagnostics@;
            let w = emit_warning_contract_variables(&ns.contracts[c].variables[o]);
            if let Option::Some(warning) = w {
                ns.diagnostics.push(warning);
                proof {
                    assert(ns.diagnostics@.subrange(0, pre.diagnostics@.len() as int)
                        =~= pre.diagnostics@);
                    assert(is_namespace_var_warning(ns.diagnostics@.last(), pre));
                }
            }
            o += 1;
        }
        proof {
            assert(pre.contracts@[c as int].variables@.take(m as int)
                =~= pre.contracts@[c as int].variables@);
            assert(pre.contracts@.take(c + 1).drop_last() =~= pre.contracts@.take(c as int));
            assert(pre.contracts@.take(c + 1).last() == pre.contracts@[c as int]);
        }
        c += 1;
    }
    proof {
        assert(pre.contracts@.take(n as int) =~= pre.contracts@);
    }
    // file-level constants are initialized at declaration: only reads count
    let m = ns.constants.len();
    let mut o: usize = 0;
    while o < m
        invariant
            o <= m,
            m == ns.constants@.len(),
            *ns == (Namespace { diagnostics: ns.diagnostics, ..pre }),
            ns.diagnostics@.len() >= pre.diagnostics@.len(),
            ns.diagnostics@.len() == pre.diagnostics@.len() + count_unread_storage(
                pre.contracts@,
            ) + count_unread(pre.constants@.take(o as int)),
            ns.diagnostics@.subrange(0, pre.diagnostics@.len() as int) == pre.diagnostics@,
            forall|k: int|
                pre.diagnostics@.len() <= k < ns.diagnostics@.len() ==> is_namespace_var_warning(
                    #[trigger] ns.diagnostics@[k],
                    pre,
                ),
        decreases m - o,
    {
        proof {
            assert(pre.constants@.take(o + 1).drop_last() =~= pre.constants@.take(o as int));
            assert(pre.constants@.take(o + 1).last() == pre.constants@[o as int]);
        }
        if !ns.constants[o].read {
            let loc = ns.constants[o].loc;
            let text = warning_text(
                "global constant '",
                ns.constants[o].name.as_str(),
                "' has never been used",
            );
            let warning = generate_unused_warning(loc, text.as_str(), Vec::new());
            ns.diagnostics.push(warning);
            proof {
                assert(ns.diagnostics@.subrange(0, pre.diagnostics@.len() as int)
                    =~= pre.diagnostics@);
                assert(is_namespace_var_warning(ns.diagnostics@.last(), pre));
            }
        }
        o += 1;
    }
    proof {
        assert(pre.constants@.take(m as int) =~= pre.constants@);
    }
}

/// A pushed diagnostic belongs to an event that was never emitted.
pub open spec fn is_unused_event_warning(d: Diagnostic, ns: Namespace) -> bool {
    exists|j: int|
        0 <= j < ns.events@.len() && !(#[trigger] ns.events@[j]).used && d.message@ == "event '"@
            + ns.events@[j].name@ + "' has never been emitted"@ && d.pos == Option::Some(
            ns.events@[j].loc,
        ) && d.level == Level::Warning
}

/// Report every event that was declared but never emitted.
pub fn check_unused_events(ns: &mut Namespace)
    ensures
        *final(ns) == (Namespace { diagnostics: final(ns).diagnostics, ..*old(ns) }),
        final(ns).diagnostics@.len() == old(ns).diagnostics@.len() + count_unused_events(
            old(ns).events@,
        ),
        final(ns).diagnostics@.subrange(0, old(ns).diagnostics@.len() as int) == old(
            ns,
        ).diagnostics@,
        forall|k: int|
            old(ns).diagnostics@.len() <= k < final(ns).diagnostics@.len()
                ==> is_unused_event_warning(#[trigger] final(ns).diagnostics@[k], *old(ns)),
{
    let ghost pre = *ns;
    let n = ns.events.len();
    let mut j: usize = 0;
    while j < n
        invariant
            j <= n,
            n == ns.events@.len(),
            *ns == (Namespace { diagnostics: ns.diagnostics, ..pre }),
            ns.diagnostics@.len() >= pre.diagnostics@.len(),
            ns.diagnostics@.len() == pre.diagnostics@.len() + count_unused_events(
                pre.events@.take(j as int),
            ),
            ns.diagnostics@.subrange(0, pre.diagnostics@.len() as int) == pre.diagnostics@,
            forall|k: int|
                pre.diagnostics@.len() <= k < ns.diagnostics@.len() ==> is_unused_event_warning(
                    #[trigger] ns.diagnostics@[k],
                    pre,
                ),
        decreases n - j,
    {
        proof {
            assert(pre.events@.take(j + 1).drop_last() =~= pre.events@.take(j as int));
            assert(pre.events@.take(j + 1).last() == pre.events@[j as int]);
        }
        if !ns.events[j].used {
            let loc = ns.events[j].loc;
            let text = warning_text(
                "event '",
                ns.events[j].name.as_str(),
                "' has never been emitted",
            );
            let warning = generate_unused_warning(loc, text.as_str(), Vec::new());
            ns.diagnostics.push(warning);
            proof {
                assert(ns.diagnostics@.subrange(0, pre.diagnostics@.len() as int)
                    =~= pre.diagnostics@);
                assert(is_unused_event_warning(ns.diagnostics@.last(), pre));
            }
        }
        j += 1;
    }
    proof {
        assert(pre.events@.take(n as int) =~= pre.events@);
    }
}

} // verus!
