//! The compact ("Scale" style) integer and size encoding.
//!
//! A size `n` is encoded with a two-bit tag in the lowest bits selecting
//! the width class by magnitude: below 0x40 one byte with tag 0b00, below
//! 0x4000 two bytes with tag 0b01, below 0x40000000 four bytes with tag
//! 0b10, all little-endian; values of 0x40000000 and above cannot be
//! represented and the emitted code traps before any write.
//!
//! The module holds the mathematical model of the wire format, executable
//! encode/decode mirrors proved against it, and the builder that emits the
//! runtime decision tree over a value only known at contract execution.

use vstd::arithmetic::div_mod::{
    lemma_fundamental_div_mod, lemma_fundamental_div_mod_converse, lemma_small_mod,
};
use vstd::prelude::*;

use crate::ast::{Loc, Namespace, Parameter, Type};
use crate::cfg::{BasicBlock, ControlFlowGraph, Expression, ExprV, Instr};
use crate::vartable::Vartable;

verus! {

broadcast use {
    crate::vartable::lemma_union_empty,
    crate::vartable::lemma_union_singleton,
    crate::vartable::lemma_insert_twice,
    crate::vartable::lemma_singleton_seq_to_set,
    crate::vartable::lemma_empty_seq_to_set,
};

/// How many bytes the compact encoding of `n` occupies.
pub open spec fn compact_width(n: u32) -> nat
    recommends
        n < 0x40000000,
{
    if n < 0x40 {
        1nat
    } else if n < 0x4000 {
        2nat
    } else {
        4nat
    }
}

/// The bytes the compact encoding of `n` puts on the wire: the value
/// shifted up two bits, the tag in the low bits, little-endian.
pub open spec fn compact_bytes(n: u32) -> Seq<u8>
    recommends
        n < 0x40000000,
{
    if n < 0x40 {
        seq![(n * 4) as u8]
    } else if n < 0x4000 {
        let v = n * 4 + 1;
        seq![(v % 256) as u8, (v / 256) as u8]
    } else {
        let v = n * 4 + 2;
        seq![
            (v % 256) as u8,
            ((v / 256) % 256) as u8,
            ((v / 65536) % 256) as u8,
            ((v / 16777216) % 256) as u8,
        ]
    }
}

/// Decode a compact integer from the front of `b`: the value and how many
/// bytes were consumed, or nothing if `b` is too short or carries the
/// big-integer tag 0b11, which this encoder never produces.
pub open spec fn compact_decode_spec(b: Seq<u8>) -> Option<(u32, nat)> {
    if b.len() == 0 {
        Option::None
    } else {
        let tag = b[0] % 4;
        if tag == 0 {
            Option::Some(((b[0] / 4) as u32, 1nat))
        } else if tag == 1 {
            if b.len() < 2 {
                Option::None
            } else {
                Option::Some((((b[0] + b[1] * 256) / 4) as u32, 2nat))
            }
        } else if tag == 2 {
            if b.len() < 4 {
                Option::None
            } else {
                Option::Some(
                    (((b[0] + b[1] * 256 + b[2] * 65536 + b[3] * 16777216) / 4) as u32, 4nat),
                )
            }
        } else {
            Option::None
        }
    }
}

/// Decoding the bytes the compact encoder produces for `n` yields `n`
/// again and consumes exactly `compact_width(n)` bytes.
pub proof fn lemma_compact_round_trip(n: u32)
    requires
        n < 0x40000000,
    ensures
        compact_decode_spec(compact_bytes(n)) == Option::Some((n, compact_width(n))),
{
    if n < 0x40 {
        let v = n * 4;
        lemma_fundamental_div_mod_converse(v as int, 4, n as int, 0);
        assert(compact_bytes(n) == seq![(v % 256) as u8]) by {
            lemma_small_mod(v as nat, 256);
        }
        assert(compact_bytes(n)[0] == v as u8);
        lemma_small_mod(v as nat, 256);
    } else if n < 0x4000 {
        let v: int = n * 4 + 1;
        let b0: int = v % 256;
        let b1: int = v / 256;
        lemma_fundamental_div_mod(v, 256);
        // v == 256 * b1 + b0
        lemma_fundamental_div_mod_converse(b0, 4, n - 64 * b1, 1);
        assert(b0 % 4 == 1);
        assert(b1 < 256);
        assert(compact_bytes(n)[0] == b0 as u8);
        assert(compact_bytes(n)[1] == b1 as u8);
        lemma_fundamental_div_mod_converse(b0 + b1 * 256, 4, n as int, 1);
        assert((b0 + b1 * 256) / 4 == n);
    } else {
        let v: int = n * 4 + 2;
        let q1: int = v / 256;
        let q2: int = v / 65536;
        let q3: int = v / 16777216;
        let b0: int = v % 256;
        lemma_fundamental_div_mod(v, 256);
        // v == 256 * q1 + b0
        lemma_fundamental_div_mod(q1, 256);
        // q1 == 256 * (q1 / 256) + q1 % 256
        assert(q1 / 256 == q2) by {
            lemma_fundamental_div_mod_converse(v, 65536, q1 / 256, 256 * (q1 % 256) + b0);
        }
        let b1: int = q1 % 256;
        lemma_fundamental_div_mod(q2, 256);
        assert(q2 / 256 == q3) by {
            lemma_fundamental_div_mod_converse(
                v,
                16777216,
                q2 / 256,
                65536 * (q2 % 256) + 256 * b1 + b0,
            );
        }
        let b2: int = q2 % 256;
        assert(q3 < 256);
        lemma_small_mod(q3 as nat, 256);
        assert(b0 % 4 == 2) by {
            lemma_fundamental_div_mod_converse(b0, 4, (n - 64 * q1) as int, 2);
        }
        assert(b0 + b1 * 256 + b2 * 65536 + q3 * 16777216 == v);
        lemma_fundamental_div_mod_converse(v, 4, n as int, 2);
        assert(v / 4 == n);
    }
}

/// Encode `n` compactly, or report that it is out of the representable
/// range (`0x40000000` and above).
pub fn compact_encode(n: u32) -> (r: Option<Vec<u8>>)
    ensures
        n < 0x40000000 ==> (r matches Option::Some(v) && v@ == compact_bytes(n)),
        n >= 0x40000000 ==> r is None,
{
    if n >= 0x40000000 {
        return Option::None;
    }
    let mut out: Vec<u8> = Vec::new();
    if n < 0x40 {
        let v = n * 4;
        out.push(v as u8);
        proof {
            assert(out@ =~= compact_bytes(n));
        }
    } else if n < 0x4000 {
        let v = n * 4 + 1;
        out.push((v % 256) as u8);
        out.push((v / 256) as u8);
        proof {
            assert(out@ =~= compact_bytes(n));
        }
    } else {
        let v = n * 4 + 2;
        out.push((v % 256) as u8);
        out.push((v / 256 % 256) as u8);
        out.push((v / 65536 % 256) as u8);
        out.push((v / 16777216 % 256) as u8);
        proof {
            assert(out@ =~= compact_bytes(n));
        }
    }
    Option::Some(out)
}

/// Decode a compact integer from the front of `buf`.
pub fn compact_decode(buf: &Vec<u8>) -> (r: Option<(u32, usize)>)
    ensures
        r is Some <==> compact_decode_spec(buf@) is Some,
        r matches Option::Some((value, width)) ==> compact_decode_spec(buf@)
            == Option::Some((value, width as nat)),
{
    if buf.len() == 0 {
        return Option::None;
    }
    let b0 = buf[0];
    let tag = b0 % 4;
    if tag == 0 {
        Option::Some(((b0 / 4) as u32, 1))
    } else if tag == 1 {
        if buf.len() < 2 {
            Option::None
        } else {
            let w: u32 = b0 as u32 + buf[1] as u32 * 256;
            Option::Some((w / 4, 2))
        }
    } else if tag == 2 {
        if buf.len() < 4 {
            Option::None
        } else {
            let w: u32 = b0 as u32 + buf[1] as u32 * 256 + buf[2] as u32 * 65536 + buf[3] as u32
                * 16777216;
            Option::Some((w / 4, 4))
        }
    } else {
        Option::None
    }
}

/// The value shifted up two bits: `e * 4`, computed in `uint32`.
pub open spec fn compact_mul4(e: ExprV) -> ExprV {
    ExprV::Multiply {
        ty: Type::Uint(32),
        overflowing: false,
        left: Box::new(e),
        right: Box::new(ExprV::NumberLiteral { ty: Type::Uint(32), value: 4 }),
    }
}

/// One-byte payload of the small class: `(e * 4) | 0b00`, truncated.
pub open spec fn compact_payload_small(e: ExprV) -> ExprV {
    ExprV::Trunc { ty: Type::Uint(8), expr: Box::new(compact_mul4(e)) }
}

/// Two-byte payload of the medium class: `(e * 4) | 0b01`, truncated.
pub open spec fn compact_payload_medium(e: ExprV) -> ExprV {
    ExprV::Trunc {
        ty: Type::Uint(16),
        expr: Box::new(
            ExprV::BitwiseOr {
                ty: Type::Uint(32),
                left: Box::new(compact_mul4(e)),
                right: Box::new(ExprV::NumberLiteral { ty: Type::Uint(32), value: 1 }),
            },
        ),
    }
}

/// Four-byte payload of the big class: `(e * 4) | 0b10`.
pub open spec fn compact_payload_big(e: ExprV) -> ExprV {
    ExprV::BitwiseOr {
        ty: Type::Uint(32),
        left: Box::new(compact_mul4(e)),
        right: Box::new(ExprV::NumberLiteral { ty: Type::Uint(32), value: 2 }),
    }
}

/// An unsigned comparison of `e` against a `uint32` literal.
pub open spec fn cmp_more_lit(e: ExprV, bound: u128) -> ExprV {
    ExprV::More {
        signed: false,
        left: Box::new(e),
        right: Box::new(ExprV::NumberLiteral { ty: Type::Uint(32), value: bound }),
    }
}

/// An unsigned `e < bound` against a `uint32` literal.
pub open spec fn cmp_less_lit(e: ExprV, bound: u128) -> ExprV {
    ExprV::Less {
        signed: false,
        left: Box::new(e),
        right: Box::new(ExprV::NumberLiteral { ty: Type::Uint(32), value: bound }),
    }
}

/// The instruction sequence of one width-class block: when a destination
/// buffer is supplied, write this class's payload at `offset`, then in
/// every case assign the class's byte width to the merge variable and
/// branch to `done`.
pub open spec fn width_class_block(
    b: BasicBlock,
    with_buffer: bool,
    buffer: ExprV,
    offset: ExprV,
    payload: ExprV,
    sv: usize,
    width: u128,
    done: int,
) -> bool {
    if with_buffer {
        &&& b.instr@.len() == 3
        &&& b.instr@[0] matches Instr::WriteBuffer { buf, offset: o, value }
            && buf.deep_view() == buffer && o.deep_view() == offset && value.deep_view() == payload
        &&& b.instr@[1] matches Instr::Assign { res, expr, .. } && res == sv && expr.deep_view()
            == (ExprV::NumberLiteral { ty: Type::Uint(32), value: width })
        &&& b.instr@[2] matches Instr::Branch { block } && block == done
    } else {
        &&& b.instr@.len() == 2
        &&& b.instr@[0] matches Instr::Assign { res, expr, .. } && res == sv && expr.deep_view()
            == (ExprV::NumberLiteral { ty: Type::Uint(32), value: width })
        &&& b.instr@[1] matches Instr::Branch { block } && block == done
    }
}

/// The shape of the runtime decision tree `encode_compact` appends to the
/// graph. `base` is the block count before the call, `entry` the block
/// that was current, `sv` the fresh merge variable.
pub open spec fn compact_fragment_shape(
    cfg: ControlFlowGraph,
    old_cfg: ControlFlowGraph,
    e: ExprV,
    with_buffer: bool,
    buffer: ExprV,
    offset: ExprV,
    sv: usize,
) -> bool {
    let base = old_cfg.blocks@.len() as int;
    let entry = old_cfg.current as int;
    let small = base;
    let medium = base + 1;
    let medium_or_big = base + 2;
    let big = base + 3;
    let done = base + 4;
    let fail = base + 5;
    let prepare = base + 6;
    &&& cfg.blocks@.len() == base + 7
    // untouched blocks survive unchanged
    &&& forall|b: int| 0 <= b < base && b != entry ==> cfg.blocks@[b] == old_cfg.blocks@[b]
    // the entry block ends with the range guard: values of 0x40000000 and
    // above trap before any write
    &&& cfg.blocks@[entry].instr@ == old_cfg.blocks@[entry].instr@.push(
        cfg.blocks@[entry].instr@.last(),
    )
    &&& cfg.blocks@[entry].instr@.last() matches Instr::BranchCond {
        cond,
        true_block,
        false_block,
    } && cond.deep_view() == cmp_more_lit(e, 0x3FFFFFFF) && true_block == fail && false_block
        == prepare
    &&& cfg.blocks@[fail].instr@.len() == 1
    &&& cfg.blocks@[fail].instr@[0] matches Instr::AssertFailure { encoded_args } && encoded_args
        is None
    // class selection, by magnitude
    &&& cfg.blocks@[prepare].instr@.len() == 1
    &&& cfg.blocks@[prepare].instr@[0] matches Instr::BranchCond {
        cond,
        true_block,
        false_block,
    } && cond.deep_view() == cmp_less_lit(e, 0x40) && true_block == small && false_block
        == medium_or_big
    &&& cfg.blocks@[medium_or_big].instr@.len() == 1
    &&& cfg.blocks@[medium_or_big].instr@[0] matches Instr::BranchCond {
        cond,
        true_block,
        false_block,
    } && cond.deep_view() == cmp_less_lit(e, 0x4000) && true_block == medium && false_block == big
    // the three width classes
    &&& width_class_block(
        cfg.blocks@[small],
        with_buffer,
        buffer,
        offset,
        compact_payload_small(e),
        sv,
        1,
        done,
    )
    &&& width_class_block(
        cfg.blocks@[medium],
        with_buffer,
        buffer,
        offset,
        compact_payload_medium(e),
        sv,
        2,
        done,
    )
    &&& width_class_block(
        cfg.blocks@[big],
        with_buffer,
        buffer,
        offset,
        compact_payload_big(e),
        sv,
        4,
        done,
    )
    // the merge block is open and carries exactly the merge variable as
    // its phi set
    &&& cfg.blocks@[done].instr@.len() == 0
    &&& cfg.blocks@[done].phis matches Option::Some(p) && p@.to_set()
        == Set::<usize>::empty().insert(sv) && crate::vartable::no_dups(p@)
    &&& cfg.current == done
    &&& cfg.meta() == old_cfg.meta()
}

/// Emit the compact-encoding decision tree for `expr` into the graph.
///
/// When `buffer` and `offset` are given, each width class writes its own
/// payload there; size-only callers pass none and get back only the width.
/// The computed width, 1, 2 or 4, flows out of the `done` block through a
/// single fresh phi variable, which the returned expression reads.
#[verifier::rlimit(60)]
pub fn encode_compact(
    expr: &Expression,
    buffer: Option<&Expression>,
    offset: Option<&Expression>,
    vartab: &mut Vartable,
    cfg: &mut ControlFlowGraph,
) -> (r: Expression)
    requires
        old(cfg).wf(),
        old(cfg).blocks@[old(cfg).current as int].is_open(),
        old(vartab).wf(),
        old(vartab).next_id < usize::MAX,
        old(cfg).blocks@.len() + 7 <= usize::MAX,
        buffer is Some <==> offset is Some,
    ensures
        final(cfg).wf(),
        final(vartab).wf(),
        r == (Expression::Variable { ty: Type::Uint(32), var_no: old(vartab).next_id }),
        compact_fragment_shape(
            *final(cfg),
            *old(cfg),
            expr.deep_view(),
            buffer is Some,
            if buffer is Some { buffer->0.deep_view() } else { ExprV::ReturnData },
            if offset is Some { offset->0.deep_view() } else { ExprV::ReturnData },
            old(vartab).next_id,
        ),
        final(vartab).next_id == old(vartab).next_id + 1,
        final(vartab).dirty@.len() == old(vartab).dirty@.len(),
        forall|t: int|
            0 <= t < final(vartab).dirty@.len() ==> final(vartab).tracker_set(t) == old(
                vartab,
            ).tracker_set(t).insert(old(vartab).next_id),
{
    let small = cfg.new_basic_block("small".to_owned());
    let medium = cfg.new_basic_block("medium".to_owned());
    let medium_or_big = cfg.new_basic_block("medium_or_big".to_owned());
    let big = cfg.new_basic_block("big".to_owned());
    let done = cfg.new_basic_block("done".to_owned());
    let fail = cfg.new_basic_block("fail".to_owned());
    let prepare = cfg.new_basic_block("prepare".to_owned());
    let ghost e = expr.deep_view();

    // Values the compact scheme cannot represent trap before any write.
    let bound = Expression::NumberLiteral { ty: Type::Uint(32), value: 0x3FFFFFFF };
    proof {
        assert(bound.deep_view() == (ExprV::NumberLiteral { ty: Type::Uint(32), value: 0x3FFFFFFF }));
    }
    let compare = Expression::More {
        signed: false,
        left: Box::new(expr.clone()),
        right: Box::new(bound),
    };
    proof {
        assert(compare.deep_view() == cmp_more_lit(e, 0x3FFFFFFF));
    }
    cfg.add(
        vartab,
        Instr::BranchCond { cond: compare, true_block: fail, false_block: prepare },
    );

    cfg.set_basic_block(fail);
    cfg.add(vartab, Instr::AssertFailure { encoded_args: Option::None });

    cfg.set_basic_block(prepare);
    let bound = Expression::NumberLiteral { ty: Type::Uint(32), value: 0x40 };
    proof {
        assert(bound.deep_view() == (ExprV::NumberLiteral { ty: Type::Uint(32), value: 0x40 }));
    }
    let compare = Expression::Less {
        signed: false,
        left: Box::new(expr.clone()),
        right: Box::new(bound),
    };
    proof {
        assert(compare.deep_view() == cmp_less_lit(e, 0x40));
    }
    cfg.add(
        vartab,
        Instr::BranchCond { cond: compare, true_block: small, false_block: medium_or_big },
    );

    cfg.set_basic_block(medium_or_big);
    let bound = Expression::NumberLiteral { ty: Type::Uint(32), value: 0x4000 };
    proof {
        assert(bound.deep_view() == (ExprV::NumberLiteral { ty: Type::Uint(32), value: 0x4000 }));
    }
    let compare = Expression::Less {
        signed: false,
        left: Box::new(expr.clone()),
        right: Box::new(bound),
    };
    proof {
        assert(compare.deep_view() == cmp_less_lit(e, 0x4000));
    }
    cfg.add(vartab, Instr::BranchCond { cond: compare, true_block: medium, false_block: big });

    proof {
        assert(*vartab == *old(vartab));
    }
    vartab.new_dirty_tracker();
    proof {
        assert(vartab.dirty@.last()@ =~= Seq::<usize>::empty());
        assert(vartab.tracker_set(vartab.dirty@.len() - 1) =~= Set::<usize>::empty());
        assert forall|t: int| 0 <= t < old(vartab).dirty@.len() implies vartab.tracker_set(t)
            == old(vartab).tracker_set(t) by {
            assert(vartab.dirty@[t] == old(vartab).dirty@[t]);
        }
    }
    let size_variable = vartab.temp_anonymous(&Type::Uint(32));
    let ghost tracker_len = vartab.dirty@.len();

    let four = Expression::NumberLiteral { ty: Type::Uint(32), value: 4 };
    proof {
        assert(four.deep_view() == (ExprV::NumberLiteral { ty: Type::Uint(32), value: 4 }));
    }
    let mul = Expression::Multiply {
        ty: Type::Uint(32),
        overflowing: false,
        left: Box::new(expr.clone()),
        right: Box::new(four),
    };
    proof {
        assert(mul.deep_view() == compact_mul4(e));
    }

    cfg.set_basic_block(small);
    if let (Option::Some(buffer), Option::Some(offset)) = (buffer, offset) {
        let payload = Expression::Trunc { ty: Type::Uint(8), expr: Box::new(mul.clone()) };
        proof {
            assert(payload.deep_view() == compact_payload_small(e));
        }
        cfg.add(
            vartab,
            Instr::WriteBuffer { buf: buffer.clone(), offset: offset.clone(), value: payload },
        );
    }
    let width = Expression::NumberLiteral { ty: Type::Uint(32), value: 1 };
    proof {
        assert(width.deep_view() == (ExprV::NumberLiteral { ty: Type::Uint(32), value: 1 }));
    }
    cfg.add(vartab, Instr::Assign { loc: Loc::Codegen, res: size_variable, expr: width });
    cfg.add(vartab, Instr::Branch { block: done });
    proof {
        assert forall|t: int| 0 <= t < old(vartab).dirty@.len() implies vartab.tracker_set(t)
            == old(vartab).tracker_set(t).insert(size_variable) by {}
        assert(width_class_block(
            cfg.blocks@[small as int],
            buffer is Some,
            if buffer is Some { buffer->0.deep_view() } else { ExprV::ReturnData },
            if offset is Some { offset->0.deep_view() } else { ExprV::ReturnData },
            compact_payload_small(e),
            size_variable,
            1,
            done as int,
        ));
    }

    cfg.set_basic_block(medium);
    if let (Option::Some(buffer), Option::Some(offset)) = (buffer, offset) {
        let one = Expression::NumberLiteral { ty: Type::Uint(32), value: 1 };
        proof {
            assert(one.deep_view() == (ExprV::NumberLiteral { ty: Type::Uint(32), value: 1 }));
        }
        let tagged = Expression::BitwiseOr {
            ty: Type::Uint(32),
            left: Box::new(mul.clone()),
            right: Box::new(one),
        };
        proof {
            assert(tagged.deep_view() == (ExprV::BitwiseOr {
                ty: Type::Uint(32),
                left: Box::new(compact_mul4(e)),
                right: Box::new(ExprV::NumberLiteral { ty: Type::Uint(32), value: 1 }),
            }));
        }
        let payload = Expression::Trunc { ty: Type::Uint(16), expr: Box::new(tagged) };
        proof {
            assert(payload.deep_view() == compact_payload_medium(e));
        }
        cfg.add(
            vartab,
            Instr::WriteBuffer { buf: buffer.clone(), offset: offset.clone(), value: payload },
        );
    }
    let width = Expression::NumberLiteral { ty: Type::Uint(32), value: 2 };
    proof {
        assert(width.deep_view() == (ExprV::NumberLiteral { ty: Type::Uint(32), value: 2 }));
    }
    cfg.add(vartab, Instr::Assign { loc: Loc::Codegen, res: size_variable, expr: width });
    cfg.add(vartab, Instr::Branch { block: done });
    proof {
        assert forall|t: int| 0 <= t < old(vartab).dirty@.len() implies vartab.tracker_set(t)
            == old(vartab).tracker_set(t).insert(size_variable) by {}
        assert(width_class_block(
            cfg.blocks@[medium as int],
            buffer is Some,
            if buffer is Some { buffer->0.deep_view() } else { ExprV::ReturnData },
            if offset is Some { offset->0.deep_view() } else { ExprV::ReturnData },
            compact_payload_medium(e),
            size_variable,
            2,
            done as int,
        ));
    }

    cfg.set_basic_block(big);
    if let (Option::Some(buffer), Option::Some(offset)) = (buffer, offset) {
        let two = Expression::NumberLiteral { ty: Type::Uint(32), value: 2 };
        proof {
            assert(two.deep_view() == (ExprV::NumberLiteral { ty: Type::Uint(32), value: 2 }));
        }
        let payload = Expression::BitwiseOr {
            ty: Type::Uint(32),
            left: Box::new(mul.clone()),
            right: Box::new(two),
        };
        proof {
            assert(payload.deep_view() == compact_payload_big(e));
        }
        cfg.add(
            vartab,
            Instr::WriteBuffer { buf: buffer.clone(), offset: offset.clone(), value: payload },
        );
    }
    let width = Expression::NumberLiteral { ty: Type::Uint(32), value: 4 };
    proof {
        assert(width.deep_view() == (ExprV::NumberLiteral { ty: Type::Uint(32), value: 4 }));
    }
    cfg.add(vartab, Instr::Assign { loc: Loc::Codegen, res: size_variable, expr: width });
    cfg.add(vartab, Instr::Branch { block: done });
    proof {
        assert forall|t: int| 0 <= t < old(vartab).dirty@.len() implies vartab.tracker_set(t)
            == old(vartab).tracker_set(t).insert(size_variable) by {}
        assert(width_class_block(
            cfg.blocks@[big as int],
            buffer is Some,
            if buffer is Some { buffer->0.deep_view() } else { ExprV::ReturnData },
            if offset is Some { offset->0.deep_view() } else { ExprV::ReturnData },
            compact_payload_big(e),
            size_variable,
            4,
            done as int,
        ));
    }

    cfg.set_basic_block(done);
    proof {
        assert(vartab.tracker_set(vartab.dirty@.len() - 1) =~= Set::<usize>::empty().insert(
            size_variable,
        ));
    }
    let ghost before_pop = *vartab;
    let phis = vartab.pop_dirty_tracker();
    proof {
        assert(phis@.to_set() =~= Set::<usize>::empty().insert(size_variable));
        assert forall|t: int| 0 <= t < vartab.dirty@.len() implies vartab.tracker_set(t) == old(
            vartab,
        ).tracker_set(t).insert(size_variable) by {
            assert(vartab.dirty@[t] == before_pop.dirty@[t]);
            assert(vartab.tracker_set(t) == before_pop.tracker_set(t));
        }
    }
    cfg.set_phis(done, phis);
    proof {
        let oc = *old(cfg);
        let nc = *cfg;
        let e = expr.deep_view();
        let base = oc.blocks@.len() as int;
        let with_buffer = buffer is Some;
        let bufv = if buffer is Some { buffer->0.deep_view() } else { ExprV::ReturnData };
        let offv = if offset is Some { offset->0.deep_view() } else { ExprV::ReturnData };
        assert(nc.blocks@.len() == base + 7);
        assert(forall|b: int| 0 <= b < base && b != oc.current as int ==> nc.blocks@[b]
            == oc.blocks@[b]);
        assert(width_class_block(
            nc.blocks@[base],
            with_buffer,
            bufv,
            offv,
            compact_payload_small(e),
            size_variable,
            1,
            base + 4,
        ));
        assert(width_class_block(
            nc.blocks@[base + 1],
            with_buffer,
            bufv,
            offv,
            compact_payload_medium(e),
            size_variable,
            2,
            base + 4,
        ));
        assert(width_class_block(
            nc.blocks@[base + 3],
            with_buffer,
            bufv,
            offv,
            compact_payload_big(e),
            size_variable,
            4,
            base + 4,
        ));
        assert(nc.blocks@[oc.current as int].instr@ == oc.blocks@[oc.current as int].instr@.push(
            nc.blocks@[oc.current as int].instr@.last(),
        ));
        assert(nc.blocks@[oc.current as int].instr@.last() matches Instr::BranchCond {
            cond,
            true_block,
            false_block,
        } && cond.deep_view() == cmp_more_lit(e, 0x3FFFFFFF) && true_block == base + 5
            && false_block == base + 6);
        assert(nc.blocks@[base + 5].instr@.len() == 1);
        assert(nc.blocks@[base + 6].instr@.len() == 1);
        assert(nc.blocks@[base + 6].instr@[0] matches Instr::BranchCond {
            cond,
            true_block,
            false_block,
        } && cond.deep_view() == cmp_less_lit(e, 0x40) && true_block == base && false_block == base
            + 2);
        assert(nc.blocks@[base + 2].instr@[0] matches Instr::BranchCond {
            cond,
            true_block,
            false_block,
        } && cond.deep_view() == cmp_less_lit(e, 0x4000) && true_block == base + 1 && false_block
            == base + 3);
        assert(nc.blocks@[base + 4].instr@.len() == 0);
        assert(nc.blocks@[base + 4].phis matches Option::Some(p) && p@.to_set()
            == Set::<usize>::empty().insert(size_variable) && crate::vartable::no_dups(p@));
        assert(nc.current == base + 4);
        assert(nc.meta() == oc.meta());
        assert(compact_fragment_shape(nc, oc, e, with_buffer, bufv, offv, size_variable));
        assert forall|t: int| 0 <= t < vartab.dirty@.len() implies vartab.tracker_set(t) == old(
            vartab,
        ).tracker_set(t).insert(size_variable) by {}
    }
    Expression::Variable { ty: Type::Uint(32), var_no: size_variable }
}

/// The signal a strategy raises when an operation does not exist for it.
/// The compact strategy keeps no storage write-back cache, so its cache
/// hooks always fail fast: reaching them means an upstream pass is broken.
pub struct UnsupportedOperation;

/// The compact ("Scale" style) encoding strategy. One value is chosen per
/// compilation target and shared by every encode and decode site.
pub struct ScaleEncoding {
    /// Packed encoding omits length prefixes.
    pub packed_encoder: bool,
}

impl ScaleEncoding {
    pub fn new(packed: bool) -> (r: ScaleEncoding)
        ensures
            r.packed_encoder == packed,
    {
        ScaleEncoding { packed_encoder: packed }
    }

    /// Whether the strategy omits length prefixes.
    pub fn is_packed(&self) -> (r: bool)
        ensures
            r == self.packed_encoder,
    {
        self.packed_encoder
    }

    /// Compute, without writing, how many bytes the size value `size`
    /// would occupy: the compact decision tree with no destination.
    pub fn size_width(
        &self,
        size: &Expression,
        vartab: &mut Vartable,
        cfg: &mut ControlFlowGraph,
    ) -> (r: Expression)
        requires
            old(cfg).wf(),
            old(cfg).blocks@[old(cfg).current as int].is_open(),
            old(vartab).wf(),
            old(vartab).next_id < usize::MAX,
            old(cfg).blocks@.len() + 7 <= usize::MAX,
        ensures
            final(cfg).wf(),
            final(vartab).wf(),
            r == (Expression::Variable { ty: Type::Uint(32), var_no: old(vartab).next_id }),
            compact_fragment_shape(
                *final(cfg),
                *old(cfg),
                size.deep_view(),
                false,
                ExprV::ReturnData,
                ExprV::ReturnData,
                old(vartab).next_id,
            ),
            final(vartab).next_id == old(vartab).next_id + 1,
            final(vartab).dirty@.len() == old(vartab).dirty@.len(),
    {
        encode_compact(size, Option::None, Option::None, vartab, cfg)
    }

    /// Write the size value `expr` at `offset` in `buffer` in compact
    /// form, handing back how many bytes were written.
    pub fn encode_size(
        &mut self,
        expr: &Expression,
        buffer: &Expression,
        offset: &Expression,
        vartab: &mut Vartable,
        cfg: &mut ControlFlowGraph,
    ) -> (r: Expression)
        requires
            old(cfg).wf(),
            old(cfg).blocks@[old(cfg).current as int].is_open(),
            old(vartab).wf(),
            old(vartab).next_id < usize::MAX,
            old(cfg).blocks@.len() + 7 <= usize::MAX,
        ensures
            *final(self) == *old(self),
            final(cfg).wf(),
            final(vartab).wf(),
            r == (Expression::Variable { ty: Type::Uint(32), var_no: old(vartab).next_id }),
            compact_fragment_shape(
                *final(cfg),
                *old(cfg),
                expr.deep_view(),
                true,
                buffer.deep_view(),
                offset.deep_view(),
                old(vartab).next_id,
            ),
            final(vartab).next_id == old(vartab).next_id + 1,
            final(vartab).dirty@.len() == old(vartab).dirty@.len(),
    {
        encode_compact(expr, Option::Some(buffer), Option::Some(offset), vartab, cfg)
    }

    /// Serialize an external-function reference as its address bytes
    /// followed directly by the four-byte selector; the result is the sum
    /// of the two fixed sub-sizes.
    pub fn encode_external_function(
        &mut self,
        expr: &Expression,
        buffer: &Expression,
        offset: &Expression,
        ns: &Namespace,
        vartab: &mut Vartable,
        cfg: &mut ControlFlowGraph,
    ) -> (r: Expression)
        requires
            old(cfg).wf(),
            old(cfg).blocks@[old(cfg).current as int].is_open(),
            old(vartab).wf(),
            ns.address_length <= u32::MAX as usize,
        ensures
            *final(self) == *old(self),
            final(cfg).wf(),
            *final(vartab) == *old(vartab),
            final(cfg).blocks@.len() == old(cfg).blocks@.len(),
            final(cfg).current == old(cfg).current,
            final(cfg).meta() == old(cfg).meta(),
            forall|b: int|
                0 <= b < final(cfg).blocks@.len() && b != old(cfg).current as int ==> (final(cfg)).blocks@[b] == old(cfg).blocks@[b],
            final(cfg).blocks@[old(cfg).current as int].instr@.len() == old(cfg).blocks@[old(
                cfg,
            ).current as int].instr@.len() + 2,
            final(cfg).blocks@[old(cfg).current as int].instr@.subrange(
                0,
                old(cfg).blocks@[old(cfg).current as int].instr@.len() as int,
            ) == old(cfg).blocks@[old(cfg).current as int].instr@,
            // first the address half, then the selector half right after it
            final(cfg).blocks@[old(cfg).current as int].instr@[old(cfg).blocks@[old(
                cfg,
            ).current as int].instr@.len() as int] matches Instr::WriteBuffer {
                buf,
                offset: o,
                value,
            } && buf.deep_view() == buffer.deep_view() && o.deep_view() == offset.deep_view()
                && value.deep_view() == (ExprV::ExternalFunctionAddress {
                function: Box::new(expr.deep_view()),
            }),
            final(cfg).blocks@[old(cfg).current as int].instr@[old(cfg).blocks@[old(
                cfg,
            ).current as int].instr@.len() as int + 1] matches Instr::WriteBuffer {
                buf,
                offset: o,
                value,
            } && buf.deep_view() == buffer.deep_view() && o.deep_view() == (ExprV::Add {
                ty: Type::Uint(32),
                overflowing: false,
                left: Box::new(offset.deep_view()),
                right: Box::new(
                    ExprV::NumberLiteral {
                        ty: Type::Uint(32),
                        value: ns.address_length as u128,
                    },
                ),
            }) && value.deep_view() == (ExprV::ExternalFunctionSelector {
                function: Box::new(expr.deep_view()),
            }),
            r.deep_view() == (ExprV::Add {
                ty: Type::Uint(32),
                overflowing: false,
                left: Box::new(
                    ExprV::NumberLiteral {
                        ty: Type::Uint(32),
                        value: ns.address_length as u128,
                    },
                ),
                right: Box::new(ExprV::NumberLiteral { ty: Type::Uint(32), value: 4 }),
            }),
    {
        let address = expr.external_function_address();
        cfg.add(
            vartab,
            Instr::WriteBuffer { buf: buffer.clone(), offset: offset.clone(), value: address },
        );
        let addr_len = Expression::NumberLiteral {
            ty: Type::Uint(32),
            value: ns.address_length as u128,
        };
        proof {
            assert(addr_len.deep_view() == (ExprV::NumberLiteral {
                ty: Type::Uint(32),
                value: ns.address_length as u128,
            }));
        }
        let size = addr_len.clone();
        let selector_offset = Expression::Add {
            ty: Type::Uint(32),
            overflowing: false,
            left: Box::new(offset.clone()),
            right: Box::new(addr_len),
        };
        let selector = expr.external_function_selector();
        cfg.add(
            vartab,
            Instr::WriteBuffer {
                buf: buffer.clone(),
                offset: selector_offset,
                value: selector,
            },
        );
        let four = Expression::NumberLiteral { ty: Type::Uint(32), value: 4 };
        proof {
            assert(four.deep_view() == (ExprV::NumberLiteral { ty: Type::Uint(32), value: 4 }));
        }
        let r = Expression::Add {
            ty: Type::Uint(32),
            overflowing: false,
            left: Box::new(size),
            right: Box::new(four),
        };
        proof {
            assert(final(cfg).blocks@[old(cfg).current as int].instr@.subrange(
                0,
                old(cfg).blocks@[old(cfg).current as int].instr@.len() as int,
            ) =~= old(cfg).blocks@[old(cfg).current as int].instr@);
        }
        r
    }

    /// Decode one value per entry of `types` from `buffer`, in order; the
    /// decode instruction itself carries the runtime length check, so a
    /// short buffer reverts in the generated code, never in the compiler.
    pub fn abi_decode(
        &self,
        buffer: &Expression,
        types: &Vec<Type>,
        vartab: &mut Vartable,
        cfg: &mut ControlFlowGraph,
        buffer_size: Option<Expression>,
    ) -> (returns_: Vec<Expression>)
        requires
            old(cfg).wf(),
            old(cfg).blocks@[old(cfg).current as int].is_open(),
            old(vartab).wf(),
            !self.packed_encoder,
            old(vartab).next_id + types@.len() < usize::MAX,
        ensures
            final(cfg).wf(),
            final(vartab).wf(),
            final(vartab).next_id == old(vartab).next_id + types@.len(),
            final(vartab).dirty@.len() == old(vartab).dirty@.len(),
            // every open tracker gains exactly the fresh decode targets
            forall|t: int|
                0 <= t < final(vartab).dirty@.len() ==> #[trigger] final(vartab).tracker_set(t)
                    == old(vartab).tracker_set(t).union(
                    Set::new(
                        |x: usize|
                            old(vartab).next_id <= x < old(vartab).next_id + types@.len(),
                    ),
                ),
            returns_@.len() == types@.len(),
            forall|i: int|
                0 <= i < types@.len() ==> returns_@[i] == (Expression::Variable {
                    ty: types@[i],
                    var_no: (old(vartab).next_id + i) as usize,
                }),
            final(cfg).blocks@.len() == old(cfg).blocks@.len(),
            final(cfg).current == old(cfg).current,
            final(cfg).meta() == old(cfg).meta(),
            forall|b: int|
                0 <= b < final(cfg).blocks@.len() && b != old(cfg).current as int ==> (final(cfg)).blocks@[b] == old(cfg).blocks@[b],
            final(cfg).blocks@[old(cfg).current as int].instr@ == old(cfg).blocks@[old(
                cfg,
            ).current as int].instr@.push(
                final(cfg).blocks@[old(cfg).current as int].instr@.last(),
            ),
            final(cfg).blocks@[old(cfg).current as int].instr@.last() matches Instr::AbiDecode {
                res,
                tys,
                data,
                data_len,
                ..
            } && res@.len() == types@.len() && (forall|i: int|
                0 <= i < types@.len() ==> res@[i] == (old(vartab).next_id + i) as usize) && (
            forall|i: int| 0 <= i < types@.len() ==> tys@[i].ty == types@[i]) && tys@.len()
                == types@.len() && data.deep_view() == buffer.deep_view() && (*buffer
                matches Expression::Variable { .. } ==> data == *buffer) && data_len
                == buffer_size,
    {
        let n = types.len();
        let mut returns_: Vec<Expression> = Vec::new();
        let mut var_nos: Vec<usize> = Vec::new();
        let mut decode_params: Vec<Parameter> = Vec::new();
        let mut i: usize = 0;
        while i < n
            invariant
                i <= n,
                n == types@.len(),
                vartab.wf(),
                vartab.next_id == old(vartab).next_id + i,
                old(vartab).next_id + n < usize::MAX,
                vartab.dirty == old(vartab).dirty,
                returns_@.len() == i,
                var_nos@.len() == i,
                decode_params@.len() == i,
                forall|k: int|
                    0 <= k < i ==> returns_@[k] == (Expression::Variable {
                        ty: types@[k],
                        var_no: (old(vartab).next_id + k) as usize,
                    }),
                forall|k: int| 0 <= k < i ==> var_nos@[k] == (old(vartab).next_id + k) as usize,
                forall|k: int| 0 <= k < i ==> decode_params@[k].ty == types@[k],
            decreases n - i,
        {
            let item = &types[i];
            let var_no = vartab.temp_anonymous(item);
            var_nos.push(var_no);
            returns_.push(Expression::Variable { ty: item.clone(), var_no });
            decode_params.push(Parameter::anonymous(item.clone()));
            i += 1;
        }
        let ghost vt_pre = *vartab;
        let ghost fresh = Set::new(
            |x: usize| old(vartab).next_id <= x < old(vartab).next_id + types@.len(),
        );
        proof {
            assert forall|x: usize| var_nos@.to_set().contains(x) implies fresh.contains(x) by {
                let k = choose|k: int| 0 <= k < var_nos@.len() && var_nos@[k] == x;
            }
            assert forall|x: usize| fresh.contains(x) implies var_nos@.to_set().contains(x) by {
                let k = x - old(vartab).next_id;
                assert(var_nos@[k as int] == x);
                assert(var_nos@.contains(x));
            }
            assert(var_nos@.to_set() =~= fresh);
        }
        cfg.add(
            vartab,
            Instr::AbiDecode {
                res: var_nos,
                selector: Option::None,
                exception_block: Option::None,
                tys: decode_params,
                data: buffer.clone(),
                data_len: buffer_size,
            },
        );
        returns_
    }

    /// The total encoded size of a variable-length value: length-field
    /// width plus payload length, or the payload length alone when packed.
    pub fn get_encoding_size(
        &self,
        expr: &Expression,
        ty: &Type,
        vartab: &mut Vartable,
        cfg: &mut ControlFlowGraph,
    ) -> (r: Expression)
        requires
            old(cfg).wf(),
            old(cfg).blocks@[old(cfg).current as int].is_open(),
            old(vartab).wf(),
            old(vartab).next_id < usize::MAX,
            old(cfg).blocks@.len() + 7 <= usize::MAX,
            *ty is Str || *ty is DynamicBytes,
        ensures
            final(cfg).wf(),
            final(vartab).wf(),
            self.packed_encoder ==> {
                &&& *final(cfg) == *old(cfg)
                &&& *final(vartab) == *old(vartab)
                &&& r.deep_view() == (ExprV::ArrayLength { base: Box::new(expr.deep_view()) })
            },
            !self.packed_encoder ==> {
                &&& compact_fragment_shape(
                    *final(cfg),
                    *old(cfg),
                    ExprV::ArrayLength { base: Box::new(expr.deep_view()) },
                    false,
                    ExprV::ReturnData,
                    ExprV::ReturnData,
                    old(vartab).next_id,
                )
                &&& r.deep_view() == (ExprV::Add {
                    ty: Type::Uint(32),
                    overflowing: false,
                    left: Box::new(
                        ExprV::Variable { ty: Type::Uint(32), var_no: old(vartab).next_id },
                    ),
                    right: Box::new(ExprV::ArrayLength { base: Box::new(expr.deep_view()) }),
                })
                &&& final(vartab).next_id == old(vartab).next_id + 1
            },
    {
        let length = Expression::ArrayLength { base: Box::new(expr.clone()) };
        proof {
            assert(length.deep_view() == (ExprV::ArrayLength { base: Box::new(expr.deep_view()) }));
        }
        if self.packed_encoder {
            length
        } else {
            let width = encode_compact(&length, Option::None, Option::None, vartab, cfg);
            proof {
                assert(width.deep_view() == (ExprV::Variable {
                    ty: Type::Uint(32),
                    var_no: old(vartab).next_id,
                }));
            }
            let r = Expression::Add {
                ty: Type::Uint(32),
                overflowing: false,
                left: Box::new(width),
                right: Box::new(length),
            };
            r
        }
    }

    /// The compact strategy keeps no storage cache; invoking the hook is
    /// an internal error reported to the caller, never a silent fallback.
    pub fn storage_cache_insert(&mut self, _arg_no: usize, _expr: Expression) -> (r: Result<
        (),
        UnsupportedOperation,
    >)
        ensures
            *final(self) == *old(self),
            r is Err,
    {
        Result::Err(UnsupportedOperation)
    }

    /// The compact strategy keeps no storage cache; invoking the hook is
    /// an internal error reported to the caller, never a silent fallback.
    pub fn storage_cache_remove(&mut self, _arg_no: usize) -> (r: Result<
        Option<Expression>,
        UnsupportedOperation,
    >)
        ensures
            *final(self) == *old(self),
            r is Err,
    {
        Result::Err(UnsupportedOperation)
    }

    /// Encode `args` into a fresh dynamic-bytes buffer; hands back the
    /// buffer expression and its length expression. Under packed encoding
    /// the arguments go into the packed side of the encode node.
    pub fn abi_encode(
        &mut self,
        args: Vec<Expression>,
        vartab: &mut Vartable,
        cfg: &mut ControlFlowGraph,
    ) -> (r: (Expression, Expression))
        requires
            old(cfg).wf(),
            old(cfg).blocks@[old(cfg).current as int].is_open(),
            old(vartab).wf(),
            old(vartab).next_id < usize::MAX,
        ensures
            final(cfg).wf(),
            final(vartab).wf(),
            *final(self) == *old(self),
            final(vartab).next_id == old(vartab).next_id + 1,
            final(vartab).dirty@.len() == old(vartab).dirty@.len(),
            final(cfg).blocks@.len() == old(cfg).blocks@.len(),
            final(cfg).current == old(cfg).current,
            final(cfg).meta() == old(cfg).meta(),
            forall|b: int|
                0 <= b < final(cfg).blocks@.len() && b != old(cfg).current as int ==> final(cfg).blocks@[b] == old(cfg).blocks@[b],
            final(cfg).blocks@[old(cfg).current as int].instr@ == old(cfg).blocks@[old(
                cfg,
            ).current as int].instr@.push(
                final(cfg).blocks@[old(cfg).current as int].instr@.last(),
            ),
            final(cfg).blocks@[old(cfg).current as int].instr@.last() matches Instr::Assign {
                res,
                expr,
                ..
            } && res == old(vartab).next_id && (expr matches Expression::AbiEncode {
                tys,
                packed,
                args: encoded_args,
            } && tys@.len() == args@.len() && (forall|i: int|
                0 <= i < args@.len() ==> tys@[i] == args@[i].spec_ty()) && (old(
                self,
            ).packed_encoder ==> packed@.len() == args@.len() && encoded_args@.len() == 0 && (
            forall|i: int|
                0 <= i < args@.len() ==> packed@[i].deep_view() == args@[i].deep_view())) && (!old(
                self,
            ).packed_encoder ==> encoded_args@.len() == args@.len() && packed@.len() == 0 && (
            forall|i: int|
                0 <= i < args@.len() ==> encoded_args@[i].deep_view() == args@[i].deep_view()))),
            r.0 == (Expression::Variable { ty: Type::DynamicBytes, var_no: old(vartab).next_id }),
            r.1 == (Expression::ArrayLength {
                base: Box::new(
                    Expression::Variable { ty: Type::DynamicBytes, var_no: old(vartab).next_id },
                ),
            }),
    {
        let n = args.len();
        let mut tys: Vec<Type> = Vec::new();
        let mut i: usize = 0;
        while i < n
            invariant
                i <= n,
                n == args@.len(),
                tys@.len() == i,
                forall|k: int| 0 <= k < i ==> tys@[k] == args@[k].spec_ty(),
            decreases n - i,
        {
            tys.push(args[i].ty());
            i += 1;
        }
        let encoded_buffer = vartab.temp_anonymous(&Type::DynamicBytes);
        let (packed, args) = if self.packed_encoder {
            (args, Vec::new())
        } else {
            (Vec::new(), args)
        };
        cfg.add(
            vartab,
            Instr::Assign {
                loc: Loc::Codegen,
                res: encoded_buffer,
                expr: Expression::AbiEncode { tys, packed, args },
            },
        );
        let encoded_expr = Expression::Variable {
            ty: Type::DynamicBytes,
            var_no: encoded_buffer,
        };
        let buffer_len = Expression::ArrayLength { base: Box::new(encoded_expr.clone()) };
        proof {
            assert(buffer_len == (Expression::ArrayLength {
                base: Box::new(
                    Expression::Variable {
                        ty: Type::DynamicBytes,
                        var_no: old(vartab).next_id,
                    },
                ),
            }));
        }
        (encoded_expr, buffer_len)
    }
}

/// Encode `args` into a fresh buffer under the target's default (non
/// packed) convention; the module-level entry the statement lowerings
/// share.
pub fn abi_encode(
    args: Vec<Expression>,
    vartab: &mut Vartable,
    cfg: &mut ControlFlowGraph,
    packed: bool,
) -> (r: (Expression, Expression))
    requires
        old(cfg).wf(),
        old(cfg).blocks@[old(cfg).current as int].is_open(),
        old(vartab).wf(),
        old(vartab).next_id < usize::MAX,
    ensures
        final(cfg).wf(),
        final(vartab).wf(),
        final(vartab).next_id == old(vartab).next_id + 1,
        final(vartab).dirty@.len() == old(vartab).dirty@.len(),
        final(cfg).blocks@.len() == old(cfg).blocks@.len(),
        final(cfg).current == old(cfg).current,
        final(cfg).meta() == old(cfg).meta(),
        forall|b: int|
            0 <= b < final(cfg).blocks@.len() && b != old(cfg).current as int ==> final(cfg).blocks@[b] == old(cfg).blocks@[b],
        final(cfg).blocks@[old(cfg).current as int].instr@ == old(cfg).blocks@[old(
            cfg,
        ).current as int].instr@.push(final(cfg).blocks@[old(cfg).current as int].instr@.last()),
        final(cfg).blocks@[old(cfg).current as int].instr@.last() matches Instr::Assign {
            res,
            expr,
            ..
        } && res == old(vartab).next_id && (expr matches Expression::AbiEncode {
            tys,
            packed: packed_args,
            args: encoded_args,
        } && tys@.len() == args@.len() && (forall|i: int|
            0 <= i < args@.len() ==> tys@[i] == args@[i].spec_ty()) && (packed
            ==> packed_args@.len() == args@.len() && encoded_args@.len() == 0 && (forall|i: int|
            0 <= i < args@.len() ==> packed_args@[i].deep_view() == args@[i].deep_view())) && (
        !packed ==> encoded_args@.len() == args@.len() && packed_args@.len() == 0 && (forall|
            i: int,
        |
            0 <= i < args@.len() ==> encoded_args@[i].deep_view() == args@[i].deep_view()))),
        r.0 == (Expression::Variable { ty: Type::DynamicBytes, var_no: old(vartab).next_id }),
        r.1 == (Expression::ArrayLength {
            base: Box::new(
                Expression::Variable { ty: Type::DynamicBytes, var_no: old(vartab).next_id },
            ),
        }),
{
    let mut encoder = ScaleEncoding::new(packed);
    encoder.abi_encode(args, vartab, cfg)
}

} // verus!
