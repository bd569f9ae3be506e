//! Event emission: compile-time topic hashes for the event signature,
//! runtime hashing of oversized indexed-field topics, and the final
//! event-log instruction.
//!
//! Event and field names are handled as their UTF-8 bytes, already
//! length-prefixed in the wire convention when they go into a topic.

use vstd::prelude::*;

use crate::ast::{Loc, Type};
use crate::cfg::{clone_bytes, ControlFlowGraph, Expression, Instr, StringLocation};
use crate::encoding::compact_bytes;
use crate::vartable::{no_dups, Vartable};

verus! {

/// The 32-byte digest the host's hash intrinsic computes; it depends on
/// the input bytes alone.
pub uninterp spec fn blake2b256_of(data: Seq<u8>) -> Seq<u8>;

/// Relies on `blake2_rfc::blake2b::blake2b` with an empty key and a
/// 32-byte digest length: the digest is a function of the input bytes
/// alone and is exactly 32 bytes long.
#[verifier::external_body]
fn blake2b_256(data: &Vec<u8>) -> (r: Vec<u8>)
    ensures
        r@ == blake2b256_of(data@),
        r@.len() == 32,
{
    blake2_rfc::blake2b::blake2b(32, &[], data.as_slice()).as_bytes().to_vec()
}

/// Relies on `parity_scale_codec::Encode` for byte slices: the encoding
/// is the compact-encoded length followed by the bytes themselves. The
/// length bound keeps the call away from the panic the codec raises on
/// slices longer than a length word can carry.
#[verifier::external_body]
fn scale_encode_bytes(data: &Vec<u8>) -> (r: Vec<u8>)
    requires
        data@.len() <= u32::MAX,
    ensures
        data@.len() < 0x40000000 ==> r@ == compact_bytes(data@.len() as u32) + data@,
{
    parity_scale_codec::Encode::encode(&data.as_slice())
}

/// A topic is exactly 32 bytes: short encodings are used directly,
/// padded with zeroes, anything longer is reduced to its hash.
pub open spec fn spec_topic_hash(encoded: Seq<u8>) -> Seq<u8> {
    if encoded.len() <= 32 {
        encoded + Seq::new((32 - encoded.len()) as nat, |i: int| 0u8)
    } else {
        blake2b256_of(encoded)
    }
}

/// Turn an encoded topic preimage into its 32-byte topic.
pub fn topic_hash(encoded: &Vec<u8>) -> (r: Vec<u8>)
    ensures
        r@ == spec_topic_hash(encoded@),
        r@.len() == 32,
{
    if encoded.len() <= 32 {
        let mut buf = clone_bytes(encoded);
        while buf.len() < 32
            invariant
                buf@.len() <= 32,
                encoded@.len() <= 32,
                buf@.len() >= encoded@.len(),
                buf@ == encoded@ + Seq::new((buf@.len() - encoded@.len()) as nat, |i: int| 0u8),
            decreases 32 - buf@.len(),
        {
            buf.push(0);
            proof {
                assert(buf@ =~= encoded@ + Seq::new(
                    (buf@.len() - encoded@.len()) as nat,
                    |i: int| 0u8,
                ));
            }
        }
        proof {
            assert(buf@ == spec_topic_hash(encoded@));
        }
        buf
    } else {
        blake2b_256(encoded)
    }
}

/// Concatenate two byte strings.
pub fn concat_bytes(a: &Vec<u8>, b: &Vec<u8>) -> (r: Vec<u8>)
    ensures
        r@ == a@ + b@,
{
    let mut r = clone_bytes(a);
    let n = b.len();
    let mut i: usize = 0;
    while i < n
        invariant
            i <= n,
            n == b@.len(),
            r@ == a@ + b@.take(i as int),
        decreases n - i,
    {
        r.push(b[i]);
        proof {
            assert(r@ =~= a@ + b@.take(i + 1));
        }
        i += 1;
    }
    proof {
        assert(r@ =~= a@ + b@);
    }
    r
}

/// One field the event carries: its name (as UTF-8 bytes) and whether it
/// is indexed.
pub struct EventField {
    pub name: Vec<u8>,
    pub indexed: bool,
}

/// How many fields are indexed.
pub open spec fn count_indexed(fields: Seq<EventField>) -> int
    decreases fields.len(),
{
    if fields.len() == 0 {
        0
    } else {
        count_indexed(fields.drop_last()) + if fields.last().indexed {
            1int
        } else {
            0int
        }
    }
}


/// The non-indexed arguments, in order: what the event carries as plain
/// data.
pub open spec fn kept_data(args: Seq<Expression>, fields: Seq<EventField>, n: int) -> Seq<
    Expression,
>
    decreases n,
{
    if n <= 0 {
        Seq::empty()
    } else {
        kept_data(args, fields, n - 1) + (if fields[n - 1].indexed {
            Seq::empty()
        } else {
            seq![args[n - 1]]
        })
    }
}

/// The encoded preimage of the event-signature topic: the length-prefixed
/// qualified name with its first byte zeroed.
pub open spec fn signature_preimage(contract_name: Seq<u8>, event_name: Seq<u8>) -> Seq<u8> {
    let qualified = contract_name + seq![58u8, 58u8] + event_name;
    let encoded = compact_bytes(qualified.len() as u32) + qualified;
    encoded.update(0, 0u8)
}

/// The compile-time preimage prefix of one indexed field's topic: the
/// length-prefixed `<contract>::<event>::<field>` bytes.
pub open spec fn indexed_preimage(
    contract_name: Seq<u8>,
    event_name: Seq<u8>,
    field_name: Seq<u8>,
) -> Seq<u8> {
    let qualified = contract_name + seq![58u8, 58u8] + event_name + seq![58u8, 58u8] + field_name;
    compact_bytes(qualified.len() as u32) + qualified
}

/// The indexed fields with their arguments, in order: what the event
/// carries as runtime topics.
pub open spec fn kept_topic_args(
    args: Seq<Expression>,
    fields: Seq<EventField>,
    n: int,
) -> Seq<(EventField, Expression)>
    decreases n,
{
    if n <= 0 {
        Seq::empty()
    } else {
        kept_topic_args(args, fields, n - 1) + (if fields[n - 1].indexed {
            seq![(fields[n - 1], args[n - 1])]
        } else {
            Seq::empty()
        })
    }
}

/// The fragment one indexed field lowers to. In the entry block, at
/// `at`: the topic variable is assigned the compile-time prefix
/// concatenated with the encoded argument, then a guard compares its
/// length against 32; the `bigger` block overwrites it in place with its
/// hash and rejoins; the merge block's phi set carries exactly the topic
/// variable.
pub open spec fn topic_fragment_ok(
    cfg: ControlFlowGraph,
    entry: int,
    at: int,
    bigger: int,
    done: int,
    var: usize,
    contract_name: Seq<u8>,
    event_name: Seq<u8>,
    field: EventField,
    arg: Expression,
) -> bool {
    &&& 0 <= entry < cfg.blocks@.len()
    &&& 0 <= bigger < cfg.blocks@.len()
    &&& 0 <= done < cfg.blocks@.len()
    &&& 0 <= at
    &&& at + 2 <= cfg.blocks@[entry].instr@.len()
    &&& cfg.blocks@[entry].instr@[at] matches Instr::Assign { res, expr, .. } && res == var && (
    expr matches Expression::StringConcat { ty, left, right } && ty == Type::DynamicBytes && (left
        matches StringLocation::CompileTime(p) && p@ == indexed_preimage(
        contract_name,
        event_name,
        field.name@,
    )) && (right matches StringLocation::RunTime(e) && (*e matches Expression::AbiEncode {
        tys,
        packed,
        args,
    } && tys@ == seq![arg.spec_ty()] && packed@.len() == 0 && args@ == seq![arg])))
    &&& cfg.blocks@[entry].instr@[at + 1] == (Instr::BranchCond {
        cond: Expression::More {
            signed: false,
            left: Box::new(
                Expression::ArrayLength {
                    base: Box::new(
                        Expression::Variable { ty: Type::DynamicBytes, var_no: var },
                    ),
                },
            ),
            right: Box::new(Expression::NumberLiteral { ty: Type::Uint(32), value: 32 }),
        },
        true_block: bigger as usize,
        false_block: done as usize,
    })
    &&& cfg.blocks@[bigger].instr@ == seq![
        Instr::WriteBuffer {
            buf: Expression::Variable { ty: Type::DynamicBytes, var_no: var },
            offset: Expression::NumberLiteral { ty: Type::Uint(32), value: 0 },
            value: Expression::Blake2b256 {
                arg: Box::new(Expression::Variable { ty: Type::DynamicBytes, var_no: var }),
            },
        },
        Instr::Branch { block: done as usize },
    ]
    &&& cfg.blocks@[done].phis matches Option::Some(p) && p@.to_set()
        == Set::<usize>::empty().insert(var) && no_dups(p@)
}

/// A topic fragment survives growth of the graph and appends to the one
/// block the cursor sits in, its rows and merge phi being pinned.
proof fn lemma_topic_fragment_preserved(
    oldc: ControlFlowGraph,
    newc: ControlFlowGraph,
    entry: int,
    at: int,
    bigger: int,
    done: int,
    var: usize,
    contract_name: Seq<u8>,
    event_name: Seq<u8>,
    field: EventField,
    arg: Expression,
    except: int,
)
    requires
        topic_fragment_ok(oldc, entry, at, bigger, done, var, contract_name, event_name, field, arg),
        newc.blocks@.len() >= oldc.blocks@.len(),
        bigger != except,
        forall|b: int|
            0 <= b < oldc.blocks@.len() && b != except ==> newc.blocks@[b] == oldc.blocks@[b],
        0 <= except < oldc.blocks@.len() ==> {
            &&& newc.blocks@[except].instr@.len() >= oldc.blocks@[except].instr@.len()
            &&& newc.blocks@[except].instr@.subrange(
                0,
                oldc.blocks@[except].instr@.len() as int,
            ) == oldc.blocks@[except].instr@
            &&& newc.blocks@[except].phis == oldc.blocks@[except].phis
        },
    ensures
        topic_fragment_ok(newc, entry, at, bigger, done, var, contract_name, event_name, field, arg),
{
    if entry == except {
        assert(newc.blocks@[entry].instr@[at] == oldc.blocks@[entry].instr@[at]);
        assert(newc.blocks@[entry].instr@[at + 1] == oldc.blocks@[entry].instr@[at + 1]);
    }
}

/// The emitter for one event-emission statement: the already-lowered
/// argument expressions and the event's identity.
pub struct EventEmitter {
    pub args: Vec<Expression>,
    pub event_no: usize,
    pub contract_name: Vec<u8>,
    pub event_name: Vec<u8>,
    pub anonymous: bool,
    pub fields: Vec<EventField>,
}

impl EventEmitter {
    /// Emit the event: a compile-time signature topic for non-anonymous
    /// events, one runtime topic per indexed field (hashed in place when
    /// longer than 32 bytes, merged through a single phi), plain data
    /// values for the rest, and the final event-log instruction carrying
    /// all of it.
    #[verifier::rlimit(100)]
    #[verifier::spinoff_prover]
    pub fn emit(self, vartab: &mut Vartable, cfg: &mut ControlFlowGraph) -> (frags: Ghost<
        Seq<(int, int, int, int, usize)>,
    >)
        requires
            old(cfg).wf(),
            old(cfg).blocks@[old(cfg).current as int].is_open(),
            old(vartab).wf(),
            self.fields@.len() == self.args@.len(),
            self.contract_name@.len() + self.event_name@.len() + 16 < 0x40000000,
            forall|k: int|
                0 <= k < self.fields@.len() ==> self.contract_name@.len()
                    + self.event_name@.len() + (#[trigger] self.fields@[k]).name@.len() + 16
                    < 0x40000000,
            old(vartab).next_id + self.args@.len() + 4 < usize::MAX,
            old(cfg).blocks@.len() + 2 * self.args@.len() + 4 < usize::MAX,
        ensures
            final(cfg).wf(),
            final(vartab).wf(),
            final(vartab).dirty@.len() == old(vartab).dirty@.len(),
            final(cfg).meta() == old(cfg).meta(),
            final(cfg).current < final(cfg).blocks@.len(),
            final(cfg).blocks@[final(cfg).current as int].instr@.len() > 0,
            final(cfg).blocks@[final(cfg).current as int].instr@.last()
                matches Instr::EmitEvent { event_no, data, data_tys, topics, topic_tys }
                && event_no == self.event_no && data_tys@.len() == data@.len()
                && topic_tys@.len() == topics@.len() && topics@.len() == count_indexed(
                self.fields@,
            ) + (if self.anonymous {
                0int
            } else {
                1int
            })
            // the data side holds exactly the non-indexed arguments, in
            // order, with their types
                && data@.len() == kept_data(
                self.args@,
                self.fields@,
                self.args@.len() as int,
            ).len() && (forall|k: int|
                0 <= k < data@.len() ==> (#[trigger] data@[k]).deep_view() == kept_data(
                    self.args@,
                    self.fields@,
                    self.args@.len() as int,
                )[k].deep_view() && data_tys@[k] == kept_data(
                    self.args@,
                    self.fields@,
                    self.args@.len() as int,
                )[k].spec_ty())
            // a non-anonymous event's first topic is the compile-time
            // hash of its zero-prefixed encoded signature
                && (!self.anonymous ==> (topics@[0] matches Expression::AllocDynamicBytes {
                ty,
                size,
                initializer,
            } && ty == Type::Slice(Box::new(Type::Uint(8))) && *size
                == (Expression::NumberLiteral { ty: Type::Uint(32), value: 32 }) && (initializer
                matches Option::Some(h) && (self.contract_name@.len() + self.event_name@.len() + 2
                < 0x40000000 ==> h@ == spec_topic_hash(
                signature_preimage(self.contract_name@, self.event_name@),
            )))))
            // the runtime topics are variable reads of the per-field
            // concatenation temporaries
                && (forall|k: int|
                (if self.anonymous {
                    0int
                } else {
                    1int
                }) <= k < topics@.len() ==> ((#[trigger] topics@[k])
                    matches Expression::Variable { ty: tty, .. } && tty == Type::DynamicBytes)),
            // one fragment per indexed field, in order: the concatenation
            // assignment, the guarded in-place hash, and the merge phi
            frags@.len() == count_indexed(self.fields@),
            frags@.len() == kept_topic_args(
                self.args@,
                self.fields@,
                self.args@.len() as int,
            ).len(),
            forall|k: int|
                0 <= k < frags@.len() ==> topic_fragment_ok(
                    *final(cfg),
                    (#[trigger] frags@[k]).0,
                    frags@[k].1,
                    frags@[k].2,
                    frags@[k].3,
                    frags@[k].4,
                    self.contract_name@,
                    self.event_name@,
                    kept_topic_args(self.args@, self.fields@, self.args@.len() as int)[k].0,
                    kept_topic_args(self.args@, self.fields@, self.args@.len() as int)[k].1,
                ),
            // the emitted runtime topics read exactly the fragment
            // variables, in field order
            final(cfg).blocks@[final(cfg).current as int].instr@.last()
                matches Instr::EmitEvent { topics, .. } ==> (forall|k: int|
                0 <= k < frags@.len() ==> topics@[(if self.anonymous {
                    0int
                } else {
                    1int
                }) + k] == (Expression::Variable {
                    ty: Type::DynamicBytes,
                    var_no: (#[trigger] frags@[k]).4,
                })),
    {
        let EventEmitter { args, event_no, contract_name, event_name, anonymous, fields } = self;
        let mut data: Vec<Expression> = Vec::new();
        let mut data_tys: Vec<Type> = Vec::new();
        let mut topics: Vec<Expression> = Vec::new();
        let mut topic_tys: Vec<Type> = Vec::new();

        let mut sep: Vec<u8> = Vec::new();
        sep.push(58);
        sep.push(58);

        // Non-anonymous events always carry their own signature as the
        // first topic: a compile-time hash with the length prefix zeroed.
        if !anonymous {
            let qualified = concat_bytes(&concat_bytes(&contract_name, &sep), &event_name);
            let mut encoded = scale_encode_bytes(&qualified);
            proof {
                assert(qualified@ == contract_name@ + seq![58u8, 58u8] + event_name@) by {
                    assert(sep@ =~= seq![58u8, 58u8]);
                }
                assert(encoded@.len() > 0);
            }
            if encoded.len() > 0 {
                encoded[0] = 0;
            }
            proof {
                assert(encoded@ == signature_preimage(contract_name@, event_name@));
            }
            let hash = topic_hash(&encoded);
            topics.push(
                Expression::AllocDynamicBytes {
                    ty: Type::Slice(Box::new(Type::Uint(8))),
                    size: Box::new(
                        Expression::NumberLiteral { ty: Type::Uint(32), value: 32 },
                    ),
                    initializer: Option::Some(hash),
                },
            );
            topic_tys.push(Type::DynamicBytes);
        }
        let ghost base_topics = topics@.len() as int;
        let ghost first_topic_snapshot = topics@;
        let ghost mut fr: Seq<(int, int, int, int, usize)> = Seq::empty();

        let n = args.len();
        let mut rest = args;
        let mut rest_fields = fields;
        let ghost all_fields = rest_fields@;
        let ghost all_args = rest.deep_view();
        let ghost all_args_tys = Seq::new(rest@.len() as nat, |q: int| if 0 <= q < rest@.len() { rest@[q].spec_ty() } else { Type::Bool });
        let ghost all_args_seq = rest@;
        let mut i: usize = 0;
        while i < n
            invariant
                i <= n,
                rest@.len() == n - i,
                rest_fields@.len() == n - i,
                rest_fields@ == all_fields.skip(i as int),
                rest@ == all_args_seq.skip(i as int),
                all_args_seq.len() == n,
                all_fields.len() == n,
                data@.len() == kept_data(all_args_seq, all_fields, i as int).len(),
                data_tys@.len() == data@.len(),
                forall|q: int|
                    0 <= q < data@.len() ==> (#[trigger] data@[q]).deep_view() == kept_data(
                        all_args_seq,
                        all_fields,
                        i as int,
                    )[q].deep_view() && data_tys@[q] == kept_data(
                        all_args_seq,
                        all_fields,
                        i as int,
                    )[q].spec_ty(),
                topic_tys@.len() == topics@.len(),
                topics@.len() == base_topics + count_indexed(all_fields.take(i as int)),
                base_topics == (if anonymous { 0int } else { 1int }),
                base_topics <= topics@.len(),
                forall|q: int|
                    0 <= q < base_topics ==> #[trigger] topics@[q] == first_topic_snapshot[q],
                forall|q: int|
                    base_topics <= q < topics@.len() ==> ((#[trigger] topics@[q])
                        matches Expression::Variable { ty: tty, .. } && tty == Type::DynamicBytes),
                cfg.wf(),
                vartab.wf(),
                vartab.dirty@.len() == old(vartab).dirty@.len(),
                vartab.next_id + (n - i) + 2 < usize::MAX,
                cfg.blocks@.len() + 2 * (n - i) + 2 < usize::MAX,
                cfg.meta() == old(cfg).meta(),
                cfg.current < cfg.blocks@.len(),
                cfg.blocks@[cfg.current as int].is_open(),
                sep@.len() == 2,
                sep@ == seq![58u8, 58u8],
                contract_name@.len() + event_name@.len() + 16 < 0x40000000,
                forall|k: int|
                    0 <= k < all_fields.len() ==> contract_name@.len() + event_name@.len() + (
                    #[trigger] all_fields[k]).name@.len() + 16 < 0x40000000,
                topics@.len() == base_topics + count_indexed(all_fields.take(i as int)),
                data@.len() + topics@.len() == i + base_topics,
                data_tys@.len() == data@.len(),
                topic_tys@.len() == topics@.len(),
                fr.len() == count_indexed(all_fields.take(i as int)),
                fr.len() == kept_topic_args(all_args_seq, all_fields, i as int).len(),
                forall|k: int|
                    0 <= k < fr.len() ==> topic_fragment_ok(
                        *cfg,
                        (#[trigger] fr[k]).0,
                        fr[k].1,
                        fr[k].2,
                        fr[k].3,
                        fr[k].4,
                        contract_name@,
                        event_name@,
                        kept_topic_args(all_args_seq, all_fields, i as int)[k].0,
                        kept_topic_args(all_args_seq, all_fields, i as int)[k].1,
                    ),
                forall|k: int|
                    0 <= k < fr.len() ==> topics@[base_topics + k] == (Expression::Variable {
                        ty: Type::DynamicBytes,
                        var_no: (#[trigger] fr[k]).4,
                    }),
                forall|k: int| 0 <= k < fr.len() ==> (#[trigger] fr[k]).2 != cfg.current as int,
            decreases n - i,
        {
            let arg = rest.remove(0);
            let field = rest_fields.remove(0);
            proof {
                assert(rest_fields@ =~= all_fields.skip(i + 1));
                assert(all_fields.skip(i as int)[0] == all_fields[i as int]);
                assert(all_fields.take(i + 1).drop_last() =~= all_fields.take(i as int));
                assert(all_fields.take(i + 1).last() == all_fields[i as int]);
            }
            proof {
                assert(arg == all_args_seq[i as int]) by {
                    assert(all_args_seq.skip(i as int)[0] == all_args_seq[i as int]);
                }
                assert(rest@ =~= all_args_seq.skip(i + 1));
                if all_fields[i as int].indexed {
                    assert(kept_data(all_args_seq, all_fields, i + 1) =~= kept_data(
                        all_args_seq,
                        all_fields,
                        i as int,
                    ));
                    assert(kept_topic_args(all_args_seq, all_fields, i + 1) =~= kept_topic_args(
                        all_args_seq,
                        all_fields,
                        i as int,
                    ) + seq![(all_fields[i as int], all_args_seq[i as int])]);
                } else {
                    assert(kept_data(all_args_seq, all_fields, i + 1) =~= kept_data(
                        all_args_seq,
                        all_fields,
                        i as int,
                    ) + seq![all_args_seq[i as int]]);
                    assert(kept_topic_args(all_args_seq, all_fields, i + 1) =~= kept_topic_args(
                        all_args_seq,
                        all_fields,
                        i as int,
                    ));
                }
            }
            if field.indexed {
                let ghost cfg_a = *cfg;
                let ghost entry_b = cfg.current as int;
                let ghost at_row = cfg.blocks@[cfg.current as int].instr@.len() as int;
                let ghost arg0 = arg;
                // "<Contract>::<Event>::<field>", then the encoded value
                let prefix = concat_bytes(
                    &concat_bytes(&concat_bytes(&concat_bytes(&contract_name, &sep), &event_name), &sep),
                    &field.name,
                );
                proof {
                    assert(field == all_fields[i as int]);
                    assert(prefix@.len() < 0x40000000);
                    assert(prefix@ == contract_name@ + seq![58u8, 58u8] + event_name@ + seq![
                        58u8,
                        58u8,
                    ] + field.name@) by {
                        assert(sep@ =~= seq![58u8, 58u8]);
                    }
                }
                let prefix_encoded = scale_encode_bytes(&prefix);
                proof {
                    assert(prefix_encoded@ == indexed_preimage(
                        contract_name@,
                        event_name@,
                        field.name@,
                    ));
                }
                let arg_ty = arg.ty();
                let mut enc_tys: Vec<Type> = Vec::new();
                enc_tys.push(arg_ty);
                let mut enc_args: Vec<Expression> = Vec::new();
                enc_args.push(arg);
                proof {
                    assert(enc_tys@ =~= seq![arg0.spec_ty()]);
                    assert(enc_args@ =~= seq![arg0]);
                }
                let concatenated = Expression::StringConcat {
                    ty: Type::DynamicBytes,
                    left: StringLocation::CompileTime(prefix_encoded),
                    right: StringLocation::RunTime(
                        Box::new(
                            Expression::AbiEncode {
                                tys: enc_tys,
                                packed: Vec::new(),
                                args: enc_args,
                            },
                        ),
                    ),
                };

                vartab.new_dirty_tracker();
                proof {
                    assert(vartab.dirty@.last()@ =~= Seq::<usize>::empty());
                    assert(vartab.tracker_set(vartab.dirty@.len() - 1) =~= Set::<usize>::empty());
                }
                let var = vartab.temp_anonymous(&Type::DynamicBytes);
                cfg.add(vartab, Instr::Assign { loc: Loc::Codegen, res: var, expr: concatenated });
                let ghost row_a = cfg.blocks@[entry_b].instr@[at_row];
                let unhashed = Expression::Variable { ty: Type::DynamicBytes, var_no: var };

                // hash the topic in place when it exceeds 32 bytes
                let bigger = cfg.new_basic_block("bigger".to_owned());
                let done = cfg.new_basic_block("done".to_owned());
                cfg.add(
                    vartab,
                    Instr::BranchCond {
                        cond: Expression::More {
                            signed: false,
                            left: Box::new(
                                Expression::ArrayLength { base: Box::new(unhashed.clone()) },
                            ),
                            right: Box::new(
                                Expression::NumberLiteral { ty: Type::Uint(32), value: 32 },
                            ),
                        },
                        true_block: bigger,
                        false_block: done,
                    },
                );
                let ghost row_b = cfg.blocks@[entry_b].instr@[at_row + 1];

                cfg.set_basic_block(bigger);
                cfg.add(
                    vartab,
                    Instr::WriteBuffer {
                        buf: unhashed.clone(),
                        offset: Expression::NumberLiteral { ty: Type::Uint(32), value: 0 },
                        value: Expression::Blake2b256 { arg: Box::new(unhashed.clone()) },
                    },
                );
                vartab.set_dirty(var);
                cfg.add(vartab, Instr::Branch { block: done });

                cfg.set_basic_block(done);
                proof {
                    assert(vartab.tracker_set(vartab.dirty@.len() - 1)
                        =~= Set::<usize>::empty().insert(var));
                }
                let phis = vartab.pop_dirty_tracker();
                proof {
                    assert(phis@.to_set() =~= Set::<usize>::empty().insert(var));
                }
                cfg.set_phis(done, phis);

                let ghost topics_pre = topics@;
                topics.push(unhashed);
                topic_tys.push(Type::DynamicBytes);
                proof {
                    assert forall|q: int| 0 <= q < base_topics implies #[trigger] topics@[q]
                        == first_topic_snapshot[q] by {
                        assert(topics@[q] == topics_pre[q]);
                    }
                    assert(cfg.blocks@[entry_b].instr@[at_row] == row_a);
                    assert(cfg.blocks@[entry_b].instr@[at_row + 1] == row_b);
                    assert(cfg.blocks@[done as int].phis matches Option::Some(p) && p@.to_set()
                        == Set::<usize>::empty().insert(var) && no_dups(p@));
                    assert(cfg.blocks@[bigger as int].instr@ =~= seq![
                        Instr::WriteBuffer {
                            buf: Expression::Variable { ty: Type::DynamicBytes, var_no: var },
                            offset: Expression::NumberLiteral { ty: Type::Uint(32), value: 0 },
                            value: Expression::Blake2b256 {
                                arg: Box::new(
                                    Expression::Variable {
                                        ty: Type::DynamicBytes,
                                        var_no: var,
                                    },
                                ),
                            },
                        },
                        Instr::Branch { block: done },
                    ]);
                    assert(topic_fragment_ok(
                        *cfg,
                        entry_b,
                        at_row,
                        bigger as int,
                        done as int,
                        var,
                        contract_name@,
                        event_name@,
                        all_fields[i as int],
                        all_args_seq[i as int],
                    )) by {
                        assert(arg0 == all_args_seq[i as int]);
                        assert(field == all_fields[i as int]);
                        assert(row_a matches Instr::Assign { res, expr, .. } && res == var
                            && expr == concatenated);
                    }
                    assert(cfg.blocks@[entry_b].instr@.subrange(
                        0,
                        cfg_a.blocks@[entry_b].instr@.len() as int,
                    ) =~= cfg_a.blocks@[entry_b].instr@);
                    assert forall|k: int| 0 <= k < fr.len() implies topic_fragment_ok(
                        *cfg,
                        (#[trigger] fr[k]).0,
                        fr[k].1,
                        fr[k].2,
                        fr[k].3,
                        fr[k].4,
                        contract_name@,
                        event_name@,
                        kept_topic_args(all_args_seq, all_fields, i as int)[k].0,
                        kept_topic_args(all_args_seq, all_fields, i as int)[k].1,
                    ) by {
                        lemma_topic_fragment_preserved(
                            cfg_a,
                            *cfg,
                            fr[k].0,
                            fr[k].1,
                            fr[k].2,
                            fr[k].3,
                            fr[k].4,
                            contract_name@,
                            event_name@,
                            kept_topic_args(all_args_seq, all_fields, i as int)[k].0,
                            kept_topic_args(all_args_seq, all_fields, i as int)[k].1,
                            entry_b,
                        );
                    }
                    fr = fr.push((entry_b, at_row, bigger as int, done as int, var));
                    assert forall|k: int| 0 <= k < fr.len() implies topic_fragment_ok(
                        *cfg,
                        (#[trigger] fr[k]).0,
                        fr[k].1,
                        fr[k].2,
                        fr[k].3,
                        fr[k].4,
                        contract_name@,
                        event_name@,
                        kept_topic_args(all_args_seq, all_fields, i + 1)[k].0,
                        kept_topic_args(all_args_seq, all_fields, i + 1)[k].1,
                    ) by {
                        if k < fr.len() - 1 {
                            assert(kept_topic_args(all_args_seq, all_fields, i + 1)[k]
                                == kept_topic_args(all_args_seq, all_fields, i as int)[k]);
                        } else {
                            assert(kept_topic_args(all_args_seq, all_fields, i + 1)[k] == (
                            all_fields[i as int], all_args_seq[i as int]));
                        }
                    }
                    assert forall|k: int| 0 <= k < fr.len() implies topics@[base_topics + k] == (
                    Expression::Variable {
                        ty: Type::DynamicBytes,
                        var_no: (#[trigger] fr[k]).4,
                    }) by {
                        if k < fr.len() - 1 {
                            assert(topics@[base_topics + k] == topics_pre[base_topics + k]);
                        } else {
                            assert(topics@[base_topics + k] == unhashed);
                        }
                    }
                }
            } else {
                let arg_ty = arg.ty();
                let ghost data_pre = data@;
                data.push(arg);
                data_tys.push(arg_ty);
                proof {
                    assert forall|q: int| 0 <= q < data@.len() implies (
                    #[trigger] data@[q]).deep_view() == kept_data(
                        all_args_seq,
                        all_fields,
                        i + 1,
                    )[q].deep_view() && data_tys@[q] == kept_data(
                        all_args_seq,
                        all_fields,
                        i + 1,
                    )[q].spec_ty() by {
                        if q < data_pre.len() {
                            assert(data@[q] == data_pre[q]);
                            assert(kept_data(all_args_seq, all_fields, i + 1)[q] == kept_data(
                                all_args_seq,
                                all_fields,
                                i as int,
                            )[q]);
                        } else {
                            assert(data@[q] == all_args_seq[i as int]);
                            assert(kept_data(all_args_seq, all_fields, i + 1)[q]
                                == all_args_seq[i as int]);
                        }
                    }
                }
            }
            i += 1;
        }
        proof {
            assert(all_fields.take(n as int) =~= all_fields);
        }
        let ghost cfg_end = *cfg;

        cfg.add(
            vartab,
            Instr::EmitEvent { event_no, data, data_tys, topics, topic_tys },
        );
        proof {
            assert(cfg.blocks@[cfg.current as int].instr@.subrange(
                0,
                cfg_end.blocks@[cfg.current as int].instr@.len() as int,
            ) =~= cfg_end.blocks@[cfg.current as int].instr@);
            assert forall|k: int| 0 <= k < fr.len() implies topic_fragment_ok(
                *cfg,
                (#[trigger] fr[k]).0,
                fr[k].1,
                fr[k].2,
                fr[k].3,
                fr[k].4,
                contract_name@,
                event_name@,
                kept_topic_args(all_args_seq, all_fields, n as int)[k].0,
                kept_topic_args(all_args_seq, all_fields, n as int)[k].1,
            ) by {
                lemma_topic_fragment_preserved(
                    cfg_end,
                    *cfg,
                    fr[k].0,
                    fr[k].1,
                    fr[k].2,
                    fr[k].3,
                    fr[k].4,
                    contract_name@,
                    event_name@,
                    kept_topic_args(all_args_seq, all_fields, n as int)[k].0,
                    kept_topic_args(all_args_seq, all_fields, n as int)[k].1,
                    cfg.current as int,
                );
            }
        }
        Ghost(fr)
    }
}

} // verus!
