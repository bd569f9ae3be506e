//! The wire-level type registry and contract interface description.
//!
//! The registry is a deduplicating list of structural type descriptors
//! referenced by index; the first entry is 1, index 0 is reserved as
//! "absent". Names travel as their UTF-8 bytes; rendering to an
//! interchange format is the caller's concern.

use vstd::prelude::*;
use vstd::string::StringSliceAdditionalSpecFns;
use vstd::utf8::encode_utf8;

use crate::ast;
use crate::ast::{
    ArrayDim, FunctionTy, Namespace, Parameter, StateMutability, Tag, Visibility,
};

verus! {

broadcast use vstd::std_specs::vec::axiom_vec_index_decreases;

/// A primitive wire type.
#[derive(Clone, Copy, PartialEq, Eq, Structural, Debug)]
pub enum Primitive {
    Bool,
    Uint(u16),
    Int(u16),
    Str,
}

/// One named field of a composite descriptor.
pub struct WireField {
    pub name: Option<Vec<u8>>,
    pub ty: usize,
}

/// One variant of an enum descriptor.
pub struct WireVariant {
    pub name: Vec<u8>,
    pub discriminant: usize,
}

/// A wire-level type descriptor. Nested types are registry indices.
pub enum WireType {
    Builtin { primitive: Primitive },
    BuiltinArray { len: u32, ty: usize },
    BuiltinSequence { ty: usize },
    Composite { path: Vec<Vec<u8>>, fields: Vec<WireField> },
    EnumDef { path: Vec<Vec<u8>>, variants: Vec<WireVariant> },
}

/// The mathematical value of a descriptor, with sequences for vectors so
/// that equality is structural.
#[verifier::ext_equal]
pub enum WireTypeV {
    Builtin { primitive: Primitive },
    BuiltinArray { len: u32, ty: usize },
    BuiltinSequence { ty: usize },
    Composite { path: Seq<Seq<u8>>, fields: Seq<(Option<Seq<u8>>, usize)> },
    EnumDef { path: Seq<Seq<u8>>, variants: Seq<(Seq<u8>, usize)> },
}

/// The mathematical value of a name path.
pub open spec fn path_view(p: Vec<Vec<u8>>) -> Seq<Seq<u8>> {
    Seq::new(
        p.len() as nat,
        |i: int|
            if 0 <= i < p.len() {
                p[i]@
            } else {
                Seq::empty()
            },
    )
}

/// The mathematical value of a field list.
pub open spec fn fields_view(fields: Vec<WireField>) -> Seq<(Option<Seq<u8>>, usize)> {
    Seq::new(
        fields.len() as nat,
        |i: int|
            if 0 <= i < fields.len() {
                field_view(fields[i])
            } else {
                (Option::None, 0)
            },
    )
}

/// The mathematical value of a variant list.
pub open spec fn variants_view(variants: Vec<WireVariant>) -> Seq<(Seq<u8>, usize)> {
    Seq::new(
        variants.len() as nat,
        |i: int|
            if 0 <= i < variants.len() {
                variant_view(variants[i])
            } else {
                (Seq::empty(), 0)
            },
    )
}

impl DeepView for WireType {
    type V = WireTypeV;

    open spec fn deep_view(&self) -> WireTypeV {
        match self {
            WireType::Builtin { primitive } => WireTypeV::Builtin { primitive: *primitive },
            WireType::BuiltinArray { len, ty } => WireTypeV::BuiltinArray { len: *len, ty: *ty },
            WireType::BuiltinSequence { ty } => WireTypeV::BuiltinSequence { ty: *ty },
            WireType::Composite { path, fields } => WireTypeV::Composite {
                path: path_view(*path),
                fields: fields_view(*fields),
            },
            WireType::EnumDef { path, variants } => WireTypeV::EnumDef {
                path: path_view(*path),
                variants: variants_view(*variants),
            },
        }
    }
}

/// Compare two byte strings.
fn bytes_eq(a: &Vec<u8>, b: &Vec<u8>) -> (r: bool)
    ensures
        r == (a@ == b@),
{
    if a.len() != b.len() {
        proof {
            assert(a@ != b@);
        }
        return false;
    }
    let n = a.len();
    let mut i: usize = 0;
    while i < n
        invariant
            i <= n,
            n == a@.len(),
            n == b@.len(),
            forall|k: int| 0 <= k < i ==> a@[k] == b@[k],
        decreases n - i,
    {
        if a[i] != b[i] {
            return false;
        }
        i += 1;
    }
    proof {
        assert(a@ =~= b@);
    }
    true
}

/// Compare two name paths.
fn paths_eq(a: &Vec<Vec<u8>>, b: &Vec<Vec<u8>>) -> (r: bool)
    ensures
        r == (path_view(*a) == path_view(*b)),
{
    if a.len() != b.len() {
        proof {
            assert(path_view(*a).len() != path_view(*b).len());
        }
        return false;
    }
    let n = a.len();
    let mut i: usize = 0;
    while i < n
        invariant
            i <= n,
            n == a@.len(),
            n == b@.len(),
            forall|k: int| 0 <= k < i ==> a@[k]@ == b@[k]@,
        decreases n - i,
    {
        if !bytes_eq(&a[i], &b[i]) {
            proof {
                assert(path_view(*a)[i as int] == a@[i as int]@);
                assert(path_view(*b)[i as int] == b@[i as int]@);
            }
            return false;
        }
        i += 1;
    }
    proof {
        assert(path_view(*a) =~= path_view(*b));
    }
    true
}

/// Compare two field lists.
fn fields_eq(a: &Vec<WireField>, b: &Vec<WireField>) -> (r: bool)
    ensures
        r == (fields_view(*a) == fields_view(*b)),
{
    if a.len() != b.len() {
        proof {
            assert(fields_view(*a).len() != fields_view(*b).len());
        }
        return false;
    }
    let n = a.len();
    let mut i: usize = 0;
    while i < n
        invariant
            i <= n,
            n == a@.len(),
            n == b@.len(),
            forall|k: int| 0 <= k < i ==> #[trigger] field_view(a@[k]) == field_view(b@[k]),
        decreases n - i,
    {
        let same = match (&a[i].name, &b[i].name) {
            (Option::Some(na), Option::Some(nb)) => bytes_eq(na, nb),
            (Option::None, Option::None) => true,
            _ => false,
        };
        if !same || a[i].ty != b[i].ty {
            proof {
                assert(fields_view(*a)[i as int] == field_view(a@[i as int]));
                assert(fields_view(*b)[i as int] == field_view(b@[i as int]));
                assert(field_view(a@[i as int]) != field_view(b@[i as int]));
            }
            return false;
        }
        i += 1;
    }
    proof {
        assert(fields_view(*a) =~= fields_view(*b));
    }
    true
}

/// Compare two variant lists.
fn variants_eq(a: &Vec<WireVariant>, b: &Vec<WireVariant>) -> (r: bool)
    ensures
        r == (variants_view(*a) == variants_view(*b)),
{
    if a.len() != b.len() {
        proof {
            assert(variants_view(*a).len() != variants_view(*b).len());
        }
        return false;
    }
    let n = a.len();
    let mut i: usize = 0;
    while i < n
        invariant
            i <= n,
            n == a@.len(),
            n == b@.len(),
            forall|k: int| 0 <= k < i ==> #[trigger] variant_view(a@[k]) == variant_view(b@[k]),
        decreases n - i,
    {
        if !bytes_eq(&a[i].name, &b[i].name) || a[i].discriminant != b[i].discriminant {
            proof {
                assert(variants_view(*a)[i as int] == variant_view(a@[i as int]));
                assert(variants_view(*b)[i as int] == variant_view(b@[i as int]));
                assert(variant_view(a@[i as int]) != variant_view(b@[i as int]));
            }
            return false;
        }
        i += 1;
    }
    proof {
        assert(variants_view(*a) =~= variants_view(*b));
    }
    true
}

/// Structural equality of two descriptors, at the level of their
/// mathematical values.
fn wire_type_eq(a: &WireType, b: &WireType) -> (r: bool)
    ensures
        r == (a.deep_view() == b.deep_view()),
{
    match (a, b) {
        (WireType::Builtin { primitive: pa }, WireType::Builtin { primitive: pb }) => pa == pb,
        (
            WireType::BuiltinArray { len: la, ty: ta },
            WireType::BuiltinArray { len: lb, ty: tb },
        ) => la == lb && ta == tb,
        (WireType::BuiltinSequence { ty: ta }, WireType::BuiltinSequence { ty: tb }) => ta == tb,
        (
            WireType::Composite { path: pa, fields: fa },
            WireType::Composite { path: pb, fields: fb },
        ) => {
            let r = paths_eq(pa, pb) && fields_eq(fa, fb);
            proof {
                if a.deep_view() == b.deep_view() {
                    assert(path_view(*pa) == path_view(*pb) && fields_view(*fa) == fields_view(
                        *fb,
                    ));
                }
                if path_view(*pa) == path_view(*pb) && fields_view(*fa) == fields_view(*fb) {
                    assert(a.deep_view() =~= b.deep_view());
                }
            }
            r
        },
        (
            WireType::EnumDef { path: pa, variants: va },
            WireType::EnumDef { path: pb, variants: vb },
        ) => {
            let r = paths_eq(pa, pb) && variants_eq(va, vb);
            proof {
                if a.deep_view() == b.deep_view() {
                    assert(path_view(*pa) == path_view(*pb) && variants_view(*va)
                        == variants_view(*vb));
                }
                if path_view(*pa) == path_view(*pb) && variants_view(*va) == variants_view(*vb) {
                    assert(a.deep_view() =~= b.deep_view());
                }
            }
            r
        },
        _ => {
            proof {
                assert(a.deep_view() != b.deep_view());
            }
            false
        },
    }
}

/// The mathematical value of one composite field.
pub open spec fn field_view(f: WireField) -> (Option<Seq<u8>>, usize) {
    (
        match f.name {
            Option::Some(n) => Option::Some(n@),
            Option::None => Option::None,
        },
        f.ty,
    )
}

/// The mathematical value of one enum variant.
pub open spec fn variant_view(v: WireVariant) -> (Seq<u8>, usize) {
    (v.name@, v.discriminant)
}

/// The deduplicating registry plus the contract's interface description.
pub struct Abi {
    pub types: Vec<WireType>,
    pub storage: Vec<StorageEntry>,
    pub spec_section: Spec,
}

/// One cell of the storage layout: the variable's name, its slot and its
/// registry type.
pub struct StorageEntry {
    pub name: Vec<u8>,
    pub slot: u128,
    pub ty: usize,
}

/// The interface description: constructors, messages and events.
pub struct Spec {
    pub constructors: Vec<Constructor>,
    pub messages: Vec<Message>,
    pub events: Vec<Event>,
}

/// One constructor entry.
pub struct Constructor {
    pub name: Vec<u8>,
    pub selector: u32,
    pub docs: Vec<Vec<u8>>,
    pub args: Vec<Param>,
}

/// One message entry.
pub struct Message {
    pub name: Vec<u8>,
    pub selector: u32,
    pub docs: Vec<Vec<u8>>,
    pub mutates: bool,
    pub payable: bool,
    pub args: Vec<Param>,
    pub return_type: Option<usize>,
}

/// One event entry.
pub struct Event {
    pub docs: Vec<Vec<u8>>,
    pub name: Vec<u8>,
    pub args: Vec<ParamIndexed>,
}

/// A named parameter with its registry type.
pub struct Param {
    pub name: Vec<u8>,
    pub ty: usize,
}

/// A named parameter with its indexed flag.
pub struct ParamIndexed {
    pub param: Param,
    pub indexed: bool,
}

/// The registry as a sequence of descriptor values.
pub open spec fn types_view(ts: Seq<WireType>) -> Seq<WireTypeV> {
    Seq::new(
        ts.len(),
        |i: int|
            if 0 <= i < ts.len() {
                ts[i].deep_view()
            } else {
                WireTypeV::Builtin { primitive: Primitive::Bool }
            },
    )
}

/// The first one-based index at or after `i` holding a descriptor equal
/// to `d`, or zero when none does.
pub open spec fn find_descriptor_from(types: Seq<WireTypeV>, d: WireTypeV, i: int) -> int
    decreases types.len() - i when 0 <= i <= types.len()
{
    if i < 0 || i >= types.len() {
        0
    } else if types[i] == d {
        i + 1
    } else {
        find_descriptor_from(types, d, i + 1)
    }
}

/// What registering one descriptor does to the registry: an equal entry
/// already present keeps it unchanged and yields the first such index;
/// otherwise the descriptor is appended and the fresh last index comes
/// back. This is the deduplication the registry maintains.
pub open spec fn reg_insert(types: Seq<WireTypeV>, d: WireTypeV) -> (Seq<WireTypeV>, int) {
    let f = find_descriptor_from(types, d, 0);
    if f > 0 {
        (types, f)
    } else {
        (types.push(d), types.len() as int + 1)
    }
}

/// Scanning from the front reaches position `i` untouched when nothing
/// before `i` matches.
proof fn lemma_find_skips_mismatches(types: Seq<WireTypeV>, d: WireTypeV, i: int)
    requires
        0 <= i <= types.len(),
        forall|k: int| 0 <= k < i ==> types[k] != d,
    ensures
        find_descriptor_from(types, d, 0) == find_descriptor_from(types, d, i),
    decreases i,
{
    if i > 0 {
        lemma_find_skips_mismatches(types, d, i - 1);
        assert(types[i - 1] != d);
        assert(find_descriptor_from(types, d, i - 1) == find_descriptor_from(types, d, i));
    }
}


/// The registry walk one fitting type performs, as a pure function of
/// the registry value: the registry afterwards and the one-based index
/// that comes back. `ty_to_abi` realizes exactly this function whenever
/// the type fits.
pub open spec fn reg_model(
    types: Seq<WireTypeV>,
    ns: Namespace,
    ty: ast::Type,
    fuel: u32,
) -> (Seq<WireTypeV>, int)
    decreases fuel, 0int,
{
    if fuel == 0 {
        (types, 0)
    } else {
        match ty {
            ast::Type::Enum(_) => reg_insert(
                types,
                WireTypeV::Builtin { primitive: Primitive::Uint(8) },
            ),
            ast::Type::Bytes(n) => {
                let (t1, e) = reg_insert(
                    types,
                    WireTypeV::Builtin { primitive: Primitive::Uint(8) },
                );
                reg_insert(t1, WireTypeV::BuiltinArray { len: n as u32, ty: e as usize })
            },
            ast::Type::Array(elem, dim) => {
                let (t1, e) = reg_model(types, ns, *elem, (fuel - 1) as u32);
                match dim {
                    ArrayDim::Fixed(l) => reg_insert(
                        t1,
                        WireTypeV::BuiltinArray { len: l, ty: e as usize },
                    ),
                    ArrayDim::Dynamic => reg_insert(
                        t1,
                        WireTypeV::BuiltinSequence { ty: e as usize },
                    ),
                }
            },
            ast::Type::StorageRef(inner) => reg_model(types, ns, *inner, (fuel - 1) as u32),
            ast::Type::Ref(inner) => reg_model(types, ns, *inner, (fuel - 1) as u32),
            ast::Type::Bool => reg_insert(types, WireTypeV::Builtin { primitive: Primitive::Bool }),
            ast::Type::Uint(w) => reg_insert(
                types,
                WireTypeV::Builtin { primitive: Primitive::Uint(w) },
            ),
            ast::Type::Int(w) => reg_insert(
                types,
                WireTypeV::Builtin { primitive: Primitive::Int(w) },
            ),
            ast::Type::Address(_) | ast::Type::Contract(_) => {
                let (t1, e) = reg_insert(
                    types,
                    WireTypeV::Builtin { primitive: Primitive::Uint(8) },
                );
                let (t2, a) = reg_insert(t1, WireTypeV::BuiltinArray { len: 32, ty: e as usize });
                reg_insert(
                    t2,
                    WireTypeV::Composite {
                        path: seq![encode_utf8("AccountId"@)],
                        fields: seq![(Option::<Seq<u8>>::None, a as usize)],
                    },
                )
            },
            ast::Type::Struct(sn) => {
                if sn < ns.structs@.len() {
                    let (t1, fs) = reg_fields_model(
                        types,
                        ns,
                        sn as int,
                        ns.structs@[sn as int].fields@.len() as int,
                        (fuel - 1) as u32,
                    );
                    reg_insert(
                        t1,
                        WireTypeV::Composite {
                            path: seq![encode_utf8(ns.structs@[sn as int].name@)],
                            fields: fs,
                        },
                    )
                } else {
                    (types, 0)
                }
            },
            ast::Type::DynamicBytes => {
                let (t1, e) = reg_insert(
                    types,
                    WireTypeV::Builtin { primitive: Primitive::Uint(8) },
                );
                reg_insert(t1, WireTypeV::BuiltinSequence { ty: e as usize })
            },
            ast::Type::Str => reg_insert(types, WireTypeV::Builtin { primitive: Primitive::Str }),
            ast::Type::InternalFunction => reg_insert(
                types,
                WireTypeV::Builtin { primitive: Primitive::Uint(32) },
            ),
            ast::Type::ExternalFunction => {
                let (t1, e) = reg_insert(
                    types,
                    WireTypeV::Builtin { primitive: Primitive::Uint(8) },
                );
                let (t2, a) = reg_insert(t1, WireTypeV::BuiltinArray { len: 32, ty: e as usize });
                let (t3, sel) = reg_insert(
                    t2,
                    WireTypeV::Builtin { primitive: Primitive::Uint(32) },
                );
                reg_insert(
                    t3,
                    WireTypeV::Composite {
                        path: seq![encode_utf8("ExternalFunction"@)],
                        fields: seq![
                            (Option::<Seq<u8>>::None, a as usize),
                            (Option::<Seq<u8>>::None, sel as usize),
                        ],
                    },
                )
            },
            _ => (types, 0),
        }
    }
}

/// The registry walk over a struct's first `j` fields: the registry
/// afterwards and the field descriptors collected so far.
pub open spec fn reg_fields_model(
    types: Seq<WireTypeV>,
    ns: Namespace,
    sn: int,
    j: int,
    fuel: u32,
) -> (Seq<WireTypeV>, Seq<(Option<Seq<u8>>, usize)>)
    decreases fuel, j,
{
    if j <= 0 || !(0 <= sn < ns.structs@.len()) || j > ns.structs@[sn].fields@.len() {
        (types, Seq::empty())
    } else {
        let (t1, fs) = reg_fields_model(types, ns, sn, j - 1, fuel);
        let field = ns.structs@[sn].fields@[j - 1];
        let (t2, idx) = reg_model(t1, ns, field.ty, fuel);
        (
            t2,
            fs.push(
                (
                    match field.id {
                        Option::Some(ident) => Option::Some(encode_utf8(ident.name@)),
                        Option::None => Option::<Seq<u8>>::None,
                    },
                    idx as usize,
                ),
            ),
        )
    }
}


/// Registering only ever appends: the registry before is a prefix of
/// the registry after.
proof fn lemma_reg_model_grows(types: Seq<WireTypeV>, ns: Namespace, ty: ast::Type, fuel: u32)
    ensures
        reg_model(types, ns, ty, fuel).0.len() >= types.len(),
        reg_model(types, ns, ty, fuel).0.subrange(0, types.len() as int) == types,
    decreases fuel, 0int,
{
    if fuel == 0 {
    } else {
        match ty {
            ast::Type::Bytes(_) | ast::Type::Address(_) | ast::Type::Contract(_)
                | ast::Type::DynamicBytes | ast::Type::ExternalFunction => {
                assert(reg_model(types, ns, ty, fuel).0.subrange(0, types.len() as int)
                    =~= types);
            },
            ast::Type::Array(elem, dim) => {
                lemma_reg_model_grows(types, ns, *elem, (fuel - 1) as u32);
                assert(reg_model(types, ns, ty, fuel).0.subrange(0, types.len() as int)
                    =~= types);
            },
            ast::Type::StorageRef(inner) => {
                lemma_reg_model_grows(types, ns, *inner, (fuel - 1) as u32);
            },
            ast::Type::Ref(inner) => {
                lemma_reg_model_grows(types, ns, *inner, (fuel - 1) as u32);
            },
            ast::Type::Struct(sn) => {
                if sn < ns.structs@.len() {
                    lemma_reg_fields_model_grows(
                        types,
                        ns,
                        sn as int,
                        ns.structs@[sn as int].fields@.len() as int,
                        (fuel - 1) as u32,
                    );
                    assert(reg_model(types, ns, ty, fuel).0.subrange(0, types.len() as int)
                        =~= types);
                }
            },
            _ => {
                assert(reg_model(types, ns, ty, fuel).0.subrange(0, types.len() as int)
                    =~= types);
            },
        }
    }
}

/// The field walk only ever appends to the registry.
proof fn lemma_reg_fields_model_grows(
    types: Seq<WireTypeV>,
    ns: Namespace,
    sn: int,
    j: int,
    fuel: u32,
)
    ensures
        reg_fields_model(types, ns, sn, j, fuel).0.len() >= types.len(),
        reg_fields_model(types, ns, sn, j, fuel).0.subrange(0, types.len() as int) == types,
    decreases fuel, j,
{
    if j <= 0 || !(0 <= sn < ns.structs@.len()) || j > ns.structs@[sn].fields@.len() {
    } else {
        lemma_reg_fields_model_grows(types, ns, sn, j - 1, fuel);
        let t1 = reg_fields_model(types, ns, sn, j - 1, fuel).0;
        lemma_reg_model_grows(t1, ns, ns.structs@[sn].fields@[j - 1].ty, fuel);
        assert(reg_fields_model(types, ns, sn, j, fuel).0.subrange(0, types.len() as int)
            =~= types);
    }
}

/// A found descriptor is still found, at the same place, after the
/// registry grows.
proof fn lemma_find_extend(types: Seq<WireTypeV>, ext: Seq<WireTypeV>, d: WireTypeV, i: int)
    requires
        0 <= i <= types.len(),
        find_descriptor_from(types, d, i) > 0,
    ensures
        find_descriptor_from(types + ext, d, i) == find_descriptor_from(types, d, i),
    decreases types.len() - i,
{
    assert((types + ext).len() == types.len() + ext.len());
    if i < types.len() {
        assert((types + ext)[i] == types[i]);
        if types[i] == d {
        } else {
            lemma_find_extend(types, ext, d, i + 1);
        }
    }
}

/// A scan's result is never negative.
proof fn lemma_find_nonneg(types: Seq<WireTypeV>, d: WireTypeV, i: int)
    requires
        0 <= i <= types.len(),
    ensures
        find_descriptor_from(types, d, i) >= 0,
    decreases types.len() - i,
{
    if i < types.len() && types[i] != d {
        lemma_find_nonneg(types, d, i + 1);
    }
}

/// A scan that found nothing means no entry matches.
proof fn lemma_find_zero_means_absent(types: Seq<WireTypeV>, d: WireTypeV, i: int)
    requires
        0 <= i <= types.len(),
        find_descriptor_from(types, d, i) == 0,
    ensures
        forall|k: int| i <= k < types.len() ==> types[k] != d,
    decreases types.len() - i,
{
    if i < types.len() {
        lemma_find_zero_means_absent(types, d, i + 1);
    }
}

/// Inserting a descriptor a second time, into any extension of the
/// result, changes nothing and yields the same index.
proof fn lemma_reg_insert_stable(types: Seq<WireTypeV>, d: WireTypeV, ext: Seq<WireTypeV>)
    ensures
        reg_insert(reg_insert(types, d).0 + ext, d) == (reg_insert(types, d).0 + ext, reg_insert(
            types,
            d,
        ).1),
    decreases 0int,
{
    let f = find_descriptor_from(types, d, 0);
    if f > 0 {
        lemma_find_extend(types, ext, d, 0);
    } else {
        let t1 = types.push(d);
        lemma_find_nonneg(types, d, 0);
        lemma_find_zero_means_absent(types, d, 0);
        assert forall|k: int| 0 <= k < types.len() implies (t1 + ext)[k] != d by {
            assert((t1 + ext)[k] == types[k]);
        }
        lemma_find_skips_mismatches(t1 + ext, d, types.len() as int);
        assert((t1 + ext)[types.len() as int] == d);
        assert(find_descriptor_from(t1 + ext, d, types.len() as int) == types.len() + 1);
        assert(find_descriptor_from(t1 + ext, d, 0) == types.len() + 1);
        assert(reg_insert(t1 + ext, d) == (t1 + ext, types.len() as int + 1));
    }
}

/// Deduplication, stated of the whole type walk: once a fitting type is
/// registered, walking it again over the resulting registry, however it
/// has grown since, changes nothing and yields the very same index.
#[verifier::rlimit(100)]
#[verifier::spinoff_prover]
pub proof fn lemma_registration_idempotent(
    types: Seq<WireTypeV>,
    ns: Namespace,
    ty: ast::Type,
    fuel: u32,
    ext: Seq<WireTypeV>,
)
    requires
        ty_fits(ns, ty, fuel),
    ensures
        reg_model(reg_model(types, ns, ty, fuel).0 + ext, ns, ty, fuel) == (
            reg_model(types, ns, ty, fuel).0 + ext,
            reg_model(types, ns, ty, fuel).1,
        ),
    decreases fuel, 0int,
{
    let (t_out, idx) = reg_model(types, ns, ty, fuel);
    match ty {
        ast::Type::Enum(_) | ast::Type::Bool | ast::Type::Uint(_) | ast::Type::Int(_)
            | ast::Type::Str | ast::Type::InternalFunction => {
            let d = match ty {
                ast::Type::Enum(_) => WireTypeV::Builtin { primitive: Primitive::Uint(8) },
                ast::Type::Bool => WireTypeV::Builtin { primitive: Primitive::Bool },
                ast::Type::Uint(w) => WireTypeV::Builtin { primitive: Primitive::Uint(w) },
                ast::Type::Int(w) => WireTypeV::Builtin { primitive: Primitive::Int(w) },
                ast::Type::Str => WireTypeV::Builtin { primitive: Primitive::Str },
                _ => WireTypeV::Builtin { primitive: Primitive::Uint(32) },
            };
            lemma_reg_insert_stable(types, d, ext);
        },
        ast::Type::Bytes(n) => {
            let d1 = WireTypeV::Builtin { primitive: Primitive::Uint(8) };
            let (t1, e) = reg_insert(types, d1);
            let d2 = WireTypeV::BuiltinArray { len: n as u32, ty: e as usize };
            let (t2, _) = reg_insert(t1, d2);
            let mid = t2.subrange(t1.len() as int, t2.len() as int);
            assert(t2 =~= t1 + mid);
            assert(t1 + (mid + ext) =~= t2 + ext);
            lemma_reg_insert_stable(types, d1, mid + ext);
            lemma_reg_insert_stable(t1, d2, ext);
        },
        ast::Type::DynamicBytes => {
            let d1 = WireTypeV::Builtin { primitive: Primitive::Uint(8) };
            let (t1, e) = reg_insert(types, d1);
            let d2 = WireTypeV::BuiltinSequence { ty: e as usize };
            let (t2, _) = reg_insert(t1, d2);
            let mid = t2.subrange(t1.len() as int, t2.len() as int);
            assert(t2 =~= t1 + mid);
            assert(t1 + (mid + ext) =~= t2 + ext);
            lemma_reg_insert_stable(types, d1, mid + ext);
            lemma_reg_insert_stable(t1, d2, ext);
        },
        ast::Type::Array(elem, dim) => {
            let (t1, e) = reg_model(types, ns, *elem, (fuel - 1) as u32);
            let d2 = match dim {
                ArrayDim::Fixed(l) => WireTypeV::BuiltinArray { len: l, ty: e as usize },
                ArrayDim::Dynamic => WireTypeV::BuiltinSequence { ty: e as usize },
            };
            let (t2, _) = reg_insert(t1, d2);
            let mid = t2.subrange(t1.len() as int, t2.len() as int);
            assert(t2 =~= t1 + mid);
            assert(t1 + (mid + ext) =~= t2 + ext);
            lemma_registration_idempotent(types, ns, *elem, (fuel - 1) as u32, mid + ext);
            lemma_reg_insert_stable(t1, d2, ext);
        },
        ast::Type::StorageRef(inner) => {
            lemma_registration_idempotent(types, ns, *inner, (fuel - 1) as u32, ext);
        },
        ast::Type::Ref(inner) => {
            lemma_registration_idempotent(types, ns, *inner, (fuel - 1) as u32, ext);
        },
        ast::Type::Address(_) | ast::Type::Contract(_) => {
            let d1 = WireTypeV::Builtin { primitive: Primitive::Uint(8) };
            let (t1, e) = reg_insert(types, d1);
            let d2 = WireTypeV::BuiltinArray { len: 32, ty: e as usize };
            let (t2, a) = reg_insert(t1, d2);
            let d3 = WireTypeV::Composite {
                path: seq![encode_utf8("AccountId"@)],
                fields: seq![(Option::<Seq<u8>>::None, a as usize)],
            };
            let (t3, _) = reg_insert(t2, d3);
            let mid1 = t2.subrange(t1.len() as int, t2.len() as int);
            let mid2 = t3.subrange(t2.len() as int, t3.len() as int);
            assert(t2 =~= t1 + mid1);
            assert(t3 =~= t2 + mid2);
            assert(t1 + (mid1 + (mid2 + ext)) =~= t3 + ext);
            assert(t2 + (mid2 + ext) =~= t3 + ext);
            lemma_reg_insert_stable(types, d1, mid1 + (mid2 + ext));
            lemma_reg_insert_stable(t1, d2, mid2 + ext);
            lemma_reg_insert_stable(t2, d3, ext);
        },
        ast::Type::ExternalFunction => {
            let d1 = WireTypeV::Builtin { primitive: Primitive::Uint(8) };
            let (t1, e) = reg_insert(types, d1);
            let d2 = WireTypeV::BuiltinArray { len: 32, ty: e as usize };
            let (t2, a) = reg_insert(t1, d2);
            let d3 = WireTypeV::Builtin { primitive: Primitive::Uint(32) };
            let (t3, sel) = reg_insert(t2, d3);
            let d4 = WireTypeV::Composite {
                path: seq![encode_utf8("ExternalFunction"@)],
                fields: seq![
                    (Option::<Seq<u8>>::None, a as usize),
                    (Option::<Seq<u8>>::None, sel as usize),
                ],
            };
            let (t4, _) = reg_insert(t3, d4);
            let mid1 = t2.subrange(t1.len() as int, t2.len() as int);
            let mid2 = t3.subrange(t2.len() as int, t3.len() as int);
            let mid3 = t4.subrange(t3.len() as int, t4.len() as int);
            assert(t2 =~= t1 + mid1);
            assert(t3 =~= t2 + mid2);
            assert(t4 =~= t3 + mid3);
            assert(t1 + (mid1 + (mid2 + (mid3 + ext))) =~= t4 + ext);
            assert(t2 + (mid2 + (mid3 + ext)) =~= t4 + ext);
            assert(t3 + (mid3 + ext) =~= t4 + ext);
            lemma_reg_insert_stable(types, d1, mid1 + (mid2 + (mid3 + ext)));
            lemma_reg_insert_stable(t1, d2, mid2 + (mid3 + ext));
            lemma_reg_insert_stable(t2, d3, mid3 + ext);
            lemma_reg_insert_stable(t3, d4, ext);
        },
        ast::Type::Struct(sn) => {
            let m = ns.structs@[sn as int].fields@.len() as int;
            let (t1, fs) = reg_fields_model(types, ns, sn as int, m, (fuel - 1) as u32);
            let d = WireTypeV::Composite {
                path: seq![encode_utf8(ns.structs@[sn as int].name@)],
                fields: fs,
            };
            let (t2, _) = reg_insert(t1, d);
            let mid = t2.subrange(t1.len() as int, t2.len() as int);
            assert(t2 =~= t1 + mid);
            assert(t1 + (mid + ext) =~= t2 + ext);
            lemma_fields_registration_idempotent(
                types,
                ns,
                sn as int,
                m,
                (fuel - 1) as u32,
                mid + ext,
            );
            lemma_reg_insert_stable(t1, d, ext);
        },
        _ => {},
    }
}

/// The field walk is idempotent in the same sense as the type walk.
proof fn lemma_fields_registration_idempotent(
    types: Seq<WireTypeV>,
    ns: Namespace,
    sn: int,
    j: int,
    fuel: u32,
    ext: Seq<WireTypeV>,
)
    requires
        0 <= sn < ns.structs@.len(),
        j <= ns.structs@[sn].fields@.len(),
        forall|k: int|
            0 <= k < j ==> ty_fits(ns, (#[trigger] ns.structs@[sn].fields@[k]).ty, fuel),
    ensures
        reg_fields_model(reg_fields_model(types, ns, sn, j, fuel).0 + ext, ns, sn, j, fuel) == (
            reg_fields_model(types, ns, sn, j, fuel).0 + ext,
            reg_fields_model(types, ns, sn, j, fuel).1,
        ),
    decreases fuel, j,
{
    if j <= 0 {
    } else {
        let (t1, fs) = reg_fields_model(types, ns, sn, j - 1, fuel);
        let fty = ns.structs@[sn].fields@[j - 1].ty;
        let (t2, idx) = reg_model(t1, ns, fty, fuel);
        let mid = t2.subrange(t1.len() as int, t2.len() as int);
        lemma_reg_model_grows(t1, ns, fty, fuel);
        assert(t2 =~= t1 + mid);
        assert(t1 + (mid + ext) =~= t2 + ext);
        lemma_fields_registration_idempotent(types, ns, sn, j - 1, fuel, mid + ext);
        lemma_registration_idempotent(t1, ns, fty, fuel, ext);
    }
}

/// The descriptor an enum declaration registers: its bare name as the
/// path, and every variant with its discriminant, in order.
pub open spec fn enum_descriptor(e: ast::EnumDecl) -> WireTypeV {
    WireTypeV::EnumDef {
        path: seq![encode_utf8(e.name@)],
        variants: Seq::new(
            e.values@.len(),
            |i: int|
                if 0 <= i < e.values@.len() {
                    (encode_utf8(e.values@[i].0@), e.values@[i].1)
                } else {
                    (Seq::empty(), 0)
                },
        ),
    }
}

impl Abi {
    /// Add a type to the registry unless an equal descriptor is already
    /// present; either way the returned index, counted from one, names a
    /// descriptor equal to `ty`.
    pub fn register_ty(&mut self, ty: WireType) -> (idx: usize)
        ensures
            final(self).spec_section == old(self).spec_section,
            final(self).storage == old(self).storage,
            final(self).types@.len() >= old(self).types@.len(),
            1 <= idx <= final(self).types@.len(),
            final(self).types@[idx - 1].deep_view() == ty.deep_view(),
            // existing entries survive unchanged, and a fresh entry is
            // appended only when no equal descriptor existed
            final(self).types@.subrange(0, old(self).types@.len() as int) == old(self).types@,
            (exists|j: int|
                0 <= j < old(self).types@.len() && (#[trigger] old(self).types@[j]).deep_view()
                    == ty.deep_view()) ==> final(self).types@ == old(self).types@,
            !(exists|j: int|
                0 <= j < old(self).types@.len() && (#[trigger] old(self).types@[j]).deep_view()
                    == ty.deep_view()) ==> final(self).types@.len() == old(self).types@.len() + 1
                && idx == final(self).types@.len(),
            (types_view(final(self).types@), idx as int) == reg_insert(
                types_view(old(self).types@),
                ty.deep_view(),
            ),
    {
        let n = self.types.len();
        let mut i: usize = 0;
        while i < n
            invariant
                i <= n,
                n == self.types@.len(),
                *self == *old(self),
                forall|k: int|
                    0 <= k < i ==> (#[trigger] self.types@[k]).deep_view() != ty.deep_view(),
            decreases n - i,
        {
            if wire_type_eq(&self.types[i], &ty) {
                proof {
                    assert(self.types@.subrange(0, n as int) =~= old(self).types@);
                    let tv = types_view(old(self).types@);
                    assert forall|k: int| 0 <= k < i implies tv[k] != ty.deep_view() by {
                        assert(tv[k] == old(self).types@[k].deep_view());
                    }
                    lemma_find_skips_mismatches(tv, ty.deep_view(), i as int);
                    assert(tv[i as int] == ty.deep_view());
                    assert(find_descriptor_from(tv, ty.deep_view(), 0) == i + 1);
                }
                return i + 1;
            }
            i += 1;
        }
        self.types.push(ty);
        proof {
            assert(self.types@.subrange(0, n as int) =~= old(self).types@);
            let tv = types_view(old(self).types@);
            assert forall|k: int| 0 <= k < n implies tv[k] != ty.deep_view() by {
                assert(tv[k] == old(self).types@[k].deep_view());
            }
            lemma_find_skips_mismatches(tv, ty.deep_view(), n as int);
            assert(find_descriptor_from(tv, ty.deep_view(), 0) == 0);
            assert(types_view(self.types@) =~= tv.push(ty.deep_view()));
        }
        self.types.len()
    }

    /// The registry index of a primitive type.
    pub fn builtin_type(&mut self, primitive: Primitive) -> (idx: usize)
        ensures
            final(self).spec_section == old(self).spec_section,
            final(self).storage == old(self).storage,
            final(self).types@.len() >= old(self).types@.len(),
            1 <= idx <= final(self).types@.len(),
            final(self).types@[idx - 1].deep_view() == (WireTypeV::Builtin { primitive }),
            final(self).types@.subrange(0, old(self).types@.len() as int) == old(self).types@,
            // an equal descriptor already present keeps the registry
            // unchanged and its first index comes back
            (types_view(final(self).types@), idx as int) == reg_insert(
                types_view(old(self).types@),
                WireTypeV::Builtin { primitive },
            ),
    {
        self.register_ty(WireType::Builtin { primitive })
    }

    /// The registry index of a fixed-length array type.
    pub fn builtin_array_type(&mut self, elem: usize, array_len: u32) -> (idx: usize)
        ensures
            final(self).spec_section == old(self).spec_section,
            final(self).storage == old(self).storage,
            final(self).types@.len() >= old(self).types@.len(),
            1 <= idx <= final(self).types@.len(),
            final(self).types@[idx - 1].deep_view() == (WireTypeV::BuiltinArray {
                len: array_len,
                ty: elem,
            }),
            final(self).types@.subrange(0, old(self).types@.len() as int) == old(self).types@,
            (types_view(final(self).types@), idx as int) == reg_insert(
                types_view(old(self).types@),
                WireTypeV::BuiltinArray { len: array_len, ty: elem },
            ),
    {
        self.register_ty(WireType::BuiltinArray { len: array_len, ty: elem })
    }

    /// The registry index of a dynamically sized sequence type.
    pub fn builtin_slice_type(&mut self, elem: usize) -> (idx: usize)
        ensures
            final(self).spec_section == old(self).spec_section,
            final(self).storage == old(self).storage,
            final(self).types@.len() >= old(self).types@.len(),
            1 <= idx <= final(self).types@.len(),
            final(self).types@[idx - 1].deep_view() == (WireTypeV::BuiltinSequence { ty: elem }),
            final(self).types@.subrange(0, old(self).types@.len() as int) == old(self).types@,
            (types_view(final(self).types@), idx as int) == reg_insert(
                types_view(old(self).types@),
                WireTypeV::BuiltinSequence { ty: elem },
            ),
    {
        self.register_ty(WireType::BuiltinSequence { ty: elem })
    }

    /// The registry index of an enum descriptor.
    pub fn builtin_enum_type(&mut self, e: &ast::EnumDecl) -> (idx: usize)
        ensures
            final(self).spec_section == old(self).spec_section,
            final(self).storage == old(self).storage,
            final(self).types@.len() >= old(self).types@.len(),
            1 <= idx <= final(self).types@.len(),
            final(self).types@.subrange(0, old(self).types@.len() as int) == old(self).types@,
            final(self).types@[idx - 1].deep_view() == enum_descriptor(*e),
            (types_view(final(self).types@), idx as int) == reg_insert(
                types_view(old(self).types@),
                enum_descriptor(*e),
            ),
    {
        let mut path: Vec<Vec<u8>> = Vec::new();
        path.push(str_bytes(e.name.as_str()));
        proof {
            assert(path_view(path) =~= seq![encode_utf8(e.name@)]);
        }
        let mut variants: Vec<WireVariant> = Vec::new();
        let n = e.values.len();
        let mut i: usize = 0;
        while i < n
            invariant
                i <= n,
                n == e.values@.len(),
                variants@.len() == i,
                forall|k: int|
                    0 <= k < i ==> variant_view(#[trigger] variants@[k]) == (
                    encode_utf8(e.values@[k].0@),
                    e.values@[k].1,
                ),
            decreases n - i,
        {
            variants.push(
                WireVariant { name: str_bytes(e.values[i].0.as_str()), discriminant: e.values[i].1 },
            );
            i += 1;
        }
        proof {
            assert(variants_view(variants) =~= (match enum_descriptor(*e) {
                WireTypeV::EnumDef { variants: vs, .. } => vs,
                _ => Seq::empty(),
            }));
            assert(WireType::EnumDef { path, variants }.deep_view() =~= enum_descriptor(*e));
        }
        self.register_ty(WireType::EnumDef { path, variants })
    }

    /// The registry index of a struct descriptor.
    pub fn struct_type(&mut self, path: Vec<Vec<u8>>, fields: Vec<WireField>) -> (idx: usize)
        ensures
            final(self).spec_section == old(self).spec_section,
            final(self).storage == old(self).storage,
            final(self).types@.len() >= old(self).types@.len(),
            1 <= idx <= final(self).types@.len(),
            final(self).types@.subrange(0, old(self).types@.len() as int) == old(self).types@,
            final(self).types@[idx - 1].deep_view() == (WireTypeV::Composite {
                path: path_view(path),
                fields: fields_view(fields),
            }),
            (types_view(final(self).types@), idx as int) == reg_insert(
                types_view(old(self).types@),
                WireTypeV::Composite { path: path_view(path), fields: fields_view(fields) },
            ),
    {
        self.register_ty(WireType::Composite { path, fields })
    }

    /// Find the first message with the given name.
    pub fn get_function(&self, name: &Vec<u8>) -> (r: Option<&Message>)
        ensures
            r matches Option::Some(m) ==> exists|i: int|
                0 <= i < self.spec_section.messages@.len()
                    && (#[trigger] self.spec_section.messages@[i]).name@ == name@ && m
                    == self.spec_section.messages@[i] && (forall|k: int|
                    0 <= k < i ==> (#[trigger] self.spec_section.messages@[k]).name@ != name@),
            r is None ==> forall|i: int|
                0 <= i < self.spec_section.messages@.len() ==> (
                #[trigger] self.spec_section.messages@[i]).name@ != name@,
    {
        let n = self.spec_section.messages.len();
        let mut i: usize = 0;
        while i < n
            invariant
                i <= n,
                n == self.spec_section.messages@.len(),
                forall|k: int|
                    0 <= k < i ==> (#[trigger] self.spec_section.messages@[k]).name@ != name@,
            decreases n - i,
        {
            if bytes_eq(&self.spec_section.messages[i].name, name) {
                return Option::Some(&self.spec_section.messages[i]);
            }
            i += 1;
        }
        Option::None
    }
}

/// The UTF-8 bytes of a string slice.
pub fn str_bytes(s: &str) -> (r: Vec<u8>)
    ensures
        r@ == s.spec_bytes(),
{
    vstd::string::StrSliceExecFns::as_bytes_vec(s)
}

/// A registry prefix surviving two growth steps survives their
/// composition.
proof fn lemma_prefix_trans(a: Seq<WireType>, b: Seq<WireType>, c: Seq<WireType>)
    requires
        a.len() <= b.len(),
        b.len() <= c.len(),
        b.subrange(0, a.len() as int) == a,
        c.subrange(0, b.len() as int) == b,
    ensures
        c.subrange(0, a.len() as int) == a,
{
    assert forall|k: int| 0 <= k < a.len() implies c.subrange(0, a.len() as int)[k] == a[k] by {
        assert(c.subrange(0, b.len() as int)[k] == b[k]);
        assert(b.subrange(0, a.len() as int)[k] == a[k]);
    }
    assert(c.subrange(0, a.len() as int) =~= a);
}

/// One lowercase hex digit.
pub open spec fn hex_digit(n: int) -> char
    recommends
        0 <= n < 16,
{
    if n < 10 {
        ((n + 48) as u8) as char
    } else {
        ((n + 87) as u8) as char
    }
}

/// The lowercase hex rendering of a byte string, two digits per byte.
pub open spec fn hex_seq(b: Seq<u8>) -> Seq<char>
    decreases b.len(),
{
    if b.len() == 0 {
        Seq::empty()
    } else {
        seq![hex_digit(b[0] as int / 16), hex_digit(b[0] as int % 16)] + hex_seq(b.drop_first())
    }
}

/// The numeric value of one hex digit, upper or lower case; -1 for
/// anything else.
pub open spec fn hex_char_value(c: char) -> int {
    let x = c as int;
    if 48 <= x <= 57 {
        x - 48
    } else if 97 <= x <= 102 {
        x - 87
    } else if 65 <= x <= 70 {
        x - 55
    } else {
        -1
    }
}

/// A valid hex string: even length, hex digits only.
pub open spec fn valid_hex(s: Seq<char>) -> bool {
    s.len() % 2 == 0 && forall|i: int| 0 <= i < s.len() ==> hex_char_value(#[trigger] s[i]) >= 0
}

/// The bytes a valid hex string denotes.
pub open spec fn hex_bytes(s: Seq<char>) -> Seq<u8> {
    Seq::new(
        (s.len() / 2) as nat,
        |i: int| (hex_char_value(s[2 * i]) * 16 + hex_char_value(s[2 * i + 1])) as u8,
    )
}

/// Relies on `hex::encode`: lowercase, exactly two digits per byte.
#[verifier::external_body]
fn hex_encode(b: &Vec<u8>) -> (r: String)
    ensures
        r@ == hex_seq(b@),
{
    hex::encode(b.as_slice())
}

/// The error type `hex::decode` reports; carried through and mapped to
/// the library's own error by the caller.
#[verifier::external_type_specification]
#[verifier::external_body]
pub struct ExFromHexError(hex::FromHexError);

/// Relies on `hex::decode`: succeeds exactly on even-length strings of
/// hex digits, either case, yielding the denoted bytes.
#[verifier::external_body]
fn hex_decode(s: &str) -> (r: Result<Vec<u8>, hex::FromHexError>)
    ensures
        r is Ok <==> valid_hex(s@),
        r matches Result::Ok(b) ==> b@ == hex_bytes(s@),
{
    hex::decode(s)
}

/// The little-endian bytes of a selector word.
pub fn selector_to_le_bytes(selector: u32) -> (r: Vec<u8>)
    ensures
        r@ == seq![
            (selector % 256) as u8,
            ((selector / 256) % 256) as u8,
            ((selector / 65536) % 256) as u8,
            ((selector / 16777216) % 256) as u8,
        ],
{
    let mut r: Vec<u8> = Vec::new();
    r.push((selector % 256) as u8);
    r.push((selector / 256 % 256) as u8);
    r.push((selector / 65536 % 256) as u8);
    r.push((selector / 16777216 % 256) as u8);
    proof {
        assert(r@ =~= seq![
            (selector % 256) as u8,
            ((selector / 256) % 256) as u8,
            ((selector / 65536) % 256) as u8,
            ((selector / 16777216) % 256) as u8,
        ]);
    }
    r
}

/// Render a selector the way the interchange format writes it: `0x`
/// followed by the hex of its little-endian bytes.
pub fn render_selector(f: &ast::Function) -> (r: String)
    ensures
        r@ == "0x"@ + hex_seq(
            seq![
                (f.selector % 256) as u8,
                ((f.selector / 256) % 256) as u8,
                ((f.selector / 65536) % 256) as u8,
                ((f.selector / 16777216) % 256) as u8,
            ],
        ),
{
    let bytes = selector_to_le_bytes(f.selector);
    let hexed = hex_encode(&bytes);
    let mut out = "0x".to_owned();
    vstd::string::StringExecFns::append(&mut out, hexed.as_str());
    out
}

/// Parse a rendered selector back to its bytes. The caller guarantees
/// the `0x` prefix and hex digits; this mirrors an input produced by
/// `render_selector`.
pub fn parse_selector(selector: &str) -> (r: Vec<u8>)
    requires
        selector.is_ascii(),
        selector@.len() >= 2,
        valid_hex(selector@.skip(2)),
    ensures
        r@ == hex_bytes(selector@.skip(2)),
{
    let len = vstd::string::StrSliceExecFns::unicode_len(selector);
    let tail = vstd::string::StrSliceExecFns::substring_ascii(selector, 2, len);
    proof {
        assert(tail@ == selector@.skip(2));
    }
    match hex_decode(tail) {
        Result::Ok(bytes) => bytes,
        Result::Err(_) => Vec::new(),
    }
}

impl Constructor {
    /// The selector as call-buffer bytes.
    pub fn selector(&self) -> (r: Vec<u8>)
        ensures
            r@.len() == 4,
            r@ == seq![
                (self.selector % 256) as u8,
                ((self.selector / 256) % 256) as u8,
                ((self.selector / 65536) % 256) as u8,
                ((self.selector / 16777216) % 256) as u8,
            ],
    {
        selector_to_le_bytes(self.selector)
    }
}

impl Message {
    /// The selector as call-buffer bytes.
    pub fn selector(&self) -> (r: Vec<u8>)
        ensures
            r@.len() == 4,
            r@ == seq![
                (self.selector % 256) as u8,
                ((self.selector / 256) % 256) as u8,
                ((self.selector / 65536) % 256) as u8,
                ((self.selector / 16777216) % 256) as u8,
            ],
    {
        selector_to_le_bytes(self.selector)
    }
}


/// Whether the type walk succeeds within the given nesting budget: the
/// type carries no mapping, its struct references resolve, and its
/// nesting is shallower than the budget.
pub open spec fn ty_fits(ns: Namespace, ty: ast::Type, fuel: u32) -> bool
    decreases fuel,
{
    if fuel == 0 {
        false
    } else {
        match ty {
            ast::Type::Enum(_) => true,
            ast::Type::Bytes(_) => true,
            ast::Type::Mapping(_, _) => false,
            ast::Type::Array(elem, _) => ty_fits(ns, *elem, (fuel - 1) as u32),
            ast::Type::StorageRef(inner) => ty_fits(ns, *inner, (fuel - 1) as u32),
            ast::Type::Ref(inner) => ty_fits(ns, *inner, (fuel - 1) as u32),
            ast::Type::Bool => true,
            ast::Type::Uint(_) => true,
            ast::Type::Int(_) => true,
            ast::Type::Address(_) => true,
            ast::Type::Contract(_) => true,
            ast::Type::Struct(n) => n < ns.structs@.len() && (forall|k: int|
                0 <= k < ns.structs@[n as int].fields@.len() ==> ty_fits(
                    ns,
                    (#[trigger] ns.structs@[n as int].fields@[k]).ty,
                    (fuel - 1) as u32,
                )),
            ast::Type::DynamicBytes => true,
            ast::Type::Str => true,
            ast::Type::InternalFunction => true,
            ast::Type::ExternalFunction => true,
            _ => false,
        }
    }
}

/// The shape of the descriptor a type registers: enums travel as `u8`,
/// addresses and contracts as the one-field account composite, fixed
/// bytes as `u8` arrays, and so on.
pub open spec fn descriptor_matches(d: WireTypeV, ty: ast::Type) -> bool
    decreases ty,
{
    match ty {
        ast::Type::Enum(_) => d == (WireTypeV::Builtin { primitive: Primitive::Uint(8) }),
        ast::Type::Bytes(n) => d matches WireTypeV::BuiltinArray { len, .. } && len == n as u32,
        ast::Type::Array(_, dim) => match dim {
            ArrayDim::Fixed(l) => d matches WireTypeV::BuiltinArray { len, .. } && len == l,
            ArrayDim::Dynamic => d is BuiltinSequence,
        },
        ast::Type::Bool => d == (WireTypeV::Builtin { primitive: Primitive::Bool }),
        ast::Type::Uint(n) => d == (WireTypeV::Builtin { primitive: Primitive::Uint(n) }),
        ast::Type::Int(n) => d == (WireTypeV::Builtin { primitive: Primitive::Int(n) }),
        ast::Type::Address(_) => d matches WireTypeV::Composite { fields, .. } && fields.len()
            == 1,
        ast::Type::Contract(_) => d matches WireTypeV::Composite { fields, .. } && fields.len()
            == 1,
        ast::Type::Struct(_) => d is Composite,
        ast::Type::DynamicBytes => d is BuiltinSequence,
        ast::Type::Str => d == (WireTypeV::Builtin { primitive: Primitive::Str }),
        ast::Type::InternalFunction => d == (WireTypeV::Builtin {
            primitive: Primitive::Uint(32),
        }),
        ast::Type::ExternalFunction => d matches WireTypeV::Composite { fields, .. }
            && fields.len() == 2,
        ast::Type::StorageRef(inner) => descriptor_matches(d, *inner),
        ast::Type::Ref(inner) => descriptor_matches(d, *inner),
        _ => true,
    }
}

/// Map a resolved type to its registry entry, adding descriptors on the
/// way; nested declarations consume `fuel`, so the walk always ends,
/// and a namespace whose struct graph is deeper than the budget yields
/// nothing rather than looping.
pub fn ty_to_abi(ty: &ast::Type, ns: &Namespace, registry: &mut Abi, fuel: u32) -> (r: Option<
    usize,
>)
    ensures
        final(registry).spec_section == old(registry).spec_section,
        final(registry).storage == old(registry).storage,
        final(registry).types@.len() >= old(registry).types@.len(),
        final(registry).types@.subrange(0, old(registry).types@.len() as int) == old(
            registry,
        ).types@,
        r is Some <==> ty_fits(*ns, *ty, fuel),
        r matches Option::Some(idx) ==> 1 <= idx <= final(registry).types@.len()
            && descriptor_matches(final(registry).types@[idx - 1].deep_view(), *ty),
        // the walk is exactly the registry model: deduplicating inserts,
        // so re-registering an equal type is a no-op yielding the same
        // index (`lemma_registration_idempotent`)
        r matches Option::Some(idx) ==> (types_view(final(registry).types@), idx as int)
            == reg_model(types_view(old(registry).types@), *ns, *ty, fuel),
    decreases fuel,
{
    if fuel == 0 {
        return Option::None;
    }
    match ty {
        ast::Type::Enum(n) => {
            // enums travel as u8 on the wire
            Option::Some(registry.builtin_type(Primitive::Uint(8)))
        },
        ast::Type::Bytes(n) => {
            let ghost pre = registry.types@;
            let elem = registry.builtin_type(Primitive::Uint(8));
            let ghost mid = registry.types@;
            let r = registry.builtin_array_type(elem, *n as u32);
            proof {
                lemma_prefix_trans(pre, mid, registry.types@);
            }
            Option::Some(r)
        },
        ast::Type::Mapping(_, _) => Option::None,
        ast::Type::Array(elem, dim) => {
            let ghost pre = registry.types@;
            let inner = ty_to_abi(elem, ns, registry, fuel - 1);
            match inner {
                Option::Some(idx) => {
                    let ghost mid = registry.types@;
                    let r = match dim {
                        ArrayDim::Fixed(d) => registry.builtin_array_type(idx, *d),
                        ArrayDim::Dynamic => registry.builtin_slice_type(idx),
                    };
                    proof {
                        lemma_prefix_trans(pre, mid, registry.types@);
                    }
                    Option::Some(r)
                },
                Option::None => Option::None,
            }
        },
        ast::Type::StorageRef(inner) => ty_to_abi(inner, ns, registry, fuel - 1),
        ast::Type::Ref(inner) => ty_to_abi(inner, ns, registry, fuel - 1),
        ast::Type::Bool => Option::Some(registry.builtin_type(Primitive::Bool)),
        ast::Type::Uint(n) => Option::Some(registry.builtin_type(Primitive::Uint(*n))),
        ast::Type::Int(n) => Option::Some(registry.builtin_type(Primitive::Int(*n))),
        ast::Type::Address(_) | ast::Type::Contract(_) => {
            let ghost pre = registry.types@;
            let elem = registry.builtin_type(Primitive::Uint(8));
            let ghost mid1 = registry.types@;
            let arr = registry.builtin_array_type(elem, 32);
            let ghost mid2 = registry.types@;
            let mut path: Vec<Vec<u8>> = Vec::new();
            path.push(str_bytes("AccountId"));
            let mut fields: Vec<WireField> = Vec::new();
            fields.push(WireField { name: Option::None, ty: arr });
            proof {
                assert(path_view(path) =~= seq![encode_utf8("AccountId"@)]);
                assert(fields_view(fields) =~= seq![(Option::<Seq<u8>>::None, arr)]);
            }
            let r = registry.struct_type(path, fields);
            proof {
                lemma_prefix_trans(pre, mid1, mid2);
                lemma_prefix_trans(pre, mid2, registry.types@);
            }
            Option::Some(r)
        },
        ast::Type::Struct(n) => {
            if *n >= ns.structs.len() {
                return Option::None;
            }
            let ghost pre = registry.types@;
            let decl = &ns.structs[*n];
            let mut fields: Vec<WireField> = Vec::new();
            let m = decl.fields.len();
            let mut i: usize = 0;
            let mut failed = false;
            while i < m
                invariant
                    i <= m,
                    fuel >= 1,
                    *n < ns.structs@.len(),
                    m == ns.structs@[*n as int].fields@.len(),
                    registry.spec_section == old(registry).spec_section,
                    registry.storage == old(registry).storage,
                    registry.types@.subrange(0, pre.len() as int) == pre,
                    pre == old(registry).types@,
                    registry.types@.len() >= pre.len(),
                    failed <==> exists|k: int|
                        0 <= k < i && !ty_fits(
                            *ns,
                            (#[trigger] ns.structs@[*n as int].fields@[k]).ty,
                            (fuel - 1) as u32,
                        ),
                    forall|k: int|
                        0 <= k < fields@.len() ==> 1 <= (#[trigger] fields@[k]).ty
                            <= registry.types@.len(),
                    !failed ==> types_view(registry.types@) == reg_fields_model(
                        types_view(pre),
                        *ns,
                        *n as int,
                        i as int,
                        (fuel - 1) as u32,
                    ).0 && fields_view(fields) == reg_fields_model(
                        types_view(pre),
                        *ns,
                        *n as int,
                        i as int,
                        (fuel - 1) as u32,
                    ).1,
                decreases m - i,
            {
                let field = &ns.structs[*n].fields[i];
                let ghost mid = registry.types@;
                let ghost fields_pre = fields;
                let ghost was_failed = failed;
                match ty_to_abi(&field.ty, ns, registry, fuel - 1) {
                    Option::Some(idx) => {
                        let name = match &field.id {
                            Option::Some(ident) => Option::Some(str_bytes(ident.name.as_str())),
                            Option::None => Option::None,
                        };
                        fields.push(WireField { name, ty: idx });
                        proof {
                            if !was_failed {
                                assert(fields_view(fields) =~= fields_view(fields_pre).push(
                                    field_view(fields@.last()),
                                ));
                            }
                        }
                    },
                    Option::None => {
                        failed = true;
                    },
                }
                proof {
                    lemma_prefix_trans(pre, mid, registry.types@);
                }
                i += 1;
            }
            if failed {
                proof {
                    assert(!ty_fits(*ns, *ty, fuel));
                }
                return Option::None;
            }
            proof {
                assert(forall|k: int|
                    0 <= k < m ==> ty_fits(
                        *ns,
                        (#[trigger] ns.structs@[*n as int].fields@[k]).ty,
                        (fuel - 1) as u32,
                    ));
                assert(ty_fits(*ns, *ty, fuel));
            }
            let ghost mid = registry.types@;
            let mut path: Vec<Vec<u8>> = Vec::new();
            path.push(str_bytes(decl.name.as_str()));
            proof {
                assert(path_view(path) =~= seq![encode_utf8(decl.name@)]);
            }
            let r = registry.struct_type(path, fields);
            proof {
                lemma_prefix_trans(pre, mid, registry.types@);
            }
            Option::Some(r)
        },
        ast::Type::DynamicBytes => {
            let ghost pre = registry.types@;
            let elem = registry.builtin_type(Primitive::Uint(8));
            let ghost mid = registry.types@;
            let r = registry.builtin_slice_type(elem);
            proof {
                lemma_prefix_trans(pre, mid, registry.types@);
            }
            Option::Some(r)
        },
        ast::Type::Str => Option::Some(registry.builtin_type(Primitive::Str)),
        ast::Type::InternalFunction => Option::Some(registry.builtin_type(Primitive::Uint(32))),
        ast::Type::ExternalFunction => {
            let ghost pre = registry.types@;
            let elem = registry.builtin_type(Primitive::Uint(8));
            let ghost mid1 = registry.types@;
            let addr = registry.builtin_array_type(elem, 32);
            let ghost mid2 = registry.types@;
            let sel = registry.builtin_type(Primitive::Uint(32));
            let ghost mid3 = registry.types@;
            let mut path: Vec<Vec<u8>> = Vec::new();
            path.push(str_bytes("ExternalFunction"));
            let mut fields: Vec<WireField> = Vec::new();
            fields.push(WireField { name: Option::None, ty: addr });
            fields.push(WireField { name: Option::None, ty: sel });
            proof {
                assert(path_view(path) =~= seq![encode_utf8("ExternalFunction"@)]);
                assert(fields_view(fields) =~= seq![
                    (Option::<Seq<u8>>::None, addr),
                    (Option::<Seq<u8>>::None, sel),
                ]);
            }
            let r = registry.struct_type(path, fields);
            proof {
                lemma_prefix_trans(pre, mid1, mid2);
                lemma_prefix_trans(pre, mid2, mid3);
                lemma_prefix_trans(pre, mid3, registry.types@);
            }
            Option::Some(r)
        },
        _ => Option::None,
    }
}


/// The values of a contract's documentation tags with the given name, in
/// order.
pub open spec fn kept_tags(tags: Seq<Tag>, name: Seq<char>) -> Seq<Tag>
    decreases tags.len(),
{
    if tags.len() == 0 {
        Seq::empty()
    } else {
        kept_tags(tags.drop_last(), name) + (if tags.last().tag@ == name {
            seq![tags.last()]
        } else {
            Seq::empty()
        })
    }
}

/// Collect the values of a contract's tags with the given name, in
/// declaration order.
pub fn tags(contract_no: usize, tagname: &String, ns: &Namespace) -> (r: Vec<String>)
    requires
        contract_no < ns.contracts@.len(),
    ensures
        r@.len() == kept_tags(ns.contracts@[contract_no as int].tags@, tagname@).len(),
        forall|k: int|
            0 <= k < r@.len() ==> (#[trigger] r@[k])@ == kept_tags(
                ns.contracts@[contract_no as int].tags@,
                tagname@,
            )[k].value@,
{
    let mut out: Vec<String> = Vec::new();
    let n = ns.contracts[contract_no].tags.len();
    let mut i: usize = 0;
    while i < n
        invariant
            i <= n,
            contract_no < ns.contracts@.len(),
            n == ns.contracts@[contract_no as int].tags@.len(),
            out@.len() == kept_tags(
                ns.contracts@[contract_no as int].tags@.take(i as int),
                tagname@,
            ).len(),
            forall|k: int|
                0 <= k < out@.len() ==> (#[trigger] out@[k])@ == kept_tags(
                    ns.contracts@[contract_no as int].tags@.take(i as int),
                    tagname@,
                )[k].value@,
        decreases n - i,
    {
        let ghost pre_out = out@;
        let tag = &ns.contracts[contract_no].tags[i];
        if tag.tag == *tagname {
            out.push(tag.value.clone());
        }
        proof {
            let tags_seq = ns.contracts@[contract_no as int].tags@;
            assert(tags_seq.take(i + 1).drop_last() =~= tags_seq.take(i as int));
            assert(tags_seq.take(i + 1).last() == tags_seq[i as int]);
            if tags_seq[i as int].tag@ == tagname@ {
                assert(kept_tags(tags_seq.take(i + 1), tagname@) =~= kept_tags(
                    tags_seq.take(i as int),
                    tagname@,
                ) + seq![tags_seq[i as int]]);
            } else {
                assert(kept_tags(tags_seq.take(i + 1), tagname@) =~= kept_tags(
                    tags_seq.take(i as int),
                    tagname@,
                ));
            }
            assert forall|k: int| 0 <= k < out@.len() implies (#[trigger] out@[k])@ == kept_tags(
                tags_seq.take(i + 1),
                tagname@,
            )[k].value@ by {
                if k < pre_out.len() {
                    assert(out@[k] == pre_out[k]);
                }
            }
        }
        i += 1;
    }
    proof {
        assert(ns.contracts@[contract_no as int].tags@.take(n as int)
            =~= ns.contracts@[contract_no as int].tags@);
    }
    out
}

/// The nesting budget `gen_abi` gives the type walk.
pub const TYPE_DEPTH_BUDGET: u32 = 64;

/// How many of a contract's own functions are constructors.
pub open spec fn count_constructors(fns: Seq<crate::ast::Function>) -> int
    decreases fns.len(),
{
    if fns.len() == 0 {
        0
    } else {
        count_constructors(fns.drop_last()) + if fns.last().ty == FunctionTy::Constructor {
            1int
        } else {
            0int
        }
    }
}

/// Whether an entry of the function table becomes a message: a public or
/// external function of a non-library contract.
pub open spec fn is_message_entry(ns: Namespace, pair: (usize, usize)) -> bool {
    &&& pair.0 < ns.contracts@.len()
    &&& !ns.contracts@[pair.0 as int].is_library
    &&& pair.1 < ns.contracts@[pair.0 as int].functions@.len()
    &&& {
        let f = ns.contracts@[pair.0 as int].functions@[pair.1 as int];
        &&& f.ty == FunctionTy::Function
        &&& (f.visibility == Visibility::Public || f.visibility == Visibility::External)
    }
}

/// How many entries of the table become messages.
pub open spec fn count_messages(ns: Namespace, pairs: Seq<(usize, usize)>) -> int
    decreases pairs.len(),
{
    if pairs.len() == 0 {
        0
    } else {
        count_messages(ns, pairs.drop_last()) + if is_message_entry(ns, pairs.last()) {
            1int
        } else {
            0int
        }
    }
}


/// The layout entries that reach the storage section: everything but
/// mappings, in declaration order.
pub open spec fn kept_layout(ns: Namespace, layout: Seq<crate::ast::Layout>) -> Seq<
    crate::ast::Layout,
>
    decreases layout.len(),
{
    if layout.len() == 0 {
        Seq::empty()
    } else {
        kept_layout(ns, layout.drop_last()) + (if ns.contracts@[layout.last().contract_no as int].variables@[layout.last().var_no as int].ty.spec_is_mapping() {
            Seq::empty()
        } else {
            seq![layout.last()]
        })
    }
}

/// Every type the interface generator walks fits the nesting budget: the
/// non-mapping storage variables, the constructors' parameters, the
/// messages' parameters and returns, and the event fields.
pub open spec fn gen_abi_fits(ns: Namespace, contract_no: usize) -> bool {
    let c = ns.contracts@[contract_no as int];
    &&& forall|k: int|
        0 <= k < c.layout@.len() ==> {
            let l = #[trigger] c.layout@[k];
            !ns.contracts@[l.contract_no as int].variables@[l.var_no as int].ty.spec_is_mapping()
                ==> ty_fits(
                ns,
                ns.contracts@[l.contract_no as int].variables@[l.var_no as int].ty,
                TYPE_DEPTH_BUDGET,
            )
        }
    &&& forall|k: int|
        0 <= k < c.functions@.len() && (#[trigger] c.functions@[k]).ty == FunctionTy::Constructor
            ==> params_fit(ns, c.functions@[k].params@)
    &&& c.default_constructor matches Option::Some(f) ==> params_fit(ns, f.params@)
    &&& forall|k: int|
        0 <= k < c.all_functions@.len() && is_message_entry(ns, #[trigger] c.all_functions@[k])
            ==> {
            let f = ns.contracts@[c.all_functions@[k].0 as int].functions@[c.all_functions@[k].1 as int];
            params_fit(ns, f.params@) && (forall|t: int|
                0 <= t < f.returns@.len() ==> ty_fits(
                    ns,
                    (#[trigger] f.returns@[t]).ty,
                    TYPE_DEPTH_BUDGET,
                ))
        }
    &&& forall|j: int|
        0 <= j < c.sends_events@.len() ==> params_fit(
            ns,
            ns.events@[(#[trigger] c.sends_events@[j]) as int].fields@,
        )
}

/// Every parameter's type fits the budget.
pub open spec fn params_fit(ns: Namespace, params: Seq<crate::ast::Parameter>) -> bool {
    forall|k: int|
        0 <= k < params.len() ==> ty_fits(ns, (#[trigger] params[k]).ty, TYPE_DEPTH_BUDGET)
}

/// Generate the interface description of one contract: its storage
/// layout without mappings, one constructor entry per declared (and
/// defaulted) constructor, one message per public function, one event
/// entry per event the contract sends, all over one deduplicated type
/// registry. Yields nothing when a type is deeper than the registry
/// walk's budget.
pub fn gen_abi(contract_no: usize, ns: &Namespace) -> (r: Option<Abi>)
    requires
        contract_no < ns.contracts@.len(),
        forall|k: int|
            0 <= k < ns.contracts@[contract_no as int].layout@.len() ==> {
                let l = #[trigger] ns.contracts@[contract_no as int].layout@[k];
                l.contract_no < ns.contracts@.len() && l.var_no
                    < ns.contracts@[l.contract_no as int].variables@.len()
            },
        forall|k: int|
            0 <= k < ns.contracts@[contract_no as int].sends_events@.len() ==> (
            #[trigger] ns.contracts@[contract_no as int].sends_events@[k]) < ns.events@.len(),
    ensures
        // the generator succeeds exactly when every walked type fits the
        // nesting budget
        r is Some <==> gen_abi_fits(*ns, contract_no),
        r matches Option::Some(abi) ==> {
            let c = ns.contracts@[contract_no as int];
            &&& abi.spec_section.constructors@.len() == count_constructors(c.functions@) + (
            if c.default_constructor is Some {
                1int
            } else {
                0int
            })
            &&& abi.spec_section.messages@.len() == count_messages(*ns, c.all_functions@)
            &&& abi.spec_section.events@.len() == c.sends_events@.len()
            // the storage section holds exactly the non-mapping layout
            // entries, in order, under their slots and variable names
            &&& abi.storage@.len() == kept_layout(*ns, c.layout@).len()
            &&& forall|k: int|
                0 <= k < abi.storage@.len() ==> {
                    let l = kept_layout(*ns, c.layout@)[k];
                    &&& (#[trigger] abi.storage@[k]).slot == l.slot
                    &&& 1 <= abi.storage@[k].ty <= abi.types@.len()
                }
            // events carry their per-field indexed flags
            &&& forall|j: int|
                0 <= j < c.sends_events@.len() ==> (#[trigger] abi.spec_section.events@[j]).args@.len()
                    == ns.events@[c.sends_events@[j] as int].fields@.len() && (forall|t: int|
                    0 <= t < ns.events@[c.sends_events@[j] as int].fields@.len() ==> (
                    #[trigger] abi.spec_section.events@[j].args@[t]).indexed
                        == ns.events@[c.sends_events@[j] as int].fields@[t].indexed)
        },
{
    let mut abi = Abi {
        types: Vec::new(),
        storage: Vec::new(),
        spec_section: Spec {
            constructors: Vec::new(),
            messages: Vec::new(),
            events: Vec::new(),
        },
    };
    let contract = &ns.contracts[contract_no];

    // storage layout: every non-mapping variable, keyed by its slot
    let n_layout = contract.layout.len();
    let mut i: usize = 0;
    while i < n_layout
        invariant
            i <= n_layout,
            contract_no < ns.contracts@.len(),
            contract == ns.contracts@[contract_no as int],
            n_layout == contract.layout@.len(),
            forall|k: int|
                0 <= k < contract.layout@.len() ==> {
                    let l = #[trigger] contract.layout@[k];
                    l.contract_no < ns.contracts@.len() && l.var_no
                        < ns.contracts@[l.contract_no as int].variables@.len()
                },
            abi.spec_section.constructors@.len() == 0,
            abi.spec_section.messages@.len() == 0,
            abi.spec_section.events@.len() == 0,
            forall|k: int|
                0 <= k < i ==> {
                    let l = #[trigger] contract.layout@[k];
                    !ns.contracts@[l.contract_no as int].variables@[l.var_no as int].ty.spec_is_mapping()
                        ==> ty_fits(
                        *ns,
                        ns.contracts@[l.contract_no as int].variables@[l.var_no as int].ty,
                        TYPE_DEPTH_BUDGET,
                    )
                },
            abi.storage@.len() == kept_layout(*ns, contract.layout@.take(i as int)).len(),
            forall|k: int|
                0 <= k < abi.storage@.len() ==> {
                    let l = kept_layout(*ns, contract.layout@.take(i as int))[k];
                    (#[trigger] abi.storage@[k]).slot == l.slot && 1 <= abi.storage@[k].ty
                        <= abi.types@.len()
                },
        decreases n_layout - i,
    {
        let layout = &ns.contracts[contract_no].layout[i];
        let var = &ns.contracts[layout.contract_no].variables[layout.var_no];
        let ghost pre_storage = abi.storage@;
        let ghost pre_types_len = abi.types@.len();
        if !var.ty.is_mapping() {
            match ty_to_abi(&var.ty, ns, &mut abi, TYPE_DEPTH_BUDGET) {
                Option::Some(ty) => {
                    abi.storage.push(
                        StorageEntry { name: str_bytes(var.name.as_str()), slot: layout.slot, ty },
                    );
                },
                Option::None => {
                    proof {
                        assert(!gen_abi_fits(*ns, contract_no));
                    }
                    return Option::None;
                },
            }
        }
        proof {
            assert(contract.layout@.take(i + 1).drop_last() =~= contract.layout@.take(i as int));
            assert(contract.layout@.take(i + 1).last() == contract.layout@[i as int]);
            let l_i = contract.layout@[i as int];
            let kept_now = kept_layout(*ns, contract.layout@.take(i + 1));
            let kept_pre = kept_layout(*ns, contract.layout@.take(i as int));
            if ns.contracts@[l_i.contract_no as int].variables@[l_i.var_no as int].ty.spec_is_mapping() {
                assert(kept_now =~= kept_pre);
                assert(abi.storage@ == pre_storage);
            } else {
                assert(kept_now =~= kept_pre + seq![l_i]);
                assert(abi.storage@ == pre_storage.push(abi.storage@.last()));
                assert(abi.storage@.last().slot == l_i.slot);
            }
            assert forall|k: int| 0 <= k < abi.storage@.len() implies {
                let l = kept_now[k];
                (#[trigger] abi.storage@[k]).slot == l.slot && 1 <= abi.storage@[k].ty
                    <= abi.types@.len()
            } by {
                if k < pre_storage.len() {
                    assert(abi.storage@[k] == pre_storage[k]);
                    assert(kept_now[k] == kept_pre[k]);
                }
            }
        }
        i += 1;
    }
    proof {
        assert(contract.layout@.take(n_layout as int) =~= contract.layout@);
    }

    // one entry per declared constructor, under the conventional name
    let n_fns = contract.functions.len();
    let mut i: usize = 0;
    while i < n_fns
        invariant
            i <= n_fns,
            contract_no < ns.contracts@.len(),
            contract == ns.contracts@[contract_no as int],
            n_fns == contract.functions@.len(),
            abi.spec_section.constructors@.len() == count_constructors(
                contract.functions@.take(i as int),
            ),
            abi.spec_section.messages@.len() == 0,
            abi.spec_section.events@.len() == 0,
            abi.storage@.len() == kept_layout(*ns, contract.layout@).len(),
            forall|k: int|
                0 <= k < abi.storage@.len() ==> {
                    let l = kept_layout(*ns, contract.layout@)[k];
                    (#[trigger] abi.storage@[k]).slot == l.slot && 1 <= abi.storage@[k].ty
                        <= abi.types@.len()
                },
            forall|k: int|
                0 <= k < contract.layout@.len() ==> {
                    let l = #[trigger] contract.layout@[k];
                    !ns.contracts@[l.contract_no as int].variables@[l.var_no as int].ty.spec_is_mapping()
                        ==> ty_fits(
                        *ns,
                        ns.contracts@[l.contract_no as int].variables@[l.var_no as int].ty,
                        TYPE_DEPTH_BUDGET,
                    )
                },
            forall|k: int|
                0 <= k < i && (#[trigger] contract.functions@[k]).ty == FunctionTy::Constructor
                    ==> params_fit(*ns, contract.functions@[k].params@),
        decreases n_fns - i,
    {
        let f = &ns.contracts[contract_no].functions[i];
        proof {
            assert(contract.functions@.take(i + 1).drop_last() =~= contract.functions@.take(
                i as int,
            ));
            assert(contract.functions@.take(i + 1).last() == contract.functions@[i as int]);
        }
        if f.is_constructor() {
            let entry = match constructor_entry(f, ns, &mut abi) {
                Option::Some(entry) => entry,
                Option::None => {
                    proof {
                        assert(!gen_abi_fits(*ns, contract_no));
                    }
                    return Option::None;
                },
            };
            abi.spec_section.constructors.push(entry);
        }
        i += 1;
    }

    // the synthesized default constructor, when the contract has one
    if let Option::Some(f) = &ns.contracts[contract_no].default_constructor {
        let entry = match constructor_entry(f, ns, &mut abi) {
            Option::Some(entry) => entry,
            Option::None => {
                proof {
                    assert(!gen_abi_fits(*ns, contract_no));
                }
                return Option::None;
            },
        };
        abi.spec_section.constructors.push(entry);
    }
    let ghost n_ctors = abi.spec_section.constructors@.len() as int;

    // one message per public function reachable through the contract
    let n_all = contract.all_functions.len();
    let mut i: usize = 0;
    while i < n_all
        invariant
            i <= n_all,
            contract_no < ns.contracts@.len(),
            contract == ns.contracts@[contract_no as int],
            n_all == contract.all_functions@.len(),
            abi.spec_section.constructors@.len() == n_ctors,
            abi.spec_section.messages@.len() == count_messages(
                *ns,
                contract.all_functions@.take(i as int),
            ),
            abi.spec_section.events@.len() == 0,
            abi.storage@.len() == kept_layout(*ns, contract.layout@).len(),
            forall|k: int|
                0 <= k < abi.storage@.len() ==> {
                    let l = kept_layout(*ns, contract.layout@)[k];
                    (#[trigger] abi.storage@[k]).slot == l.slot && 1 <= abi.storage@[k].ty
                        <= abi.types@.len()
                },
            forall|k: int|
                0 <= k < i && is_message_entry(*ns, #[trigger] contract.all_functions@[k]) ==> {
                    let f = ns.contracts@[contract.all_functions@[k].0 as int].functions@[contract.all_functions@[k].1 as int];
                    params_fit(*ns, f.params@) && (forall|t: int|
                        0 <= t < f.returns@.len() ==> ty_fits(
                            *ns,
                            (#[trigger] f.returns@[t]).ty,
                            TYPE_DEPTH_BUDGET,
                        ))
                },
        decreases n_all - i,
    {
        let (base_contract_no, function_no) = ns.contracts[contract_no].all_functions[i];
        let ghost this_entry = contract.all_functions@[i as int];
        proof {
            assert(contract.all_functions@.take(i + 1).drop_last()
                =~= contract.all_functions@.take(i as int));
            assert(contract.all_functions@.take(i + 1).last()
                == contract.all_functions@[i as int]);
        }
        let entry_ok = base_contract_no < ns.contracts.len()
            && !ns.contracts[base_contract_no].is_library && function_no
            < ns.contracts[base_contract_no].functions.len();
        if !entry_ok {
            proof {
                assert(!is_message_entry(*ns, this_entry));
            }
        }
        if entry_ok {
            let f = &ns.contracts[base_contract_no].functions[function_no];
            let is_function = match f.ty {
                FunctionTy::Function => true,
                _ => false,
            };
            let is_public = match f.visibility {
                Visibility::Public => true,
                Visibility::External => true,
                _ => false,
            };
            if !(is_function && is_public) {
                proof {
                    assert(!is_message_entry(*ns, this_entry));
                }
            }
            if is_function && is_public {
                proof {
                    assert(is_message_entry(*ns, this_entry));
                }
                let payable = match f.mutability {
                    Option::Some(StateMutability::Payable) => true,
                    _ => false,
                };
                let mutates = match f.mutability {
                    Option::None => true,
                    Option::Some(StateMutability::Payable) => true,
                    _ => false,
                };
                let return_type = if f.returns.len() == 0 {
                    Option::None
                } else if f.returns.len() == 1 {
                    match ty_to_abi(&f.returns[0].ty, ns, &mut abi, TYPE_DEPTH_BUDGET) {
                        Option::Some(ty) => Option::Some(ty),
                        Option::None => {
                            proof {
                                assert(is_message_entry(*ns, this_entry));
                                assert(!gen_abi_fits(*ns, contract_no));
                            }
                            return Option::None;
                        },
                    }
                } else {
                    // several returns travel as one unnamed composite
                    let mut fields: Vec<WireField> = Vec::new();
                    let m = f.returns.len();
                    let mut k: usize = 0;
                    while k < m
                        invariant
                            k <= m,
                            m == f.returns@.len(),
                            contract_no < ns.contracts@.len(),
                            contract == ns.contracts@[contract_no as int],
                            i < contract.all_functions@.len(),
                            this_entry == contract.all_functions@[i as int],
                            is_message_entry(*ns, this_entry),
                            f == ns.contracts@[this_entry.0 as int].functions@[this_entry.1 as int],
                            forall|t: int|
                                0 <= t < k ==> ty_fits(
                                    *ns,
                                    (#[trigger] f.returns@[t]).ty,
                                    TYPE_DEPTH_BUDGET,
                                ),
                            abi.storage@.len() == kept_layout(*ns, contract.layout@).len(),
                            forall|q: int|
                                0 <= q < abi.storage@.len() ==> {
                                    let l = kept_layout(*ns, contract.layout@)[q];
                                    (#[trigger] abi.storage@[q]).slot == l.slot && 1
                                        <= abi.storage@[q].ty <= abi.types@.len()
                                },
                            abi.spec_section.constructors@.len() == n_ctors,
                            abi.spec_section.messages@.len() == count_messages(
                                *ns,
                                contract.all_functions@.take(i as int),
                            ),
                            abi.spec_section.events@.len() == 0,
                        decreases m - k,
                    {
                        match ty_to_abi(&f.returns[k].ty, ns, &mut abi, TYPE_DEPTH_BUDGET) {
                            Option::Some(ty) => {
                                let name = match &f.returns[k].id {
                                    Option::Some(ident) => Option::Some(
                                        str_bytes(ident.name.as_str()),
                                    ),
                                    Option::None => Option::None,
                                };
                                fields.push(WireField { name, ty });
                            },
                            Option::None => {
                                proof {
                                    assert(!ty_fits(
                                        *ns,
                                        f.returns@[k as int].ty,
                                        TYPE_DEPTH_BUDGET,
                                    ));
                                    assert(!gen_abi_fits(*ns, contract_no));
                                }
                                return Option::None;
                            },
                        }
                        k += 1;
                    }
                    Option::Some(abi.struct_type(Vec::new(), fields))
                };
                let args = match params_to_abi(&f.params, ns, &mut abi) {
                    Option::Some(args) => args,
                    Option::None => {
                        proof {
                            assert(is_message_entry(*ns, this_entry));
                            assert(!gen_abi_fits(*ns, contract_no));
                        }
                        return Option::None;
                    },
                };
                proof {
                    assert(params_fit(*ns, f.params@));
                    assert forall|t: int| 0 <= t < f.returns@.len() implies ty_fits(
                        *ns,
                        (#[trigger] f.returns@[t]).ty,
                        TYPE_DEPTH_BUDGET,
                    ) by {
                        if f.returns@.len() == 1 {
                            assert(t == 0);
                        }
                    }
                }
                abi.spec_section.messages.push(
                    Message {
                        name: str_bytes(f.name.as_str()),
                        selector: f.selector,
                        docs: tag_docs(&f.tags),
                        mutates,
                        payable,
                        args,
                        return_type,
                    },
                );
            }
        }
        i += 1;
    }

    proof {
        assert(contract.all_functions@.take(contract.all_functions@.len() as int)
            =~= contract.all_functions@);
    }

    // one entry per event the contract sends
    let n_events = contract.sends_events.len();
    let mut i: usize = 0;
    while i < n_events
        invariant
            i <= n_events,
            contract_no < ns.contracts@.len(),
            contract == ns.contracts@[contract_no as int],
            n_events == contract.sends_events@.len(),
            forall|k: int|
                0 <= k < contract.sends_events@.len() ==> (#[trigger] contract.sends_events@[k])
                    < ns.events@.len(),
            abi.spec_section.constructors@.len() == n_ctors,
            abi.spec_section.messages@.len() == count_messages(*ns, contract.all_functions@),
            abi.spec_section.events@.len() == i,
            abi.storage@.len() == kept_layout(*ns, contract.layout@).len(),
            forall|k: int|
                0 <= k < abi.storage@.len() ==> {
                    let l = kept_layout(*ns, contract.layout@)[k];
                    (#[trigger] abi.storage@[k]).slot == l.slot && 1 <= abi.storage@[k].ty
                        <= abi.types@.len()
                },
            forall|j: int|
                0 <= j < i ==> params_fit(
                    *ns,
                    ns.events@[(#[trigger] contract.sends_events@[j]) as int].fields@,
                ),
            forall|j: int|
                0 <= j < i ==> (#[trigger] abi.spec_section.events@[j]).args@.len()
                    == ns.events@[contract.sends_events@[j] as int].fields@.len() && (forall|
                    t: int,
                |
                    0 <= t < ns.events@[contract.sends_events@[j] as int].fields@.len() ==> (
                    #[trigger] abi.spec_section.events@[j].args@[t]).indexed
                        == ns.events@[contract.sends_events@[j] as int].fields@[t].indexed),
        decreases n_events - i,
    {
        let event_no = ns.contracts[contract_no].sends_events[i];
        let event = &ns.events[event_no];
        let mut args: Vec<ParamIndexed> = Vec::new();
        let m = event.fields.len();
        let mut k: usize = 0;
        while k < m
            invariant
                k <= m,
                event_no < ns.events@.len(),
                i < contract.sends_events@.len(),
                event_no == contract.sends_events@[i as int],
                event == ns.events@[event_no as int],
                m == event.fields@.len(),
                contract_no < ns.contracts@.len(),
                contract == ns.contracts@[contract_no as int],
                abi.spec_section.constructors@.len() == n_ctors,
                abi.spec_section.messages@.len() == count_messages(
                    *ns,
                    contract.all_functions@,
                ),
                abi.spec_section.events@.len() == i,
                abi.storage@.len() == kept_layout(*ns, contract.layout@).len(),
                forall|q: int|
                    0 <= q < abi.storage@.len() ==> {
                        let l = kept_layout(*ns, contract.layout@)[q];
                        (#[trigger] abi.storage@[q]).slot == l.slot && 1 <= abi.storage@[q].ty
                                <= abi.types@.len()
                    },
                forall|j: int|
                    0 <= j < i ==> (#[trigger] abi.spec_section.events@[j]).args@.len()
                        == ns.events@[contract.sends_events@[j] as int].fields@.len() && (forall|
                        t: int,
                    |
                        0 <= t < ns.events@[contract.sends_events@[j] as int].fields@.len() ==> (
                        #[trigger] abi.spec_section.events@[j].args@[t]).indexed
                            == ns.events@[contract.sends_events@[j] as int].fields@[t].indexed),
                args@.len() == k,
                forall|t: int|
                    0 <= t < k ==> (#[trigger] args@[t]).indexed == event.fields@[t].indexed,
                forall|t: int|
                    0 <= t < k ==> ty_fits(
                        *ns,
                        (#[trigger] event.fields@[t]).ty,
                        TYPE_DEPTH_BUDGET,
                    ),
            decreases m - k,
        {
            let p = &ns.events[event_no].fields[k];
            match ty_to_abi(&p.ty, ns, &mut abi, TYPE_DEPTH_BUDGET) {
                Option::Some(ty) => {
                    let name = match &p.id {
                        Option::Some(ident) => str_bytes(ident.name.as_str()),
                        Option::None => Vec::new(),
                    };
                    args.push(ParamIndexed { param: Param { name, ty }, indexed: p.indexed });
                },
                Option::None => {
                    proof {
                        assert(!ty_fits(*ns, event.fields@[k as int].ty, TYPE_DEPTH_BUDGET));
                        assert(!params_fit(*ns, ns.events@[event_no as int].fields@));
                        assert(!gen_abi_fits(*ns, contract_no));
                    }
                    return Option::None;
                },
            }
            k += 1;
        }
        let ghost pre_events = abi.spec_section.events@;
        abi.spec_section.events.push(
            Event {
                docs: tag_docs(&ns.events[event_no].tags),
                name: str_bytes(ns.events[event_no].name.as_str()),
                args,
            },
        );
        proof {
            assert(abi.spec_section.events@.len() == i + 1);
            assert forall|j: int| 0 <= j < i + 1 implies (
            #[trigger] abi.spec_section.events@[j]).args@.len() == ns.events@[contract.sends_events@[j] as int].fields@.len()
                && (forall|t: int|
                0 <= t < ns.events@[contract.sends_events@[j] as int].fields@.len() ==> (
                #[trigger] abi.spec_section.events@[j].args@[t]).indexed
                    == ns.events@[contract.sends_events@[j] as int].fields@[t].indexed) by {
                if j < i as int {
                    assert(abi.spec_section.events@[j] == pre_events[j]);
                    assert(pre_events[j].args@.len() == ns.events@[contract.sends_events@[
                        j
                    ] as int].fields@.len());
                    assert(forall|t: int|
                        0 <= t < ns.events@[contract.sends_events@[j] as int].fields@.len() ==> (
                        #[trigger] pre_events[j].args@[t]).indexed == ns.events@[contract.sends_events@[j] as int].fields@[t].indexed);
                } else {
                    assert(abi.spec_section.events@[j].args@ == args@);
                    assert(args@.len() == event.fields@.len());
                    assert(ns.events@[contract.sends_events@[j] as int] == event);
                    assert(forall|t: int|
                        0 <= t < event.fields@.len() ==> (#[trigger] args@[t]).indexed
                            == event.fields@[t].indexed);
                }
            }
        }
        i += 1;
    }
    proof {
        assert(contract.functions@.take(contract.functions@.len() as int)
            =~= contract.functions@);
    }
    Option::Some(abi)
}

/// One constructor entry, always under the conventional name.
fn constructor_entry(f: &crate::ast::Function, ns: &Namespace, abi: &mut Abi) -> (r: Option<
    Constructor,
>)
    ensures
        final(abi).spec_section == old(abi).spec_section,
        final(abi).storage == old(abi).storage,
        final(abi).types@.len() >= old(abi).types@.len(),
        r is Some <==> params_fit(*ns, f.params@),
{
    let args = match params_to_abi(&f.params, ns, abi) {
        Option::Some(args) => args,
        Option::None => {
            return Option::None;
        },
    };
    Option::Some(
        Constructor {
            name: str_bytes("new"),
            selector: f.selector,
            docs: tag_docs(&f.tags),
            args,
        },
    )
}

/// Map a parameter list into the registry.
fn params_to_abi(params: &Vec<Parameter>, ns: &Namespace, abi: &mut Abi) -> (r: Option<Vec<Param>>)
    ensures
        final(abi).spec_section == old(abi).spec_section,
        final(abi).storage == old(abi).storage,
        final(abi).types@.len() >= old(abi).types@.len(),
        r is Some <==> params_fit(*ns, params@),
        r matches Option::Some(list) ==> list@.len() == params@.len(),
{
    let mut out: Vec<Param> = Vec::new();
    let n = params.len();
    let mut i: usize = 0;
    while i < n
        invariant
            i <= n,
            n == params@.len(),
            out@.len() == i,
            abi.spec_section == old(abi).spec_section,
            abi.storage == old(abi).storage,
            abi.types@.len() >= old(abi).types@.len(),
            forall|k: int|
                0 <= k < i ==> ty_fits(*ns, (#[trigger] params@[k]).ty, TYPE_DEPTH_BUDGET),
        decreases n - i,
    {
        let p = &params[i];
        match ty_to_abi(&p.ty, ns, abi, TYPE_DEPTH_BUDGET) {
            Option::Some(ty) => {
                let name = match &p.id {
                    Option::Some(ident) => str_bytes(ident.name.as_str()),
                    Option::None => Vec::new(),
                };
                out.push(Param { name, ty });
            },
            Option::None => {
                proof {
                    assert(!ty_fits(*ns, params@[i as int].ty, TYPE_DEPTH_BUDGET));
                }
                return Option::None;
            },
        }
        i += 1;
    }
    Option::Some(out)
}

/// The documentation lines of a declaration: one per tag, its value.
fn tag_docs(tags: &Vec<Tag>) -> (r: Vec<Vec<u8>>)
    ensures
        r@.len() == tags@.len(),
{
    let mut out: Vec<Vec<u8>> = Vec::new();
    let n = tags.len();
    let mut i: usize = 0;
    while i < n
        invariant
            i <= n,
            n == tags@.len(),
            out@.len() == i,
        decreases n - i,
    {
        out.push(str_bytes(tags[i].value.as_str()));
        i += 1;
    }
    out
}

} // verus!
