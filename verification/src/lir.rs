//! The lowered representation handed to the backend: its variable table,
//! keyed by id with insertion order kept and every id unique, and the
//! final graph record.

use vstd::prelude::*;
use vstd::string::StringExecFns;

use crate::ast::{Parameter, Type};
use crate::ast::FunctionTy;
use crate::cfg::{ASTFunction, Instr};

verus! {

/// The prefix of names fabricated for temporaries.
pub open spec fn temp_prefix() -> Seq<char> {
    "temp.ssa_ir."@
}

/// The character of one decimal digit.
pub open spec fn digit_char(d: int) -> char
    recommends
        0 <= d < 10,
{
    ((48 + d) as u8) as char
}

/// The decimal rendering of a number.
pub open spec fn dec_seq(n: int) -> Seq<char>
    recommends
        n >= 0,
    decreases n,
{
    if n < 10 {
        seq![digit_char(n)]
    } else {
        dec_seq(n / 10) + seq![digit_char(n % 10)]
    }
}

/// One decimal digit as text.
fn digit_str(d: usize) -> (r: &'static str)
    requires
        d < 10,
    ensures
        r@ == seq![digit_char(d as int)],
{
    proof {
        reveal_strlit("0");
        reveal_strlit("1");
        reveal_strlit("2");
        reveal_strlit("3");
        reveal_strlit("4");
        reveal_strlit("5");
        reveal_strlit("6");
        reveal_strlit("7");
        reveal_strlit("8");
        reveal_strlit("9");
    }
    let r = if d == 0 {
        "0"
    } else if d == 1 {
        "1"
    } else if d == 2 {
        "2"
    } else if d == 3 {
        "3"
    } else if d == 4 {
        "4"
    } else if d == 5 {
        "5"
    } else if d == 6 {
        "6"
    } else if d == 7 {
        "7"
    } else {
        if d == 8 {
            "8"
        } else {
            "9"
        }
    };
    proof {
        assert(r@ =~= seq![digit_char(d as int)]);
    }
    r
}

/// Render a number in decimal.
pub fn dec_str(n: usize) -> (r: String)
    ensures
        r@ == dec_seq(n as int),
    decreases n,
{
    if n < 10 {
        digit_str(n).to_owned()
    } else {
        let mut s = dec_str(n / 10);
        s.append(digit_str(n % 10));
        proof {
            assert(s@ =~= dec_seq(n as int));
        }
        s
    }
}

/// A reference to a variable by id.
#[derive(Clone, Copy, PartialEq, Eq, Structural, Debug)]
pub enum Operand {
    Id { id: usize },
}

/// One variable of the lowered representation.
pub struct Var {
    pub id: usize,
    pub ty: Type,
    pub name: String,
}

impl Var {
    pub fn new(id: usize, ty: Type, name: String) -> (r: Var)
        ensures
            r.id == id,
            r.ty == ty,
            r.name == name,
    {
        Var { id, ty, name }
    }
}

/// The id-keyed map of an outside crate the table is built on; a value
/// of it is opaque here and read only through its contents.
#[verifier::external_type_specification]
#[verifier::external_body]
#[verifier::reject_recursive_types(K)]
#[verifier::reject_recursive_types(V)]
#[verifier::reject_recursive_types(S)]
pub struct ExIndexMap<K, V, S>(indexmap::IndexMap<K, V, S>);

/// What the id-keyed map holds: its entries, as a map from id to
/// variable.
pub uninterp spec fn map_contents(m: indexmap::IndexMap<usize, Var>) -> Map<usize, Var>;

/// Relies on `indexmap::IndexMap::new`: a fresh map holds nothing.
#[verifier::external_body]
fn map_new() -> (r: indexmap::IndexMap<usize, Var>)
    ensures
        map_contents(r) =~= Map::empty(),
{
    indexmap::IndexMap::new()
}

/// Relies on `indexmap::IndexMap::insert`: the key now holds exactly the
/// given value, everything else is untouched.
#[verifier::external_body]
fn map_insert(m: &mut indexmap::IndexMap<usize, Var>, key: usize, value: Var)
    ensures
        map_contents(*final(m)) == map_contents(*old(m)).insert(key, value),
{
    m.insert(key, value);
}

/// Relies on `indexmap::IndexMap::get`: the entry under the key, if one
/// is present.
#[verifier::external_body]
fn map_get<'a>(m: &'a indexmap::IndexMap<usize, Var>, key: &usize) -> (r: Option<&'a Var>)
    ensures
        r matches Option::Some(v) ==> map_contents(*m).contains_key(*key) && *v == map_contents(
            *m,
        )[*key],
        r is None ==> !map_contents(*m).contains_key(*key),
{
    m.get(key)
}

/// The variable table of a lowered function: id-keyed, every id below
/// the next-id counter.
pub struct Vartable {
    pub vars: indexmap::IndexMap<usize, Var>,
    pub args: Vec<(usize, usize)>,
    pub next_id: usize,
}

impl Vartable {
    /// Every entry sits under its own id, below the counter.
    pub open spec fn wf(self) -> bool {
        &&& forall|id: usize|
            map_contents(self.vars).contains_key(id) ==> (#[trigger] map_contents(
                self.vars,
            )[id]).id == id && id < self.next_id
    }

    /// An empty table.
    pub fn new() -> (r: Vartable)
        ensures
            r.wf(),
            map_contents(r.vars) =~= Map::empty(),
            r.args@.len() == 0,
            r.next_id == 0,
    {
        Vartable { vars: map_new(), args: Vec::new(), next_id: 0 }
    }

    /// Whether the table holds an entry under this id.
    pub fn contains(&self, id: usize) -> (r: bool)
        ensures
            r == map_contents(self.vars).contains_key(id),
    {
        match map_get(&self.vars, &id) {
            Option::Some(_) => true,
            Option::None => false,
        }
    }

    /// The type of a known variable.
    pub fn get_type(&self, id: usize) -> (r: &Type)
        requires
            map_contents(self.vars).contains_key(id),
        ensures
            *r == map_contents(self.vars)[id].ty,
    {
        match map_get(&self.vars, &id) {
            Option::Some(v) => &v.ty,
            Option::None => {
                proof {
                    assert(false);
                }
                unreached()
            },
        }
    }

    /// The display name of a known variable.
    pub fn get_name(&self, id: usize) -> (r: &str)
        requires
            map_contents(self.vars).contains_key(id),
        ensures
            r@ == map_contents(self.vars)[id].name@,
    {
        match map_get(&self.vars, &id) {
            Option::Some(v) => v.name.as_str(),
            Option::None => {
                proof {
                    assert(false);
                }
                unreached()
            },
        }
    }

    /// An operand referring to a known variable.
    pub fn get_operand(&self, id: usize) -> (r: Operand)
        requires
            self.wf(),
            map_contents(self.vars).contains_key(id),
        ensures
            r == (Operand::Id { id }),
    {
        match map_get(&self.vars, &id) {
            Option::Some(v) => Operand::Id { id: v.id },
            Option::None => Operand::Id { id },
        }
    }

    /// Record a temporary under a caller-chosen id, replacing any entry
    /// with the same id and keeping the counter above every id.
    pub fn set_tmp(&mut self, id: usize, ty: &Type)
        requires
            old(self).wf(),
            id < usize::MAX,
        ensures
            final(self).wf(),
            map_contents(final(self).vars).contains_key(id),
            map_contents(final(self).vars)[id].id == id,
            map_contents(final(self).vars)[id].ty == *ty,
            map_contents(final(self).vars)[id].name@ == temp_prefix() + dec_seq(id as int),
            forall|k: usize|
                k != id ==> map_contents(final(self).vars).contains_key(k) == map_contents(
                    old(self).vars,
                ).contains_key(k),
            final(self).next_id == (if id + 1 > old(self).next_id {
                id + 1
            } else {
                old(self).next_id as int
            }),
            final(self).args == old(self).args,
    {
        let mut name = "temp.ssa_ir.".to_owned();
        name.append(dec_str(id).as_str());
        let var = Var { id, ty: ty.clone(), name };
        if self.next_id <= id {
            self.next_id = id + 1;
        }
        map_insert(&mut self.vars, id, var);
    }

    /// Issue a fresh temporary with the next id.
    pub fn new_temp(&mut self, ty: &Type) -> (op: Operand)
        requires
            old(self).wf(),
            old(self).next_id < usize::MAX,
        ensures
            final(self).wf(),
            op == (Operand::Id { id: old(self).next_id }),
            final(self).next_id == old(self).next_id + 1,
            map_contents(final(self).vars) == map_contents(old(self).vars).insert(
                old(self).next_id,
                map_contents(final(self).vars)[old(self).next_id],
            ),
            map_contents(final(self).vars)[old(self).next_id].id == old(self).next_id,
            map_contents(final(self).vars)[old(self).next_id].ty == *ty,
            map_contents(final(self).vars)[old(self).next_id].name@ == temp_prefix() + dec_seq(
                old(self).next_id as int,
            ),
            final(self).args == old(self).args,
    {
        let id = self.next_id;
        let mut name = "temp.ssa_ir.".to_owned();
        name.append(dec_str(id).as_str());
        let var = Var { id, ty: ty.clone(), name };
        map_insert(&mut self.vars, id, var);
        self.next_id = id + 1;
        Operand::Id { id }
    }

    /// The operand bound to a function argument position: the most
    /// recent binding, since a later `add_function_arg` for the same
    /// position replaces the earlier one.
    pub fn get_function_arg(&self, arg_no: usize) -> (r: Option<Operand>)
        ensures
            r == (match last_arg_binding(self.args@, arg_no) {
                Option::Some(id) => Option::Some(Operand::Id { id }),
                Option::None => Option::<Operand>::None,
            }),
    {
        let n = self.args.len();
        let mut i: usize = n;
        proof {
            assert(self.args@.take(n as int) =~= self.args@);
        }
        while i > 0
            invariant
                i <= n,
                n == self.args@.len(),
                last_arg_binding(self.args@.take(i as int), arg_no) == last_arg_binding(
                    self.args@,
                    arg_no,
                ),
            decreases i,
        {
            proof {
                assert(self.args@.take(i as int).drop_last() =~= self.args@.take(i - 1));
                assert(self.args@.take(i as int).last() == self.args@[i - 1]);
            }
            i = i - 1;
            if self.args[i].0 == arg_no {
                return Option::Some(Operand::Id { id: self.args[i].1 });
            }
        }
        proof {
            assert(self.args@.take(0) =~= Seq::<(usize, usize)>::empty());
        }
        Option::None
    }

    /// Bind a function argument position to a variable id.
    pub fn add_function_arg(&mut self, arg_no: usize, var_id: usize)
        requires
            old(self).wf(),
        ensures
            final(self).wf(),
            final(self).args@ == old(self).args@.push((arg_no, var_id)),
            final(self).vars == old(self).vars,
            final(self).next_id == old(self).next_id,
    {
        self.args.push((arg_no, var_id));
    }
}

/// The value of the most recent binding for an argument position.
pub open spec fn last_arg_binding(args: Seq<(usize, usize)>, arg_no: usize) -> Option<usize>
    decreases args.len(),
{
    if args.len() == 0 {
        Option::None
    } else if args.last().0 == arg_no {
        Option::Some(args.last().1)
    } else {
        last_arg_binding(args.drop_last(), arg_no)
    }
}

/// The largest id of a listing; zero when it is empty.
pub open spec fn max_listed_id(entries: Seq<Var>) -> int
    decreases entries.len(),
{
    if entries.len() == 0 {
        0
    } else if entries.last().id >= max_listed_id(entries.drop_last()) {
        entries.last().id as int
    } else {
        max_listed_id(entries.drop_last())
    }
}

/// One block of the lowered representation.
pub struct Block {
    pub name: String,
    pub instructions: Vec<Instr>,
}

/// A lowered function: its signature, its variable table and its blocks,
/// with the selector dispatch uses to find it.
pub struct Cfg {
    pub name: String,
    pub function_no: ASTFunction,
    pub params: Vec<Parameter>,
    pub returns_params: Vec<Parameter>,
    pub vartable: Vartable,
    pub blocks: Vec<Block>,
    pub nonpayable: bool,
    pub public: bool,
    pub ty: FunctionTy,
    pub selector: Vec<u8>,
}

/// Rebuild a variable table from an id-keyed listing, as the conversion
/// into the lowered representation does: every entry is carried over
/// under its id, and the counter lands one past the largest id (at one
/// for an empty listing).
pub fn to_vartable(entries: &Vec<Var>) -> (r: Vartable)
    requires
        forall|i: int, j: int|
            0 <= i < j < entries@.len() ==> (#[trigger] entries@[i]).id != (
            #[trigger] entries@[j]).id,
        forall|i: int| 0 <= i < entries@.len() ==> (#[trigger] entries@[i]).id < usize::MAX,
    ensures
        r.wf(),
        forall|i: int|
            0 <= i < entries@.len() ==> map_contents(r.vars).contains_key(
                (#[trigger] entries@[i]).id,
            ) && map_contents(r.vars)[entries@[i].id].id == entries@[i].id && map_contents(
                r.vars,
            )[entries@[i].id].ty == entries@[i].ty && map_contents(r.vars)[entries@[i].id].name@
                == entries@[i].name@,
        r.args@.len() == 0,
        r.next_id == max_listed_id(entries@) + 1,
        // and nothing else: the table holds no key beyond the listing
        forall|id: usize|
            map_contents(r.vars).contains_key(id) ==> exists|k: int|
                0 <= k < entries@.len() && (#[trigger] entries@[k]).id == id,
{
    let mut vars = map_new();
    let mut max_id: usize = 0;
    let n = entries.len();
    let mut i: usize = 0;
    while i < n
        invariant
            i <= n,
            n == entries@.len(),
            forall|k: int|
                0 <= k < i ==> map_contents(vars).contains_key((#[trigger] entries@[k]).id)
                    && map_contents(vars)[entries@[k].id].id == entries@[k].id && map_contents(
                    vars,
                )[entries@[k].id].ty == entries@[k].ty && map_contents(
                    vars,
                )[entries@[k].id].name@ == entries@[k].name@,
            forall|id: usize|
                map_contents(vars).contains_key(id) ==> (#[trigger] map_contents(vars)[id]).id
                    == id && id <= max_id,
            forall|id: usize|
                map_contents(vars).contains_key(id) ==> exists|k: int|
                    0 <= k < i && (#[trigger] entries@[k]).id == id,
            max_id == max_listed_id(entries@.take(i as int)),
            max_id < usize::MAX,
            forall|k: int| 0 <= k < n ==> (#[trigger] entries@[k]).id < usize::MAX,
            forall|k: int, l: int|
                0 <= k < l < n ==> (#[trigger] entries@[k]).id != (#[trigger] entries@[l]).id,
        decreases n - i,
    {
        let e = &entries[i];
        let mut name = String::new();
        name.append(e.name.as_str());
        map_insert(&mut vars, e.id, Var { id: e.id, ty: e.ty.clone(), name });
        if e.id > max_id {
            max_id = e.id;
        }
        proof {
            assert(entries@.take(i + 1).drop_last() =~= entries@.take(i as int));
            assert(entries@.take(i + 1).last() == entries@[i as int]);
        }
        i += 1;
    }
    proof {
        assert(entries@.take(n as int) =~= entries@);
    }
    Vartable { vars, args: Vec::new(), next_id: max_id + 1 }
}

} // verus!
