//! The typed representation that lowering consumes: source locations,
//! identifiers, types and parameters. The tree is produced by an upstream
//! semantic pass and is read-only during lowering.

use vstd::prelude::*;

verus! {

/// A source location. Synthetic nodes produced during lowering carry
/// `Codegen`; compiler-provided nodes carry `Builtin`.
#[derive(Clone, Copy, PartialEq, Eq, Structural, Debug)]
pub enum Loc {
    Builtin,
    Codegen,
    Implicit,
    CommandLine,
    File(usize, usize, usize),
}

/// A named entity together with the location of its name.
#[derive(Clone, Debug)]
pub struct Identifier {
    pub loc: Loc,
    pub name: String,
}

/// One array dimension: fixed length or dynamically sized.
#[derive(Clone, Copy, PartialEq, Eq, Structural, Debug)]
pub enum ArrayDim {
    Fixed(u32),
    Dynamic,
}

/// A type as the semantic pass resolves it. Composite types refer to
/// their declarations by index into the namespace. A multi-dimensional
/// array appears as nested `Array` nodes, outermost dimension first.
#[derive(Debug)]
pub enum Type {
    Bool,
    Uint(u16),
    Int(u16),
    Bytes(u8),
    DynamicBytes,
    Str,
    Address(bool),
    Contract(usize),
    Enum(usize),
    Struct(usize),
    Array(Box<Type>, ArrayDim),
    Mapping(Box<Type>, Box<Type>),
    Ref(Box<Type>),
    StorageRef(Box<Type>),
    InternalFunction,
    ExternalFunction,
    Slice(Box<Type>),
    Value,
}

impl Clone for Type {
    fn clone(&self) -> (r: Self)
        ensures
            r == *self,
        decreases *self,
    {
        match self {
            Type::Bool => Type::Bool,
            Type::Uint(n) => Type::Uint(*n),
            Type::Int(n) => Type::Int(*n),
            Type::Bytes(n) => Type::Bytes(*n),
            Type::DynamicBytes => Type::DynamicBytes,
            Type::Str => Type::Str,
            Type::Address(payable) => Type::Address(*payable),
            Type::Contract(n) => Type::Contract(*n),
            Type::Enum(n) => Type::Enum(*n),
            Type::Struct(n) => Type::Struct(*n),
            Type::Array(elem, dim) => Type::Array(Box::new((**elem).clone()), *dim),
            Type::Mapping(k, v) => Type::Mapping(
                Box::new((**k).clone()),
                Box::new((**v).clone()),
            ),
            Type::Ref(t) => Type::Ref(Box::new((**t).clone())),
            Type::StorageRef(t) => Type::StorageRef(Box::new((**t).clone())),
            Type::InternalFunction => Type::InternalFunction,
            Type::ExternalFunction => Type::ExternalFunction,
            Type::Slice(t) => Type::Slice(Box::new((**t).clone())),
            Type::Value => Type::Value,
        }
    }
}

impl Type {
    /// Whether the type is a storage mapping; mappings have no
    /// wire-level representation.
    pub fn is_mapping(&self) -> (r: bool)
        ensures
            r == self.spec_is_mapping(),
    {
        match self {
            Type::Mapping(_, _) => true,
            _ => false,
        }
    }

    pub open spec fn spec_is_mapping(&self) -> bool {
        self is Mapping
    }
}

/// A function or event parameter.
#[derive(Clone, Debug)]
pub struct Parameter {
    pub loc: Loc,
    pub id: Option<Identifier>,
    pub ty: Type,
    pub indexed: bool,
}

impl Parameter {
    /// A synthetic, unnamed parameter of the given type, as lowering
    /// fabricates for decode targets.
    pub fn anonymous(ty: Type) -> (r: Parameter)
        ensures
            r.ty == ty,
            r.id is None,
            !r.indexed,
    {
        Parameter { loc: Loc::Codegen, id: None, ty, indexed: false }
    }
}

/// The kind of a function, which decides how dispatch may reach it.
#[derive(Clone, Copy, PartialEq, Eq, Structural, Debug)]
pub enum FunctionTy {
    Constructor,
    Function,
    Fallback,
    Receive,
    Modifier,
}

/// Where a function may be called from.
#[derive(Clone, Copy, PartialEq, Eq, Structural, Debug)]
pub enum Visibility {
    Public,
    External,
    Internal,
    Private,
}

/// A function's declared mutability; payable functions may receive value.
#[derive(Clone, Copy, PartialEq, Eq, Structural, Debug)]
pub enum StateMutability {
    Pure,
    View,
    Payable,
}

/// The flavour of an external call.
#[derive(Clone, Copy, PartialEq, Eq, Structural, Debug)]
pub enum CallTy {
    Regular,
    Delegate,
    Static,
}

/// What role a local variable plays, which decides the wording of an
/// unused-variable warning.
#[derive(Clone, Copy, PartialEq, Eq, Structural, Debug)]
pub enum VariableUsage {
    Parameter,
    ReturnVariable,
    LocalVariable,
    DestructureVariable,
    TryCatchReturns,
    TryCatchErrorBytes,
    TryCatchErrorString,
    AnonymousReturnVariable,
}

/// A documentation tag attached to a declaration.
#[derive(Clone, Debug)]
pub struct Tag {
    pub tag: String,
    pub value: String,
}

/// The severity of a diagnostic.
#[derive(Clone, Copy, PartialEq, Eq, Structural, Debug)]
pub enum Level {
    Info,
    Warning,
    Error,
}

/// The class of a diagnostic.
#[derive(Clone, Copy, PartialEq, Eq, Structural, Debug)]
pub enum ErrorType {
    SyntaxError,
    TypeError,
    Warning,
}

/// A secondary location attached to a diagnostic.
#[derive(Clone, Debug)]
pub struct Note {
    pub loc: Loc,
    pub message: String,
}

/// One message the compiler reports to the user.
#[derive(Clone, Debug)]
pub struct Diagnostic {
    pub level: Level,
    pub ty: ErrorType,
    pub pos: Option<Loc>,
    pub message: String,
    pub notes: Vec<Note>,
}

/// A builtin the semantic pass resolved a call to.
#[derive(Clone, Copy, PartialEq, Eq, Structural, Debug)]
pub enum Builtin {
    ArrayPush,
    ArrayPop,
    ArrayLength,
    Print,
    Blake2b256,
}

/// The typed expression tree the semantic pass hands to lowering and to
/// the usage checks. Variable references carry the offset of the binding
/// they resolve to.
pub enum Expression {
    BoolLiteral(Loc, bool),
    NumberLiteral(Loc, Type, u128),
    StorageVariable(Loc, Type, usize, usize),
    Variable(Loc, Type, usize),
    ConstantVariable(Loc, Type, Option<usize>, usize),
    StructMember(Loc, Type, Box<Expression>, usize),
    Subscript(Loc, Type, Box<Expression>, Box<Expression>),
    DynamicArraySubscript(Loc, Type, Box<Expression>, Box<Expression>),
    StorageBytesSubscript(Loc, Box<Expression>, Box<Expression>),
    DynamicArrayLength(Loc, Box<Expression>),
    StorageArrayLength { loc: Loc, ty: Type, array: Box<Expression>, elem_ty: Type },
    StorageLoad(Loc, Type, Box<Expression>),
    SignExt(Loc, Type, Box<Expression>),
    ZeroExt(Loc, Type, Box<Expression>),
    Trunc(Loc, Type, Box<Expression>),
    Cast(Loc, Type, Box<Expression>),
    BytesCast(Loc, Type, Type, Box<Expression>),
    InternalFunctionCall {
        loc: Loc,
        returns: Vec<Type>,
        function: Box<Expression>,
        args: Vec<Expression>,
    },
    ExternalFunctionCall {
        loc: Loc,
        returns: Vec<Type>,
        function: Box<Expression>,
        args: Vec<Expression>,
        value: Box<Expression>,
        gas: Box<Expression>,
    },
    Constructor {
        loc: Loc,
        contract_no: usize,
        constructor_no: Option<usize>,
        args: Vec<Expression>,
        gas: Box<Expression>,
        value: Option<Box<Expression>>,
        salt: Option<Box<Expression>>,
        space: Option<Box<Expression>>,
    },
    ExternalFunctionCallRaw {
        loc: Loc,
        ty: CallTy,
        address: Box<Expression>,
        args: Box<Expression>,
        value: Box<Expression>,
        gas: Box<Expression>,
    },
    ExternalFunction { loc: Loc, ty: Type, address: Box<Expression>, function_no: usize },
    Builtin(Loc, Vec<Type>, Builtin, Vec<Expression>),
    DynamicArrayPush(Loc, Box<Expression>, Type, Box<Expression>),
    DynamicArrayPop(Loc, Box<Expression>, Type),
}

/// A statement of a function body; the usage checks only inspect returns.
pub enum Statement {
    VariableDecl(Loc, usize, Parameter, Option<Box<Expression>>),
    Expression(Loc, bool, Expression),
    Return(Loc, Vec<Expression>),
}

/// A local variable of a function's symbol table.
pub struct SymtableVariable {
    pub id: Identifier,
    pub ty: Type,
    pub read: bool,
    pub assigned: bool,
    pub usage_type: VariableUsage,
}

/// The symbol table of the function under check; variable references in
/// expressions index into it.
pub struct Symtable {
    pub vars: Vec<SymtableVariable>,
}

/// A storage variable or a file-level constant.
pub struct Variable {
    pub name: String,
    pub loc: Loc,
    pub ty: Type,
    pub read: bool,
    pub assigned: bool,
}

/// A resolved function.
pub struct Function {
    pub name: String,
    pub loc: Loc,
    pub ty: FunctionTy,
    pub params: Vec<Parameter>,
    pub returns: Vec<Parameter>,
    pub visibility: Visibility,
    pub mutability: Option<StateMutability>,
    pub selector: u32,
    pub tags: Vec<Tag>,
    pub is_accessor: bool,
    pub body: Vec<Statement>,
}

impl Function {
    pub fn is_constructor(&self) -> (r: bool)
        ensures
            r == (self.ty == FunctionTy::Constructor),
    {
        match self.ty {
            FunctionTy::Constructor => true,
            _ => false,
        }
    }
}

/// One slot of a contract's storage layout.
pub struct Layout {
    pub slot: u128,
    pub contract_no: usize,
    pub var_no: usize,
}

/// A resolved event declaration.
pub struct EventDecl {
    pub name: String,
    pub loc: Loc,
    pub fields: Vec<Parameter>,
    pub anonymous: bool,
    pub used: bool,
    pub tags: Vec<Tag>,
}

/// A resolved struct declaration.
pub struct StructDecl {
    pub name: String,
    pub contract: Option<String>,
    pub fields: Vec<Parameter>,
}

/// A resolved enum declaration: names with their discriminants.
pub struct EnumDecl {
    pub name: String,
    pub contract: Option<String>,
    pub values: Vec<(String, usize)>,
}

/// A resolved contract.
pub struct Contract {
    pub name: String,
    pub tags: Vec<Tag>,
    pub layout: Vec<Layout>,
    pub variables: Vec<Variable>,
    pub functions: Vec<Function>,
    pub all_functions: Vec<(usize, usize)>,
    pub default_constructor: Option<Function>,
    pub is_library: bool,
    pub sends_events: Vec<usize>,
}

/// The fully resolved compilation unit: the read-only context every
/// lowering step receives, plus the diagnostics accumulator.
pub struct Namespace {
    pub target: Target,
    pub next_id: usize,
    pub address_length: usize,
    pub value_length: usize,
    pub contracts: Vec<Contract>,
    pub functions: Vec<Function>,
    pub events: Vec<EventDecl>,
    pub structs: Vec<StructDecl>,
    pub enums: Vec<EnumDecl>,
    pub constants: Vec<Variable>,
    pub diagnostics: Vec<Diagnostic>,
}

/// The compilation target; it fixes the selector width the dispatcher
/// reads from a call buffer.
#[derive(Clone, Copy, PartialEq, Eq, Structural, Debug)]
pub enum Target {
    Substrate,
    Solana,
}

impl Target {
    /// How many bytes of the call input hold the function selector.
    pub fn selector_length(&self) -> (r: u8)
        ensures
            r == self.spec_selector_length(),
            r > 0,
    {
        match self {
            Target::Substrate => 4,
            Target::Solana => 8,
        }
    }

    pub open spec fn spec_selector_length(&self) -> u8 {
        match self {
            Target::Substrate => 4,
            Target::Solana => 8,
        }
    }
}

} // verus!
