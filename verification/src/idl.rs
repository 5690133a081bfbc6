//! The interface-description model backend B renders: a file of use
//! references and nested modules whose members are interfaces, structs, enums
//! and classes. Attribute, type, pattern and expression forms outside the
//! closed set the printer understands carry a description and make rendering
//! abort rather than silently emit wrong text.

use vstd::prelude::*;

verus! {

/// One rendered output file: use references, then modules.
#[derive(Debug)]
pub struct File {
    pub references: Vec<ItemUse>,
    pub modules: Vec<Module>,
}

#[derive(Debug)]
pub struct ItemUse {
    pub tree: UseTree,
}

#[derive(Debug)]
pub enum UseTree {
    Path(UsePath),
    Name(UseName),
    Other,
}

#[derive(Debug)]
pub struct UsePath {
    pub ident: String,
    pub tree: Box<UseTree>,
}

#[derive(Debug)]
pub struct UseName {
    pub ident: String,
}

#[derive(Debug)]
pub struct Module {
    pub name: String,
    pub members: Vec<ModuleMember>,
}

#[derive(Debug)]
pub enum ModuleMember {
    Module(Module),
    Interface(Interface),
    Struct(Struct),
    Enum(Enum),
    Class(Class),
}

#[derive(Debug)]
pub struct Interface {
    pub attributes: Vec<Attribute>,
    pub name: String,
    pub methods: Vec<TraitItemFn>,
}

#[derive(Debug)]
pub struct Struct {
    pub attributes: Vec<Attribute>,
    pub name: String,
    pub fields: Vec<Field>,
}

#[derive(Debug)]
pub struct Field {
    pub name: String,
    pub ty: Ty,
}

#[derive(Debug)]
pub struct Enum {
    pub attributes: Vec<Attribute>,
    pub ident: String,
    pub variants: Vec<Variant>,
}

#[derive(Debug)]
pub struct Variant {
    pub ident: String,
    pub discriminant: Option<Expr>,
}

/// Classes are present in the model but render nothing.
#[derive(Debug)]
pub struct Class {
    pub name: String,
}

#[derive(Debug)]
pub struct Attribute {
    pub meta: Meta,
}

#[derive(Debug)]
pub enum Meta {
    Path(Path),
    List(MetaList),
    /// An unsupported attribute form, with its description.
    Other(String),
}

#[derive(Debug)]
pub struct MetaList {
    pub path: Path,
    pub tokens: String,
}

#[derive(Debug)]
pub struct Path {
    pub segments: Vec<PathSegment>,
}

#[derive(Debug)]
pub struct PathSegment {
    pub ident: String,
}

#[derive(Debug)]
pub struct TraitItemFn {
    pub attrs: Vec<Attribute>,
    pub sig: Signature,
}

#[derive(Debug)]
pub struct Signature {
    pub ident: String,
    pub inputs: Vec<FnArg>,
    pub output: Option<Ty>,
}

#[derive(Debug)]
pub enum FnArg {
    Typed(PatType),
    /// A receiver argument; it renders nothing.
    Receiver,
}

#[derive(Debug)]
pub struct PatType {
    pub pat: Pat,
    pub ty: Ty,
}

#[derive(Debug)]
pub enum Pat {
    Ident(PatIdent),
    /// An unsupported pattern form, with its description.
    Other(String),
}

#[derive(Debug)]
pub struct PatIdent {
    pub ident: String,
}

#[derive(Debug)]
pub enum Ty {
    Path(TypePath),
    Ptr(TypePtr),
    Array(TypeArray),
    /// An unsupported type form, with its description.
    Other(String),
}

#[derive(Debug)]
pub struct TypePath {
    pub path: Path,
}

#[derive(Debug)]
pub struct TypePtr {
    pub mutability: bool,
    pub elem: Box<Ty>,
}

#[derive(Debug)]
pub struct TypeArray {
    pub elem: Box<Ty>,
    pub len: Expr,
}

#[derive(Debug)]
pub enum Expr {
    Lit(ExprLit),
    Unary(ExprUnary),
    /// An unsupported expression form, with its description.
    Other(String),
}

/// The operator of a unary expression: negation is the one supported form;
/// any other operator carries its description and aborts rendering.
#[derive(Debug)]
pub enum UnaryOp {
    Neg,
    Other(String),
}

#[derive(Debug)]
pub struct ExprUnary {
    pub op: UnaryOp,
    pub expr: Box<Expr>,
}

#[derive(Debug)]
pub struct ExprLit {
    pub lit: Lit,
}

#[derive(Debug)]
pub enum Lit {
    Int(String),
    Str(String),
    /// An unsupported literal form, with its description.
    Other(String),
}

} // verus!
