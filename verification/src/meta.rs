//! The metadata snapshot model: namespaces, type definitions, fields and
//! constants, together with the inclusion filter and the structural-kind
//! classifier. The snapshot is a read-only value supplied by the caller and
//! stable for the duration of one generation run.

use vstd::prelude::*;

use crate::text::str_same;

verus! {

/// A namespace-qualified type name.
#[derive(Clone, Debug)]
pub struct TypeName {
    pub namespace: String,
    pub name: String,
}

/// The closed set of primitive kinds the generator understands. `Char` is a
/// 16-bit code unit in the target notation.
#[derive(Clone, Copy, Debug, PartialEq, Eq, Structural)]
pub enum PrimitiveKind {
    Void,
    Bool,
    Char,
    I8,
    U8,
    I16,
    U16,
    I32,
    U32,
    I64,
    U64,
    F32,
    F64,
    ISize,
    USize,
}

/// Maps a raw metadata primitive tag to its kind. Tags outside the closed set
/// have no mapping and make the resolver abort with an unsupported-construct
/// error.
pub open spec fn spec_primitive_of(tag: u32) -> Option<PrimitiveKind> {
    if tag == 0 {
        Some(PrimitiveKind::Void)
    } else if tag == 1 {
        Some(PrimitiveKind::Bool)
    } else if tag == 2 {
        Some(PrimitiveKind::Char)
    } else if tag == 3 {
        Some(PrimitiveKind::I8)
    } else if tag == 4 {
        Some(PrimitiveKind::U8)
    } else if tag == 5 {
        Some(PrimitiveKind::I16)
    } else if tag == 6 {
        Some(PrimitiveKind::U16)
    } else if tag == 7 {
        Some(PrimitiveKind::I32)
    } else if tag == 8 {
        Some(PrimitiveKind::U32)
    } else if tag == 9 {
        Some(PrimitiveKind::I64)
    } else if tag == 10 {
        Some(PrimitiveKind::U64)
    } else if tag == 11 {
        Some(PrimitiveKind::F32)
    } else if tag == 12 {
        Some(PrimitiveKind::F64)
    } else if tag == 13 {
        Some(PrimitiveKind::ISize)
    } else if tag == 14 {
        Some(PrimitiveKind::USize)
    } else {
        None
    }
}

pub fn primitive_of(tag: u32) -> (r: Option<PrimitiveKind>)
    ensures
        r == spec_primitive_of(tag),
{
    if tag == 0 {
        Some(PrimitiveKind::Void)
    } else if tag == 1 {
        Some(PrimitiveKind::Bool)
    } else if tag == 2 {
        Some(PrimitiveKind::Char)
    } else if tag == 3 {
        Some(PrimitiveKind::I8)
    } else if tag == 4 {
        Some(PrimitiveKind::U8)
    } else if tag == 5 {
        Some(PrimitiveKind::I16)
    } else if tag == 6 {
        Some(PrimitiveKind::U16)
    } else if tag == 7 {
        Some(PrimitiveKind::I32)
    } else if tag == 8 {
        Some(PrimitiveKind::U32)
    } else if tag == 9 {
        Some(PrimitiveKind::I64)
    } else if tag == 10 {
        Some(PrimitiveKind::U64)
    } else if tag == 11 {
        Some(PrimitiveKind::F32)
    } else if tag == 12 {
        Some(PrimitiveKind::F64)
    } else if tag == 13 {
        Some(PrimitiveKind::ISize)
    } else if tag == 14 {
        Some(PrimitiveKind::USize)
    } else {
        None
    }
}

/// A semantic type reference as recorded in the metadata snapshot: a raw
/// primitive tag, a pointer, a fixed-length array, or a reference to a named
/// type definition with optional generic arguments.
#[derive(Debug)]
pub enum TypeRef {
    Primitive(u32),
    MutPtr(Box<TypeRef>),
    ConstPtr(Box<TypeRef>),
    Array(Box<TypeRef>, u32),
    Named { namespace: String, name: String, generics: Vec<TypeRef> },
}

/// A constant value attached to a literal field.
#[derive(Debug)]
pub enum Value {
    I8(i8),
    U8(u8),
    I16(i16),
    U16(u16),
    I32(i32),
    U32(u32),
    I64(i64),
    U64(u64),
    Bool(bool),
    Str(String),
}

/// The mathematical mirror of [`Value`].
pub enum ValueV {
    I8(i8),
    U8(u8),
    I16(i16),
    U16(u16),
    I32(i32),
    U32(u32),
    I64(i64),
    U64(u64),
    Bool(bool),
    Str(Seq<char>),
}

impl View for Value {
    type V = ValueV;

    open spec fn view(&self) -> ValueV {
        match self {
            Value::I8(v) => ValueV::I8(*v),
            Value::U8(v) => ValueV::U8(*v),
            Value::I16(v) => ValueV::I16(*v),
            Value::U16(v) => ValueV::U16(*v),
            Value::I32(v) => ValueV::I32(*v),
            Value::U32(v) => ValueV::U32(*v),
            Value::I64(v) => ValueV::I64(*v),
            Value::U64(v) => ValueV::U64(*v),
            Value::Bool(v) => ValueV::Bool(*v),
            Value::Str(v) => ValueV::Str(v@),
        }
    }
}

impl Value {
    /// A copy holding the same value.
    pub fn duplicate(&self) -> (r: Value)
        ensures
            r@ == self@,
    {
        match self {
            Value::I8(v) => Value::I8(*v),
            Value::U8(v) => Value::U8(*v),
            Value::I16(v) => Value::I16(*v),
            Value::U16(v) => Value::U16(*v),
            Value::I32(v) => Value::I32(*v),
            Value::U32(v) => Value::U32(*v),
            Value::I64(v) => Value::I64(*v),
            Value::U64(v) => Value::U64(*v),
            Value::Bool(v) => Value::Bool(*v),
            Value::Str(v) => Value::Str(v.clone()),
        }
    }
}

/// One declared field. A literal field is a named constant (the enum case);
/// a non-literal field is instance data (the struct case). The two are
/// distinguished by the literal attribute flag, not by separate syntax.
#[derive(Debug)]
pub struct Field {
    pub name: String,
    pub ty: TypeRef,
    pub is_literal: bool,
    pub constant: Option<Value>,
}

/// One type definition of the snapshot.
#[derive(Debug)]
pub struct TypeDef {
    pub namespace: String,
    pub name: String,
    /// The declared base type, if any.
    pub extends: Option<TypeName>,
    /// Declared fields, in metadata declaration order.
    pub fields: Vec<Field>,
    /// Whether the definition's constants are namespaced inside the type.
    pub is_scoped: bool,
    /// Whether the definition carries the bitwise-flags marker.
    pub is_flags: bool,
    /// Whether the definition carries the runtime-type marker.
    pub is_winrt: bool,
}

/// The read-only metadata snapshot: a flat stream of type definitions.
pub struct Reader {
    pub types: Vec<TypeDef>,
}

impl Reader {
    pub fn new(types: Vec<TypeDef>) -> (r: Reader)
        ensures
            r.types == types,
    {
        Reader { types }
    }
}

/// The classification result: every definition classifies into exactly one
/// kind, with `Class` as the fallback when no other rule matches.
#[derive(Clone, Copy, Debug, PartialEq, Eq, Structural)]
pub enum TypeKind {
    Enum,
    Struct,
    Delegate,
    Class,
    Interface,
}

/// The classification rule: no base means an interface; the platform's
/// system markers select enum, struct, or delegate; anything else is a class.
pub open spec fn spec_classify(def: TypeDef) -> TypeKind {
    match def.extends {
        Option::None => TypeKind::Interface,
        Option::Some(base) => if base.namespace@ == "System"@ {
            if base.name@ == "Enum"@ {
                TypeKind::Enum
            } else if base.name@ == "ValueType"@ {
                TypeKind::Struct
            } else if base.name@ == "MulticastDelegate"@ {
                TypeKind::Delegate
            } else {
                TypeKind::Class
            }
        } else {
            TypeKind::Class
        },
    }
}

/// Determines the structural kind of a definition from its base-type
/// relationship. Total and pure: the same snapshot always classifies the
/// same way.
pub fn classify(def: &TypeDef) -> (k: TypeKind)
    ensures
        k == spec_classify(*def),
{
    match &def.extends {
        Option::None => TypeKind::Interface,
        Option::Some(base) => {
            if str_same(base.namespace.as_str(), "System") {
                if str_same(base.name.as_str(), "Enum") {
                    TypeKind::Enum
                } else if str_same(base.name.as_str(), "ValueType") {
                    TypeKind::Struct
                } else if str_same(base.name.as_str(), "MulticastDelegate") {
                    TypeKind::Delegate
                } else {
                    TypeKind::Class
                }
            } else {
                TypeKind::Class
            }
        },
    }
}

/// One inclusion or exclusion rule: a namespace prefix (or a full
/// `Namespace.TypeName`) and whether a match is kept or dropped.
#[derive(Clone, Debug)]
pub struct FilterRule {
    pub prefix: String,
    pub keep: bool,
}

/// Whether `p` applies to the qualified name `full`: either exactly, or as a
/// proper dotted prefix.
pub open spec fn rule_applies(p: Seq<char>, full: Seq<char>) -> bool {
    p == full || (p.len() < full.len() && full.take(p.len() as int) == p && full[p.len() as int]
        == '.')
}

/// The decision of the most specific applicable rule among the first rules:
/// the applicable rule with the longest prefix, later rules winning ties.
/// `None` when no rule applies.
pub open spec fn spec_decision(rules: Seq<FilterRule>, full: Seq<char>) -> Option<(nat, bool)>
    decreases rules.len(),
{
    if rules.len() == 0 {
        Option::None
    } else {
        let prev = spec_decision(rules.drop_last(), full);
        let r = rules.last();
        if rule_applies(r.prefix@, full) && (prev is None || prev->Some_0.0 <= r.prefix@.len()) {
            Option::Some((r.prefix@.len(), r.keep))
        } else {
            prev
        }
    }
}

/// Whether the filter includes the qualified name `full`. Absence of any
/// applicable rule excludes; it never errors.
pub open spec fn spec_includes(rules: Seq<FilterRule>, full: Seq<char>) -> bool {
    match spec_decision(rules, full) {
        Option::None => false,
        Option::Some((_len, keep)) => keep,
    }
}

/// An inclusion/exclusion filter: a predicate over namespaces and type
/// definitions deciding what one generation run covers.
#[derive(Clone, Debug)]
pub struct Filter {
    pub rules: Vec<FilterRule>,
}

impl Filter {
    pub fn new(rules: Vec<FilterRule>) -> (r: Filter)
        ensures
            r.rules == rules,
    {
        Filter { rules }
    }

    /// Whether a rule prefix applies to `full`.
    fn applies(p: &str, full: &str) -> (r: bool)
        ensures
            r == rule_applies(p@, full@),
    {
        if str_same(p, full) {
            return true;
        }
        let pn = p.unicode_len();
        let fn_ = full.unicode_len();
        if pn < fn_ {
            let head = full.substring_char(0, pn);
            if str_same(p, head) && full.get_char(pn) == '.' {
                return true;
            }
        }
        proof {
            if rule_applies(p@, full@) && p@ != full@ {
                assert(full@.take(p@.len() as int) == p@);
            }
        }
        false
    }

    /// Whether the filter includes the qualified name `full`.
    pub fn includes(&self, full: &str) -> (r: bool)
        ensures
            r == spec_includes(self.rules@, full@),
    {
        let n = self.rules.len();
        let mut best_len: usize = 0;
        let mut best: Option<bool> = Option::None;
        let mut i: usize = 0;
        while i < n
            invariant
                n == self.rules@.len(),
                i <= n,
                match best {
                    Option::None => spec_decision(self.rules@.take(i as int), full@) is None,
                    Option::Some(keep) => spec_decision(self.rules@.take(i as int), full@)
                        == Option::Some((best_len as nat, keep)),
                },
            decreases n - i,
        {
            let rule = &self.rules[i];
            let plen = rule.prefix.as_str().unicode_len();
            if Self::applies(rule.prefix.as_str(), full) && (best.is_none() || best_len <= plen) {
                best_len = plen;
                best = Option::Some(rule.keep);
            }
            proof {
                assert(self.rules@.take(i as int + 1).drop_last() =~= self.rules@.take(i as int));
                assert(self.rules@.take(i as int + 1).last() == self.rules@[i as int]);
            }
            i += 1;
        }
        proof {
            assert(self.rules@.take(n as int) =~= self.rules@);
        }
        match best {
            Option::None => false,
            Option::Some(keep) => keep,
        }
    }

    /// Whether the filter includes a type definition, by its qualified name.
    pub fn includes_type(&self, namespace: &str, name: &str) -> (r: bool)
        ensures
            r == spec_includes(self.rules@, namespace@ + "."@ + name@),
    {
        let mut full = String::new();
        full.append(namespace);
        full.append(".");
        full.append(name);
        self.includes(full.as_str())
    }
}

} // verus!
