//! The token-oriented backend for enum definitions. `gen` renders a
//! classified enum shape as source constructs: a transparent wrapper type (or
//! a raw alias in minimal system mode), its constants — associated values on
//! the type when scoped, free module-level values otherwise — capability
//! markers, bitwise operators and the membership predicate for flags enums,
//! and a runtime-type signature for runtime-marked definitions, each guarded
//! by the definition's configuration requirement set.

use vstd::prelude::*;

use crate::cfg::{cfg_member, type_def_cfg};
use crate::meta::{PrimitiveKind, Reader, TypeDef};
use crate::resolve::{
    lemma_dv_seq_index, prim_name, spec_prim_name, spec_resolve, TypeExpression, TypeExpressionV,
};
use crate::shape::{
    emit_enum, enum_def_emittable, enum_shape_matches, first_instance, literal_fields, push_value,
    spec_value_text, EnumShape,
};
use crate::text::{dec_str, push_dec, spec_feature_of, str_same, str_lt, views_of};
use crate::tokens::TokenStream;

verus! {

broadcast use vstd::std_specs::vec::group_vec_axioms, vstd::seq_lib::group_seq_properties;

/// The shared context of one token-backend run: the metadata snapshot, the
/// namespace being emitted, and the two documented configuration toggles —
/// `sys` suppresses high-level wrapper ergonomics (raw aliases and plain
/// constants), `minimal` suppresses derived-capability emission.
pub struct Gen<'a> {
    pub reader: &'a Reader,
    pub namespace: &'a str,
    pub sys: bool,
    pub minimal: bool,
}

/// Repeated step-up tokens.
pub open spec fn spec_supers(n: nat) -> Seq<char>
    decreases n,
{
    if n == 0 {
        Seq::empty()
    } else {
        spec_supers((n - 1) as nat) + "super::"@
    }
}

/// Step-down path components, each followed by the path separator.
pub open spec fn spec_downs(downs: Seq<Seq<char>>) -> Seq<char>
    decreases downs.len(),
{
    if downs.len() == 0 {
        Seq::empty()
    } else {
        spec_downs(downs.drop_last()) + downs.last() + "::"@
    }
}

/// A comma-separated generic argument list.
pub open spec fn spec_generic_list(gs: Seq<TypeExpressionV>) -> Seq<char>
    decreases gs, 1int,
{
    if gs.len() == 0 {
        Seq::empty()
    } else if gs.len() == 1 {
        spec_type_text(gs[0])
    } else {
        spec_generic_list(gs.drop_last()) + ", "@ + spec_type_text(gs.last())
    }
}

/// The textual notation of a resolved type expression.
pub open spec fn spec_type_text(e: TypeExpressionV) -> Seq<char>
    decreases e, 2int,
{
    match e {
        TypeExpressionV::Primitive(k) => spec_prim_name(k),
        TypeExpressionV::Pointer { mutable, inner } => (if mutable {
            "*mut "@
        } else {
            "*const "@
        }) + spec_type_text(*inner),
        TypeExpressionV::Array { inner, len } => "["@ + spec_type_text(*inner) + "; "@ + dec_str(
            len as nat,
        ) + "]"@,
        TypeExpressionV::Named { ups, downs, name, generics } => spec_supers(ups) + spec_downs(
            downs,
        ) + name + (if generics.len() == 0 {
            Seq::<char>::empty()
        } else {
            "<"@ + spec_generic_list(generics) + ">"@
        }),
    }
}

/// Appends the textual notation of a type expression.
#[verifier::rlimit(100)]
pub fn push_type_expr(out: &mut TokenStream, e: &TypeExpression)
    ensures
        final(out)@ == old(out)@ + spec_type_text(e.dv()),
    decreases *e,
{
    match e {
        TypeExpression::Primitive(k) => {
            out.push_str(prim_name(*k));
        },
        TypeExpression::Pointer { mutable, inner } => {
            if *mutable {
                out.push_str("*mut ");
            } else {
                out.push_str("*const ");
            }
            push_type_expr(out, inner);
        },
        TypeExpression::Array { inner, len } => {
            out.push_str("[");
            push_type_expr(out, inner);
            out.push_str("; ");
            let mut num = String::new();
            push_dec(&mut num, *len as u64);
            out.push_str(num.as_str());
            out.push_str("]");
        },
        TypeExpression::Named { qualifier, name, generics } => {
            let ghost at_entry = out@;
            let mut i: usize = 0;
            #[verifier::loop_isolation(false)]
            while i < qualifier.ups
                invariant
                    i <= qualifier.ups,
                    out@ == at_entry + spec_supers(i as nat),
                decreases qualifier.ups - i,
            {
                out.push_str("super::");
                i += 1;
            }
            let nd = qualifier.downs.len();
            let mut d: usize = 0;
            #[verifier::loop_isolation(false)]
            while d < nd
                invariant
                    d <= nd,
                    out@ == at_entry + spec_supers(qualifier.ups as nat) + spec_downs(
                        views_of(qualifier.downs@.take(d as int)),
                    ),
                decreases nd - d,
            {
                out.push_str(qualifier.downs[d].as_str());
                out.push_str("::");
                proof {
                    let taken = views_of(qualifier.downs@.take(d as int + 1));
                    assert(taken.drop_last() =~= views_of(qualifier.downs@.take(d as int)));
                    assert(taken.last() == qualifier.downs@[d as int]@);
                }
                d += 1;
            }
            proof {
                assert(views_of(qualifier.downs@.take(nd as int)) =~= views_of(qualifier.downs@));
            }
            out.push_str(name.as_str());
            let ng = generics.len();
            proof {
                lemma_dv_seq_index(generics@);
            }
            if ng > 0 {
                out.push_str("<");
                let mut gi: usize = 0;
                #[verifier::loop_isolation(false)]
                while gi < ng
                    invariant
                        0 < ng == generics@.len(),
                        gi <= ng,
                        out@ == at_entry + spec_supers(qualifier.ups as nat) + spec_downs(
                            views_of(qualifier.downs@),
                        ) + name@ + "<"@ + spec_generic_list(
                            TypeExpression::dv_seq(generics@).take(gi as int),
                        ),
                    decreases ng - gi,
                {
                    if gi > 0 {
                        out.push_str(", ");
                    }
                    proof {
                        assert(decreases_to!(*e => (*e)->generics));
                        assert(decreases_to!((*e)->generics => (*e)->generics@));
                        vstd::seq::axiom_seq_index_decreases::<TypeExpression>(
                            generics@,
                            gi as int,
                        );
                        assert(decreases_to!(*e => generics@[gi as int]));
                    }
                    push_type_expr(out, &generics[gi]);
                    proof {
                        let taken = TypeExpression::dv_seq(generics@).take(gi as int + 1);
                        assert(taken.drop_last() =~= TypeExpression::dv_seq(generics@).take(
                            gi as int,
                        ));
                        assert(taken.last() == generics@[gi as int].dv());
                    }
                    gi += 1;
                }
                out.push_str(">");
                proof {
                    assert(TypeExpression::dv_seq(generics@).take(ng as int)
                        =~= TypeExpression::dv_seq(generics@));
                }
            }
            proof {
                assert(e.dv() matches TypeExpressionV::Named { ups, downs, name: nm, generics: gs }
                    && ups == qualifier.ups as nat && downs == views_of(qualifier.downs@) && nm
                    == name@ && gs == TypeExpression::dv_seq(generics@));
            }
        },
    }
}

/// One requirement set entry as it appears in the documentation line.
pub open spec fn spec_doc_item(f: Seq<char>) -> Seq<char> {
    "`\""@ + f + "\"`"@
}

pub open spec fn spec_doc_list(g: Seq<Seq<char>>) -> Seq<char>
    decreases g.len(),
{
    if g.len() == 0 {
        Seq::empty()
    } else if g.len() == 1 {
        spec_doc_item(g[0])
    } else {
        spec_doc_list(g.drop_last()) + ", "@ + spec_doc_item(g.last())
    }
}

/// The documentation attribute naming every feature of the requirement set.
pub open spec fn spec_doc_text(g: Seq<Seq<char>>) -> Seq<char> {
    "#[doc = \"*Required features: "@ + spec_doc_list(g) + "*\"]\n"@
}

pub open spec fn spec_cfg_item(f: Seq<char>) -> Seq<char> {
    "feature = \""@ + f + "\""@
}

pub open spec fn spec_cfg_list(g: Seq<Seq<char>>) -> Seq<char>
    decreases g.len(),
{
    if g.len() == 0 {
        Seq::empty()
    } else if g.len() == 1 {
        spec_cfg_item(g[0])
    } else {
        spec_cfg_list(g.drop_last()) + ", "@ + spec_cfg_item(g.last())
    }
}

/// The conditional-compilation attribute over the requirement set entries beyond the
/// emitting namespace's own feature: absent when empty, a single feature
/// test, or a conjunction.
pub open spec fn spec_features_text(g: Seq<Seq<char>>) -> Seq<char> {
    if g.len() == 0 {
        Seq::empty()
    } else if g.len() == 1 {
        "#[cfg("@ + spec_cfg_item(g[0]) + ")]\n"@
    } else {
        "#[cfg(all("@ + spec_cfg_list(g) + "))]\n"@
    }
}

/// Appends the documentation line for a requirement set.
fn push_doc(out: &mut TokenStream, reqs: &Vec<String>)
    ensures
        final(out)@ == old(out)@ + spec_doc_text(views_of(reqs@)),
{
    out.push_str("#[doc = \"*Required features: ");
    let n = reqs.len();
    let mut i: usize = 0;
    #[verifier::loop_isolation(false)]
    while i < n
        invariant
            i <= n == reqs@.len(),
            out@ == old(out)@ + "#[doc = \"*Required features: "@ + spec_doc_list(
                views_of(reqs@.take(i as int)),
            ),
        decreases n - i,
    {
        if i > 0 {
            out.push_str(", ");
        }
        out.push_str("`\"");
        out.push_str(reqs[i].as_str());
        out.push_str("\"`");
        proof {
            let taken = views_of(reqs@.take(i as int + 1));
            assert(taken.drop_last() =~= views_of(reqs@.take(i as int)));
            assert(taken.last() == reqs@[i as int]@);
        }
        i += 1;
    }
    proof {
        assert(views_of(reqs@.take(n as int)) =~= views_of(reqs@));
    }
    out.push_str("*\"]\n");
}

/// Appends the conditional-compilation attribute for the requirement set entries other
/// than the emitting namespace's own feature.
fn push_features(out: &mut TokenStream, rest: &Vec<String>)
    ensures
        final(out)@ == old(out)@ + spec_features_text(views_of(rest@)),
{
    let n = rest.len();
    if n == 0 {
        proof {
            assert(views_of(rest@) =~= Seq::<Seq<char>>::empty());
            assert(out@ =~= out@ + spec_features_text(views_of(rest@)));
        }
        return ;
    }
    if n == 1 {
        out.push_str("#[cfg(");
        out.push_str("feature = \"");
        out.push_str(rest[0].as_str());
        out.push_str("\"");
        out.push_str(")]\n");
        proof {
            assert(views_of(rest@)[0] == rest@[0]@);
            assert(out@ =~= old(out)@ + spec_features_text(views_of(rest@)));
        }
        return ;
    }
    out.push_str("#[cfg(all(");
    let mut i: usize = 0;
    #[verifier::loop_isolation(false)]
    while i < n
        invariant
            i <= n == rest@.len(),
            out@ == old(out)@ + "#[cfg(all("@ + spec_cfg_list(views_of(rest@.take(i as int))),
        decreases n - i,
    {
        if i > 0 {
            out.push_str(", ");
        }
        out.push_str("feature = \"");
        out.push_str(rest[i].as_str());
        out.push_str("\"");
        proof {
            let taken = views_of(rest@.take(i as int + 1));
            assert(taken.drop_last() =~= views_of(rest@.take(i as int)));
            assert(taken.last() == rest@[i as int]@);
        }
        i += 1;
    }
    proof {
        assert(views_of(rest@.take(n as int)) =~= views_of(rest@));
    }
    out.push_str("))]\n");
}

/// The associated-constant lines of a scoped enum.
pub open spec fn spec_scoped_consts(lits: Seq<crate::meta::Field>) -> Seq<char>
    decreases lits.len(),
{
    if lits.len() == 0 {
        Seq::empty()
    } else {
        spec_scoped_consts(lits.drop_last()) + "    pub const "@ + lits.last().name@
            + ": Self = Self("@ + spec_value_text(lits.last().constant->Some_0@) + ");\n"@
    }
}

/// The free module-level constant lines of an unscoped enum.
pub open spec fn spec_free_consts(
    lits: Seq<crate::meta::Field>,
    doc: Seq<char>,
    feats: Seq<char>,
    ident: Seq<char>,
    sys: bool,
) -> Seq<char>
    decreases lits.len(),
{
    if lits.len() == 0 {
        Seq::empty()
    } else {
        spec_free_consts(lits.drop_last(), doc, feats, ident, sys) + doc + feats + "pub const "@
            + lits.last().name@ + ": "@ + ident + " = "@ + (if sys {
            spec_value_text(lits.last().constant->Some_0@)
        } else {
            ident + "("@ + spec_value_text(lits.last().constant->Some_0@) + ")"@
        }) + ";\n"@
    }
}

/// The head of the emission: the gated wrapper type, or the raw alias in
/// minimal system mode.
#[verifier::opaque]
pub open spec fn spec_head_text(
    scoped: bool,
    sys: bool,
    g: Seq<Seq<char>>,
    restv: Seq<Seq<char>>,
    ident: Seq<char>,
    u: Seq<char>,
) -> Seq<char> {
    if scoped || !sys {
        spec_doc_text(g) + spec_features_text(restv) + "#[repr(transparent)]\n"@ + (if sys {
            Seq::<char>::empty()
        } else {
            "#[derive(::core::cmp::PartialEq, ::core::cmp::Eq)]\n"@
        }) + "pub struct "@ + ident + "(pub "@ + u + ");\n"@
    } else {
        spec_doc_text(g) + spec_features_text(restv) + "pub type "@ + ident + " = "@ + u + ";\n"@
    }
}

/// The constants of the emission: an implementation block of associated
/// values when scoped, free module-level values when unscoped and not
/// minimal, nothing otherwise.
#[verifier::opaque]
pub open spec fn spec_consts_text(
    scoped: bool,
    minimal: bool,
    sys: bool,
    g: Seq<Seq<char>>,
    restv: Seq<Seq<char>>,
    ident: Seq<char>,
    lits: Seq<crate::meta::Field>,
) -> Seq<char> {
    if scoped {
        spec_features_text(restv) + "impl "@ + ident + " {\n"@ + spec_scoped_consts(lits)
            + "}\n"@
    } else if !minimal {
        spec_free_consts(lits, spec_doc_text(g), spec_features_text(restv), ident, sys)
    } else {
        Seq::<char>::empty()
    }
}

/// The value and copy capability markers, emitted for the wrapper form and
/// never for the alias form.
#[verifier::opaque]
pub open spec fn spec_copy_clone_text(wrapper: bool, restv: Seq<Seq<char>>, ident: Seq<char>) -> Seq<
    char,
> {
    if wrapper {
        spec_features_text(restv) + "impl ::core::marker::Copy for "@ + ident + " {}\n"@
            + spec_features_text(restv) + "impl ::core::clone::Clone for "@ + ident
            + " {\n    fn clone(&self) -> Self {\n        *self\n    }\n}\n"@
    } else {
        Seq::<char>::empty()
    }
}

#[verifier::opaque]
pub open spec fn spec_default_text(sys: bool, restv: Seq<Seq<char>>, ident: Seq<char>) -> Seq<
    char,
> {
    if !sys {
        spec_features_text(restv) + "impl ::core::default::Default for "@ + ident
            + " {\n    fn default() -> Self {\n        Self(0)\n    }\n}\n"@
    } else {
        Seq::<char>::empty()
    }
}

#[verifier::opaque]
pub open spec fn spec_kind_debug_text(sys: bool, restv: Seq<Seq<char>>, ident: Seq<char>) -> Seq<
    char,
> {
    if !sys {
        spec_features_text(restv) + "impl ::windows_core::TypeKind for "@ + ident
            + " {\n    type TypeKind = ::windows_core::CopyType;\n}\n"@ + spec_features_text(
            restv,
        ) + "impl ::core::fmt::Debug for "@ + ident
            + " {\n    fn fmt(&self, f: &mut ::core::fmt::Formatter<'_>) -> ::core::fmt::Result {\n        f.debug_tuple(\""@
            + ident + "\").field(&self.0).finish()\n    }\n}\n"@
    } else {
        Seq::<char>::empty()
    }
}

/// The bitwise-operator and membership-predicate implementations of a flags
/// enum. The emitted membership predicate tests `self.0 & other.0 == other.0`.
#[verifier::opaque]
pub open spec fn spec_flags_text(on: bool, restv: Seq<Seq<char>>, ident: Seq<char>) -> Seq<char> {
    if on {
        let feats = spec_features_text(restv);
        feats + "impl "@ + ident
            + " {\n    pub fn contains(&self, other: Self) -> bool {\n        self.0 & other.0 == other.0\n    }\n}\n"@
            + feats + "impl ::core::ops::BitOr for "@ + ident
            + " {\n    type Output = Self;\n    fn bitor(self, other: Self) -> Self {\n        Self(self.0 | other.0)\n    }\n}\n"@
            + feats + "impl ::core::ops::BitAnd for "@ + ident
            + " {\n    type Output = Self;\n    fn bitand(self, other: Self) -> Self {\n        Self(self.0 & other.0)\n    }\n}\n"@
            + feats + "impl ::core::ops::BitOrAssign for "@ + ident
            + " {\n    fn bitor_assign(&mut self, other: Self) {\n        self.0 |= other.0;\n    }\n}\n"@
            + feats + "impl ::core::ops::BitAndAssign for "@ + ident
            + " {\n    fn bitand_assign(&mut self, other: Self) {\n        self.0 &= other.0;\n    }\n}\n"@
            + feats + "impl ::core::ops::Not for "@ + ident
            + " {\n    type Output = Self;\n    fn not(self) -> Self {\n        Self(!self.0)\n    }\n}\n"@
    } else {
        Seq::<char>::empty()
    }
}

/// The runtime-type implementation of a runtime-marked definition, carrying
/// the enum signature of its qualified name and underlying type.
#[verifier::opaque]
pub open spec fn spec_runtime_text(
    on: bool,
    restv: Seq<Seq<char>>,
    ident: Seq<char>,
    ns: Seq<char>,
    name: Seq<char>,
    code: Seq<char>,
) -> Seq<char> {
    if on {
        spec_features_text(restv) + "impl ::windows_core::RuntimeType for "@ + ident
            + " {\n    const SIGNATURE: ::windows_core::imp::ConstBuffer = ::windows_core::imp::ConstBuffer::from_slice(b\"enum("@
            + ns + "."@ + name + ";"@ + code + ")\");\n}\n"@
    } else {
        Seq::<char>::empty()
    }
}

/// The runtime signature code of the underlying type, for primitive
/// underlying types; other shapes contribute no code.
pub open spec fn spec_sig_code(e: TypeExpressionV) -> Seq<char> {
    match e {
        TypeExpressionV::Primitive(k) => match k {
            PrimitiveKind::Bool => "b1"@,
            PrimitiveKind::Char => "c2"@,
            PrimitiveKind::I8 => "i1"@,
            PrimitiveKind::U8 => "u1"@,
            PrimitiveKind::I16 => "i2"@,
            PrimitiveKind::U16 => "u2"@,
            PrimitiveKind::I32 => "i4"@,
            PrimitiveKind::U32 => "u4"@,
            PrimitiveKind::I64 => "i8"@,
            PrimitiveKind::U64 => "u8"@,
            PrimitiveKind::F32 => "f4"@,
            PrimitiveKind::F64 => "f8"@,
            _ => Seq::empty(),
        },
        _ => Seq::empty(),
    }
}

fn sig_code(e: &TypeExpression) -> (r: &'static str)
    ensures
        r@ == spec_sig_code(e.dv()),
{
    proof {
        reveal_strlit("");
        assert(""@ =~= Seq::<char>::empty());
    }
    match e {
        TypeExpression::Primitive(k) => match k {
            PrimitiveKind::Bool => "b1",
            PrimitiveKind::Char => "c2",
            PrimitiveKind::I8 => "i1",
            PrimitiveKind::U8 => "u1",
            PrimitiveKind::I16 => "i2",
            PrimitiveKind::U16 => "u2",
            PrimitiveKind::I32 => "i4",
            PrimitiveKind::U32 => "u4",
            PrimitiveKind::I64 => "i8",
            PrimitiveKind::U64 => "u8",
            PrimitiveKind::F32 => "f4",
            PrimitiveKind::F64 => "f8",
            _ => "",
        },
        _ => "",
    }
}

fn push_head(
    out: &mut TokenStream,
    reqs: &Vec<String>,
    rest: &Vec<String>,
    shape: &EnumShape,
    scoped: bool,
    sys: bool,
)
    ensures
        final(out)@ == old(out)@ + spec_head_text(
            scoped,
            sys,
            views_of(reqs@),
            views_of(rest@),
            shape.ident@,
            spec_type_text(shape.underlying.dv()),
        ),
{
    proof {
        reveal(spec_head_text);
    }
    push_doc(out, reqs);
    push_features(out, rest);
    if scoped || !sys {
        out.push_str("#[repr(transparent)]\n");
        if !sys {
            out.push_str("#[derive(::core::cmp::PartialEq, ::core::cmp::Eq)]\n");
        }
        out.push_str("pub struct ");
        out.push_str(shape.ident.as_str());
        out.push_str("(pub ");
        push_type_expr(out, &shape.underlying);
        out.push_str(");\n");
    } else {
        out.push_str("pub type ");
        out.push_str(shape.ident.as_str());
        out.push_str(" = ");
        push_type_expr(out, &shape.underlying);
        out.push_str(";\n");
    }
}

#[verifier::rlimit(100)]
#[verifier::spinoff_prover]
fn push_consts(
    out: &mut TokenStream,
    reqs: &Vec<String>,
    rest: &Vec<String>,
    shape: &EnumShape,
    def: &TypeDef,
    Ghost(ctx): Ghost<Seq<char>>,
    minimal: bool,
    sys: bool,
)
    requires
        enum_shape_matches(ctx, *def, *shape),
    ensures
        final(out)@ == old(out)@ + spec_consts_text(
            def.is_scoped,
            minimal,
            sys,
            views_of(reqs@),
            views_of(rest@),
            def.name@,
            literal_fields(def.fields@),
        ),
{
    proof {
        reveal(spec_consts_text);
    }
    let ghost lits = literal_fields(def.fields@);
    let ghost entry = out@;
    let ghost feats_t = spec_features_text(views_of(rest@));
    let ghost doc_t = spec_doc_text(views_of(reqs@));
    let ghost ident = def.name@;
    if def.is_scoped {
        push_features(out, rest);
        out.push_str("impl ");
        out.push_str(shape.ident.as_str());
        out.push_str(" {\n");
        let nc = shape.constants.len();
        let mut c: usize = 0;
        #[verifier::loop_isolation(false)]
        while c < nc
            invariant
                c <= nc == shape.constants@.len(),
                out@ == entry + feats_t + "impl "@ + ident + " {\n"@ + spec_scoped_consts(
                    lits.take(c as int),
                ),
            decreases nc - c,
        {
            proof {
                assert(shape.constants@[c as int].name@ == lits[c as int].name@);
            }
            out.push_str("    pub const ");
            out.push_str(shape.constants[c].name.as_str());
            out.push_str(": Self = Self(");
            let mut vs = String::new();
            push_value(&mut vs, &shape.constants[c].value);
            out.push_str(vs.as_str());
            out.push_str(");\n");
            proof {
                assert(lits.take(c as int + 1).drop_last() =~= lits.take(c as int));
                assert(lits.take(c as int + 1).last() == lits[c as int]);
                assert(out@ =~= entry + feats_t + "impl "@ + ident + " {\n"@ + spec_scoped_consts(
                    lits.take(c as int + 1),
                ));
            }
            c += 1;
        }
        out.push_str("}\n");
        proof {
            assert(lits.take(nc as int) =~= lits);
        }
    } else if !minimal {
        let nc = shape.constants.len();
        let mut c: usize = 0;
        #[verifier::loop_isolation(false)]
        while c < nc
            invariant
                c <= nc == shape.constants@.len(),
                out@ == entry + spec_free_consts(lits.take(c as int), doc_t, feats_t, ident, sys),
            decreases nc - c,
        {
            proof {
                assert(shape.constants@[c as int].name@ == lits[c as int].name@);
            }
            push_doc(out, reqs);
            push_features(out, rest);
            out.push_str("pub const ");
            out.push_str(shape.constants[c].name.as_str());
            out.push_str(": ");
            out.push_str(shape.ident.as_str());
            out.push_str(" = ");
            if sys {
                let mut vs = String::new();
                push_value(&mut vs, &shape.constants[c].value);
                out.push_str(vs.as_str());
            } else {
                out.push_str(shape.ident.as_str());
                out.push_str("(");
                let mut vs = String::new();
                push_value(&mut vs, &shape.constants[c].value);
                out.push_str(vs.as_str());
                out.push_str(")");
            }
            out.push_str(";\n");
            proof {
                assert(lits.take(c as int + 1).drop_last() =~= lits.take(c as int));
                assert(lits.take(c as int + 1).last() == lits[c as int]);
                assert(out@ =~= entry + spec_free_consts(
                    lits.take(c as int + 1),
                    doc_t,
                    feats_t,
                    ident,
                    sys,
                ));
            }
            c += 1;
        }
        proof {
            assert(lits.take(nc as int) =~= lits);
        }
    }
}

fn push_copy_clone(out: &mut TokenStream, rest: &Vec<String>, shape: &EnumShape, wrapper: bool)
    ensures
        final(out)@ == old(out)@ + spec_copy_clone_text(wrapper, views_of(rest@), shape.ident@),
{
    proof {
        reveal(spec_copy_clone_text);
    }
    if wrapper {
        push_features(out, rest);
        out.push_str("impl ::core::marker::Copy for ");
        out.push_str(shape.ident.as_str());
        out.push_str(" {}\n");
        push_features(out, rest);
        out.push_str("impl ::core::clone::Clone for ");
        out.push_str(shape.ident.as_str());
        out.push_str(" {\n    fn clone(&self) -> Self {\n        *self\n    }\n}\n");
    }
}

fn push_default(out: &mut TokenStream, rest: &Vec<String>, shape: &EnumShape, sys: bool)
    ensures
        final(out)@ == old(out)@ + spec_default_text(sys, views_of(rest@), shape.ident@),
{
    proof {
        reveal(spec_default_text);
    }
    if !sys {
        push_features(out, rest);
        out.push_str("impl ::core::default::Default for ");
        out.push_str(shape.ident.as_str());
        out.push_str(" {\n    fn default() -> Self {\n        Self(0)\n    }\n}\n");
    }
}

fn push_kind_debug(out: &mut TokenStream, rest: &Vec<String>, shape: &EnumShape, sys: bool)
    ensures
        final(out)@ == old(out)@ + spec_kind_debug_text(sys, views_of(rest@), shape.ident@),
{
    proof {
        reveal(spec_kind_debug_text);
    }
    if !sys {
        push_features(out, rest);
        out.push_str("impl ::windows_core::TypeKind for ");
        out.push_str(shape.ident.as_str());
        out.push_str(" {\n    type TypeKind = ::windows_core::CopyType;\n}\n");
        push_features(out, rest);
        out.push_str("impl ::core::fmt::Debug for ");
        out.push_str(shape.ident.as_str());
        out.push_str(
            " {\n    fn fmt(&self, f: &mut ::core::fmt::Formatter<'_>) -> ::core::fmt::Result {\n        f.debug_tuple(\"",
        );
        out.push_str(shape.ident.as_str());
        out.push_str("\").field(&self.0).finish()\n    }\n}\n");
    }
}

fn push_flags_ops(out: &mut TokenStream, rest: &Vec<String>, shape: &EnumShape, on: bool)
    ensures
        final(out)@ == old(out)@ + spec_flags_text(on, views_of(rest@), shape.ident@),
{
    proof {
        reveal(spec_flags_text);
    }
    if on {
        push_features(out, rest);
        out.push_str("impl ");
        out.push_str(shape.ident.as_str());
        out.push_str(
            " {\n    pub fn contains(&self, other: Self) -> bool {\n        self.0 & other.0 == other.0\n    }\n}\n",
        );
        push_features(out, rest);
        out.push_str("impl ::core::ops::BitOr for ");
        out.push_str(shape.ident.as_str());
        out.push_str(
            " {\n    type Output = Self;\n    fn bitor(self, other: Self) -> Self {\n        Self(self.0 | other.0)\n    }\n}\n",
        );
        push_features(out, rest);
        out.push_str("impl ::core::ops::BitAnd for ");
        out.push_str(shape.ident.as_str());
        out.push_str(
            " {\n    type Output = Self;\n    fn bitand(self, other: Self) -> Self {\n        Self(self.0 & other.0)\n    }\n}\n",
        );
        push_features(out, rest);
        out.push_str("impl ::core::ops::BitOrAssign for ");
        out.push_str(shape.ident.as_str());
        out.push_str(
            " {\n    fn bitor_assign(&mut self, other: Self) {\n        self.0 |= other.0;\n    }\n}\n",
        );
        push_features(out, rest);
        out.push_str("impl ::core::ops::BitAndAssign for ");
        out.push_str(shape.ident.as_str());
        out.push_str(
            " {\n    fn bitand_assign(&mut self, other: Self) {\n        self.0 &= other.0;\n    }\n}\n",
        );
        push_features(out, rest);
        out.push_str("impl ::core::ops::Not for ");
        out.push_str(shape.ident.as_str());
        out.push_str(
            " {\n    type Output = Self;\n    fn not(self) -> Self {\n        Self(!self.0)\n    }\n}\n",
        );
    }
}

fn push_runtime(
    out: &mut TokenStream,
    rest: &Vec<String>,
    shape: &EnumShape,
    def: &TypeDef,
    on: bool,
)
    ensures
        final(out)@ == old(out)@ + spec_runtime_text(
            on,
            views_of(rest@),
            shape.ident@,
            def.namespace@,
            def.name@,
            spec_sig_code(shape.underlying.dv()),
        ),
{
    proof {
        reveal(spec_runtime_text);
    }
    if on {
        push_features(out, rest);
        out.push_str("impl ::windows_core::RuntimeType for ");
        out.push_str(shape.ident.as_str());
        out.push_str(
            " {\n    const SIGNATURE: ::windows_core::imp::ConstBuffer = ::windows_core::imp::ConstBuffer::from_slice(b\"enum(",
        );
        out.push_str(def.namespace.as_str());
        out.push_str(".");
        out.push_str(def.name.as_str());
        out.push_str(";");
        out.push_str(sig_code(&shape.underlying));
        out.push_str(")\");\n}\n");
    }
}

/// Whether `g` is the rendered configuration requirement set of `def`: strictly sorted,
/// duplicate-free, holding exactly the requirement set members.
pub open spec fn cfg_ok(def: TypeDef, g: Seq<Seq<char>>) -> bool {
    &&& forall|i: int, j: int| 0 <= i < j < g.len() ==> str_lt(#[trigger] g[i], #[trigger] g[j])
    &&& forall|f: Seq<char>| g.contains(f) <==> cfg_member(def, f)
}

/// The full text `gen` emits for an enum definition, given the rendered requirement set:
/// the head declaration, the constants, the capability markers, the flags
/// operators, and the runtime signature, in that order.
pub open spec fn spec_gen_text(
    sys: bool,
    minimal: bool,
    ctx: Seq<char>,
    def: TypeDef,
    g: Seq<Seq<char>>,
) -> Seq<char> {
    let ident = def.name@;
    let u = spec_type_text(spec_resolve(ctx, first_instance(def.fields@)->Some_0.ty)->Ok_0);
    let restv = g.filter(|x: Seq<char>| x != spec_feature_of(ctx));
    let lits = literal_fields(def.fields@);
    let wrapper = def.is_scoped || !sys;
    spec_head_text(def.is_scoped, sys, g, restv, ident, u) + spec_consts_text(
        def.is_scoped,
        minimal,
        sys,
        g,
        restv,
        ident,
        lits,
    ) + spec_copy_clone_text(wrapper, restv, ident) + spec_default_text(sys, restv, ident)
        + spec_kind_debug_text(sys, restv, ident) + spec_flags_text(!sys && def.is_flags, restv, ident)
        + spec_runtime_text(
        !sys && def.is_winrt,
        restv,
        ident,
        def.namespace@,
        def.name@,
        spec_sig_code(spec_resolve(ctx, first_instance(def.fields@)->Some_0.ty)->Ok_0),
    )
}

/// What `gen` promises of its output: there is a rendered requirement set of the
/// definition — unique, being sorted with exact membership — under which the
/// output is exactly the specified text.
pub open spec fn gen_post(
    sys: bool,
    minimal: bool,
    ctx: Seq<char>,
    def: TypeDef,
    out: Seq<char>,
) -> bool {
    exists|g: Seq<Seq<char>>| #[trigger] cfg_ok(def, g) && out == spec_gen_text(
        sys,
        minimal,
        ctx,
        def,
        g,
    )
}

/// Renders one enum definition as a token stream. The definition must be
/// emittable: its underlying type resolves and every literal field carries a
/// constant value (the shape emitter reports all other definitions).
pub fn gen(cx: &Gen, def: &TypeDef) -> (r: TokenStream)
    requires
        enum_def_emittable(cx.namespace@, *def),
    ensures
        gen_post(cx.sys, cx.minimal, cx.namespace@, *def, r@),
{
    let shape = match emit_enum(cx.namespace, def) {
        Result::Ok(shape) => shape,
        Result::Err(_) => {
            proof {
                assert(false);
            }
            vstd::pervasive::unreached()
        },
    };
    let reqs = type_def_cfg(def);
    let ownf = crate::text::feature_of(cx.namespace);
    let mut rest: Vec<String> = Vec::new();
    let n = reqs.len();
    let mut i: usize = 0;
    #[verifier::loop_isolation(false)]
    while i < n
        invariant
            i <= n == reqs@.len(),
            views_of(rest@) =~= views_of(reqs@.take(i as int)).filter(
                |x: Seq<char>| x != spec_feature_of(cx.namespace@),
            ),
        decreases n - i,
    {
        proof {
            assert(reqs@.take(i as int + 1) =~= reqs@.take(i as int).push(reqs@[i as int]));
            crate::text::lemma_filter_push_views(
                views_of(reqs@.take(i as int)),
                |x: Seq<char>| x != spec_feature_of(cx.namespace@),
                reqs@[i as int]@,
            );
            assert(views_of(reqs@.take(i as int).push(reqs@[i as int])) =~= views_of(
                reqs@.take(i as int),
            ).push(reqs@[i as int]@));
        }
        if !str_same(reqs[i].as_str(), ownf.as_str()) {
            let ghost before = rest@;
            rest.push(reqs[i].clone());
            proof {
                assert(views_of(rest@) =~= views_of(before).push(reqs@[i as int]@));
            }
        }
        i += 1;
    }
    proof {
        assert(reqs@.take(n as int) =~= reqs@);
    }
    let ghost gv = views_of(reqs@);
    let ghost restv = views_of(rest@);
    let ghost ctx = cx.namespace@;
    proof {
        assert(enum_shape_matches(ctx, *def, shape));
        assert(restv == gv.filter(|x: Seq<char>| x != spec_feature_of(ctx)));
    }
    let mut out = TokenStream::new();
    push_head(&mut out, &reqs, &rest, &shape, def.is_scoped, cx.sys);
    push_consts(&mut out, &reqs, &rest, &shape, def, Ghost(ctx), cx.minimal, cx.sys);
    push_copy_clone(&mut out, &rest, &shape, def.is_scoped || !cx.sys);
    push_default(&mut out, &rest, &shape, cx.sys);
    push_kind_debug(&mut out, &rest, &shape, cx.sys);
    push_flags_ops(&mut out, &rest, &shape, !cx.sys && def.is_flags);
    push_runtime(&mut out, &rest, &shape, def, !cx.sys && def.is_winrt);
    proof {
        assert(cfg_ok(*def, gv));
        assert(shape.ident@ == def.name@);
        assert(shape.underlying.dv() == spec_resolve(
            ctx,
            first_instance(def.fields@)->Some_0.ty,
        )->Ok_0);
        assert(out@ =~= spec_gen_text(cx.sys, cx.minimal, ctx, *def, gv));
    }
    out
}

/// The semantics of the emitted flags membership predicate.
pub open spec fn spec_flags_contains(a: u64, b: u64) -> bool {
    a & b == b
}

/// The membership predicate a flags enum gains: whether every bit of `other`
/// is set in `self`.
pub fn flags_contains(a: u64, b: u64) -> (r: bool)
    ensures
        r == spec_flags_contains(a, b),
{
    a & b == b
}

/// A value always contains each of its combinands: `contains(a | b, a)`.
pub proof fn lemma_flags_contains_or(a: u64, b: u64)
    ensures
        spec_flags_contains(a | b, a),
{
    assert((a | b) & a == a) by (bit_vector);
}

/// A value never contains a bit it lacks: whenever `b` has a bit not set in
/// `a`, `contains(a, b)` is false.
pub proof fn lemma_flags_contains_missing_bit(a: u64, b: u64)
    requires
        b & !a != 0,
    ensures
        !spec_flags_contains(a, b),
{
    assert(b & !a != 0 ==> a & b != b) by (bit_vector);
}

/// Determinism of the token backend: any two outputs that meet `gen`'s
/// contract for the same definition and configuration are byte-identical —
/// the rendered requirement set is unique because it is sorted with exact membership.
pub proof fn lemma_gen_deterministic(
    sys: bool,
    minimal: bool,
    ctx: Seq<char>,
    def: TypeDef,
    out1: Seq<char>,
    out2: Seq<char>,
)
    requires
        gen_post(sys, minimal, ctx, def, out1),
        gen_post(sys, minimal, ctx, def, out2),
    ensures
        out1 == out2,
{
    let g1 = choose|g: Seq<Seq<char>>| #[trigger]
        cfg_ok(def, g) && out1 == spec_gen_text(sys, minimal, ctx, def, g);
    let g2 = choose|g: Seq<Seq<char>>| #[trigger]
        cfg_ok(def, g) && out2 == spec_gen_text(sys, minimal, ctx, def, g);
    crate::text::lemma_sorted_same_members(g1, g2);
}

} // verus!
