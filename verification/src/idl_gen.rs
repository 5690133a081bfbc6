//! The interface-description generation entry: validates the caller's
//! configuration, builds the namespace tree, and renders every included
//! definition as intermediate token text — one nested module per namespace
//! segment, a full field layout for structs, a variant list with explicit
//! discriminants for enums, and a bare stub for the remaining kinds. The run
//! aborts, producing no output text, on an invalid configuration key, a
//! malformed namespace, or an unsupported construct.

use vstd::prelude::*;

use crate::enums::{push_type_expr, spec_type_text};
use crate::meta::{spec_classify, Field, Filter, Reader, TypeDef, TypeKind};
use crate::resolve::spec_resolve;
use crate::meta::{Value, ValueV};
use crate::shape::{
    emit_enum, emit_struct, enum_shape_matches, instance_fields, literal_fields, push_signed,
    spec_emit_enum_err, spec_signed_text, struct_shape_matches,
};
use crate::text::dec_str;
use crate::tokens::TokenStream;
use crate::tree::{spec_kept, spec_malformed, Tree};
use crate::{Error, ErrorV};

verus! {

broadcast use vstd::std_specs::vec::group_vec_axioms;

/// The stub emitted for kinds whose layout this target does not spell out.
pub open spec fn spec_stub_text(name: Seq<char>) -> Seq<char> {
    "struct "@ + name + " {\n"@ + "}\n"@
}

/// The discriminant notation of an enum constant: a signed or unsigned
/// decimal for the integer kinds; other value kinds have none and abort.
pub open spec fn spec_disc_text(v: ValueV) -> Option<Seq<char>> {
    match v {
        ValueV::I8(x) => Option::Some(spec_signed_text(x as int)),
        ValueV::I16(x) => Option::Some(spec_signed_text(x as int)),
        ValueV::I32(x) => Option::Some(spec_signed_text(x as int)),
        ValueV::I64(x) => Option::Some(spec_signed_text(x as int)),
        ValueV::U8(x) => Option::Some(dec_str(x as nat)),
        ValueV::U16(x) => Option::Some(dec_str(x as nat)),
        ValueV::U32(x) => Option::Some(dec_str(x as nat)),
        ValueV::U64(x) => Option::Some(dec_str(x as nat)),
        ValueV::Bool(_) => Option::None,
        ValueV::Str(_) => Option::None,
    }
}

/// The rendered variant lines of an enum, one per literal constant in
/// declaration order, or the first constant whose value admits no
/// discriminant notation.
pub open spec fn spec_render_constants(lits: Seq<Field>) -> Result<Seq<char>, Seq<char>>
    decreases lits,
{
    if lits.len() == 0 {
        Result::Ok(Seq::empty())
    } else {
        match spec_disc_text(lits[0].constant->Some_0@) {
            Option::Some(dt) => match spec_render_constants(lits.drop_first()) {
                Result::Ok(t) => Result::Ok(
                    "    "@ + lits[0].name@ + " = "@ + dt + ",\n"@ + t,
                ),
                Result::Err(d) => Result::Err(d),
            },
            Option::None => Result::Err("enum discriminant: "@ + lits[0].name@),
        }
    }
}

/// The rendering of an enum definition: a braced variant list carrying one
/// variant per literal constant, in metadata declaration order, each with
/// its explicit discriminant. A definition the shape emitter rejects, or a
/// constant without a discriminant notation, aborts.
pub open spec fn spec_render_enum_def(def: TypeDef) -> Result<Seq<char>, Seq<char>> {
    if !crate::shape::enum_def_emittable(def.namespace@, def) {
        Result::Err(spec_emit_enum_err(def.namespace@, def))
    } else {
        match spec_render_constants(literal_fields(def.fields@)) {
            Result::Ok(t) => Result::Ok("enum "@ + def.name@ + " {\n"@ + t + "}\n"@),
            Result::Err(d) => Result::Err(d),
        }
    }
}

/// One rendered struct field line.
pub open spec fn spec_field_line(name: Seq<char>, ty: Seq<char>) -> Seq<char> {
    "    "@ + name + ": "@ + ty + ",\n"@
}

/// The rendered instance fields of a struct, or the description of the first
/// unsupported field type.
pub open spec fn spec_render_fields(inst: Seq<Field>, ctx: Seq<char>) -> Result<
    Seq<char>,
    Seq<char>,
>
    decreases inst,
{
    if inst.len() == 0 {
        Result::Ok(Seq::empty())
    } else {
        match spec_resolve(ctx, inst[0].ty) {
            Result::Ok(e) => match spec_render_fields(inst.drop_first(), ctx) {
                Result::Ok(t) => Result::Ok(
                    spec_field_line(inst[0].name@, spec_type_text(e)) + t,
                ),
                Result::Err(d) => Result::Err(d),
            },
            Result::Err(tag) => Result::Err("type kind "@ + dec_str(tag as nat)),
        }
    }
}

/// The rendering of one classified definition: a full field layout for
/// structs, a variant list for enums, a bare stub for delegates, classes
/// and interfaces.
pub open spec fn spec_render_typedef(def: TypeDef) -> Result<Seq<char>, Seq<char>> {
    if spec_classify(def) == TypeKind::Struct {
        match spec_render_fields(instance_fields(def.fields@), def.namespace@) {
            Result::Ok(f) => Result::Ok("struct "@ + def.name@ + " {\n"@ + f + "}\n"@),
            Result::Err(d) => Result::Err(d),
        }
    } else if spec_classify(def) == TypeKind::Enum {
        spec_render_enum_def(def)
    } else {
        Result::Ok(spec_stub_text(def.name@))
    }
}

/// The rendering of the definitions attached to one node, in snapshot order;
/// an index outside the snapshot contributes nothing.
pub open spec fn spec_render_types(types: Seq<usize>, reader: Reader) -> Result<
    Seq<char>,
    Seq<char>,
>
    decreases types,
{
    if types.len() == 0 {
        Result::Ok(Seq::empty())
    } else if types[0] >= reader.types@.len() {
        spec_render_types(types.drop_first(), reader)
    } else {
        match spec_render_typedef(reader.types@[types[0] as int]) {
            Result::Ok(t) => match spec_render_types(types.drop_first(), reader) {
                Result::Ok(t2) => Result::Ok(t + t2),
                Result::Err(d) => Result::Err(d),
            },
            Result::Err(d) => Result::Err(d),
        }
    }
}

/// The rendering of one namespace node: its children (sorted by segment),
/// then its own definitions, wrapped in a module — except at the root, which
/// wraps nothing.
pub open spec fn spec_render_tree(t: Tree, reader: Reader) -> Result<Seq<char>, Seq<char>>
    decreases t,
{
    match spec_render_children(t.nested@, reader) {
        Result::Ok(c) => match spec_render_types(t.types@, reader) {
            Result::Ok(ty) => Result::Ok(
                if t.namespace@.len() == 0 {
                    c + ty
                } else {
                    "mod "@ + t.segment@ + " {\n"@ + c + ty + "}\n"@
                },
            ),
            Result::Err(d) => Result::Err(d),
        },
        Result::Err(d) => Result::Err(d),
    }
}

pub open spec fn spec_render_children(ch: Seq<Tree>, reader: Reader) -> Result<
    Seq<char>,
    Seq<char>,
>
    decreases ch,
{
    if ch.len() == 0 {
        Result::Ok(Seq::empty())
    } else {
        match spec_render_tree(ch[0], reader) {
            Result::Ok(t) => match spec_render_children(ch.drop_first(), reader) {
                Result::Ok(t2) => Result::Ok(t + t2),
                Result::Err(d) => Result::Err(d),
            },
            Result::Err(d) => Result::Err(d),
        }
    }
}

/// What `Tree::new` guarantees of a successfully built tree: well-formed,
/// free of spurious nodes, every node's `types` exactly the ascending kept
/// snapshot indices of its namespace, and the attachment characterization.
pub open spec fn tree_post(t: Tree, reader: Reader, filter: Filter) -> bool {
    &&& t.wf()
    &&& t.pruned()
    &&& t.types_exact_upto(reader, &filter, reader.types@.len() as int)
    &&& t.namespace@ == Seq::<char>::empty()
    &&& forall|ns: Seq<char>, idx: usize|
        t.attaches(ns, idx) <==> (idx < reader.types@.len() && spec_kept(
            reader.types@[idx as int],
            &filter,
        ) && reader.types@[idx as int].namespace@ == ns)
}

/// The token generator over one snapshot.
struct Writer<'a> {
    reader: &'a Reader,
}

impl<'a> Writer<'a> {
    /// Renders a namespace subtree.
    #[verifier::rlimit(100)]
    #[verifier::spinoff_prover]
    fn tree(&self, t: &Tree) -> (r: Result<TokenStream, Error>)
        ensures
            r is Ok <==> spec_render_tree(*t, *self.reader) is Ok,
            r matches Result::Ok(ts) ==> spec_render_tree(*t, *self.reader) == Result::Ok::<
                Seq<char>,
                Seq<char>,
            >(ts@),
            r matches Result::Err(e) ==> spec_render_tree(*t, *self.reader) matches Result::Err(d)
                && e@ == ErrorV::Unsupported(d),
        decreases *t,
    {
        let mut body = TokenStream::new();
        let nc = t.nested.len();
        let mut i: usize = 0;
        proof {
            assert(t.nested@.skip(0) =~= t.nested@);
        }
        #[verifier::loop_isolation(false)]
        while i < nc
            invariant
                i <= nc == t.nested@.len(),
                ({
                    let whole = spec_render_children(t.nested@, *self.reader);
                    let rem = spec_render_children(t.nested@.skip(i as int), *self.reader);
                    match rem {
                        Result::Ok(tt) => whole matches Result::Ok(tw) && body@ + tt == tw,
                        Result::Err(dd) => whole == Result::Err::<Seq<char>, Seq<char>>(dd),
                    }
                }),
            decreases nc - i,
        {
            proof {
                assert(t.nested@.skip(i as int).drop_first() =~= t.nested@.skip(i as int + 1));
                assert(t.nested@.skip(i as int)[0] == t.nested@[i as int]);
                assert(decreases_to!(*t => (*t).nested));
                assert(decreases_to!((*t).nested => (*t).nested@));
                vstd::seq::axiom_seq_index_decreases::<Tree>(t.nested@, i as int);
                assert(decreases_to!(*t => t.nested@[i as int]));
            }
            match self.tree(&t.nested[i]) {
                Result::Ok(sub) => {
                    body.combine(&sub);
                },
                Result::Err(e) => {
                    return Result::Err(e);
                },
            }
            i += 1;
        }
        proof {
            assert(t.nested@.skip(nc as int) =~= Seq::<Tree>::empty());
            assert(body@ + Seq::<char>::empty() =~= body@);
        }
        let ghost children_text = spec_render_children(t.nested@, *self.reader)->Ok_0;
        proof {
            assert(body@ == children_text);
        }
        let nt = t.types.len();
        let mut k: usize = 0;
        proof {
            assert(t.types@.skip(0) =~= t.types@);
        }
        #[verifier::loop_isolation(false)]
        while k < nt
            invariant
                k <= nt == t.types@.len(),
                ({
                    let whole = spec_render_types(t.types@, *self.reader);
                    let rem = spec_render_types(t.types@.skip(k as int), *self.reader);
                    match rem {
                        Result::Ok(tt) => whole matches Result::Ok(tw) && body@ + tt
                            == children_text + tw,
                        Result::Err(dd) => whole == Result::Err::<Seq<char>, Seq<char>>(dd),
                    }
                }),
            decreases nt - k,
        {
            proof {
                assert(t.types@.skip(k as int).drop_first() =~= t.types@.skip(k as int + 1));
                assert(t.types@.skip(k as int)[0] == t.types@[k as int]);
            }
            let idx = t.types[k];
            if idx < self.reader.types.len() {
                match self.type_def(&self.reader.types[idx]) {
                    Result::Ok(sub) => {
                        body.combine(&sub);
                    },
                    Result::Err(e) => {
                        return Result::Err(e);
                    },
                }
            }
            k += 1;
        }
        proof {
            assert(t.types@.skip(nt as int) =~= Seq::<usize>::empty());
            assert(body@ + Seq::<char>::empty() =~= body@);
            assert(spec_render_types(t.types@, *self.reader) matches Result::Ok(tw) && body@
                == children_text + tw);
        }
        if t.namespace.as_str().unicode_len() == 0 {
            proof {
                assert(spec_render_tree(*t, *self.reader) == Result::Ok::<Seq<char>, Seq<char>>(
                    body@,
                ));
            }
            Result::Ok(body)
        } else {
            let mut out = TokenStream::new();
            out.push_str("mod ");
            out.push_str(t.segment.as_str());
            out.push_str(" {\n");
            out.combine(&body);
            out.push_str("}\n");
            proof {
                assert(spec_render_tree(*t, *self.reader) is Ok);
                assert(spec_render_tree(*t, *self.reader)->Ok_0 =~= out@);
            }
            Result::Ok(out)
        }
    }

    /// Classifies one definition and renders the shape of its kind.
    fn type_def(&self, def: &TypeDef) -> (r: Result<TokenStream, Error>)
        ensures
            r is Ok <==> spec_render_typedef(*def) is Ok,
            r matches Result::Ok(ts) ==> spec_render_typedef(*def) == Result::Ok::<
                Seq<char>,
                Seq<char>,
            >(ts@),
            r matches Result::Err(e) ==> spec_render_typedef(*def) matches Result::Err(d) && e@
                == ErrorV::Unsupported(d),
    {
        match crate::meta::classify(def) {
            TypeKind::Enum => self.enum_def(def),
            TypeKind::Struct => self.struct_def(def),
            TypeKind::Delegate => Result::Ok(self.delegate_def(def)),
            TypeKind::Class => Result::Ok(self.class_def(def)),
            TypeKind::Interface => Result::Ok(self.interface_def(def)),
        }
    }

    /// Renders an enum definition as a braced variant list with explicit
    /// discriminants, one variant per literal constant in declaration order.
    #[verifier::rlimit(100)]
    #[verifier::spinoff_prover]
    fn enum_def(&self, def: &TypeDef) -> (r: Result<TokenStream, Error>)
        ensures
            spec_classify(*def) == TypeKind::Enum ==> (r is Ok <==> spec_render_typedef(*def)
                is Ok),
            spec_classify(*def) == TypeKind::Enum ==> (r matches Result::Ok(ts)
                ==> spec_render_typedef(*def) == Result::Ok::<Seq<char>, Seq<char>>(ts@)),
            spec_classify(*def) == TypeKind::Enum ==> (r matches Result::Err(e) ==> (
            spec_render_typedef(*def) matches Result::Err(d) && e@ == ErrorV::Unsupported(d))),
    {
        let ghost lits = literal_fields(def.fields@);
        let shape = match emit_enum(def.namespace.as_str(), def) {
            Result::Ok(shape) => shape,
            Result::Err(e) => {
                proof {
                    assert(spec_render_enum_def(*def) == Result::Err::<Seq<char>, Seq<char>>(
                        spec_emit_enum_err(def.namespace@, *def),
                    ));
                }
                return Result::Err(e);
            },
        };
        let mut body = TokenStream::new();
        let nf = shape.constants.len();
        let mut i: usize = 0;
        proof {
            assert(lits.skip(0) =~= lits);
            assert(enum_shape_matches(def.namespace@, *def, shape));
        }
        #[verifier::loop_isolation(false)]
        while i < nf
            invariant
                i <= nf == shape.constants@.len(),
                nf == lits.len(),
                enum_shape_matches(def.namespace@, *def, shape),
                ({
                    let whole = spec_render_constants(lits);
                    let rem = spec_render_constants(lits.skip(i as int));
                    match rem {
                        Result::Ok(t) => whole matches Result::Ok(tw) && body@ + t == tw,
                        Result::Err(dd) => whole == Result::Err::<Seq<char>, Seq<char>>(dd),
                    }
                }),
            decreases nf - i,
        {
            proof {
                assert(lits.skip(i as int).drop_first() =~= lits.skip(i as int + 1));
                assert(lits.skip(i as int)[0] == lits[i as int]);
                assert(shape.constants@[i as int].name@ == lits[i as int].name@);
                assert(shape.constants@[i as int].value@ == lits[i as int].constant->Some_0@);
            }
            match Self::disc_text(&shape.constants[i].value) {
                Option::Some(dt) => {
                    let ghost b0 = body@;
                    body.push_str("    ");
                    body.push_str(shape.constants[i].name.as_str());
                    body.push_str(" = ");
                    body.push_str(dt.as_str());
                    body.push_str(",\n");
                    proof {
                        assert(body@ =~= b0 + ("    "@ + lits[i as int].name@ + " = "@ + dt@
                            + ",\n"@));
                    }
                },
                Option::None => {
                    let mut m = String::new();
                    m.append("enum discriminant: ");
                    m.append(shape.constants[i].name.as_str());
                    proof {
                        assert(spec_render_constants(lits.skip(i as int))
                            == Result::Err::<Seq<char>, Seq<char>>(
                            "enum discriminant: "@ + lits[i as int].name@,
                        ));
                    }
                    return Result::Err(Error::Unsupported(m));
                },
            }
            i += 1;
        }
        proof {
            assert(lits.skip(nf as int) =~= Seq::<Field>::empty());
            assert(body@ + Seq::<char>::empty() =~= body@);
            assert(spec_render_constants(lits) == Result::Ok::<Seq<char>, Seq<char>>(body@));
        }
        let mut out = TokenStream::new();
        out.push_str("enum ");
        out.push_str(def.name.as_str());
        out.push_str(" {\n");
        out.combine(&body);
        out.push_str("}\n");
        proof {
            assert(out@ =~= "enum "@ + def.name@ + " {\n"@ + body@ + "}\n"@);
            if spec_classify(*def) == TypeKind::Enum {
                assert(spec_render_typedef(*def) is Ok);
                assert(spec_render_typedef(*def)->Ok_0 =~= out@);
            }
        }
        Result::Ok(out)
    }

    /// The discriminant notation of one constant value, if its kind has one.
    fn disc_text(v: &Value) -> (r: Option<String>)
        ensures
            r matches Option::Some(s) ==> spec_disc_text(v@) == Option::Some(s@),
            r is None ==> spec_disc_text(v@) is None,
    {
        proof {
            reveal_strlit("");
            assert(""@ =~= Seq::<char>::empty());
        }
        match v {
            Value::I8(x) => {
                let mut s = String::new();
                push_signed(&mut s, *x as i64, "");
                proof {
                    assert(s@ =~= spec_signed_text(*x as int));
                }
                Option::Some(s)
            },
            Value::I16(x) => {
                let mut s = String::new();
                push_signed(&mut s, *x as i64, "");
                proof {
                    assert(s@ =~= spec_signed_text(*x as int));
                }
                Option::Some(s)
            },
            Value::I32(x) => {
                let mut s = String::new();
                push_signed(&mut s, *x as i64, "");
                proof {
                    assert(s@ =~= spec_signed_text(*x as int));
                }
                Option::Some(s)
            },
            Value::I64(x) => {
                let mut s = String::new();
                push_signed(&mut s, *x, "");
                proof {
                    assert(s@ =~= spec_signed_text(*x as int));
                }
                Option::Some(s)
            },
            Value::U8(x) => {
                let mut s = String::new();
                crate::text::push_dec(&mut s, *x as u64);
                Option::Some(s)
            },
            Value::U16(x) => {
                let mut s = String::new();
                crate::text::push_dec(&mut s, *x as u64);
                Option::Some(s)
            },
            Value::U32(x) => {
                let mut s = String::new();
                crate::text::push_dec(&mut s, *x as u64);
                Option::Some(s)
            },
            Value::U64(x) => {
                let mut s = String::new();
                crate::text::push_dec(&mut s, *x);
                Option::Some(s)
            },
            Value::Bool(_) => Option::None,
            Value::Str(_) => Option::None,
        }
    }

    /// Delegates are stubbed in this target.
    fn delegate_def(&self, def: &TypeDef) -> (r: TokenStream)
        ensures
            r@ == spec_stub_text(def.name@),
    {
        self.stub(def)
    }

    /// Classes are stubbed in this target.
    fn class_def(&self, def: &TypeDef) -> (r: TokenStream)
        ensures
            r@ == spec_stub_text(def.name@),
    {
        self.stub(def)
    }

    /// Interfaces are stubbed in this target.
    fn interface_def(&self, def: &TypeDef) -> (r: TokenStream)
        ensures
            r@ == spec_stub_text(def.name@),
    {
        self.stub(def)
    }

    fn stub(&self, def: &TypeDef) -> (r: TokenStream)
        ensures
            r@ == spec_stub_text(def.name@),
    {
        let mut out = TokenStream::new();
        out.push_str("struct ");
        out.push_str(def.name.as_str());
        out.push_str(" {\n");
        out.push_str("}\n");
        out
    }

    /// Renders a struct definition with its full instance-field layout, in
    /// declaration order.
    #[verifier::rlimit(100)]
    #[verifier::spinoff_prover]
    fn struct_def(&self, def: &TypeDef) -> (r: Result<TokenStream, Error>)
        ensures
            spec_classify(*def) == TypeKind::Struct ==> (r is Ok <==> spec_render_typedef(*def)
                is Ok),
            spec_classify(*def) == TypeKind::Struct ==> (r matches Result::Ok(ts)
                ==> spec_render_typedef(*def) == Result::Ok::<Seq<char>, Seq<char>>(ts@)),
            spec_classify(*def) == TypeKind::Struct ==> (r matches Result::Err(e) ==> (
            spec_render_typedef(*def) matches Result::Err(d) && e@ == ErrorV::Unsupported(d))),
    {
        let ghost inst = instance_fields(def.fields@);
        let shape = match emit_struct(def.namespace.as_str(), def) {
            Result::Ok(shape) => shape,
            Result::Err(e) => {
                proof {
                    let k = choose|k: int|
                        0 <= k < inst.len() && (forall|j: int|
                            0 <= j < k ==> spec_resolve(
                                def.namespace@,
                                (#[trigger] inst[j]).ty,
                            ) is Ok) && #[trigger] spec_resolve(def.namespace@, inst[k].ty) is Err
                            && e@ == ErrorV::Unsupported(
                            "type kind "@ + dec_str(
                                spec_resolve(def.namespace@, inst[k].ty)->Err_0 as nat,
                            ),
                        );
                    lemma_render_fields_err(inst, def.namespace@, k);
                }
                return Result::Err(e);
            },
        };
        let mut body = TokenStream::new();
        let nf = shape.fields.len();
        let mut i: usize = 0;
        proof {
            assert(inst.skip(0) =~= inst);
            assert(struct_shape_matches(def.namespace@, *def, shape));
            lemma_render_fields_ok(inst, def.namespace@);
        }
        #[verifier::loop_isolation(false)]
        while i < nf
            invariant
                i <= nf == shape.fields@.len(),
                nf == inst.len(),
                struct_shape_matches(def.namespace@, *def, shape),
                ({
                    let whole = spec_render_fields(inst, def.namespace@);
                    let rem = spec_render_fields(inst.skip(i as int), def.namespace@);
                    rem matches Result::Ok(tt) && whole matches Result::Ok(tw) && body@ + tt == tw
                }),
            decreases nf - i,
        {
            proof {
                assert(inst.skip(i as int).drop_first() =~= inst.skip(i as int + 1));
                assert(inst.skip(i as int)[0] == inst[i as int]);
                assert(shape.fields@[i as int].name@ == inst[i as int].name@);
                assert(spec_resolve(def.namespace@, inst[i as int].ty) == Result::Ok::<
                    crate::resolve::TypeExpressionV,
                    u32,
                >(shape.fields@[i as int].ty.dv()));
            }
            let ghost b0 = body@;
            body.push_str("    ");
            body.push_str(shape.fields[i].name.as_str());
            body.push_str(": ");
            push_type_expr(&mut body, &shape.fields[i].ty);
            body.push_str(",\n");
            proof {
                assert(body@ =~= b0 + spec_field_line(
                    inst[i as int].name@,
                    spec_type_text(shape.fields@[i as int].ty.dv()),
                ));
            }
            i += 1;
        }
        proof {
            assert(inst.skip(nf as int) =~= Seq::<Field>::empty());
            assert(body@ + Seq::<char>::empty() =~= body@);
            assert(spec_render_fields(inst, def.namespace@) == Result::Ok::<Seq<char>, Seq<char>>(
                body@,
            ));
        }
        let mut out = TokenStream::new();
        out.push_str("struct ");
        out.push_str(def.name.as_str());
        out.push_str(" {\n");
        out.combine(&body);
        out.push_str("}\n");
        proof {
            assert(out@ =~= "struct "@ + def.name@ + " {\n"@ + body@ + "}\n"@);
            if spec_classify(*def) == TypeKind::Struct {
                assert(spec_render_typedef(*def) is Ok);
                assert(spec_render_typedef(*def)->Ok_0 =~= out@);
            }
        }
        Result::Ok(out)
    }
}

/// When every instance field's type resolves, the field rendering succeeds.
proof fn lemma_render_fields_ok(inst: Seq<Field>, ctx: Seq<char>)
    requires
        forall|j: int| 0 <= j < inst.len() ==> spec_resolve(ctx, (#[trigger] inst[j]).ty) is Ok,
    ensures
        spec_render_fields(inst, ctx) is Ok,
    decreases inst.len(),
{
    if inst.len() > 0 {
        assert forall|j: int| 0 <= j < inst.drop_first().len() implies spec_resolve(
            ctx,
            (#[trigger] inst.drop_first()[j]).ty,
        ) is Ok by {
            assert(inst.drop_first()[j] == inst[j + 1]);
        }
        lemma_render_fields_ok(inst.drop_first(), ctx);
    }
}

/// A failure at instance-field position `k`, after resolvable fields, fails
/// the whole field rendering with that type's description.
proof fn lemma_render_fields_err(inst: Seq<Field>, ctx: Seq<char>, k: int)
    requires
        0 <= k < inst.len(),
        forall|j: int| 0 <= j < k ==> spec_resolve(ctx, (#[trigger] inst[j]).ty) is Ok,
        spec_resolve(ctx, inst[k].ty) is Err,
    ensures
        spec_render_fields(inst, ctx) == Result::Err::<Seq<char>, Seq<char>>(
            "type kind "@ + dec_str(spec_resolve(ctx, inst[k].ty)->Err_0 as nat),
        ),
    decreases k,
{
    if k > 0 {
        assert(inst.drop_first()[k - 1] == inst[k]);
        assert forall|j: int| 0 <= j < k - 1 implies spec_resolve(
            ctx,
            (#[trigger] inst.drop_first()[j]).ty,
        ) is Ok by {
            assert(inst.drop_first()[j] == inst[j + 1]);
        }
        lemma_render_fields_err(inst.drop_first(), ctx, k - 1);
    }
}

/// Runs the whole interface-description pipeline over a snapshot: rejects any
/// configuration key, builds the namespace tree under the filter, and renders
/// it as token text. Any failure aborts the run with its error; no partial
/// output text exists on failure.
pub fn from_reader(
    reader: &Reader,
    filter: &Filter,
    config: &Vec<(String, String)>,
) -> (r: Result<String, Error>)
    ensures
        config@.len() > 0 ==> (r matches Result::Err(e) && e@ == ErrorV::InvalidConfiguration(
            config@[0].0@,
        )),
        config@.len() == 0 && (exists|j: int|
            0 <= j < reader.types@.len() && spec_kept(#[trigger] reader.types@[j], filter)
                && spec_malformed(reader.types@[j])) ==> (r matches Result::Err(e) && exists|
            j: int,
        |
            0 <= j < reader.types@.len() && spec_kept(#[trigger] reader.types@[j], filter)
                && spec_malformed(reader.types@[j]) && e@ == ErrorV::MalformedNamespace(
                reader.types@[j].namespace@,
            )),
        config@.len() == 0 && (forall|j: int|
            0 <= j < reader.types@.len() ==> spec_kept(#[trigger] reader.types@[j], filter)
                ==> !spec_malformed(reader.types@[j])) ==> exists|t: Tree|
            #[trigger] tree_post(t, *reader, *filter) && (match r {
                Result::Ok(s) => spec_render_tree(t, *reader) == Result::Ok::<
                    Seq<char>,
                    Seq<char>,
                >(s@),
                Result::Err(e) => spec_render_tree(t, *reader) matches Result::Err(d) && e@
                    == ErrorV::Unsupported(d),
            }),
{
    if config.len() > 0 {
        let key = config[0].0.clone();
        return Result::Err(Error::InvalidConfiguration(key));
    }
    let tree = match Tree::new(reader, filter) {
        Result::Ok(t) => t,
        Result::Err(e) => {
            return Result::Err(e);
        },
    };
    let writer = Writer { reader };
    match writer.tree(&tree) {
        Result::Ok(ts) => {
            proof {
                assert(tree_post(tree, *reader, *filter));
            }
            Result::Ok(ts.into_string())
        },
        Result::Err(e) => {
            proof {
                assert(tree_post(tree, *reader, *filter));
            }
            Result::Err(e)
        },
    }
}

/// Failure scenario: a struct-classified definition whose first unresolvable
/// instance field names a primitive kind outside the closed set never
/// renders — the run aborts with that kind's unsupported-construct
/// description, and no placeholder text stands in for it.
pub proof fn lemma_unsupported_aborts(def: TypeDef, k: int)
    requires
        spec_classify(def) == TypeKind::Struct,
        0 <= k < instance_fields(def.fields@).len(),
        forall|j: int|
            0 <= j < k ==> spec_resolve(
                def.namespace@,
                (#[trigger] instance_fields(def.fields@)[j]).ty,
            ) is Ok,
        spec_resolve(def.namespace@, instance_fields(def.fields@)[k].ty) is Err,
    ensures
        spec_render_typedef(def) == Result::Err::<Seq<char>, Seq<char>>(
            "type kind "@ + dec_str(
                spec_resolve(def.namespace@, instance_fields(def.fields@)[k].ty)->Err_0 as nat,
            ),
        ),
{
    lemma_render_fields_err(instance_fields(def.fields@), def.namespace@, k);
}

/// Determinism of the pipeline: the rendered text is a pure function of the
/// namespace tree and the snapshot, so two runs over the same built tree and
/// snapshot produce byte-identical output.
pub proof fn lemma_pipeline_deterministic(t: Tree, reader: Reader, s1: Seq<char>, s2: Seq<char>)
    requires
        spec_render_tree(t, reader) == Result::Ok::<Seq<char>, Seq<char>>(s1),
        spec_render_tree(t, reader) == Result::Ok::<Seq<char>, Seq<char>>(s2),
    ensures
        s1 == s2,
{
}

} // verus!
