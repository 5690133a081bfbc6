//! The per-kind member emitters: they turn a classified definition into the
//! abstract shape both backends render — an enum's identifier, resolved
//! underlying type and ordered constants, or a struct's ordered instance
//! fields. Literal fields are constants, never instance data; declaration
//! order is preserved exactly (constant identity and struct layout both
//! depend on position).

use vstd::prelude::*;

use crate::meta::{Field, TypeDef, Value, ValueV};
use crate::resolve::{resolve, spec_resolve, TypeExpression, TypeExpressionV};
use crate::text::push_dec;
use crate::{Error, ErrorV};

verus! {

broadcast use vstd::std_specs::vec::group_vec_axioms;

/// One named constant of an enum shape.
#[derive(Debug)]
pub struct EnumConstant {
    pub name: String,
    pub value: Value,
}

/// The abstract shape of an enum definition.
#[derive(Debug)]
pub struct EnumShape {
    pub ident: String,
    pub underlying: TypeExpression,
    pub is_scoped: bool,
    pub is_flags: bool,
    pub constants: Vec<EnumConstant>,
}

/// One instance field of a struct shape.
#[derive(Debug)]
pub struct StructField {
    pub name: String,
    pub ty: TypeExpression,
}

/// The abstract shape of a struct definition.
#[derive(Debug)]
pub struct StructShape {
    pub ident: String,
    pub fields: Vec<StructField>,
}

/// The literal (constant) fields of a definition, in declaration order.
pub open spec fn literal_fields(fields: Seq<Field>) -> Seq<Field> {
    fields.filter(|f: Field| f.is_literal)
}

/// The instance (non-literal) fields of a definition, in declaration order.
pub open spec fn instance_fields(fields: Seq<Field>) -> Seq<Field> {
    fields.filter(|f: Field| !f.is_literal)
}

/// The first instance field, whose type is the enum's underlying type.
pub open spec fn first_instance(fields: Seq<Field>) -> Option<Field>
    decreases fields.len(),
{
    if fields.len() == 0 {
        Option::None
    } else if !fields[0].is_literal {
        Option::Some(fields[0])
    } else {
        first_instance(fields.drop_first())
    }
}

proof fn lemma_first_instance_at(fields: Seq<Field>, i: int)
    requires
        0 <= i < fields.len(),
        forall|j: int| 0 <= j < i ==> (#[trigger] fields[j]).is_literal,
        !fields[i].is_literal,
    ensures
        first_instance(fields) == Option::Some(fields[i]),
    decreases i,
{
    if i > 0 {
        lemma_first_instance_at(fields.drop_first(), i - 1);
    }
}

proof fn lemma_first_instance_none(fields: Seq<Field>)
    requires
        forall|j: int| 0 <= j < fields.len() ==> (#[trigger] fields[j]).is_literal,
    ensures
        first_instance(fields) is None,
    decreases fields.len(),
{
    if fields.len() > 0 {
        lemma_first_instance_none(fields.drop_first());
    }
}

/// Appending one element to a filtered sequence.
proof fn lemma_filter_push<A>(s: Seq<A>, pred: spec_fn(A) -> bool, x: A)
    ensures
        s.push(x).filter(pred) == if pred(x) {
            s.filter(pred).push(x)
        } else {
            s.filter(pred)
        },
{
    reveal(Seq::filter);
    assert(s.push(x).drop_last() =~= s);
    assert(s.push(x).last() == x);
}

/// The filtered prefix is a prefix of the filtered whole.
proof fn lemma_filter_take_prefix<A>(s: Seq<A>, pred: spec_fn(A) -> bool, i: int)
    requires
        0 <= i <= s.len(),
    ensures
        s.take(i).filter(pred).len() <= s.filter(pred).len(),
        forall|j: int|
            0 <= j < s.take(i).filter(pred).len() ==> #[trigger] s.filter(pred)[j] == s.take(
                i,
            ).filter(pred)[j],
    decreases s.len() - i,
{
    if i == s.len() {
        assert(s.take(i) =~= s);
    } else {
        lemma_filter_take_prefix(s, pred, i + 1);
        assert(s.take(i + 1) =~= s.take(i).push(s[i]));
        lemma_filter_push(s.take(i), pred, s[i]);
    }
}

/// The name of the first literal field that carries no constant value.
pub open spec fn first_missing_constant(lits: Seq<Field>) -> Option<Seq<char>>
    decreases lits.len(),
{
    if lits.len() == 0 {
        Option::None
    } else if lits[0].constant is None {
        Option::Some(lits[0].name@)
    } else {
        first_missing_constant(lits.drop_first())
    }
}

proof fn lemma_first_missing_at(lits: Seq<Field>, k: int)
    requires
        0 <= k < lits.len(),
        forall|j: int| 0 <= j < k ==> (#[trigger] lits[j]).constant is Some,
        lits[k].constant is None,
    ensures
        first_missing_constant(lits) == Option::Some(lits[k].name@),
    decreases k,
{
    if k > 0 {
        assert forall|j: int| 0 <= j < k - 1 implies (#[trigger] lits.drop_first()[j]).constant
            is Some by {
            assert(lits.drop_first()[j] == lits[j + 1]);
        }
        assert(lits.drop_first()[k - 1] == lits[k]);
        lemma_first_missing_at(lits.drop_first(), k - 1);
    }
}

/// The description an enum definition fails emission with: a missing or
/// unresolvable underlying type, else the first literal field without a
/// constant value.
pub open spec fn spec_emit_enum_err(ctx: Seq<char>, def: TypeDef) -> Seq<char> {
    if first_instance(def.fields@) is None {
        "enum underlying type: "@ + def.name@
    } else if spec_resolve(ctx, first_instance(def.fields@)->Some_0.ty) is Err {
        "type kind "@ + crate::text::dec_str(
            spec_resolve(ctx, first_instance(def.fields@)->Some_0.ty)->Err_0 as nat,
        )
    } else {
        "missing constant: "@ + first_missing_constant(literal_fields(def.fields@))->Some_0
    }
}

/// What a correctly emitted enum shape holds, relative to the emitting
/// namespace `ctx`: the definition's identifier, markers, resolved underlying
/// type, and exactly one constant per literal field, in declaration order,
/// carrying that field's name and constant value.
pub open spec fn enum_shape_matches(ctx: Seq<char>, def: TypeDef, shape: EnumShape) -> bool {
    let lits = literal_fields(def.fields@);
    &&& shape.ident@ == def.name@
    &&& shape.is_scoped == def.is_scoped
    &&& shape.is_flags == def.is_flags
    &&& first_instance(def.fields@) matches Option::Some(f) && spec_resolve(ctx, f.ty)
        == Result::Ok::<TypeExpressionV, u32>(shape.underlying.dv())
    &&& shape.constants@.len() == lits.len()
    &&& forall|i: int|
        0 <= i < lits.len() ==> ((#[trigger] shape.constants@[i]).name@ == lits[i].name@ && (lits[
            i
        ].constant matches Option::Some(v) && shape.constants@[i].value@ == v@))
}

/// Whether an enum definition can be emitted at all: it has an underlying
/// type that resolves, and every literal field carries a constant value.
pub open spec fn enum_def_emittable(ctx: Seq<char>, def: TypeDef) -> bool {
    &&& first_instance(def.fields@) matches Option::Some(f) && spec_resolve(ctx, f.ty) is Ok
    &&& forall|i: int|
        0 <= i < literal_fields(def.fields@).len() ==> (#[trigger] literal_fields(def.fields@)[
            i
        ]).constant is Some
}

/// The index of the first instance field, if any.
fn find_instance(fields: &Vec<Field>) -> (r: Option<usize>)
    ensures
        r matches Option::Some(u) ==> u < fields@.len() && first_instance(fields@)
            == Option::Some(fields@[u as int]),
        r is None ==> first_instance(fields@) is None,
{
    let mut u: usize = 0;
    while u < fields.len()
        invariant
            u <= fields@.len(),
            forall|j: int| 0 <= j < u ==> (#[trigger] fields@[j]).is_literal,
        decreases fields@.len() - u,
    {
        if !fields[u].is_literal {
            proof {
                lemma_first_instance_at(fields@, u as int);
            }
            return Option::Some(u);
        }
        u += 1;
    }
    proof {
        lemma_first_instance_none(fields@);
    }
    Option::None
}

/// Emits the abstract shape of an enum definition: identifier, resolved
/// underlying numeric type, scoped and flags markers, and the ordered list of
/// literal constants. Zero constants are legal (an empty enum shape). A
/// definition without a resolvable underlying type, or with a literal field
/// that has no constant value, aborts with an unsupported-construct error.
pub fn emit_enum(ctx: &str, def: &TypeDef) -> (r: Result<EnumShape, Error>)
    ensures
        r is Ok <==> enum_def_emittable(ctx@, *def),
        r matches Result::Ok(shape) ==> enum_shape_matches(ctx@, *def, shape),
        r matches Result::Err(e) ==> e@ == ErrorV::Unsupported(spec_emit_enum_err(ctx@, *def)),
{
    let n = def.fields.len();
    let underlying_field = match find_instance(&def.fields) {
        Option::Some(u) => &def.fields[u],
        Option::None => {
            let mut m = String::new();
            m.append("enum underlying type: ");
            m.append(def.name.as_str());
            return Result::Err(Error::Unsupported(m));
        },
    };
    let underlying = match resolve(ctx, &underlying_field.ty) {
        Result::Ok(e) => e,
        Result::Err(e) => {
            return Result::Err(e);
        },
    };
    let mut constants: Vec<EnumConstant> = Vec::new();
    let mut i: usize = 0;
    #[verifier::loop_isolation(false)]
    while i < n
        invariant
            i <= n,
            constants@.len() == literal_fields(def.fields@.take(i as int)).len(),
            forall|j: int|
                0 <= j < constants@.len() ==> {
                    let lit = literal_fields(def.fields@.take(i as int))[j];
                    (#[trigger] constants@[j]).name@ == lit.name@ && (lit.constant
                        matches Option::Some(v) && constants@[j].value@ == v@)
                },
        decreases n - i,
    {
        let f = &def.fields[i];
        proof {
            assert(def.fields@.take(i as int + 1) =~= def.fields@.take(i as int).push(
                def.fields@[i as int],
            ));
            lemma_filter_push(
                def.fields@.take(i as int),
                |fl: Field| fl.is_literal,
                def.fields@[i as int],
            );
        }
        if f.is_literal {
            match &f.constant {
                Option::Some(v) => {
                    constants.push(EnumConstant { name: f.name.clone(), value: v.duplicate() });
                },
                Option::None => {
                    proof {
                        lemma_filter_take_prefix(
                            def.fields@,
                            |fl: Field| fl.is_literal,
                            i as int + 1,
                        );
                        let k = constants@.len() as int;
                        assert(literal_fields(def.fields@)[k] == def.fields@[i as int]);
                        assert(!enum_def_emittable(ctx@, *def));
                        assert forall|j: int| 0 <= j < k implies (#[trigger] literal_fields(
                            def.fields@,
                        )[j]).constant is Some by {
                            let c = constants@[j];
                            assert(c.name@ == literal_fields(def.fields@.take(i as int))[j].name@);
                            assert(literal_fields(def.fields@)[j] == literal_fields(
                                def.fields@.take(i as int),
                            )[j]);
                        }
                        lemma_first_missing_at(literal_fields(def.fields@), k);
                    }
                    let mut m = String::new();
                    m.append("missing constant: ");
                    m.append(f.name.as_str());
                    return Result::Err(Error::Unsupported(m));
                },
            }
        }
        i += 1;
    }
    proof {
        assert(def.fields@.take(n as int) =~= def.fields@);
        assert forall|j: int|
            0 <= j < literal_fields(def.fields@).len() implies (#[trigger] literal_fields(
            def.fields@,
        )[j]).constant is Some by {
            let c = constants@[j];
            assert(c.name@ == literal_fields(def.fields@.take(n as int))[j].name@);
        }
        assert(enum_def_emittable(ctx@, *def));
    }
    Result::Ok(
        EnumShape {
            ident: def.name.clone(),
            underlying,
            is_scoped: def.is_scoped,
            is_flags: def.is_flags,
            constants,
        },
    )
}

/// Enum round trip: a definition emitted as a shape holds exactly one
/// constant per literal field, in metadata declaration order — the shape's
/// constant count equals the source's literal-field count, with no gain and
/// no loss, and names and values align position by position.
pub proof fn lemma_enum_round_trip(ctx: Seq<char>, def: TypeDef, shape: EnumShape)
    requires
        enum_shape_matches(ctx, def, shape),
    ensures
        shape.constants@.len() == literal_fields(def.fields@).len(),
        forall|i: int|
            0 <= i < shape.constants@.len() ==> (#[trigger] shape.constants@[i]).name@
                == literal_fields(def.fields@)[i].name@,
{
}

/// What a correctly emitted struct shape holds: the identifier and, for each
/// instance field in declaration order, its name and resolved type. Literal
/// fields are excluded — they are not instance data.
pub open spec fn struct_shape_matches(ctx: Seq<char>, def: TypeDef, shape: StructShape) -> bool {
    let inst = instance_fields(def.fields@);
    &&& shape.ident@ == def.name@
    &&& shape.fields@.len() == inst.len()
    &&& forall|i: int|
        0 <= i < inst.len() ==> (#[trigger] shape.fields@[i]).name@ == inst[i].name@ && spec_resolve(
            ctx,
            inst[i].ty,
        ) == Result::Ok::<TypeExpressionV, u32>(shape.fields@[i].ty.dv())
}

/// Whether every instance field's type resolves.
pub open spec fn struct_def_emittable(ctx: Seq<char>, def: TypeDef) -> bool {
    forall|i: int|
        0 <= i < instance_fields(def.fields@).len() ==> spec_resolve(
            ctx,
            (#[trigger] instance_fields(def.fields@)[i]).ty,
        ) is Ok
}

/// Emits the abstract shape of a struct definition: every instance field
/// resolved to its type expression, preserving declaration order exactly
/// (the target representation is a fixed memory layout). The first field
/// whose type cannot be resolved aborts the emission.
pub fn emit_struct(ctx: &str, def: &TypeDef) -> (r: Result<StructShape, Error>)
    ensures
        r is Ok <==> struct_def_emittable(ctx@, *def),
        r matches Result::Ok(shape) ==> struct_shape_matches(ctx@, *def, shape),
        r matches Result::Err(e) ==> exists|k: int|
            0 <= k < instance_fields(def.fields@).len() && (forall|j: int|
                0 <= j < k ==> spec_resolve(
                    ctx@,
                    (#[trigger] instance_fields(def.fields@)[j]).ty,
                ) is Ok) && #[trigger] spec_resolve(ctx@, instance_fields(def.fields@)[k].ty) is Err
                && e@ == ErrorV::Unsupported(
                "type kind "@ + crate::text::dec_str(
                    spec_resolve(ctx@, instance_fields(def.fields@)[k].ty)->Err_0 as nat,
                ),
            ),
{
    let n = def.fields.len();
    let mut fields: Vec<StructField> = Vec::new();
    let mut i: usize = 0;
    #[verifier::loop_isolation(false)]
    while i < n
        invariant
            i <= n,
            fields@.len() == instance_fields(def.fields@.take(i as int)).len(),
            forall|j: int|
                0 <= j < instance_fields(def.fields@.take(i as int)).len() ==> spec_resolve(
                    ctx@,
                    (#[trigger] instance_fields(def.fields@.take(i as int))[j]).ty,
                ) is Ok,
            forall|j: int|
                0 <= j < fields@.len() ==> {
                    let inst = instance_fields(def.fields@.take(i as int))[j];
                    (#[trigger] fields@[j]).name@ == inst.name@ && spec_resolve(ctx@, inst.ty)
                        == Result::Ok::<TypeExpressionV, u32>(fields@[j].ty.dv())
                },
        decreases n - i,
    {
        let f = &def.fields[i];
        proof {
            assert(def.fields@.take(i as int + 1) =~= def.fields@.take(i as int).push(
                def.fields@[i as int],
            ));
            lemma_filter_push(
                def.fields@.take(i as int),
                |fl: Field| !fl.is_literal,
                def.fields@[i as int],
            );
        }
        if !f.is_literal {
            match resolve(ctx, &f.ty) {
                Result::Ok(ty) => {
                    fields.push(StructField { name: f.name.clone(), ty });
                },
                Result::Err(e) => {
                    proof {
                        lemma_filter_take_prefix(
                            def.fields@,
                            |fl: Field| !fl.is_literal,
                            i as int + 1,
                        );
                        let k = fields@.len() as int;
                        assert(instance_fields(def.fields@.take(i as int + 1))[k] == def.fields@[
                            i as int
                        ]);
                        assert(instance_fields(def.fields@)[k] == def.fields@[i as int]);
                        assert(spec_resolve(ctx@, instance_fields(def.fields@)[k].ty) is Err);
                        assert forall|j: int| 0 <= j < k implies spec_resolve(
                            ctx@,
                            (#[trigger] instance_fields(def.fields@)[j]).ty,
                        ) is Ok by {
                            assert(instance_fields(def.fields@)[j] == instance_fields(
                                def.fields@.take(i as int),
                            )[j]);
                        }
                        assert(!struct_def_emittable(ctx@, *def));
                    }
                    return Result::Err(e);
                },
            }
        }
        i += 1;
    }
    proof {
        assert(def.fields@.take(n as int) =~= def.fields@);
        assert forall|j: int|
            0 <= j < instance_fields(def.fields@).len() implies spec_resolve(
            ctx@,
            (#[trigger] instance_fields(def.fields@)[j]).ty,
        ) is Ok by {
            assert(instance_fields(def.fields@.take(n as int))[j] == instance_fields(
                def.fields@,
            )[j]);
        }
    }
    Result::Ok(StructShape { ident: def.name.clone(), fields })
}

/// Appends the textual notation of a constant value: suffixed decimal
/// integer literals, `true`/`false`, or a quoted string.
pub fn push_value(out: &mut String, v: &Value)
    ensures
        final(out)@ == old(out)@ + spec_value_text(v@),
{
    match v {
        Value::I8(x) => push_signed(out, *x as i64, "i8"),
        Value::U8(x) => {
            push_dec(out, *x as u64);
            out.append("u8");
        },
        Value::I16(x) => push_signed(out, *x as i64, "i16"),
        Value::U16(x) => {
            push_dec(out, *x as u64);
            out.append("u16");
        },
        Value::I32(x) => push_signed(out, *x as i64, "i32"),
        Value::U32(x) => {
            push_dec(out, *x as u64);
            out.append("u32");
        },
        Value::I64(x) => push_signed(out, *x, "i64"),
        Value::U64(x) => {
            push_dec(out, *x);
            out.append("u64");
        },
        Value::Bool(x) => {
            if *x {
                out.append("true");
            } else {
                out.append("false");
            }
        },
        Value::Str(x) => {
            out.append("\"");
            out.append(x.as_str());
            out.append("\"");
        },
    }
}

/// The textual notation of a constant value.
pub open spec fn spec_value_text(v: ValueV) -> Seq<char> {
    match v {
        ValueV::I8(x) => spec_signed_text(x as int) + "i8"@,
        ValueV::U8(x) => crate::text::dec_str(x as nat) + "u8"@,
        ValueV::I16(x) => spec_signed_text(x as int) + "i16"@,
        ValueV::U16(x) => crate::text::dec_str(x as nat) + "u16"@,
        ValueV::I32(x) => spec_signed_text(x as int) + "i32"@,
        ValueV::U32(x) => crate::text::dec_str(x as nat) + "u32"@,
        ValueV::I64(x) => spec_signed_text(x as int) + "i64"@,
        ValueV::U64(x) => crate::text::dec_str(x as nat) + "u64"@,
        ValueV::Bool(x) => if x {
            "true"@
        } else {
            "false"@
        },
        ValueV::Str(x) => "\""@ + x + "\""@,
    }
}

/// The decimal notation of a signed value: a minus sign for negatives.
pub open spec fn spec_signed_text(v: int) -> Seq<char> {
    if v < 0 {
        "-"@ + crate::text::dec_str((-v) as nat)
    } else {
        crate::text::dec_str(v as nat)
    }
}

/// Appends the signed decimal notation of `v` followed by `suffix`.
pub fn push_signed(out: &mut String, v: i64, suffix: &str)
    ensures
        final(out)@ == old(out)@ + spec_signed_text(v as int) + suffix@,
{
    if v < 0 {
        out.append("-");
        let mag: u64 = if v == i64::MIN {
            9223372036854775808u64
        } else {
            (-v) as u64
        };
        proof {
            assert(mag == -(v as int));
        }
        push_dec(out, mag);
    } else {
        push_dec(out, v as u64);
    }
    out.append(suffix);
}

} // verus!
