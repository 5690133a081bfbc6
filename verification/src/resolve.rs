//! The type-reference resolver: maps a semantic type descriptor (primitive,
//! pointer, array, generic type-definition instantiation) to a qualified name
//! expression, computing the minimal relative namespace path between the
//! emitting namespace context and the target's declaring namespace.

use vstd::prelude::*;

use crate::meta::{primitive_of, spec_primitive_of, PrimitiveKind, TypeRef};
use crate::text::{dec_str, push_dec, segments_of, split_namespace, str_same, views_of};
use crate::{Error, ErrorV};

verus! {

broadcast use vstd::std_specs::vec::group_vec_axioms;

/// The relative path from the emitting namespace to a target namespace: a
/// number of step-up (parent-reference) tokens followed by step-down path
/// components, in order. Both empty for a same-scope reference.
#[derive(Debug)]
pub struct Qualifier {
    pub ups: usize,
    pub downs: Vec<String>,
}

/// A resolved type expression in the target notation.
#[derive(Debug)]
pub enum TypeExpression {
    Primitive(PrimitiveKind),
    Pointer { mutable: bool, inner: Box<TypeExpression> },
    Array { inner: Box<TypeExpression>, len: u32 },
    Named { qualifier: Qualifier, name: String, generics: Vec<TypeExpression> },
}

/// The mathematical mirror of [`TypeExpression`].
pub enum TypeExpressionV {
    Primitive(PrimitiveKind),
    Pointer { mutable: bool, inner: Box<TypeExpressionV> },
    Array { inner: Box<TypeExpressionV>, len: u32 },
    Named { ups: nat, downs: Seq<Seq<char>>, name: Seq<char>, generics: Seq<TypeExpressionV> },
}

impl TypeExpression {
    /// The deep view of a resolved expression.
    pub open spec fn dv(self) -> TypeExpressionV
        decreases self,
    {
        match self {
            TypeExpression::Primitive(k) => TypeExpressionV::Primitive(k),
            TypeExpression::Pointer { mutable, inner } => TypeExpressionV::Pointer {
                mutable,
                inner: Box::new((*inner).dv()),
            },
            TypeExpression::Array { inner, len } => TypeExpressionV::Array {
                inner: Box::new((*inner).dv()),
                len,
            },
            TypeExpression::Named { qualifier, name, generics } => TypeExpressionV::Named {
                ups: qualifier.ups as nat,
                downs: views_of(qualifier.downs@),
                name: name@,
                generics: Self::dv_seq(generics@),
            },
        }
    }

    pub open spec fn dv_seq(s: Seq<TypeExpression>) -> Seq<TypeExpressionV>
        decreases s,
    {
        if s.len() == 0 {
            Seq::empty()
        } else {
            seq![s[0].dv()] + Self::dv_seq(s.drop_first())
        }
    }
}

pub proof fn lemma_dv_seq_index(s: Seq<TypeExpression>)
    ensures
        TypeExpression::dv_seq(s).len() == s.len(),
        forall|i: int| 0 <= i < s.len() ==> TypeExpression::dv_seq(s)[i] == (#[trigger] s[i]).dv(),
    decreases s.len(),
{
    if s.len() > 0 {
        lemma_dv_seq_index(s.drop_first());
        assert forall|i: int|
            0 <= i < s.len() implies TypeExpression::dv_seq(s)[i] == (#[trigger] s[i]).dv() by {
            if i > 0 {
                assert(TypeExpression::dv_seq(s.drop_first())[i - 1] == s.drop_first()[i - 1].dv());
            }
        }
    }
}

/// The length of the longest common prefix of two segment sequences.
pub open spec fn common_prefix_len(a: Seq<Seq<char>>, b: Seq<Seq<char>>) -> nat
    decreases a.len(),
{
    if a.len() == 0 || b.len() == 0 || a[0] != b[0] {
        0
    } else {
        1 + common_prefix_len(a.drop_first(), b.drop_first())
    }
}

pub proof fn lemma_common_prefix_bound(a: Seq<Seq<char>>, b: Seq<Seq<char>>)
    ensures
        common_prefix_len(a, b) <= a.len(),
        common_prefix_len(a, b) <= b.len(),
        forall|i: int| 0 <= i < common_prefix_len(a, b) ==> a[i] == b[i],
        common_prefix_len(a, b) < a.len() && common_prefix_len(a, b) < b.len() ==> a[
            common_prefix_len(a, b) as int
        ] != b[common_prefix_len(a, b) as int],
    decreases a.len(),
{
    if a.len() > 0 && b.len() > 0 && a[0] == b[0] {
        lemma_common_prefix_bound(a.drop_first(), b.drop_first());
        let k = common_prefix_len(a, b);
        assert forall|i: int| 0 <= i < k implies a[i] == b[i] by {
            if i > 0 {
                assert(a.drop_first()[i - 1] == b.drop_first()[i - 1]);
            }
        }
    }
}

/// Any cut `k` with equal segments before it and a difference (or an end) at
/// it is the longest common prefix.
pub proof fn lemma_common_prefix_unique(a: Seq<Seq<char>>, b: Seq<Seq<char>>, k: int)
    requires
        0 <= k <= a.len(),
        k <= b.len(),
        forall|i: int| 0 <= i < k ==> a[i] == b[i],
        k == a.len() || k == b.len() || a[k] != b[k],
    ensures
        k == common_prefix_len(a, b),
{
    let c = common_prefix_len(a, b) as int;
    lemma_common_prefix_bound(a, b);
    if c < k {
        assert(a[c] == b[c]);
    } else if c > k {
        assert(a[k] == b[k]);
    }
}

pub proof fn lemma_common_prefix_self(a: Seq<Seq<char>>)
    ensures
        common_prefix_len(a, a) == a.len(),
    decreases a.len(),
{
    if a.len() > 0 {
        lemma_common_prefix_self(a.drop_first());
    }
}

/// The relative qualifier from the emitting namespace `ctx` to the target
/// namespace `target`, as step-up count and remaining target segments:
///
/// 1. both namespaces are split into segment sequences;
/// 2. a common prefix is walked while both agree segment by segment;
/// 3. every remaining `ctx` segment becomes one step-up token;
/// 4. every remaining target segment becomes one step-down component;
/// 5. a target equal to `ctx` gets an empty qualifier, and so does an empty
///    target namespace (a global type) or an empty (root) context.
pub open spec fn spec_qualifier(ctx: Seq<char>, target: Seq<char>) -> (nat, Seq<Seq<char>>) {
    if target.len() == 0 || ctx == target {
        (0 as nat, Seq::empty())
    } else if ctx.len() == 0 {
        (0 as nat, segments_of(target))
    } else {
        let cs = segments_of(ctx);
        let ts = segments_of(target);
        let k = common_prefix_len(cs, ts);
        ((cs.len() - k) as nat, ts.skip(k as int))
    }
}

/// Qualification shape: for nonempty namespaces sharing a `k`-segment longest
/// common prefix, the qualifier holds exactly `len(ctx) - k` step-up tokens
/// followed by the `len(target) - k` remaining target segments, in order.
pub proof fn lemma_resolve_qualification(ctx: Seq<char>, target: Seq<char>)
    requires
        ctx.len() > 0,
        target.len() > 0,
    ensures
        ({
            let cs = segments_of(ctx);
            let ts = segments_of(target);
            let k = common_prefix_len(cs, ts);
            spec_qualifier(ctx, target).0 == cs.len() - k && spec_qualifier(ctx, target).1
                == ts.skip(k as int)
        }),
{
    let cs = segments_of(ctx);
    let ts = segments_of(target);
    if ctx == target {
        lemma_common_prefix_self(cs);
        assert(ts.skip(cs.len() as int) =~= Seq::<Seq<char>>::empty());
    } else {
        lemma_common_prefix_bound(cs, ts);
    }
}

/// Reflexivity: a reference from a namespace to that same namespace is
/// unqualified — no step-up tokens and no path components.
pub proof fn lemma_resolve_reflexive(ctx: Seq<char>)
    ensures
        spec_qualifier(ctx, ctx).0 == 0,
        spec_qualifier(ctx, ctx).1 == Seq::<Seq<char>>::empty(),
{
}

/// The resolution of a type reference in the context of the emitting
/// namespace `ctx`: the resolved expression, or the raw tag of the first
/// primitive kind outside the closed set, in traversal order.
pub open spec fn spec_resolve(ctx: Seq<char>, ty: TypeRef) -> Result<TypeExpressionV, u32>
    decreases ty,
{
    match ty {
        TypeRef::Primitive(tag) => match spec_primitive_of(tag) {
            Option::Some(k) => Result::Ok(TypeExpressionV::Primitive(k)),
            Option::None => Result::Err(tag),
        },
        TypeRef::MutPtr(inner) => match spec_resolve(ctx, *inner) {
            Result::Ok(e) => Result::Ok(
                TypeExpressionV::Pointer { mutable: true, inner: Box::new(e) },
            ),
            Result::Err(t) => Result::Err(t),
        },
        TypeRef::ConstPtr(inner) => match spec_resolve(ctx, *inner) {
            Result::Ok(e) => Result::Ok(
                TypeExpressionV::Pointer { mutable: false, inner: Box::new(e) },
            ),
            Result::Err(t) => Result::Err(t),
        },
        TypeRef::Array(inner, len) => match spec_resolve(ctx, *inner) {
            Result::Ok(e) => Result::Ok(TypeExpressionV::Array { inner: Box::new(e), len }),
            Result::Err(t) => Result::Err(t),
        },
        TypeRef::Named { namespace, name, generics } => match spec_resolve_seq(ctx, generics@) {
            Result::Ok(gs) => {
                let q = spec_qualifier(ctx, namespace@);
                Result::Ok(
                    TypeExpressionV::Named { ups: q.0, downs: q.1, name: name@, generics: gs },
                )
            },
            Result::Err(t) => Result::Err(t),
        },
    }
}

pub open spec fn spec_resolve_seq(ctx: Seq<char>, s: Seq<TypeRef>) -> Result<
    Seq<TypeExpressionV>,
    u32,
>
    decreases s,
{
    if s.len() == 0 {
        Result::Ok(Seq::empty())
    } else {
        match spec_resolve(ctx, s[0]) {
            Result::Ok(e) => match spec_resolve_seq(ctx, s.drop_first()) {
                Result::Ok(rest) => Result::Ok(seq![e] + rest),
                Result::Err(t) => Result::Err(t),
            },
            Result::Err(t) => Result::Err(t),
        }
    }
}

/// Same-scope references stay unqualified: a named reference whose declaring
/// namespace is the context itself resolves (when its generic arguments
/// resolve) to a name with an empty path.
pub proof fn lemma_resolve_in_context(ctx: Seq<char>, ty: TypeRef)
    requires
        ty matches TypeRef::Named { namespace, name, generics } && namespace@ == ctx,
    ensures
        spec_resolve(ctx, ty) matches Result::Ok(e) ==> e matches TypeExpressionV::Named {
            ups,
            downs,
            ..
        } && ups == 0 && downs == Seq::<Seq<char>>::empty(),
{
}

/// The number of leading segments on which two split namespaces agree.
fn common_prefix_count(cs: &Vec<String>, ts: &Vec<String>) -> (k: usize)
    ensures
        k as nat == common_prefix_len(views_of(cs@), views_of(ts@)),
{
    let mut k: usize = 0;
    loop
        invariant
            k <= cs@.len(),
            k <= ts@.len(),
            forall|i: int| 0 <= i < k ==> views_of(cs@)[i] == views_of(ts@)[i],
        decreases cs@.len() - k,
    {
        if k == cs.len() || k == ts.len() {
            proof {
                lemma_common_prefix_unique(views_of(cs@), views_of(ts@), k as int);
            }
            return k;
        }
        if !str_same(cs[k].as_str(), ts[k].as_str()) {
            proof {
                lemma_common_prefix_unique(views_of(cs@), views_of(ts@), k as int);
            }
            return k;
        }
        k += 1;
    }
}

/// Computes the relative qualifier between two namespace strings.
pub fn relative_qualifier(ctx: &str, target: &str) -> (q: Qualifier)
    ensures
        q.ups as nat == spec_qualifier(ctx@, target@).0,
        views_of(q.downs@) == spec_qualifier(ctx@, target@).1,
{
    if target.unicode_len() == 0 || str_same(ctx, target) {
        let q = Qualifier { ups: 0, downs: Vec::new() };
        proof {
            assert(views_of(q.downs@) =~= Seq::<Seq<char>>::empty());
        }
        return q;
    }
    if ctx.unicode_len() == 0 {
        return Qualifier { ups: 0, downs: split_namespace(target) };
    }
    let cs = split_namespace(ctx);
    let ts = split_namespace(target);
    let k = common_prefix_count(&cs, &ts);
    proof {
        lemma_common_prefix_bound(views_of(cs@), views_of(ts@));
    }
    let ups = cs.len() - k;
    let mut downs: Vec<String> = Vec::new();
    let mut i: usize = k;
    while i < ts.len()
        invariant
            k <= i <= ts@.len(),
            views_of(downs@) =~= views_of(ts@).subrange(k as int, i as int),
        decreases ts@.len() - i,
    {
        let ghost before = downs@;
        downs.push(ts[i].clone());
        proof {
            assert(views_of(downs@) =~= views_of(before).push(ts@[i as int]@));
        }
        i += 1;
    }
    proof {
        assert(views_of(ts@).subrange(k as int, ts@.len() as int) =~= views_of(ts@).skip(k as int));
    }
    Qualifier { ups, downs }
}

/// Resolves a type reference against the emitting namespace `ctx`. A
/// reference to a primitive kind outside the closed set aborts with an
/// unsupported-construct error naming the offending tag; no placeholder
/// expression is ever produced.
pub fn resolve(ctx: &str, ty: &TypeRef) -> (r: Result<TypeExpression, Error>)
    ensures
        r matches Result::Ok(e) ==> spec_resolve(ctx@, *ty) == Result::Ok::<
            TypeExpressionV,
            u32,
        >(e.dv()),
        r matches Result::Err(e) ==> spec_resolve(ctx@, *ty) is Err && e@
            == ErrorV::Unsupported("type kind "@ + dec_str(spec_resolve(ctx@, *ty)->Err_0 as nat)),
    decreases *ty,
{
    match ty {
        TypeRef::Primitive(tag) => match primitive_of(*tag) {
            Option::Some(k) => Result::Ok(TypeExpression::Primitive(k)),
            Option::None => Result::Err(unsupported_kind(*tag)),
        },
        TypeRef::MutPtr(inner) => match resolve(ctx, inner) {
            Result::Ok(e) => Result::Ok(
                TypeExpression::Pointer { mutable: true, inner: Box::new(e) },
            ),
            Result::Err(e) => Result::Err(e),
        },
        TypeRef::ConstPtr(inner) => match resolve(ctx, inner) {
            Result::Ok(e) => Result::Ok(
                TypeExpression::Pointer { mutable: false, inner: Box::new(e) },
            ),
            Result::Err(e) => Result::Err(e),
        },
        TypeRef::Array(inner, len) => match resolve(ctx, inner) {
            Result::Ok(e) => Result::Ok(TypeExpression::Array { inner: Box::new(e), len: *len }),
            Result::Err(e) => Result::Err(e),
        },
        TypeRef::Named { namespace, name, generics } => {
            let mut gs: Vec<TypeExpression> = Vec::new();
            let n = generics.len();
            let mut i: usize = 0;
            #[verifier::loop_isolation(false)]
            while i < n
                invariant
                    n == generics@.len(),
                    i <= n,
                    spec_resolve_seq(ctx@, generics@.take(i as int)) == Result::Ok::<
                        Seq<TypeExpressionV>,
                        u32,
                    >(TypeExpression::dv_seq(gs@)),
                decreases n - i,
            {
                proof {
                    assert(decreases_to!(*ty => (*ty)->generics));
                    assert(decreases_to!((*ty)->generics => (*ty)->generics@));
                    vstd::seq::axiom_seq_index_decreases::<TypeRef>(generics@, i as int);
                    assert(decreases_to!(*ty => generics@[i as int]));
                }
                match resolve(ctx, &generics[i]) {
                    Result::Ok(e) => {
                        let ghost before = gs@;
                        gs.push(e);
                        proof {
                            assert(generics@.take(i as int + 1).drop_last() =~= generics@.take(
                                i as int,
                            ));
                            assert(generics@.take(i as int + 1).last() == generics@[i as int]);
                            lemma_resolve_seq_snoc(ctx@, generics@.take(i as int + 1));
                            lemma_dv_seq_snoc(before, e);
                        }
                    },
                    Result::Err(er) => {
                        proof {
                            lemma_resolve_seq_prefix_err(ctx@, generics@, i as int);
                            assert(spec_resolve(ctx@, *ty) == Result::Err::<TypeExpressionV, u32>(
                                spec_resolve(ctx@, generics@[i as int])->Err_0,
                            ));
                        }
                        return Result::Err(er);
                    },
                }
                i += 1;
            }
            proof {
                assert(generics@.take(n as int) =~= generics@);
            }
            let qualifier = relative_qualifier(ctx, namespace.as_str());
            let e = TypeExpression::Named { qualifier, name: name.clone(), generics: gs };
            proof {
                assert(spec_resolve(ctx@, *ty) == Result::Ok::<TypeExpressionV, u32>(e.dv()));
            }
            Result::Ok(e)
        },
    }
}

fn unsupported_kind(tag: u32) -> (e: Error)
    ensures
        e@ == ErrorV::Unsupported("type kind "@ + dec_str(tag as nat)),
{
    let mut m = String::new();
    m.append("type kind ");
    push_dec(&mut m, tag as u64);
    Error::Unsupported(m)
}

proof fn lemma_dv_seq_snoc(s: Seq<TypeExpression>, last: TypeExpression)
    ensures
        TypeExpression::dv_seq(s.push(last)) =~= TypeExpression::dv_seq(s).push(last.dv()),
    decreases s.len(),
{
    if s.len() == 0 {
        assert(s.push(last) =~= seq![last]);
        assert(s.push(last).drop_first() =~= Seq::<TypeExpression>::empty());
        assert(TypeExpression::dv_seq(Seq::<TypeExpression>::empty())
            =~= Seq::<TypeExpressionV>::empty());
        assert(TypeExpression::dv_seq(s.push(last)) =~= seq![last.dv()]);
    } else {
        assert(s.push(last)[0] == s[0]);
        assert(s.push(last).drop_first() =~= s.drop_first().push(last));
        lemma_dv_seq_snoc(s.drop_first(), last);
    }
}

/// Appending one more reference to a wholly resolvable prefix resolves it
/// and appends its resolution.
proof fn lemma_resolve_seq_snoc(ctx: Seq<char>, s: Seq<TypeRef>)
    requires
        s.len() > 0,
        spec_resolve_seq(ctx, s.drop_last()) is Ok,
    ensures
        spec_resolve_seq(ctx, s) == match (spec_resolve(ctx, s.last()), spec_resolve_seq(
            ctx,
            s.drop_last(),
        )) {
            (Result::Ok(e), Result::Ok(rest)) => Result::Ok::<Seq<TypeExpressionV>, u32>(
                rest.push(e),
            ),
            (Result::Err(t), _) => Result::Err(t),
            (_, Result::Err(t)) => Result::Err(t),
        },
    decreases s.len(),
{
    if s.len() == 1 {
        assert(s.drop_first() =~= Seq::<TypeRef>::empty());
        assert(s.drop_last() =~= Seq::<TypeRef>::empty());
        if spec_resolve(ctx, s[0]) is Ok {
            assert(seq![spec_resolve(ctx, s[0])->Ok_0] + Seq::<TypeExpressionV>::empty()
                =~= Seq::<TypeExpressionV>::empty().push(spec_resolve(ctx, s[0])->Ok_0));
        }
    } else {
        assert(s.drop_last().drop_first() =~= s.drop_first().drop_last());
        assert(s.drop_last()[0] == s[0]);
        assert(s.drop_first().last() == s.last());
        if spec_resolve(ctx, s[0]) is Ok {
            lemma_resolve_seq_snoc(ctx, s.drop_first());
            if spec_resolve(ctx, s.last()) is Ok && spec_resolve_seq(ctx, s.drop_first()) is Ok {
                let e = spec_resolve(ctx, s.last())->Ok_0;
                let rest = spec_resolve_seq(ctx, s.drop_first().drop_last())->Ok_0;
                assert(seq![spec_resolve(ctx, s[0])->Ok_0] + rest.push(e) =~= (seq![
                    spec_resolve(ctx, s[0])->Ok_0,
                ] + rest).push(e));
            }
        }
    }
}

/// A failure at position `i`, after a wholly resolvable prefix, fails the
/// whole sequence with that same tag.
proof fn lemma_resolve_seq_prefix_err(ctx: Seq<char>, s: Seq<TypeRef>, i: int)
    requires
        0 <= i < s.len(),
        spec_resolve_seq(ctx, s.take(i)) is Ok,
        spec_resolve(ctx, s[i]) is Err,
    ensures
        spec_resolve_seq(ctx, s) == Result::Err::<Seq<TypeExpressionV>, u32>(
            spec_resolve(ctx, s[i])->Err_0,
        ),
    decreases i,
{
    if i == 0 {
        assert(spec_resolve(ctx, s[0]) is Err);
    } else {
        assert(s.take(i)[0] == s[0]);
        assert(spec_resolve(ctx, s[0]) is Ok) by {
            assert(spec_resolve_seq(ctx, s.take(i)) is Ok);
        }
        assert(s.take(i).drop_first() =~= s.drop_first().take(i - 1));
        assert(s.drop_first()[i - 1] == s[i]);
        lemma_resolve_seq_prefix_err(ctx, s.drop_first(), i - 1);
    }
}

/// The textual notation of each primitive kind.
pub open spec fn spec_prim_name(k: PrimitiveKind) -> Seq<char> {
    match k {
        PrimitiveKind::Void => "::core::ffi::c_void"@,
        PrimitiveKind::Bool => "bool"@,
        PrimitiveKind::Char => "u16"@,
        PrimitiveKind::I8 => "i8"@,
        PrimitiveKind::U8 => "u8"@,
        PrimitiveKind::I16 => "i16"@,
        PrimitiveKind::U16 => "u16"@,
        PrimitiveKind::I32 => "i32"@,
        PrimitiveKind::U32 => "u32"@,
        PrimitiveKind::I64 => "i64"@,
        PrimitiveKind::U64 => "u64"@,
        PrimitiveKind::F32 => "f32"@,
        PrimitiveKind::F64 => "f64"@,
        PrimitiveKind::ISize => "isize"@,
        PrimitiveKind::USize => "usize"@,
    }
}

pub fn prim_name(k: PrimitiveKind) -> (r: &'static str)
    ensures
        r@ == spec_prim_name(k),
{
    match k {
        PrimitiveKind::Void => "::core::ffi::c_void",
        PrimitiveKind::Bool => "bool",
        PrimitiveKind::Char => "u16",
        PrimitiveKind::I8 => "i8",
        PrimitiveKind::U8 => "u8",
        PrimitiveKind::I16 => "i16",
        PrimitiveKind::U16 => "u16",
        PrimitiveKind::I32 => "i32",
        PrimitiveKind::U32 => "u32",
        PrimitiveKind::I64 => "i64",
        PrimitiveKind::U64 => "u64",
        PrimitiveKind::F32 => "f32",
        PrimitiveKind::F64 => "f64",
        PrimitiveKind::ISize => "isize",
        PrimitiveKind::USize => "usize",
    }
}

} // verus!
