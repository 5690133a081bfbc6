//! The configuration requirement set of a definition: the conjunction of named feature
//! requirements derived from its own namespace and from every namespace its
//! fields' types reference. The requirement set is rendered sorted and without
//! duplicates, so emission is reproducible. The token backend renders only
//! enum definitions, whose fields are literal constants over one primitive
//! value field and reference no further definitions, so for everything it
//! renders this requirement set is the full dependency closure.

use vstd::prelude::*;

use crate::meta::{Field, TypeDef, TypeRef};
use crate::text::{
    feature_of, lemma_str_lt_trichotomy, lemma_str_lt_transitive, spec_feature_of, str_less,
    str_lt, str_same, views_of,
};

verus! {

broadcast use vstd::std_specs::vec::group_vec_axioms, vstd::seq_lib::group_seq_properties;

/// The namespaces a type reference names, in traversal order.
pub open spec fn type_ns_list(ty: TypeRef) -> Seq<Seq<char>>
    decreases ty,
{
    match ty {
        TypeRef::Primitive(_) => Seq::empty(),
        TypeRef::MutPtr(inner) => type_ns_list(*inner),
        TypeRef::ConstPtr(inner) => type_ns_list(*inner),
        TypeRef::Array(inner, _) => type_ns_list(*inner),
        TypeRef::Named { namespace, name, generics } => seq![namespace@] + type_ns_seq(generics@),
    }
}

pub open spec fn type_ns_seq(s: Seq<TypeRef>) -> Seq<Seq<char>>
    decreases s,
{
    if s.len() == 0 {
        Seq::empty()
    } else {
        type_ns_list(s[0]) + type_ns_seq(s.drop_first())
    }
}

/// The namespaces all fields of a definition reference.
pub open spec fn fields_ns_list(fields: Seq<Field>) -> Seq<Seq<char>>
    decreases fields,
{
    if fields.len() == 0 {
        Seq::empty()
    } else {
        type_ns_list(fields[0].ty) + fields_ns_list(fields.drop_first())
    }
}

/// Whether `f` belongs to the requirement set of `def`: it is the feature of the
/// definition's own namespace, or of a namespace its fields reference.
pub open spec fn cfg_member(def: TypeDef, f: Seq<char>) -> bool {
    f == spec_feature_of(def.namespace@) || exists|k: int|
        0 <= k < fields_ns_list(def.fields@).len() && f == spec_feature_of(
            #[trigger] fields_ns_list(def.fields@)[k],
        )
}

/// Appends the namespaces `ty` names to `out`.
fn collect_type_ns(ty: &TypeRef, out: &mut Vec<String>)
    ensures
        views_of(final(out)@) == views_of(old(out)@) + type_ns_list(*ty),
    decreases *ty,
{
    match ty {
        TypeRef::Primitive(_) => {
            proof {
                assert(views_of(out@) =~= views_of(out@) + type_ns_list(*ty));
            }
        },
        TypeRef::MutPtr(inner) => collect_type_ns(inner, out),
        TypeRef::ConstPtr(inner) => collect_type_ns(inner, out),
        TypeRef::Array(inner, _) => collect_type_ns(inner, out),
        TypeRef::Named { namespace, name, generics } => {
            let ghost at_entry = out@;
            out.push(namespace.clone());
            proof {
                assert(views_of(out@) =~= views_of(at_entry) + seq![namespace@]);
            }
            let n = generics.len();
            let mut i: usize = 0;
            #[verifier::loop_isolation(false)]
            while i < n
                invariant
                    i <= n,
                    views_of(out@) =~= views_of(at_entry) + seq![namespace@] + type_ns_seq(
                        generics@.take(i as int),
                    ),
                decreases n - i,
            {
                proof {
                    assert(decreases_to!(*ty => (*ty)->generics));
                    assert(decreases_to!((*ty)->generics => (*ty)->generics@));
                    vstd::seq::axiom_seq_index_decreases::<TypeRef>(generics@, i as int);
                    assert(decreases_to!(*ty => generics@[i as int]));
                }
                collect_type_ns(&generics[i], out);
                proof {
                    lemma_type_ns_seq_snoc(generics@.take(i as int + 1));
                    assert(generics@.take(i as int + 1).drop_last() =~= generics@.take(i as int));
                    assert(views_of(out@) =~= views_of(at_entry) + seq![namespace@] + type_ns_seq(
                        generics@.take(i as int + 1),
                    ));
                }
                i += 1;
            }
            proof {
                assert(generics@.take(n as int) =~= generics@);
                assert(type_ns_list(*ty) =~= seq![namespace@] + type_ns_seq(generics@));
                assert(views_of(out@) =~= views_of(at_entry) + type_ns_list(*ty));
            }
        },
    }
}

proof fn lemma_type_ns_seq_snoc(s: Seq<TypeRef>)
    requires
        s.len() > 0,
    ensures
        type_ns_seq(s) =~= type_ns_seq(s.drop_last()) + type_ns_list(s.last()),
    decreases s.len(),
{
    if s.len() == 1 {
        assert(s.drop_last() =~= Seq::<TypeRef>::empty());
        assert(s.drop_first() =~= Seq::<TypeRef>::empty());
    } else {
        lemma_type_ns_seq_snoc(s.drop_first());
        assert(s.drop_last()[0] == s[0]);
        assert(s.drop_last().drop_first() =~= s.drop_first().drop_last());
        assert(s.drop_first().last() == s.last());
    }
}

proof fn lemma_fields_ns_snoc(s: Seq<Field>)
    requires
        s.len() > 0,
    ensures
        fields_ns_list(s) =~= fields_ns_list(s.drop_last()) + type_ns_list(s.last().ty),
    decreases s.len(),
{
    if s.len() == 1 {
        assert(s.drop_last() =~= Seq::<Field>::empty());
        assert(s.drop_first() =~= Seq::<Field>::empty());
    } else {
        lemma_fields_ns_snoc(s.drop_first());
        assert(s.drop_last()[0] == s[0]);
        assert(s.drop_last().drop_first() =~= s.drop_first().drop_last());
        assert(s.drop_first().last() == s.last());
    }
}

/// Inserts a feature name into a strictly sorted vector, keeping it sorted
/// and without duplicates.
fn insert_sorted(v: &mut Vec<String>, s: String)
    requires
        forall|i: int, j: int|
            0 <= i < j < old(v)@.len() ==> str_lt(
                (#[trigger] old(v)@[i])@,
                (#[trigger] old(v)@[j])@,
            ),
    ensures
        forall|i: int, j: int|
            0 <= i < j < final(v)@.len() ==> str_lt(
                (#[trigger] final(v)@[i])@,
                (#[trigger] final(v)@[j])@,
            ),
        forall|x: Seq<char>|
            views_of(final(v)@).contains(x) <==> (views_of(old(v)@).contains(x) || x == s@),
{
    let ghost before = v@;
    let mut j: usize = 0;
    #[verifier::loop_isolation(false)]
    while j < v.len() && str_less(v[j].as_str(), s.as_str())
        invariant
            *v == *old(v),
            j <= v@.len(),
            forall|i: int| 0 <= i < j ==> str_lt((#[trigger] v@[i])@, s@),
        decreases v@.len() - j,
    {
        j += 1;
    }
    if j < v.len() && str_same(v[j].as_str(), s.as_str()) {
        proof {
            assert(views_of(v@)[j as int] == s@);
            assert forall|x: Seq<char>|
                views_of(v@).contains(x) <==> (views_of(before).contains(x) || x == s@) by {
                if x == s@ {
                    assert(views_of(v@)[j as int] == x);
                }
            }
            assert(forall|x: Seq<char>|
                views_of(v@).contains(x) <==> (views_of(old(v)@).contains(x) || x == s@));
        }
        return ;
    }
    proof {
        if j < v@.len() {
            lemma_str_lt_trichotomy(v@[j as int]@, s@);
        }
    }
    v.insert(j, s);
    proof {
        assert(v@ =~= before.insert(j as int, v@[j as int]));
        assert forall|i1: int, i2: int|
            0 <= i1 < i2 < v@.len() implies str_lt((#[trigger] v@[i1])@, (#[trigger] v@[i2])@) by {
            let jj = j as int;
            if i1 < jj && i2 == jj {
                assert(v@[i1] == before[i1]);
            } else if i1 == jj && i2 > jj {
                assert(v@[i2] == before[i2 - 1]);
                if i2 - 1 > jj {
                    lemma_str_lt_trichotomy(s@, before[jj]@);
                    lemma_str_lt_transitive(s@, before[jj]@, before[i2 - 1]@);
                }
            } else if i1 < jj && i2 > jj {
                assert(v@[i1] == before[i1]);
                assert(v@[i2] == before[i2 - 1]);
                if i1 == i2 - 1 {
                    assert(str_lt(before[i1]@, s@));
                    assert(str_lt(s@, before[i2 - 1]@));
                }
            } else if i1 > jj {
                assert(v@[i1] == before[i1 - 1]);
                assert(v@[i2] == before[i2 - 1]);
            } else if i2 < jj {
                assert(v@[i1] == before[i1]);
                assert(v@[i2] == before[i2]);
            }
        }
        assert forall|x: Seq<char>|
            views_of(v@).contains(x) <==> (views_of(before).contains(x) || x == s@) by {
            if views_of(v@).contains(x) {
                let w = choose|w: int| 0 <= w < views_of(v@).len() && views_of(v@)[w] == x;
                if w < j {
                    assert(views_of(before)[w] == x);
                } else if w > j {
                    assert(views_of(before)[w - 1] == x);
                }
            }
            if views_of(before).contains(x) {
                let w = choose|w: int|
                    0 <= w < views_of(before).len() && views_of(before)[w] == x;
                if w < j {
                    assert(views_of(v@)[w] == x);
                } else {
                    assert(views_of(v@)[w + 1] == x);
                }
            }
            if x == s@ {
                assert(views_of(v@)[j as int] == x);
            }
        }
        assert(forall|x: Seq<char>|
            views_of(v@).contains(x) <==> (views_of(old(v)@).contains(x) || x == s@));
    }
}

/// Computes the configuration requirement set of a definition: the sorted, duplicate-free
/// feature names of its own namespace and of every namespace its fields
/// reference. The requirement set is a superset of the features each referenced
/// namespace contributes.
pub fn type_def_cfg(def: &TypeDef) -> (r: Vec<String>)
    ensures
        forall|i: int, j: int|
            0 <= i < j < r@.len() ==> str_lt((#[trigger] r@[i])@, (#[trigger] r@[j])@),
        forall|f: Seq<char>| views_of(r@).contains(f) <==> cfg_member(*def, f),
{
    let mut refs: Vec<String> = Vec::new();
    let n = def.fields.len();
    let mut i: usize = 0;
    #[verifier::loop_isolation(false)]
    while i < n
        invariant
            i <= n,
            views_of(refs@) =~= fields_ns_list(def.fields@.take(i as int)),
        decreases n - i,
    {
        collect_type_ns(&def.fields[i].ty, &mut refs);
        proof {
            lemma_fields_ns_snoc(def.fields@.take(i as int + 1));
            assert(def.fields@.take(i as int + 1).drop_last() =~= def.fields@.take(i as int));
            assert(def.fields@.take(i as int + 1).last() == def.fields@[i as int]);
        }
        i += 1;
    }
    proof {
        assert(def.fields@.take(n as int) =~= def.fields@);
    }
    let mut reqs: Vec<String> = Vec::new();
    insert_sorted(&mut reqs, feature_of(def.namespace.as_str()));
    let m = refs.len();
    let mut k: usize = 0;
    #[verifier::loop_isolation(false)]
    while k < m
        invariant
            k <= m,
            m == refs@.len(),
            views_of(refs@) == fields_ns_list(def.fields@),
            forall|i2: int, j2: int|
                0 <= i2 < j2 < reqs@.len() ==> str_lt(
                    (#[trigger] reqs@[i2])@,
                    (#[trigger] reqs@[j2])@,
                ),
            forall|f: Seq<char>|
                views_of(reqs@).contains(f) <==> (f == spec_feature_of(def.namespace@) || exists|
                    k2: int,
                |
                    0 <= k2 < k && f == spec_feature_of(
                        #[trigger] fields_ns_list(def.fields@)[k2],
                    )),
        decreases m - k,
    {
        insert_sorted(&mut reqs, feature_of(refs[k].as_str()));
        proof {
            assert(views_of(refs@)[k as int] == fields_ns_list(def.fields@)[k as int]);
        }
        k += 1;
    }
    reqs
}

/// Every namespace a definition's fields reference contributes its feature
/// to the definition's requirement set: the set is a superset of its direct
/// dependencies' features.
pub proof fn lemma_cfg_covers_references(def: TypeDef, k: int)
    requires
        0 <= k < fields_ns_list(def.fields@).len(),
    ensures
        cfg_member(def, spec_feature_of(fields_ns_list(def.fields@)[k])),
{
}

} // verus!
