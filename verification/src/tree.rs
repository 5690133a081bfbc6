//! The namespace tree builder: aggregates the flat stream of
//! namespace-qualified type definitions into a hierarchical tree, applying the
//! caller's inclusion filter. Types attach only to their exact owning node;
//! the root owns the whole structure and never holds types itself. Child
//! iteration order is stable across runs (strictly sorted by segment name),
//! so textual output is reproducible for the same input.

use vstd::prelude::*;

use crate::meta::{Filter, Reader, TypeDef};
use crate::text::{
    dot_free, join_sep, lemma_join_snoc, lemma_segments_dot_free_each, lemma_segments_nonempty,
    lemma_str_lt_transitive, lemma_str_lt_trichotomy, segments_of, split_namespace, str_less,
    str_lt, str_same, views_of,
};
use crate::meta::spec_includes;
use crate::{Error, ErrorV};

verus! {

broadcast use vstd::std_specs::vec::group_vec_axioms;

/// The namespace of a child under `parent` with segment `seg`.
pub open spec fn spec_child_ns(parent: Seq<char>, seg: Seq<char>) -> Seq<char> {
    if parent.len() == 0 {
        seg
    } else {
        parent + "."@ + seg
    }
}

/// Whether `ns` names `base` itself or something beneath it: `base` is a
/// prefix and, where anything follows a nonempty `base`, a separator stands
/// right after it.
pub open spec fn ns_extends(ns: Seq<char>, base: Seq<char>) -> bool {
    ns.len() >= base.len() && ns.take(base.len() as int) == base && (ns.len() == base.len()
        || base.len() == 0 || ns[base.len() as int] == '.')
}

pub proof fn lemma_ns_extends_trans(a: Seq<char>, b: Seq<char>, c: Seq<char>)
    requires
        ns_extends(a, b),
        ns_extends(b, c),
    ensures
        ns_extends(a, c),
{
    assert(a.take(c.len() as int) =~= a.take(b.len() as int).take(c.len() as int));
    if a.len() > c.len() && c.len() > 0 {
        if b.len() == c.len() {
            assert(b =~= c);
        } else {
            assert(a[c.len() as int] == b[c.len() as int]);
        }
    }
}

/// The ascending sequence of snapshot indices below `n` that the filter
/// keeps and whose definition declares exactly the namespace `ns`.
pub open spec fn kept_upto(reader: Reader, filter: &Filter, ns: Seq<char>, n: int) -> Seq<usize>
    decreases n,
{
    if n <= 0 {
        Seq::empty()
    } else {
        kept_upto(reader, filter, ns, n - 1) + (if spec_kept(reader.types@[n - 1], filter)
            && reader.types@[n - 1].namespace@ == ns {
            seq![(n - 1) as usize]
        } else {
            Seq::empty()
        })
    }
}

/// The ascending sequence of all kept snapshot indices of namespace `ns`.
pub open spec fn kept_indices(reader: Reader, filter: &Filter, ns: Seq<char>) -> Seq<usize> {
    kept_upto(reader, filter, ns, reader.types@.len() as int)
}

/// One namespace node: its fully qualified name, its final segment, its
/// children strictly sorted by segment, and the attached type definitions
/// (indices into the snapshot, in snapshot order).
#[derive(Debug)]
pub struct Tree {
    pub namespace: String,
    pub segment: String,
    pub nested: Vec<Tree>,
    pub types: Vec<usize>,
}

impl Tree {
    /// Well-formedness: every child's namespace is its parent's namespace
    /// extended by its own nonempty, dot-free segment, and children are
    /// strictly sorted by segment — so no namespace appears twice.
    pub open spec fn wf(self) -> bool
        decreases self,
    {
        &&& forall|i: int|
            0 <= i < self.nested@.len() ==> (#[trigger] self.nested@[i]).segment@.len() > 0
                && dot_free(self.nested@[i].segment@) && self.nested@[i].namespace@
                == spec_child_ns(self.namespace@, self.nested@[i].segment@) && self.nested@[i].wf()
        &&& forall|i: int, j: int|
            0 <= i < j < self.nested@.len() ==> str_lt(
                #[trigger] self.nested@[i].segment@,
                #[trigger] self.nested@[j].segment@,
            )
    }

    /// Whether the type with snapshot index `idx` is attached to the node
    /// whose namespace is `ns`, somewhere in this subtree.
    pub open spec fn attaches(self, ns: Seq<char>, idx: usize) -> bool
        decreases self,
    {
        (self.namespace@ == ns && self.types@.contains(idx)) || exists|i: int|
            0 <= i < self.nested@.len() && (#[trigger] self.nested@[i]).attaches(ns, idx)
    }

    /// Whether some node of this subtree has the namespace `ns`.
    pub open spec fn ns_in(self, ns: Seq<char>) -> bool
        decreases self,
    {
        self.namespace@ == ns || exists|i: int|
            0 <= i < self.nested@.len() && (#[trigger] self.nested@[i]).ns_in(ns)
    }

    /// Whether the subtree holds at least one attached definition.
    pub open spec fn subtree_has_type(self) -> bool
        decreases self,
    {
        self.types@.len() > 0 || exists|i: int|
            0 <= i < self.nested@.len() && (#[trigger] self.nested@[i]).subtree_has_type()
    }

    /// No spurious nodes: every child subtree holds at least one attached
    /// definition.
    pub open spec fn pruned(self) -> bool
        decreases self,
    {
        forall|i: int|
            0 <= i < self.nested@.len() ==> (#[trigger] self.nested@[i]).subtree_has_type() && self.nested@[i].pruned()
    }

    /// Every node's `types` is exactly the ascending sequence of kept
    /// snapshot indices below `n` declaring that node's namespace.
    pub open spec fn types_exact_upto(self, reader: Reader, filter: &Filter, n: int) -> bool
        decreases self,
    {
        self.types@ == kept_upto(reader, filter, self.namespace@, n) && forall|i: int|
            0 <= i < self.nested@.len() ==> (#[trigger] self.nested@[i]).types_exact_upto(
                reader,
                filter,
                n,
            )
    }

    /// Builds the namespace tree over the snapshot, keeping exactly the
    /// definitions the filter includes and attaching each to the node of its
    /// own namespace: every node's `types` is the ascending, duplicate-free
    /// sequence of kept snapshot indices declaring its namespace, and every
    /// node below the root holds at least one definition in its subtree. A
    /// kept definition whose namespace has an empty segment aborts
    /// construction with a malformed-namespace error naming that namespace;
    /// the first such definition in snapshot order is reported.
    pub fn new(reader: &Reader, filter: &Filter) -> (r: Result<Tree, Error>)
        ensures
            r is Ok <==> (forall|j: int|
                0 <= j < reader.types@.len() ==> spec_kept(#[trigger] reader.types@[j], filter)
                    ==> !spec_malformed(reader.types@[j])),
            r matches Result::Ok(t) ==> t.wf() && t.pruned() && t.types_exact_upto(
                *reader,
                filter,
                reader.types@.len() as int,
            ) && t.namespace@ == Seq::<char>::empty() && (forall|ns: Seq<char>, idx: usize|
                t.attaches(ns, idx) <==> (idx < reader.types@.len() && spec_kept(
                    reader.types@[idx as int],
                    filter,
                ) && reader.types@[idx as int].namespace@ == ns)),
            r matches Result::Err(e) ==> exists|j: int|
                0 <= j < reader.types@.len() && spec_kept(#[trigger] reader.types@[j], filter)
                    && spec_malformed(reader.types@[j]) && e@ == ErrorV::MalformedNamespace(
                    reader.types@[j].namespace@,
                ) && (forall|jj: int|
                    0 <= jj < j ==> spec_kept(#[trigger] reader.types@[jj], filter)
                        ==> !spec_malformed(reader.types@[jj])),
    {
        let mut tree = Tree {
            namespace: String::new(),
            segment: String::new(),
            nested: Vec::new(),
            types: Vec::new(),
        };
        let n = reader.types.len();
        let mut i: usize = 0;
        proof {
            assert(kept_upto(*reader, filter, tree.namespace@, 0) =~= Seq::<usize>::empty());
            assert(tree.types@ =~= Seq::<usize>::empty());
        }
        #[verifier::loop_isolation(false)]
        while i < n
            invariant
                i <= n,
                tree.wf(),
                tree.pruned(),
                tree.types_exact_upto(*reader, filter, i as int),
                tree.namespace@ == Seq::<char>::empty(),
                forall|j: int|
                    0 <= j < i ==> spec_kept(#[trigger] reader.types@[j], filter)
                        ==> !spec_malformed(reader.types@[j]),
                forall|ns: Seq<char>, idx: usize|
                    tree.attaches(ns, idx) <==> (idx < i && spec_kept(
                        reader.types@[idx as int],
                        filter,
                    ) && reader.types@[idx as int].namespace@ == ns),
            decreases n - i,
        {
            let td = &reader.types[i];
            if filter.includes_type(td.namespace.as_str(), td.name.as_str()) {
                let segs = split_namespace(td.namespace.as_str());
                let mut j: usize = 0;
                let mut bad = false;
                #[verifier::loop_isolation(false)]
                while j < segs.len()
                    invariant
                        j <= segs@.len(),
                        bad == exists|jj: int|
                            0 <= jj < j && views_of(segs@)[jj].len() == 0,
                    decreases segs@.len() - j,
                {
                    if segs[j].as_str().unicode_len() == 0 {
                        bad = true;
                        proof {
                            assert(views_of(segs@)[j as int].len() == 0);
                        }
                    }
                    j += 1;
                }
                if bad {
                    proof {
                        assert(spec_malformed(reader.types@[i as int]));
                    }
                    return Result::Err(Error::MalformedNamespace(td.namespace.clone()));
                }
                proof {
                    assert(!spec_malformed(reader.types@[i as int]));
                    lemma_segments_dot_free_each(td.namespace@);
                    lemma_join_segments(td.namespace@);
                    lemma_segments_nonempty(td.namespace@);
                    assert forall|j2: int|
                        0 <= j2 < i && spec_kept(#[trigger] reader.types@[j2], filter)
                            && ns_extends(
                            reader.types@[j2].namespace@,
                            tree.namespace@,
                        ) implies tree.ns_in(reader.types@[j2].namespace@) by {
                        assert(tree.attaches(reader.types@[j2].namespace@, j2 as usize));
                        lemma_attaches_ns_in(tree, reader.types@[j2].namespace@, j2 as usize);
                    }
                }
                let ghost before = tree;
                insert_at(&mut tree, &segs, 0, i, reader, filter, Ghost(td.namespace@));
                proof {
                    assert forall|ns: Seq<char>, idx: usize|
                        tree.attaches(ns, idx) <==> (idx < i + 1 && spec_kept(
                            reader.types@[idx as int],
                            filter,
                        ) && reader.types@[idx as int].namespace@ == ns) by {
                        if tree.attaches(ns, idx) {
                            if !before.attaches(ns, idx) {
                                assert(idx == i && ns == td.namespace@);
                            }
                        }
                    }
                }
            } else {
                proof {
                    assert(!spec_kept(reader.types@[i as int], filter));
                    lemma_types_exact_step_unkept(tree, *reader, filter, i as int);
                }
            }
            i += 1;
        }
        Result::Ok(tree)
    }
}

/// Whether the filter keeps a definition, by its qualified name.
pub open spec fn spec_kept(td: TypeDef, filter: &Filter) -> bool {
    spec_includes(filter.rules@, td.namespace@ + "."@ + td.name@)
}

/// Whether a definition's namespace has an empty segment.
pub open spec fn spec_malformed(td: TypeDef) -> bool {
    exists|i: int|
        0 <= i < segments_of(td.namespace@).len() && (#[trigger] segments_of(td.namespace@)[
            i
        ]).len() == 0
}

/// Joining the segments of a namespace gives the namespace back.
pub proof fn lemma_join_segments(s: Seq<char>)
    ensures
        join_sep(segments_of(s), "."@) == s,
    decreases s.len(),
{
    reveal_strlit(".");
    if s.len() == 0 {
        assert(join_sep(segments_of(s), "."@) =~= s);
    } else {
        lemma_join_segments(s.drop_first());
        lemma_segments_nonempty(s.drop_first());
        let rest = segments_of(s.drop_first());
        if s[0] == '.' {
            assert(segments_of(s).drop_first() =~= rest);
            if rest.len() == 1 {
                assert(join_sep(segments_of(s), "."@) =~= Seq::<char>::empty() + "."@ + rest[0]);
                assert(join_sep(rest, "."@) == rest[0]);
                assert(join_sep(segments_of(s), "."@) =~= s);
            } else {
                assert(join_sep(segments_of(s), "."@) =~= Seq::<char>::empty() + "."@ + join_sep(
                    rest,
                    "."@,
                ));
                assert(join_sep(segments_of(s), "."@) =~= s);
            }
        } else {
            let head = seq![s[0]] + rest[0];
            assert(segments_of(s)[0] == head);
            assert(segments_of(s).drop_first() =~= rest.drop_first());
            if rest.len() == 1 {
                assert(segments_of(s).len() == 1);
                assert(join_sep(segments_of(s), "."@) == head);
                assert(join_sep(rest, "."@) == rest[0]);
                assert(head =~= s);
            } else {
                assert(join_sep(segments_of(s), "."@) =~= head + "."@ + join_sep(
                    rest.drop_first(),
                    "."@,
                ));
                assert(join_sep(rest, "."@) =~= rest[0] + "."@ + join_sep(rest.drop_first(), "."@));
                assert(join_sep(segments_of(s), "."@) =~= seq![s[0]] + join_sep(rest, "."@));
                assert(seq![s[0]] + s.drop_first() =~= s);
            }
        }
    }
}

/// The namespace spelled by the first `k` segments.
pub open spec fn prefix_ns(segs: Seq<Seq<char>>, k: int) -> Seq<char> {
    join_sep(segs.take(k), "."@)
}

proof fn lemma_join_first_len(segs: Seq<Seq<char>>)
    requires
        segs.len() > 0,
    ensures
        join_sep(segs, "."@).len() >= segs[0].len(),
    decreases segs.len(),
{
}

/// Extending the spelled prefix by one segment.
proof fn lemma_prefix_ns_step(segs: Seq<Seq<char>>, k: int)
    requires
        0 <= k < segs.len(),
        forall|i: int| 0 <= i < segs.len() ==> (#[trigger] segs[i]).len() > 0,
    ensures
        prefix_ns(segs, k + 1) == spec_child_ns(prefix_ns(segs, k), segs[k]),
{
    assert(segs.take(k + 1) =~= segs.take(k).push(segs[k]));
    lemma_join_snoc(segs.take(k), segs[k], "."@);
    if k == 0 {
        assert(segs.take(0) =~= Seq::<Seq<char>>::empty());
        assert(join_sep(segs.take(k + 1), "."@) == segs[0]);
    } else {
        assert(segs.take(k)[0] == segs[0]);
        lemma_join_first_len(segs.take(k));
        assert(prefix_ns(segs, k).len() > 0);
    }
}

/// Every namespace of a well-formed subtree extends the root node's own.
pub proof fn lemma_ns_in_extends(t: Tree, ns: Seq<char>)
    requires
        t.wf(),
        t.ns_in(ns),
    ensures
        ns_extends(ns, t.namespace@),
    decreases t,
{
    broadcast use vstd::std_specs::vec::group_vec_axioms;

    reveal_strlit(".");
    if t.namespace@ == ns {
        assert(ns.take(ns.len() as int) =~= ns);
    } else {
        let i = choose|i: int| 0 <= i < t.nested@.len() && (#[trigger] t.nested@[i]).ns_in(ns);
        let c = t.nested@[i];
        lemma_ns_in_extends(c, ns);
        assert(c.namespace@ == spec_child_ns(t.namespace@, c.segment@));
        assert(ns_extends(c.namespace@, t.namespace@)) by {
            if t.namespace@.len() == 0 {
                assert(c.namespace@.take(0) =~= t.namespace@);
            } else {
                assert(c.namespace@.take(t.namespace@.len() as int) =~= t.namespace@);
            }
        }
        lemma_ns_extends_trans(ns, c.namespace@, t.namespace@);
    }
}

/// A well-formed subtree whose root namespace is longer than `ns` holds no
/// node named `ns`.
pub proof fn lemma_no_ns_in_longer(t: Tree, ns: Seq<char>)
    requires
        t.wf(),
        t.namespace@.len() > ns.len(),
    ensures
        !t.ns_in(ns),
{
    if t.ns_in(ns) {
        lemma_ns_in_extends(t, ns);
    }
}

/// A subtree avoiding the namespace of the definition at `n` keeps its exact
/// type sequences across that step.
pub proof fn lemma_types_exact_step(t: Tree, reader: Reader, filter: &Filter, n: int)
    requires
        t.types_exact_upto(reader, filter, n),
        0 <= n < reader.types@.len(),
        !t.ns_in(reader.types@[n].namespace@),
    ensures
        t.types_exact_upto(reader, filter, n + 1),
    decreases t,
{
    broadcast use vstd::std_specs::vec::group_vec_axioms;

    assert(t.namespace@ != reader.types@[n].namespace@);
    assert(kept_upto(reader, filter, t.namespace@, n + 1) =~= kept_upto(
        reader,
        filter,
        t.namespace@,
        n,
    ));
    assert forall|i: int|
        0 <= i < t.nested@.len() implies (#[trigger] t.nested@[i]).types_exact_upto(
        reader,
        filter,
        n + 1,
    ) by {
        assert(!t.nested@[i].ns_in(reader.types@[n].namespace@));
        lemma_types_exact_step(t.nested@[i], reader, filter, n);
    }
}

/// An attached definition's namespace names a node of the tree.
pub proof fn lemma_attaches_ns_in(t: Tree, ns: Seq<char>, idx: usize)
    requires
        t.attaches(ns, idx),
    ensures
        t.ns_in(ns),
    decreases t,
{
    broadcast use vstd::std_specs::vec::group_vec_axioms;

    if !(t.namespace@ == ns && t.types@.contains(idx)) {
        let i = choose|i: int|
            0 <= i < t.nested@.len() && (#[trigger] t.nested@[i]).attaches(ns, idx);
        lemma_attaches_ns_in(t.nested@[i], ns, idx);
    }
}

/// The namespace spelled by all segments extends the one spelled by the
/// first `j`.
pub proof fn lemma_join_take_ext(segs: Seq<Seq<char>>, j: int)
    requires
        0 <= j <= segs.len(),
    ensures
        ns_extends(join_sep(segs, "."@), prefix_ns(segs, j)),
    decreases segs.len() - j,
{
    reveal_strlit(".");
    if j == segs.len() {
        assert(segs.take(j) =~= segs);
        let w = join_sep(segs, "."@);
        assert(w.take(w.len() as int) =~= w);
    } else {
        lemma_join_take_ext(segs, j + 1);
        assert(segs.take(j + 1) =~= segs.take(j).push(segs[j]));
        lemma_join_snoc(segs.take(j), segs[j], "."@);
        let base = prefix_ns(segs, j);
        let next = prefix_ns(segs, j + 1);
        assert(ns_extends(next, base)) by {
            if j == 0 {
                assert(segs.take(0) =~= Seq::<Seq<char>>::empty());
                assert(next.take(0) =~= base);
            } else {
                assert(next =~= base + "."@ + segs[j]);
                assert(next.take(base.len() as int) =~= base);
                assert(next[base.len() as int] == '.');
            }
        }
        lemma_ns_extends_trans(join_sep(segs, "."@), next, base);
    }
}

/// Two child segments under one base that a single namespace extends are the
/// same segment.
pub proof fn lemma_child_ext_unique(
    full: Seq<char>,
    base: Seq<char>,
    s1: Seq<char>,
    s2: Seq<char>,
)
    requires
        ns_extends(full, spec_child_ns(base, s1)),
        ns_extends(full, spec_child_ns(base, s2)),
        dot_free(s1),
        dot_free(s2),
        s1.len() > 0,
        s2.len() > 0,
    ensures
        s1 == s2,
{
    if s1.len() <= s2.len() {
        lemma_child_ext_unique_ordered(full, base, s1, s2);
    } else {
        lemma_child_ext_unique_ordered(full, base, s2, s1);
    }
}

proof fn lemma_child_ext_unique_ordered(
    full: Seq<char>,
    base: Seq<char>,
    s1: Seq<char>,
    s2: Seq<char>,
)
    requires
        ns_extends(full, spec_child_ns(base, s1)),
        ns_extends(full, spec_child_ns(base, s2)),
        dot_free(s1),
        dot_free(s2),
        0 < s1.len() <= s2.len(),
    ensures
        s1 == s2,
{
    reveal_strlit(".");
    let p: int = if base.len() == 0 {
        0int
    } else {
        base.len() as int + 1
    };
    let b1 = spec_child_ns(base, s1);
    let b2 = spec_child_ns(base, s2);
    assert(b1.len() == p + s1.len());
    assert(b2.len() == p + s2.len());
    assert forall|i: int| 0 <= i < s1.len() implies full[p + i] == s1[i] by {
        assert(full.take(b1.len() as int)[p + i] == b1[p + i]);
    }
    assert forall|i: int| 0 <= i < s2.len() implies full[p + i] == s2[i] by {
        assert(full.take(b2.len() as int)[p + i] == b2[p + i]);
    }
    if s1.len() < s2.len() {
        // The character after `s1` is a separator by the first extension and
        // a segment character by the second: impossible.
        assert(full[p + s1.len()] == s2[s1.len() as int]);
        assert(s2[s1.len() as int] != '.');
        assert(full.len() >= b2.len() > b1.len());
        assert(full[b1.len() as int] == '.');
        assert(false);
    }
    assert(s1 =~= s2);
}

/// A child namespace extends its parent's.
proof fn lemma_child_ns_extends(base: Seq<char>, seg: Seq<char>)
    ensures
        ns_extends(spec_child_ns(base, seg), base),
        spec_child_ns(base, seg).len() >= base.len() + seg.len(),
{
    reveal_strlit(".");
    if base.len() == 0 {
        assert(spec_child_ns(base, seg).take(0) =~= base);
    } else {
        assert((base + "."@ + seg).take(base.len() as int) =~= base);
        assert((base + "."@ + seg)[base.len() as int] == '.');
    }
}

/// A step over a definition the filter drops changes no kept sequence.
proof fn lemma_types_exact_step_unkept(t: Tree, reader: Reader, filter: &Filter, n: int)
    requires
        t.types_exact_upto(reader, filter, n),
        0 <= n < reader.types@.len(),
        !spec_kept(reader.types@[n], filter),
    ensures
        t.types_exact_upto(reader, filter, n + 1),
    decreases t,
{
    broadcast use vstd::std_specs::vec::group_vec_axioms;

    assert(kept_upto(reader, filter, t.namespace@, n + 1) =~= kept_upto(
        reader,
        filter,
        t.namespace@,
        n,
    ));
    assert forall|i: int|
        0 <= i < t.nested@.len() implies (#[trigger] t.nested@[i]).types_exact_upto(
        reader,
        filter,
        n + 1,
    ) by {
        lemma_types_exact_step_unkept(t.nested@[i], reader, filter, n);
    }
}

/// A namespace no kept definition below `n` declares has no kept indices.
proof fn lemma_kept_upto_empty(reader: Reader, filter: &Filter, ns: Seq<char>, n: int)
    requires
        forall|j: int|
            0 <= j < n ==> !(spec_kept(#[trigger] reader.types@[j], filter)
                && reader.types@[j].namespace@ == ns),
    ensures
        kept_upto(reader, filter, ns, n) == Seq::<usize>::empty(),
    decreases n,
{
    if n > 0 {
        lemma_kept_upto_empty(reader, filter, ns, n - 1);
        assert(kept_upto(reader, filter, ns, n) =~= Seq::<usize>::empty());
    }
}

/// A node with no types and no children attaches nothing.
proof fn lemma_attaches_empty(t: Tree)
    requires
        t.nested@.len() == 0,
        t.types@.len() == 0,
    ensures
        forall|ns: Seq<char>, idx: usize| !t.attaches(ns, idx),
{
}

/// Inserts type index `t` at the node named by `segs` (from depth `k` on),
/// creating intermediate nodes as needed.
#[verifier::rlimit(100)]
#[verifier::spinoff_prover]
fn insert_at(
    node: &mut Tree,
    segs: &Vec<String>,
    k: usize,
    t: usize,
    reader: &Reader,
    filter: &Filter,
    Ghost(full): Ghost<Seq<char>>,
)
    requires
        old(node).wf(),
        old(node).pruned(),
        k <= segs@.len(),
        forall|i: int| 0 <= i < segs@.len() ==> (#[trigger] views_of(segs@)[i]).len() > 0,
        forall|i: int| 0 <= i < segs@.len() ==> dot_free(#[trigger] views_of(segs@)[i]),
        old(node).namespace@ == prefix_ns(views_of(segs@), k as int),
        full == join_sep(views_of(segs@), "."@),
        t < reader.types@.len(),
        spec_kept(reader.types@[t as int], filter),
        reader.types@[t as int].namespace@ == full,
        old(node).types_exact_upto(*reader, filter, t as int),
        forall|j: int|
            0 <= j < t && spec_kept(#[trigger] reader.types@[j], filter) && ns_extends(
                reader.types@[j].namespace@,
                old(node).namespace@,
            ) ==> old(node).ns_in(reader.types@[j].namespace@),
    ensures
        final(node).wf(),
        final(node).pruned(),
        final(node).subtree_has_type(),
        final(node).types_exact_upto(*reader, filter, t as int + 1),
        final(node).namespace == old(node).namespace,
        final(node).segment == old(node).segment,
        forall|ns: Seq<char>, idx: usize|
            final(node).attaches(ns, idx) <==> (old(node).attaches(ns, idx) || (idx == t && ns
                == full)),
    decreases segs@.len() - k,
{
    let ghost segviews = views_of(segs@);
    if k == segs.len() {
        proof {
            assert(segviews.take(k as int) =~= segviews);
        }
        let ghost before = *node;
        node.types.push(t);
        proof {
            assert forall|ns: Seq<char>, idx: usize|
                node.attaches(ns, idx) <==> (before.attaches(ns, idx) || (idx == t && ns
                    == full)) by {
                assert(node.types@ == before.types@.push(t));
                if node.attaches(ns, idx) {
                    if node.namespace@ == ns && node.types@.contains(idx) {
                        let w = choose|w: int|
                            0 <= w < node.types@.len() && node.types@[w] == idx;
                        if w < before.types@.len() {
                            assert(before.types@.contains(idx));
                        }
                    }
                }
                if before.attaches(ns, idx) {
                    if before.namespace@ == ns && before.types@.contains(idx) {
                        let w = choose|w: int|
                            0 <= w < before.types@.len() && before.types@[w] == idx;
                        assert(node.types@[w] == idx);
                    }
                }
                if idx == t && ns == full {
                    assert(node.types@[node.types@.len() - 1] == t);
                    assert(node.types@.contains(idx));
                }
            }
            assert(node.namespace@ == full);
            assert(node.types@ =~= kept_upto(*reader, filter, full, t as int + 1));
            assert forall|i: int|
                0 <= i < node.nested@.len() implies (#[trigger] node.nested@[i]).types_exact_upto(
                *reader,
                filter,
                t as int + 1,
            ) by {
                reveal_strlit(".");
                assert(node.nested@[i].namespace@.len() > full.len());
                lemma_no_ns_in_longer(node.nested@[i], full);
                lemma_types_exact_step(node.nested@[i], *reader, filter, t as int);
            }
            assert(node.types_exact_upto(*reader, filter, t as int + 1));
            assert(node.subtree_has_type());
            assert(node.pruned());
        }
        return ;
    }
    let seg = &segs[k];
    // Find the first child whose segment is not below `seg`.
    let mut j: usize = 0;
    #[verifier::loop_isolation(false)]
    while j < node.nested.len() && str_less(node.nested[j].segment.as_str(), seg.as_str())
        invariant
            *node == *old(node),
            j <= node.nested@.len(),
            forall|i: int| 0 <= i < j ==> str_lt((#[trigger] node.nested@[i]).segment@, seg@),
        decreases node.nested@.len() - j,
    {
        j += 1;
    }
    let ghost before = *node;
    if j < node.nested.len() && str_same(node.nested[j].segment.as_str(), seg.as_str()) {
        // Descend into the existing child.
        let mut child = node.nested.remove(j);
        let ghost child0 = child;
        proof {
            lemma_prefix_ns_step(segviews, k as int);
            lemma_child_ns_extends(before.namespace@, segviews[k as int]);
            assert(child.types_exact_upto(*reader, filter, t as int));
            assert(child.pruned());
            assert forall|j2: int|
                0 <= j2 < t && spec_kept(#[trigger] reader.types@[j2], filter) && ns_extends(
                    reader.types@[j2].namespace@,
                    child.namespace@,
                ) implies child.ns_in(reader.types@[j2].namespace@) by {
                let nsj = reader.types@[j2].namespace@;
                lemma_ns_extends_trans(nsj, child.namespace@, before.namespace@);
                assert(before.ns_in(nsj));
                assert(child.namespace@.len() > before.namespace@.len()) by {
                    reveal_strlit(".");
                }
                assert(nsj != before.namespace@);
                let ci = choose|ci: int|
                    0 <= ci < before.nested@.len() && (#[trigger] before.nested@[ci]).ns_in(nsj);
                lemma_ns_in_extends(before.nested@[ci], nsj);
                lemma_child_ext_unique(
                    nsj,
                    before.namespace@,
                    before.nested@[ci].segment@,
                    child.segment@,
                );
                if ci != j {
                    lemma_str_lt_trichotomy(
                        before.nested@[ci].segment@,
                        before.nested@[j as int].segment@,
                    );
                    assert(false);
                }
            }
        }
        insert_at(&mut child, segs, k + 1, t, reader, filter, Ghost(full));
        node.nested.insert(j, child);
        proof {
            assert(node.nested@ =~= before.nested@.update(j as int, child));
            assert(node.wf()) by {
                assert(forall|i: int|
                    0 <= i < node.nested@.len() && i != j ==> node.nested@[i] == before.nested@[i]);
                assert(node.nested@[j as int].segment@ == child0.segment@);
                assert(node.nested@[j as int].namespace@ == child0.namespace@);
            }
            assert forall|ns: Seq<char>, idx: usize|
                node.attaches(ns, idx) <==> (before.attaches(ns, idx) || (idx == t && ns
                    == full)) by {
                assert(node.types@ == before.types@);
                assert(node.namespace@ == before.namespace@);
                if node.attaches(ns, idx) && !before.attaches(ns, idx) {
                    if node.namespace@ == ns && node.types@.contains(idx) {
                        assert(before.attaches(ns, idx));
                    } else {
                        assert(exists|w: int|
                            0 <= w < node.nested@.len() && (#[trigger] node.nested@[w]).attaches(
                                ns,
                                idx,
                            ));
                        let w = choose|w: int|
                            0 <= w < node.nested@.len() && (#[trigger] node.nested@[w]).attaches(
                                ns,
                                idx,
                            );
                        if w == j {
                            if child0.attaches(ns, idx) {
                                assert(before.nested@[j as int].attaches(ns, idx));
                                assert(before.attaches(ns, idx));
                            } else {
                                assert(idx == t && ns == full);
                            }
                        } else {
                            assert(before.nested@[w].attaches(ns, idx));
                            assert(before.attaches(ns, idx));
                        }
                    }
                }
                if before.attaches(ns, idx) {
                    if before.namespace@ == ns && before.types@.contains(idx) {
                        assert(node.attaches(ns, idx));
                    } else {
                        let w = choose|w: int|
                            0 <= w < before.nested@.len() && (#[trigger] before.nested@[w]).attaches(
                                ns,
                                idx,
                            );
                        if w == j {
                            assert(child0.attaches(ns, idx));
                            assert(child.attaches(ns, idx));
                            assert(node.nested@[w].attaches(ns, idx));
                        } else {
                            assert(node.nested@[w].attaches(ns, idx));
                        }
                        assert(node.attaches(ns, idx));
                    }
                }
                if idx == t && ns == full {
                    assert(child.attaches(ns, idx));
                    assert(node.nested@[j as int].attaches(ns, idx));
                    assert(node.attaches(ns, idx));
                }
            }
            assert(before == *old(node));
            assert forall|ns: Seq<char>, idx: usize|
                node.attaches(ns, idx) <==> (old(node).attaches(ns, idx) || (idx == t && ns
                    == full)) by {
                assert(node.attaches(ns, idx) <==> (before.attaches(ns, idx) || (idx == t && ns
                    == full)));
            }
            // The node's own sequence is untouched by the step, and every
            // child's stays exact: the descended child by the recursion, the
            // others because their subtrees avoid the inserted namespace.
            lemma_join_take_ext(segviews, k as int + 1);
            assert(ns_extends(full, spec_child_ns(before.namespace@, segviews[k as int])));
            assert(before.namespace@ != full) by {
                reveal_strlit(".");
                assert(spec_child_ns(before.namespace@, segviews[k as int]).len()
                    > before.namespace@.len());
            }
            assert(kept_upto(*reader, filter, node.namespace@, t as int + 1) =~= kept_upto(
                *reader,
                filter,
                node.namespace@,
                t as int,
            ));
            assert forall|i: int|
                0 <= i < node.nested@.len() implies (#[trigger] node.nested@[i]).types_exact_upto(
                *reader,
                filter,
                t as int + 1,
            ) && node.nested@[i].subtree_has_type() && node.nested@[i].pruned() by {
                if i == j {
                    assert(node.nested@[i] == child);
                } else {
                    assert(node.nested@[i] == before.nested@[i]);
                    if before.nested@[i].ns_in(full) {
                        lemma_ns_in_extends(before.nested@[i], full);
                        lemma_child_ext_unique(
                            full,
                            before.namespace@,
                            before.nested@[i].segment@,
                            child0.segment@,
                        );
                        lemma_str_lt_trichotomy(
                            before.nested@[i].segment@,
                            before.nested@[j as int].segment@,
                        );
                        assert(false);
                    }
                    lemma_types_exact_step(before.nested@[i], *reader, filter, t as int);
                }
            }
            assert(node.types_exact_upto(*reader, filter, t as int + 1));
            assert(node.nested@[j as int].subtree_has_type());
            assert(node.subtree_has_type());
            assert(node.pruned());
        }
    } else {
        // Create a fresh child for this segment and descend into it.
        proof {
            if j < node.nested@.len() {
                lemma_str_lt_trichotomy(node.nested@[j as int].segment@, seg@);
            }
        }
        let mut ns = String::new();
        if node.namespace.as_str().unicode_len() == 0 {
            ns.append(seg.as_str());
        } else {
            ns.append(node.namespace.as_str());
            ns.append(".");
            ns.append(seg.as_str());
        }
        let mut child = Tree {
            namespace: ns,
            segment: seg.clone(),
            nested: Vec::new(),
            types: Vec::new(),
        };
        proof {
            lemma_prefix_ns_step(segviews, k as int);
            assert(child.namespace@ == prefix_ns(segviews, k as int + 1));
            lemma_attaches_empty(child);
            lemma_child_ns_extends(before.namespace@, segviews[k as int]);
            // No existing child carries this segment.
            assert forall|i: int|
                0 <= i < before.nested@.len() implies (#[trigger] before.nested@[i]).segment@
                != seg@ by {
                lemma_str_lt_trichotomy(before.nested@[i].segment@, seg@);
                if i >= j && j < before.nested@.len() {
                    lemma_str_lt_trichotomy(before.nested@[j as int].segment@, seg@);
                    if i > j {
                        lemma_str_lt_transitive(
                            seg@,
                            before.nested@[j as int].segment@,
                            before.nested@[i].segment@,
                        );
                    }
                }
            }
            // No earlier kept definition declares a namespace at or under the
            // fresh node, so its sequences start exact and its presence
            // premise is vacuous.
            assert forall|j2: int|
                0 <= j2 < t && spec_kept(#[trigger] reader.types@[j2], filter) && ns_extends(
                    reader.types@[j2].namespace@,
                    child.namespace@,
                ) implies false by {
                let nsj = reader.types@[j2].namespace@;
                lemma_ns_extends_trans(nsj, child.namespace@, before.namespace@);
                assert(before.ns_in(nsj));
                assert(child.namespace@.len() > before.namespace@.len()) by {
                    reveal_strlit(".");
                }
                assert(nsj != before.namespace@);
                let ci = choose|ci: int|
                    0 <= ci < before.nested@.len() && (#[trigger] before.nested@[ci]).ns_in(nsj);
                lemma_ns_in_extends(before.nested@[ci], nsj);
                lemma_child_ext_unique(
                    nsj,
                    before.namespace@,
                    before.nested@[ci].segment@,
                    segviews[k as int],
                );
            }
            assert forall|j2: int|
                0 <= j2 < t implies !(spec_kept(#[trigger] reader.types@[j2], filter)
                && reader.types@[j2].namespace@ == child.namespace@) by {
                if spec_kept(reader.types@[j2], filter) && reader.types@[j2].namespace@
                    == child.namespace@ {
                    assert(child.namespace@.take(child.namespace@.len() as int)
                        =~= child.namespace@);
                    assert(ns_extends(reader.types@[j2].namespace@, child.namespace@));
                }
            }
            lemma_kept_upto_empty(*reader, filter, child.namespace@, t as int);
            assert(child.types@ =~= kept_upto(*reader, filter, child.namespace@, t as int));
            assert(child.types_exact_upto(*reader, filter, t as int));
            assert(child.pruned());
        }
        let ghost fresh = child;
        insert_at(&mut child, segs, k + 1, t, reader, filter, Ghost(full));
        node.nested.insert(j, child);
        proof {
            assert(node.nested@ =~= before.nested@.insert(j as int, child));
            assert forall|i1: int, i2: int|
                0 <= i1 < i2 < node.nested@.len() implies str_lt(
                (#[trigger] node.nested@[i1]).segment@,
                (#[trigger] node.nested@[i2]).segment@,
            ) by {
                let jj = j as int;
                if i1 < jj && i2 == jj {
                    assert(node.nested@[i1] == before.nested@[i1]);
                } else if i1 == jj && i2 > jj {
                    assert(node.nested@[i2] == before.nested@[i2 - 1]);
                    assert(i2 - 1 >= jj);
                    if i2 - 1 == jj {
                        assert(str_lt(seg@, before.nested@[jj].segment@));
                    } else {
                        lemma_str_lt_trichotomy(seg@, before.nested@[jj].segment@);
                        lemma_str_lt_transitive(
                            seg@,
                            before.nested@[jj].segment@,
                            before.nested@[i2 - 1].segment@,
                        );
                    }
                } else if i1 < jj && i2 > jj {
                    assert(node.nested@[i1] == before.nested@[i1]);
                    assert(node.nested@[i2] == before.nested@[i2 - 1]);
                    if i1 == i2 - 1 {
                        assert(str_lt(before.nested@[i1].segment@, seg@));
                        assert(str_lt(seg@, before.nested@[i2 - 1].segment@));
                    }
                } else if i1 > jj {
                    assert(node.nested@[i1] == before.nested@[i1 - 1]);
                    assert(node.nested@[i2] == before.nested@[i2 - 1]);
                } else if i2 < jj {
                    assert(node.nested@[i1] == before.nested@[i1]);
                    assert(node.nested@[i2] == before.nested@[i2]);
                }
            }
            assert(node.wf()) by {
                assert(forall|i: int|
                    0 <= i < j ==> node.nested@[i] == before.nested@[i]);
                assert(forall|i: int|
                    j < i < node.nested@.len() ==> node.nested@[i] == before.nested@[i - 1]);
                assert(node.nested@[j as int] == child);
            }
            assert forall|ns2: Seq<char>, idx: usize|
                node.attaches(ns2, idx) <==> (before.attaches(ns2, idx) || (idx == t && ns2
                    == full)) by {
                assert(node.types@ == before.types@);
                assert(node.namespace@ == before.namespace@);
                if node.attaches(ns2, idx) && !before.attaches(ns2, idx) {
                    if node.namespace@ == ns2 && node.types@.contains(idx) {
                        assert(before.attaches(ns2, idx));
                    } else {
                        assert(exists|w: int|
                            0 <= w < node.nested@.len() && (#[trigger] node.nested@[w]).attaches(
                                ns2,
                                idx,
                            ));
                        let w = choose|w: int|
                            0 <= w < node.nested@.len() && (#[trigger] node.nested@[w]).attaches(
                                ns2,
                                idx,
                            );
                        if w == j {
                            if fresh.attaches(ns2, idx) {
                                assert(false);
                            } else {
                                assert(idx == t && ns2 == full);
                            }
                        } else if w < j {
                            assert(before.nested@[w].attaches(ns2, idx));
                            assert(before.attaches(ns2, idx));
                        } else {
                            assert(before.nested@[w - 1].attaches(ns2, idx));
                            assert(before.attaches(ns2, idx));
                        }
                    }
                }
                if before.attaches(ns2, idx) {
                    if before.namespace@ == ns2 && before.types@.contains(idx) {
                        assert(node.attaches(ns2, idx));
                    } else {
                        let w = choose|w: int|
                            0 <= w < before.nested@.len() && (#[trigger] before.nested@[w]).attaches(
                                ns2,
                                idx,
                            );
                        if w < j {
                            assert(node.nested@[w].attaches(ns2, idx));
                        } else {
                            assert(node.nested@[w + 1].attaches(ns2, idx));
                        }
                        assert(node.attaches(ns2, idx));
                    }
                }
                if idx == t && ns2 == full {
                    assert(child.attaches(ns2, idx));
                    assert(node.nested@[j as int].attaches(ns2, idx));
                    assert(node.attaches(ns2, idx));
                }
            }
            assert(before == *old(node));
            assert forall|ns: Seq<char>, idx: usize|
                node.attaches(ns, idx) <==> (old(node).attaches(ns, idx) || (idx == t && ns
                    == full)) by {
                assert(node.attaches(ns, idx) <==> (before.attaches(ns, idx) || (idx == t && ns
                    == full)));
            }
            // The node's own sequence is untouched by the step; the fresh
            // child is exact by the recursion, and the shifted others stay
            // exact because their subtrees avoid the inserted namespace.
            lemma_join_take_ext(segviews, k as int + 1);
            assert(ns_extends(full, spec_child_ns(before.namespace@, segviews[k as int])));
            assert(before.namespace@ != full) by {
                reveal_strlit(".");
                assert(spec_child_ns(before.namespace@, segviews[k as int]).len()
                    > before.namespace@.len());
            }
            assert(kept_upto(*reader, filter, node.namespace@, t as int + 1) =~= kept_upto(
                *reader,
                filter,
                node.namespace@,
                t as int,
            ));
            assert forall|i: int|
                0 <= i < node.nested@.len() implies (#[trigger] node.nested@[i]).types_exact_upto(
                *reader,
                filter,
                t as int + 1,
            ) && node.nested@[i].subtree_has_type() && node.nested@[i].pruned() by {
                if i == j {
                    assert(node.nested@[i] == child);
                } else {
                    let ghost io: int = if i < j {
                        i
                    } else {
                        i - 1
                    };
                    assert(node.nested@[i] == before.nested@[io]);
                    if before.nested@[io].ns_in(full) {
                        lemma_ns_in_extends(before.nested@[io], full);
                        lemma_child_ext_unique(
                            full,
                            before.namespace@,
                            before.nested@[io].segment@,
                            segviews[k as int],
                        );
                        assert(false);
                    }
                    lemma_types_exact_step(before.nested@[io], *reader, filter, t as int);
                }
            }
            assert(node.types_exact_upto(*reader, filter, t as int + 1));
            assert(node.nested@[j as int].subtree_has_type());
            assert(node.subtree_has_type());
            assert(node.pruned());
        }
    }
}

} // verus!
