//! Verified text utilities shared by the pipeline: namespace splitting on the
//! `.` separator, lexicographic ordering of segment names (used to keep child
//! iteration order stable), joining, and decimal rendering of constants.

use vstd::prelude::*;

verus! {

/// The views of a vector of strings.
pub open spec fn views_of(v: Seq<String>) -> Seq<Seq<char>> {
    v.map_values(|s: String| s@)
}

/// The segments of a namespace string, split on `.`. A string with `n` dots
/// has `n + 1` segments; segments may be empty (the builder rejects those).
pub open spec fn segments_of(s: Seq<char>) -> Seq<Seq<char>>
    decreases s.len(),
{
    if s.len() == 0 {
        seq![Seq::<char>::empty()]
    } else {
        let rest = segments_of(s.drop_first());
        if s[0] == '.' {
            seq![Seq::<char>::empty()] + rest
        } else {
            seq![seq![s[0]] + rest[0]] + rest.drop_first()
        }
    }
}

pub open spec fn dot_free(s: Seq<char>) -> bool {
    forall|i: int| 0 <= i < s.len() ==> s[i] != '.'
}

pub proof fn lemma_segments_nonempty(s: Seq<char>)
    ensures
        segments_of(s).len() >= 1,
    decreases s.len(),
{
    if s.len() > 0 {
        lemma_segments_nonempty(s.drop_first());
    }
}

/// A dot-free string is a single segment.
pub proof fn lemma_segments_dot_free(s: Seq<char>)
    requires
        dot_free(s),
    ensures
        segments_of(s) =~~= seq![s],
    decreases s.len(),
{
    if s.len() > 0 {
        assert(dot_free(s.drop_first()));
        lemma_segments_dot_free(s.drop_first());
        assert(seq![s[0]] + s.drop_first() =~= s);
    }
}

/// Splitting at the first dot: a dot-free prefix becomes the first segment.
pub proof fn lemma_segments_split(a: Seq<char>, b: Seq<char>)
    requires
        dot_free(a),
    ensures
        segments_of(a + seq!['.'] + b) =~~= seq![a] + segments_of(b),
    decreases a.len(),
{
    let s = a + seq!['.'] + b;
    if a.len() == 0 {
        assert(s =~= seq!['.'] + b);
        assert(s[0] == '.');
        assert(s.drop_first() =~= b);
    } else {
        assert(dot_free(a.drop_first()));
        lemma_segments_split(a.drop_first(), b);
        assert(s.drop_first() =~= a.drop_first() + seq!['.'] + b);
        lemma_segments_nonempty(b);
        assert(segments_of(s.drop_first())[0] == a.drop_first());
        assert(seq![s[0]] + a.drop_first() =~= a);
        assert(segments_of(s.drop_first()).drop_first() =~= segments_of(b));
    }
}

/// Every segment produced by splitting is dot-free.
pub proof fn lemma_segments_dot_free_each(s: Seq<char>)
    ensures
        forall|i: int|
            0 <= i < segments_of(s).len() ==> dot_free(#[trigger] segments_of(s)[i]),
    decreases s.len(),
{
    if s.len() > 0 {
        lemma_segments_dot_free_each(s.drop_first());
        lemma_segments_nonempty(s.drop_first());
        let rest = segments_of(s.drop_first());
        if s[0] != '.' {
            assert(dot_free(seq![s[0]] + rest[0]));
        }
    }
}

/// Splits a fully qualified namespace into its segments.
pub fn split_namespace(s: &str) -> (r: Vec<String>)
    ensures
        views_of(r@) == segments_of(s@),
{
    let n = s.unicode_len();
    let mut r: Vec<String> = Vec::new();
    let mut start: usize = 0;
    let mut i: usize = 0;
    proof {
        assert(s@.skip(0) =~= s@);
        assert(views_of(r@) =~= Seq::<Seq<char>>::empty());
    }
    while i < n
        invariant
            n == s@.len(),
            start <= i <= n,
            forall|j: int| start <= j < i ==> s@[j] != '.',
            segments_of(s@) =~~= views_of(r@) + segments_of(s@.skip(start as int)),
        decreases n - i,
    {
        let c = s.get_char(i);
        if c == '.' {
            let seg = s.substring_char(start, i);
            let seg = String::from_str(seg);
            proof {
                let tail = s@.skip(start as int);
                let a = s@.subrange(start as int, i as int);
                assert(dot_free(a));
                assert(tail =~= a + seq!['.'] + s@.skip(i as int + 1));
                lemma_segments_split(a, s@.skip(i as int + 1));
            }
            let ghost old_r = r@;
            r.push(seg);
            proof {
                assert(views_of(r@) =~= views_of(old_r) + seq![seg@]);
            }
            start = i + 1;
        }
        i += 1;
    }
    let seg = s.substring_char(start, n);
    let seg = String::from_str(seg);
    proof {
        let tail = s@.skip(start as int);
        assert(dot_free(tail));
        lemma_segments_dot_free(tail);
        assert(tail =~= s@.subrange(start as int, n as int));
    }
    let ghost old_r = r@;
    r.push(seg);
    proof {
        assert(views_of(r@) =~= views_of(old_r) + seq![seg@]);
    }
    r
}

/// Lexicographic order on character sequences, by code point, with a proper
/// prefix ordered first.
pub open spec fn str_lt(a: Seq<char>, b: Seq<char>) -> bool
    decreases a.len(),
{
    if b.len() == 0 {
        false
    } else if a.len() == 0 {
        true
    } else if (a[0] as u32) < (b[0] as u32) {
        true
    } else if a[0] == b[0] {
        str_lt(a.drop_first(), b.drop_first())
    } else {
        false
    }
}

/// Exactly one of `a == b`, `str_lt(a, b)`, `str_lt(b, a)` holds.
pub proof fn lemma_str_lt_trichotomy(a: Seq<char>, b: Seq<char>)
    ensures
        a == b || str_lt(a, b) || str_lt(b, a),
        !(a == b && str_lt(a, b)),
        !(str_lt(a, b) && str_lt(b, a)),
    decreases a.len(),
{
    if a.len() > 0 && b.len() > 0 {
        vstd::utf8::char_u32_cast(a[0], a[0] as u32);
        vstd::utf8::char_u32_cast(b[0], b[0] as u32);
        if a[0] == b[0] {
            assert((a[0] as u32) == (b[0] as u32));
            lemma_str_lt_trichotomy(a.drop_first(), b.drop_first());
            if a.drop_first() == b.drop_first() {
                assert(a =~= seq![a[0]] + a.drop_first());
                assert(b =~= seq![b[0]] + b.drop_first());
            }
        } else {
            assert((a[0] as u32) != (b[0] as u32));
        }
    } else {
        if a.len() == 0 && b.len() == 0 {
            assert(a =~= b);
        }
    }
}

pub proof fn lemma_str_lt_transitive(a: Seq<char>, b: Seq<char>, c: Seq<char>)
    requires
        str_lt(a, b),
        str_lt(b, c),
    ensures
        str_lt(a, c),
    decreases a.len(),
{
    if a.len() > 0 && b.len() > 0 && c.len() > 0 {
        if a[0] == b[0] && b[0] == c[0] {
            lemma_str_lt_transitive(a.drop_first(), b.drop_first(), c.drop_first());
        }
    }
}

/// Two strictly sorted sequences with the same members are equal.
pub proof fn lemma_sorted_same_members(a: Seq<Seq<char>>, b: Seq<Seq<char>>)
    requires
        forall|i: int, j: int| 0 <= i < j < a.len() ==> str_lt(a[i], a[j]),
        forall|i: int, j: int| 0 <= i < j < b.len() ==> str_lt(b[i], b[j]),
        forall|x: Seq<char>| a.contains(x) <==> b.contains(x),
    ensures
        a =~= b,
    decreases a.len(),
{
    if a.len() == 0 {
        if b.len() > 0 {
            assert(a.contains(b[0]));
        }
    } else {
        assert(b.contains(a[0]));
        assert(a.contains(b[0]));
        let ia = choose|i: int| 0 <= i < a.len() && a[i] == b[0];
        let ib = choose|i: int| 0 <= i < b.len() && b[i] == a[0];
        if ia > 0 {
            assert(str_lt(a[0], a[ia]));
        }
        if ib > 0 {
            assert(str_lt(b[0], b[ib]));
        }
        lemma_str_lt_trichotomy(a[0], b[0]);
        assert(a[0] == b[0]);
        let at = a.drop_first();
        let bt = b.drop_first();
        assert forall|x: Seq<char>| at.contains(x) implies bt.contains(x) by {
            let i = choose|i: int| 0 <= i < at.len() && at[i] == x;
            assert(a[i + 1] == x);
            assert(str_lt(a[0], x));
            assert(a.contains(x));
            assert(b.contains(x));
            let j = choose|j: int| 0 <= j < b.len() && b[j] == x;
            lemma_str_lt_trichotomy(b[0], x);
            assert(j != 0);
            assert(bt[j - 1] == x);
        }
        assert forall|x: Seq<char>| bt.contains(x) implies at.contains(x) by {
            let i = choose|i: int| 0 <= i < bt.len() && bt[i] == x;
            assert(b[i + 1] == x);
            assert(str_lt(b[0], x));
            assert(b.contains(x));
            assert(a.contains(x));
            let j = choose|j: int| 0 <= j < a.len() && a[j] == x;
            lemma_str_lt_trichotomy(a[0], x);
            assert(j != 0);
            assert(at[j - 1] == x);
        }
        lemma_sorted_same_members(at, bt);
        assert(a.len() == b.len());
        assert forall|i: int| 0 <= i < a.len() implies a[i] == b[i] by {
            if i > 0 {
                assert(at[i - 1] == bt[i - 1]);
            }
        }
    }
}

/// If two strings agree on their first `k` characters and differ at `k`, the
/// order is decided by the characters at `k`.
proof fn lemma_str_lt_at(a: Seq<char>, b: Seq<char>, k: int)
    requires
        0 <= k < a.len(),
        k < b.len(),
        forall|j: int| 0 <= j < k ==> a[j] == b[j],
        a[k] != b[k],
    ensures
        str_lt(a, b) == ((a[k] as u32) < (b[k] as u32)),
    decreases k,
{
    if k > 0 {
        lemma_str_lt_at(a.drop_first(), b.drop_first(), k - 1);
    } else {
        vstd::utf8::char_u32_cast(a[0], a[0] as u32);
        vstd::utf8::char_u32_cast(b[0], b[0] as u32);
        assert((a[0] as u32) != (b[0] as u32));
    }
}

/// If `a` is a proper prefix of `b` (or equal), the shorter string comes first.
proof fn lemma_str_lt_prefix(a: Seq<char>, b: Seq<char>, k: int)
    requires
        0 <= k <= a.len(),
        k <= b.len(),
        a.len() == k || b.len() == k,
        forall|j: int| 0 <= j < k ==> a[j] == b[j],
    ensures
        str_lt(a, b) == (a.len() < b.len()),
    decreases k,
{
    if k > 0 {
        lemma_str_lt_prefix(a.drop_first(), b.drop_first(), k - 1);
    }
}

/// Compares two strings in the lexicographic order `str_lt`.
pub fn str_less(a: &str, b: &str) -> (r: bool)
    ensures
        r == str_lt(a@, b@),
{
    let an = a.unicode_len();
    let bn = b.unicode_len();
    let mut i: usize = 0;
    loop
        invariant
            an == a@.len(),
            bn == b@.len(),
            i <= an,
            i <= bn,
            forall|j: int| 0 <= j < i ==> a@[j] == b@[j],
        decreases an - i,
    {
        if i == an || i == bn {
            proof {
                lemma_str_lt_prefix(a@, b@, i as int);
            }
            return an < bn;
        }
        let ca = a.get_char(i);
        let cb = b.get_char(i);
        if ca != cb {
            proof {
                lemma_str_lt_at(a@, b@, i as int);
            }
            return (ca as u32) < (cb as u32);
        }
        i += 1;
    }
}

/// Whether two strings hold the same characters.
pub fn str_same(a: &str, b: &str) -> (r: bool)
    ensures
        r == (a@ == b@),
{
    let an = a.unicode_len();
    let bn = b.unicode_len();
    if an != bn {
        proof {
            if a@ == b@ {
                assert(a@.len() == b@.len());
            }
        }
        return false;
    }
    let mut i: usize = 0;
    while i < an
        invariant
            an == a@.len() == b@.len(),
            i <= an,
            forall|j: int| 0 <= j < i ==> a@[j] == b@[j],
        decreases an - i,
    {
        if a.get_char(i) != b.get_char(i) {
            return false;
        }
        i += 1;
    }
    proof {
        assert(a@ =~= b@);
    }
    true
}

/// Joins segments with a separator; the inverse shape of `segments_of`.
pub open spec fn join_sep(segs: Seq<Seq<char>>, sep: Seq<char>) -> Seq<char>
    decreases segs.len(),
{
    if segs.len() == 0 {
        Seq::empty()
    } else if segs.len() == 1 {
        segs[0]
    } else {
        segs[0] + sep + join_sep(segs.drop_first(), sep)
    }
}

/// Joins the views of `segs` with `sep`.
pub fn join_with(segs: &Vec<String>, sep: &str) -> (r: String)
    ensures
        r@ == join_sep(views_of(segs@), sep@),
{
    let mut r = String::new();
    let n = segs.len();
    let mut i: usize = 0;
    while i < n
        invariant
            n == segs@.len(),
            i <= n,
            r@ == join_sep(views_of(segs@.take(i as int)), sep@),
        decreases n - i,
    {
        if i > 0 {
            r.append(sep);
        }
        r.append(segs[i].as_str());
        proof {
            lemma_join_snoc(views_of(segs@.take(i as int)), segs@[i as int]@, sep@);
            assert(views_of(segs@.take(i as int + 1)) =~= views_of(segs@.take(i as int)).push(
                segs@[i as int]@,
            ));
        }
        i += 1;
    }
    proof {
        assert(segs@.take(n as int) =~= segs@);
    }
    r
}

pub proof fn lemma_join_snoc(segs: Seq<Seq<char>>, last: Seq<char>, sep: Seq<char>)
    ensures
        join_sep(segs.push(last), sep) == if segs.len() == 0 {
            last
        } else {
            join_sep(segs, sep) + sep + last
        },
    decreases segs.len(),
{
    if segs.len() == 0 {
        assert(segs.push(last) =~= seq![last]);
    } else {
        lemma_join_snoc(segs.drop_first(), last, sep);
        assert(segs.push(last).drop_first() =~= segs.drop_first().push(last));
        assert(segs.push(last)[0] == segs[0]);
        if segs.len() == 1 {
            assert(segs.drop_first().push(last) =~= seq![last]);
        }
    }
}

/// Appending one element to a filtered sequence of strings.
pub proof fn lemma_filter_push_views(
    s: Seq<Seq<char>>,
    pred: spec_fn(Seq<char>) -> bool,
    x: Seq<char>,
)
    ensures
        s.push(x).filter(pred) == if pred(x) {
            s.filter(pred).push(x)
        } else {
            s.filter(pred)
        },
{
    reveal(Seq::filter);
    assert(s.push(x).drop_last() =~= s);
    assert(s.push(x).last() == x);
}

/// The decimal digits of `n`, most significant first.
pub open spec fn dec_str(n: nat) -> Seq<char>
    decreases n,
{
    if n < 10 {
        seq![digit_char(n)]
    } else {
        dec_str(n / 10) + seq![digit_char(n % 10)]
    }
}

pub open spec fn digit_char(d: nat) -> char {
    if d == 0 {
        '0'
    } else if d == 1 {
        '1'
    } else if d == 2 {
        '2'
    } else if d == 3 {
        '3'
    } else if d == 4 {
        '4'
    } else if d == 5 {
        '5'
    } else if d == 6 {
        '6'
    } else if d == 7 {
        '7'
    } else if d == 8 {
        '8'
    } else {
        '9'
    }
}

fn digit_str(d: u64) -> (r: &'static str)
    requires
        d < 10,
    ensures
        r@ =~= seq![digit_char(d as nat)],
{
    proof {
        reveal_strlit("0");
        reveal_strlit("1");
        reveal_strlit("2");
        reveal_strlit("3");
        reveal_strlit("4");
        reveal_strlit("5");
        reveal_strlit("6");
        reveal_strlit("7");
        reveal_strlit("8");
        reveal_strlit("9");
    }
    if d == 0 {
        "0"
    } else if d == 1 {
        "1"
    } else if d == 2 {
        "2"
    } else if d == 3 {
        "3"
    } else if d == 4 {
        "4"
    } else if d == 5 {
        "5"
    } else if d == 6 {
        "6"
    } else if d == 7 {
        "7"
    } else if d == 8 {
        "8"
    } else {
        "9"
    }
}

/// Appends the decimal rendering of `n` to `out`.
pub fn push_dec(out: &mut String, n: u64)
    ensures
        final(out)@ == old(out)@ + dec_str(n as nat),
    decreases n,
{
    if n >= 10 {
        push_dec(out, n / 10);
    }
    out.append(digit_str(n % 10));
}

/// The feature name of a namespace: its segments after the root namespace,
/// joined with `_`; a single-segment namespace is its own feature name.
pub open spec fn spec_feature_of(ns: Seq<char>) -> Seq<char> {
    let segs = segments_of(ns);
    if segs.len() <= 1 {
        join_sep(segs, "_"@)
    } else {
        join_sep(segs.drop_first(), "_"@)
    }
}

/// Computes the feature name of a namespace.
pub fn feature_of(ns: &str) -> (r: String)
    ensures
        r@ == spec_feature_of(ns@),
{
    let mut segs = split_namespace(ns);
    if segs.len() > 1 {
        let ghost before = segs@;
        segs.remove(0);
        proof {
            assert(views_of(segs@) =~= views_of(before).drop_first());
        }
    }
    join_with(&segs, "_")
}

} // verus!
