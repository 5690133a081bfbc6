//! Backend B: a line-oriented pretty printer with explicit indent and
//! deferred-newline state. `word` flushes a pending line break and the
//! current indentation before appending text; `newline` only requests a
//! break, so consecutive requests collapse. Modules nest braces one indent
//! level per nesting; interfaces render braced method signatures terminated
//! by `;`; structs render comma-separated fields; enums render
//! comma-separated variants with optional discriminant expressions. An
//! unsupported attribute, type, pattern or expression form aborts rendering
//! with an unsupported-construct error; indentation is restored on every
//! exit path. This backend shares no rendering code with the token backend.

use vstd::prelude::*;

use crate::idl::{
    Attribute, Class, Enum, Expr, Field, File, FnArg, Interface, ItemUse, Lit, Meta, Module,
    ModuleMember, Pat, PatType, Path, PathSegment, Signature, Struct, TraitItemFn, Ty, UnaryOp,
    UseTree, Variant,
};
use crate::{Error, ErrorV};

verus! {

broadcast use vstd::std_specs::vec::group_vec_axioms;

/// Four spaces per indent level.
pub open spec fn indent_text(n: nat) -> Seq<char>
    decreases n,
{
    if n == 0 {
        Seq::empty()
    } else {
        indent_text((n - 1) as nat) + "    "@
    }
}

/// What a pending newline turns into when the next word arrives.
pub open spec fn flush(indent: nat, pending: bool) -> Seq<char> {
    if pending {
        "\n"@ + indent_text(indent)
    } else {
        Seq::empty()
    }
}

/// The rendering of a use tree: dotted path segments, a terminal name, or
/// nothing for other forms.
pub open spec fn render_use_tree(u: UseTree, indent: nat, pending: bool) -> (Seq<char>, bool)
    decreases u,
{
    match u {
        UseTree::Path(up) => {
            let rest = render_use_tree(*up.tree, indent, false);
            (flush(indent, pending) + up.ident@ + "::"@ + rest.0, rest.1)
        },
        UseTree::Name(un) => (flush(indent, pending) + un.ident@, false),
        UseTree::Other => (Seq::empty(), pending),
    }
}

pub open spec fn render_item_use(item: ItemUse, indent: nat, pending: bool) -> (Seq<char>, bool) {
    let tree = render_use_tree(item.tree, indent, false);
    (flush(indent, pending) + "use "@ + tree.0 + flush(indent, tree.1) + ";"@, true)
}

pub open spec fn render_uses(s: Seq<ItemUse>, indent: nat, pending: bool) -> (Seq<char>, bool)
    decreases s,
{
    if s.len() == 0 {
        (Seq::empty(), pending)
    } else {
        let head = render_item_use(s[0], indent, pending);
        let rest = render_uses(s.drop_first(), indent, head.1);
        (head.0 + rest.0, rest.1)
    }
}

/// The tail of a path: `::`-separated segments after the first.
pub open spec fn render_path_rest(segs: Seq<PathSegment>) -> Seq<char>
    decreases segs,
{
    if segs.len() == 0 {
        Seq::empty()
    } else {
        "::"@ + segs[0].ident@ + render_path_rest(segs.drop_first())
    }
}

pub open spec fn render_path(p: Path, indent: nat, pending: bool) -> (Seq<char>, bool) {
    if p.segments@.len() == 0 {
        (Seq::empty(), pending)
    } else {
        (
            flush(indent, pending) + p.segments@[0].ident@ + render_path_rest(
                p.segments@.drop_first(),
            ),
            false,
        )
    }
}

/// An attribute's meta item: a bare path, a path with a parenthesized token
/// list, or an unsupported form that aborts.
pub open spec fn render_meta(m: Meta, indent: nat, pending: bool) -> Result<
    (Seq<char>, bool),
    Seq<char>,
> {
    match m {
        Meta::Path(p) => Result::Ok(render_path(p, indent, pending)),
        Meta::List(ml) => {
            let p = render_path(ml.path, indent, pending);
            Result::Ok((p.0 + flush(indent, p.1) + "("@ + ml.tokens@ + ")"@, false))
        },
        Meta::Other(d) => Result::Err(d@),
    }
}

pub open spec fn render_attr(a: Attribute, indent: nat, pending: bool) -> Result<
    (Seq<char>, bool),
    Seq<char>,
> {
    match render_meta(a.meta, indent, false) {
        Result::Ok((t, p)) => Result::Ok(
            (flush(indent, pending) + "#["@ + t + flush(indent, p) + "]"@, true),
        ),
        Result::Err(d) => Result::Err(d),
    }
}

pub open spec fn render_attrs(s: Seq<Attribute>, indent: nat, pending: bool) -> Result<
    (Seq<char>, bool),
    Seq<char>,
>
    decreases s,
{
    if s.len() == 0 {
        Result::Ok((Seq::empty(), pending))
    } else {
        match render_attr(s[0], indent, pending) {
            Result::Ok((t, p)) => match render_attrs(s.drop_first(), indent, p) {
                Result::Ok((t2, p2)) => Result::Ok((t + t2, p2)),
                Result::Err(d) => Result::Err(d),
            },
            Result::Err(d) => Result::Err(d),
        }
    }
}

/// A literal: an integer token, a quoted string, or an unsupported form
/// that aborts.
pub open spec fn render_lit(l: Lit, indent: nat, pending: bool) -> Result<
    (Seq<char>, bool),
    Seq<char>,
> {
    match l {
        Lit::Int(tok) => Result::Ok((flush(indent, pending) + tok@, false)),
        Lit::Str(v) => Result::Ok((flush(indent, pending) + "\""@ + v@ + "\""@, false)),
        Lit::Other(d) => Result::Err(d@),
    }
}

/// An expression: a literal, a unary negation of an expression, or an
/// unsupported form that aborts. Negation is the one supported operator.
pub open spec fn render_expr(e: Expr, indent: nat, pending: bool) -> Result<
    (Seq<char>, bool),
    Seq<char>,
>
    decreases e,
{
    match e {
        Expr::Lit(el) => render_lit(el.lit, indent, pending),
        Expr::Unary(eu) => match eu.op {
            UnaryOp::Neg => match render_expr(*eu.expr, indent, false) {
                Result::Ok((t, p)) => Result::Ok((flush(indent, pending) + "-"@ + t, p)),
                Result::Err(d) => Result::Err(d),
            },
            UnaryOp::Other(d) => Result::Err(d@),
        },
        Expr::Other(d) => Result::Err(d@),
    }
}

/// A type: a path, a pointer, a fixed array, or an unsupported form that
/// aborts.
pub open spec fn render_ty(t: Ty, indent: nat, pending: bool) -> Result<
    (Seq<char>, bool),
    Seq<char>,
>
    decreases t,
{
    match t {
        Ty::Path(tp) => Result::Ok(render_path(tp.path, indent, pending)),
        Ty::Ptr(ptr) => {
            let head = flush(indent, pending) + (if ptr.mutability {
                "*mut "@
            } else {
                "*const "@
            });
            match render_ty(*ptr.elem, indent, false) {
                Result::Ok((t2, p2)) => Result::Ok((head + t2, p2)),
                Result::Err(d) => Result::Err(d),
            }
        },
        Ty::Array(arr) => match render_ty(*arr.elem, indent, false) {
            Result::Ok((te, pe)) => match render_expr(arr.len, indent, false) {
                Result::Ok((tl, pl)) => Result::Ok(
                    (
                        flush(indent, pending) + "["@ + te + flush(indent, pe) + "; "@ + tl + flush(
                            indent,
                            pl,
                        ) + "]"@,
                        false,
                    ),
                ),
                Result::Err(d) => Result::Err(d),
            },
            Result::Err(d) => Result::Err(d),
        },
        Ty::Other(d) => Result::Err(d@),
    }
}

/// A pattern: a bare identifier, or an unsupported form that aborts.
pub open spec fn render_pat(p: Pat, indent: nat, pending: bool) -> Result<
    (Seq<char>, bool),
    Seq<char>,
> {
    match p {
        Pat::Ident(pi) => Result::Ok((flush(indent, pending) + pi.ident@, false)),
        Pat::Other(d) => Result::Err(d@),
    }
}

/// A function argument: `pattern: type` for typed arguments; receivers
/// render nothing.
pub open spec fn render_fn_arg(a: FnArg, indent: nat, pending: bool) -> Result<
    (Seq<char>, bool),
    Seq<char>,
> {
    match a {
        FnArg::Typed(pt) => match render_pat(pt.pat, indent, pending) {
            Result::Ok((tp, pp)) => match render_ty(pt.ty, indent, false) {
                Result::Ok((tt, pt2)) => Result::Ok(
                    (tp + flush(indent, pp) + ": "@ + tt, pt2),
                ),
                Result::Err(d) => Result::Err(d),
            },
            Result::Err(d) => Result::Err(d),
        },
        FnArg::Receiver => Result::Ok((Seq::empty(), pending)),
    }
}

/// The comma-separated argument list; the separator counts every argument,
/// receivers included, as the shape model records them.
pub open spec fn render_inputs(
    s: Seq<FnArg>,
    indent: nat,
    pending: bool,
    first: bool,
) -> Result<(Seq<char>, bool), Seq<char>>
    decreases s,
{
    if s.len() == 0 {
        Result::Ok((Seq::empty(), pending))
    } else {
        let sep = if first {
            (Seq::<char>::empty(), pending)
        } else {
            (flush(indent, pending) + ", "@, false)
        };
        match render_fn_arg(s[0], indent, sep.1) {
            Result::Ok((t, p)) => match render_inputs(s.drop_first(), indent, p, false) {
                Result::Ok((t2, p2)) => Result::Ok((sep.0 + t + t2, p2)),
                Result::Err(d) => Result::Err(d),
            },
            Result::Err(d) => Result::Err(d),
        }
    }
}

pub open spec fn render_signature(sig: Signature, indent: nat, pending: bool) -> Result<
    (Seq<char>, bool),
    Seq<char>,
> {
    let head = flush(indent, pending) + "fn "@ + sig.ident@ + "("@;
    match render_inputs(sig.inputs@, indent, false, true) {
        Result::Ok((ti, pi)) => {
            let close = ti + flush(indent, pi) + ")"@;
            match sig.output {
                Option::Some(ty) => match render_ty(ty, indent, false) {
                    Result::Ok((tt, pt)) => Result::Ok((head + close + " -> "@ + tt, pt)),
                    Result::Err(d) => Result::Err(d),
                },
                Option::None => Result::Ok((head + close, false)),
            }
        },
        Result::Err(d) => Result::Err(d),
    }
}

pub open spec fn render_method(m: TraitItemFn, indent: nat, pending: bool) -> Result<
    (Seq<char>, bool),
    Seq<char>,
> {
    match render_attrs(m.attrs@, indent, pending) {
        Result::Ok((ta, pa)) => match render_signature(m.sig, indent, pa) {
            Result::Ok((ts, ps)) => Result::Ok((ta + ts, ps)),
            Result::Err(d) => Result::Err(d),
        },
        Result::Err(d) => Result::Err(d),
    }
}

/// Each method, terminated by `;` and a line break.
pub open spec fn render_methods(s: Seq<TraitItemFn>, indent: nat, pending: bool) -> Result<
    (Seq<char>, bool),
    Seq<char>,
>
    decreases s,
{
    if s.len() == 0 {
        Result::Ok((Seq::empty(), pending))
    } else {
        match render_method(s[0], indent, pending) {
            Result::Ok((t, p)) => match render_methods(s.drop_first(), indent, true) {
                Result::Ok((t2, p2)) => Result::Ok((t + flush(indent, p) + ";"@ + t2, p2)),
                Result::Err(d) => Result::Err(d),
            },
            Result::Err(d) => Result::Err(d),
        }
    }
}

pub open spec fn render_interface(i: Interface, indent: nat, pending: bool) -> Result<
    (Seq<char>, bool),
    Seq<char>,
> {
    match render_attrs(i.attributes@, indent, pending) {
        Result::Ok((ta, pa)) => match render_methods(i.methods@, indent + 1, true) {
            Result::Ok((tm, _pm)) => Result::Ok(
                (
                    ta + flush(indent, pa) + "interface "@ + i.name@ + " {"@ + tm + "\n"@
                        + indent_text(indent) + "}"@,
                    false,
                ),
            ),
            Result::Err(d) => Result::Err(d),
        },
        Result::Err(d) => Result::Err(d),
    }
}

/// Each field as `name: type,` on its own line.
pub open spec fn render_fields(s: Seq<Field>, indent: nat, pending: bool) -> Result<
    (Seq<char>, bool),
    Seq<char>,
>
    decreases s,
{
    if s.len() == 0 {
        Result::Ok((Seq::empty(), pending))
    } else {
        match render_ty(s[0].ty, indent, false) {
            Result::Ok((tt, pt)) => match render_fields(s.drop_first(), indent, true) {
                Result::Ok((t2, p2)) => Result::Ok(
                    (
                        flush(indent, pending) + s[0].name@ + ": "@ + tt + flush(indent, pt) + ","@
                            + t2,
                        p2,
                    ),
                ),
                Result::Err(d) => Result::Err(d),
            },
            Result::Err(d) => Result::Err(d),
        }
    }
}

pub open spec fn render_struct(st: Struct, indent: nat, pending: bool) -> Result<
    (Seq<char>, bool),
    Seq<char>,
> {
    match render_attrs(st.attributes@, indent, pending) {
        Result::Ok((ta, pa)) => match render_fields(st.fields@, indent + 1, true) {
            Result::Ok((tf, _pf)) => Result::Ok(
                (
                    ta + flush(indent, pa) + "struct "@ + st.name@ + " {"@ + tf + "\n"@
                        + indent_text(indent) + "}"@,
                    false,
                ),
            ),
            Result::Err(d) => Result::Err(d),
        },
        Result::Err(d) => Result::Err(d),
    }
}

/// Each variant with its optional discriminant, as `name = expr,` or
/// `name,` on its own line.
pub open spec fn render_variants(s: Seq<Variant>, indent: nat, pending: bool) -> Result<
    (Seq<char>, bool),
    Seq<char>,
>
    decreases s,
{
    if s.len() == 0 {
        Result::Ok((Seq::empty(), pending))
    } else {
        let head = flush(indent, pending) + s[0].ident@;
        let disc = match s[0].discriminant {
            Option::Some(e) => match render_expr(e, indent, false) {
                Result::Ok((te, pe)) => Result::Ok(
                    (" = "@ + te + flush(indent, pe) + ","@, false),
                ),
                Result::Err(d) => Result::Err(d),
            },
            Option::None => Result::Ok((Seq::<char>::empty() + ","@, false)),
        };
        match disc {
            Result::Ok((td, _pd)) => match render_variants(s.drop_first(), indent, true) {
                Result::Ok((t2, p2)) => Result::Ok((head + td + t2, p2)),
                Result::Err(d) => Result::Err(d),
            },
            Result::Err(d) => Result::Err(d),
        }
    }
}

pub open spec fn render_enum(en: Enum, indent: nat, pending: bool) -> Result<
    (Seq<char>, bool),
    Seq<char>,
> {
    match render_attrs(en.attributes@, indent, pending) {
        Result::Ok((ta, pa)) => match render_variants(en.variants@, indent + 1, true) {
            Result::Ok((tv, _pv)) => Result::Ok(
                (
                    ta + flush(indent, pa) + "enum "@ + en.ident@ + " {"@ + tv + "\n"@
                        + indent_text(indent) + "}"@,
                    false,
                ),
            ),
            Result::Err(d) => Result::Err(d),
        },
        Result::Err(d) => Result::Err(d),
    }
}

/// One module member; classes render nothing.
pub open spec fn render_member(mm: ModuleMember, indent: nat, pending: bool) -> Result<
    (Seq<char>, bool),
    Seq<char>,
>
    decreases mm,
{
    match mm {
        ModuleMember::Module(m) => render_module(m, indent, pending),
        ModuleMember::Interface(i) => render_interface(i, indent, pending),
        ModuleMember::Struct(st) => render_struct(st, indent, pending),
        ModuleMember::Enum(en) => render_enum(en, indent, pending),
        ModuleMember::Class(_) => Result::Ok((Seq::empty(), pending)),
    }
}

/// Each member followed by a line-break request.
pub open spec fn render_members(s: Seq<ModuleMember>, indent: nat, pending: bool) -> Result<
    (Seq<char>, bool),
    Seq<char>,
>
    decreases s,
{
    if s.len() == 0 {
        Result::Ok((Seq::empty(), pending))
    } else {
        match render_member(s[0], indent, pending) {
            Result::Ok((t, _p)) => match render_members(s.drop_first(), indent, true) {
                Result::Ok((t2, p2)) => Result::Ok((t + t2, p2)),
                Result::Err(d) => Result::Err(d),
            },
            Result::Err(d) => Result::Err(d),
        }
    }
}

pub open spec fn render_module(m: Module, indent: nat, pending: bool) -> Result<
    (Seq<char>, bool),
    Seq<char>,
>
    decreases m,
{
    match render_members(m.members@, indent + 1, true) {
        Result::Ok((tm, _pm)) => Result::Ok(
            (
                flush(indent, pending) + "mod "@ + m.name@ + " {"@ + tm + "\n"@ + indent_text(
                    indent,
                ) + "}"@,
                false,
            ),
        ),
        Result::Err(d) => Result::Err(d),
    }
}

pub open spec fn render_modules(s: Seq<Module>, indent: nat, pending: bool) -> Result<
    (Seq<char>, bool),
    Seq<char>,
>
    decreases s,
{
    if s.len() == 0 {
        Result::Ok((Seq::empty(), pending))
    } else {
        match render_module(s[0], indent, pending) {
            Result::Ok((t, p)) => match render_modules(s.drop_first(), indent, p) {
                Result::Ok((t2, p2)) => Result::Ok((t + t2, p2)),
                Result::Err(d) => Result::Err(d),
            },
            Result::Err(d) => Result::Err(d),
        }
    }
}

/// The whole file: use references, then the modules.
pub open spec fn render_file(f: File) -> Result<(Seq<char>, bool), Seq<char>> {
    let uses = render_uses(f.references@, 0, false);
    match render_modules(f.modules@, 0, uses.1) {
        Result::Ok((tm, pm)) => Result::Ok((uses.0 + tm, pm)),
        Result::Err(d) => Result::Err(d),
    }
}

/// The nesting depth a member adds below its module.
pub open spec fn member_depth(mm: ModuleMember) -> nat
    decreases mm,
{
    match mm {
        ModuleMember::Module(m) => module_depth(m),
        ModuleMember::Class(_) => 0,
        _ => 1,
    }
}

pub open spec fn members_depth(s: Seq<ModuleMember>) -> nat
    decreases s,
{
    if s.len() == 0 {
        0
    } else {
        let h = member_depth(s[0]);
        let t = members_depth(s.drop_first());
        if h >= t {
            h
        } else {
            t
        }
    }
}

pub open spec fn module_depth(m: Module) -> nat
    decreases m,
{
    1 + members_depth(m.members@)
}

pub open spec fn modules_depth(s: Seq<Module>) -> nat
    decreases s,
{
    if s.len() == 0 {
        0
    } else {
        let h = module_depth(s[0]);
        let t = modules_depth(s.drop_first());
        if h >= t {
            h
        } else {
            t
        }
    }
}

/// The deepest nesting a file reaches.
pub open spec fn file_depth(f: File) -> nat {
    modules_depth(f.modules@)
}

proof fn lemma_members_depth_bound(s: Seq<ModuleMember>, i: int)
    requires
        0 <= i < s.len(),
    ensures
        member_depth(s[i]) <= members_depth(s),
    decreases s.len(),
{
    if i > 0 {
        lemma_members_depth_bound(s.drop_first(), i - 1);
    }
}

proof fn lemma_modules_depth_bound(s: Seq<Module>, i: int)
    requires
        0 <= i < s.len(),
    ensures
        module_depth(s[i]) <= modules_depth(s),
    decreases s.len(),
{
    if i > 0 {
        lemma_modules_depth_bound(s.drop_first(), i - 1);
    }
}

/// The pretty printer: the output buffer, the indent level, and the
/// deferred-newline flag.
#[derive(Debug)]
pub struct Writer {
    out: String,
    indent: usize,
    newline: bool,
}

impl Writer {
    /// The text written so far.
    pub closed spec fn text(&self) -> Seq<char> {
        self.out@
    }

    /// The current indent level.
    pub closed spec fn depth(&self) -> nat {
        self.indent as nat
    }

    /// Whether a line break is pending.
    pub closed spec fn pending(&self) -> bool {
        self.newline
    }

    /// Renders a whole file. Succeeds exactly when the file holds no
    /// unsupported construct; aborts with the first unsupported construct's
    /// description otherwise, never emitting wrong text for it.
    pub fn new(file: &File) -> (r: Result<Writer, Error>)
        requires
            file_depth(*file) <= usize::MAX as nat,
        ensures
            r is Ok <==> render_file(*file) is Ok,
            r matches Result::Ok(w) ==> render_file(*file) matches Result::Ok((t, p)) && w.text()
                == t,
            r matches Result::Err(e) ==> render_file(*file) matches Result::Err(d) && e@
                == ErrorV::Unsupported(d),
    {
        let mut writer = Writer { out: String::new(), indent: 0, newline: false };
        proof {
            assert(render_file(*file) == render_file_at(*file, 0, false));
        }
        match writer.idl_file(file) {
            Result::Ok(()) => Result::Ok(writer),
            Result::Err(e) => Result::Err(e),
        }
    }

    /// The accumulated output.
    pub fn into_string(self) -> (r: String)
        ensures
            r@ == self.text(),
    {
        self.out
    }

    /// Appends text, flushing a pending line break and the indentation first.
    fn word(&mut self, value: &str)
        ensures
            final(self).text() == old(self).text() + flush(old(self).depth(), old(self).pending())
                + value@,
            final(self).pending() == false,
            final(self).depth() == old(self).depth(),
    {
        if self.newline {
            self.newline = false;
            self.out.append("\n");
            let n = self.indent;
            let mut i: usize = 0;
            #[verifier::loop_isolation(false)]
            while i < n
                invariant
                    i <= n,
                    self.out@ == old(self).text() + "\n"@ + indent_text(i as nat),
                    self.indent == old(self).indent,
                    self.newline == false,
                decreases n - i,
            {
                self.out.append("    ");
                i += 1;
            }
        }
        self.out.append(value);
    }

    /// Requests a line break, deferred until the next word.
    fn newline(&mut self)
        ensures
            final(self).text() == old(self).text(),
            final(self).pending() == true,
            final(self).depth() == old(self).depth(),
    {
        self.newline = true;
    }

    #[verifier::rlimit(100)]
    #[verifier::spinoff_prover]
    fn idl_file(&mut self, file: &File) -> (r: Result<(), Error>)
        requires
            old(self).depth() + file_depth(*file) <= usize::MAX as nat,
        ensures
            final(self).depth() == old(self).depth(),
            r is Ok <==> render_file_at(*file, old(self).depth(), old(self).pending()) is Ok,
            r matches Result::Ok(()) ==> render_file_at(
                *file,
                old(self).depth(),
                old(self).pending(),
            ) matches Result::Ok((t, p)) && final(self).text() == old(self).text() + t && final(self).pending() == p,
            r matches Result::Err(e) ==> render_file_at(
                *file,
                old(self).depth(),
                old(self).pending(),
            ) matches Result::Err(d) && e@ == ErrorV::Unsupported(d),
    {
        self.use_items(&file.references);
        self.module_items(&file.modules, Ghost(file_depth(*file)))
    }

    /// Renders every use reference.
    fn use_items(&mut self, items: &Vec<ItemUse>)
        ensures
            final(self).depth() == old(self).depth(),
            final(self).text() == old(self).text() + render_uses(
                items@,
                old(self).depth(),
                old(self).pending(),
            ).0,
            final(self).pending() == render_uses(items@, old(self).depth(), old(self).pending()).1,
    {
        let ghost d = old(self).depth();
        let ghost c0 = old(self).text();
        let nu = items.len();
        let mut i: usize = 0;
        proof {
            assert(items@.skip(0) =~= items@);
        }
        #[verifier::loop_isolation(false)]
        while i < nu
            invariant
                i <= nu == items@.len(),
                self.depth() == d,
                ({
                    let whole = render_uses(items@, d, old(self).pending());
                    let rem = render_uses(items@.skip(i as int), d, self.pending());
                    self.text() + rem.0 == c0 + whole.0 && rem.1 == whole.1
                }),
            decreases nu - i,
        {
            proof {
                assert(items@.skip(i as int).drop_first() =~= items@.skip(i as int + 1));
                assert(items@.skip(i as int)[0] == items@[i as int]);
            }
            self.item_use(&items[i]);
            i += 1;
        }
        proof {
            assert(items@.skip(nu as int) =~= Seq::<ItemUse>::empty());
        }
    }

    /// Renders every module, in order, with no separation between them.
    #[verifier::rlimit(100)]
    #[verifier::spinoff_prover]
    fn module_items(&mut self, items: &Vec<Module>, Ghost(bound): Ghost<nat>) -> (r: Result<
        (),
        Error,
    >)
        requires
            old(self).depth() + bound <= usize::MAX as nat,
            modules_depth(items@) <= bound,
        ensures
            final(self).depth() == old(self).depth(),
            r is Ok <==> render_modules(items@, old(self).depth(), old(self).pending()) is Ok,
            r matches Result::Ok(()) ==> render_modules(
                items@,
                old(self).depth(),
                old(self).pending(),
            ) matches Result::Ok((t, p)) && final(self).text() == old(self).text() + t && final(self).pending() == p,
            r matches Result::Err(e) ==> render_modules(
                items@,
                old(self).depth(),
                old(self).pending(),
            ) matches Result::Err(d) && e@ == ErrorV::Unsupported(d),
    {
        let ghost d = old(self).depth();
        let ghost c0 = old(self).text();
        let nm = items.len();
        let mut m: usize = 0;
        proof {
            assert(items@.skip(0) =~= items@);
        }
        #[verifier::loop_isolation(false)]
        while m < nm
            invariant
                m <= nm == items@.len(),
                self.depth() == d,
                ({
                    let whole = render_modules(items@, d, old(self).pending());
                    let rem = render_modules(items@.skip(m as int), d, self.pending());
                    match rem {
                        Result::Ok((t, p)) => whole matches Result::Ok((tw, pw)) && self.text() + t
                            == c0 + tw && p == pw,
                        Result::Err(dd) => whole == Result::Err::<(Seq<char>, bool), Seq<char>>(
                            dd,
                        ),
                    }
                }),
            decreases nm - m,
        {
            proof {
                assert(items@.skip(m as int).drop_first() =~= items@.skip(m as int + 1));
                assert(items@.skip(m as int)[0] == items@[m as int]);
                lemma_modules_depth_bound(items@, m as int);
            }
            match self.idl_module(&items[m]) {
                Result::Ok(()) => {},
                Result::Err(e) => {
                    return Result::Err(e);
                },
            }
            m += 1;
        }
        proof {
            assert(items@.skip(nm as int) =~= Seq::<Module>::empty());
        }
        Result::Ok(())
    }

    #[verifier::rlimit(100)]
    #[verifier::spinoff_prover]
    fn idl_module(&mut self, module: &Module) -> (r: Result<(), Error>)
        requires
            old(self).depth() + module_depth(*module) <= usize::MAX as nat,
        ensures
            final(self).depth() == old(self).depth(),
            r is Ok <==> render_module(*module, old(self).depth(), old(self).pending()) is Ok,
            r matches Result::Ok(()) ==> render_module(
                *module,
                old(self).depth(),
                old(self).pending(),
            ) matches Result::Ok((t, p)) && final(self).text() == old(self).text() + t && final(self).pending() == p,
            r matches Result::Err(e) ==> render_module(
                *module,
                old(self).depth(),
                old(self).pending(),
            ) matches Result::Err(d) && e@ == ErrorV::Unsupported(d),
        decreases module_depth(*module), 1int,
    {
        let ghost d = old(self).depth();
        self.word("mod ");
        self.word(module.name.as_str());
        self.word(" {");
        self.newline();
        self.indent = self.indent + 1;
        match self.member_items(&module.members) {
            Result::Ok(()) => {},
            Result::Err(e) => {
                self.indent = self.indent - 1;
                return Result::Err(e);
            },
        }
        self.indent = self.indent - 1;
        self.newline();
        self.word("}");
        Result::Ok(())
    }

    /// Renders every member of a module, each followed by a line break.
    #[verifier::rlimit(100)]
    #[verifier::spinoff_prover]
    fn member_items(&mut self, items: &Vec<ModuleMember>) -> (r: Result<(), Error>)
        requires
            old(self).depth() + members_depth(items@) <= usize::MAX as nat,
        ensures
            final(self).depth() == old(self).depth(),
            r is Ok <==> render_members(items@, old(self).depth(), old(self).pending()) is Ok,
            r matches Result::Ok(()) ==> render_members(
                items@,
                old(self).depth(),
                old(self).pending(),
            ) matches Result::Ok((t, p)) && final(self).text() == old(self).text() + t && final(self).pending() == p,
            r matches Result::Err(e) ==> render_members(
                items@,
                old(self).depth(),
                old(self).pending(),
            ) matches Result::Err(d) && e@ == ErrorV::Unsupported(d),
        decreases members_depth(items@) + 1nat, 0int,
    {
        let ghost d = old(self).depth();
        let ghost c0 = old(self).text();
        let nm = items.len();
        let mut m: usize = 0;
        proof {
            assert(items@.skip(0) =~= items@);
        }
        #[verifier::loop_isolation(false)]
        while m < nm
            invariant
                m <= nm == items@.len(),
                self.depth() == d,
                ({
                    let whole = render_members(items@, d, old(self).pending());
                    let rem = render_members(items@.skip(m as int), d, self.pending());
                    match rem {
                        Result::Ok((t, p)) => whole matches Result::Ok((tw, pw)) && self.text() + t
                            == c0 + tw && p == pw,
                        Result::Err(dd) => whole == Result::Err::<(Seq<char>, bool), Seq<char>>(
                            dd,
                        ),
                    }
                }),
            decreases nm - m,
        {
            proof {
                assert(items@.skip(m as int).drop_first() =~= items@.skip(m as int + 1));
                assert(items@.skip(m as int)[0] == items@[m as int]);
                lemma_members_depth_bound(items@, m as int);
            }
            match self.idl_module_member(&items[m]) {
                Result::Ok(()) => {},
                Result::Err(e) => {
                    return Result::Err(e);
                },
            }
            self.newline();
            m += 1;
        }
        proof {
            assert(items@.skip(nm as int) =~= Seq::<ModuleMember>::empty());
        }
        Result::Ok(())
    }

    fn idl_module_member(&mut self, member: &ModuleMember) -> (r: Result<(), Error>)
        requires
            old(self).depth() + member_depth(*member) <= usize::MAX as nat,
        ensures
            final(self).depth() == old(self).depth(),
            r is Ok <==> render_member(*member, old(self).depth(), old(self).pending()) is Ok,
            r matches Result::Ok(()) ==> render_member(
                *member,
                old(self).depth(),
                old(self).pending(),
            ) matches Result::Ok((t, p)) && final(self).text() == old(self).text() + t && final(self).pending() == p,
            r matches Result::Err(e) ==> render_member(
                *member,
                old(self).depth(),
                old(self).pending(),
            ) matches Result::Err(d) && e@ == ErrorV::Unsupported(d),
        decreases member_depth(*member), 2int,
    {
        match member {
            ModuleMember::Module(m) => self.idl_module(m),
            ModuleMember::Interface(i) => self.idl_interface(i),
            ModuleMember::Struct(st) => self.idl_struct(st),
            ModuleMember::Enum(en) => self.idl_enum(en),
            ModuleMember::Class(c) => {
                self.idl_class(c);
                Result::Ok(())
            },
        }
    }

    #[verifier::rlimit(100)]
    #[verifier::spinoff_prover]
    fn idl_interface(&mut self, member: &Interface) -> (r: Result<(), Error>)
        requires
            old(self).depth() + 1 <= usize::MAX as nat,
        ensures
            final(self).depth() == old(self).depth(),
            r is Ok <==> render_interface(*member, old(self).depth(), old(self).pending()) is Ok,
            r matches Result::Ok(()) ==> render_interface(
                *member,
                old(self).depth(),
                old(self).pending(),
            ) matches Result::Ok((t, p)) && final(self).text() == old(self).text() + t && final(self).pending() == p,
            r matches Result::Err(e) ==> render_interface(
                *member,
                old(self).depth(),
                old(self).pending(),
            ) matches Result::Err(d) && e@ == ErrorV::Unsupported(d),
    {
        let ghost d = old(self).depth();
        let ghost p0 = old(self).pending();
        match self.attrs(&member.attributes) {
            Result::Ok(()) => {},
            Result::Err(e) => {
                return Result::Err(e);
            },
        }
        let ghost ta = render_attrs(member.attributes@, d, p0)->Ok_0;
        match self.interface_body(member) {
            Result::Ok(()) => {},
            Result::Err(e) => {
                return Result::Err(e);
            },
        }
        proof {
            let tm = render_methods(member.methods@, d + 1, true)->Ok_0;
            let whole = ta.0 + flush(d, ta.1) + "interface "@ + member.name@ + " {"@ + tm.0
                + "\n"@ + indent_text(d) + "}"@;
            assert(render_interface(*member, d, p0) == Result::Ok::<(Seq<char>, bool), Seq<char>>(
                (whole, false),
            ));
            assert(self.text() =~= old(self).text() + whole);
        }
        Result::Ok(())
    }

    /// The braced method list of an interface, after its attributes.
    #[verifier::rlimit(100)]
    #[verifier::spinoff_prover]
    fn interface_body(&mut self, member: &Interface) -> (r: Result<(), Error>)
        requires
            old(self).depth() + 1 <= usize::MAX as nat,
        ensures
            final(self).depth() == old(self).depth(),
            r is Ok <==> render_methods(member.methods@, old(self).depth() + 1, true) is Ok,
            r matches Result::Ok(()) ==> render_methods(
                member.methods@,
                old(self).depth() + 1,
                true,
            ) matches Result::Ok((t, _p)) && final(self).text() == old(self).text() + flush(
                old(self).depth(),
                old(self).pending(),
            ) + "interface "@ + member.name@ + " {"@ + t + "\n"@ + indent_text(old(self).depth())
                + "}"@ && final(self).pending() == false,
            r matches Result::Err(e) ==> render_methods(
                member.methods@,
                old(self).depth() + 1,
                true,
            ) matches Result::Err(d) && e@ == ErrorV::Unsupported(d),
    {
        let ghost d = old(self).depth();
        self.word("interface ");
        self.word(member.name.as_str());
        self.word(" {");
        self.newline();
        self.indent = self.indent + 1;
        match self.method_items(&member.methods) {
            Result::Ok(()) => {},
            Result::Err(e) => {
                self.indent = self.indent - 1;
                return Result::Err(e);
            },
        }
        self.indent = self.indent - 1;
        self.newline();
        self.word("}");
        proof {
            let tm = render_methods(member.methods@, d + 1, true)->Ok_0;
            assert(self.text() =~= old(self).text() + flush(d, old(self).pending())
                + "interface "@ + member.name@ + " {"@ + tm.0 + "\n"@ + indent_text(d) + "}"@);
        }
        Result::Ok(())
    }

    /// Renders every method of an interface, each terminated by `;` and a
    /// line break.
    #[verifier::rlimit(100)]
    #[verifier::spinoff_prover]
    fn method_items(&mut self, items: &Vec<TraitItemFn>) -> (r: Result<(), Error>)
        ensures
            final(self).depth() == old(self).depth(),
            r is Ok <==> render_methods(items@, old(self).depth(), old(self).pending()) is Ok,
            r matches Result::Ok(()) ==> render_methods(
                items@,
                old(self).depth(),
                old(self).pending(),
            ) matches Result::Ok((t, p)) && final(self).text() == old(self).text() + t && final(self).pending() == p,
            r matches Result::Err(e) ==> render_methods(
                items@,
                old(self).depth(),
                old(self).pending(),
            ) matches Result::Err(d) && e@ == ErrorV::Unsupported(d),
    {
        let ghost d = old(self).depth();
        let ghost c0 = old(self).text();
        let nm = items.len();
        let mut m: usize = 0;
        proof {
            assert(items@.skip(0) =~= items@);
        }
        #[verifier::loop_isolation(false)]
        while m < nm
            invariant
                m <= nm == items@.len(),
                self.depth() == d,
                ({
                    let whole = render_methods(items@, d, old(self).pending());
                    let rem = render_methods(items@.skip(m as int), d, self.pending());
                    match rem {
                        Result::Ok((t, p)) => whole matches Result::Ok((tw, pw)) && self.text() + t
                            == c0 + tw && p == pw,
                        Result::Err(dd) => whole == Result::Err::<(Seq<char>, bool), Seq<char>>(
                            dd,
                        ),
                    }
                }),
            decreases nm - m,
        {
            proof {
                assert(items@.skip(m as int).drop_first() =~= items@.skip(m as int + 1));
                assert(items@.skip(m as int)[0] == items@[m as int]);
            }
            match self.trait_item_fn(&items[m]) {
                Result::Ok(()) => {},
                Result::Err(e) => {
                    return Result::Err(e);
                },
            }
            self.word(";");
            self.newline();
            m += 1;
        }
        proof {
            assert(items@.skip(nm as int) =~= Seq::<TraitItemFn>::empty());
        }
        Result::Ok(())
    }

    #[verifier::rlimit(100)]
    #[verifier::spinoff_prover]
    fn attrs(&mut self, attrs: &Vec<Attribute>) -> (r: Result<(), Error>)
        ensures
            final(self).depth() == old(self).depth(),
            r is Ok <==> render_attrs(attrs@, old(self).depth(), old(self).pending()) is Ok,
            r matches Result::Ok(()) ==> render_attrs(
                attrs@,
                old(self).depth(),
                old(self).pending(),
            ) matches Result::Ok((t, p)) && final(self).text() == old(self).text() + t && final(self).pending() == p,
            r matches Result::Err(e) ==> render_attrs(
                attrs@,
                old(self).depth(),
                old(self).pending(),
            ) matches Result::Err(d) && e@ == ErrorV::Unsupported(d),
    {
        let ghost d = old(self).depth();
        let ghost c0 = old(self).text();
        let n = attrs.len();
        let mut i: usize = 0;
        proof {
            assert(attrs@.skip(0) =~= attrs@);
        }
        #[verifier::loop_isolation(false)]
        while i < n
            invariant
                i <= n == attrs@.len(),
                self.depth() == d,
                ({
                    let whole = render_attrs(attrs@, d, old(self).pending());
                    let rem = render_attrs(attrs@.skip(i as int), d, self.pending());
                    match rem {
                        Result::Ok((t, p)) => whole matches Result::Ok((tw, pw)) && self.text() + t
                            == c0 + tw && p == pw,
                        Result::Err(dd) => whole == Result::Err::<(Seq<char>, bool), Seq<char>>(
                            dd,
                        ),
                    }
                }),
            decreases n - i,
        {
            proof {
                assert(attrs@.skip(i as int).drop_first() =~= attrs@.skip(i as int + 1));
                assert(attrs@.skip(i as int)[0] == attrs@[i as int]);
            }
            match self.attr(&attrs[i]) {
                Result::Ok(()) => {},
                Result::Err(e) => {
                    return Result::Err(e);
                },
            }
            i += 1;
        }
        proof {
            assert(attrs@.skip(n as int) =~= Seq::<Attribute>::empty());
        }
        Result::Ok(())
    }

    fn attr(&mut self, attr: &Attribute) -> (r: Result<(), Error>)
        ensures
            final(self).depth() == old(self).depth(),
            r is Ok <==> render_attr(*attr, old(self).depth(), old(self).pending()) is Ok,
            r matches Result::Ok(()) ==> render_attr(
                *attr,
                old(self).depth(),
                old(self).pending(),
            ) matches Result::Ok((t, p)) && final(self).text() == old(self).text() + t && final(self).pending() == p,
            r matches Result::Err(e) ==> render_attr(
                *attr,
                old(self).depth(),
                old(self).pending(),
            ) matches Result::Err(d) && e@ == ErrorV::Unsupported(d),
    {
        self.word("#[");
        match self.meta(&attr.meta) {
            Result::Ok(()) => {},
            Result::Err(e) => {
                return Result::Err(e);
            },
        }
        self.word("]");
        self.newline();
        Result::Ok(())
    }

    fn meta(&mut self, meta: &Meta) -> (r: Result<(), Error>)
        ensures
            final(self).depth() == old(self).depth(),
            r is Ok <==> render_meta(*meta, old(self).depth(), old(self).pending()) is Ok,
            r matches Result::Ok(()) ==> render_meta(
                *meta,
                old(self).depth(),
                old(self).pending(),
            ) matches Result::Ok((t, p)) && final(self).text() == old(self).text() + t && final(self).pending() == p,
            r matches Result::Err(e) ==> render_meta(
                *meta,
                old(self).depth(),
                old(self).pending(),
            ) matches Result::Err(d) && e@ == ErrorV::Unsupported(d),
    {
        match meta {
            Meta::Path(path) => {
                self.path(path);
                Result::Ok(())
            },
            Meta::List(list) => {
                self.meta_list(list);
                Result::Ok(())
            },
            Meta::Other(d) => Result::Err(Error::Unsupported(d.clone())),
        }
    }

    fn meta_list(&mut self, meta_list: &crate::idl::MetaList)
        ensures
            final(self).depth() == old(self).depth(),
            ({
                let p = render_path(meta_list.path, old(self).depth(), old(self).pending());
                final(self).text() == old(self).text() + p.0 + flush(old(self).depth(), p.1)
                    + "("@ + meta_list.tokens@ + ")"@ && final(self).pending() == false
            }),
    {
        self.path(&meta_list.path);
        self.word("(");
        self.word(meta_list.tokens.as_str());
        self.word(")");
    }

    #[verifier::rlimit(100)]
    #[verifier::spinoff_prover]
    fn idl_struct(&mut self, member: &Struct) -> (r: Result<(), Error>)
        requires
            old(self).depth() + 1 <= usize::MAX as nat,
        ensures
            final(self).depth() == old(self).depth(),
            r is Ok <==> render_struct(*member, old(self).depth(), old(self).pending()) is Ok,
            r matches Result::Ok(()) ==> render_struct(
                *member,
                old(self).depth(),
                old(self).pending(),
            ) matches Result::Ok((t, p)) && final(self).text() == old(self).text() + t && final(self).pending() == p,
            r matches Result::Err(e) ==> render_struct(
                *member,
                old(self).depth(),
                old(self).pending(),
            ) matches Result::Err(d) && e@ == ErrorV::Unsupported(d),
    {
        let ghost d = old(self).depth();
        let ghost p0 = old(self).pending();
        match self.attrs(&member.attributes) {
            Result::Ok(()) => {},
            Result::Err(e) => {
                return Result::Err(e);
            },
        }
        let ghost ta = render_attrs(member.attributes@, d, p0)->Ok_0;
        self.word("struct ");
        self.word(member.name.as_str());
        self.word(" {");
        self.newline();
        proof {
            assert(self.text() == old(self).text() + ta.0 + flush(d, ta.1) + "struct "@
                + member.name@ + " {"@);
        }
        self.indent = self.indent + 1;
        match self.field_items(&member.fields) {
            Result::Ok(()) => {},
            Result::Err(e) => {
                self.indent = self.indent - 1;
                return Result::Err(e);
            },
        }
        let ghost tf = render_fields(member.fields@, d + 1, true)->Ok_0;
        self.indent = self.indent - 1;
        self.newline();
        self.word("}");
        proof {
            assert(self.text() == old(self).text() + ta.0 + flush(d, ta.1) + "struct "@
                + member.name@ + " {"@ + tf.0 + ("\n"@ + indent_text(d)) + "}"@);
            assert(render_struct(*member, d, p0) matches Result::Ok((t, p)) && t == ta.0 + flush(
                d,
                ta.1,
            ) + "struct "@ + member.name@ + " {"@ + tf.0 + "\n"@ + indent_text(d) + "}"@ && p
                == false);
            assert(self.text() =~= old(self).text() + (ta.0 + flush(d, ta.1) + "struct "@
                + member.name@ + " {"@ + tf.0 + "\n"@ + indent_text(d) + "}"@));
        }
        Result::Ok(())
    }

    /// Renders every field of a struct as `name: type,` on its own line.
    #[verifier::rlimit(100)]
    #[verifier::spinoff_prover]
    fn field_items(&mut self, items: &Vec<Field>) -> (r: Result<(), Error>)
        ensures
            final(self).depth() == old(self).depth(),
            r is Ok <==> render_fields(items@, old(self).depth(), old(self).pending()) is Ok,
            r matches Result::Ok(()) ==> render_fields(
                items@,
                old(self).depth(),
                old(self).pending(),
            ) matches Result::Ok((t, p)) && final(self).text() == old(self).text() + t && final(self).pending() == p,
            r matches Result::Err(e) ==> render_fields(
                items@,
                old(self).depth(),
                old(self).pending(),
            ) matches Result::Err(d) && e@ == ErrorV::Unsupported(d),
    {
        let ghost d = old(self).depth();
        let ghost c0 = old(self).text();
        let nf = items.len();
        let mut i: usize = 0;
        proof {
            assert(items@.skip(0) =~= items@);
        }
        #[verifier::loop_isolation(false)]
        while i < nf
            invariant
                i <= nf == items@.len(),
                self.depth() == d,
                ({
                    let whole = render_fields(items@, d, old(self).pending());
                    let rem = render_fields(items@.skip(i as int), d, self.pending());
                    match rem {
                        Result::Ok((t, p)) => whole matches Result::Ok((tw, pw)) && self.text() + t
                            == c0 + tw && p == pw,
                        Result::Err(dd) => whole == Result::Err::<(Seq<char>, bool), Seq<char>>(
                            dd,
                        ),
                    }
                }),
            decreases nf - i,
        {
            proof {
                assert(items@.skip(i as int).drop_first() =~= items@.skip(i as int + 1));
                assert(items@.skip(i as int)[0] == items@[i as int]);
            }
            self.word(items[i].name.as_str());
            self.word(": ");
            match self.ty(&items[i].ty) {
                Result::Ok(()) => {},
                Result::Err(e) => {
                    return Result::Err(e);
                },
            }
            self.word(",");
            self.newline();
            i += 1;
        }
        proof {
            assert(items@.skip(nf as int) =~= Seq::<Field>::empty());
        }
        Result::Ok(())
    }

    #[verifier::rlimit(100)]
    #[verifier::spinoff_prover]
    fn idl_enum(&mut self, member: &Enum) -> (r: Result<(), Error>)
        requires
            old(self).depth() + 1 <= usize::MAX as nat,
        ensures
            final(self).depth() == old(self).depth(),
            r is Ok <==> render_enum(*member, old(self).depth(), old(self).pending()) is Ok,
            r matches Result::Ok(()) ==> render_enum(
                *member,
                old(self).depth(),
                old(self).pending(),
            ) matches Result::Ok((t, p)) && final(self).text() == old(self).text() + t && final(self).pending() == p,
            r matches Result::Err(e) ==> render_enum(
                *member,
                old(self).depth(),
                old(self).pending(),
            ) matches Result::Err(d) && e@ == ErrorV::Unsupported(d),
    {
        let ghost d = old(self).depth();
        let ghost p0 = old(self).pending();
        match self.attrs(&member.attributes) {
            Result::Ok(()) => {},
            Result::Err(e) => {
                return Result::Err(e);
            },
        }
        let ghost ta = render_attrs(member.attributes@, d, p0)->Ok_0;
        self.word("enum ");
        self.ident(member.ident.as_str());
        self.word(" {");
        self.newline();
        proof {
            assert(self.text() == old(self).text() + ta.0 + flush(d, ta.1) + "enum "@
                + member.ident@ + " {"@);
        }
        self.indent = self.indent + 1;
        match self.variant_items(&member.variants) {
            Result::Ok(()) => {},
            Result::Err(e) => {
                self.indent = self.indent - 1;
                return Result::Err(e);
            },
        }
        let ghost tv = render_variants(member.variants@, d + 1, true)->Ok_0;
        self.indent = self.indent - 1;
        self.newline();
        self.word("}");
        proof {
            assert(self.text() == old(self).text() + ta.0 + flush(d, ta.1) + "enum "@
                + member.ident@ + " {"@ + tv.0 + ("\n"@ + indent_text(d)) + "}"@);
            assert(render_enum(*member, d, p0) matches Result::Ok((t, p)) && t == ta.0 + flush(
                d,
                ta.1,
            ) + "enum "@ + member.ident@ + " {"@ + tv.0 + "\n"@ + indent_text(d) + "}"@ && p
                == false);
            assert(self.text() =~= old(self).text() + (ta.0 + flush(d, ta.1) + "enum "@
                + member.ident@ + " {"@ + tv.0 + "\n"@ + indent_text(d) + "}"@));
        }
        Result::Ok(())
    }

    /// Renders every variant, with its optional discriminant expression.
    #[verifier::rlimit(100)]
    #[verifier::spinoff_prover]
    fn variant_items(&mut self, items: &Vec<Variant>) -> (r: Result<(), Error>)
        ensures
            final(self).depth() == old(self).depth(),
            r is Ok <==> render_variants(items@, old(self).depth(), old(self).pending()) is Ok,
            r matches Result::Ok(()) ==> render_variants(
                items@,
                old(self).depth(),
                old(self).pending(),
            ) matches Result::Ok((t, p)) && final(self).text() == old(self).text() + t && final(self).pending() == p,
            r matches Result::Err(e) ==> render_variants(
                items@,
                old(self).depth(),
                old(self).pending(),
            ) matches Result::Err(d) && e@ == ErrorV::Unsupported(d),
    {
        let ghost d = old(self).depth();
        let ghost c0 = old(self).text();
        let nv = items.len();
        let mut i: usize = 0;
        proof {
            assert(items@.skip(0) =~= items@);
        }
        #[verifier::loop_isolation(false)]
        while i < nv
            invariant
                i <= nv == items@.len(),
                self.depth() == d,
                ({
                    let whole = render_variants(items@, d, old(self).pending());
                    let rem = render_variants(items@.skip(i as int), d, self.pending());
                    match rem {
                        Result::Ok((t, p)) => whole matches Result::Ok((tw, pw)) && self.text() + t
                            == c0 + tw && p == pw,
                        Result::Err(dd) => whole == Result::Err::<(Seq<char>, bool), Seq<char>>(
                            dd,
                        ),
                    }
                }),
            decreases nv - i,
        {
            proof {
                assert(items@.skip(i as int).drop_first() =~= items@.skip(i as int + 1));
                assert(items@.skip(i as int)[0] == items@[i as int]);
            }
            self.ident(items[i].ident.as_str());
            match &items[i].discriminant {
                Option::Some(expr) => {
                    self.word(" = ");
                    match self.expr(expr) {
                        Result::Ok(()) => {},
                        Result::Err(e) => {
                            return Result::Err(e);
                        },
                    }
                },
                Option::None => {},
            }
            self.word(",");
            self.newline();
            i += 1;
        }
        proof {
            assert(items@.skip(nv as int) =~= Seq::<Variant>::empty());
        }
        Result::Ok(())
    }

    /// Classes are deliberately not rendered.
    fn idl_class(&mut self, _member: &Class)
        ensures
            *final(self) == *old(self),
    {
    }

    fn trait_item_fn(&mut self, method: &TraitItemFn) -> (r: Result<(), Error>)
        ensures
            final(self).depth() == old(self).depth(),
            r is Ok <==> render_method(*method, old(self).depth(), old(self).pending()) is Ok,
            r matches Result::Ok(()) ==> render_method(
                *method,
                old(self).depth(),
                old(self).pending(),
            ) matches Result::Ok((t, p)) && final(self).text() == old(self).text() + t && final(self).pending() == p,
            r matches Result::Err(e) ==> render_method(
                *method,
                old(self).depth(),
                old(self).pending(),
            ) matches Result::Err(d) && e@ == ErrorV::Unsupported(d),
    {
        match self.attrs(&method.attrs) {
            Result::Ok(()) => {},
            Result::Err(e) => {
                return Result::Err(e);
            },
        }
        self.signature(&method.sig)
    }

    #[verifier::rlimit(100)]
    #[verifier::spinoff_prover]
    fn signature(&mut self, signature: &Signature) -> (r: Result<(), Error>)
        ensures
            final(self).depth() == old(self).depth(),
            r is Ok <==> render_signature(*signature, old(self).depth(), old(self).pending())
                is Ok,
            r matches Result::Ok(()) ==> render_signature(
                *signature,
                old(self).depth(),
                old(self).pending(),
            ) matches Result::Ok((t, p)) && final(self).text() == old(self).text() + t && final(self).pending() == p,
            r matches Result::Err(e) ==> render_signature(
                *signature,
                old(self).depth(),
                old(self).pending(),
            ) matches Result::Err(d) && e@ == ErrorV::Unsupported(d),
    {
        let ghost d = old(self).depth();
        self.word("fn ");
        self.ident(signature.ident.as_str());
        self.word("(");
        let ghost c0 = self.text();
        let n = signature.inputs.len();
        let mut i: usize = 0;
        proof {
            assert(signature.inputs@.skip(0) =~= signature.inputs@);
        }
        let mut first = true;
        #[verifier::loop_isolation(false)]
        while i < n
            invariant
                i <= n == signature.inputs@.len(),
                self.depth() == d,
                first == (i == 0),
                ({
                    let whole = render_inputs(signature.inputs@, d, false, true);
                    let rem = render_inputs(
                        signature.inputs@.skip(i as int),
                        d,
                        self.pending(),
                        first,
                    );
                    match rem {
                        Result::Ok((t, p)) => whole matches Result::Ok((tw, pw)) && self.text() + t
                            == c0 + tw && p == pw,
                        Result::Err(dd) => whole == Result::Err::<(Seq<char>, bool), Seq<char>>(
                            dd,
                        ),
                    }
                }),
                self.pending() == false || i > 0,
            decreases n - i,
        {
            proof {
                assert(signature.inputs@.skip(i as int).drop_first() =~= signature.inputs@.skip(
                    i as int + 1,
                ));
                assert(signature.inputs@.skip(i as int)[0] == signature.inputs@[i as int]);
            }
            if first {
                first = false;
            } else {
                self.word(", ");
            }
            match self.fn_arg(&signature.inputs[i]) {
                Result::Ok(()) => {},
                Result::Err(e) => {
                    return Result::Err(e);
                },
            }
            i += 1;
        }
        proof {
            assert(signature.inputs@.skip(n as int) =~= Seq::<FnArg>::empty());
        }
        self.word(")");
        match &signature.output {
            Option::Some(ty) => {
                self.word(" -> ");
                match self.ty(ty) {
                    Result::Ok(()) => {},
                    Result::Err(e) => {
                        return Result::Err(e);
                    },
                }
            },
            Option::None => {},
        }
        Result::Ok(())
    }

    fn fn_arg(&mut self, fn_arg: &FnArg) -> (r: Result<(), Error>)
        ensures
            final(self).depth() == old(self).depth(),
            r is Ok <==> render_fn_arg(*fn_arg, old(self).depth(), old(self).pending()) is Ok,
            r matches Result::Ok(()) ==> render_fn_arg(
                *fn_arg,
                old(self).depth(),
                old(self).pending(),
            ) matches Result::Ok((t, p)) && final(self).text() == old(self).text() + t && final(self).pending() == p,
            r matches Result::Err(e) ==> render_fn_arg(
                *fn_arg,
                old(self).depth(),
                old(self).pending(),
            ) matches Result::Err(d) && e@ == ErrorV::Unsupported(d),
    {
        match fn_arg {
            FnArg::Typed(pat_type) => self.pat_type(pat_type),
            FnArg::Receiver => Result::Ok(()),
        }
    }

    fn pat_type(&mut self, pat_type: &PatType) -> (r: Result<(), Error>)
        ensures
            final(self).depth() == old(self).depth(),
            r is Ok <==> render_fn_arg(
                FnArg::Typed(*pat_type),
                old(self).depth(),
                old(self).pending(),
            ) is Ok,
            r matches Result::Ok(()) ==> render_fn_arg(
                FnArg::Typed(*pat_type),
                old(self).depth(),
                old(self).pending(),
            ) matches Result::Ok((t, p)) && final(self).text() == old(self).text() + t && final(self).pending() == p,
            r matches Result::Err(e) ==> render_fn_arg(
                FnArg::Typed(*pat_type),
                old(self).depth(),
                old(self).pending(),
            ) matches Result::Err(d) && e@ == ErrorV::Unsupported(d),
    {
        match self.pat(&pat_type.pat) {
            Result::Ok(()) => {},
            Result::Err(e) => {
                return Result::Err(e);
            },
        }
        self.word(": ");
        self.ty(&pat_type.ty)
    }

    fn pat(&mut self, pat: &Pat) -> (r: Result<(), Error>)
        ensures
            final(self).depth() == old(self).depth(),
            r is Ok <==> render_pat(*pat, old(self).depth(), old(self).pending()) is Ok,
            r matches Result::Ok(()) ==> render_pat(
                *pat,
                old(self).depth(),
                old(self).pending(),
            ) matches Result::Ok((t, p)) && final(self).text() == old(self).text() + t && final(self).pending() == p,
            r matches Result::Err(e) ==> render_pat(
                *pat,
                old(self).depth(),
                old(self).pending(),
            ) matches Result::Err(d) && e@ == ErrorV::Unsupported(d),
    {
        match pat {
            Pat::Ident(pat_ident) => {
                self.pat_ident(pat_ident);
                Result::Ok(())
            },
            Pat::Other(d) => Result::Err(Error::Unsupported(d.clone())),
        }
    }

    fn pat_ident(&mut self, pat_ident: &crate::idl::PatIdent)
        ensures
            final(self).depth() == old(self).depth(),
            final(self).text() == old(self).text() + flush(old(self).depth(), old(self).pending())
                + pat_ident.ident@,
            final(self).pending() == false,
    {
        self.ident(pat_ident.ident.as_str());
    }

    fn ty(&mut self, ty: &Ty) -> (r: Result<(), Error>)
        ensures
            final(self).depth() == old(self).depth(),
            r is Ok <==> render_ty(*ty, old(self).depth(), old(self).pending()) is Ok,
            r matches Result::Ok(()) ==> render_ty(
                *ty,
                old(self).depth(),
                old(self).pending(),
            ) matches Result::Ok((t, p)) && final(self).text() == old(self).text() + t && final(self).pending() == p,
            r matches Result::Err(e) ==> render_ty(
                *ty,
                old(self).depth(),
                old(self).pending(),
            ) matches Result::Err(d) && e@ == ErrorV::Unsupported(d),
        decreases *ty, 1int,
    {
        match ty {
            Ty::Path(tp) => {
                self.type_path(tp);
                Result::Ok(())
            },
            Ty::Ptr(ptr) => self.type_ptr(ptr, Ghost(*ty)),
            Ty::Array(array) => self.type_array(array, Ghost(*ty)),
            Ty::Other(d) => Result::Err(Error::Unsupported(d.clone())),
        }
    }

    fn type_array(&mut self, array: &crate::idl::TypeArray, Ghost(whole): Ghost<Ty>) -> (r: Result<
        (),
        Error,
    >)
        requires
            whole == Ty::Array(*array),
        ensures
            final(self).depth() == old(self).depth(),
            r is Ok <==> render_ty(whole, old(self).depth(), old(self).pending()) is Ok,
            r matches Result::Ok(()) ==> render_ty(
                whole,
                old(self).depth(),
                old(self).pending(),
            ) matches Result::Ok((t, p)) && final(self).text() == old(self).text() + t && final(self).pending() == p,
            r matches Result::Err(e) ==> render_ty(
                whole,
                old(self).depth(),
                old(self).pending(),
            ) matches Result::Err(d) && e@ == ErrorV::Unsupported(d),
        decreases whole, 0int,
    {
        self.word("[");
        proof {
            assert(decreases_to!(whole => *array.elem));
        }
        match self.ty(&array.elem) {
            Result::Ok(()) => {},
            Result::Err(e) => {
                return Result::Err(e);
            },
        }
        self.word("; ");
        match self.expr(&array.len) {
            Result::Ok(()) => {},
            Result::Err(e) => {
                return Result::Err(e);
            },
        }
        self.word("]");
        Result::Ok(())
    }

    fn expr(&mut self, expr: &Expr) -> (r: Result<(), Error>)
        ensures
            final(self).depth() == old(self).depth(),
            r is Ok <==> render_expr(*expr, old(self).depth(), old(self).pending()) is Ok,
            r matches Result::Ok(()) ==> render_expr(
                *expr,
                old(self).depth(),
                old(self).pending(),
            ) matches Result::Ok((t, p)) && final(self).text() == old(self).text() + t && final(self).pending() == p,
            r matches Result::Err(e) ==> render_expr(
                *expr,
                old(self).depth(),
                old(self).pending(),
            ) matches Result::Err(d) && e@ == ErrorV::Unsupported(d),
        decreases *expr, 1int,
    {
        match expr {
            Expr::Lit(lit) => self.expr_lit(lit),
            Expr::Unary(unary) => self.expr_unary(unary, Ghost(*expr)),
            Expr::Other(d) => Result::Err(Error::Unsupported(d.clone())),
        }
    }

    /// The printer renders negation, the one supported unary operator; any
    /// other operator aborts with its description.
    fn expr_unary(&mut self, unary: &crate::idl::ExprUnary, Ghost(whole): Ghost<Expr>) -> (r:
        Result<(), Error>)
        requires
            whole == Expr::Unary(*unary),
        ensures
            final(self).depth() == old(self).depth(),
            r is Ok <==> render_expr(whole, old(self).depth(), old(self).pending()) is Ok,
            r matches Result::Ok(()) ==> render_expr(
                whole,
                old(self).depth(),
                old(self).pending(),
            ) matches Result::Ok((t, p)) && final(self).text() == old(self).text() + t && final(self).pending() == p,
            r matches Result::Err(e) ==> render_expr(
                whole,
                old(self).depth(),
                old(self).pending(),
            ) matches Result::Err(d) && e@ == ErrorV::Unsupported(d),
        decreases whole, 0int,
    {
        match &unary.op {
            UnaryOp::Neg => {},
            UnaryOp::Other(d) => {
                return Result::Err(Error::Unsupported(d.clone()));
            },
        }
        self.word("-");
        proof {
            assert(decreases_to!(whole => *unary.expr));
        }
        self.expr(&unary.expr)
    }

    fn expr_lit(&mut self, expr: &crate::idl::ExprLit) -> (r: Result<(), Error>)
        ensures
            final(self).depth() == old(self).depth(),
            r is Ok <==> render_lit(expr.lit, old(self).depth(), old(self).pending()) is Ok,
            r matches Result::Ok(()) ==> render_lit(
                expr.lit,
                old(self).depth(),
                old(self).pending(),
            ) matches Result::Ok((t, p)) && final(self).text() == old(self).text() + t && final(self).pending() == p,
            r matches Result::Err(e) ==> render_lit(
                expr.lit,
                old(self).depth(),
                old(self).pending(),
            ) matches Result::Err(d) && e@ == ErrorV::Unsupported(d),
    {
        self.lit(&expr.lit)
    }

    fn lit(&mut self, lit: &Lit) -> (r: Result<(), Error>)
        ensures
            final(self).depth() == old(self).depth(),
            r is Ok <==> render_lit(*lit, old(self).depth(), old(self).pending()) is Ok,
            r matches Result::Ok(()) ==> render_lit(
                *lit,
                old(self).depth(),
                old(self).pending(),
            ) matches Result::Ok((t, p)) && final(self).text() == old(self).text() + t && final(self).pending() == p,
            r matches Result::Err(e) ==> render_lit(
                *lit,
                old(self).depth(),
                old(self).pending(),
            ) matches Result::Err(d) && e@ == ErrorV::Unsupported(d),
    {
        match lit {
            Lit::Int(tok) => {
                self.lit_int(tok);
                Result::Ok(())
            },
            Lit::Str(v) => {
                self.lit_str(v);
                Result::Ok(())
            },
            Lit::Other(d) => Result::Err(Error::Unsupported(d.clone())),
        }
    }

    fn lit_str(&mut self, value: &String)
        ensures
            final(self).depth() == old(self).depth(),
            final(self).text() == old(self).text() + flush(old(self).depth(), old(self).pending())
                + "\""@ + value@ + "\""@,
            final(self).pending() == false,
    {
        self.word("\"");
        self.word(value.as_str());
        self.word("\"");
    }

    fn lit_int(&mut self, token: &String)
        ensures
            final(self).depth() == old(self).depth(),
            final(self).text() == old(self).text() + flush(old(self).depth(), old(self).pending())
                + token@,
            final(self).pending() == false,
    {
        self.word(token.as_str());
    }

    fn type_ptr(&mut self, ptr: &crate::idl::TypePtr, Ghost(whole): Ghost<Ty>) -> (r: Result<
        (),
        Error,
    >)
        requires
            whole == Ty::Ptr(*ptr),
        ensures
            final(self).depth() == old(self).depth(),
            r is Ok <==> render_ty(whole, old(self).depth(), old(self).pending()) is Ok,
            r matches Result::Ok(()) ==> render_ty(
                whole,
                old(self).depth(),
                old(self).pending(),
            ) matches Result::Ok((t, p)) && final(self).text() == old(self).text() + t && final(self).pending() == p,
            r matches Result::Err(e) ==> render_ty(
                whole,
                old(self).depth(),
                old(self).pending(),
            ) matches Result::Err(d) && e@ == ErrorV::Unsupported(d),
        decreases whole, 0int,
    {
        if ptr.mutability {
            self.word("*mut ");
        } else {
            self.word("*const ");
        }
        proof {
            assert(decreases_to!(whole => *ptr.elem));
        }
        self.ty(&ptr.elem)
    }

    fn type_path(&mut self, ty: &crate::idl::TypePath)
        ensures
            final(self).depth() == old(self).depth(),
            final(self).text() == old(self).text() + render_path(
                ty.path,
                old(self).depth(),
                old(self).pending(),
            ).0,
            final(self).pending() == render_path(
                ty.path,
                old(self).depth(),
                old(self).pending(),
            ).1,
    {
        self.path(&ty.path);
    }

    fn path(&mut self, path: &Path)
        ensures
            final(self).depth() == old(self).depth(),
            final(self).text() == old(self).text() + render_path(
                *path,
                old(self).depth(),
                old(self).pending(),
            ).0,
            final(self).pending() == render_path(*path, old(self).depth(), old(self).pending()).1,
    {
        let n = path.segments.len();
        if n == 0 {
            return ;
        }
        self.path_segment(&path.segments[0]);
        let mut i: usize = 1;
        let ghost c0 = self.text();
        #[verifier::loop_isolation(false)]
        while i < n
            invariant
                1 <= i <= n == path.segments@.len(),
                self.depth() == old(self).depth(),
                self.pending() == false,
                self.text() + render_path_rest(path.segments@.skip(i as int)) == c0
                    + render_path_rest(path.segments@.skip(1)),
            decreases n - i,
        {
            proof {
                assert(path.segments@.skip(i as int).drop_first() =~= path.segments@.skip(
                    i as int + 1,
                ));
                assert(path.segments@.skip(i as int)[0] == path.segments@[i as int]);
            }
            self.word("::");
            self.path_segment(&path.segments[i]);
            i += 1;
        }
        proof {
            assert(path.segments@.skip(n as int) =~= Seq::<PathSegment>::empty());
        }
    }

    /// Renders one path segment: its identifier.
    pub fn path_segment(&mut self, segment: &PathSegment)
        ensures
            final(self).depth() == old(self).depth(),
            final(self).text() == old(self).text() + flush(old(self).depth(), old(self).pending())
                + segment.ident@,
            final(self).pending() == false,
    {
        self.ident(segment.ident.as_str());
    }

    fn item_use(&mut self, item: &ItemUse)
        ensures
            final(self).depth() == old(self).depth(),
            final(self).text() == old(self).text() + render_item_use(
                *item,
                old(self).depth(),
                old(self).pending(),
            ).0,
            final(self).pending() == render_item_use(
                *item,
                old(self).depth(),
                old(self).pending(),
            ).1,
    {
        self.word("use ");
        self.use_tree(&item.tree);
        self.word(";");
        self.newline();
    }

    fn use_tree(&mut self, use_tree: &UseTree)
        ensures
            final(self).depth() == old(self).depth(),
            final(self).text() == old(self).text() + render_use_tree(
                *use_tree,
                old(self).depth(),
                old(self).pending(),
            ).0,
            final(self).pending() == render_use_tree(
                *use_tree,
                old(self).depth(),
                old(self).pending(),
            ).1,
        decreases *use_tree, 1int,
    {
        match use_tree {
            UseTree::Path(use_path) => self.use_path(use_path, Ghost(*use_tree)),
            UseTree::Name(use_name) => self.use_name(use_name),
            UseTree::Other => {},
        }
    }

    fn use_path(&mut self, use_path: &crate::idl::UsePath, Ghost(whole): Ghost<UseTree>)
        requires
            whole == UseTree::Path(*use_path),
        ensures
            final(self).depth() == old(self).depth(),
            final(self).text() == old(self).text() + render_use_tree(
                whole,
                old(self).depth(),
                old(self).pending(),
            ).0,
            final(self).pending() == render_use_tree(
                whole,
                old(self).depth(),
                old(self).pending(),
            ).1,
        decreases whole, 0int,
    {
        self.ident(use_path.ident.as_str());
        self.word("::");
        proof {
            assert(decreases_to!(whole => whole->Path_0));
            assert(decreases_to!(whole->Path_0 => whole->Path_0.tree));
            assert(whole->Path_0 == *use_path);
            assert(decreases_to!(whole => *use_path.tree));
        }
        self.use_tree(&use_path.tree);
    }

    fn use_name(&mut self, use_name: &crate::idl::UseName)
        ensures
            final(self).depth() == old(self).depth(),
            final(self).text() == old(self).text() + flush(old(self).depth(), old(self).pending())
                + use_name.ident@,
            final(self).pending() == false,
    {
        self.ident(use_name.ident.as_str());
    }

    /// Renders an identifier.
    pub fn ident(&mut self, ident: &str)
        ensures
            final(self).depth() == old(self).depth(),
            final(self).text() == old(self).text() + flush(old(self).depth(), old(self).pending())
                + ident@,
            final(self).pending() == false,
    {
        self.word(ident);
    }
}

/// The rendering of a file, from a writer state: what `Writer::new` produces
/// from the default state.
pub open spec fn render_file_at(f: File, indent: nat, pending: bool) -> Result<
    (Seq<char>, bool),
    Seq<char>,
> {
    let uses = render_uses(f.references@, indent, pending);
    match render_modules(f.modules@, indent, uses.1) {
        Result::Ok((tm, pm)) => Result::Ok((uses.0 + tm, pm)),
        Result::Err(d) => Result::Err(d),
    }
}

/// Determinism of the interface-description backend: rendering is a function
/// of the file value alone, so any two runs over the same file yield
/// byte-identical output.
pub proof fn lemma_writer_deterministic(f: File, t1: Seq<char>, t2: Seq<char>)
    requires
        render_file(f) matches Result::Ok((t, p)) && t == t1,
        render_file(f) matches Result::Ok((t, p)) && t == t2,
    ensures
        t1 == t2,
{
}

} // verus!
