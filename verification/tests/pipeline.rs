use riddle::enums::{flags_contains, gen, Gen};
use riddle::idl::{
    Attribute, Enum, Expr, ExprLit, Field as IdlField, File, FnArg, Interface, ItemUse, Lit, Meta,
    Module, ModuleMember, Pat, PatIdent, PatType, Path, PathSegment, Signature, Struct,
    TraitItemFn, Ty, TypePath, TypePtr, UseName, UsePath, UseTree, Variant,
};
use riddle::idl_gen::from_reader;
use riddle::meta::{Field, Filter, FilterRule, Reader, TypeDef, TypeName, TypeRef, Value};
use riddle::tree::Tree;
use riddle::writer::Writer;
use riddle::Error;

fn field(name: &str, ty: TypeRef, is_literal: bool, constant: Option<Value>) -> Field {
    Field { name: name.to_string(), ty, is_literal, constant }
}

fn def(namespace: &str, name: &str, base: Option<(&str, &str)>, fields: Vec<Field>) -> TypeDef {
    TypeDef {
        namespace: namespace.to_string(),
        name: name.to_string(),
        extends: base.map(|(ns, n)| TypeName { namespace: ns.to_string(), name: n.to_string() }),
        fields,
        is_scoped: false,
        is_flags: false,
        is_winrt: false,
    }
}

fn keep_all() -> Filter {
    Filter::new(vec![FilterRule { prefix: "A".to_string(), keep: true }, FilterRule {
        prefix: "Demo".to_string(),
        keep: true,
    }])
}

// Building from one definition in namespace `A.B.C` produces a three-level
// chain below the root, with the definition attached only to the deepest
// node, never to an ancestor.
#[test]
fn tree_builds_exact_chain() {
    let reader = Reader::new(vec![def("A.B.C", "T1", Some(("System", "ValueType")), Vec::new())]);
    let filter = keep_all();
    let tree = Tree::new(&reader, &filter).unwrap();
    assert_eq!(tree.namespace, "");
    assert!(tree.types.is_empty());
    assert_eq!(tree.nested.len(), 1);
    let a = &tree.nested[0];
    assert_eq!(a.namespace, "A");
    assert_eq!(a.segment, "A");
    assert!(a.types.is_empty());
    assert_eq!(a.nested.len(), 1);
    let b = &a.nested[0];
    assert_eq!(b.namespace, "A.B");
    assert!(b.types.is_empty());
    assert_eq!(b.nested.len(), 1);
    let c = &b.nested[0];
    assert_eq!(c.namespace, "A.B.C");
    assert!(c.nested.is_empty());
    assert_eq!(c.types, vec![0]);
}

#[test]
fn tree_children_sorted_and_shared() {
    let reader = Reader::new(vec![
        def("A.Zeta", "T1", Some(("System", "ValueType")), Vec::new()),
        def("A.Alpha", "T2", Some(("System", "ValueType")), Vec::new()),
        def("A.Alpha", "T3", Some(("System", "ValueType")), Vec::new()),
    ]);
    let tree = Tree::new(&reader, &keep_all()).unwrap();
    let a = &tree.nested[0];
    assert_eq!(a.nested.len(), 2);
    assert_eq!(a.nested[0].segment, "Alpha");
    assert_eq!(a.nested[1].segment, "Zeta");
    assert_eq!(a.nested[0].types, vec![1, 2]);
    assert_eq!(a.nested[1].types, vec![0]);
}

#[test]
fn tree_rejects_empty_segment() {
    let reader = Reader::new(vec![def("A..B", "T1", Some(("System", "ValueType")), Vec::new())]);
    match Tree::new(&reader, &keep_all()) {
        Err(Error::MalformedNamespace(ns)) => assert_eq!(ns, "A..B"),
        other => panic!("expected a malformed-namespace error, got {other:?}"),
    }
}

#[test]
fn tree_filter_excludes() {
    let reader = Reader::new(vec![
        def("A.Keep", "T1", Some(("System", "ValueType")), Vec::new()),
        def("Z.Drop", "T2", Some(("System", "ValueType")), Vec::new()),
    ]);
    let tree = Tree::new(&reader, &keep_all()).unwrap();
    assert_eq!(tree.nested.len(), 1);
    assert_eq!(tree.nested[0].namespace, "A");
}

#[test]
fn from_reader_rejects_configuration() {
    let reader = Reader::new(Vec::new());
    let config = vec![("package".to_string(), "demo".to_string())];
    match from_reader(&reader, &keep_all(), &config) {
        Err(e @ Error::InvalidConfiguration(_)) => {
            assert_eq!(e.message(), "invalid configuration value: `package`");
        },
        other => panic!("expected an invalid-configuration error, got {other:?}"),
    }
}

#[test]
fn from_reader_renders_modules_and_structs() {
    let reader = Reader::new(vec![
        def(
            "A",
            "S",
            Some(("System", "ValueType")),
            vec![field("x", TypeRef::Primitive(7), false, None)],
        ),
        def("A.B", "E", Some(("System", "Enum")), vec![field(
            "value__",
            TypeRef::Primitive(7),
            false,
            None,
        )]),
    ]);
    let out = from_reader(&reader, &keep_all(), &Vec::new()).unwrap();
    assert_eq!(out, "mod A {\nmod B {\nenum E {\n}\n}\nstruct S {\n    x: i32,\n}\n}\n");
}

// An enum definition reaches the interface-description target as an enum:
// one variant per literal constant, in declaration order, with explicit
// discriminants.
#[test]
fn from_reader_renders_enum_variants() {
    let reader = Reader::new(vec![def(
        "A",
        "Color",
        Some(("System", "Enum")),
        vec![
            field("value__", TypeRef::Primitive(7), false, None),
            field("Red", TypeRef::Primitive(7), true, Some(Value::I32(1))),
            field("Dim", TypeRef::Primitive(7), true, Some(Value::I32(-2))),
        ],
    )]);
    let out = from_reader(&reader, &keep_all(), &Vec::new()).unwrap();
    assert_eq!(out, "mod A {\nenum Color {\n    Red = 1,\n    Dim = -2,\n}\n}\n");
}

#[test]
fn from_reader_rejects_non_integer_discriminant() {
    let reader = Reader::new(vec![def(
        "A",
        "Color",
        Some(("System", "Enum")),
        vec![
            field("value__", TypeRef::Primitive(7), false, None),
            field("Red", TypeRef::Primitive(7), true, Some(Value::Bool(true))),
        ],
    )]);
    match from_reader(&reader, &keep_all(), &Vec::new()) {
        Err(e @ Error::Unsupported(_)) => {
            assert_eq!(e.message(), "unsupported: enum discriminant: Red");
        },
        other => panic!("expected an unsupported-construct error, got {other:?}"),
    }
}

#[test]
fn from_reader_rejects_enum_without_constant() {
    let reader = Reader::new(vec![def(
        "A",
        "Color",
        Some(("System", "Enum")),
        vec![
            field("value__", TypeRef::Primitive(7), false, None),
            field("Red", TypeRef::Primitive(7), true, None),
        ],
    )]);
    match from_reader(&reader, &keep_all(), &Vec::new()) {
        Err(e @ Error::Unsupported(_)) => {
            assert_eq!(e.message(), "unsupported: missing constant: Red");
        },
        other => panic!("expected an unsupported-construct error, got {other:?}"),
    }
}

// Determinism: running the full pipeline twice over an identical snapshot
// and configuration produces byte-identical output.
#[test]
fn from_reader_deterministic() {
    let build = || {
        Reader::new(vec![
            def(
                "A",
                "S",
                Some(("System", "ValueType")),
                vec![
                    field("x", TypeRef::Primitive(7), false, None),
                    field("p", TypeRef::MutPtr(Box::new(TypeRef::Primitive(4))), false, None),
                ],
            ),
            def("A.B", "I", None, Vec::new()),
        ])
    };
    let one = from_reader(&build(), &keep_all(), &Vec::new()).unwrap();
    let two = from_reader(&build(), &keep_all(), &Vec::new()).unwrap();
    assert_eq!(one, two);
}

// Failure scenario: a reference to a primitive kind outside the closed set
// aborts the run with an unsupported-construct error and no output text.
#[test]
fn from_reader_aborts_on_unsupported() {
    let reader = Reader::new(vec![def(
        "A",
        "S",
        Some(("System", "ValueType")),
        vec![field("x", TypeRef::Primitive(99), false, None)],
    )]);
    match from_reader(&reader, &keep_all(), &Vec::new()) {
        Err(e @ Error::Unsupported(_)) => {
            assert_eq!(e.message(), "unsupported: type kind 99");
        },
        other => panic!("expected an unsupported-construct error, got {other:?}"),
    }
}

fn color_def(scoped: bool, flags: bool) -> TypeDef {
    TypeDef {
        namespace: "Demo.App".to_string(),
        name: "Color".to_string(),
        extends: Some(TypeName { namespace: "System".to_string(), name: "Enum".to_string() }),
        fields: vec![
            field("value__", TypeRef::Primitive(7), false, None),
            field("Red", TypeRef::Primitive(7), true, Some(Value::I32(1))),
        ],
        is_scoped: scoped,
        is_flags: flags,
        is_winrt: false,
    }
}

#[test]
fn gen_scoped_enum_exact_text() {
    let reader = Reader::new(Vec::new());
    let cx = Gen { reader: &reader, namespace: "Demo.App", sys: false, minimal: false };
    let out = gen(&cx, &color_def(true, false)).into_string();
    let mut expected = String::new();
    expected.push_str("#[doc = \"*Required features: `\"App\"`*\"]\n");
    expected.push_str("#[repr(transparent)]\n");
    expected.push_str("#[derive(::core::cmp::PartialEq, ::core::cmp::Eq)]\n");
    expected.push_str("pub struct Color(pub i32);\n");
    expected.push_str("impl Color {\n    pub const Red: Self = Self(1i32);\n}\n");
    expected.push_str("impl ::core::marker::Copy for Color {}\n");
    expected.push_str("impl ::core::clone::Clone for Color {\n    fn clone(&self) -> Self {\n        *self\n    }\n}\n");
    expected.push_str("impl ::core::default::Default for Color {\n    fn default() -> Self {\n        Self(0)\n    }\n}\n");
    expected.push_str("impl ::windows_core::TypeKind for Color {\n    type TypeKind = ::windows_core::CopyType;\n}\n");
    expected.push_str("impl ::core::fmt::Debug for Color {\n    fn fmt(&self, f: &mut ::core::fmt::Formatter<'_>) -> ::core::fmt::Result {\n        f.debug_tuple(\"Color\").field(&self.0).finish()\n    }\n}\n");
    assert_eq!(out, expected);
}

#[test]
fn gen_sys_minimal_alias_exact_text() {
    let reader = Reader::new(Vec::new());
    let cx = Gen { reader: &reader, namespace: "Demo.App", sys: true, minimal: true };
    let out = gen(&cx, &color_def(false, false)).into_string();
    let mut expected = String::new();
    expected.push_str("#[doc = \"*Required features: `\"App\"`*\"]\n");
    expected.push_str("pub type Color = i32;\n");
    assert_eq!(out, expected);
}

#[test]
fn gen_sys_unscoped_constants() {
    let reader = Reader::new(Vec::new());
    let cx = Gen { reader: &reader, namespace: "Demo.App", sys: true, minimal: false };
    let out = gen(&cx, &color_def(false, false)).into_string();
    let mut expected = String::new();
    expected.push_str("#[doc = \"*Required features: `\"App\"`*\"]\n");
    expected.push_str("pub type Color = i32;\n");
    expected.push_str("#[doc = \"*Required features: `\"App\"`*\"]\n");
    expected.push_str("pub const Red: Color = 1i32;\n");
    assert_eq!(out, expected);
}

#[test]
fn gen_flags_enum_emits_operators_and_predicate() {
    let reader = Reader::new(Vec::new());
    let cx = Gen { reader: &reader, namespace: "Demo.App", sys: false, minimal: false };
    let out = gen(&cx, &color_def(true, true)).into_string();
    assert!(out.contains(
        "impl Color {\n    pub fn contains(&self, other: Self) -> bool {\n        self.0 & other.0 == other.0\n    }\n}\n"
    ));
    assert!(out.contains("impl ::core::ops::BitOr for Color"));
    assert!(out.contains("impl ::core::ops::BitAnd for Color"));
    assert!(out.contains("impl ::core::ops::BitOrAssign for Color"));
    assert!(out.contains("impl ::core::ops::BitAndAssign for Color"));
    assert!(out.contains("impl ::core::ops::Not for Color"));
}

#[test]
fn gen_requirements_carry_field_namespaces() {
    let mut d = color_def(true, false);
    d.fields.push(field(
        "Link",
        TypeRef::Named {
            namespace: "Demo.Base".to_string(),
            name: "Other".to_string(),
            generics: Vec::new(),
        },
        true,
        Some(Value::I32(4)),
    ));
    let reader = Reader::new(Vec::new());
    let cx = Gen { reader: &reader, namespace: "Demo.App", sys: false, minimal: false };
    let out = gen(&cx, &d).into_string();
    assert!(out.starts_with("#[doc = \"*Required features: `\"App\"`, `\"Base\"`*\"]\n"));
    assert!(out.contains("#[cfg(feature = \"Base\")]\n"));
}

// Determinism of the token backend.
#[test]
fn gen_deterministic() {
    let reader = Reader::new(Vec::new());
    let cx = Gen { reader: &reader, namespace: "Demo.App", sys: false, minimal: false };
    let one = gen(&cx, &color_def(true, true)).into_string();
    let two = gen(&cx, &color_def(true, true)).into_string();
    assert_eq!(one, two);
}

// The emitted membership predicate: a combination contains each combinand,
// and never a bit it lacks.
#[test]
fn flags_membership_predicate() {
    let a: u64 = 0b0101;
    let b: u64 = 0b0010;
    assert!(flags_contains(a | b, a));
    assert!(flags_contains(a | b, b));
    assert!(!flags_contains(a, b));
    assert!(flags_contains(a, 0));
    assert!(!flags_contains(0, 1));
}

fn demo_file() -> File {
    File {
        references: vec![ItemUse {
            tree: UseTree::Path(UsePath {
                ident: "Windows".to_string(),
                tree: Box::new(UseTree::Name(UseName { ident: "Win32".to_string() })),
            }),
        }],
        modules: vec![Module {
            name: "Demo".to_string(),
            members: vec![
                ModuleMember::Struct(Struct {
                    attributes: Vec::new(),
                    name: "Point".to_string(),
                    fields: vec![IdlField {
                        name: "x".to_string(),
                        ty: Ty::Path(TypePath {
                            path: Path {
                                segments: vec![PathSegment { ident: "i32".to_string() }],
                            },
                        }),
                    }],
                }),
                ModuleMember::Enum(Enum {
                    attributes: Vec::new(),
                    ident: "Color".to_string(),
                    variants: vec![Variant {
                        ident: "Red".to_string(),
                        discriminant: Some(Expr::Lit(ExprLit { lit: Lit::Int("1".to_string()) })),
                    }],
                }),
            ],
        }],
    }
}

#[test]
fn writer_renders_file_exact_text() {
    let w = Writer::new(&demo_file()).unwrap();
    let out = w.into_string();
    assert_eq!(
        out,
        "use Windows::Win32;\nmod Demo {\n    struct Point {\n        x: i32,\n    }\n    enum Color {\n        Red = 1,\n    }\n}"
    );
}

// Determinism of the interface-description backend.
#[test]
fn writer_deterministic() {
    let one = Writer::new(&demo_file()).unwrap().into_string();
    let two = Writer::new(&demo_file()).unwrap().into_string();
    assert_eq!(one, two);
}

#[test]
fn writer_renders_interface_with_attributes() {
    let file = File {
        references: Vec::new(),
        modules: vec![Module {
            name: "M".to_string(),
            members: vec![ModuleMember::Interface(Interface {
                attributes: vec![Attribute {
                    meta: Meta::Path(Path {
                        segments: vec![PathSegment { ident: "hidden".to_string() }],
                    }),
                }],
                name: "IThing".to_string(),
                methods: vec![TraitItemFn {
                    attrs: Vec::new(),
                    sig: Signature {
                        ident: "get".to_string(),
                        inputs: vec![
                            FnArg::Receiver,
                            FnArg::Typed(PatType {
                                pat: Pat::Ident(PatIdent { ident: "level".to_string() }),
                                ty: Ty::Ptr(TypePtr {
                                    mutability: false,
                                    elem: Box::new(Ty::Path(TypePath {
                                        path: Path {
                                            segments: vec![PathSegment {
                                                ident: "u32".to_string(),
                                            }],
                                        },
                                    })),
                                }),
                            }),
                        ],
                        output: Some(Ty::Path(TypePath {
                            path: Path { segments: vec![PathSegment { ident: "i32".to_string() }] },
                        })),
                    },
                }],
            })],
        }],
    };
    let out = Writer::new(&file).unwrap().into_string();
    assert_eq!(
        out,
        "mod M {\n    #[hidden]\n    interface IThing {\n        fn get(, level: *const u32) -> i32;\n    }\n}"
    );
}

// A variant discriminant renders through unary negation; any other unary
// operator, and any literal form outside the closed set, aborts rendering.
#[test]
fn writer_renders_negation_and_rejects_other_unaries() {
    let make = |op: riddle::idl::UnaryOp| File {
        references: Vec::new(),
        modules: vec![Module {
            name: "M".to_string(),
            members: vec![ModuleMember::Enum(Enum {
                attributes: Vec::new(),
                ident: "E".to_string(),
                variants: vec![Variant {
                    ident: "V".to_string(),
                    discriminant: Some(Expr::Unary(riddle::idl::ExprUnary {
                        op,
                        expr: Box::new(Expr::Lit(ExprLit { lit: Lit::Int("7".to_string()) })),
                    })),
                }],
            })],
        }],
    };
    let out = Writer::new(&make(riddle::idl::UnaryOp::Neg)).unwrap().into_string();
    assert_eq!(out, "mod M {\n    enum E {\n        V = -7,\n    }\n}");
    match Writer::new(&make(riddle::idl::UnaryOp::Other("unary operator".to_string()))) {
        Err(Error::Unsupported(d)) => assert_eq!(d, "unary operator"),
        other => panic!("expected an unsupported-construct error, got {other:?}"),
    }
}

#[test]
fn writer_aborts_on_unsupported_literal() {
    let file = File {
        references: Vec::new(),
        modules: vec![Module {
            name: "M".to_string(),
            members: vec![ModuleMember::Enum(Enum {
                attributes: Vec::new(),
                ident: "E".to_string(),
                variants: vec![Variant {
                    ident: "V".to_string(),
                    discriminant: Some(Expr::Lit(ExprLit {
                        lit: Lit::Other("literal form".to_string()),
                    })),
                }],
            })],
        }],
    };
    match Writer::new(&file) {
        Err(Error::Unsupported(d)) => assert_eq!(d, "literal form"),
        other => panic!("expected an unsupported-construct error, got {other:?}"),
    }
}

#[test]
fn writer_aborts_on_unsupported_type() {
    let file = File {
        references: Vec::new(),
        modules: vec![Module {
            name: "M".to_string(),
            members: vec![ModuleMember::Struct(Struct {
                attributes: Vec::new(),
                name: "S".to_string(),
                fields: vec![IdlField {
                    name: "x".to_string(),
                    ty: Ty::Other("Reference".to_string()),
                }],
            })],
        }],
    };
    match Writer::new(&file) {
        Err(Error::Unsupported(d)) => assert_eq!(d, "Reference"),
        other => panic!("expected an unsupported-construct error, got {other:?}"),
    }
}

#[test]
fn writer_classes_render_nothing() {
    let file = File {
        references: Vec::new(),
        modules: vec![Module {
            name: "M".to_string(),
            members: vec![ModuleMember::Class(riddle::idl::Class { name: "C".to_string() })],
        }],
    };
    let out = Writer::new(&file).unwrap().into_string();
    assert_eq!(out, "mod M {\n}");
}
