use riddle::meta::{
    classify, primitive_of, Field, Filter, FilterRule, PrimitiveKind, Reader, TypeDef, TypeKind,
    TypeName, TypeRef, Value,
};
use riddle::resolve::{prim_name, relative_qualifier, resolve, TypeExpression};
use riddle::shape::{emit_enum, emit_struct, push_value};
use riddle::text::{feature_of, join_with, split_namespace, str_less, str_same};
use riddle::Error;

fn named(namespace: &str, name: &str) -> TypeRef {
    TypeRef::Named {
        namespace: namespace.to_string(),
        name: name.to_string(),
        generics: Vec::new(),
    }
}

fn field(name: &str, ty: TypeRef, is_literal: bool, constant: Option<Value>) -> Field {
    Field { name: name.to_string(), ty, is_literal, constant }
}

fn enum_def(namespace: &str, name: &str, scoped: bool, flags: bool, fields: Vec<Field>) -> TypeDef {
    TypeDef {
        namespace: namespace.to_string(),
        name: name.to_string(),
        extends: Some(TypeName { namespace: "System".to_string(), name: "Enum".to_string() }),
        fields,
        is_scoped: scoped,
        is_flags: flags,
        is_winrt: false,
    }
}

#[test]
fn split_segments() {
    let segs = split_namespace("A.B.C");
    assert_eq!(segs, vec!["A".to_string(), "B".to_string(), "C".to_string()]);
    assert_eq!(split_namespace("Solo"), vec!["Solo".to_string()]);
    assert_eq!(split_namespace(""), vec!["".to_string()]);
    assert_eq!(split_namespace("A..B"), vec!["A".to_string(), "".to_string(), "B".to_string()]);
}

#[test]
fn join_and_feature() {
    let segs = vec!["Win32".to_string(), "Foundation".to_string()];
    assert_eq!(join_with(&segs, "."), "Win32.Foundation");
    assert_eq!(feature_of("Windows.Win32.Foundation"), "Win32_Foundation");
    assert_eq!(feature_of("Solo"), "Solo");
}

#[test]
fn string_order() {
    assert!(str_less("Alpha", "Beta"));
    assert!(!str_less("Beta", "Alpha"));
    assert!(str_less("Ab", "Abc"));
    assert!(!str_less("Ab", "Ab"));
    assert!(str_same("Same", "Same"));
    assert!(!str_same("Same", "Sane"));
}

#[test]
fn primitive_mapping_closed_set() {
    assert_eq!(primitive_of(0), Some(PrimitiveKind::Void));
    assert_eq!(primitive_of(7), Some(PrimitiveKind::I32));
    assert_eq!(primitive_of(14), Some(PrimitiveKind::USize));
    assert_eq!(primitive_of(15), None);
    assert_eq!(primitive_of(99), None);
    assert_eq!(prim_name(PrimitiveKind::Void), "::core::ffi::c_void");
    assert_eq!(prim_name(PrimitiveKind::Char), "u16");
}

#[test]
fn classify_all_kinds() {
    let mut def = enum_def("A", "E", false, false, Vec::new());
    assert_eq!(classify(&def), TypeKind::Enum);
    def.extends = Some(TypeName { namespace: "System".to_string(), name: "ValueType".to_string() });
    assert_eq!(classify(&def), TypeKind::Struct);
    def.extends = Some(TypeName {
        namespace: "System".to_string(),
        name: "MulticastDelegate".to_string(),
    });
    assert_eq!(classify(&def), TypeKind::Delegate);
    def.extends = Some(TypeName { namespace: "System".to_string(), name: "Object".to_string() });
    assert_eq!(classify(&def), TypeKind::Class);
    def.extends = Some(TypeName { namespace: "Other".to_string(), name: "Enum".to_string() });
    assert_eq!(classify(&def), TypeKind::Class);
    def.extends = None;
    assert_eq!(classify(&def), TypeKind::Interface);
}

// Qualification shape: from N1 to a type in N2 sharing a k-segment common
// prefix, exactly len(N1)-k step-up tokens then the remaining N2 segments.
#[test]
fn qualifier_shared_prefix() {
    let q = relative_qualifier("A.B.X", "A.B.C.D");
    assert_eq!(q.ups, 1);
    assert_eq!(q.downs, vec!["C".to_string(), "D".to_string()]);

    let q = relative_qualifier("A.B", "A.B.C");
    assert_eq!(q.ups, 0);
    assert_eq!(q.downs, vec!["C".to_string()]);

    let q = relative_qualifier("A.B.C", "A");
    assert_eq!(q.ups, 2);
    assert!(q.downs.is_empty());

    let q = relative_qualifier("X.Y", "P.Q");
    assert_eq!(q.ups, 2);
    assert_eq!(q.downs, vec!["P".to_string(), "Q".to_string()]);
}

// Reflexivity: a reference into the emitting namespace itself is unqualified.
#[test]
fn qualifier_reflexive() {
    let q = relative_qualifier("A.B.C", "A.B.C");
    assert_eq!(q.ups, 0);
    assert!(q.downs.is_empty());
}

#[test]
fn resolve_primitives_and_shapes() {
    match resolve("A", &TypeRef::Primitive(7)).unwrap() {
        TypeExpression::Primitive(PrimitiveKind::I32) => {},
        other => panic!("unexpected expression: {other:?}"),
    }
    match resolve("A", &TypeRef::MutPtr(Box::new(TypeRef::Primitive(4)))).unwrap() {
        TypeExpression::Pointer { mutable: true, .. } => {},
        other => panic!("unexpected expression: {other:?}"),
    }
    match resolve("A", &TypeRef::Array(Box::new(TypeRef::Primitive(4)), 8)).unwrap() {
        TypeExpression::Array { len: 8, .. } => {},
        other => panic!("unexpected expression: {other:?}"),
    }
    match resolve("A.B", &named("A.B", "Inner")).unwrap() {
        TypeExpression::Named { qualifier, name, generics } => {
            assert_eq!(qualifier.ups, 0);
            assert!(qualifier.downs.is_empty());
            assert_eq!(name, "Inner");
            assert!(generics.is_empty());
        },
        other => panic!("unexpected expression: {other:?}"),
    }
}

// Failure scenario: a primitive tag outside the closed set aborts with an
// unsupported-construct error; no placeholder expression is produced.
#[test]
fn resolve_unsupported_tag() {
    match resolve("A", &TypeRef::Primitive(99)) {
        Err(Error::Unsupported(d)) => assert_eq!(d, "type kind 99"),
        other => panic!("expected an unsupported-construct error, got {other:?}"),
    }
    // The failure is found inside generic arguments too.
    let ty = TypeRef::Named {
        namespace: "A".to_string(),
        name: "G".to_string(),
        generics: vec![TypeRef::Primitive(1), TypeRef::Primitive(77)],
    };
    match resolve("A", &ty) {
        Err(Error::Unsupported(d)) => assert_eq!(d, "type kind 77"),
        other => panic!("expected an unsupported-construct error, got {other:?}"),
    }
}

#[test]
fn filter_longest_match_wins() {
    let filter = Filter::new(vec![
        FilterRule { prefix: "A".to_string(), keep: true },
        FilterRule { prefix: "A.B".to_string(), keep: false },
    ]);
    assert!(filter.includes("A.X"));
    assert!(!filter.includes("A.B"));
    assert!(!filter.includes("A.B.C"));
    assert!(filter.includes_type("A", "T"));
    assert!(!filter.includes_type("A.B", "T"));
    // Absence of a match excludes, never errors.
    assert!(!filter.includes("Z.Q"));
    // A prefix applies at dotted boundaries only.
    assert!(!filter.includes("AB.C"));
}

// Enum round trip: emitting a classified enum produces exactly one constant
// per literal field, in metadata declaration order.
#[test]
fn enum_shape_round_trip() {
    let def = enum_def(
        "Demo.App",
        "Color",
        true,
        false,
        vec![
            field("value__", TypeRef::Primitive(7), false, None),
            field("Red", TypeRef::Primitive(7), true, Some(Value::I32(1))),
            field("Green", TypeRef::Primitive(7), true, Some(Value::I32(2))),
            field("Blue", TypeRef::Primitive(7), true, Some(Value::I32(3))),
        ],
    );
    assert_eq!(classify(&def), TypeKind::Enum);
    let shape = emit_enum("Demo.App", &def).unwrap();
    assert_eq!(shape.ident, "Color");
    assert!(shape.is_scoped);
    assert!(!shape.is_flags);
    let literal_count = def.fields.iter().filter(|f| f.is_literal).count();
    assert_eq!(shape.constants.len(), literal_count);
    assert_eq!(shape.constants.len(), 3);
    let names: Vec<&str> = shape.constants.iter().map(|c| c.name.as_str()).collect();
    assert_eq!(names, vec!["Red", "Green", "Blue"]);
}

#[test]
fn enum_shape_empty_is_legal() {
    let def = enum_def(
        "Demo",
        "Empty",
        true,
        false,
        vec![field("value__", TypeRef::Primitive(8), false, None)],
    );
    let shape = emit_enum("Demo", &def).unwrap();
    assert!(shape.constants.is_empty());
}

#[test]
fn enum_shape_errors() {
    // No underlying type.
    let def = enum_def("Demo", "Bad", true, false, Vec::new());
    match emit_enum("Demo", &def) {
        Err(Error::Unsupported(d)) => assert_eq!(d, "enum underlying type: Bad"),
        other => panic!("expected an unsupported-construct error, got {other:?}"),
    }
    // A literal field without a constant value.
    let def = enum_def(
        "Demo",
        "Bad",
        true,
        false,
        vec![
            field("value__", TypeRef::Primitive(7), false, None),
            field("Red", TypeRef::Primitive(7), true, None),
        ],
    );
    match emit_enum("Demo", &def) {
        Err(Error::Unsupported(d)) => assert_eq!(d, "missing constant: Red"),
        other => panic!("expected an unsupported-construct error, got {other:?}"),
    }
}

#[test]
fn struct_shape_excludes_literals() {
    let def = TypeDef {
        namespace: "A".to_string(),
        name: "S".to_string(),
        extends: Some(TypeName {
            namespace: "System".to_string(),
            name: "ValueType".to_string(),
        }),
        fields: vec![
            field("x", TypeRef::Primitive(7), false, None),
            field("K", TypeRef::Primitive(7), true, Some(Value::I32(9))),
            field("y", TypeRef::Primitive(12), false, None),
        ],
        is_scoped: false,
        is_flags: false,
        is_winrt: false,
    };
    let shape = emit_struct("A", &def).unwrap();
    assert_eq!(shape.ident, "S");
    assert_eq!(shape.fields.len(), 2);
    assert_eq!(shape.fields[0].name, "x");
    assert_eq!(shape.fields[1].name, "y");
}

#[test]
fn value_text_forms() {
    let mut s = String::new();
    push_value(&mut s, &Value::I32(-5));
    assert_eq!(s, "-5i32");
    let mut s = String::new();
    push_value(&mut s, &Value::U64(18446744073709551615));
    assert_eq!(s, "18446744073709551615u64");
    let mut s = String::new();
    push_value(&mut s, &Value::I64(i64::MIN));
    assert_eq!(s, "-9223372036854775808i64");
    let mut s = String::new();
    push_value(&mut s, &Value::Bool(true));
    assert_eq!(s, "true");
    let mut s = String::new();
    push_value(&mut s, &Value::U8(0));
    assert_eq!(s, "0u8");
    let mut s = String::new();
    push_value(&mut s, &Value::Str("hi".to_string()));
    assert_eq!(s, "\"hi\"");
}

#[test]
fn error_messages() {
    assert_eq!(
        Error::InvalidConfiguration("package".to_string()).message(),
        "invalid configuration value: `package`"
    );
    assert_eq!(
        Error::MalformedNamespace("A..B".to_string()).message(),
        "malformed namespace: `A..B`"
    );
    assert_eq!(Error::Unsupported("type kind 99".to_string()).message(), "unsupported: type kind 99");
}

#[test]
fn reader_holds_snapshot() {
    let reader = Reader::new(vec![enum_def("A", "E", true, false, Vec::new())]);
    assert_eq!(reader.types.len(), 1);
    assert_eq!(reader.types[0].name, "E");
}
