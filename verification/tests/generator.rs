use jtd_gen::schema::{MetaValue, Metadata, RootSchema, Schema, SchemaType, TypeSchema};
use jtd_gen::{Fragment, FragmentType, GenError, Generator, Names, Registry, TypeId, TypeInfo};
use serde_json::Value;

fn names(short: &str, long: &str) -> Names {
    Names {
        short: short.to_string(),
        long: long.to_string(),
        nullable: false,
        type_params: vec![],
        const_params: vec![],
    }
}

fn frag(ty: FragmentType) -> Fragment {
    Fragment { metadata: Metadata::from_map(vec![]), nullable: false, ty }
}

fn meta(entries: Vec<(&str, MetaValue)>) -> Metadata {
    Metadata::from_map(entries.into_iter().map(|(k, v)| (k.to_string(), v)).collect())
}

fn prim(t: TypeSchema) -> Fragment {
    frag(FragmentType::Type { primitive: t })
}

fn sub(id: u64) -> Fragment {
    frag(FragmentType::Sub { target: TypeId(id) })
}

fn sub_nullable(id: u64) -> Fragment {
    Fragment {
        metadata: Metadata::from_map(vec![]),
        nullable: true,
        ty: FragmentType::Sub { target: TypeId(id) },
    }
}

fn props(fields: Vec<(&str, Fragment)>, additional: bool) -> FragmentType {
    FragmentType::Properties {
        properties: fields.into_iter().map(|(k, f)| (k.to_string(), f)).collect(),
        optional_properties: vec![],
        additional_properties: additional,
    }
}

fn register(reg: &mut Registry, id: u64, short: &str, long: &str, referenceable: bool, fragment: Fragment) {
    reg.insert(
        TypeId(id),
        TypeInfo { referenceable, names: names(short, long), fragment },
    );
}

fn meta_value(v: &MetaValue) -> Value {
    match v {
        MetaValue::Null => Value::Null,
        MetaValue::Bool(b) => Value::Bool(*b),
        MetaValue::Int(i) => Value::from(*i),
        MetaValue::Str(s) => Value::String(s.clone()),
        MetaValue::Arr(vs) => Value::Array(vs.iter().map(meta_value).collect()),
        MetaValue::Obj(vs) => {
            let mut m = serde_json::Map::new();
            for (k, v) in vs {
                m.insert(k.clone(), meta_value(v));
            }
            Value::Object(m)
        }
    }
}

fn pair_map(entries: &[(String, Schema)]) -> Value {
    let mut m = serde_json::Map::new();
    for (k, s) in entries {
        m.insert(k.clone(), schema_value(s));
    }
    Value::Object(m)
}

/// The wire shape of one schema object: optional metadata, the flattened
/// form-specific fields, and an optional nullability flag.
fn schema_value(s: &Schema) -> Value {
    let mut map = serde_json::Map::new();
    if !s.metadata.is_empty() {
        let mut m = serde_json::Map::new();
        for (k, v) in &s.metadata.entries {
            m.insert(k.clone(), meta_value(v));
        }
        map.insert("metadata".to_string(), Value::Object(m));
    }
    match &s.ty {
        SchemaType::Empty => {}
        SchemaType::Type { primitive } => {
            map.insert("type".to_string(), Value::String(primitive.name().to_string()));
        }
        SchemaType::Enum { labels } => {
            map.insert(
                "enum".to_string(),
                Value::Array(labels.iter().map(|l| Value::String(l.clone())).collect()),
            );
        }
        SchemaType::Elements { elements } => {
            map.insert("elements".to_string(), schema_value(elements));
        }
        SchemaType::Properties { properties, optional_properties, additional_properties } => {
            if !properties.is_empty() {
                map.insert("properties".to_string(), pair_map(properties));
            }
            if !optional_properties.is_empty() {
                map.insert("optionalProperties".to_string(), pair_map(optional_properties));
            }
            if *additional_properties {
                map.insert("additionalProperties".to_string(), Value::Bool(true));
            }
        }
        SchemaType::Values { values } => {
            map.insert("values".to_string(), schema_value(values));
        }
        SchemaType::Discriminator { discriminator, mapping } => {
            map.insert("discriminator".to_string(), Value::String(discriminator.clone()));
            map.insert("mapping".to_string(), pair_map(mapping));
        }
        SchemaType::Ref { target } => {
            map.insert("ref".to_string(), Value::String(target.clone()));
        }
    }
    if s.nullable {
        map.insert("nullable".to_string(), Value::Bool(true));
    }
    Value::Object(map)
}

/// The wire shape of the root document: an optional definitions table plus
/// the flattened top-level schema fields.
fn to_value(doc: &RootSchema) -> Value {
    let mut map = serde_json::Map::new();
    if !doc.definitions.is_empty() {
        map.insert("definitions".to_string(), pair_map(&doc.definitions));
    }
    if let Value::Object(top) = schema_value(&doc.schema) {
        for (k, v) in top {
            map.insert(k, v);
        }
    }
    Value::Object(map)
}

fn expect(s: &str) -> Value {
    serde_json::from_str(s).unwrap()
}

// ---- struct-shaped types ----

#[test]
fn cstruct() {
    let mut reg = Registry::new();
    register(
        &mut reg,
        1,
        "Cstruct",
        "struct::Cstruct",
        true,
        Fragment {
            metadata: meta(vec![]),
            nullable: false,
            ty: props(
                vec![
                    ("bar", prim(TypeSchema::Uint32)),
                    (
                        "baz",
                        Fragment {
                            metadata: meta(vec![]),
                            nullable: true,
                            ty: FragmentType::Type { primitive: TypeSchema::String },
                        },
                    ),
                ],
                true,
            ),
        },
    );
    let doc = Generator::default().into_root_schema(&reg, TypeId(1)).unwrap();
    assert_eq!(
        to_value(&doc),
        expect(
            r#"{
                "properties": {
                    "bar": { "type": "uint32" },
                    "baz": { "type": "string", "nullable": true }
                },
                "additionalProperties": true
            }"#
        )
    );
}

#[test]
fn cstruct_with_generics() {
    let mut reg = Registry::new();
    register(
        &mut reg,
        1,
        "CstructWithGenerics",
        "struct::CstructWithGenerics",
        true,
        frag(props(
            vec![
                ("bar", prim(TypeSchema::String)),
                ("baz", frag(FragmentType::Elements { elements: Box::new(prim(TypeSchema::Uint32)) })),
            ],
            true,
        )),
    );
    let doc = Generator::default().into_root_schema(&reg, TypeId(1)).unwrap();
    assert_eq!(
        to_value(&doc),
        expect(
            r#"{
                "properties": {
                    "bar": { "type": "string" },
                    "baz": { "elements": { "type": "uint32" } }
                },
                "additionalProperties": true
            }"#
        )
    );
}

#[test]
fn newtype_like() {
    let mut reg = Registry::new();
    register(&mut reg, 1, "Newtype", "r#struct::Newtype", true, prim(TypeSchema::Uint32));
    let doc = Generator::default().into_root_schema(&reg, TypeId(1)).unwrap();
    assert_eq!(to_value(&doc), expect(r#"{ "type": "uint32" }"#));
}

#[test]
fn nested() {
    let mut reg = Registry::new();
    register(&mut reg, 1, "Newtype", "r#struct::Newtype", true, prim(TypeSchema::Uint32));
    register(
        &mut reg,
        2,
        "Nested",
        "r#struct::Nested",
        true,
        frag(props(vec![("inner", sub(1))], true)),
    );
    let doc = Generator::default().into_root_schema(&reg, TypeId(2)).unwrap();
    assert_eq!(
        to_value(&doc),
        expect(
            r#"{
                "definitions": {
                    "r#struct::Newtype": { "type": "uint32" }
                },
                "properties": {
                    "inner": { "ref": "r#struct::Newtype" }
                },
                "additionalProperties": true
            }"#
        )
    );
}

#[test]
fn foo() {
    let mut reg = Registry::new();
    register(
        &mut reg,
        1,
        "Foo",
        "tests::Foo",
        true,
        frag(props(
            vec![
                ("bar", prim(TypeSchema::Uint32)),
                (
                    "baz",
                    Fragment {
                        metadata: meta(vec![]),
                        nullable: true,
                        ty: FragmentType::Type { primitive: TypeSchema::String },
                    },
                ),
            ],
            true,
        )),
    );
    let doc = Generator::default().into_root_schema(&reg, TypeId(1)).unwrap();
    assert_eq!(
        to_value(&doc),
        expect(
            r#"{
                "properties": {
                    "bar": { "type": "uint32" },
                    "baz": { "type": "string", "nullable": true }
                },
                "additionalProperties": true
            }"#
        )
    );
}

#[test]
fn foo2() {
    let mut reg = Registry::new();
    register(
        &mut reg,
        1,
        "FooWithGenerics",
        "tests::FooWithGenerics",
        true,
        frag(props(
            vec![
                ("bar", prim(TypeSchema::String)),
                ("baz", frag(FragmentType::Elements { elements: Box::new(prim(TypeSchema::Uint32)) })),
            ],
            true,
        )),
    );
    let doc = Generator::default().into_root_schema(&reg, TypeId(1)).unwrap();
    assert_eq!(
        to_value(&doc),
        expect(
            r#"{
                "properties": {
                    "bar": { "type": "string" },
                    "baz": { "elements": { "type": "uint32" } }
                },
                "additionalProperties": true
            }"#
        )
    );
}

// ---- enum-shaped types ----

#[test]
fn enum_unit_variants() {
    let mut reg = Registry::new();
    register(
        &mut reg,
        1,
        "UnitVariants",
        "enum::UnitVariants",
        true,
        frag(FragmentType::Enum { labels: vec!["Bar".to_string(), "Baz".to_string()] }),
    );
    let doc = Generator::default().into_root_schema(&reg, TypeId(1)).unwrap();
    assert_eq!(to_value(&doc), expect(r#"{ "enum": ["Bar", "Baz"] }"#));
}

#[test]
fn enum_unit_variants_tagged() {
    let mut reg = Registry::new();
    register(
        &mut reg,
        1,
        "UnitVariantsTagged",
        "enum::UnitVariantsTagged",
        true,
        frag(props(
            vec![(
                "kind",
                frag(FragmentType::Enum { labels: vec!["Bar".to_string(), "Baz".to_string()] }),
            )],
            true,
        )),
    );
    let doc = Generator::default().into_root_schema(&reg, TypeId(1)).unwrap();
    assert_eq!(
        to_value(&doc),
        expect(
            r#"{
                "properties": {
                    "kind": { "enum": ["Bar", "Baz"] }
                },
                "additionalProperties": true
            }"#
        )
    );
}

fn struct_variants_fragment() -> Fragment {
    frag(FragmentType::Discriminator {
        discriminator: "type".to_string(),
        mapping: vec![
            (
                "Bar".to_string(),
                frag(props(vec![("x", prim(TypeSchema::Uint32))], true)),
            ),
            (
                "Baz".to_string(),
                frag(props(vec![("y", prim(TypeSchema::String))], true)),
            ),
        ],
    })
}

#[test]
fn enum_struct_variants() {
    let mut reg = Registry::new();
    register(&mut reg, 1, "StructVariants", "enum::StructVariants", true, struct_variants_fragment());
    let doc = Generator::default().into_root_schema(&reg, TypeId(1)).unwrap();
    assert_eq!(
        to_value(&doc),
        expect(
            r#"{
                "discriminator": "type",
                "mapping": {
                    "Bar": {
                        "properties": { "x": { "type": "uint32" } },
                        "additionalProperties": true
                    },
                    "Baz": {
                        "properties": { "y": { "type": "string" } },
                        "additionalProperties": true
                    }
                }
            }"#
        )
    );
}

#[test]
fn enum_respects_serde_tag_attr() {
    // a tag attribute in either spelling yields the same discriminator form
    let mut reg = Registry::new();
    register(&mut reg, 1, "StructVariants", "serde::StructVariants", true, struct_variants_fragment());
    let doc = Generator::default().into_root_schema(&reg, TypeId(1)).unwrap();
    assert_eq!(
        to_value(&doc),
        expect(
            r#"{
                "discriminator": "type",
                "mapping": {
                    "Bar": {
                        "properties": { "x": { "type": "uint32" } },
                        "additionalProperties": true
                    },
                    "Baz": {
                        "properties": { "y": { "type": "string" } },
                        "additionalProperties": true
                    }
                }
            }"#
        )
    );
}

fn deny_struct_fragment() -> Fragment {
    frag(props(vec![("x", prim(TypeSchema::Uint32))], false))
}

fn deny_enum_fragment() -> Fragment {
    frag(FragmentType::Discriminator {
        discriminator: "type".to_string(),
        mapping: vec![(
            "Bar".to_string(),
            frag(props(vec![("x", prim(TypeSchema::Uint32))], false)),
        )],
    })
}

#[test]
fn deny_unknown_fields() {
    let mut reg = Registry::new();
    register(&mut reg, 1, "DenyStruct", "serde::DenyStruct", true, deny_struct_fragment());
    register(&mut reg, 2, "DenyEnum", "serde::DenyEnum", true, deny_enum_fragment());
    register(&mut reg, 3, "DenyStruct2", "serde::DenyStruct2", true, deny_struct_fragment());
    register(&mut reg, 4, "DenyEnum2", "serde::DenyEnum2", true, deny_enum_fragment());

    let doc = Generator::default().into_root_schema(&reg, TypeId(1)).unwrap();
    assert_eq!(
        to_value(&doc),
        expect(r#"{ "properties": { "x": { "type": "uint32" } } }"#)
    );

    let doc = Generator::default().into_root_schema(&reg, TypeId(2)).unwrap();
    assert_eq!(
        to_value(&doc),
        expect(
            r#"{
                "discriminator": "type",
                "mapping": {
                    "Bar": { "properties": { "x": { "type": "uint32" } } }
                }
            }"#
        )
    );

    let first = Generator::default().into_root_schema(&reg, TypeId(1)).unwrap();
    let second = Generator::default().into_root_schema(&reg, TypeId(3)).unwrap();
    assert_eq!(to_value(&first), to_value(&second));

    let first = Generator::default().into_root_schema(&reg, TypeId(2)).unwrap();
    let second = Generator::default().into_root_schema(&reg, TypeId(4)).unwrap();
    assert_eq!(to_value(&first), to_value(&second));
}

#[test]
fn transparent() {
    let mut reg = Registry::new();
    register(&mut reg, 1, "Transparent", "serde::Transparent", true, prim(TypeSchema::Uint32));
    let doc = Generator::default().into_root_schema(&reg, TypeId(1)).unwrap();
    assert_eq!(to_value(&doc), expect(r#"{ "type": "uint32" }"#));
}

// ---- naming collisions ----

fn collision_registry() -> Registry {
    let mut reg = Registry::new();
    register(
        &mut reg,
        1,
        "Foo",
        "gen::Foo",
        true,
        frag(FragmentType::Enum { labels: vec!["Bar".to_string()] }),
    );
    register(
        &mut reg,
        2,
        "Foo",
        "gen::foo::Foo",
        true,
        frag(FragmentType::Enum { labels: vec!["Baz".to_string()] }),
    );
    register(
        &mut reg,
        3,
        "Wrapping",
        "gen::Wrapping",
        true,
        frag(props(vec![("foo1", sub(1)), ("foo2", sub(2))], true)),
    );
    reg
}

#[test]
fn name_collisions() {
    let reg = collision_registry();
    let GenError::NameCollision { type1, type2, id } = Generator::builder()
        .naming_short()
        .build()
        .into_root_schema(&reg, TypeId(3))
        .unwrap_err();

    assert_eq!(id, "Foo");
    assert!([type1.as_str(), type2.as_str()].contains(&"gen::Foo"));
    assert!([type1.as_str(), type2.as_str()].contains(&"gen::foo::Foo"));
}

#[test]
fn collision_message_names_both_types() {
    let reg = collision_registry();
    let err = Generator::builder()
        .naming_short()
        .build()
        .into_root_schema(&reg, TypeId(3))
        .unwrap_err();
    let GenError::NameCollision { type1, type2, id } = err.clone();
    assert_eq!(
        err.message(),
        format!(
            "definition/ref id \"{}\" is shared by types `{}` and `{}`",
            id, type1, type2
        )
    );
}

#[test]
fn long_names_resolve_collision() {
    // the same input succeeds under the long strategy: distinct qualified paths
    let reg = collision_registry();
    let doc = Generator::builder()
        .naming_long()
        .build()
        .into_root_schema(&reg, TypeId(3))
        .unwrap();
    assert_eq!(
        to_value(&doc),
        expect(
            r#"{
                "definitions": {
                    "gen::Foo": { "enum": ["Bar"] },
                    "gen::foo::Foo": { "enum": ["Baz"] }
                },
                "properties": {
                    "foo1": { "ref": "gen::Foo" },
                    "foo2": { "ref": "gen::foo::Foo" }
                },
                "additionalProperties": true
            }"#
        )
    );
}

// ---- inlining policies and recursion ----

fn inlining_registry(prefix: &str) -> Registry {
    let mut reg = Registry::new();
    register(
        &mut reg,
        1,
        "Foo",
        &format!("{}::Foo", prefix),
        true,
        frag(props(vec![("bar", sub(2)), ("recursive", sub(3))], true)),
    );
    register(
        &mut reg,
        2,
        "Bar",
        &format!("{}::Bar", prefix),
        true,
        frag(props(vec![("bar", prim(TypeSchema::Uint32))], true)),
    );
    register(
        &mut reg,
        3,
        "Recursive",
        &format!("{}::Recursive", prefix),
        true,
        frag(props(vec![("inner", sub_nullable(3))], true)),
    );
    reg
}

#[test]
fn prefer_inline() {
    let reg = inlining_registry("inlining");
    let doc = Generator::builder()
        .prefer_inline()
        .build()
        .into_root_schema(&reg, TypeId(1))
        .unwrap();
    assert_eq!(
        to_value(&doc),
        expect(
            r#"{
                "definitions": {
                    "inlining::Recursive": {
                        "properties": {
                            "inner": {
                                "ref": "inlining::Recursive",
                                "nullable": true
                            }
                        },
                        "additionalProperties": true
                    }
                },
                "properties": {
                    "bar": {
                        "properties": { "bar": { "type": "uint32" } },
                        "additionalProperties": true
                    },
                    "recursive": { "ref": "inlining::Recursive" }
                },
                "additionalProperties": true
            }"#
        )
    );
}

#[test]
fn prefer_ref() {
    let reg = inlining_registry("inlining");
    let doc = Generator::builder()
        .top_level_ref()
        .build()
        .into_root_schema(&reg, TypeId(1))
        .unwrap();
    assert_eq!(
        to_value(&doc),
        expect(
            r#"{
                "definitions": {
                    "inlining::Foo": {
                        "properties": {
                            "bar": { "ref": "inlining::Bar" },
                            "recursive": { "ref": "inlining::Recursive" }
                        },
                        "additionalProperties": true
                    },
                    "inlining::Bar": {
                        "properties": { "bar": { "type": "uint32" } },
                        "additionalProperties": true
                    },
                    "inlining::Recursive": {
                        "properties": {
                            "inner": {
                                "ref": "inlining::Recursive",
                                "nullable": true
                            }
                        },
                        "additionalProperties": true
                    }
                },
                "ref": "inlining::Foo"
            }"#
        )
    );
}

#[test]
fn recursive() {
    let mut reg = Registry::new();
    register(
        &mut reg,
        1,
        "Recursive",
        "recursive::Recursive",
        true,
        frag(props(vec![("inner", sub_nullable(1))], true)),
    );
    let doc = Generator::default().into_root_schema(&reg, TypeId(1)).unwrap();
    assert_eq!(
        to_value(&doc),
        expect(
            r#"{
                "definitions": {
                    "recursive::Recursive": {
                        "properties": {
                            "inner": {
                                "ref": "recursive::Recursive",
                                "nullable": true
                            }
                        },
                        "additionalProperties": true
                    }
                },
                "ref": "recursive::Recursive"
            }"#
        )
    );
}

// ---- metadata ----

fn stuff_metadata() -> Metadata {
    meta(vec![
        ("x", MetaValue::Str("stuff".to_string())),
        ("y", MetaValue::Obj(vec![("inner".to_string(), MetaValue::Int(5))])),
    ])
}

#[test]
fn top_level() {
    let mut reg = Registry::new();
    register(
        &mut reg,
        1,
        "Foo",
        "metadata::Foo",
        true,
        Fragment {
            metadata: stuff_metadata(),
            nullable: false,
            ty: props(vec![("bar", prim(TypeSchema::Uint32))], true),
        },
    );
    let doc = Generator::default().into_root_schema(&reg, TypeId(1)).unwrap();
    assert_eq!(
        to_value(&doc),
        expect(
            r#"{
                "properties": {
                    "bar": { "type": "uint32" }
                },
                "additionalProperties": true,
                "metadata": {
                    "x": "stuff",
                    "y": { "inner": 5 }
                }
            }"#
        )
    );
}

#[test]
fn struct_field() {
    let mut reg = Registry::new();
    register(
        &mut reg,
        1,
        "Foo",
        "metadata::Foo",
        true,
        frag(props(
            vec![(
                "bar",
                Fragment {
                    metadata: stuff_metadata(),
                    nullable: false,
                    ty: FragmentType::Type { primitive: TypeSchema::Uint32 },
                },
            )],
            true,
        )),
    );
    let doc = Generator::default().into_root_schema(&reg, TypeId(1)).unwrap();
    assert_eq!(
        to_value(&doc),
        expect(
            r#"{
                "properties": {
                    "bar": {
                        "type": "uint32",
                        "metadata": {
                            "x": "stuff",
                            "y": { "inner": 5 }
                        }
                    }
                },
                "additionalProperties": true
            }"#
        )
    );
}

#[test]
fn variant_field() {
    let mut reg = Registry::new();
    register(
        &mut reg,
        1,
        "Foo",
        "metadata::Foo",
        true,
        frag(FragmentType::Discriminator {
            discriminator: "type".to_string(),
            mapping: vec![(
                "Bar".to_string(),
                frag(props(
                    vec![(
                        "baz",
                        Fragment {
                            metadata: stuff_metadata(),
                            nullable: false,
                            ty: FragmentType::Type { primitive: TypeSchema::Uint32 },
                        },
                    )],
                    true,
                )),
            )],
        }),
    );
    let doc = Generator::default().into_root_schema(&reg, TypeId(1)).unwrap();
    assert_eq!(
        to_value(&doc),
        expect(
            r#"{
                "discriminator": "type",
                "mapping": {
                    "Bar": {
                        "properties": {
                            "baz": {
                                "type": "uint32",
                                "metadata": {
                                    "x": "stuff",
                                    "y": { "inner": 5 }
                                }
                            }
                        },
                        "additionalProperties": true
                    }
                }
            }"#
        )
    );
}

#[test]
fn overwriting() {
    // metadata attached at the occurrence overrides the type's own entries
    let mut reg = Registry::new();
    register(
        &mut reg,
        1,
        "Foo",
        "metadata::Foo",
        true,
        frag(props(
            vec![(
                "bar",
                Fragment {
                    metadata: meta(vec![
                        ("x", MetaValue::Str("outer".to_string())),
                        ("y", MetaValue::Obj(vec![("stuff".to_string(), MetaValue::Int(6))])),
                    ]),
                    nullable: false,
                    ty: FragmentType::Sub { target: TypeId(2) },
                },
            )],
            true,
        )),
    );
    register(
        &mut reg,
        2,
        "Bar",
        "metadata::Bar",
        true,
        Fragment {
            metadata: meta(vec![
                ("x", MetaValue::Str("inner".to_string())),
                ("z", MetaValue::Obj(vec![("morestuff".to_string(), MetaValue::Int(3))])),
            ]),
            nullable: false,
            ty: props(vec![("x", prim(TypeSchema::Uint32))], true),
        },
    );
    let doc = Generator::builder()
        .prefer_inline()
        .build()
        .into_root_schema(&reg, TypeId(1))
        .unwrap();
    assert_eq!(
        to_value(&doc),
        expect(
            r#"{
                "properties": {
                    "bar": {
                        "properties": {
                            "x": { "type": "uint32" }
                        },
                        "additionalProperties": true,
                        "metadata": {
                            "x": "outer",
                            "y": { "stuff": 6 },
                            "z": { "morestuff": 3 }
                        }
                    }
                },
                "additionalProperties": true
            }"#
        )
    );
}

// ---- the engine's laws, on concrete values ----

#[test]
fn memoized_schema_reused() {
    // a type referenced twice is built once; the second occurrence gets the
    // same schema back from the memo table
    let mut reg = Registry::new();
    register(
        &mut reg,
        1,
        "Pair",
        "laws::Pair",
        true,
        frag(props(vec![("a", sub(2)), ("b", sub(2))], true)),
    );
    register(
        &mut reg,
        2,
        "Bar",
        "laws::Bar",
        true,
        frag(props(vec![("bar", prim(TypeSchema::Uint32))], true)),
    );
    let doc = Generator::builder()
        .prefer_inline()
        .build()
        .into_root_schema(&reg, TypeId(1))
        .unwrap();
    let v = to_value(&doc);
    let a = v.get("properties").unwrap().get("a").unwrap();
    let b = v.get("properties").unwrap().get("b").unwrap();
    assert_eq!(a, b);
    assert!(v.get("definitions").is_none());
}

#[test]
fn rendering_deterministic() {
    // one fixed naming policy renders the same identities identically across runs
    let reg = inlining_registry("laws");
    let first = Generator::builder()
        .top_level_ref()
        .naming_short()
        .build()
        .into_root_schema(&reg, TypeId(1))
        .unwrap();
    let second = Generator::builder()
        .top_level_ref()
        .naming_short()
        .build()
        .into_root_schema(&reg, TypeId(1))
        .unwrap();
    assert_eq!(to_value(&first), to_value(&second));
}

#[test]
fn never_policy_top_level_is_ref() {
    let mut reg = Registry::new();
    register(&mut reg, 1, "Newtype", "laws::Newtype", true, prim(TypeSchema::Uint32));
    let doc = Generator::builder()
        .top_level_ref()
        .build()
        .into_root_schema(&reg, TypeId(1))
        .unwrap();
    assert_eq!(
        to_value(&doc),
        expect(
            r#"{
                "definitions": {
                    "laws::Newtype": { "type": "uint32" }
                },
                "ref": "laws::Newtype"
            }"#
        )
    );
}

#[test]
fn sub_schema_within_run() {
    // a nested fragment builder may call back into the generator directly
    let mut reg = Registry::new();
    register(&mut reg, 1, "Newtype", "laws::Newtype", true, prim(TypeSchema::Uint32));
    let mut gen = Generator::default();
    let first = gen.sub_schema(&reg, TypeId(1));
    let second = gen.sub_schema(&reg, TypeId(1));
    // the first request builds and inlines nothing at sub level: it refs;
    // the second is answered from the memo table with the identical ref
    assert_eq!(schema_value(&first), expect(r#"{ "ref": "laws::Newtype" }"#));
    assert_eq!(schema_value(&second), expect(r#"{ "ref": "laws::Newtype" }"#));
}

// ---- the wire shape of schema documents ----

fn empty_schema() -> Schema {
    Schema { metadata: Metadata::from_map(vec![]), ty: SchemaType::Empty, nullable: false }
}

fn type_schema(t: TypeSchema) -> Schema {
    Schema { ty: SchemaType::Type { primitive: t }, ..empty_schema() }
}

#[test]
fn empty() {
    let repr = RootSchema { schema: empty_schema(), definitions: vec![] };
    assert_eq!(to_value(&repr), expect("{}"));
}

#[test]
fn primitive() {
    let repr = RootSchema { schema: type_schema(TypeSchema::Int16), definitions: vec![] };
    assert_eq!(to_value(&repr), expect(r#"{ "type": "int16" }"#));
}

#[test]
fn nullable() {
    let repr = RootSchema {
        schema: Schema { nullable: true, ..type_schema(TypeSchema::Int16) },
        definitions: vec![],
    };
    assert_eq!(to_value(&repr), expect(r#"{ "type": "int16", "nullable": true }"#));
}

#[test]
fn metadata() {
    let repr = RootSchema {
        schema: Schema {
            metadata: meta(vec![
                ("desc", MetaValue::Str("a really nice type! 10/10".to_string())),
                (
                    "vec",
                    MetaValue::Arr(vec![MetaValue::Int(1), MetaValue::Int(2), MetaValue::Int(3)]),
                ),
            ]),
            ..type_schema(TypeSchema::Int16)
        },
        definitions: vec![],
    };
    assert_eq!(
        to_value(&repr),
        expect(
            r#"{
                "type": "int16",
                "metadata": { "desc": "a really nice type! 10/10", "vec": [1, 2, 3] }
            }"#
        )
    );
}

#[test]
fn enum_form() {
    let repr = RootSchema {
        schema: Schema {
            ty: SchemaType::Enum {
                labels: vec!["FOO".to_string(), "BAR".to_string(), "BAZ".to_string()],
            },
            ..empty_schema()
        },
        definitions: vec![],
    };
    assert_eq!(to_value(&repr), expect(r#"{ "enum": ["FOO", "BAR", "BAZ"] }"#));
}

#[test]
fn elements() {
    let repr = RootSchema {
        schema: Schema {
            ty: SchemaType::Elements {
                elements: Box::new(Schema {
                    ty: SchemaType::Enum {
                        labels: vec!["FOO".to_string(), "BAR".to_string(), "BAZ".to_string()],
                    },
                    nullable: true,
                    ..empty_schema()
                }),
            },
            ..empty_schema()
        },
        definitions: vec![],
    };
    assert_eq!(
        to_value(&repr),
        expect(r#"{ "elements": { "enum": ["FOO", "BAR", "BAZ"], "nullable": true } }"#)
    );
}

#[test]
fn properties() {
    let repr = RootSchema {
        schema: Schema {
            ty: SchemaType::Properties {
                properties: vec![
                    ("name".to_string(), type_schema(TypeSchema::String)),
                    ("isAdmin".to_string(), type_schema(TypeSchema::Boolean)),
                ],
                optional_properties: vec![],
                additional_properties: false,
            },
            ..empty_schema()
        },
        definitions: vec![],
    };
    assert_eq!(
        to_value(&repr),
        expect(
            r#"{
                "properties": {
                    "name": { "type": "string" },
                    "isAdmin": { "type": "boolean" }
                }
            }"#
        )
    );
}

#[test]
fn properties_extra_additional() {
    let repr = RootSchema {
        schema: Schema {
            ty: SchemaType::Properties {
                properties: vec![
                    ("name".to_string(), type_schema(TypeSchema::String)),
                    ("isAdmin".to_string(), type_schema(TypeSchema::Boolean)),
                ],
                optional_properties: vec![(
                    "middleName".to_string(),
                    type_schema(TypeSchema::String),
                )],
                additional_properties: true,
            },
            ..empty_schema()
        },
        definitions: vec![],
    };
    assert_eq!(
        to_value(&repr),
        expect(
            r#"{
                "properties": {
                    "name": { "type": "string" },
                    "isAdmin": { "type": "boolean" }
                },
                "optionalProperties": {
                    "middleName": { "type": "string" }
                },
                "additionalProperties": true
            }"#
        )
    );
}

#[test]
fn values() {
    let repr = RootSchema {
        schema: Schema {
            ty: SchemaType::Values { values: Box::new(type_schema(TypeSchema::Boolean)) },
            ..empty_schema()
        },
        definitions: vec![],
    };
    assert_eq!(to_value(&repr), expect(r#"{ "values": { "type": "boolean" } }"#));
}

#[test]
fn discriminator() {
    let repr = RootSchema {
        schema: Schema {
            ty: SchemaType::Discriminator {
                discriminator: "eventType".to_string(),
                mapping: vec![
                    (
                        "USER_CREATED".to_string(),
                        Schema {
                            ty: SchemaType::Properties {
                                properties: vec![("id".to_string(), type_schema(TypeSchema::String))],
                                optional_properties: vec![],
                                additional_properties: false,
                            },
                            ..empty_schema()
                        },
                    ),
                    (
                        "USER_PAYMENT_PLAN_CHANGED".to_string(),
                        Schema {
                            ty: SchemaType::Properties {
                                properties: vec![
                                    ("id".to_string(), type_schema(TypeSchema::String)),
                                    (
                                        "plan".to_string(),
                                        Schema {
                                            ty: SchemaType::Enum {
                                                labels: vec![
                                                    "FREE".to_string(),
                                                    "PAID".to_string(),
                                                ],
                                            },
                                            ..empty_schema()
                                        },
                                    ),
                                ],
                                optional_properties: vec![],
                                additional_properties: false,
                            },
                            ..empty_schema()
                        },
                    ),
                    (
                        "USER_DELETED".to_string(),
                        Schema {
                            ty: SchemaType::Properties {
                                properties: vec![
                                    ("id".to_string(), type_schema(TypeSchema::String)),
                                    ("softDelete".to_string(), type_schema(TypeSchema::Boolean)),
                                ],
                                optional_properties: vec![],
                                additional_properties: false,
                            },
                            ..empty_schema()
                        },
                    ),
                ],
            },
            ..empty_schema()
        },
        definitions: vec![],
    };
    assert_eq!(
        to_value(&repr),
        expect(
            r#"{
                "discriminator": "eventType",
                "mapping": {
                    "USER_CREATED": {
                        "properties": { "id": { "type": "string" } }
                    },
                    "USER_PAYMENT_PLAN_CHANGED": {
                        "properties": {
                            "id": { "type": "string" },
                            "plan": { "enum": ["FREE", "PAID"] }
                        }
                    },
                    "USER_DELETED": {
                        "properties": {
                            "id": { "type": "string" },
                            "softDelete": { "type": "boolean" }
                        }
                    }
                }
            }"#
        )
    );
}

#[test]
fn ref_form() {
    let coordinates = Schema {
        ty: SchemaType::Properties {
            properties: vec![
                ("lat".to_string(), type_schema(TypeSchema::Float32)),
                ("lng".to_string(), type_schema(TypeSchema::Float32)),
            ],
            optional_properties: vec![],
            additional_properties: false,
        },
        ..empty_schema()
    };
    let repr = RootSchema {
        schema: Schema {
            ty: SchemaType::Properties {
                properties: vec![
                    (
                        "userLoc".to_string(),
                        Schema {
                            ty: SchemaType::Ref { target: "coordinates".to_string() },
                            ..empty_schema()
                        },
                    ),
                    (
                        "serverLoc".to_string(),
                        Schema {
                            ty: SchemaType::Ref { target: "coordinates".to_string() },
                            ..empty_schema()
                        },
                    ),
                ],
                optional_properties: vec![],
                additional_properties: false,
            },
            ..empty_schema()
        },
        definitions: vec![("coordinates".to_string(), coordinates)],
    };
    assert_eq!(
        to_value(&repr),
        expect(
            r#"{
                "definitions": {
                    "coordinates": {
                        "properties": {
                            "lat": { "type": "float32" },
                            "lng": { "type": "float32" }
                        }
                    }
                },
                "properties": {
                    "userLoc": { "ref": "coordinates" },
                    "serverLoc": { "ref": "coordinates" }
                }
            }"#
        )
    );
}

#[test]
fn primitive_type_names() {
    assert_eq!(TypeSchema::Boolean.name(), "boolean");
    assert_eq!(TypeSchema::String.name(), "string");
    assert_eq!(TypeSchema::Timestamp.name(), "timestamp");
    assert_eq!(TypeSchema::Float32.name(), "float32");
    assert_eq!(TypeSchema::Float64.name(), "float64");
    assert_eq!(TypeSchema::Int8.name(), "int8");
    assert_eq!(TypeSchema::Uint8.name(), "uint8");
    assert_eq!(TypeSchema::Int16.name(), "int16");
    assert_eq!(TypeSchema::Uint16.name(), "uint16");
    assert_eq!(TypeSchema::Int32.name(), "int32");
    assert_eq!(TypeSchema::Uint32.name(), "uint32");
}

#[test]
fn generic_names_render_with_brackets() {
    // a generic type renders its parameters comma-joined in angle brackets
    let mut reg = Registry::new();
    reg.insert(
        TypeId(1),
        TypeInfo {
            referenceable: true,
            names: Names {
                short: "Foo".to_string(),
                long: "my_crate::Foo".to_string(),
                nullable: false,
                type_params: vec![names("uint32", "uint32")],
                const_params: vec!["5".to_string()],
            },
            fragment: frag(FragmentType::Elements {
                elements: Box::new(prim(TypeSchema::Uint32)),
            }),
        },
    );
    let doc = Generator::builder()
        .top_level_ref()
        .naming_short()
        .build()
        .into_root_schema(&reg, TypeId(1))
        .unwrap();
    assert_eq!(
        to_value(&doc),
        expect(
            r#"{
                "definitions": {
                    "Foo<uint32, 5>": { "elements": { "type": "uint32" } }
                },
                "ref": "Foo<uint32, 5>"
            }"#
        )
    );
}
