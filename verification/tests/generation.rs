use schemagen::model::Field;
use schemagen::model::Layout;
use schemagen::model::LayoutKind;
use schemagen::model::SchemaContainer;
use schemagen::model::SchemaError;
use schemagen::model::TypeDecl;
use schemagen::model::TypeDescriptor;
use schemagen::render::dec_u32;
use schemagen::render::generate_output;
use schemagen::render::preamble;
use schemagen::render::render_class;
use schemagen::render::render_schema_entry;
use schemagen::render::render_type;
use schemagen::resolve::build_layouts;

fn prim(name: &str) -> TypeDescriptor {
    TypeDescriptor::Primitive(name.to_string())
}

fn field(name: &str, ty: TypeDescriptor) -> Field {
    Field { name: name.to_string(), ty }
}

fn decl(name: &str, kind: LayoutKind, fields: Vec<Field>) -> TypeDecl {
    TypeDecl { name: name.to_string(), kind, fields }
}

fn point_container() -> SchemaContainer {
    SchemaContainer {
        decls: vec![decl(
            "Point",
            LayoutKind::Record,
            vec![field("x", prim("u32")), field("y", prim("u32"))],
        )],
    }
}

fn roots(names: &[&str]) -> Vec<String> {
    names.iter().map(|n| n.to_string()).collect()
}

#[test]
fn point_round_trip_scenario() {
    let container = point_container();
    let layouts = build_layouts(&container, &roots(&["Point"])).unwrap();
    assert_eq!(layouts.len(), 1);
    assert_eq!(layouts[0].name, "Point");

    let class = render_class(&layouts[0]);
    assert_eq!(
        class,
        "export class Point extends Struct {\n\tx: any;\n\ty: any;\n\tconstructor(properties: any) {\n\t\tsuper(properties);\n\t}\n}\n\n"
    );

    let entry = render_schema_entry(&layouts[0]);
    assert_eq!(
        entry,
        "\n\t[\n\t\tPoint,\n\t\t{\n\t\t\tkind: 'struct', fields: [\n\t\t\t\t['x', 'u32'],\n\t\t\t\t['y', 'u32'],\n\t\t\t],\n\t\t},\n\t],"
    );

    let output = generate_output(&layouts);
    assert!(output.starts_with(preamble()));
    assert!(output.contains(&class));
    assert!(output.contains(&entry));
    assert!(output.contains("export const SCHEMA = new Map<any, any>(["));
}

#[test]
fn field_order_is_preserved() {
    let container = SchemaContainer {
        decls: vec![decl(
            "Triple",
            LayoutKind::Record,
            vec![
                field("a", prim("u8")),
                field("b", prim("u16")),
                field("c", prim("u32")),
            ],
        )],
    };
    let layouts = build_layouts(&container, &roots(&["Triple"])).unwrap();
    let entry = render_schema_entry(&layouts[0]);
    let a = entry.find("['a', 'u8']").unwrap();
    let b = entry.find("['b', 'u16']").unwrap();
    let c = entry.find("['c', 'u32']").unwrap();
    assert!(a < b && b < c);

    let class = render_class(&layouts[0]);
    let ca = class.find("\ta: any;").unwrap();
    let cb = class.find("\tb: any;").unwrap();
    let cc = class.find("\tc: any;").unwrap();
    assert!(ca < cb && cb < cc);
}

#[test]
fn reference_pulls_in_the_referenced_type() {
    let container = SchemaContainer {
        decls: vec![
            decl(
                "A",
                LayoutKind::Record,
                vec![field("b", TypeDescriptor::TypeRef("B".to_string()))],
            ),
            decl("B", LayoutKind::Record, vec![field("v", prim("u64"))]),
        ],
    };
    let layouts = build_layouts(&container, &roots(&["A"])).unwrap();
    assert_eq!(layouts.len(), 2);
    assert_eq!(layouts[0].name, "A");
    assert_eq!(layouts[1].name, "B");
}

#[test]
fn missing_reference_is_rejected() {
    let container = SchemaContainer {
        decls: vec![decl(
            "A",
            LayoutKind::Record,
            vec![field("b", TypeDescriptor::TypeRef("B".to_string()))],
        )],
    };
    let err = build_layouts(&container, &roots(&["A"])).unwrap_err();
    assert!(matches!(err, SchemaError::UnresolvedReference(n) if n == "B"));
}

#[test]
fn missing_root_is_rejected() {
    let container = point_container();
    let err = build_layouts(&container, &roots(&["Missing"])).unwrap_err();
    assert!(matches!(err, SchemaError::UnresolvedReference(n) if n == "Missing"));
}

#[test]
fn zero_variant_union_is_rejected() {
    let container = SchemaContainer {
        decls: vec![decl("Empty", LayoutKind::TaggedUnion, vec![])],
    };
    let err = build_layouts(&container, &roots(&["Empty"])).unwrap_err();
    assert!(matches!(err, SchemaError::MalformedUnion(n) if n == "Empty"));
}

#[test]
fn unrecognized_scalar_is_rejected() {
    let container = SchemaContainer {
        decls: vec![decl(
            "Odd",
            LayoutKind::Record,
            vec![field("v", prim("f32"))],
        )],
    };
    let err = build_layouts(&container, &roots(&["Odd"])).unwrap_err();
    assert!(matches!(err, SchemaError::UnsupportedPrimitive(n) if n == "f32"));
}

#[test]
fn tagged_union_emission() {
    let container = SchemaContainer {
        decls: vec![decl(
            "Shape",
            LayoutKind::TaggedUnion,
            vec![
                field("Foo", TypeDescriptor::TypeRef("Point".to_string())),
                field("Bar", prim("u32")),
            ],
        ), decl(
            "Point",
            LayoutKind::Record,
            vec![field("x", prim("u32")), field("y", prim("u32"))],
        )],
    };
    let layouts = build_layouts(&container, &roots(&["Shape"])).unwrap();
    let class = render_class(&layouts[0]);
    assert!(class.starts_with("export class Shape extends Enum {\n"));
    let entry = render_schema_entry(&layouts[0]);
    assert!(entry.contains("kind: 'enum', field: 'enum', values: ["));
    assert!(entry.contains("['Foo', Point],"));
    assert!(entry.contains("['Bar', 'u32'],"));

    // The emitted union base enforces that a properties bag carries exactly
    // one key: the check and its failure message stand in the preamble.
    let base = preamble();
    assert!(base.contains("if (Object.keys(properties).length !== 1) {"));
    assert!(base.contains("throw new Error('Enum can only take single value');"));
    assert!(base.contains("this.enum = key;"));
}

#[test]
fn generation_is_deterministic() {
    let container = point_container();
    let first = generate_output(&build_layouts(&container, &roots(&["Point"])).unwrap());
    let second = generate_output(&build_layouts(&container, &roots(&["Point"])).unwrap());
    assert_eq!(first, second);
}

#[test]
fn repeated_roots_resolve_once() {
    let container = point_container();
    let layouts = build_layouts(&container, &roots(&["Point", "Point"])).unwrap();
    assert_eq!(layouts.len(), 1);
    let output = generate_output(&layouts);
    assert_eq!(output.matches("export class Point").count(), 1);
}

#[test]
fn fixed_array_is_distinct_from_sequence() {
    let fixed = render_type(&TypeDescriptor::FixedArray(Box::new(prim("u8")), 32));
    let dynamic = render_type(&TypeDescriptor::Sequence(Box::new(prim("u8"))));
    assert_eq!(fixed, "['u8', 32]");
    assert_eq!(dynamic, "['u8']");
    assert_ne!(fixed, dynamic);
    assert!(fixed.contains("32"));
}

#[test]
fn identifier_primitive_uses_patched_dispatch() {
    let rendered = render_type(&prim("Pubkey"));
    assert_eq!(rendered, "'publicKeyHack'");
}

#[test]
fn string_and_bool_dispatch_names() {
    assert_eq!(render_type(&prim("String")), "'string'");
    assert_eq!(render_type(&prim("bool")), "'u8'");
    assert_eq!(render_type(&prim("u128")), "'u128'");
}

#[test]
fn option_and_map_rendering() {
    let opt = render_type(&TypeDescriptor::Optional(Box::new(prim("u64"))));
    assert_eq!(opt, "{ kind: 'option', type: 'u64' }");
    let map = render_type(&TypeDescriptor::Mapping(
        Box::new(prim("String")),
        Box::new(prim("u64")),
    ));
    assert_eq!(map, "{ kind: 'map', key: 'string', value: 'u64' }");
}

#[test]
fn nested_composites_render_recursively() {
    let ty = TypeDescriptor::Sequence(Box::new(TypeDescriptor::Optional(Box::new(
        TypeDescriptor::FixedArray(Box::new(prim("u8")), 4),
    ))));
    assert_eq!(
        render_type(&ty),
        "[{ kind: 'option', type: ['u8', 4] }]"
    );
}

#[test]
fn decimal_rendering() {
    assert_eq!(dec_u32(0), "0");
    assert_eq!(dec_u32(7), "7");
    assert_eq!(dec_u32(32), "32");
    assert_eq!(dec_u32(12345), "12345");
    assert_eq!(dec_u32(u32::MAX), "4294967295");
}

#[test]
fn mutual_references_resolve_without_cycling() {
    let container = SchemaContainer {
        decls: vec![
            decl(
                "Ping",
                LayoutKind::Record,
                vec![field(
                    "other",
                    TypeDescriptor::Optional(Box::new(TypeDescriptor::TypeRef(
                        "Pong".to_string(),
                    ))),
                )],
            ),
            decl(
                "Pong",
                LayoutKind::Record,
                vec![field(
                    "other",
                    TypeDescriptor::Optional(Box::new(TypeDescriptor::TypeRef(
                        "Ping".to_string(),
                    ))),
                )],
            ),
        ],
    };
    let layouts = build_layouts(&container, &roots(&["Ping"])).unwrap();
    assert_eq!(layouts.len(), 2);
    assert_eq!(layouts[0].name, "Ping");
    assert_eq!(layouts[1].name, "Pong");
}

#[test]
fn layouts_keep_encounter_order() {
    let container = SchemaContainer {
        decls: vec![
            decl("A", LayoutKind::Record, vec![field("v", prim("u8"))]),
            decl("B", LayoutKind::Record, vec![field("v", prim("u8"))]),
        ],
    };
    let layouts = build_layouts(&container, &roots(&["B", "A"])).unwrap();
    assert_eq!(layouts[0].name, "B");
    assert_eq!(layouts[1].name, "A");
    let output = generate_output(&layouts);
    assert!(output.find("export class B").unwrap() < output.find("export class A").unwrap());
}

#[test]
fn first_declaration_of_a_name_wins() {
    let container = SchemaContainer {
        decls: vec![
            decl("A", LayoutKind::Record, vec![field("first", prim("u8"))]),
            decl("A", LayoutKind::Record, vec![field("second", prim("u8"))]),
        ],
    };
    let layouts = build_layouts(&container, &roots(&["A"])).unwrap();
    assert_eq!(layouts.len(), 1);
    assert_eq!(layouts[0].fields.len(), 1);
    assert_eq!(layouts[0].fields[0].name, "first");
}

#[test]
fn validation_error_reports_first_offending_field() {
    let container = SchemaContainer {
        decls: vec![decl(
            "Mixed",
            LayoutKind::Record,
            vec![
                field("ok", prim("u8")),
                field("bad", prim("f64")),
                field("worse", prim("f32")),
            ],
        )],
    };
    let err = build_layouts(&container, &roots(&["Mixed"])).unwrap_err();
    assert!(matches!(err, SchemaError::UnsupportedPrimitive(n) if n == "f64"));
}

#[test]
fn record_without_fields_is_accepted() {
    let container = SchemaContainer {
        decls: vec![decl("Unit", LayoutKind::Record, vec![])],
    };
    let layouts = build_layouts(&container, &roots(&["Unit"])).unwrap();
    assert_eq!(layouts.len(), 1);
    let entry = render_schema_entry(&layouts[0]);
    assert_eq!(
        entry,
        "\n\t[\n\t\tUnit,\n\t\t{\n\t\t\tkind: 'struct', fields: [\n\t\t\t],\n\t\t},\n\t],"
    );
}

#[test]
fn empty_layout_collection_emits_preamble_and_empty_table() {
    let output = generate_output(&Vec::new());
    let mut expected = String::from(preamble());
    expected.push_str("export const SCHEMA = new Map<any, any>([\n]);");
    assert_eq!(output, expected);
}
