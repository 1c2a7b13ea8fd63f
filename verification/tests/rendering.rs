use rescript_openapi::diagnostics::{validate, Severity};
use rescript_openapi::document::{
    Document, OperationNode, PathItemNode, RefOr, SchemaKindNode, SchemaNode,
};
use rescript_openapi::ir::{HttpMethod, RsType, TypeDef};
use rescript_openapi::lower::lower;
use rescript_openapi::render::{render_schema, render_types};
use rescript_openapi::sanitize::sanitize_field_name;
use rescript_openapi::watch::{should_regenerate, WatchEventKind};

#[test]
fn test_to_rescript_scalars() {
    assert_eq!(RsType::Str.to_rescript(), "string");
    assert_eq!(RsType::Int.to_rescript(), "int");
    assert_eq!(RsType::Float.to_rescript(), "float");
    assert_eq!(RsType::Bool.to_rescript(), "bool");
    assert_eq!(RsType::Unit.to_rescript(), "unit");
    assert_eq!(RsType::Json.to_rescript(), "JSON.t");
}

#[test]
fn test_to_rescript_composites() {
    let t = RsType::Optional(Box::new(RsType::Array(Box::new(RsType::Str))));
    assert_eq!(t.to_rescript(), "option<array<string>>");
    let d = RsType::Dict(Box::new(RsType::Int));
    assert_eq!(d.to_rescript(), "Dict.t<int>");
    let tup = RsType::Tuple(vec![RsType::Str, RsType::Int, RsType::Bool]);
    assert_eq!(tup.to_rescript(), "(string, int, bool)");
    let e = RsType::StringEnum(vec!["a".to_string(), "b".to_string()]);
    assert_eq!(e.to_rescript(), "[#\"a\" | #\"b\"]");
    let n = RsType::Named("Pet".to_string());
    assert_eq!(n.to_rescript(), "pet");
}

#[test]
fn test_to_schema_composites() {
    assert_eq!(RsType::Str.to_schema(), "S.string");
    let t = RsType::Optional(Box::new(RsType::Array(Box::new(RsType::Str))));
    assert_eq!(t.to_schema(), "S.option(S.array(S.string))");
    let tup = RsType::Tuple(vec![RsType::Str, RsType::Int]);
    assert_eq!(tup.to_schema(), "S.tuple(s => (S.string, S.int))");
    let e = RsType::StringEnum(vec!["a".to_string()]);
    assert_eq!(e.to_schema(), "S.union([S.literal(#\"a\")])");
    let n = RsType::Named("Pet".to_string());
    assert_eq!(n.to_schema(), "petSchema");
}

#[test]
fn test_http_method_names() {
    assert_eq!(HttpMethod::Get.as_str(), "GET");
    assert_eq!(HttpMethod::Post.as_str(), "POST");
    assert_eq!(HttpMethod::Put.as_str(), "PUT");
    assert_eq!(HttpMethod::Patch.as_str(), "PATCH");
    assert_eq!(HttpMethod::Delete.as_str(), "DELETE");
    assert_eq!(HttpMethod::Head.as_str(), "HEAD");
    assert_eq!(HttpMethod::Options.as_str(), "OPTIONS");
    assert_eq!(HttpMethod::Get.lower_name(), "get");
    assert_eq!(HttpMethod::Options.lower_name(), "options");
}

#[test]
fn test_sanitize_field_name_keywords() {
    assert_eq!(sanitize_field_name("type"), "type_");
    assert_eq!(sanitize_field_name("let"), "let_");
    assert_eq!(sanitize_field_name("switch"), "switch_");
    assert_eq!(sanitize_field_name("name"), "name");
    assert_eq!(sanitize_field_name("user_name"), "userName");
}

fn doc_with(schemas: Vec<(String, RefOr<SchemaNode>)>) -> Document {
    Document {
        title: Some("T".to_string()),
        version: Some("1".to_string()),
        description: None,
        schemas,
        paths: vec![],
    }
}

#[test]
fn test_enumeration_scenario() {
    let doc = doc_with(vec![(
        "Status".to_string(),
        RefOr::Item(SchemaNode {
            description: None,
            kind: SchemaKindNode::StringKind {
                enumeration: vec![
                    Some("available".to_string()),
                    Some("pending".to_string()),
                    Some("sold".to_string()),
                ],
            },
        }),
    )]);
    let api = lower(&doc).unwrap();
    match &api.types[0] {
        TypeDef::Variant { name, cases, .. } => {
            assert_eq!(name, "Status");
            let names: Vec<&str> = cases.iter().map(|c| c.name.as_str()).collect();
            assert_eq!(names, vec!["Available", "Pending", "Sold"]);
            assert!(cases.iter().all(|c| c.payload.is_none()));
        }
        other => panic!("expected a variant, got {:?}", other),
    }
    let types = render_types(&api);
    assert!(types.contains("type status =\n  | Available\n  | Pending\n  | Sold\n"));
}

#[test]
fn test_collision_scenario() {
    // A field literally named for a reserved word sanitizes away from the
    // keyword, and the same transformed name appears in the record while the
    // wire key keeps the original spelling.
    let doc = doc_with(vec![(
        "Pet".to_string(),
        RefOr::Item(SchemaNode {
            description: None,
            kind: SchemaKindNode::ObjectKind {
                properties: vec![(
                    "type".to_string(),
                    RefOr::Item(Box::new(SchemaNode {
                        description: None,
                        kind: SchemaKindNode::StringKind { enumeration: vec![] },
                    })),
                )],
                required: vec!["type".to_string()],
            },
        }),
    )]);
    let api = lower(&doc).unwrap();
    match &api.types[0] {
        TypeDef::Record { fields, .. } => {
            assert_eq!(fields[0].name, "type_");
            assert_eq!(fields[0].original_name, "type");
        }
        other => panic!("expected a record, got {:?}", other),
    }
    let types = render_types(&api);
    assert!(types.contains("  type_: string,\n"));
    let schema = render_schema(&api);
    assert!(schema.contains("  type_: s.field(\"type\", S.string),\n"));
}

#[test]
fn test_validate_warns_on_missing_operation_id() {
    let mut doc = doc_with(vec![]);
    let op = OperationNode {
        operation_id: None,
        summary: None,
        description: None,
        parameters: vec![],
        request_body: None,
        responses: vec![],
    };
    doc.paths = vec![(
        "/pets".to_string(),
        RefOr::Item(PathItemNode { ops: vec![(HttpMethod::Get, op)] }),
    )];
    let diagnostics = validate(&doc);
    assert_eq!(diagnostics.len(), 1);
    assert!(matches!(diagnostics[0].severity, Severity::Warning));
    assert_eq!(
        diagnostics[0].message,
        "Missing operationId for get /pets - will generate from path"
    );
    assert_eq!(diagnostics[0].path.as_deref(), Some("paths./pets.get"));
    assert_eq!(
        diagnostics[0].render_line(),
        "warning: Missing operationId for get /pets - will generate from path (at paths./pets.get)"
    );
}

#[test]
fn test_validate_warns_on_compositions() {
    let doc = doc_with(vec![
        (
            "U".to_string(),
            RefOr::Item(SchemaNode {
                description: None,
                kind: SchemaKindNode::OneOfKind { variants: vec![] },
            }),
        ),
        (
            "V".to_string(),
            RefOr::Item(SchemaNode { description: None, kind: SchemaKindNode::AnyOfKind }),
        ),
    ]);
    let diagnostics = validate(&doc);
    assert_eq!(diagnostics.len(), 2);
    assert_eq!(diagnostics[0].message, "Schema 'U' uses oneOf - will generate as variant type");
    assert_eq!(diagnostics[1].message, "Schema 'V' uses anyOf - support is experimental");
}

#[test]
fn test_validate_is_quiet_on_clean_document() {
    let mut doc = doc_with(vec![(
        "Pet".to_string(),
        RefOr::Item(SchemaNode { description: None, kind: SchemaKindNode::IntegerKind }),
    )]);
    let op = OperationNode {
        operation_id: Some("listPets".to_string()),
        summary: None,
        description: None,
        parameters: vec![],
        request_body: None,
        responses: vec![],
    };
    doc.paths = vec![(
        "/pets".to_string(),
        RefOr::Item(PathItemNode { ops: vec![(HttpMethod::Get, op)] }),
    )];
    assert!(validate(&doc).is_empty());
}

#[test]
fn test_should_regenerate() {
    let files = vec!["other.yaml".to_string(), "api.yaml".to_string()];
    assert!(should_regenerate(&files, "api.yaml", WatchEventKind::Modified));
    assert!(should_regenerate(&files, "api.yaml", WatchEventKind::Created));
    assert!(!should_regenerate(&files, "api.yaml", WatchEventKind::OtherEvent));
    assert!(!should_regenerate(&files, "missing.yaml", WatchEventKind::Modified));
    let none: Vec<String> = vec![];
    assert!(!should_regenerate(&none, "api.yaml", WatchEventKind::Modified));
}

#[test]
fn test_documented_alias_rendering() {
    let doc = doc_with(vec![(
        "user_id".to_string(),
        RefOr::Item(SchemaNode {
            description: Some("An account identifier".to_string()),
            kind: SchemaKindNode::StringKind { enumeration: vec![] },
        }),
    )]);
    let api = lower(&doc).unwrap();
    let types = render_types(&api);
    assert!(types.contains("/** An account identifier */\ntype userId = string\n"));
    let schema = render_schema(&api);
    assert!(schema.contains("/** An account identifier */\nlet userIdSchema = S.string\n"));
}

#[test]
fn test_http_method_from_name() {
    assert_eq!(HttpMethod::from_name("get"), HttpMethod::Get);
    assert_eq!(HttpMethod::from_name("GET"), HttpMethod::Get);
    assert_eq!(HttpMethod::from_name("post"), HttpMethod::Post);
    assert_eq!(HttpMethod::from_name("DELETE"), HttpMethod::Delete);
    assert_eq!(HttpMethod::from_name("options"), HttpMethod::Options);
    // Unrecognized spellings fall back to Get.
    assert_eq!(HttpMethod::from_name("trace"), HttpMethod::Get);
}

#[test]
fn test_named_references_are_defined() {
    // A reference from one schema to another resolves to a name that the
    // same IR defines.
    let doc = doc_with(vec![
        (
            "Owner".to_string(),
            RefOr::Item(SchemaNode {
                description: None,
                kind: SchemaKindNode::ObjectKind {
                    properties: vec![(
                        "pet".to_string(),
                        RefOr::Ref("#/components/schemas/Pet".to_string()),
                    )],
                    required: vec!["pet".to_string()],
                },
            }),
        ),
        (
            "Pet".to_string(),
            RefOr::Item(SchemaNode { description: None, kind: SchemaKindNode::IntegerKind }),
        ),
    ]);
    let api = lower(&doc).unwrap();
    let names: Vec<&str> = api.types.iter().map(|t| t.name()).collect();
    let mut referenced: Vec<String> = vec![];
    for td in &api.types {
        if let TypeDef::Record { fields, .. } = td {
            for f in fields {
                if let RsType::Named(n) = &f.ty {
                    referenced.push(n.clone());
                }
            }
        }
    }
    assert_eq!(referenced, vec!["Pet".to_string()]);
    for r in &referenced {
        assert!(names.contains(&r.as_str()));
    }
}
