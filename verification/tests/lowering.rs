use rescript_openapi::document::{
    BodyNode, Document, MediaNode, OperationNode, PathItemNode, RefOr, ResponseNode,
    SchemaKindNode, SchemaNode, StatusEntry,
};
use rescript_openapi::ir::{HttpMethod, RsType, TypeDef};
use rescript_openapi::lower::{lower, resolve_kind, resolve_ref, strip_schema_ref, LowerError};

fn empty_document() -> Document {
    Document {
        title: Some("T".to_string()),
        version: Some("1".to_string()),
        description: None,
        schemas: vec![],
        paths: vec![],
    }
}

fn named_schema(kind: SchemaKindNode) -> RefOr<SchemaNode> {
    RefOr::Item(SchemaNode { description: None, kind })
}

#[test]
fn test_missing_title_fails() {
    let mut doc = empty_document();
    doc.title = None;
    assert!(matches!(lower(&doc), Err(LowerError::MissingTitle)));
}

#[test]
fn test_missing_version_fails() {
    let mut doc = empty_document();
    doc.version = None;
    assert!(matches!(lower(&doc), Err(LowerError::MissingVersion)));
}

#[test]
fn test_duplicate_rendered_name_fails() {
    let mut doc = empty_document();
    doc.schemas = vec![
        ("pet".to_string(), named_schema(SchemaKindNode::IntegerKind)),
        ("Pet".to_string(), named_schema(SchemaKindNode::BooleanKind)),
    ];
    match lower(&doc) {
        Err(LowerError::DuplicateTypeName(n)) => assert_eq!(n, "Pet"),
        other => panic!("expected a duplicate-name failure, got {:?}", other),
    }
}

#[test]
fn test_types_sorted_by_source_name() {
    let mut doc = empty_document();
    doc.schemas = vec![
        ("Zebra".to_string(), named_schema(SchemaKindNode::IntegerKind)),
        ("Apple".to_string(), named_schema(SchemaKindNode::BooleanKind)),
        ("Mango".to_string(), named_schema(SchemaKindNode::IntegerKind)),
    ];
    let api = lower(&doc).unwrap();
    let names: Vec<&str> = api.types.iter().map(|t| t.name()).collect();
    assert_eq!(names, vec!["Apple", "Mango", "Zebra"]);
}

#[test]
fn test_later_entry_replaces_same_source_name() {
    let mut doc = empty_document();
    doc.schemas = vec![
        ("Id".to_string(), named_schema(SchemaKindNode::IntegerKind)),
        ("Id".to_string(), named_schema(SchemaKindNode::BooleanKind)),
    ];
    let api = lower(&doc).unwrap();
    assert_eq!(api.types.len(), 1);
    match &api.types[0] {
        TypeDef::Alias { target, .. } => assert!(matches!(target, RsType::Bool)),
        other => panic!("expected an alias, got {:?}", other),
    }
}

#[test]
fn test_fallback_shapes_resolve_to_json() {
    assert!(matches!(resolve_kind(&SchemaKindNode::AnyKind), RsType::Json));
    assert!(matches!(resolve_kind(&SchemaKindNode::AnyOfKind), RsType::Json));
    assert!(matches!(resolve_kind(&SchemaKindNode::OtherKind), RsType::Json));
    assert!(matches!(
        resolve_kind(&SchemaKindNode::ObjectKind { properties: vec![], required: vec![] }),
        RsType::Json
    ));
    assert!(matches!(
        resolve_kind(&SchemaKindNode::OneOfKind { variants: vec![] }),
        RsType::Json
    ));
}

#[test]
fn test_scalars_resolve() {
    assert!(matches!(resolve_kind(&SchemaKindNode::IntegerKind), RsType::Int));
    assert!(matches!(resolve_kind(&SchemaKindNode::NumberKind), RsType::Float));
    assert!(matches!(resolve_kind(&SchemaKindNode::BooleanKind), RsType::Bool));
    assert!(matches!(
        resolve_kind(&SchemaKindNode::StringKind { enumeration: vec![] }),
        RsType::Str
    ));
}

#[test]
fn test_array_without_items_defaults_to_json() {
    match resolve_kind(&SchemaKindNode::ArrayKind { items: None }) {
        RsType::Array(inner) => assert!(matches!(*inner, RsType::Json)),
        other => panic!("expected an array, got {:?}", other),
    }
}

#[test]
fn test_reference_resolves_to_pascal_named() {
    let r: RefOr<Box<SchemaNode>> = RefOr::Ref("#/components/schemas/user_account".to_string());
    match resolve_ref(&r) {
        RsType::Named(n) => assert_eq!(n, "UserAccount"),
        other => panic!("expected a named type, got {:?}", other),
    }
}

#[test]
fn test_strip_schema_ref() {
    assert_eq!(strip_schema_ref("#/components/schemas/Pet"), "Pet");
    assert_eq!(strip_schema_ref("Pet"), "Pet");
    assert_eq!(strip_schema_ref("#/components/parameters/Pet"), "#/components/parameters/Pet");
}

#[test]
fn test_dropped_range_scenario() {
    let mut doc = empty_document();
    let op = OperationNode {
        operation_id: Some("listPets".to_string()),
        summary: None,
        description: None,
        parameters: vec![],
        request_body: None,
        responses: vec![(
            StatusEntry::Range(2),
            RefOr::Item(ResponseNode { description: "ok".to_string(), content: vec![] }),
        )],
    };
    doc.paths = vec![(
        "/pets".to_string(),
        RefOr::Item(PathItemNode { ops: vec![(HttpMethod::Get, op)] }),
    )];
    let api = lower(&doc).unwrap();
    assert_eq!(api.endpoints.len(), 1);
    assert_eq!(api.endpoints[0].responses.len(), 0);
}

#[test]
fn test_operation_id_synthesized_from_method_and_path() {
    let mut doc = empty_document();
    let op = OperationNode {
        operation_id: None,
        summary: None,
        description: None,
        parameters: vec![],
        request_body: None,
        responses: vec![],
    };
    doc.paths = vec![(
        "/pets/{id}".to_string(),
        RefOr::Item(PathItemNode { ops: vec![(HttpMethod::Get, op)] }),
    )];
    let api = lower(&doc).unwrap();
    assert_eq!(api.endpoints[0].operation_id, "getPetsId");
}

#[test]
fn test_non_json_body_is_dropped() {
    let mut doc = empty_document();
    let op = OperationNode {
        operation_id: Some("upload".to_string()),
        summary: None,
        description: None,
        parameters: vec![],
        request_body: Some(RefOr::Item(BodyNode {
            content: vec![("text/plain".to_string(), MediaNode { schema: None })],
            required: true,
        })),
        responses: vec![],
    };
    doc.paths = vec![(
        "/upload".to_string(),
        RefOr::Item(PathItemNode { ops: vec![(HttpMethod::Post, op)] }),
    )];
    let api = lower(&doc).unwrap();
    assert!(api.endpoints[0].request_body.is_none());
}

#[test]
fn test_json_body_is_kept() {
    let mut doc = empty_document();
    let op = OperationNode {
        operation_id: Some("createPet".to_string()),
        summary: None,
        description: None,
        parameters: vec![],
        request_body: Some(RefOr::Item(BodyNode {
            content: vec![(
                "application/json".to_string(),
                MediaNode { schema: Some(RefOr::Ref("#/components/schemas/Pet".to_string())) },
            )],
            required: true,
        })),
        responses: vec![],
    };
    doc.paths = vec![(
        "/pets".to_string(),
        RefOr::Item(PathItemNode { ops: vec![(HttpMethod::Post, op)] }),
    )];
    let api = lower(&doc).unwrap();
    let body = api.endpoints[0].request_body.as_ref().unwrap();
    assert_eq!(body.content_type, "application/json");
    assert!(body.required);
    match &body.ty {
        RsType::Named(n) => assert_eq!(n, "Pet"),
        other => panic!("expected a named type, got {:?}", other),
    }
}

#[test]
fn test_oneof_becomes_positional_variant() {
    let mut doc = empty_document();
    doc.schemas = vec![(
        "Value".to_string(),
        named_schema(SchemaKindNode::OneOfKind {
            variants: vec![
                RefOr::Item(Box::new(SchemaNode {
                    description: None,
                    kind: SchemaKindNode::IntegerKind,
                })),
                RefOr::Item(Box::new(SchemaNode {
                    description: None,
                    kind: SchemaKindNode::BooleanKind,
                })),
            ],
        }),
    )];
    let api = lower(&doc).unwrap();
    match &api.types[0] {
        TypeDef::Variant { name, cases, .. } => {
            assert_eq!(name, "Value");
            assert_eq!(cases.len(), 2);
            assert_eq!(cases[0].name, "Case1");
            assert!(matches!(cases[0].payload, Some(RsType::Int)));
            assert_eq!(cases[1].name, "Case2");
            assert!(matches!(cases[1].payload, Some(RsType::Bool)));
        }
        other => panic!("expected a variant, got {:?}", other),
    }
}

#[test]
fn test_null_enumeration_entries_are_dropped() {
    let mut doc = empty_document();
    doc.schemas = vec![(
        "Status".to_string(),
        named_schema(SchemaKindNode::StringKind {
            enumeration: vec![Some("on".to_string()), None, Some("off".to_string())],
        }),
    )];
    let api = lower(&doc).unwrap();
    match &api.types[0] {
        TypeDef::Variant { cases, .. } => {
            assert_eq!(cases.len(), 2);
            assert_eq!(cases[0].name, "On");
            assert_eq!(cases[1].name, "Off");
        }
        other => panic!("expected a variant, got {:?}", other),
    }
}

#[test]
fn test_duplicate_operation_id_fails() {
    let mut doc = empty_document();
    let op = |id: &str| OperationNode {
        operation_id: Some(id.to_string()),
        summary: None,
        description: None,
        parameters: vec![],
        request_body: None,
        responses: vec![],
    };
    doc.paths = vec![
        (
            "/a".to_string(),
            RefOr::Item(PathItemNode { ops: vec![(HttpMethod::Get, op("x"))] }),
        ),
        (
            "/b".to_string(),
            RefOr::Item(PathItemNode { ops: vec![(HttpMethod::Get, op("x"))] }),
        ),
    ];
    match lower(&doc) {
        Err(LowerError::DuplicateOperationId(n)) => assert_eq!(n, "x"),
        other => panic!("expected a duplicate-identifier failure, got {:?}", other),
    }
}

#[test]
fn test_synthesized_operation_id_collision_fails() {
    // Two distinct path-and-verb pairs whose synthesized identifiers render
    // to the same camel-cased name.
    let mut doc = empty_document();
    let op = || OperationNode {
        operation_id: None,
        summary: None,
        description: None,
        parameters: vec![],
        request_body: None,
        responses: vec![],
    };
    doc.paths = vec![
        (
            "/pets".to_string(),
            RefOr::Item(PathItemNode { ops: vec![(HttpMethod::Get, op())] }),
        ),
        (
            "/Pets".to_string(),
            RefOr::Item(PathItemNode { ops: vec![(HttpMethod::Get, op())] }),
        ),
    ];
    match lower(&doc) {
        Err(LowerError::DuplicateOperationId(n)) => assert_eq!(n, "getPets"),
        other => panic!("expected a duplicate-identifier failure, got {:?}", other),
    }
}

#[test]
fn test_duplicate_field_name_fails() {
    // Two distinct property names that sanitize to one field identifier.
    let mut doc = empty_document();
    doc.schemas = vec![(
        "Pet".to_string(),
        named_schema(SchemaKindNode::ObjectKind {
            properties: vec![
                (
                    "a b".to_string(),
                    RefOr::Item(Box::new(SchemaNode {
                        description: None,
                        kind: SchemaKindNode::IntegerKind,
                    })),
                ),
                (
                    "a_b".to_string(),
                    RefOr::Item(Box::new(SchemaNode {
                        description: None,
                        kind: SchemaKindNode::BooleanKind,
                    })),
                ),
            ],
            required: vec![],
        }),
    )];
    match lower(&doc) {
        Err(LowerError::DuplicateFieldName(n)) => assert_eq!(n, "aB"),
        other => panic!("expected a duplicate-field failure, got {:?}", other),
    }
}

#[test]
fn test_distinct_identifiers_lower_ok() {
    let mut doc = empty_document();
    let op = |id: &str| OperationNode {
        operation_id: Some(id.to_string()),
        summary: None,
        description: None,
        parameters: vec![],
        request_body: None,
        responses: vec![],
    };
    doc.paths = vec![(
        "/pets".to_string(),
        RefOr::Item(PathItemNode {
            ops: vec![(HttpMethod::Get, op("listPets")), (HttpMethod::Post, op("createPet"))],
        }),
    )];
    let api = lower(&doc).unwrap();
    assert_eq!(api.endpoints.len(), 2);
    assert_eq!(api.endpoints[0].operation_id, "listPets");
    assert_eq!(api.endpoints[1].operation_id, "createPet");
}
