use rescript_openapi::codegen::{generate, Config};
use rescript_openapi::document::{
    Document, MediaNode, OperationNode, ParamKind, ParamNode, PathItemNode, RefOr, ResponseNode,
    SchemaKindNode, SchemaNode, StatusEntry,
};
use rescript_openapi::ir::{ApiSpec, HttpMethod, RsType, TypeDef};
use rescript_openapi::lower::lower;

fn string_schema() -> RefOr<Box<SchemaNode>> {
    RefOr::Item(Box::new(SchemaNode {
        description: None,
        kind: SchemaKindNode::StringKind { enumeration: vec![] },
    }))
}

fn petstore_document() -> Document {
    let pet = SchemaNode {
        description: None,
        kind: SchemaKindNode::ObjectKind {
            properties: vec![
                ("name".to_string(), string_schema()),
                ("tag".to_string(), string_schema()),
            ],
            required: vec!["name".to_string()],
        },
    };
    let op = OperationNode {
        operation_id: Some("getPetById".to_string()),
        summary: None,
        description: None,
        parameters: vec![RefOr::Item(ParamNode {
            name: "id".to_string(),
            kind: ParamKind::PathParam,
            required: true,
            description: None,
            schema: Some(string_schema()),
        })],
        request_body: None,
        responses: vec![(
            StatusEntry::Code(200),
            RefOr::Item(ResponseNode {
                description: "ok".to_string(),
                content: vec![(
                    "application/json".to_string(),
                    MediaNode {
                        schema: Some(RefOr::Ref("#/components/schemas/Pet".to_string())),
                    },
                )],
            }),
        )],
    };
    Document {
        title: Some("Swagger Petstore".to_string()),
        version: Some("1.0.0".to_string()),
        description: None,
        schemas: vec![("Pet".to_string(), RefOr::Item(pet))],
        paths: vec![(
            "/pets/{id}".to_string(),
            RefOr::Item(PathItemNode { ops: vec![(HttpMethod::Get, op)] }),
        )],
    }
}

fn petstore_api() -> ApiSpec {
    lower(&petstore_document()).unwrap()
}

fn petstore_artifacts() -> Vec<rescript_openapi::codegen::Artifact> {
    let api = petstore_api();
    let config = Config {
        module_prefix: "Api".to_string(),
        generate_schema: true,
        generate_client: true,
    };
    generate(&api, &config)
}

#[test]
fn test_petstore_lowering_round_trip() {
    let api = petstore_api();
    assert_eq!(api.title, "Swagger Petstore");
    assert_eq!(api.version, "1.0.0");
    assert_eq!(api.types.len(), 1);
    match &api.types[0] {
        TypeDef::Record { name, fields, .. } => {
            assert_eq!(name, "Pet");
            assert_eq!(fields.len(), 2);
            assert_eq!(fields[0].name, "name");
            assert!(!fields[0].optional);
            assert!(matches!(fields[0].ty, RsType::Str));
            assert_eq!(fields[1].name, "tag");
            assert!(fields[1].optional);
            assert!(matches!(fields[1].ty, RsType::Optional(_)));
        }
        other => panic!("expected a record, got {:?}", other),
    }
    assert_eq!(api.endpoints.len(), 1);
    let e = &api.endpoints[0];
    assert_eq!(e.operation_id, "getPetById");
    assert_eq!(e.path, "/pets/{id}");
    assert_eq!(e.parameters.len(), 1);
    assert_eq!(e.parameters[0].name, "id");
    assert!(e.parameters[0].required);
    assert_eq!(e.responses.len(), 1);
    assert_eq!(e.responses[0].status, 200);
    match &e.responses[0].ty {
        Some(RsType::Named(n)) => assert_eq!(n, "Pet"),
        other => panic!("expected a named response type, got {:?}", other),
    }
}

#[test]
fn test_petstore_types() {
    let artifacts = petstore_artifacts();
    assert_eq!(artifacts[0].filename, "ApiTypes.res");
    let expected = "/** Swagger Petstore 1.0.0 */\n\n\
        type pet = {\n  name: string,\n  tag: option<string>,\n}\n\n";
    assert_eq!(artifacts[0].content, expected);
}

#[test]
fn test_petstore_schema() {
    let artifacts = petstore_artifacts();
    assert_eq!(artifacts[1].filename, "ApiSchema.res");
    let expected = "/** Swagger Petstore 1.0.0 */\n\n\
        let petSchema = S.object(s => {\n  \
        name: s.field(\"name\", S.string),\n  \
        tag: s.field(\"tag\", S.option(S.string)),\n})\n\n";
    assert_eq!(artifacts[1].content, expected);
}

#[test]
fn test_petstore_client() {
    let artifacts = petstore_artifacts();
    assert_eq!(artifacts[2].filename, "ApiClient.res");
    let expected = "/** Swagger Petstore 1.0.0 */\n\n\
        let getPetById = (~baseUrl: string, ~id: string) => {\n  \
        Transport.request(\n    \
        ~method=\"GET\",\n    \
        ~baseUrl,\n    \
        ~path=\"/pets/{id}\",\n    \
        ~pathParams=[(\"id\", id), ],\n    \
        ~query=[],\n    \
        ~headers=[],\n    \
        ~cookies=[],\n    \
        ~body=None,\n    \
        ~contentType=None,\n  \
        )->Promise.thenResolve(response =>\n    \
        switch response.status {\n    \
        | 200 => Ok(S.parseJsonStringOrThrow(response.body, petSchema))\n    \
        | other => Error(other)\n    }\n  )\n}\n\n";
    assert_eq!(artifacts[2].content, expected);
}

#[test]
fn test_petstore_cross_artifact_naming() {
    let artifacts = petstore_artifacts();
    // The same sanitized identifier carries the type across all three
    // artifacts.
    assert!(artifacts[0].content.contains("type pet = {"));
    assert!(artifacts[1].content.contains("let petSchema = "));
    assert!(artifacts[2].content.contains("petSchema"));
}

#[test]
fn test_generation_is_deterministic() {
    let a = petstore_artifacts();
    let b = petstore_artifacts();
    assert_eq!(a.len(), b.len());
    for (x, y) in a.iter().zip(b.iter()) {
        assert_eq!(x.filename, y.filename);
        assert_eq!(x.content, y.content);
    }
}
