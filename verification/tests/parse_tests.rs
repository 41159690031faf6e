use openapi_gen::filters::{filter_deref, filter_null, parse_ref_path};
use openapi_gen::json::Json;
use openapi_gen::open_api_spec::OpenApiMethod;
use openapi_gen::open_api_type::OpenApiType;
use openapi_gen::parse_spec::{parse_handler, parse_spec, RESOLVE_FUEL};
use openapi_gen::parse_type::parse_type;
use openapi_gen::read_wanted_spec::parse_spec_name;
use openapi_gen::utils::{get_file_name, OrderHashMap};

fn text(s: &str) -> Json {
    Json::Text(s.to_string())
}

fn obj(entries: Vec<(&str, Json)>) -> Json {
    Json::Obj(entries.into_iter().map(|(k, v)| (k.to_string(), v)).collect())
}

#[test]
fn test_parse_ref() {
    let result: Vec<String> =
        vec!["components".into(), "schemas".into(), "WithdrawalViewForAccount".into()];
    assert_eq!(
        parse_ref_path("#/components/schemas/WithdrawalViewForAccount").unwrap(),
        result
    );
}

#[test]
fn filter_deref_test_parse_ref() {
    let result: Vec<String> =
        vec!["components".into(), "schemas".into(), "WithdrawalViewForAccount".into()];
    assert_eq!(
        parse_ref_path("#/components/schemas/WithdrawalViewForAccount").unwrap(),
        result
    );
}

#[test]
fn parse_type_test_parse_ref() {
    let result: Vec<String> =
        vec!["components".into(), "schemas".into(), "WithdrawalViewForAccount".into()];
    assert_eq!(
        parse_ref_path("#/components/schemas/WithdrawalViewForAccount").unwrap(),
        result
    );
}

#[test]
fn test_parse_spec_name() {
    let file_name = get_file_name("rrr/dddd/ttrree.spec.json").unwrap();
    let name = parse_spec_name(file_name.as_str()).unwrap();
    assert_eq!(name, "ttrree");
}

#[test]
fn spec_name_rejects_other_files() {
    assert_eq!(parse_spec_name("notes.json"), None);
    assert_eq!(parse_spec_name("a.spec.yaml"), None);
    assert_eq!(parse_spec_name("many.dots.spec.json"), Some("many.dots".to_string()));
}

#[test]
fn object_schema_resolves_with_required_flags() {
    // schema {"type":"object","properties":{"id":{"type":"string"}},"required":["id"]}
    let schema = obj(vec![
        ("type", text("object")),
        ("properties", obj(vec![("id", obj(vec![("type", text("string"))]))])),
        ("required", Json::Arr(vec![text("id")])),
    ]);
    let root = obj(vec![]);
    let got = parse_type(&schema, &root, RESOLVE_FUEL).unwrap();
    let expected = OpenApiType::Object {
        required: true,
        props: OrderHashMap::from_entries(vec![(
            "id".to_string(),
            OpenApiType::String { required: true },
        )]),
    };
    assert_eq!(got, expected);
}

#[test]
fn absent_required_entry_means_optional() {
    let schema = obj(vec![
        ("type", text("object")),
        ("properties", obj(vec![
            ("id", obj(vec![("type", text("string"))])),
            ("note", obj(vec![("type", text("string"))])),
        ])),
        ("required", Json::Arr(vec![text("id")])),
    ]);
    let root = obj(vec![]);
    let got = parse_type(&schema, &root, RESOLVE_FUEL).unwrap();
    let expected = OpenApiType::Object {
        required: true,
        props: OrderHashMap::from_entries(vec![
            ("id".to_string(), OpenApiType::String { required: true }),
            ("note".to_string(), OpenApiType::String { required: false }),
        ]),
    };
    assert_eq!(got, expected);
}

#[test]
fn one_of_resolves_to_union() {
    // {"oneOf":[{"type":"string"},{"type":"number"}]}
    let schema = obj(vec![(
        "oneOf",
        Json::Arr(vec![
            obj(vec![("type", text("string"))]),
            obj(vec![("type", text("number"))]),
        ]),
    )]);
    let root = obj(vec![]);
    let got = parse_type(&schema, &root, RESOLVE_FUEL).unwrap();
    let expected = OpenApiType::Union {
        required: true,
        list: vec![
            OpenApiType::String { required: true },
            OpenApiType::Number { required: true },
        ],
    };
    assert_eq!(got, expected);
}

#[test]
fn single_member_one_of_collapses() {
    let schema = obj(vec![("oneOf", Json::Arr(vec![obj(vec![("type", text("boolean"))])]))]);
    let root = obj(vec![]);
    let got = parse_type(&schema, &root, RESOLVE_FUEL).unwrap();
    assert_eq!(got, OpenApiType::Boolean { required: true });
}

#[test]
fn empty_one_of_is_fatal() {
    let schema = obj(vec![("oneOf", Json::Arr(vec![]))]);
    let root = obj(vec![]);
    assert!(parse_type(&schema, &root, RESOLVE_FUEL).is_err());
}

#[test]
fn duplicate_required_names_are_fatal() {
    let schema = obj(vec![
        ("type", text("object")),
        ("properties", obj(vec![("id", obj(vec![("type", text("string"))]))])),
        ("required", Json::Arr(vec![text("id"), text("id")])),
    ]);
    let root = obj(vec![]);
    assert!(parse_type(&schema, &root, RESOLVE_FUEL).is_err());
}

#[test]
fn unmatched_node_is_fatal() {
    let schema = obj(vec![("mystery", text("x"))]);
    let root = obj(vec![]);
    assert!(parse_type(&schema, &root, RESOLVE_FUEL).is_err());
}

#[test]
fn empty_and_description_shapes_are_unknown() {
    let root = obj(vec![]);
    assert_eq!(parse_type(&obj(vec![]), &root, RESOLVE_FUEL).unwrap(), OpenApiType::Unknown);
    let desc = obj(vec![("description", text("free text"))]);
    assert_eq!(parse_type(&desc, &root, RESOLVE_FUEL).unwrap(), OpenApiType::Unknown);
}

#[test]
fn additional_properties_resolve_to_record() {
    let schema = obj(vec![
        ("type", text("object")),
        ("additionalProperties", obj(vec![("type", text("number"))])),
    ]);
    let root = obj(vec![]);
    let got = parse_type(&schema, &root, RESOLVE_FUEL).unwrap();
    assert_eq!(
        got,
        OpenApiType::Record {
            required: true,
            value: Box::new(OpenApiType::Number { required: true })
        }
    );
}

#[test]
fn reference_shape_resolves_through_root() {
    let root = obj(vec![(
        "components",
        obj(vec![("schemas", obj(vec![("Id", obj(vec![("type", text("string"))]))]))]),
    )]);
    let schema = obj(vec![("$ref", text("#/components/schemas/Id"))]);
    let got = parse_type(&schema, &root, RESOLVE_FUEL).unwrap();
    assert_eq!(got, OpenApiType::String { required: true });
}

#[test]
fn discriminator_fans_out_with_tags() {
    let root = obj(vec![(
        "defs",
        obj(vec![
            ("Cat", obj(vec![
                ("type", text("object")),
                ("properties", obj(vec![("meow", obj(vec![("type", text("string"))]))])),
            ])),
            ("Dog", obj(vec![
                ("type", text("object")),
                ("properties", obj(vec![("bark", obj(vec![("type", text("string"))]))])),
            ])),
        ]),
    )]);
    let schema = obj(vec![(
        "discriminator",
        obj(vec![
            ("propertyName", text("kind")),
            ("mapping", obj(vec![("cat", text("#/defs/Cat")), ("dog", text("#/defs/Dog"))])),
        ]),
    )]);
    let got = parse_type(&schema, &root, RESOLVE_FUEL).unwrap();
    let expected = OpenApiType::Union {
        required: true,
        list: vec![
            OpenApiType::Object {
                required: true,
                props: OrderHashMap::from_entries(vec![
                    (
                        "kind".to_string(),
                        OpenApiType::LiteralString { required: true, value: "cat".to_string() },
                    ),
                    ("meow".to_string(), OpenApiType::String { required: false }),
                ]),
            },
            OpenApiType::Object {
                required: true,
                props: OrderHashMap::from_entries(vec![
                    ("bark".to_string(), OpenApiType::String { required: false }),
                    (
                        "kind".to_string(),
                        OpenApiType::LiteralString { required: true, value: "dog".to_string() },
                    ),
                ]),
            },
        ],
    };
    assert_eq!(got, expected);
}

#[test]
fn dereferencing_is_idempotent_on_a_document() {
    let doc = obj(vec![
        ("a", obj(vec![("$ref", text("#/b"))])),
        ("b", obj(vec![("z", text("v")), ("k", Json::Num("1".to_string()))])),
    ]);
    let once = filter_deref(&doc).unwrap();
    let twice = filter_deref(&once).unwrap();
    assert_eq!(once, twice);
}

#[test]
fn missing_reference_target_is_fatal() {
    let doc = obj(vec![("a", obj(vec![("$ref", text("#/nowhere"))]))]);
    assert!(filter_deref(&doc).is_err());
}

#[test]
fn cyclic_document_is_refused() {
    let doc = obj(vec![("a", obj(vec![("$ref", text("#/a"))]))]);
    assert!(filter_deref(&doc).is_err());
}

#[test]
fn null_fields_are_stripped_and_keys_sorted() {
    let doc = obj(vec![
        ("b", Json::Null),
        ("c", Json::Bool(true)),
        ("a", obj(vec![("y", Json::Null), ("x", text("keep"))])),
    ]);
    let got = filter_null(&doc);
    let expected = obj(vec![
        ("a", obj(vec![("x", text("keep"))])),
        ("c", Json::Bool(true)),
    ]);
    assert_eq!(got, expected);
}

#[test]
fn duplicate_parameter_name_is_refused_and_model_unchanged() {
    let handler_node = obj(vec![(
        "parameters",
        Json::Arr(vec![
            obj(vec![
                ("name", text("id")),
                ("in", text("path")),
                ("required", Json::Bool(true)),
                ("schema", obj(vec![("type", text("string"))])),
            ]),
            obj(vec![
                ("name", text("id")),
                ("in", text("query")),
                ("schema", obj(vec![("type", text("string"))])),
            ]),
        ]),
    )]);
    let root = obj(vec![]);
    assert!(parse_handler(&handler_node, &root, RESOLVE_FUEL).is_err());

    let mut h = openapi_gen::open_api_spec::SpecHandlerType::new();
    h.add_param(
        "id".to_string(),
        "path".to_string(),
        OpenApiType::String { required: true },
        true,
    )
    .unwrap();
    let before_len = h.parameters.len();
    let res = h.add_param(
        "id".to_string(),
        "query".to_string(),
        OpenApiType::String { required: true },
        false,
    );
    assert!(res.is_err());
    assert_eq!(h.parameters.len(), before_len);
}

#[test]
fn duplicate_response_code_is_refused_and_model_unchanged() {
    let mut h = openapi_gen::open_api_spec::SpecHandlerType::new();
    h.add_response("200".to_string(), OpenApiType::Unknown).unwrap();
    let res = h.add_response("200".to_string(), OpenApiType::String { required: true });
    assert!(res.is_err());
    assert_eq!(h.responses.len(), 1);
}

#[test]
fn unknown_tokens_are_refused() {
    assert!(OpenApiMethod::from_string("fetch".to_string()).is_err());
    assert!(openapi_gen::open_api_spec::ParamIn::from_string("cookie".to_string()).is_err());
    assert_eq!(OpenApiMethod::from_string("GET".to_string()).unwrap(), OpenApiMethod::Get);
    assert_eq!(OpenApiMethod::from_string("Patch".to_string()).unwrap(), OpenApiMethod::Patch);
}

#[test]
fn whole_document_parses_from_json_text() {
    let doc = r#"{
        "paths": {
            "/v1/orders": {
                "get": {
                    "parameters": [
                        {"name": "limit", "in": "query", "schema": {"type": "integer"}}
                    ],
                    "responses": {
                        "200": {"content": {"application/json": {"schema": {"type": "boolean"}}}}
                    }
                }
            }
        }
    }"#;
    let spec = parse_spec(doc).unwrap();
    let paths = spec.paths.get_sorted();
    assert_eq!(paths.len(), 1);
    assert_eq!(paths[0].0, "/v1/orders");
    let handlers = paths[0].1.get_sorted();
    assert_eq!(handlers.len(), 1);
    assert_eq!(*handlers[0].0, OpenApiMethod::Get);
    let h = handlers[0].1;
    assert_eq!(h.parameters.len(), 1);
    assert_eq!(h.parameters[0].name, "limit");
    assert_eq!(h.parameters[0].api_type, OpenApiType::Number { required: false });
    assert_eq!(h.responses.len(), 1);
}

#[test]
fn whole_document_parses_from_yaml_text() {
    let doc = "paths:\n  /ping:\n    get:\n      responses:\n        \"204\":\n          schema:\n            type: string\n";
    let spec = parse_spec(doc).unwrap();
    let paths = spec.paths.get_sorted();
    assert_eq!(paths.len(), 1);
    assert_eq!(paths[0].0, "/ping");
}

#[test]
fn unreadable_document_is_a_format_error() {
    let res = parse_spec("]");
    match res {
        Err(openapi_gen::error_process::ErrorProcess::Format(_)) => {}
        _ => panic!("a format error was expected"),
    }
}

#[test]
fn document_without_paths_is_refused() {
    let res = parse_spec("{\"info\": {}}");
    match res {
        Err(openapi_gen::error_process::ErrorProcess::Message(_)) => {}
        _ => panic!("a validation error was expected"),
    }
}

#[test]
fn discriminator_mapping_is_rewritten_in_place() {
    let doc = obj(vec![
        ("defs", obj(vec![("Cat", obj(vec![("type", text("object"))]))])),
        ("node", obj(vec![(
            "discriminator",
            obj(vec![
                ("mapping", obj(vec![("cat", text("#/defs/Cat"))])),
                ("propertyName", text("kind")),
            ]),
        )])),
    ]);
    let once = filter_deref(&doc).unwrap();
    let twice = filter_deref(&once).unwrap();
    assert_eq!(once, twice);
    // the discriminator keeps its tag property and carries the resolved body
    let expected_node = obj(vec![(
        "discriminator",
        obj(vec![
            ("mapping", obj(vec![("cat", obj(vec![("type", text("object"))]))])),
            ("propertyName", text("kind")),
        ]),
    )]);
    match &once {
        Json::Obj(entries) => {
            assert_eq!(entries[1].0, "node");
            assert_eq!(entries[1].1, expected_node);
        }
        _ => panic!("an object was expected"),
    }
}

#[test]
fn document_generates_an_operation_module() {
    let doc = r#"{
        "paths": {
            "/v1/ping": {
                "get": {
                    "responses": {
                        "200": {"schema": {"type": "string"}}
                    }
                }
            }
        }
    }"#;
    let spec = parse_spec(doc).unwrap();
    let out = openapi_gen::run_gen::generate_operation(
        &spec,
        "openapi_demo_ping".to_string(),
        "/v1/ping".to_string(),
        OpenApiMethod::Get,
    )
    .unwrap();
    assert!(out.contains("export const openapi_demo_ping = async"));
    assert!(out.contains("const Response200IO = t.string;"));
    assert!(out.contains("const url = `${api_url}/v1/ping`;"));
}

#[test]
fn null_filter_is_idempotent() {
    let doc = obj(vec![
        ("b", Json::Null),
        ("a", obj(vec![("y", Json::Null), ("x", Json::Arr(vec![Json::Null, text("keep")]))])),
    ]);
    let once = filter_null(&doc);
    let twice = filter_null(&once);
    assert_eq!(once, twice);
}

#[test]
fn media_type_error_names_the_offenders() {
    let schema = obj(vec![(
        "content",
        obj(vec![
            ("application/json", obj(vec![("schema", obj(vec![("type", text("string"))]))])),
            ("text/plain", obj(vec![])),
        ]),
    )]);
    let root = obj(vec![]);
    match parse_type(&schema, &root, RESOLVE_FUEL) {
        Err(openapi_gen::error_process::ErrorProcess::Message(m)) => {
            assert!(m.contains("application/json"));
            assert!(m.contains("text/plain"));
        }
        _ => panic!("an error naming the media types was expected"),
    }
}

#[test]
fn unmatched_node_error_carries_the_node() {
    let schema = obj(vec![("mystery", text("x"))]);
    let root = obj(vec![]);
    match parse_type(&schema, &root, RESOLVE_FUEL) {
        Err(openapi_gen::error_process::ErrorProcess::Message(m)) => {
            assert!(m.contains("\"mystery\": \"x\""));
        }
        _ => panic!("an error carrying the node was expected"),
    }
}
