use openapi_gen::generate_js::generate_params_type::{generate_object_prop_name,
    generate_params_type, generate_type_ts};
use openapi_gen::generate_js::generate_response_io::{generate_response_io, generate_type_io};
use openapi_gen::generate_js::{generate_generic_response, generate_headers_param,
    generate_headers_type, generate_js, generate_url, generate_url_item, get_body, get_method,
    add_import_query_string};
use openapi_gen::open_api_spec::{OpenApiMethod, SpecHandlerType};
use openapi_gen::open_api_type::OpenApiType;
use openapi_gen::run_gen::generate_operation;
use openapi_gen::utils::OrderHashMap;

fn sample_object() -> OpenApiType {
    OpenApiType::Object {
        required: true,
        props: OrderHashMap::from_entries(vec![
            ("age".to_string(), OpenApiType::Number { required: false }),
            ("name".to_string(), OpenApiType::String { required: true }),
        ]),
    }
}

#[test]
fn static_type_text_for_primitives() {
    assert_eq!(generate_type_ts(0, &OpenApiType::String { required: true }), "string");
    assert_eq!(
        generate_type_ts(0, &OpenApiType::String { required: false }),
        "null | undefined | string"
    );
    assert_eq!(generate_type_ts(0, &OpenApiType::Unknown), "unknown");
    assert_eq!(
        generate_type_ts(0, &OpenApiType::LiteralString { required: true, value: "x".into() }),
        "'x'"
    );
}

#[test]
fn static_type_text_for_object() {
    let got = generate_type_ts(0, &sample_object());
    assert_eq!(got, "{\n    age?: null | undefined | number,\n    name: string,\n}");
}

#[test]
fn validator_text_for_object() {
    let got = generate_type_io(0, &sample_object());
    assert_eq!(
        got,
        "t.interface({\n    age: t.union([t.null, t.undefined, t.number]),\n    name: t.string,\n})"
    );
}

#[test]
fn emitters_walk_the_same_fields() {
    let t = sample_object();
    let ts = generate_type_ts(0, &t);
    let io = generate_type_io(0, &t);
    assert!(ts.contains("age"));
    assert!(io.contains("age"));
    assert!(ts.contains("name"));
    assert!(io.contains("name"));
}

#[test]
fn array_union_and_record_texts() {
    let arr = OpenApiType::Array {
        required: true,
        items: Box::new(OpenApiType::Boolean { required: true }),
    };
    assert_eq!(generate_type_ts(0, &arr), "Array<boolean>");
    assert_eq!(generate_type_io(0, &arr), "t.array(t.boolean)");
    let uni = OpenApiType::Union {
        required: true,
        list: vec![
            OpenApiType::String { required: true },
            OpenApiType::Number { required: true },
        ],
    };
    assert_eq!(generate_type_ts(0, &uni), "string | number");
    assert_eq!(generate_type_io(0, &uni), "t.union([t.string, t.number])");
    let rec = OpenApiType::Record {
        required: true,
        value: Box::new(OpenApiType::String { required: true }),
    };
    assert_eq!(generate_type_ts(0, &rec), "Record<string, string>");
    assert_eq!(generate_type_io(0, &rec), "t.record(t.string, string)".replace("string)", "t.string)"));
}

#[test]
fn object_prop_names_are_quoted_when_needed() {
    assert_eq!(generate_object_prop_name(&"plain".to_string()), "plain");
    assert_eq!(generate_object_prop_name(&"x-id".to_string()), "x-id");
    assert_eq!(generate_object_prop_name(&"1st".to_string()), "'1st'");
}

fn sample_handler() -> SpecHandlerType {
    let mut h = SpecHandlerType::new();
    h.add_param(
        "accountId".to_string(),
        "path".to_string(),
        OpenApiType::String { required: true },
        true,
    )
    .unwrap();
    h.add_param(
        "page-size".to_string(),
        "query".to_string(),
        OpenApiType::Number { required: true },
        false,
    )
    .unwrap();
    h.add_param(
        "x-token".to_string(),
        "header".to_string(),
        OpenApiType::String { required: true },
        true,
    )
    .unwrap();
    h.add_response("200".to_string(), OpenApiType::Boolean { required: true }).unwrap();
    h
}

#[test]
fn url_template_substitutes_path_parameters() {
    let h = sample_handler();
    let got = generate_url("/v1/{accountId}/orders".to_string(), &h);
    assert_eq!(
        got,
        "/v1/${params.accountId}/orders?${qs.stringify({ 'page-size': params.pageSize }, { skipNull: true })}"
    );
}

#[test]
fn url_item_converts_placeholder_segments() {
    assert_eq!(generate_url_item("{account-id}"), "${params.accountId}");
    assert_eq!(generate_url_item("orders"), "orders");
    assert_eq!(generate_url_item("{}"), "${params.}");
}

#[test]
fn body_method_and_imports() {
    let mut h = SpecHandlerType::new();
    h.add_param(
        "requestBody".to_string(),
        "body".to_string(),
        OpenApiType::Unknown,
        false,
    )
    .unwrap();
    assert_eq!(get_body(&h), "params.requestBody");
    assert_eq!(get_body(&SpecHandlerType::new()), "undefined");
    assert_eq!(get_method(&OpenApiMethod::Get), "'GET'");
    assert_eq!(get_method(&OpenApiMethod::Patch), "'PATCH'");
    assert_eq!(add_import_query_string(&sample_handler()), "import qs from 'query-string';");
    assert_eq!(add_import_query_string(&SpecHandlerType::new()), "");
}

#[test]
fn headers_declaration_lists_header_parameters() {
    let h = sample_handler();
    assert_eq!(
        generate_headers_type(&h.parameters),
        "type ExtraHeadersType = {\n    'x-token': string,\n};\n"
    );
    assert_eq!(generate_headers_param(&h.parameters), "extraHeaders: ExtraHeadersType");
    let none = SpecHandlerType::new();
    assert_eq!(
        generate_headers_type(&none.parameters),
        "type ExtraHeadersType = Record<string, string>"
    );
    assert_eq!(generate_headers_param(&none.parameters), "extraHeaders?: ExtraHeadersType");
}

#[test]
fn params_record_declaration() {
    let h = sample_handler();
    let (name, def) = generate_params_type(&h);
    assert_eq!(name, "params: ParamsType");
    assert_eq!(
        def,
        "export interface ParamsType {\n    accountId: string,\n    pageSize: null | undefined | number,\n}"
    );
    let (name2, def2) = generate_params_type(&SpecHandlerType::new());
    assert_eq!(name2, "_params: ParamsType");
    assert_eq!(def2, "export interface ParamsType {\n}");
}

#[test]
fn response_decoders_per_code() {
    let h = sample_handler();
    let got = generate_response_io(&h, &"/v1/orders".to_string(), &OpenApiMethod::Get);
    assert!(got.contains("const Response200IO = t.boolean;"));
    assert!(got.contains("export type Response200Type = boolean;"));
    assert!(got.contains("export const decodeResponse200"));
    assert!(got.contains("throw Error('Response decoding error /v1/orders -> get -> 200');"));
}

#[test]
fn generic_response_union_and_dispatch() {
    let mut h = SpecHandlerType::new();
    h.add_response("200".to_string(), OpenApiType::Unknown).unwrap();
    h.add_response("404".to_string(), OpenApiType::Unknown).unwrap();
    let (types, ifs) = generate_generic_response(&h.responses);
    assert_eq!(
        types,
        "{\n    status: 200,\n    body: Response200Type,\n} | {\n    status: 404,\n    body: Response404Type,\n}"
    );
    assert!(ifs.contains("if (status === 200)"));
    assert!(ifs.contains("decodeResponse404(bodyParsed.json)"));
}

#[test]
fn whole_module_text_holds_its_pieces() {
    let h = sample_handler();
    let got = generate_js(
        "openapi_demo_get_orders".to_string(),
        "/v1/{accountId}/orders".to_string(),
        OpenApiMethod::Get,
        &h,
    )
    .unwrap();
    assert!(got.starts_with("//The contents of this file have been generated automatically."));
    assert!(got.contains("export const openapi_demo_get_orders = async (api_url: string"));
    assert!(got.contains("export type OpenapiDemoGetOrdersParamsType = ParamsType;"));
    assert!(got.contains("export const openapiDemoGetOrdersRequest = async"));
    assert!(got.contains("const method = 'GET';"));
    assert!(got.contains("const url = `${api_url}/v1/${params.accountId}/orders?"));
}

#[test]
fn operation_lookup_refuses_unknown_url_or_method() {
    let mut inner: OrderHashMap<OpenApiMethod, SpecHandlerType> = OrderHashMap::new();
    inner.expect_insert(OpenApiMethod::Get, sample_handler()).unwrap();
    let mut paths: OrderHashMap<String, OrderHashMap<OpenApiMethod, SpecHandlerType>> =
        OrderHashMap::new();
    paths.expect_insert("/v1/orders".to_string(), inner).unwrap();
    let spec = openapi_gen::open_api_spec::SpecOpenApi { paths };
    let ok = generate_operation(
        &spec,
        "openapi_demo_list".to_string(),
        "/v1/orders".to_string(),
        OpenApiMethod::Get,
    );
    assert!(ok.is_ok());
    let missing_path = generate_operation(
        &spec,
        "openapi_demo_list".to_string(),
        "/v2/orders".to_string(),
        OpenApiMethod::Get,
    );
    assert!(missing_path.is_err());
    let missing_method = generate_operation(
        &spec,
        "openapi_demo_list".to_string(),
        "/v1/orders".to_string(),
        OpenApiMethod::Post,
    );
    assert!(missing_method.is_err());
}
