use openapi_gen::fix_url_param::{correct_handlers, fix_url, fix_url_param};
use openapi_gen::open_api_spec::{OpenApiMethod, ParamIn, SpecHandlerType, SpecOpenApi};
use openapi_gen::open_api_type::OpenApiType;
use openapi_gen::read_wanted_spec::WantedMethod;
use openapi_gen::utils::OrderHashMap;

#[test]
fn test_fix_url() {
    let url = "/fixed/session/register";
    assert_eq!(
        fix_url(&url.to_string(), &"fixed".to_string(), &"rrrrrr".to_string()),
        "/{rrrrrr}/session/register".to_string()
    );
}

#[test]
fn fix_url_leaves_other_segments() {
    assert_eq!(
        fix_url(&"/a/b".to_string(), &"zzz".to_string(), &"u".to_string()),
        "/a/b".to_string()
    );
}

#[test]
fn rewrite_injects_a_path_parameter() {
    let mut inner: OrderHashMap<OpenApiMethod, SpecHandlerType> = OrderHashMap::new();
    inner.expect_insert(OpenApiMethod::Get, SpecHandlerType::new()).unwrap();
    let mut paths: OrderHashMap<String, OrderHashMap<OpenApiMethod, SpecHandlerType>> =
        OrderHashMap::new();
    paths.expect_insert("/fixed/session".to_string(), inner).unwrap();
    let mut spec = SpecOpenApi { paths };

    let mut methods: OrderHashMap<String, WantedMethod> = OrderHashMap::new();
    methods
        .expect_insert(
            "getSession".to_string(),
            WantedMethod { method: OpenApiMethod::Get, url: "/fixed/session".to_string() },
        )
        .unwrap();

    fix_url_param(&mut spec, &mut methods, "fixed".to_string(), "universe".to_string()).unwrap();

    let paths = spec.paths.get_sorted();
    assert_eq!(paths.len(), 1);
    assert_eq!(paths[0].0, "/{universe}/session");
    let handlers = paths[0].1.get_sorted();
    assert_eq!(handlers.len(), 1);
    let h = handlers[0].1;
    assert_eq!(h.parameters.len(), 1);
    assert_eq!(h.parameters[0].name, "universe");
    assert_eq!(h.parameters[0].where_in, ParamIn::Path);
    assert_eq!(h.parameters[0].api_type, OpenApiType::String { required: true });

    let wanted = methods.get_sorted();
    assert_eq!(wanted[0].1.url, "/{universe}/session");
}

#[test]
fn untouched_paths_keep_their_handlers() {
    let mut handler = SpecHandlerType::new();
    handler
        .add_param(
            "id".to_string(),
            "path".to_string(),
            OpenApiType::String { required: true },
            true,
        )
        .unwrap();
    let mut inner: OrderHashMap<OpenApiMethod, SpecHandlerType> = OrderHashMap::new();
    inner.expect_insert(OpenApiMethod::Post, handler).unwrap();
    let fixed = correct_handlers(&inner, &"universe".to_string());
    let hs = fixed.get_sorted();
    assert_eq!(hs[0].1.parameters.len(), 2);
    assert_eq!(hs[0].1.parameters[1].name, "universe");
}
