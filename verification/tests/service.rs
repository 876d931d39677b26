use mill::service::{
    method_def, route_method, service_def, service_header, service_layout, GenerateMode, MethodSignature, Param, ServiceDef,
};

fn typed(name: &str, ty: &str) -> Param {
    Param::Typed { name: Some(name.to_string()), ty: ty.to_string() }
}

fn sig(name: &str, params: Vec<Param>, output: Option<&str>) -> MethodSignature {
    MethodSignature { name: name.to_string(), params, output: output.map(|t| t.to_string()) }
}

fn calculator() -> Vec<MethodSignature> {
    vec![
        sig("add", vec![typed("a", "i32"), typed("b", "i32")], Some("i32")),
        sig("divide", vec![typed("a", "f64"), typed("b", "f64")], Some("f64")),
        sig("get_value", vec![], None),
    ]
}

#[test]
fn service_header_modes() {
    assert_eq!(service_header(None, "service"), Ok(GenerateMode::Both));
    assert_eq!(service_header(Some("server"), "service"), Ok(GenerateMode::ServerOnly));
    assert_eq!(service_header(Some("client"), "service"), Ok(GenerateMode::ClientOnly));
}

#[test]
fn service_header_errors() {
    assert_eq!(
        service_header(Some("both"), "service"),
        Err("Unknown attribute `both`, expected `server` or `client`".to_string())
    );
    assert_eq!(service_header(None, "trait"), Err("Expected `service`".to_string()));
    // The attribute is checked before the keyword.
    assert_eq!(
        service_header(Some("nope"), "trait"),
        Err("Unknown attribute `nope`, expected `server` or `client`".to_string())
    );
}

#[test]
fn generated_sides_follow_the_mode() {
    assert!(GenerateMode::Both.generates_server() && GenerateMode::Both.generates_client());
    assert!(GenerateMode::ServerOnly.generates_server() && !GenerateMode::ServerOnly.generates_client());
    assert!(!GenerateMode::ClientOnly.generates_server() && GenerateMode::ClientOnly.generates_client());
}

#[test]
fn method_without_return_type_returns_unit() {
    let d = method_def(sig("ping", vec![], None)).ok().unwrap();
    assert_eq!(d.name, "ping");
    assert!(d.args.is_empty());
    assert_eq!(d.return_type, "()");
}

#[test]
fn method_arguments_keep_names_and_types() {
    let d = method_def(sig("put", vec![typed("key", "String"), typed("value", "Vec<u8>")], Some("bool")))
        .ok()
        .unwrap();
    assert_eq!(d.args, vec![("key".to_string(), "String".to_string()), ("value".to_string(), "Vec<u8>".to_string())]);
    assert_eq!(d.return_type, "bool");
}

#[test]
fn method_with_self_is_refused() {
    let r = method_def(sig("add", vec![Param::Receiver, typed("a", "i32")], Some("i32")));
    assert_eq!(r.err().unwrap(), "Service methods should not have `self` parameter");
}

#[test]
fn method_with_pattern_argument_is_refused() {
    let r = method_def(sig("add", vec![Param::Typed { name: None, ty: "(i32, i32)".to_string() }], None));
    assert_eq!(r.err().unwrap(), "Expected a simple identifier for argument name");
}

#[test]
fn first_refused_parameter_gives_the_error() {
    let r = method_def(sig(
        "f",
        vec![typed("a", "u8"), Param::Typed { name: None, ty: "u8".to_string() }, Param::Receiver],
        None,
    ));
    assert_eq!(r.err().unwrap(), "Expected a simple identifier for argument name");
}

#[test]
fn whole_definition_is_accepted() {
    let def = service_def(Some("server"), "service", "Calculator".to_string(), calculator()).ok().unwrap();
    assert_eq!(def.mode, GenerateMode::ServerOnly);
    assert_eq!(def.name, "Calculator");
    assert_eq!(def.methods.len(), 3);
    assert_eq!(def.methods[2].return_type, "()");
}

#[test]
fn first_refused_method_gives_the_error() {
    let methods = vec![
        sig("ok", vec![typed("a", "u8")], None),
        sig("bad_pattern", vec![Param::Typed { name: None, ty: "u8".to_string() }], None),
        sig("bad_self", vec![Param::Receiver], None),
    ];
    let r = service_def(None, "service", "S".to_string(), methods);
    assert_eq!(r.err().unwrap(), "Expected a simple identifier for argument name");
}

#[test]
fn header_is_checked_before_methods() {
    let methods = vec![sig("bad_self", vec![Param::Receiver], None)];
    let r = service_def(None, "struct", "S".to_string(), methods);
    assert_eq!(r.err().unwrap(), "Expected `service`");
}

#[test]
fn layout_of_a_math_service() {
    let def = service_def(Some("server"), "service", "MathService".to_string(), calculator()).ok().unwrap();
    let l = service_layout(&def);
    assert_eq!(l.module_name, "math_service");
    assert_eq!(l.service_name, "MathService");
    assert_eq!(l.method_count, 3);
    assert!(l.server);
    assert!(!l.client);
    assert_eq!(l.methods.len(), 3);
    assert_eq!(l.methods[0].const_name, "ADD");
    assert_eq!(l.methods[0].id, 0);
    assert_eq!(l.methods[0].request_type, "AddRequest");
    assert_eq!(l.methods[0].response_type, "AddResponse");
    assert_eq!(l.methods[1].const_name, "DIVIDE");
    assert_eq!(l.methods[1].id, 1);
    assert_eq!(l.methods[2].const_name, "GET_VALUE");
    assert_eq!(l.methods[2].id, 2);
    assert_eq!(l.methods[2].request_type, "GetValueRequest");
    assert_eq!(l.methods[2].response_type, "GetValueResponse");
}

#[test]
fn layout_of_a_service_without_methods() {
    let def = ServiceDef { mode: GenerateMode::Both, name: "Empty".to_string(), methods: vec![] };
    let l = service_layout(&def);
    assert_eq!(l.module_name, "empty");
    assert_eq!(l.method_count, 0);
    assert!(l.server && l.client);
    assert!(l.methods.is_empty());
}

#[test]
fn calls_route_to_methods_by_id() {
    let def = service_def(None, "service", "Calculator".to_string(), calculator()).ok().unwrap();
    let l = service_layout(&def);
    assert_eq!(route_method(&l, 0).ok(), Some(0));
    assert_eq!(route_method(&l, 2).ok(), Some(2));
    let e = route_method(&l, 7).err().unwrap();
    assert_eq!(e.status, mill::RpcStatus::NotFound);
    assert_eq!(e.message, "Method not found: 7");
}
