//! A service definition and what it decides besides its syntax: which sides
//! it generates, which method parameters it accepts, the return type of a
//! method without one, and the names and ids of what is generated for it.
//!
//! A definition reaches this module split up by a Rust parser: the name in
//! its optional attribute, its keyword, the service name and the signature of
//! each method, with every type kept as the text it was written as.
use vstd::prelude::*;
use vstd::string::*;
use crate::naming::{pascal_case, snake_case, str_uppercase, to_pascal_case, to_snake_case, upper_case};
use crate::error::{method_not_found_message, RpcError, RpcStatus};
use crate::text::string_of;

verus! {

/// Which sides of a service a definition generates code for.
#[derive(Debug, Clone, Copy, PartialEq, Eq, Structural)]
pub enum GenerateMode {
    /// The server trait and the client (no attribute).
    Both,
    /// Only the server trait and its dispatcher (`#[server]`).
    ServerOnly,
    /// Only the client (`#[client]`).
    ClientOnly,
}

impl GenerateMode {
    /// Whether the server side is generated.
    pub fn generates_server(self) -> (r: bool)
        ensures
            r == !(self is ClientOnly),
    {
        !matches!(self, GenerateMode::ClientOnly)
    }

    /// Whether the client side is generated.
    pub fn generates_client(self) -> (r: bool)
        ensures
            r == !(self is ServerOnly),
    {
        !matches!(self, GenerateMode::ServerOnly)
    }
}

/// The error for an attribute other than `server` and `client`.
pub open spec fn unknown_attribute_message(name: Seq<char>) -> Seq<char> {
    "Unknown attribute `"@ + name + "`, expected `server` or `client`"@
}

/// What the header of a definition gives: the name in its optional attribute
/// is checked first, then the keyword, which must be `service`.
pub open spec fn header_outcome(attribute: Option<Seq<char>>, keyword: Seq<char>) -> Result<GenerateMode, Seq<char>> {
    let mode = match attribute {
        None => Ok(GenerateMode::Both),
        Some(a) => if a == "server"@ {
            Ok(GenerateMode::ServerOnly)
        } else if a == "client"@ {
            Ok(GenerateMode::ClientOnly)
        } else {
            Err(unknown_attribute_message(a))
        },
    };
    match mode {
        Err(m) => Err(m),
        Ok(mode) => if keyword == "service"@ {
            Ok(mode)
        } else {
            Err("Expected `service`"@)
        },
    }
}

/// The view of an optional string slice.
pub open spec fn opt_view(s: Option<&str>) -> Option<Seq<char>> {
    match s {
        Some(a) => Some(a@),
        None => None,
    }
}

/// The view of a result whose error is a message.
pub open spec fn outcome_view<A>(r: Result<A, String>) -> Result<A, Seq<char>> {
    match r {
        Ok(a) => Ok(a),
        Err(m) => Err(m@),
    }
}

/// Check the header of a service definition: the name inside an optional
/// leading attribute (`#[server]` or `#[client]`), then the keyword.
pub fn service_header(attribute: Option<&str>, keyword: &str) -> (r: Result<GenerateMode, String>)
    ensures
        outcome_view(r) == header_outcome(opt_view(attribute), keyword@),
{
    let mode = match attribute {
        None => GenerateMode::Both,
        Some(a) => {
            let name = string_of(a);
            if name == string_of("server") {
                GenerateMode::ServerOnly
            } else if name == string_of("client") {
                GenerateMode::ClientOnly
            } else {
                let mut m = string_of("Unknown attribute `");
                m.append(a);
                m.append("`, expected `server` or `client`");
                return Err(m);
            }
        },
    };
    if string_of(keyword) == string_of("service") {
        Ok(mode)
    } else {
        Err(string_of("Expected `service`"))
    }
}

/// A parameter of a method signature.
pub enum Param {
    /// A `self` parameter, in any form.
    Receiver,
    /// A typed parameter: its name when its pattern is a plain identifier
    /// (`None` for any other pattern), and its type.
    Typed { name: Option<String>, ty: String },
}

/// The signature of a method in a service definition.
pub struct MethodSignature {
    pub name: String,
    pub params: Vec<Param>,
    /// The return type, where one is written.
    pub output: Option<String>,
}

/// An accepted method: its name, its arguments (name and type) and its return type.
pub struct MethodDef {
    pub name: String,
    pub args: Vec<(String, String)>,
    pub return_type: String,
}

/// An accepted service definition.
pub struct ServiceDef {
    pub mode: GenerateMode,
    pub name: String,
    pub methods: Vec<MethodDef>,
}

/// The error for a `self` parameter.
pub open spec fn receiver_message() -> Seq<char> {
    "Service methods should not have `self` parameter"@
}

/// The error for a parameter whose pattern is not a plain identifier.
pub open spec fn pattern_message() -> Seq<char> {
    "Expected a simple identifier for argument name"@
}

/// The error a parameter is refused with, if it is refused.
pub open spec fn param_error(p: Param) -> Option<Seq<char>> {
    match p {
        Param::Receiver => Some(receiver_message()),
        Param::Typed { name: None, .. } => Some(pattern_message()),
        Param::Typed { name: Some(_), .. } => None,
    }
}

/// Parameter `i` is the first one refused.
pub open spec fn first_bad_param(ps: Seq<Param>, i: int) -> bool {
    &&& 0 <= i < ps.len()
    &&& param_error(ps[i]) is Some
    &&& forall|j: int| 0 <= j < i ==> param_error(#[trigger] ps[j]) is None
}

/// The error of the first refused parameter, if one is refused.
pub open spec fn params_error(ps: Seq<Param>) -> Option<Seq<char>> {
    if exists|i: int| first_bad_param(ps, i) {
        param_error(ps[choose|i: int| first_bad_param(ps, i)])
    } else {
        None
    }
}

/// The name and type of an accepted parameter.
pub open spec fn arg_of(p: Param) -> (Seq<char>, Seq<char>) {
    match p {
        Param::Typed { name: Some(n), ty } => (n@, ty@),
        _ => (Seq::empty(), Seq::empty()),
    }
}

/// The return type of a method: the one written, else the unit type.
pub open spec fn return_type_of(output: Option<String>) -> Seq<char> {
    match output {
        Some(t) => t@,
        None => "()"@,
    }
}

/// `d` is what the signature `sig` is accepted as.
pub open spec fn method_def_is(d: MethodDef, sig: MethodSignature) -> bool {
    &&& d.name@ == sig.name@
    &&& d.args@.len() == sig.params@.len()
    &&& forall|i: int|
        0 <= i < sig.params@.len() ==> (#[trigger] d.args@[i].0@, d.args@[i].1@) == arg_of(sig.params@[i])
    &&& d.return_type@ == return_type_of(sig.output)
}

/// The first refused parameter is the one at `i`.
proof fn lemma_params_error_at(ps: Seq<Param>, i: int)
    requires
        first_bad_param(ps, i),
    ensures
        params_error(ps) == param_error(ps[i]),
{
    let k = choose|k: int| first_bad_param(ps, k);
    if k < i {
        assert(param_error(ps[k]) is None);
    } else if i < k {
        assert(param_error(ps[i]) is None);
    }
}

/// The arguments of accepted parameters, or the error of the first refused one.
fn accepted_args(params: Vec<Param>) -> (r: Result<Vec<(String, String)>, String>)
    ensures
        match r {
            Ok(args) => {
                &&& params_error(params@) is None
                &&& args@.len() == params@.len()
                &&& forall|i: int|
                    0 <= i < params@.len() ==> (#[trigger] args@[i].0@, args@[i].1@) == arg_of(params@[i])
            },
            Err(m) => params_error(params@) == Some(m@),
        },
{
    let ghost ps = params@;
    let mut args: Vec<(String, String)> = Vec::new();
    for p in it: params.into_iter()
        invariant
            it.seq() == ps,
            args@.len() == it.index(),
            forall|j: int| 0 <= j < it.index() ==> param_error(#[trigger] ps[j]) is None,
            forall|j: int| 0 <= j < it.index() ==> (#[trigger] args@[j].0@, args@[j].1@) == arg_of(ps[j]),
    {
        let ghost k = it.index() as int;
        match p {
            Param::Receiver => {
                proof {
                    lemma_params_error_at(ps, k);
                }
                return Err(string_of("Service methods should not have `self` parameter"));
            },
            Param::Typed { name: None, ty: _ } => {
                proof {
                    lemma_params_error_at(ps, k);
                }
                return Err(string_of("Expected a simple identifier for argument name"));
            },
            Param::Typed { name: Some(n), ty } => {
                args.push((n, ty));
            },
        }
    }
    proof {
        if exists|i: int| first_bad_param(ps, i) {
            let i = choose|i: int| first_bad_param(ps, i);
            assert(param_error(ps[i]) is None);
        }
    }
    Ok(args)
}

/// Check a method signature: every parameter must be typed and named by a
/// plain identifier; a method without a return type returns `()`.
pub fn method_def(sig: MethodSignature) -> (r: Result<MethodDef, String>)
    ensures
        match r {
            Ok(d) => params_error(sig.params@) is None && method_def_is(d, sig),
            Err(m) => params_error(sig.params@) == Some(m@),
        },
{
    let MethodSignature { name, params, output } = sig;
    let args = match accepted_args(params) {
        Ok(args) => args,
        Err(e) => return Err(e),
    };
    let return_type = match output {
        Some(t) => t,
        None => string_of("()"),
    };
    Ok(MethodDef { name, args, return_type })
}

/// The method at `i` is the first one with a refused parameter.
pub open spec fn first_bad_method(ms: Seq<MethodSignature>, i: int) -> bool {
    &&& 0 <= i < ms.len()
    &&& params_error(ms[i].params@) is Some
    &&& forall|j: int| 0 <= j < i ==> params_error(#[trigger] ms[j].params@) is None
}

/// The error of the first refused parameter of the first method that has one.
pub open spec fn methods_error(ms: Seq<MethodSignature>) -> Option<Seq<char>> {
    if exists|i: int| first_bad_method(ms, i) {
        params_error(ms[choose|i: int| first_bad_method(ms, i)].params@)
    } else {
        None
    }
}

/// The first method with a refused parameter is the one at `i`.
proof fn lemma_methods_error_at(ms: Seq<MethodSignature>, i: int)
    requires
        first_bad_method(ms, i),
    ensures
        methods_error(ms) == params_error(ms[i].params@),
{
    let k = choose|k: int| first_bad_method(ms, k);
    if k < i {
        assert(params_error(ms[k].params@) is None);
    } else if i < k {
        assert(params_error(ms[i].params@) is None);
    }
}

/// The accepted methods, or the error of the first refused one.
fn accepted_methods(methods: Vec<MethodSignature>) -> (r: Result<Vec<MethodDef>, String>)
    ensures
        match r {
            Ok(defs) => {
                &&& methods_error(methods@) is None
                &&& defs@.len() == methods@.len()
                &&& forall|i: int| 0 <= i < methods@.len() ==> method_def_is(#[trigger] defs@[i], methods@[i])
            },
            Err(m) => methods_error(methods@) == Some(m@),
        },
{
    let ghost ms = methods@;
    let mut defs: Vec<MethodDef> = Vec::new();
    for sig in it: methods.into_iter()
        invariant
            it.seq() == ms,
            defs@.len() == it.index(),
            forall|j: int| 0 <= j < it.index() ==> params_error(#[trigger] ms[j].params@) is None,
            forall|j: int| 0 <= j < it.index() ==> method_def_is(#[trigger] defs@[j], ms[j]),
    {
        let ghost k = it.index() as int;
        match method_def(sig) {
            Ok(d) => {
                defs.push(d);
            },
            Err(e) => {
                proof {
                    lemma_methods_error_at(ms, k);
                }
                return Err(e);
            },
        }
    }
    proof {
        if exists|i: int| first_bad_method(ms, i) {
            let i = choose|i: int| first_bad_method(ms, i);
            assert(params_error(ms[i].params@) is None);
        }
    }
    Ok(defs)
}

/// Check a whole service definition, as its parts come in: the header first,
/// then the methods in order. The first refusal is the error.
pub fn service_def(attribute: Option<&str>, keyword: &str, name: String, methods: Vec<MethodSignature>) -> (r: Result<
    ServiceDef,
    String,
>)
    ensures
        match header_outcome(opt_view(attribute), keyword@) {
            Err(m) => r matches Err(e) && e@ == m,
            Ok(mode) => match methods_error(methods@) {
                Some(m) => r matches Err(e) && e@ == m,
                None => r matches Ok(d) && {
                    &&& d.mode == mode
                    &&& d.name@ == name@
                    &&& d.methods@.len() == methods@.len()
                    &&& forall|i: int| 0 <= i < methods@.len() ==> method_def_is(#[trigger] d.methods@[i], methods@[i])
                },
            },
        },
{
    let mode = match service_header(attribute, keyword) {
        Ok(mode) => mode,
        Err(e) => return Err(e),
    };
    match accepted_methods(methods) {
        Ok(defs) => Ok(ServiceDef { mode, name, methods: defs }),
        Err(e) => Err(e),
    }
}

/// The names and the id of what is generated for one method.
pub struct MethodLayout {
    /// The name of the method-id constant: the method name in upper case.
    pub const_name: String,
    /// The method id: the method's position in the definition.
    pub id: u16,
    /// The request type: the method name in Pascal case, then `Request`.
    pub request_type: String,
    /// The response type: the method name in Pascal case, then `Response`.
    pub response_type: String,
}

/// What is generated for a service, apart from the tokens of its code.
pub struct ServiceLayout {
    /// The name of the generated module: the service name in snake case.
    pub module_name: String,
    /// The service name as declared.
    pub service_name: String,
    /// The number of methods.
    pub method_count: u16,
    /// Whether the server trait and its dispatcher are generated.
    pub server: bool,
    /// Whether the client is generated.
    pub client: bool,
    /// One entry per method, in declaration order.
    pub methods: Vec<MethodLayout>,
}

/// What a method's entry holds, given its name and position.
pub open spec fn method_layout_is(m: MethodLayout, name: Seq<char>, i: int) -> bool {
    &&& m.const_name@ == str_uppercase(name)
    &&& m.id == i as u16
    &&& m.request_type@ == pascal_case(name) + "Request"@
    &&& m.response_type@ == pascal_case(name) + "Response"@
}

/// The names and ids generated for a service. Ids and the method count are
/// 16-bit: they wrap past 65535 methods, as the casts do.
pub fn service_layout(def: &ServiceDef) -> (l: ServiceLayout)
    ensures
        l.module_name@ == snake_case(def.name@),
        l.service_name@ == def.name@,
        l.method_count == def.methods@.len() as u16,
        l.server == !(def.mode is ClientOnly),
        l.client == !(def.mode is ServerOnly),
        l.methods@.len() == def.methods@.len(),
        forall|i: int| 0 <= i < def.methods@.len() ==> method_layout_is(
            #[trigger] l.methods@[i],
            def.methods@[i].name@,
            i,
        ),
{
    let mut methods: Vec<MethodLayout> = Vec::new();
    let mut i: usize = 0;
    while i < def.methods.len()
        invariant
            i <= def.methods@.len(),
            methods@.len() == i,
            forall|j: int| 0 <= j < i ==> method_layout_is(#[trigger] methods@[j], def.methods@[j].name@, j),
        decreases def.methods@.len() - i,
    {
        let m = def.methods[i].name.as_str();
        let pascal = to_pascal_case(m);
        let mut request_type = pascal.clone();
        request_type.append("Request");
        let mut response_type = pascal;
        response_type.append("Response");
        methods.push(MethodLayout { const_name: upper_case(m), id: i as u16, request_type, response_type });
        i = i + 1;
    }
    ServiceLayout {
        module_name: to_snake_case(def.name.as_str()),
        service_name: string_of(def.name.as_str()),
        method_count: def.methods.len() as u16,
        server: def.mode.generates_server(),
        client: def.mode.generates_client(),
        methods,
    }
}


/// The method a call with `method_id` goes to in a generated dispatcher: the
/// first method, in declaration order, with that id; a call with an id that
/// no method has is answered with `method_not_found`.
pub fn route_method(layout: &ServiceLayout, method_id: u16) -> (r: Result<usize, RpcError>)
    ensures
        match r {
            Ok(i) => {
                &&& i < layout.methods@.len()
                &&& layout.methods@[i as int].id == method_id
                &&& forall|j: int| 0 <= j < i ==> (#[trigger] layout.methods@[j]).id != method_id
            },
            Err(e) => {
                &&& forall|j: int| 0 <= j < layout.methods@.len() ==> (#[trigger] layout.methods@[j]).id != method_id
                &&& e@ == (RpcStatus::NotFound, method_not_found_message(method_id))
            },
        },
{
    let mut i: usize = 0;
    while i < layout.methods.len()
        invariant
            i <= layout.methods@.len(),
            forall|j: int| 0 <= j < i ==> (#[trigger] layout.methods@[j]).id != method_id,
        decreases layout.methods@.len() - i,
    {
        if layout.methods[i].id == method_id {
            return Ok(i);
        }
        i = i + 1;
    }
    Err(RpcError::method_not_found(method_id))
}

} // verus!
