//! Whole scenarios: sources are configured, operations bound, calls prepared and answered.
use mcpg_plugin_backend_openapi::call::{
    address_call, address_call_within_limits, prepare_call, read_arguments, tool_name, values_scanned,
    OutgoingRequest, PreparedCall,
};
use mcpg_plugin_backend_openapi::config::{
    block_is_absent, BindingSpec, ExposeConfig, FilterConfig, PluginConfig, ResponseLimits,
    SourceConfig, SpecSource, UpstreamSafety,
};
use mcpg_plugin_backend_openapi::credentials::{
    credential_request, resolved_values, write_auth, write_headers,
};
use mcpg_plugin_backend_openapi::envelope::build_response;
use mcpg_plugin_backend_openapi::error::BackendError;
use mcpg_plugin_backend_openapi::exchange::{keep_response, HttpOutcome};
use mcpg_plugin_backend_openapi::json::Json;
use mcpg_plugin_backend_openapi::plugin::OpenapiBackendPlugin;
use mcpg_plugin_backend_openapi::text_map::TextMap;

fn json(text: &str) -> Json {
    Json::read(text).expect("test document")
}

const PETSTORE: &str = r##"{
    "openapi": "3.0.3",
    "info": { "title": "Petstore", "version": "1.0.0" },
    "paths": {
        "/pets": {
            "get": {
                "operationId": "listPets",
                "parameters": [
                    { "name": "limit", "in": "query", "required": false,
                      "schema": { "type": "integer", "nullable": true } }
                ],
                "responses": { "200": { "description": "ok",
                    "content": { "application/json": { "schema": {
                        "type": "array", "items": { "$ref": "#/components/schemas/Pet" } } } } } }
            },
            "post": {
                "operationId": "createPet",
                "requestBody": { "required": true, "content": { "application/json": {
                    "schema": { "$ref": "#/components/schemas/NewPet" } } } },
                "responses": { "201": { "description": "created",
                    "content": { "application/json": { "schema": { "$ref": "#/components/schemas/Pet" } } } } }
            }
        },
        "/pets/{petId}": {
            "get": {
                "operationId": "getPetById",
                "parameters": [
                    { "name": "petId", "in": "path", "required": true,
                      "schema": { "type": "integer" } }
                ],
                "responses": { "200": { "description": "ok",
                    "content": { "application/json": { "schema": { "$ref": "#/components/schemas/Pet" } } } } }
            }
        },
        "/ping": {
            "get": { "operationId": "ping",
                "responses": { "200": { "description": "ok",
                    "content": { "application/json": { "schema": { "type": "object" } } } } } }
        }
    },
    "components": { "schemas": {
        "Pet": { "type": "object",
            "required": ["id", "name"],
            "properties": { "id": { "type": "integer" }, "name": { "type": "string" },
                            "tag": { "type": "string" } } },
        "NewPet": { "type": "object",
            "required": ["name"],
            "properties": { "name": { "type": "string" }, "tag": { "type": "string" } } }
    } }
}"##;

fn source(name: &str, document: Json, base_url: &str) -> SourceConfig {
    SourceConfig {
        name: name.to_owned(),
        spec: SpecSource::Inline { inline: document },
        base_url: Some(base_url.to_owned()),
        headers: TextMap::new(),
        auth: TextMap::new(),
        upstream_safety: UpstreamSafety { allow_private_backends: true, allow_insecure_http: true },
        response: ResponseLimits::default(),
        expose: None,
        filter: FilterConfig::default(),
        governance: None,
        retry: None,
    }
}

fn plugin_of(source: SourceConfig) -> OpenapiBackendPlugin {
    OpenapiBackendPlugin::from_config(vec![(source, Err("no file".to_owned()))])
}

fn petstore(base_url: &str) -> OpenapiBackendPlugin {
    plugin_of(source("petstore", json(PETSTORE), base_url))
}

fn binding(source: &str, operation: &str) -> BindingSpec {
    BindingSpec { source: source.to_owned(), operation: operation.to_owned() }
}

fn register(plugin: &mut OpenapiBackendPlugin, name: &str, source: &str, operation: &str) {
    let profile = plugin.bind(&binding(source, operation)).expect("register");
    plugin.client_profile(&profile.source, &profile.base_url).expect("client");
    plugin.add_profile(name, profile);
}

fn bind_error(plugin: &OpenapiBackendPlugin, source: &str, operation: &str) -> String {
    match plugin.bind(&binding(source, operation)) {
        Err(BackendError::InvalidSpec { message }) => message,
        other => panic!("expected InvalidSpec, got {other:?}"),
    }
}

/// The credentials named by tokens such as `${cred://issuer/target}`.
fn tokens_of(value: &str) -> Vec<String> {
    let mut found = Vec::new();
    let mut rest = value;
    while let Some(at) = rest.find("${cred://") {
        let tail = &rest[at + 2..];
        match tail.find('}') {
            Some(end) => {
                found.push(tail[..end].to_owned());
                rest = &tail[end..];
            }
            None => break,
        }
    }
    found
}

fn substitute(value: &str, values: &TextMap<String>) -> String {
    let mut out = value.to_owned();
    for token in tokens_of(value) {
        if let Some(v) = values.get_text(&token) {
            out = out.replace(&format!("${{{token}}}"), v);
        }
    }
    out
}

fn token_map(values: &TextMap<String>) -> TextMap<Vec<String>> {
    let mut m = TextMap::new();
    for i in 0..values.len() {
        m.insert(values.key_at(i).clone(), tokens_of(values.value_at(i)));
    }
    m
}

fn substituted(values: &TextMap<String>, given: &TextMap<String>) -> TextMap<String> {
    let mut m = TextMap::new();
    for i in 0..values.len() {
        m.insert(values.key_at(i).clone(), substitute(values.value_at(i), given));
    }
    m
}

/// A host that resolves every credential to `tok-123`.
fn host_answer(asked: &Json) -> Json {
    let mut m = TextMap::new();
    let members = asked.as_object().expect("snapshot");
    for i in 0..members.len() {
        m.insert(members.key_at(i).clone(), Json::String("tok-123".to_owned()));
    }
    Json::from_members(m)
}

struct Sent {
    call: PreparedCall,
    out: OutgoingRequest,
    asked: Option<Json>,
}

/// Carries a call up to the request that goes out.
fn send(plugin: &OpenapiBackendPlugin, profile_name: &str, args: &Json) -> Sent {
    let (profile, src) = plugin.target(profile_name).expect("target");
    let mut call = prepare_call(profile, src, args).expect("prepared");
    let (headers, auth) = values_scanned(src, &call);
    let header_tokens = token_map(&headers);
    let auth_tokens = token_map(&auth);
    let asked = credential_request(&header_tokens, &auth_tokens, true).expect("host");
    if let Some(asked) = &asked {
        let given = resolved_values(&host_answer(asked));
        write_headers(&mut call.headers, &header_tokens, &substituted(&headers, &given));
        call.auth = write_auth(&call.auth, &substituted(&auth, &given));
    }
    let out = address_call(profile, src, &call).expect("url");
    let sure = address_call_within_limits(profile, src, &call).expect("url fits").expect("url");
    assert_eq!((&sure.url, &sure.headers), (&out.url, &out.headers));
    Sent { call, out, asked }
}

fn answered(
    plugin: &OpenapiBackendPlugin,
    profile_name: &str,
    args: &Json,
    status: u16,
    body: &str,
) -> Json {
    let sent = send(plugin, profile_name, args);
    let outcome = Ok(keep_response(
        status,
        Some("application/json".to_owned()),
        body.as_bytes(),
        1_048_576,
        5,
    ));
    let tool = tool_name(&vec![], profile_name);
    let r = build_response(args, &tool, profile_name, &sent.call.prepared, &sent.out.url, &outcome);
    assert!(!r.truncated);
    Json::read_bytes(&r.payload).expect("payload")
}

fn header<'a>(out: &'a OutgoingRequest, name: &str) -> Option<&'a str> {
    out.headers.iter().find(|(k, _)| k == name).map(|(_, v)| v.as_str())
}

#[test]
fn input_schema_path_param_required() {
    let mut plugin = petstore("https://127.0.0.1");
    register(&mut plugin, "get-pet", "petstore", "getPetById");
    let schema = plugin.input_schema("get-pet").expect("schema");
    assert_eq!(schema.text_at("type"), Some("object"));
    assert_eq!(schema.pointer("/properties/petId/type").and_then(|v| v.as_str()), Some("integer"));
    assert_eq!(schema.get("required"), Some(&json(r#"["petId"]"#)));
    let out = plugin.output_schema("get-pet").expect("output schema");
    assert_eq!(out.text_at("type"), Some("object"));
    assert_eq!(out.pointer("/properties/name/type").and_then(|v| v.as_str()), Some("string"));
}

#[test]
fn input_schema_body_hoisted_and_nullable() {
    let mut plugin = petstore("https://127.0.0.1");
    register(&mut plugin, "create-pet", "petstore", "createPet");
    let schema = plugin.input_schema("create-pet").expect("schema");
    assert_eq!(schema.pointer("/properties/name/type").and_then(|v| v.as_str()), Some("string"));
    assert_eq!(schema.pointer("/properties/tag/type").and_then(|v| v.as_str()), Some("string"));
    assert_eq!(schema.get("required"), Some(&json(r#"["name"]"#)));
    register(&mut plugin, "list-pets", "petstore", "listPets");
    let list = plugin.input_schema("list-pets").expect("schema");
    assert_eq!(
        list.pointer("/properties/limit/type"),
        Some(&json(r#"["integer", "null"]"#))
    );
}

#[test]
fn unknown_source_or_operation_fails_at_register() {
    let plugin = petstore("https://127.0.0.1");
    assert_eq!(bind_error(&plugin, "nope", "ping"), "unknown openapi source 'nope'");
    assert_eq!(
        bind_error(&plugin, "petstore", "nope"),
        "source 'petstore': operationId 'nope' not found in spec"
    );
}

#[test]
fn execute_get_with_path_param_succeeds() {
    let mut plugin = petstore("http://127.0.0.1:8080");
    register(&mut plugin, "get-pet", "petstore", "getPetById");
    let args = json(r#"{ "petId": 42 }"#);
    let sent = send(&plugin, "get-pet", &args);
    assert_eq!(sent.call.prepared.method, "GET");
    assert_eq!(sent.out.url, "http://127.0.0.1:8080/pets/42");
    let env = answered(&plugin, "get-pet", &args, 200, r#"{"id":42,"name":"Rex"}"#);
    assert_eq!(env.get("downstreamError"), Some(&Json::Null));
    assert_eq!(env.pointer("/response/statusCode"), Some(&json("200")));
    assert_eq!(env.pointer("/response/json/name").and_then(|v| v.as_str()), Some("Rex"));
}

#[test]
fn execute_post_sends_json_body() {
    let mut plugin = petstore("http://127.0.0.1:8080");
    register(&mut plugin, "create-pet", "petstore", "createPet");
    let args = json(r#"{ "name": "Milo", "tag": "dog" }"#);
    let sent = send(&plugin, "create-pet", &args);
    assert_eq!(sent.call.prepared.method, "POST");
    assert_eq!(sent.out.url, "http://127.0.0.1:8080/pets");
    assert_eq!(sent.call.prepared.body, Some(json(r#"{ "name": "Milo", "tag": "dog" }"#)));
    let env = answered(&plugin, "create-pet", &args, 201, r#"{"id":7,"name":"Milo"}"#);
    assert_eq!(env.get("downstreamError"), Some(&Json::Null));
    assert_eq!(env.pointer("/response/statusCode"), Some(&json("201")));
}

fn secured(scheme: &str, secret: &str) -> OpenapiBackendPlugin {
    let document = format!(
        r#"{{
        "openapi": "3.0.3",
        "info": {{ "title": "Secured", "version": "1.0.0" }},
        "security": [ {{ "scheme1": [] }} ],
        "paths": {{ "/thing": {{ "get": {{ "operationId": "getThing",
            "responses": {{ "200": {{ "description": "ok",
                "content": {{ "application/json": {{ "schema": {{ "type": "object" }} }} }} }} }} }} }} }},
        "components": {{ "securitySchemes": {{ "scheme1": {scheme} }} }}
    }}"#
    );
    let mut src = source("api", json(&document), "http://127.0.0.1:8080");
    src.auth.insert("scheme1".to_owned(), secret.to_owned());
    let mut plugin = plugin_of(src);
    register(&mut plugin, "t", "api", "getThing");
    plugin
}

#[test]
fn auth_apikey_header_is_injected() {
    let plugin = secured(
        r#"{ "type": "apiKey", "in": "header", "name": "X-API-Key" }"#,
        "secret123",
    );
    let sent = send(&plugin, "t", &json("{}"));
    assert_eq!(header(&sent.out, "X-API-Key"), Some("secret123"));
    assert_eq!(sent.out.url, "http://127.0.0.1:8080/thing");
}

#[test]
fn auth_bearer_resolves_cred_reference() {
    let plugin = secured(r#"{ "type": "http", "scheme": "bearer" }"#, "${cred://oauth/api}");
    let sent = send(&plugin, "t", &json("{}"));
    assert_eq!(header(&sent.out, "Authorization"), Some("Bearer tok-123"));
}

#[test]
fn bare_cred_in_operator_config_is_left_verbatim() {
    let plugin = secured(r#"{ "type": "http", "scheme": "bearer" }"#, "cred://oauth/api");
    let sent = send(&plugin, "t", &json("{}"));
    assert_eq!(header(&sent.out, "Authorization"), Some("Bearer cred://oauth/api"));
}

#[test]
fn auth_apikey_query_is_injected() {
    let plugin = secured(
        r#"{ "type": "apiKey", "in": "query", "name": "api_key" }"#,
        "qsecret",
    );
    let sent = send(&plugin, "t", &json("{}"));
    assert_eq!(sent.out.url, "http://127.0.0.1:8080/thing?api_key=qsecret");
    assert!(sent.out.headers.is_empty());
}

#[test]
fn auth_basic_is_encoded_after_resolution() {
    let plugin = secured(r#"{ "type": "http", "scheme": "Basic" }"#, "user:${cred://vault/pw}");
    let sent = send(&plugin, "t", &json("{}"));
    // base64 of `user:tok-123`.
    assert_eq!(header(&sent.out, "Authorization"), Some("Basic dXNlcjp0b2stMTIz"));
}

#[test]
fn auth_unsupported_scheme_sends_nothing() {
    for scheme in [
        r#"{ "type": "mutualTLS" }"#,
        r#"{ "type": "apiKey", "in": "cookie", "name": "sid" }"#,
        r#"{ "type": "http", "scheme": "digest" }"#,
    ] {
        let plugin = secured(scheme, "secret123");
        let sent = send(&plugin, "t", &json("{}"));
        assert!(sent.out.headers.is_empty());
        assert_eq!(sent.out.url, "http://127.0.0.1:8080/thing");
    }
}

#[test]
fn auth_oauth_and_openid_are_bearer_tokens() {
    for scheme in [r#"{ "type": "oauth2" }"#, r#"{ "type": "openIdConnect" }"#] {
        let plugin = secured(scheme, "abc");
        let sent = send(&plugin, "t", &json("{}"));
        assert_eq!(header(&sent.out, "Authorization"), Some("Bearer abc"));
    }
}

#[test]
fn request_injected_cred_uri_is_never_resolved() {
    let document = r#"{
        "openapi": "3.0.3",
        "info": { "title": "Injected", "version": "1.0.0" },
        "security": [ { "scheme1": [] } ],
        "paths": { "/thing": { "get": {
            "operationId": "getThing",
            "parameters": [
                { "name": "X-Injected", "in": "header", "required": false,
                  "schema": { "type": "string" } },
                { "name": "X-Env", "in": "header", "required": false,
                  "schema": { "type": "string" } }
            ],
            "responses": { "200": { "description": "ok",
                "content": { "application/json": { "schema": { "type": "object" } } } } }
        } } },
        "components": { "securitySchemes": { "scheme1": { "type": "http", "scheme": "bearer" } } }
    }"#;
    let mut src = source("api", json(document), "http://127.0.0.1:8080");
    src.headers.insert("X-Op-Cred".to_owned(), "${cred://config/header-secret}".to_owned());
    src.auth.insert("scheme1".to_owned(), "${cred://oauth/api}".to_owned());
    let mut plugin = plugin_of(src);
    register(&mut plugin, "t", "api", "getThing");
    let args = json(
        r#"{ "X-Injected": "cred://static/db-password", "X-Env": "${env.SECRET}" }"#,
    );
    let sent = send(&plugin, "t", &args);
    assert_eq!(header(&sent.out, "Authorization"), Some("Bearer tok-123"));
    assert_eq!(header(&sent.out, "X-Op-Cred"), Some("tok-123"));
    assert_eq!(header(&sent.out, "X-Injected"), Some("cred://static/db-password"));
    assert_eq!(header(&sent.out, "X-Env"), Some("${env.SECRET}"));
    // A token that a caller writes is data, too.
    let smuggled = send(&plugin, "t", &json(r#"{ "X-Injected": "${cred://static/db}" }"#));
    assert_eq!(header(&smuggled.out, "X-Injected"), Some("${cred://static/db}"));
}

#[test]
fn only_the_operators_values_are_scanned() {
    let document = r#"{
        "security": [ { "s": [] } ],
        "paths": { "/t": { "get": { "operationId": "g",
            "parameters": [ { "name": "X-I", "in": "header" } ] } } },
        "components": { "securitySchemes": { "s": { "type": "http", "scheme": "bearer" } } }
    }"#;
    let mut src = source("api", json(document), "https://1.1.1.1");
    src.auth.insert("s".to_owned(), "${cred://o/a}".to_owned());
    src.auth.insert("unused".to_owned(), "${cred://o/unused}".to_owned());
    let mut plugin = plugin_of(src);
    register(&mut plugin, "t", "api", "g");
    let args = json(r#"{ "X-I": "${cred://x/y}" }"#);
    let (profile, src) = plugin.target("t").expect("target");
    let call = prepare_call(profile, src, &args).expect("prepared");
    let (headers, auth) = values_scanned(src, &call);
    assert_eq!(headers.len(), 0);
    assert_eq!(auth.pairs(), [("s".to_owned(), "${cred://o/a}".to_owned())]);
    let sent = send(&plugin, "t", &args);
    assert_eq!(sent.asked, Some(json(r#"{ "cred://o/a": "cred://o/a" }"#)));
    assert_eq!(sent.out.url, "https://1.1.1.1/t");
    assert_eq!(
        sent.out.headers,
        [
            ("Authorization".to_owned(), "Bearer tok-123".to_owned()),
            ("X-I".to_owned(), "${cred://x/y}".to_owned()),
        ]
    );
    // Other arguments ask for the same.
    assert_eq!(send(&plugin, "t", &json("{}")).asked, sent.asked);
}

#[test]
fn configured_credential_is_sent_over_a_parameter_of_its_name() {
    let document = r#"{
        "paths": { "/thing": { "get": { "operationId": "getThing", "parameters": [
            { "name": "X-Op-Cred", "in": "header", "schema": { "type": "string" } } ] } } }
    }"#;
    let mut src = source("api", json(document), "http://127.0.0.1:8080");
    src.headers.insert("X-Op-Cred".to_owned(), "key ${cred://config/secret}".to_owned());
    src.headers.insert("User-Agent".to_owned(), "mcpg-gateway".to_owned());
    let mut plugin = plugin_of(src);
    register(&mut plugin, "t", "api", "getThing");
    let sent = send(&plugin, "t", &json(r#"{ "X-Op-Cred": "mine" }"#));
    assert_eq!(header(&sent.out, "X-Op-Cred"), Some("key tok-123"));
    assert_eq!(header(&sent.out, "User-Agent"), Some("mcpg-gateway"));
}

fn exposed(expose: ExposeConfig, filter: FilterConfig, governance: Option<Json>) -> OpenapiBackendPlugin {
    let mut src = source("petstore", json(PETSTORE), "https://127.0.0.1");
    src.expose = Some(expose);
    src.filter = filter;
    src.governance = governance;
    plugin_of(src)
}

fn expose(reads_as_resource_templates: bool) -> ExposeConfig {
    ExposeConfig {
        tools: true,
        tool_prefix: Some("petstore.".to_owned()),
        reads_as_resource_templates,
        resource_uri_prefix: None,
    }
}

#[test]
fn expand_capabilities_produces_prefixed_tools_with_schemas() {
    let plugin = exposed(
        expose(false),
        FilterConfig::default(),
        Some(json(r#"{ "minimum_trust": "verified" }"#)),
    );
    let set = plugin.expand_capabilities().expect("expand");
    assert_eq!(set.tools.len(), 4);
    assert!(set.resource_templates.is_empty());
    let get_pet = set
        .tools
        .iter()
        .find(|t| t.name == "petstore.getPetById")
        .expect("getPetById exposed");
    assert_eq!(get_pet.backend_kind, "openapi");
    assert_eq!(
        get_pet.backend_spec,
        json(r#"{ "source": "petstore", "operation": "getPetById" }"#)
    );
    assert_eq!(
        get_pet.input_schema.pointer("/properties/petId/type").and_then(|v| v.as_str()),
        Some("integer")
    );
    assert_eq!(get_pet.input_schema.get("required"), Some(&json(r#"["petId"]"#)));
    assert_eq!(get_pet.governance, Some(json(r#"{ "minimum_trust": "verified" }"#)));
    assert_eq!(
        get_pet.meta,
        Some(json(
            r#"{ "openapi": { "source": "petstore", "operationId": "getPetById", "tags": [] } }"#
        ))
    );
    assert!(get_pet.title.is_none() && get_pet.annotations.is_none() && get_pet.retry.is_none());
    assert_eq!(get_pet.description, "");
}

#[test]
fn expand_capabilities_applies_method_and_operation_filters() {
    let filter = FilterConfig {
        methods: vec!["get".to_owned()],
        exclude_operations: vec!["ping".to_owned()],
        ..FilterConfig::default()
    };
    let plugin = exposed(expose(false), filter, None);
    let names: Vec<String> = plugin
        .expand_capabilities()
        .expect("expand")
        .tools
        .into_iter()
        .map(|t| t.name)
        .collect();
    assert!(names.contains(&"petstore.listPets".to_owned()));
    assert!(names.contains(&"petstore.getPetById".to_owned()));
    assert!(!names.iter().any(|n| n.contains("createPet")));
    assert!(!names.iter().any(|n| n.contains("ping")));
}

#[test]
fn expand_capabilities_reads_become_resource_templates() {
    let plugin = exposed(expose(true), FilterConfig::default(), None);
    let set = plugin.expand_capabilities().expect("expand");
    let tool_names: Vec<&str> = set.tools.iter().map(|t| t.name.as_str()).collect();
    assert!(tool_names.contains(&"petstore.listPets"));
    assert!(tool_names.contains(&"petstore.createPet"));
    assert!(
        !tool_names.iter().any(|n| n.contains("getPetById")),
        "read-by-id must not be a tool"
    );
    assert_eq!(set.resource_templates.len(), 1);
    let rt = &set.resource_templates[0];
    assert_eq!(rt.name, "petstore.getPetById");
    assert_eq!(rt.uri_template, "petstore://pets/{petId}");
    assert_eq!(rt.backend_kind, "openapi");
    assert_eq!(
        rt.backend_spec,
        json(r#"{ "source": "petstore", "operation": "getPetById" }"#)
    );
    assert!(rt.mime_type.is_none());
}

#[test]
fn expand_capabilities_takes_a_configured_uri_prefix() {
    let mut config = expose(true);
    config.resource_uri_prefix = Some("pets+api:".to_owned());
    let plugin = exposed(config, FilterConfig::default(), None);
    let set = plugin.expand_capabilities().expect("expand");
    assert_eq!(set.resource_templates[0].uri_template, "pets+api:pets/{petId}");
}

#[test]
fn execute_resource_read_returns_contents_shape() {
    let mut plugin = petstore("http://127.0.0.1:8080");
    register(&mut plugin, "get-pet", "petstore", "getPetById");
    let args = json(
        r#"{ "petId": 42, "uri": "petstore://pets/42", "template_vars": { "petId": "42" } }"#,
    );
    let body = answered(&plugin, "get-pet", &args, 200, r#"{"id":42,"name":"Rex"}"#);
    let contents = body.items_at("contents").expect("contents array");
    assert_eq!(contents.len(), 1);
    assert_eq!(contents[0].text_at("uri"), Some("petstore://pets/42"));
    assert_eq!(contents[0].text_at("mimeType"), Some("application/json"));
    let inner = json(contents[0].text_at("text").expect("text"));
    assert_eq!(inner, json(r#"{ "id": 42, "name": "Rex" }"#));
    // A failed read falls through to the envelope.
    let failed = answered(&plugin, "get-pet", &args, 404, "{}");
    assert!(failed.get("contents").is_none());
    assert_eq!(failed.pointer("/downstreamError/statusCode"), Some(&json("404")));
}

#[test]
fn expand_capabilities_enforces_max_capabilities_cap() {
    let filter = FilterConfig { max_capabilities: 1, ..FilterConfig::default() };
    let plugin = exposed(expose(true), filter, None);
    match plugin.expand_capabilities() {
        Err(BackendError::InvalidSpec { message }) => assert_eq!(
            message,
            "source 'petstore' exposes more than max_capabilities (1) operations; tighten the filter or raise the cap"
        ),
        other => panic!("cap must fail closed, got {other:?}"),
    }
    let at_cap = FilterConfig { max_capabilities: 4, ..FilterConfig::default() };
    assert!(exposed(expose(true), at_cap, None).expand_capabilities().is_ok());
}

#[test]
fn expand_capabilities_empty_without_expose() {
    let plugin = petstore("https://127.0.0.1");
    let set = plugin.expand_capabilities().expect("expand");
    assert!(set.tools.is_empty());
    assert!(set.resource_templates.is_empty());
    let mut off = expose(true);
    off.tools = false;
    let none = exposed(off, FilterConfig::default(), None);
    assert!(none.expand_capabilities().expect("expand").tools.is_empty());
}

#[test]
fn execute_maps_upstream_5xx_to_downstream_error() {
    let mut plugin = petstore("http://127.0.0.1:8080");
    register(&mut plugin, "ping", "petstore", "ping");
    let env = answered(&plugin, "ping", &json("{}"), 503, "");
    assert_eq!(env.pointer("/downstreamError/statusCode"), Some(&json("503")));
    assert_eq!(env.pointer("/downstreamError/retryable"), Some(&Json::Bool(true)));
    assert_eq!(
        env.pointer("/downstreamError/message").and_then(|v| v.as_str()),
        Some("upstream responded 503")
    );
}

#[test]
fn absent_config_block_is_recognised() {
    for block in ["", "  ", "null", " null\n"] {
        assert!(block_is_absent(block), "{block:?} is no configuration");
    }
    for block in ["{}", r#"{ "sources": [] }"#, "not json", "0"] {
        assert!(!block_is_absent(block), "{block:?} has to be read");
    }
    let list = PluginConfig::default().sources.into_iter().map(|s| (s, Err(String::new())));
    let plugin = OpenapiBackendPlugin::from_config(list.collect());
    assert_eq!(plugin.sources.len(), 0, "the defaults register no sources");
}

#[test]
fn several_schemes_are_all_sent() {
    let document = r#"{
        "security": [ { "a": [], "b": [], "c": [], "d": [], "e": [] } ],
        "paths": { "/thing": { "get": { "operationId": "getThing" } } },
        "components": { "securitySchemes": {
            "a": { "type": "apiKey", "in": "header", "name": "X-A" },
            "b": { "type": "apiKey", "in": "query", "name": "b" },
            "c": { "type": "http", "scheme": "bearer" },
            "d": { "type": "apiKey", "in": "query", "name": "d" },
            "e": { "type": "mutualTLS" } } }
    }"#;
    let mut src = source("api", json(document), "http://127.0.0.1:8080");
    for name in ["a", "b", "c", "d", "e", "unused"] {
        src.auth.insert(name.to_owned(), format!("secret {name}"));
    }
    let mut plugin = plugin_of(src.clone());
    register(&mut plugin, "t", "api", "getThing");
    let sent = send(&plugin, "t", &json("{}"));
    assert_eq!(header(&sent.out, "X-A"), Some("secret a"));
    assert_eq!(header(&sent.out, "Authorization"), Some("Bearer secret c"));
    assert_eq!(sent.out.headers.len(), 2);
    assert_eq!(sent.out.url, "http://127.0.0.1:8080/thing?b=secret+b&d=secret+d");
    // A source that cannot be read holds up no other.
    let mut broken = source("broken", Json::Null, "https://127.0.0.1");
    broken.expose = Some(expose(true));
    src.expose = Some(expose(true));
    let both = OpenapiBackendPlugin::from_config(vec![
        (broken, Err(String::new())),
        (src, Err(String::new())),
    ]);
    assert_eq!(both.expand_capabilities().expect("expand").tools.len(), 1);
}

#[test]
fn empty_source_rejected_as_invalid_spec() {
    let plugin = petstore("https://127.0.0.1");
    let message = bind_error(&plugin, "  ", "getPetById");
    assert!(message.contains("source"), "expected InvalidSpec mentioning source, got {message}");
    assert_eq!(message, "openapi binding spec: `source` must not be empty");
}

#[test]
fn empty_operation_rejected_as_invalid_spec() {
    let plugin = petstore("https://127.0.0.1");
    let message = bind_error(&plugin, "petstore", "");
    assert!(message.contains("operation"), "expected InvalidSpec mentioning operation");
    assert_eq!(message, "openapi binding spec: `operation` must not be empty");
}

#[test]
fn bad_operation_value_is_invalid_spec() {
    let plugin = petstore("https://127.0.0.1");
    let message = bind_error(&plugin, "petstore", "noSuchOp");
    assert_eq!(message, "source 'petstore': operationId 'noSuchOp' not found in spec");
}

#[test]
fn bare_cred_in_selector_is_rejected_not_honoured() {
    let plugin = petstore("https://127.0.0.1");
    let message = bind_error(&plugin, "petstore", "cred://issuer/target");
    assert_eq!(
        message,
        "source 'petstore': operationId 'cred://issuer/target' not found in spec"
    );
}

#[test]
fn insecure_base_url_is_refused_unless_allowed() {
    let mut src = source("petstore", json(PETSTORE), "http://127.0.0.1");
    src.upstream_safety = UpstreamSafety::default();
    let plugin = plugin_of(src);
    assert_eq!(
        bind_error(&plugin, "petstore", "ping"),
        "source 'petstore': insecure http base_url 'http://127.0.0.1' (set allow_insecure_http)"
    );
    assert!(petstore("http://127.0.0.1").bind(&binding("petstore", "ping")).is_ok());
}

#[test]
fn base_url_comes_from_config_or_first_server() {
    let document = r#"{ "servers": [ { "url": "https://api.example.com/v1" } ],
        "paths": { "/x": { "get": { "operationId": "x" } } } }"#;
    let mut src = source("s", json(document), "unused");
    src.base_url = None;
    let plugin = plugin_of(src);
    let profile = plugin.bind(&binding("s", "x")).expect("bound");
    assert_eq!(profile.base_url, "https://api.example.com/v1");

    let mut bare = source("s", json(r#"{ "paths": {} }"#), "unused");
    bare.base_url = None;
    assert_eq!(
        bind_error(&plugin_of(bare), "s", "x"),
        "source 's': no base_url configured and spec has no absolute servers[].url"
    );
}

#[test]
fn broken_documents_are_reported_when_bound() {
    let file = |uri: &str, held: Result<String, String>| {
        let mut src = source("s", Json::Null, "https://127.0.0.1");
        src.spec = SpecSource::Uri(uri.to_owned());
        OpenapiBackendPlugin::from_config(vec![(src, held)])
    };
    assert_eq!(
        bind_error(&file("file:///x.yaml", Err("No such file".to_owned())), "s", "x"),
        "source 's' spec failed to load: reading spec '/x.yaml': No such file"
    );
    assert_eq!(
        bind_error(&file("https://example.com/x.json", Err(String::new())), "s", "x"),
        "source 's' spec failed to load: remote spec sources are not yet supported (deferred to a later phase): 'https://example.com/x.json'"
    );
    assert_eq!(
        bind_error(&file("ftp://x", Err(String::new())), "s", "x"),
        "source 's' spec failed to load: unsupported spec source scheme: 'ftp://x'"
    );
    assert_eq!(
        bind_error(&file("file:///x.yaml", Ok("- a\n- b\n".to_owned())), "s", "x"),
        "source 's' spec failed to load: spec document root is not a JSON/YAML object"
    );
    let unreadable = bind_error(&file("file:///x.yaml", Ok("a: [".to_owned())), "s", "x");
    assert!(unreadable.starts_with("source 's' spec failed to load: parsing spec '/x.yaml': "));
    assert_eq!(
        bind_error(&file("file:///x.yaml", Ok("openapi: 3.0.3\n".to_owned())), "s", "x"),
        "source 's': spec has no `paths` object"
    );
    let yaml = "openapi: 3.0.3\npaths:\n  /x:\n    get:\n      operationId: x\n";
    let plugin = file("file:///x.yaml", Ok(yaml.to_owned()));
    assert_eq!(plugin.bind(&binding("s", "x")).expect("bound").plan.path_template, "/x");
    // A source that cannot be read exposes nothing, and the others are not held up.
    assert!(file("ftp://x", Err(String::new())).expand_capabilities().is_ok());
}

#[test]
fn later_source_of_a_name_stands() {
    let first = source("s", json(r#"{ "paths": {} }"#), "https://one.example");
    let second = source("s", json(PETSTORE), "https://two.example");
    let plugin = OpenapiBackendPlugin::from_config(vec![
        (first, Err(String::new())),
        (second, Err(String::new())),
    ]);
    assert_eq!(plugin.sources.len(), 1);
    assert_eq!(
        plugin.bind(&binding("s", "ping")).expect("bound").base_url,
        "https://two.example"
    );
}

#[test]
fn profiles_are_found_by_name_and_audited() {
    let mut plugin = petstore("https://127.0.0.1");
    assert!(plugin.input_schema("ping").is_none());
    assert!(plugin.output_schema("ping").is_none());
    match plugin.target("ping") {
        Err(BackendError::ProfileNotFound { backend_name }) => assert_eq!(backend_name, "ping"),
        _ => panic!("no profile yet"),
    }
    let before = plugin.audit_metadata("ping");
    assert_eq!(
        Json::from_members(before),
        json(r#"{ "openapi.transport": "plugin" }"#)
    );
    register(&mut plugin, "ping", "petstore", "ping");
    register(&mut plugin, "list", "petstore", "listPets");
    assert_eq!(
        Json::from_members(plugin.audit_metadata("ping")),
        json(
            r#"{ "openapi.transport": "plugin", "openapi.source": "petstore", "openapi.operation_id": "ping" }"#
        )
    );
    assert_eq!(plugin.kind(), "openapi");
    register(&mut plugin, "ping", "petstore", "createPet");
    assert_eq!(plugin.profile("ping").expect("profile").plan.operation_id, "createPet");
    assert_eq!(plugin.profile("list").expect("profile").plan.operation_id, "listPets");
}

#[test]
fn client_profile_names_an_unknown_source() {
    let plugin = petstore("https://127.0.0.1");
    let known = plugin.client_profile("petstore", "https://127.0.0.1").expect("known");
    assert_eq!(known.max_response_bytes, 1_048_576);
    assert_eq!(known.timeout_ms, 8_000);
    assert!(known.allow_private_backends);
    match plugin.client_profile("nope", "https://127.0.0.1") {
        Err(BackendError::ProfileNotFound { backend_name }) => assert_eq!(backend_name, "nope"),
        other => panic!("unknown source, got {other:?}"),
    }
}

#[test]
fn dot_argument_is_an_invalid_call() {
    let mut plugin = petstore("https://127.0.0.1");
    register(&mut plugin, "get-pet", "petstore", "getPetById");
    let (profile, src) = plugin.target("get-pet").expect("target");
    match prepare_call(profile, src, &json(r#"{ "petId": ".." }"#)) {
        Err(BackendError::InvalidSpec { message }) => {
            assert_eq!(message, "path parameter `petId` must not consist only of dots")
        }
        other => panic!("dots must be refused, got {other:?}"),
    }
}

#[test]
fn invalid_base_url_is_an_invalid_call() {
    let mut plugin = petstore("not a url");
    register(&mut plugin, "ping", "petstore", "ping");
    let (profile, src) = plugin.target("ping").expect("target");
    let call = prepare_call(profile, src, &json("{}")).expect("prepared");
    assert!(matches!(address_call_within_limits(profile, src, &call), Some(Err(_))));
    match address_call(profile, src, &call) {
        Err(BackendError::InvalidSpec { message }) => assert_eq!(
            message,
            "invalid base_url 'not a url': relative URL without a base"
        ),
        other => panic!("base url cannot be used, got {other:?}"),
    }
}

#[test]
fn arguments_and_tool_name_are_read_leniently() {
    assert_eq!(read_arguments(b""), json("{}"));
    assert_eq!(read_arguments(b"not json"), json("{}"));
    assert_eq!(read_arguments(br#"{ "a": [1, 2] }"#), json(r#"{ "a": [1, 2] }"#));
    let headers = vec![
        ("X-Other".to_owned(), "no".to_owned()),
        ("MCPG-Tool-Name".to_owned(), "petstore.get".to_owned()),
        ("mcpg-tool-name".to_owned(), "second".to_owned()),
    ];
    assert_eq!(tool_name(&headers, "profile"), "petstore.get");
    assert_eq!(tool_name(&vec![], "profile"), "profile");
}

#[test]
fn missing_host_is_an_error_only_where_it_is_needed() {
    let mut tokens: TextMap<Vec<String>> = TextMap::new();
    tokens.insert("X-Plain".to_owned(), vec![]);
    assert_eq!(credential_request(&tokens, &TextMap::new(), false), Ok(None));
    tokens.insert("X-Key".to_owned(), vec!["cred://b/x".to_owned(), "cred://a/y".to_owned()]);
    assert_eq!(
        credential_request(&tokens, &TextMap::new(), false),
        Err(BackendError::InvalidSpec { message: "host handle unavailable".to_owned() })
    );
    let mut auth: TextMap<Vec<String>> = TextMap::new();
    auth.insert("scheme1".to_owned(), vec!["cred://b/x".to_owned()]);
    let asked = credential_request(&tokens, &auth, true).expect("host").expect("asked");
    assert_eq!(asked, json(r#"{ "cred://a/y": "cred://a/y", "cred://b/x": "cred://b/x" }"#));
}

#[test]
fn lost_connection_is_a_transport_error() {
    let mut plugin = petstore("https://127.0.0.1");
    register(&mut plugin, "ping", "petstore", "ping");
    let args = json("{}");
    let sent = send(&plugin, "ping", &args);
    let outcome: Result<HttpOutcome, String> = Err("transport error: refused".to_owned());
    let r = build_response(&args, "tool", "ping", &sent.call.prepared, &sent.out.url, &outcome);
    assert!(!r.truncated);
    assert_eq!(
        Json::read_bytes(&r.payload),
        Some(json(
            r#"{
                "toolName": "tool", "profile": "ping",
                "request": { "method": "GET", "url": "https://127.0.0.1/ping", "query": [], "body": null },
                "response": null, "error": "transport error: refused",
                "downstreamError": { "kind": "transport_error",
                    "message": "transport error: refused", "retryable": true }
            }"#
        ))
    );
}
