use greentic_runner::cbor::{cbor_decode, cbor_encode};
use greentic_runner::gtbind::{GtBindFile, PackBinding, TenantBindings};
use greentic_runner::introspection::{compute_contract_hashes, introspect_component_contract};
use greentic_runner::jsonval::JsonValue;
use greentic_runner::operator::{
    check_pack_pinning, check_selector, check_tenant, decode_request_payload, merge_input_with_attachments,
    normalize_operation_id, normalize_sha256_hash, preflight_schema_hash, resolve_error_response,
    secret_of_metadata, validation_options_from_flags, Diagnostic, DiagnosticSeverity,
    OperatorErrorCode, OperatorResponse, OperatorStatus,
};
use greentic_runner::registry::{
    OperatorProviderMetadata, OperatorRegistry, OperatorResolveError, PackProviders,
    ProviderRuntimeRef,
};
use greentic_runner::schema_validator::validate_json_instance;
use greentic_runner::templating::{
    extract_exact_expression, parse_path_expression, resolve_path, PathSegment,
};

fn obj(fields: Vec<(&str, JsonValue)>) -> JsonValue {
    JsonValue::Object(
        fields.into_iter().map(|(k, v)| (k.to_string(), v)).collect(),
    )
}

fn text(s: &str) -> JsonValue {
    JsonValue::Text(s.to_string())
}

fn string_schema() -> JsonValue {
    obj(vec![
        ("type", text("object")),
        ("required", JsonValue::Array(vec![text("message")])),
        (
            "properties",
            obj(vec![("message", obj(vec![("type", text("string"))]))]),
        ),
        ("additionalProperties", JsonValue::Bool(false)),
    ])
}

#[test]
fn merge_input_with_attachments_preserves_map_fields() {
    let attachments = vec![("secret".to_string(), text("value"))];
    let input = obj(vec![("foo", text("bar"))]);
    let merged = merge_input_with_attachments(input, attachments);
    match &merged {
        JsonValue::Object(fields) => {
            assert!(matches!(&fields[0], (k, JsonValue::Text(v)) if k == "foo" && v == "bar"));
            assert!(matches!(&fields[1], (k, JsonValue::Object(_)) if k == "_attachments"));
        }
        _ => panic!("should be object"),
    }
}

#[test]
fn merge_input_with_attachments_wraps_scalar() {
    let attachments = vec![("secret".to_string(), text("value"))];
    let merged = merge_input_with_attachments(text("text"), attachments);
    match &merged {
        JsonValue::Object(fields) => {
            assert!(matches!(&fields[0], (k, JsonValue::Text(v)) if k == "input" && v == "text"));
            assert!(matches!(&fields[1], (k, JsonValue::Object(_)) if k == "_attachments"));
        }
        _ => panic!("should be object"),
    }
}

#[test]
fn attachment_kind_secret_requires_type_lock() {
    let metadata = obj(vec![("type", text("secret")), ("key", text("TOKEN"))]);
    match secret_of_metadata(&Some(metadata)) {
        Some(req) => {
            assert_eq!(req.key, "TOKEN");
            assert_eq!(req.alias, "TOKEN");
        }
        None => panic!("expected secret attachment"),
    }
}

#[test]
fn attachment_kind_secret_with_alias() {
    let metadata = obj(vec![
        ("type", text("secret")),
        ("key", text("TOKEN")),
        ("alias", text("api_token")),
    ]);
    match secret_of_metadata(&Some(metadata)) {
        Some(req) => {
            assert_eq!(req.key, "TOKEN");
            assert_eq!(req.alias, "api_token");
        }
        None => panic!("expected secret attachment"),
    }
}

#[test]
fn error_with_diagnostics_encodes_details_cbor() {
    let diagnostics = vec![Diagnostic {
        code: "op_not_found".to_string(),
        path: "/op_id".to_string(),
        severity: DiagnosticSeverity::Error,
        message_key: "runner.operator.op_not_found".to_string(),
        fallback: "op `echo` not found".to_string(),
        message: "op `echo` not found".to_string(),
        hint: None,
        component_id: Some("provider.demo".to_string()),
        digest: Some("sha256:abc123".to_string()),
        operation_id: Some("echo".to_string()),
    }];

    let response = OperatorResponse::error_with_diagnostics(
        OperatorErrorCode::OpNotFound,
        "op not found".to_string(),
        diagnostics,
    );
    let details = response
        .error
        .as_ref()
        .and_then(|err| err.details_cbor.as_ref())
        .expect("details_cbor must exist");
    let decoded: serde_cbor::Value =
        serde_cbor::from_slice(details).expect("diagnostics should decode");
    let serde_cbor::Value::Array(items) = decoded else {
        panic!("expected array of diagnostics");
    };
    assert_eq!(items.len(), 1);
    let serde_cbor::Value::Map(map) = &items[0] else {
        panic!("expected diagnostic map");
    };
    let get = |k: &str| {
        map.get(&serde_cbor::Value::Text(k.to_string()))
            .cloned()
            .expect("field present")
    };
    assert_eq!(get("code"), serde_cbor::Value::Text("op_not_found".into()));
    assert_eq!(get("path"), serde_cbor::Value::Text("/op_id".into()));
    assert_eq!(get("severity"), serde_cbor::Value::Text("error".into()));
    assert_eq!(
        get("message_key"),
        serde_cbor::Value::Text("runner.operator.op_not_found".into())
    );
    assert_eq!(
        get("component_id"),
        serde_cbor::Value::Text("provider.demo".into())
    );
    assert_eq!(
        get("digest"),
        serde_cbor::Value::Text("sha256:abc123".into())
    );
    assert_eq!(get("operation_id"), serde_cbor::Value::Text("echo".into()));
}

#[test]
fn details_cbor_is_deterministic() {
    let diag = || Diagnostic {
        code: "op_not_found".to_string(),
        path: "/op_id".to_string(),
        severity: DiagnosticSeverity::Error,
        message_key: "runner.operator.op_not_found".to_string(),
        fallback: "op not found".to_string(),
        message: "operation not found".to_string(),
        hint: None,
        component_id: None,
        digest: None,
        operation_id: Some("echo".to_string()),
    };
    let a = OperatorResponse::error_with_diagnostics(
        OperatorErrorCode::OpNotFound,
        "op not found".to_string(),
        vec![diag()],
    );
    let b = OperatorResponse::error_with_diagnostics(
        OperatorErrorCode::OpNotFound,
        "op not found".to_string(),
        vec![diag()],
    );
    assert_eq!(
        a.error.unwrap().details_cbor.unwrap(),
        b.error.unwrap().details_cbor.unwrap()
    );
}

#[test]
fn validation_options_default_to_strict_with_output_validation() {
    let options = validation_options_from_flags(&vec![]);
    assert!(options.validate_output);
    assert!(options.strict);
}

#[test]
fn validation_options_apply_known_flags() {
    let options = validation_options_from_flags(&vec![
        "skip-output-validate".to_string(),
        "permissive-schema".to_string(),
    ]);
    assert!(!options.validate_output);
    assert!(!options.strict);
}

#[test]
fn normalize_operation_defaults_to_run_when_blank() {
    assert_eq!(normalize_operation_id(""), "run");
    assert_eq!(normalize_operation_id("   "), "run");
    assert_eq!(normalize_operation_id("render"), "render");
}

#[test]
fn compute_contract_hashes_is_deterministic() {
    let input_schema = obj(vec![
        ("type", text("object")),
        (
            "properties",
            obj(vec![("message", obj(vec![("type", text("string"))]))]),
        ),
    ]);
    let output_schema = obj(vec![
        ("type", text("object")),
        (
            "properties",
            obj(vec![("result", obj(vec![("type", text("string"))]))]),
        ),
    ]);
    let one = compute_contract_hashes(
        "sha256:abc",
        "provider.dummy",
        "echo",
        "greentic:provider-core@1.0.0",
        "provider-core",
        &input_schema,
        &output_schema,
        &input_schema,
        Some("schemas/state.schema.json"),
        "operator.provider@0.1.0",
    );
    let two = compute_contract_hashes(
        "sha256:abc",
        "provider.dummy",
        "echo",
        "greentic:provider-core@1.0.0",
        "provider-core",
        &input_schema,
        &output_schema,
        &input_schema,
        Some("schemas/state.schema.json"),
        "operator.provider@0.1.0",
    );
    assert_eq!(one, two);
}

#[test]
fn permuting_schema_keys_keeps_hashes() {
    let schema_a = obj(vec![
        ("type", text("object")),
        (
            "properties",
            obj(vec![("message", obj(vec![("type", text("string"))]))]),
        ),
    ]);
    let schema_b = obj(vec![
        (
            "properties",
            obj(vec![("message", obj(vec![("type", text("string"))]))]),
        ),
        ("type", text("object")),
    ]);
    let mk = |schema: &JsonValue| {
        compute_contract_hashes(
            "sha256:abc",
            "provider.dummy",
            "echo",
            "greentic:provider-core@1.0.0",
            "provider-core",
            schema,
            &JsonValue::Null,
            &JsonValue::Null,
            None,
            "operator.provider@0.1.0",
        )
    };
    assert_eq!(mk(&schema_a), mk(&schema_b));

    // keys permuted at a nested level only
    let schema_c = obj(vec![
        ("type", text("object")),
        (
            "properties",
            obj(vec![(
                "message",
                obj(vec![("type", text("string")), ("minLength", text("1"))]),
            )]),
        ),
    ]);
    let schema_d = obj(vec![
        ("type", text("object")),
        (
            "properties",
            obj(vec![(
                "message",
                obj(vec![("minLength", text("1")), ("type", text("string"))]),
            )]),
        ),
    ]);
    assert_eq!(mk(&schema_c), mk(&schema_d));
}

#[test]
fn strict_mode_rejects_unsupported_constraints() {
    let schema = obj(vec![
        ("type", text("object")),
        (
            "properties",
            obj(vec![(
                "id",
                obj(vec![("type", text("string")), ("pattern", text("^[a-z]+$"))]),
            )]),
        ),
    ]);
    let instance = obj(vec![("id", text("abc"))]);
    let issues = validate_json_instance(&schema, &instance, true);
    assert_eq!(issues.len(), 1);
    assert_eq!(issues[0].code, "unsupported_schema_constraint");
    // the permissive mode lets the same request through
    let issues = validate_json_instance(&schema, &instance, false);
    assert!(issues.is_empty());
}

#[test]
fn valid_instance_returns_no_issues() {
    let issues = validate_json_instance(&string_schema(), &obj(vec![("message", text("ok"))]), true);
    assert!(issues.is_empty());
}

#[test]
fn invalid_instance_reports_schema_issue() {
    let instance = obj(vec![("message", JsonValue::Int(42))]);
    let issues = validate_json_instance(&string_schema(), &instance, true);
    assert!(!issues.is_empty());
    assert_eq!(issues[0].code, "schema_validation");
    assert_eq!(issues[0].path, "/message");
}

fn demo_registry() -> OperatorRegistry {
    let packs = vec![PackProviders {
        pack_id: "operator.provider".to_string(),
        version: "0.1.0".to_string(),
        digest: Some("sha256:abc".to_string()),
        providers: vec![OperatorProviderMetadata {
            provider_id: None,
            provider_type: "example.dummy".to_string(),
            capabilities: vec![],
            ops: vec!["echo".to_string()],
            config_schema_ref: None,
            state_schema_ref: None,
            runtime: ProviderRuntimeRef {
                component_ref: "component.demo".to_string(),
                export: "provider-core".to_string(),
                world: "greentic:provider-core@1.0.0".to_string(),
            },
            docs_ref: None,
            pack_ref: None,
        }],
    }];
    OperatorRegistry::build(&packs)
}

#[test]
fn registry_resolves_declared_op() {
    let registry = demo_registry();
    let binding = registry
        .resolve(None, Some("example.dummy"), "echo")
        .expect("resolves");
    assert_eq!(binding.provider_type, "example.dummy");
    assert_eq!(binding.pack_ref, "operator.provider@0.1.0");
    assert_eq!(binding.runtime.component_ref, "component.demo");
}

#[test]
fn unknown_op_reports_op_not_found() {
    let registry = demo_registry();
    let err = registry
        .resolve(None, Some("example.dummy"), "unknown")
        .expect_err("unknown op");
    assert_eq!(err, OperatorResolveError::OpNotFound);
    let response = resolve_error_response(err, None, Some("example.dummy"), "unknown", None, "en");
    let error = response.error.expect("error");
    assert!(matches!(error.code, OperatorErrorCode::OpNotFound));
    let decoded: serde_cbor::Value =
        serde_cbor::from_slice(&error.details_cbor.expect("details")).expect("decodes");
    let serde_cbor::Value::Array(items) = decoded else {
        panic!("array expected");
    };
    let serde_cbor::Value::Map(map) = &items[0] else {
        panic!("map expected");
    };
    let get = |k: &str| map.get(&serde_cbor::Value::Text(k.to_string())).cloned().unwrap();
    assert_eq!(get("code"), serde_cbor::Value::Text("op_not_found".into()));
    assert_eq!(get("path"), serde_cbor::Value::Text("/op_id".into()));
    assert_eq!(
        get("message_key"),
        serde_cbor::Value::Text("runner.operator.op_not_found".into())
    );
    assert_eq!(get("operation_id"), serde_cbor::Value::Text("unknown".into()));
}

#[test]
fn unknown_provider_reports_provider_not_found() {
    let registry = demo_registry();
    let err = registry
        .resolve(None, Some("example.absent"), "echo")
        .expect_err("unknown provider");
    assert_eq!(err, OperatorResolveError::ProviderNotFound);
}

#[test]
fn schema_hash_mismatch_is_refused() {
    let response = preflight_schema_hash(
        Some("sha256:deadbeef"),
        Some("sha256:abc123"),
        "echo",
        "component.demo",
        "sha256:abc",
        "en",
    )
    .expect("mismatch");
    let error = response.error.expect("error");
    assert!(matches!(error.code, OperatorErrorCode::TypeMismatch));
    let decoded: serde_cbor::Value =
        serde_cbor::from_slice(&error.details_cbor.expect("details")).expect("decodes");
    let serde_cbor::Value::Array(items) = decoded else {
        panic!("array expected");
    };
    let serde_cbor::Value::Map(map) = &items[0] else {
        panic!("map expected");
    };
    let get = |k: &str| map.get(&serde_cbor::Value::Text(k.to_string())).cloned().unwrap();
    assert_eq!(
        get("code"),
        serde_cbor::Value::Text("schema_hash_mismatch".into())
    );
    assert_eq!(get("path"), serde_cbor::Value::Text("/schema_hash".into()));
    // equal hashes pass, with or without the prefix spelled out
    assert!(preflight_schema_hash(
        Some("abc123"),
        Some("sha256:abc123"),
        "echo",
        "component.demo",
        "sha256:abc",
        "en"
    )
    .is_none());
}

#[test]
fn tenant_and_selector_gates_fire() {
    let r = check_tenant(Some("other"), "acme", "echo", None, "en").expect("mismatch");
    assert!(matches!(r.status, OperatorStatus::Error));
    assert!(check_tenant(Some("acme"), "acme", "echo", None, "en").is_none());
    assert!(check_tenant(None, "acme", "echo", None, "en").is_none());

    let r = check_selector(None, None, "echo", None, "en").expect("missing selector");
    assert!(matches!(
        r.error.unwrap().code,
        OperatorErrorCode::InvalidRequest
    ));
    assert!(check_selector(Some("p"), None, "echo", None, "en").is_none());
}

#[test]
fn pack_pinning_compares_the_id_before_the_version() {
    assert!(check_pack_pinning(Some("operator.provider"), "operator.provider@0.1.0").is_none());
    let r = check_pack_pinning(Some("other.pack"), "operator.provider@0.1.0").expect("mismatch");
    assert!(matches!(r.error.unwrap().code, OperatorErrorCode::PolicyDenied));
}

#[test]
fn normalize_sha256_hash_adds_the_prefix_once() {
    assert_eq!(normalize_sha256_hash("abc"), "sha256:abc");
    assert_eq!(normalize_sha256_hash(" sha256:abc "), "sha256:abc");
}

#[test]
fn cbor_roundtrip_matches_serde_cbor() {
    let value = obj(vec![
        ("message", text("ping")),
        ("count", JsonValue::UInt(3)),
        ("flag", JsonValue::Bool(true)),
        ("nothing", JsonValue::Null),
        ("neg", JsonValue::Int(-42)),
        (
            "items",
            JsonValue::Array(vec![JsonValue::UInt(1), JsonValue::UInt(2)]),
        ),
    ]);
    let encoded = cbor_encode(&value);
    // the library's bytes decode through serde_cbor to the same tree
    let decoded: serde_cbor::Value = serde_cbor::from_slice(&encoded).expect("serde decodes ours");
    let serde_cbor::Value::Map(map) = decoded else {
        panic!("expected map");
    };
    assert_eq!(
        map.get(&serde_cbor::Value::Text("message".into())),
        Some(&serde_cbor::Value::Text("ping".into()))
    );
    assert_eq!(
        map.get(&serde_cbor::Value::Text("count".into())),
        Some(&serde_cbor::Value::Integer(3))
    );
    assert_eq!(
        map.get(&serde_cbor::Value::Text("neg".into())),
        Some(&serde_cbor::Value::Integer(-42))
    );
    // and the library decodes its own bytes back to the same value
    let back = cbor_decode(&encoded).expect("decodes");
    let reencoded = cbor_encode(&back);
    assert_eq!(encoded, reencoded);
}

#[test]
fn cbor_decode_accepts_serde_cbor_payloads() {
    let payload = serde_cbor::to_vec(&serde_cbor::Value::Map(
        [(
            serde_cbor::Value::Text("message".into()),
            serde_cbor::Value::Text("ping".into()),
        )]
        .into_iter()
        .collect(),
    ))
    .expect("encode");
    let decoded = cbor_decode(&payload).expect("decode");
    match decoded.get_field("message") {
        Some(JsonValue::Text(s)) => assert_eq!(s, "ping"),
        _ => panic!("expected message field"),
    }
}

#[test]
fn empty_payload_decodes_to_null() {
    let decoded = decode_request_payload(&vec![]).expect("empty decodes");
    assert!(decoded.is_null());
}

#[test]
fn gtbind_merge_is_additive_and_conflicts_are_fatal() {
    let mut tenant = TenantBindings::new("acme".to_string());
    tenant
        .merge_pack(PackBinding {
            pack_id: "demo".to_string(),
            pack_ref: "demo@1.0.0".to_string(),
            pack_locator: None,
            flows: vec!["b".to_string(), "a".to_string()],
        })
        .expect("first merge");
    tenant
        .merge_pack(PackBinding {
            pack_id: "demo".to_string(),
            pack_ref: "demo@1.0.0".to_string(),
            pack_locator: Some("fs://packs/demo".to_string()),
            flows: vec!["c".to_string(), "a".to_string()],
        })
        .expect("second merge");
    assert_eq!(tenant.packs.len(), 1);
    assert_eq!(tenant.packs[0].flows, vec!["a", "b", "c"]);
    assert_eq!(
        tenant.packs[0].pack_locator.as_deref(),
        Some("fs://packs/demo")
    );
    let err = tenant
        .merge_pack(PackBinding {
            pack_id: "demo".to_string(),
            pack_ref: "demo@2.0.0".to_string(),
            pack_locator: None,
            flows: vec![],
        })
        .expect_err("pack_ref conflict");
    assert!(err.contains("pack_ref mismatch"));
}

#[test]
fn gtbind_file_check_requires_identities() {
    let file = GtBindFile {
        tenant: " ".to_string(),
        pack_id: "demo".to_string(),
        pack_ref: "demo@1.0.0".to_string(),
        pack_locator: None,
        flows: vec![],
        env_passthrough: vec![],
    };
    assert!(greentic_runner::gtbind::check_gtbind_file(&file).is_err());
}

#[test]
fn path_expressions_parse_and_resolve() {
    let ctx = obj(vec![
        ("prev", obj(vec![("text", text("hello"))])),
        (
            "node",
            obj(vec![(
                "start",
                obj(vec![("user", obj(vec![("id", JsonValue::UInt(7))]))]),
            )]),
        ),
        (
            "items",
            JsonValue::Array(vec![text("zero"), text("one")]),
        ),
    ]);
    let path = parse_path_expression("prev.text").expect("parses");
    match resolve_path(&ctx, &path) {
        Some(JsonValue::Text(s)) => assert_eq!(s, "hello"),
        _ => panic!("expected text"),
    }
    let path = parse_path_expression("node.start.user.id").expect("parses");
    assert!(matches!(resolve_path(&ctx, &path), Some(JsonValue::UInt(7))));
    let path = parse_path_expression("this.items[1]").expect("parses");
    match resolve_path(&ctx, &path) {
        Some(JsonValue::Text(s)) => assert_eq!(s, "one"),
        _ => panic!("expected text"),
    }
    let path = parse_path_expression("items['0']").expect("parses");
    assert!(matches!(&path[1], PathSegment::Key(k) if k == "0"));
    assert!(parse_path_expression("").is_none());
    assert!(parse_path_expression("a[").is_none());
}

#[test]
fn exact_expressions_are_recognized() {
    assert_eq!(
        extract_exact_expression("{{prev.text}}").as_deref(),
        Some("prev.text")
    );
    assert_eq!(
        extract_exact_expression("  {{ entry.count }}  ").as_deref(),
        Some("entry.count")
    );
    assert!(extract_exact_expression("https://x/{{entry.user_id}}").is_none());
    assert!(extract_exact_expression("{{}}").is_none());
    assert!(extract_exact_expression("plain").is_none());
}

#[test]
fn describe_selection_scans_all_entries() {
    // requested operation found past an earlier named entry
    let payload = obj(vec![(
        "operations",
        JsonValue::Array(vec![
            obj(vec![("id", text("alpha"))]),
            obj(vec![("id", text("echo"))]),
        ]),
    )]);
    let contract = introspect_component_contract(
        "greentic:component@0.6.0",
        Some(&payload),
        "component.demo",
        "echo",
    )
    .expect("introspects")
    .expect("0.6 world");
    assert_eq!(contract.selected_operation, "echo");

    // the run fallback is also found by scanning
    let payload = obj(vec![(
        "operations",
        JsonValue::Array(vec![
            obj(vec![("id", text("alpha"))]),
            obj(vec![("id", text("run"))]),
        ]),
    )]);
    let contract = introspect_component_contract(
        "greentic:component@0.6.0",
        Some(&payload),
        "component.demo",
        "absent",
    )
    .expect("introspects")
    .expect("0.6 world");
    assert_eq!(contract.selected_operation, "run");

    // with neither, the first entry's name decides
    let payload = obj(vec![(
        "operations",
        JsonValue::Array(vec![
            obj(vec![("id", text("alpha"))]),
            obj(vec![("id", text("beta"))]),
        ]),
    )]);
    let contract = introspect_component_contract(
        "greentic:component@0.6.0",
        Some(&payload),
        "component.demo",
        "absent",
    )
    .expect("introspects")
    .expect("0.6 world");
    assert_eq!(contract.selected_operation, "alpha");

    // a component of another world reports nothing
    assert!(introspect_component_contract("greentic:component@0.4.0", None, "c", "echo")
        .expect("ok")
        .is_none());
}

#[test]
fn schemas_with_references_are_detected() {
    let with_ref = obj(vec![("$ref", text("http://example.test/schema.json"))]);
    assert!(!greentic_runner::schema_validator::schema_ref_free(&with_ref));
    assert!(greentic_runner::schema_validator::schema_ref_free(&string_schema()));
}
