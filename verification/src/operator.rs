use vstd::prelude::*;

use crate::cbor::{cbor_encode, enc};
use crate::i18n::{resolve_message, spec_resolve_message};
use crate::jsonval::{jv_get, JVal, JsonValue};
use crate::strutil::{
    char_split, has_prefix, lower_char, starts_with, str_eq, trim, trim_spec,
};

verus! {

/// Operator-facing invocation request, decoded from the wire envelope.
#[derive(Debug)]
pub struct OperatorRequest {
    pub tenant_id: Option<String>,
    pub provider_id: Option<String>,
    pub provider_type: Option<String>,
    pub pack_id: Option<String>,
    pub op_id: String,
    pub trace_id: Option<String>,
    pub correlation_id: Option<String>,
    pub timeout: Option<u64>,
    pub flags: Vec<String>,
    pub op_version: Option<String>,
    pub schema_hash: Option<String>,
    pub locale: Option<String>,
    pub payload: OperatorPayload,
}

/// The binary payload and its attachments.
#[derive(Debug)]
pub struct OperatorPayload {
    pub cbor_input: Vec<u8>,
    pub attachments: Vec<AttachmentRef>,
}

/// One attachment reference with optional metadata.
#[derive(Debug)]
pub struct AttachmentRef {
    pub id: String,
    pub metadata: Option<JsonValue>,
}

#[derive(Debug, PartialEq, Eq, Structural)]
pub enum OperatorStatus {
    Okay,
    Error,
}

#[derive(Debug, PartialEq, Eq, Structural)]
pub enum DiagnosticSeverity {
    Error,
    Warning,
    Info,
}

/// One structured finding carried inside an error response.
#[derive(Debug)]
pub struct Diagnostic {
    pub code: String,
    pub path: String,
    pub severity: DiagnosticSeverity,
    pub message_key: String,
    pub fallback: String,
    pub message: String,
    pub hint: Option<String>,
    pub component_id: Option<String>,
    pub digest: Option<String>,
    pub operation_id: Option<String>,
}

#[derive(Debug, Clone, Copy, PartialEq, Eq, Structural)]
pub enum OperatorErrorCode {
    OpNotFound,
    ProviderNotFound,
    TenantNotAllowed,
    InvalidRequest,
    CborDecode,
    TypeMismatch,
    ComponentLoad,
    InvokeTrap,
    Timeout,
    PolicyDenied,
    HostFailure,
}

/// The wire spelling of an error code.
pub open spec fn code_str(c: OperatorErrorCode) -> Seq<char> {
    match c {
        OperatorErrorCode::OpNotFound => "OP_NOT_FOUND"@,
        OperatorErrorCode::ProviderNotFound => "PROVIDER_NOT_FOUND"@,
        OperatorErrorCode::TenantNotAllowed => "TENANT_NOT_ALLOWED"@,
        OperatorErrorCode::InvalidRequest => "INVALID_REQUEST"@,
        OperatorErrorCode::CborDecode => "CBOR_DECODE"@,
        OperatorErrorCode::TypeMismatch => "TYPE_MISMATCH"@,
        OperatorErrorCode::ComponentLoad => "COMPONENT_LOAD"@,
        OperatorErrorCode::InvokeTrap => "INVOKE_TRAP"@,
        OperatorErrorCode::Timeout => "TIMEOUT"@,
        OperatorErrorCode::PolicyDenied => "POLICY_DENIED"@,
        OperatorErrorCode::HostFailure => "HOST_FAILURE"@,
    }
}

fn code_str_exec(c: OperatorErrorCode) -> (r: &'static str)
    ensures
        r@ == code_str(c),
{
    match c {
        OperatorErrorCode::OpNotFound => "OP_NOT_FOUND",
        OperatorErrorCode::ProviderNotFound => "PROVIDER_NOT_FOUND",
        OperatorErrorCode::TenantNotAllowed => "TENANT_NOT_ALLOWED",
        OperatorErrorCode::InvalidRequest => "INVALID_REQUEST",
        OperatorErrorCode::CborDecode => "CBOR_DECODE",
        OperatorErrorCode::TypeMismatch => "TYPE_MISMATCH",
        OperatorErrorCode::ComponentLoad => "COMPONENT_LOAD",
        OperatorErrorCode::InvokeTrap => "INVOKE_TRAP",
        OperatorErrorCode::Timeout => "TIMEOUT",
        OperatorErrorCode::PolicyDenied => "POLICY_DENIED",
        OperatorErrorCode::HostFailure => "HOST_FAILURE",
    }
}

/// A short human reason for an error code.
pub open spec fn spec_reason(c: OperatorErrorCode) -> Seq<char> {
    match c {
        OperatorErrorCode::OpNotFound => "op not found"@,
        OperatorErrorCode::ProviderNotFound => "provider not found"@,
        OperatorErrorCode::TenantNotAllowed => "tenant not allowed"@,
        OperatorErrorCode::InvalidRequest => "invalid operator request"@,
        OperatorErrorCode::CborDecode => "failed to decode CBOR payload"@,
        OperatorErrorCode::TypeMismatch => "type mismatch between CBOR and operation"@,
        OperatorErrorCode::ComponentLoad => "failed to load component"@,
        OperatorErrorCode::InvokeTrap => "component trapped during invoke"@,
        OperatorErrorCode::Timeout => "invocation timed out"@,
        OperatorErrorCode::PolicyDenied => "policy denied the operation"@,
        OperatorErrorCode::HostFailure => "internal host failure"@,
    }
}

impl OperatorErrorCode {
    pub fn reason(&self) -> (r: &'static str)
        ensures
            r@ == spec_reason(*self),
    {
        match self {
            OperatorErrorCode::OpNotFound => "op not found",
            OperatorErrorCode::ProviderNotFound => "provider not found",
            OperatorErrorCode::TenantNotAllowed => "tenant not allowed",
            OperatorErrorCode::InvalidRequest => "invalid operator request",
            OperatorErrorCode::CborDecode => "failed to decode CBOR payload",
            OperatorErrorCode::TypeMismatch => "type mismatch between CBOR and operation",
            OperatorErrorCode::ComponentLoad => "failed to load component",
            OperatorErrorCode::InvokeTrap => "component trapped during invoke",
            OperatorErrorCode::Timeout => "invocation timed out",
            OperatorErrorCode::PolicyDenied => "policy denied the operation",
            OperatorErrorCode::HostFailure => "internal host failure",
        }
    }
}

/// Error payload of a response.
#[derive(Debug)]
pub struct OperatorError {
    pub code: OperatorErrorCode,
    pub message: String,
    pub details_cbor: Option<Vec<u8>>,
}

/// Response envelope handed back to the wire.
#[derive(Debug)]
pub struct OperatorResponse {
    pub status: OperatorStatus,
    pub cbor_output: Option<Vec<u8>>,
    pub error: Option<OperatorError>,
}

/// The wire spelling of a severity.
pub open spec fn severity_str(s: DiagnosticSeverity) -> Seq<char> {
    match s {
        DiagnosticSeverity::Error => "error"@,
        DiagnosticSeverity::Warning => "warning"@,
        DiagnosticSeverity::Info => "info"@,
    }
}

/// The value tree of a diagnostic with the given abstract fields: a map,
/// the optional entries present only when set.
pub open spec fn diag_jv(
    code: Seq<char>,
    path: Seq<char>,
    sev: Seq<char>,
    message_key: Seq<char>,
    fallback: Seq<char>,
    message: Seq<char>,
    hint: Option<Seq<char>>,
    component_id: Option<Seq<char>>,
    digest: Option<Seq<char>>,
    operation_id: Option<Seq<char>>,
) -> JVal {
    JVal::Obj(
        seq![
            ("code"@, JVal::Text(code)),
            ("path"@, JVal::Text(path)),
            ("severity"@, JVal::Text(sev)),
            ("message_key"@, JVal::Text(message_key)),
            ("fallback"@, JVal::Text(fallback)),
            ("message"@, JVal::Text(message)),
        ] + (match hint {
            Some(h) => seq![("hint"@, JVal::Text(h))],
            None => Seq::empty(),
        }) + (match component_id {
            Some(c) => seq![("component_id"@, JVal::Text(c))],
            None => Seq::empty(),
        }) + (match digest {
            Some(g) => seq![("digest"@, JVal::Text(g))],
            None => Seq::empty(),
        }) + (match operation_id {
            Some(o) => seq![("operation_id"@, JVal::Text(o))],
            None => Seq::empty(),
        }),
    )
}

/// View of an optional string.
pub open spec fn ov(o: Option<String>) -> Option<Seq<char>> {
    match o {
        Some(s) => Some(s@),
        None => None,
    }
}

/// The value tree a diagnostic serializes to.
pub open spec fn diag_value(d: Diagnostic) -> JVal {
    diag_jv(
        d.code@,
        d.path@,
        severity_str(d.severity),
        d.message_key@,
        d.fallback@,
        d.message@,
        ov(d.hint),
        ov(d.component_id),
        ov(d.digest),
        ov(d.operation_id),
    )
}

/// The value tree of an error-severity diagnostic whose message resolves
/// its key in the given locale.
pub open spec fn error_diag_jv(
    code: Seq<char>,
    path: Seq<char>,
    message_key: Seq<char>,
    fallback: Seq<char>,
    locale: Seq<char>,
    component_id: Option<Seq<char>>,
    digest: Option<Seq<char>>,
    operation_id: Option<Seq<char>>,
) -> JVal {
    diag_jv(
        code,
        path,
        "error"@,
        message_key,
        fallback,
        spec_resolve_message(message_key, fallback, locale),
        None,
        component_id,
        digest,
        operation_id,
    )
}

/// The value tree of a whole diagnostic list.
pub open spec fn diags_value(ds: Seq<Diagnostic>) -> JVal {
    JVal::Arr(
        Seq::new(
            ds.len(),
            |i: int|
                if 0 <= i < ds.len() {
                    diag_value(ds[i])
                } else {
                    JVal::Null
                },
        ),
    )
}

/// The encoded detail bytes of a diagnostic list.
pub open spec fn details_bytes(ds: Seq<Diagnostic>) -> Seq<u8> {
    enc(diags_value(ds))
}

fn diag_to_value(d: &Diagnostic) -> (r: JsonValue)
    ensures
        r@ == diag_value(*d),
{
    let mut fields: Vec<(String, JsonValue)> = Vec::new();
    fields.push(("code".to_owned(), JsonValue::Text(d.code.clone())));
    fields.push(("path".to_owned(), JsonValue::Text(d.path.clone())));
    let sev = match d.severity {
        DiagnosticSeverity::Error => "error",
        DiagnosticSeverity::Warning => "warning",
        DiagnosticSeverity::Info => "info",
    };
    fields.push(("severity".to_owned(), JsonValue::Text(sev.to_owned())));
    fields.push(("message_key".to_owned(), JsonValue::Text(d.message_key.clone())));
    fields.push(("fallback".to_owned(), JsonValue::Text(d.fallback.clone())));
    fields.push(("message".to_owned(), JsonValue::Text(d.message.clone())));
    if let Some(h) = &d.hint {
        fields.push(("hint".to_owned(), JsonValue::Text(h.clone())));
    }
    if let Some(c) = &d.component_id {
        fields.push(("component_id".to_owned(), JsonValue::Text(c.clone())));
    }
    if let Some(g) = &d.digest {
        fields.push(("digest".to_owned(), JsonValue::Text(g.clone())));
    }
    if let Some(o) = &d.operation_id {
        fields.push(("operation_id".to_owned(), JsonValue::Text(o.clone())));
    }
    let ghost fv = fields@;
    let r = JsonValue::Object(fields);
    proof {
        assert(r@ == JVal::Obj(crate::jsonval::fields_view(fv)));
        assert(r@->Obj_0 =~~= diag_value(*d)->Obj_0);
    }
    r
}

/// Encodes a diagnostic list into its detail bytes.
pub fn encode_diagnostics(ds: &Vec<Diagnostic>) -> (r: Vec<u8>)
    ensures
        r@ == details_bytes(ds@),
{
    let n = ds.len();
    let mut items: Vec<JsonValue> = Vec::new();
    let mut i: usize = 0;
    while i < n
        invariant
            n == ds@.len(),
            i <= n,
            items@.len() == i,
            forall|j: int| 0 <= j < i ==> items@[j]@ == diag_value(ds@[j]),
        decreases n - i,
    {
        let v = diag_to_value(&ds[i]);
        items.push(v);
        i += 1;
    }
    let arr = JsonValue::Array(items);
    proof {
        assert(arr@->Arr_0 =~= diags_value(ds@)->Arr_0);
    }
    cbor_encode(&arr)
}

/// Law: equal diagnostic contents give byte-identical details.
pub proof fn lemma_details_deterministic(a: Seq<Diagnostic>, b: Seq<Diagnostic>)
    requires
        a.len() == b.len(),
        forall|i: int| 0 <= i < a.len() ==> diag_value(#[trigger] a[i]) == diag_value(b[i]),
    ensures
        details_bytes(a) == details_bytes(b),
{
    assert(diags_value(a)->Arr_0 =~= diags_value(b)->Arr_0);
}

impl OperatorResponse {
    /// A success response carrying encoded output.
    pub fn ok(output: Vec<u8>) -> (r: OperatorResponse)
        ensures
            r.status == OperatorStatus::Okay,
            r.cbor_output == Some(output),
            r.error is None,
    {
        OperatorResponse { status: OperatorStatus::Okay, cbor_output: Some(output), error: None }
    }

    /// An error response without details.
    pub fn error(code: OperatorErrorCode, message: String) -> (r: OperatorResponse)
        ensures
            r.status == OperatorStatus::Error,
            r.cbor_output is None,
            r.error matches Some(e) ==> e.code == code && e.message@ == message@
                && e.details_cbor is None,
            r.error is Some,
    {
        OperatorResponse {
            status: OperatorStatus::Error,
            cbor_output: None,
            error: Some(OperatorError { code, message, details_cbor: None }),
        }
    }

    /// An error response carrying encoded diagnostics.
    pub fn error_with_diagnostics(
        code: OperatorErrorCode,
        message: String,
        diagnostics: Vec<Diagnostic>,
    ) -> (r: OperatorResponse)
        ensures
            r.status == OperatorStatus::Error,
            r.cbor_output is None,
            r.error matches Some(e) ==> e.code == code && e.message@ == message@ && (
            e.details_cbor matches Some(d) && d@ == details_bytes(diagnostics@)),
            r.error is Some,
    {
        let details = encode_diagnostics(&diagnostics);
        OperatorResponse {
            status: OperatorStatus::Error,
            cbor_output: None,
            error: Some(OperatorError { code, message, details_cbor: Some(details) }),
        }
    }

    /// The value tree the response envelope serializes to.
    pub open spec fn envelope_value(self) -> JVal {
        JVal::Obj(
            seq![
                (
                    "status"@,
                    JVal::Text(
                        match self.status {
                            OperatorStatus::Okay => "Ok"@,
                            OperatorStatus::Error => "Error"@,
                        },
                    ),
                ),
            ] + (match self.cbor_output {
                Some(o) => seq![("cbor_output"@, JVal::Bytes(o@))],
                None => Seq::empty(),
            }) + (match self.error {
                Some(e) => seq![
                    (
                        "error"@,
                        JVal::Obj(
                            seq![
                                ("code"@, JVal::Text(code_str(e.code))),
                                ("message"@, JVal::Text(e.message@)),
                            ] + (match e.details_cbor {
                                Some(d) => seq![("details_cbor"@, JVal::Bytes(d@))],
                                None => Seq::empty(),
                            }),
                        ),
                    ),
                ],
                None => Seq::empty(),
            }),
        )
    }

    /// Serializes the envelope to its deterministic wire bytes.
    pub fn to_cbor(&self) -> (r: Vec<u8>)
        ensures
            r@ == enc(self.envelope_value()),
    {
        let mut fields: Vec<(String, JsonValue)> = Vec::new();
        let status = match self.status {
            OperatorStatus::Okay => "Ok",
            OperatorStatus::Error => "Error",
        };
        fields.push(("status".to_owned(), JsonValue::Text(status.to_owned())));
        if let Some(o) = &self.cbor_output {
            fields.push(
                ("cbor_output".to_owned(), JsonValue::Bytes(vstd::slice::slice_to_vec(o.as_slice()))),
            );
        }
        if let Some(e) = &self.error {
            let mut efields: Vec<(String, JsonValue)> = Vec::new();
            efields.push(("code".to_owned(), JsonValue::Text(code_str_exec(e.code).to_owned())));
            efields.push(("message".to_owned(), JsonValue::Text(e.message.clone())));
            if let Some(d) = &e.details_cbor {
                efields.push(
                    (
                        "details_cbor".to_owned(),
                        JsonValue::Bytes(vstd::slice::slice_to_vec(d.as_slice())),
                    ),
                );
            }
            let ghost efv = efields@;
            let eobj = JsonValue::Object(efields);
            proof {
                assert(eobj@ == JVal::Obj(crate::jsonval::fields_view(efv)));
                assert(eobj@->Obj_0 =~= (seq![
                    ("code"@, JVal::Text(code_str(e.code))),
                    ("message"@, JVal::Text(e.message@)),
                ] + (match e.details_cbor {
                    Some(d) => seq![("details_cbor"@, JVal::Bytes(d@))],
                    None => Seq::<(Seq<char>, JVal)>::empty(),
                })));
            }
            fields.push(("error".to_owned(), eobj));
        }
        let ghost fv = fields@;
        let v = JsonValue::Object(fields);
        proof {
            assert(v@ == JVal::Obj(crate::jsonval::fields_view(fv)));
            assert(v@->Obj_0 =~= self.envelope_value()->Obj_0);
        }
        cbor_encode(&v)
    }
}

/// Builds an error-severity diagnostic, resolving its message in `locale`.
pub fn diagnostic_error(
    code: &str,
    path: &str,
    message_key: &str,
    fallback: String,
    operation_id: Option<&str>,
    component_id: Option<&str>,
    digest: Option<&str>,
    locale: &str,
) -> (r: Diagnostic)
    ensures
        diag_value(r) == error_diag_jv(
            code@,
            path@,
            message_key@,
            fallback@,
            locale@,
            match component_id {
                Some(c) => Some(c@),
                None => None,
            },
            match digest {
                Some(g) => Some(g@),
                None => None,
            },
            match operation_id {
                Some(o) => Some(o@),
                None => None,
            },
        ),
        r.code@ == code@,
        r.path@ == path@,
        r.severity == DiagnosticSeverity::Error,
        r.message_key@ == message_key@,
        r.fallback@ == fallback@,
        r.message@ == spec_resolve_message(message_key@, fallback@, locale@),
        r.hint is None,
{
    let message = resolve_message(message_key, fallback.as_str(), locale);
    let r = Diagnostic {
        code: code.to_owned(),
        path: path.to_owned(),
        severity: DiagnosticSeverity::Error,
        message_key: message_key.to_owned(),
        fallback,
        message,
        hint: None,
        component_id: match component_id {
            Some(c) => Some(c.to_owned()),
            None => None,
        },
        digest: match digest {
            Some(g) => Some(g.to_owned()),
            None => None,
        },
        operation_id: match operation_id {
            Some(o) => Some(o.to_owned()),
            None => None,
        },
    };
    r
}

/// What a blank or padded operation id normalizes to.
pub open spec fn spec_normalize_op(op: Seq<char>) -> Seq<char> {
    if trim_spec(op).len() == 0 {
        "run"@
    } else {
        trim_spec(op)
    }
}

/// Trims the operation id; blank means "run".
pub fn normalize_operation_id(op_id: &str) -> (r: String)
    ensures
        r@ == spec_normalize_op(op_id@),
{
    let t = trim(op_id);
    if t.as_str().unicode_len() == 0 {
        "run".to_owned()
    } else {
        t
    }
}

/// Validation switches of one invocation.
#[derive(Debug, Clone, Copy, PartialEq, Eq, Structural)]
pub struct ExecutionValidationOptions {
    pub validate_output: bool,
    pub strict: bool,
}

/// The switches after a list of flags is applied in order: the skip flag
/// clears output validation, the permissive flag clears strictness;
/// unknown flags are ignored. Flags compare trimmed and lowercased.
pub open spec fn options_after(flags: Seq<Seq<char>>, acc: ExecutionValidationOptions) -> ExecutionValidationOptions
    decreases flags.len(),
{
    if flags.len() == 0 {
        acc
    } else {
        let f = trim_spec(flags[0]).map_values(|c: char| lower_char(c));
        let next = if f == "skip-output-validate"@ {
            ExecutionValidationOptions { validate_output: false, ..acc }
        } else if f == "permissive-schema"@ {
            ExecutionValidationOptions { strict: false, ..acc }
        } else {
            acc
        };
        options_after(flags.drop_first(), next)
    }
}

/// The default switches: validate output, strict schemas.
pub open spec fn default_options() -> ExecutionValidationOptions {
    ExecutionValidationOptions { validate_output: true, strict: true }
}

/// Applies the request flags to the default validation switches.
pub fn validation_options_from_flags(flags: &Vec<String>) -> (r: ExecutionValidationOptions)
    ensures
        r == options_after(crate::registry::strs_view(flags@), default_options()),
{
    let ghost fv = crate::registry::strs_view(flags@);
    let mut options = ExecutionValidationOptions { validate_output: true, strict: true };
    let n = flags.len();
    let mut i: usize = 0;
    proof {
        assert(fv.skip(0) =~= fv);
    }
    while i < n
        invariant
            fv == crate::registry::strs_view(flags@),
            n == flags@.len(),
            i <= n,
            options_after(fv, default_options()) == options_after(fv.skip(i as int), options),
        decreases n - i,
    {
        proof {
            assert(fv.skip(i as int)[0] == fv[i as int]);
            assert(fv.skip(i as int).drop_first() =~= fv.skip(i as int + 1));
        }
        let t = trim(flags[i].as_str());
        let f = crate::strutil::lower_ascii(t.as_str());
        if str_eq(f.as_str(), "skip-output-validate") {
            options = ExecutionValidationOptions { validate_output: false, ..options };
        } else if str_eq(f.as_str(), "permissive-schema") {
            options = ExecutionValidationOptions { strict: false, ..options };
        }
        i += 1;
    }
    proof {
        assert(fv.skip(n as int).len() == 0);
    }
    options
}

/// The `sha256:`-prefixed spelling of a hash value.
pub open spec fn spec_normalize_hash(v: Seq<char>) -> Seq<char> {
    let t = trim_spec(v);
    if has_prefix(t, "sha256:"@) {
        t
    } else {
        "sha256:"@ + t
    }
}

/// Trims a hash and prefixes `sha256:` unless already present.
pub fn normalize_sha256_hash(value: &str) -> (r: String)
    ensures
        r@ == spec_normalize_hash(value@),
{
    let t = trim(value);
    if starts_with(t.as_str(), "sha256:") {
        t
    } else {
        let mut out = "sha256:".to_owned();
        out.append(t.as_str());
        out
    }
}

/// An empty instance path spelled as the root.
pub fn path_or_root(path: &str) -> (r: &str)
    ensures
        r@ == if path@.len() == 0 {
            "/"@
        } else {
            path@
        },
{
    if path.unicode_len() == 0 {
        "/"
    } else {
        path
    }
}

/// The composite memoization key of a resolved contract.
pub open spec fn spec_contract_key(
    digest: Seq<char>,
    component_ref: Seq<char>,
    op_id: Seq<char>,
    options: ExecutionValidationOptions,
) -> Seq<char> {
    digest + "::"@ + component_ref + "::"@ + op_id + "::validate_output="@ + (
    if options.validate_output {
        "true"@
    } else {
        "false"@
    }) + "::strict="@ + (if options.strict {
        "true"@
    } else {
        "false"@
    })
}

/// Builds the contract cache key.
pub fn contract_key(
    digest: &str,
    component_ref: &str,
    op_id: &str,
    options: &ExecutionValidationOptions,
) -> (r: String)
    ensures
        r@ == spec_contract_key(digest@, component_ref@, op_id@, *options),
{
    let mut out = digest.to_owned();
    out.append("::");
    out.append(component_ref);
    out.append("::");
    out.append(op_id);
    out.append("::validate_output=");
    out.append(if options.validate_output {
        "true"
    } else {
        "false"
    });
    out.append("::strict=");
    out.append(if options.strict {
        "true"
    } else {
        "false"
    });
    out
}

/// The merged input: attachments folded into the decoded payload. An
/// object gains a `_attachments` field; any other value is wrapped.
pub open spec fn spec_merge_attachments(
    input: JVal,
    attachments: Seq<(Seq<char>, JVal)>,
) -> JVal {
    if attachments.len() == 0 {
        input
    } else {
        match input {
            JVal::Obj(fields) => JVal::Obj(
                fields.push(("_attachments"@, JVal::Obj(attachments))),
            ),
            _ => JVal::Obj(
                seq![("input"@, input), ("_attachments"@, JVal::Obj(attachments))],
            ),
        }
    }
}

/// Folds resolved attachments into the decoded input value.
pub fn merge_input_with_attachments(
    input: JsonValue,
    attachments: Vec<(String, JsonValue)>,
) -> (r: JsonValue)
    ensures
        r@ == spec_merge_attachments(input@, crate::jsonval::fields_view(attachments@)),
{
    let ghost av = crate::jsonval::fields_view(attachments@);
    if attachments.len() == 0 {
        proof {
            assert(av.len() == 0);
        }
        return input;
    }
    let attach_obj = JsonValue::Object(attachments);
    proof {
        assert(attach_obj@ == JVal::Obj(av));
    }
    match input {
        JsonValue::Object(mut fields) => {
            let ghost base = crate::jsonval::fields_view(fields@);
            fields.push(("_attachments".to_owned(), attach_obj));
            let ghost fv2 = crate::jsonval::fields_view(fields@);
            let r = JsonValue::Object(fields);
            proof {
                assert(r@ == JVal::Obj(fv2));
                assert(fv2 =~= base.push(("_attachments"@, JVal::Obj(av))));
            }
            r
        },
        other => {
            let ghost ov_ = other@;
            let mut wrapped: Vec<(String, JsonValue)> = Vec::new();
            wrapped.push(("input".to_owned(), other));
            wrapped.push(("_attachments".to_owned(), attach_obj));
            let ghost wv = crate::jsonval::fields_view(wrapped@);
            let r = JsonValue::Object(wrapped);
            proof {
                assert(r@ == JVal::Obj(wv));
                assert(wv =~= seq![("input"@, ov_), ("_attachments"@, JVal::Obj(av))]);
            }
            r
        },
    }
}

/// A secret attachment request: the secret's key and the alias it is
/// attached under.
#[derive(Debug)]
pub struct SecretRequest {
    pub key: String,
    pub alias: String,
}

/// What an attachment's metadata asks for: a secret fetch when its type is
/// "secret"; anything else is ignored.
pub open spec fn spec_secret_of(metadata: Option<JVal>) -> Option<(Seq<char>, Seq<char>)> {
    match metadata {
        Some(m) => {
            if jv_get(m, "type"@) == Some(JVal::Text("secret"@)) {
                match jv_get(m, "key"@) {
                    Some(JVal::Text(k)) => Some(
                        (
                            k,
                            match jv_get(m, "alias"@) {
                                Some(JVal::Text(a)) => a,
                                _ => k,
                            },
                        ),
                    ),
                    _ => None,
                }
            } else {
                None
            }
        },
        None => None,
    }
}

/// Reads a secret request out of one attachment's metadata.
pub fn secret_of_metadata(metadata: &Option<JsonValue>) -> (r: Option<SecretRequest>)
    ensures
        match r {
            Some(sr) => spec_secret_of(
                match metadata {
                    Some(m) => Some(m@),
                    None => None,
                },
            ) == Some((sr.key@, sr.alias@)),
            None => spec_secret_of(
                match metadata {
                    Some(m) => Some(m@),
                    None => None,
                },
            ) is None,
        },
{
    let m = match metadata {
        Some(m) => m,
        None => {
            return None;
        },
    };
    let is_secret = match m.get_field("type") {
        Some(t) => match t.as_text() {
            Some(ts) => str_eq(ts.as_str(), "secret"),
            None => false,
        },
        None => false,
    };
    if !is_secret {
        proof {
            if jv_get(m@, "type"@) == Some(JVal::Text("secret"@)) {
                assert(false);
            }
        }
        return None;
    }
    let key = match m.get_field("key") {
        Some(k) => match k.as_text() {
            Some(ks) => ks.clone(),
            None => {
                return None;
            },
        },
        None => {
            return None;
        },
    };
    let alias = match m.get_field("alias") {
        Some(a) => match a.as_text() {
            Some(als) => als.clone(),
            None => key.clone(),
        },
        None => key.clone(),
    };
    Some(SecretRequest { key, alias })
}

/// The message of a tenant-mismatch rejection.
pub open spec fn tenant_mismatch_msg(rt: Seq<char>, req: Seq<char>) -> Seq<char> {
    "tenant mismatch: routing resolved `"@ + rt + "` but request wants `"@ + req + "`"@
}

/// The detail bytes of a single error diagnostic.
pub open spec fn one_diag_bytes(d: JVal) -> Seq<u8> {
    enc(JVal::Arr(seq![d]))
}

proof fn lemma_one_diag(ds: Seq<Diagnostic>, d: JVal)
    requires
        ds.len() == 1,
        diag_value(ds[0]) == d,
    ensures
        details_bytes(ds) == one_diag_bytes(d),
{
    assert(diags_value(ds)->Arr_0 =~= seq![d]);
}

/// Tenant gate: a request naming another tenant than the routed one is
/// refused with a tenant-mismatch diagnostic.
pub fn check_tenant(
    request_tenant: Option<&str>,
    runtime_tenant: &str,
    op_id: &str,
    runtime_digest: Option<&str>,
    locale: &str,
) -> (r: Option<OperatorResponse>)
    ensures
        r is None <==> (match request_tenant {
            Some(t) => t@ == runtime_tenant@,
            None => true,
        }),
        r matches Some(resp) ==> {
            let msg = tenant_mismatch_msg(runtime_tenant@, request_tenant->0@);
            &&& resp.status == OperatorStatus::Error
            &&& resp.error matches Some(e) && e.code == OperatorErrorCode::TenantNotAllowed
                && e.message@ == msg && (e.details_cbor matches Some(db) && db@ == one_diag_bytes(
                error_diag_jv(
                    "tenant_mismatch"@,
                    "/tenant_id"@,
                    "runner.operator.tenant_mismatch"@,
                    msg,
                    locale@,
                    None,
                    match runtime_digest {
                        Some(g) => Some(g@),
                        None => None,
                    },
                    Some(op_id@),
                ),
            ))
        },
{
    let rt = match request_tenant {
        Some(t) => t,
        None => {
            return None;
        },
    };
    if str_eq(rt, runtime_tenant) {
        return None;
    }
    let mut message = "tenant mismatch: routing resolved `".to_owned();
    message.append(runtime_tenant);
    message.append("` but request wants `");
    message.append(rt);
    message.append("`");
    let diag = diagnostic_error(
        "tenant_mismatch",
        "/tenant_id",
        "runner.operator.tenant_mismatch",
        message.clone(),
        Some(op_id),
        None,
        runtime_digest,
        locale,
    );
    let ghost dv = diag_value(diag);
    let mut diags: Vec<Diagnostic> = Vec::new();
    diags.push(diag);
    proof {
        lemma_one_diag(diags@, dv);
    }
    Some(
        OperatorResponse::error_with_diagnostics(
            OperatorErrorCode::TenantNotAllowed,
            message,
            diags,
        ),
    )
}

/// Selector gate: a request must name a provider id or a provider type.
pub fn check_selector(
    provider_id: Option<&str>,
    provider_type: Option<&str>,
    op_id: &str,
    runtime_digest: Option<&str>,
    locale: &str,
) -> (r: Option<OperatorResponse>)
    ensures
        r is None <==> (provider_id is Some || provider_type is Some),
        r matches Some(resp) ==> {
            let msg = "operator invoke requires provider_id or provider_type"@;
            &&& resp.status == OperatorStatus::Error
            &&& resp.error matches Some(e) && e.code == OperatorErrorCode::InvalidRequest
                && e.message@ == msg && (e.details_cbor matches Some(db) && db@ == one_diag_bytes(
                error_diag_jv(
                    "missing_provider_selector"@,
                    "/provider_id"@,
                    "runner.operator.missing_provider_selector"@,
                    msg,
                    locale@,
                    None,
                    match runtime_digest {
                        Some(g) => Some(g@),
                        None => None,
                    },
                    Some(op_id@),
                ),
            ))
        },
{
    if provider_id.is_some() || provider_type.is_some() {
        return None;
    }
    let message = "operator invoke requires provider_id or provider_type".to_owned();
    let diag = diagnostic_error(
        "missing_provider_selector",
        "/provider_id",
        "runner.operator.missing_provider_selector",
        message.clone(),
        Some(op_id),
        None,
        runtime_digest,
        locale,
    );
    let ghost dv = diag_value(diag);
    let mut diags: Vec<Diagnostic> = Vec::new();
    diags.push(diag);
    proof {
        lemma_one_diag(diags@, dv);
    }
    Some(
        OperatorResponse::error_with_diagnostics(
            OperatorErrorCode::InvalidRequest,
            message,
            diags,
        ),
    )
}

/// The message of a failed resolution.
pub open spec fn resolve_fail_msg(
    err: crate::registry::OperatorResolveError,
    label: Seq<char>,
    op: Seq<char>,
) -> Seq<char> {
    match err {
        crate::registry::OperatorResolveError::ProviderNotFound => "provider `"@ + label
            + "` not registered"@,
        crate::registry::OperatorResolveError::OpNotFound => "op `"@ + op
            + "` not found for provider `"@ + label + "`"@,
    }
}

/// The response a failed resolution produces: the matching error code and
/// one diagnostic at `/op_id`.
pub fn resolve_error_response(
    err: crate::registry::OperatorResolveError,
    provider_id: Option<&str>,
    provider_type: Option<&str>,
    op_id: &str,
    runtime_digest: Option<&str>,
    locale: &str,
) -> (r: OperatorResponse)
    ensures
        ({
            let label = (match provider_id {
                Some(p) => p@,
                None => match provider_type {
                    Some(t) => t@,
                    None => (match err {
                        crate::registry::OperatorResolveError::ProviderNotFound => "unknown"@,
                        crate::registry::OperatorResolveError::OpNotFound => "unknown provider"@,
                    }),
                },
            });
            let msg = resolve_fail_msg(err, label, op_id@);
            let code = (match err {
                crate::registry::OperatorResolveError::ProviderNotFound => OperatorErrorCode::ProviderNotFound,
                crate::registry::OperatorResolveError::OpNotFound => OperatorErrorCode::OpNotFound,
            });
            let dcode = (match err {
                crate::registry::OperatorResolveError::ProviderNotFound => "provider_not_found"@,
                crate::registry::OperatorResolveError::OpNotFound => "op_not_found"@,
            });
            let dkey = (match err {
                crate::registry::OperatorResolveError::ProviderNotFound => "runner.operator.provider_not_found"@,
                crate::registry::OperatorResolveError::OpNotFound => "runner.operator.op_not_found"@,
            });
            let hint = (match provider_id {
                Some(p) => Some(p@),
                None => match provider_type {
                    Some(t) => Some(t@),
                    None => None,
                },
            });
            &&& r.status == OperatorStatus::Error
            &&& r.error matches Some(e) && e.code == code && e.message@ == msg && (e.details_cbor
                matches Some(db) && db@ == one_diag_bytes(
                error_diag_jv(
                    dcode,
                    "/op_id"@,
                    dkey,
                    msg,
                    locale@,
                    hint,
                    match runtime_digest {
                        Some(g) => Some(g@),
                        None => None,
                    },
                    Some(op_id@),
                ),
            ))
        }),
{
    let is_provider = match err {
        crate::registry::OperatorResolveError::ProviderNotFound => true,
        crate::registry::OperatorResolveError::OpNotFound => false,
    };
    let label: &str = match provider_id {
        Some(p) => p,
        None => match provider_type {
            Some(t) => t,
            None => if is_provider {
                "unknown"
            } else {
                "unknown provider"
            },
        },
    };
    let mut message: String;
    if is_provider {
        message = "provider `".to_owned();
        message.append(label);
        message.append("` not registered");
    } else {
        message = "op `".to_owned();
        message.append(op_id);
        message.append("` not found for provider `");
        message.append(label);
        message.append("`");
    }
    let hint: Option<&str> = match provider_id {
        Some(p) => Some(p),
        None => match provider_type {
            Some(t) => Some(t),
            None => None,
        },
    };
    let diag = diagnostic_error(
        if is_provider {
            "provider_not_found"
        } else {
            "op_not_found"
        },
        "/op_id",
        if is_provider {
            "runner.operator.provider_not_found"
        } else {
            "runner.operator.op_not_found"
        },
        message.clone(),
        Some(op_id),
        hint,
        runtime_digest,
        locale,
    );
    let ghost dv = diag_value(diag);
    let mut diags: Vec<Diagnostic> = Vec::new();
    diags.push(diag);
    proof {
        lemma_one_diag(diags@, dv);
    }
    OperatorResponse::error_with_diagnostics(
        if is_provider {
            OperatorErrorCode::ProviderNotFound
        } else {
            OperatorErrorCode::OpNotFound
        },
        message,
        diags,
    )
}

/// Pack pinning gate: a request pinned to a pack must hit a binding whose
/// pack reference starts with that pack id (the part before `@`).
pub fn check_pack_pinning(requested_pack: Option<&str>, pack_ref: &str) -> (r: Option<
    OperatorResponse,
>)
    ensures
        r is None <==> (match requested_pack {
            Some(p) => pack_ref@.take(char_split(pack_ref@, '@')) == p@,
            None => true,
        }),
        r matches Some(resp) ==> {
            let msg = "request bound to pack `"@ + requested_pack->0@ + "`, but op lives in `"@
                + pack_ref@ + "`"@;
            &&& resp.status == OperatorStatus::Error
            &&& resp.error matches Some(e) && e.code == OperatorErrorCode::PolicyDenied
                && e.message@ == msg && e.details_cbor is None
        },
{
    let req = match requested_pack {
        Some(p) => p,
        None => {
            return None;
        },
    };
    let binding_pack = crate::strutil::prefix_until(pack_ref, '@');
    if str_eq(binding_pack.as_str(), req) {
        return None;
    }
    let mut message = "request bound to pack `".to_owned();
    message.append(req);
    message.append("`, but op lives in `");
    message.append(pack_ref);
    message.append("`");
    Some(OperatorResponse::error(OperatorErrorCode::PolicyDenied, message))
}

/// The refusal for a provider the tenant's policy does not allow.
pub fn policy_provider_denied(provider_label: &str, tenant: &str) -> (r: OperatorResponse)
    ensures
        r.status == OperatorStatus::Error,
        r.error matches Some(e) ==> e.code == OperatorErrorCode::PolicyDenied && e.message@
            == "provider `"@ + provider_label@ + "` not allowed for tenant "@ + tenant@
            && e.details_cbor is None,
        r.error is Some,
{
    let mut message = "provider `".to_owned();
    message.append(provider_label);
    message.append("` not allowed for tenant ");
    message.append(tenant);
    OperatorResponse::error(OperatorErrorCode::PolicyDenied, message)
}

/// The refusal for an operation the tenant's policy does not allow.
pub fn policy_op_denied(op_id: &str, provider_label: &str, tenant: &str) -> (r: OperatorResponse)
    ensures
        r.status == OperatorStatus::Error,
        r.error matches Some(e) ==> e.code == OperatorErrorCode::PolicyDenied && e.message@ == "op `"@
            + op_id@ + "` is not permitted for provider `"@ + provider_label@ + "` on tenant "@
            + tenant@ && e.details_cbor is None,
        r.error is Some,
{
    let mut message = "op `".to_owned();
    message.append(op_id);
    message.append("` is not permitted for provider `");
    message.append(provider_label);
    message.append("` on tenant ");
    message.append(tenant);
    OperatorResponse::error(OperatorErrorCode::PolicyDenied, message)
}

/// The refusal when a secret attachment cannot be read.
pub fn secret_denied_response(key: &str, err: &str) -> (r: OperatorResponse)
    ensures
        r.status == OperatorStatus::Error,
        r.error matches Some(e) ==> e.code == OperatorErrorCode::PolicyDenied && e.message@
            == "secret `"@ + key@ + "` access denied: "@ + err@ && e.details_cbor is None,
        r.error is Some,
{
    let mut message = "secret `".to_owned();
    message.append(key);
    message.append("` access denied: ");
    message.append(err);
    OperatorResponse::error(OperatorErrorCode::PolicyDenied, message)
}

/// The refusal when the payload is not decodable.
pub fn decode_failed_response() -> (r: OperatorResponse)
    ensures
        r.status == OperatorStatus::Error,
        r.error matches Some(e) ==> e.code == OperatorErrorCode::CborDecode && e.message@
            == "failed to decode CBOR payload"@ && e.details_cbor is None,
        r.error is Some,
{
    OperatorResponse::error(
        OperatorErrorCode::CborDecode,
        "failed to decode CBOR payload".to_owned(),
    )
}

/// The refusal when the binding's component is absent from the tenant's packs.
pub fn component_missing_response(component_ref: &str) -> (r: OperatorResponse)
    ensures
        r.status == OperatorStatus::Error,
        r.error matches Some(e) ==> e.code == OperatorErrorCode::ComponentLoad && e.message@
            == "component `"@ + component_ref@ + "` not found in tenant packs"@
            && e.details_cbor is None,
        r.error is Some,
{
    let mut message = "component `".to_owned();
    message.append(component_ref);
    message.append("` not found in tenant packs");
    OperatorResponse::error(OperatorErrorCode::ComponentLoad, message)
}

/// The refusal when a component or provider invocation fails.
pub fn invoke_failed_response(provider_core: bool, err: &str) -> (r: OperatorResponse)
    ensures
        r.status == OperatorStatus::Error,
        r.error matches Some(e) ==> e.code == OperatorErrorCode::HostFailure && e.message@ == (
        if provider_core {
            "provider invoke failed: "@ + err@
        } else {
            "component invoke failed: "@ + err@
        }) && e.details_cbor is None,
        r.error is Some,
{
    let mut message = if provider_core {
        "provider invoke failed: ".to_owned()
    } else {
        "component invoke failed: ".to_owned()
    };
    message.append(err);
    OperatorResponse::error(OperatorErrorCode::HostFailure, message)
}

/// Decodes the request payload; empty input decodes to the null value, and
/// any encoding of a wire value decodes to it.
pub fn decode_request_payload(bytes: &Vec<u8>) -> (r: Option<JsonValue>)
    ensures
        bytes@.len() == 0 ==> (r matches Some(v) && v@ == JVal::Null),
        r matches Some(v) ==> (bytes@.len() == 0 && v@ == JVal::Null) || bytes@ == enc(v@),
        (exists|v: JVal| crate::cbor::wire_wf(v) && bytes@ == enc(v)) ==> r is Some,
{
    if bytes.len() == 0 {
        return Some(JsonValue::Null);
    }
    crate::cbor::cbor_decode(bytes)
}

/// Schema-hash preflight: when the request pins a hash and the contract
/// carries one, both are normalized to `sha256:<hex>` and must agree.
pub fn preflight_schema_hash(
    request_hash: Option<&str>,
    snapshot_hash: Option<&str>,
    op_id: &str,
    component_ref: &str,
    resolved_digest: &str,
    locale: &str,
) -> (r: Option<OperatorResponse>)
    ensures
        r is None <==> !(request_hash is Some && snapshot_hash is Some && spec_normalize_hash(
            snapshot_hash->0@,
        ) != spec_normalize_hash(request_hash->0@)),
        r matches Some(resp) ==> {
            let expected = spec_normalize_hash(snapshot_hash->0@);
            let provided = spec_normalize_hash(request_hash->0@);
            let msg = "schema_hash mismatch for op `"@ + op_id@ + "`: expected `"@ + expected
                + "`, got `"@ + provided + "`"@;
            &&& resp.status == OperatorStatus::Error
            &&& resp.error matches Some(e) && e.code == OperatorErrorCode::TypeMismatch
                && e.message@ == msg && (e.details_cbor matches Some(db) && db@ == one_diag_bytes(
                error_diag_jv(
                    "schema_hash_mismatch"@,
                    "/schema_hash"@,
                    "runner.operator.schema_hash_mismatch"@,
                    msg,
                    locale@,
                    Some(component_ref@),
                    Some(resolved_digest@),
                    Some(op_id@),
                ),
            ))
        },
{
    let rq = match request_hash {
        Some(h) => h,
        None => {
            return None;
        },
    };
    let sn = match snapshot_hash {
        Some(h) => h,
        None => {
            return None;
        },
    };
    let expected = normalize_sha256_hash(sn);
    let provided = normalize_sha256_hash(rq);
    if str_eq(expected.as_str(), provided.as_str()) {
        return None;
    }
    let mut message = "schema_hash mismatch for op `".to_owned();
    message.append(op_id);
    message.append("`: expected `");
    message.append(expected.as_str());
    message.append("`, got `");
    message.append(provided.as_str());
    message.append("`");
    let diag = diagnostic_error(
        "schema_hash_mismatch",
        "/schema_hash",
        "runner.operator.schema_hash_mismatch",
        message.clone(),
        Some(op_id),
        Some(component_ref),
        Some(resolved_digest),
        locale,
    );
    let ghost dv = diag_value(diag);
    let mut diags: Vec<Diagnostic> = Vec::new();
    diags.push(diag);
    proof {
        lemma_one_diag(diags@, dv);
    }
    Some(
        OperatorResponse::error_with_diagnostics(
            OperatorErrorCode::TypeMismatch,
            message,
            diags,
        ),
    )
}

/// The output schema reference derived from a config schema reference:
/// `config` replaced by `output`, or nothing when that changes nothing.
pub fn derive_output_schema_ref(config_schema_ref: Option<&str>) -> (r: Option<String>)
    ensures
        ({
            match config_schema_ref {
                None => r is None,
                Some(c) => {
                    let candidate = crate::strutil::replace_spec(c@, "config"@, "output"@);
                    if candidate == c@ {
                        r is None
                    } else {
                        r matches Some(out) && out@ == candidate
                    }
                },
            }
        }),
{
    let c = match config_schema_ref {
        Some(c) => c,
        None => {
            return None;
        },
    };
    proof {
        reveal_strlit("config");
    }
    let candidate = crate::strutil::replace_all(c, "config", "output");
    if str_eq(candidate.as_str(), c) {
        None
    } else {
        Some(candidate)
    }
}

/// The diagnostic of one validation issue under a path prefix: the issue's
/// path is kept when the prefix is empty, replaced by the prefix when it is
/// the root, else appended to the prefix.
pub open spec fn issue_diag(
    iv: (Seq<char>, Seq<char>, Seq<char>, Seq<char>),
    prefix: Seq<char>,
    component_ref: Seq<char>,
    digest: Seq<char>,
    op: Seq<char>,
    locale: Seq<char>,
) -> JVal {
    let path = (if prefix.len() == 0 {
        iv.1
    } else if iv.1 == "/"@ {
        prefix
    } else {
        prefix + iv.1
    });
    diag_jv(
        iv.0,
        path,
        "error"@,
        iv.2,
        iv.3,
        spec_resolve_message(iv.2, iv.3, locale),
        None,
        Some(component_ref),
        Some(digest),
        Some(op),
    )
}

/// The diagnostics of a whole issue list.
pub open spec fn issues_diags(
    ivs: Seq<(Seq<char>, Seq<char>, Seq<char>, Seq<char>)>,
    prefix: Seq<char>,
    component_ref: Seq<char>,
    digest: Seq<char>,
    op: Seq<char>,
    locale: Seq<char>,
) -> Seq<JVal> {
    Seq::new(
        ivs.len(),
        |i: int|
            if 0 <= i < ivs.len() {
                issue_diag(ivs[i], prefix, component_ref, digest, op, locale)
            } else {
                JVal::Null
            },
    )
}

/// Turns validation issues into diagnostics rooted under a path prefix.
pub fn schema_issues_to_diagnostics(
    issues: Vec<crate::schema_validator::SchemaValidationIssue>,
    path_prefix: &str,
    component_ref: &str,
    resolved_digest: &str,
    op_id: &str,
    locale: &str,
) -> (r: Vec<Diagnostic>)
    ensures
        diags_value(r@) == JVal::Arr(
            issues_diags(
                crate::schema_validator::issues_view(issues@),
                path_prefix@,
                component_ref@,
                resolved_digest@,
                op_id@,
                locale@,
            ),
        ),
{
    let ghost ivs = crate::schema_validator::issues_view(issues@);
    let n = issues.len();
    let mut out: Vec<Diagnostic> = Vec::new();
    let mut i: usize = 0;
    while i < n
        invariant
            ivs == crate::schema_validator::issues_view(issues@),
            n == issues@.len(),
            i <= n,
            out@.len() == i,
            forall|j: int|
                0 <= j < i ==> diag_value(#[trigger] out@[j]) == issue_diag(
                    ivs[j],
                    path_prefix@,
                    component_ref@,
                    resolved_digest@,
                    op_id@,
                    locale@,
                ),
        decreases n - i,
    {
        let issue = &issues[i];
        let path: String = if path_prefix.unicode_len() == 0 {
            issue.path.clone()
        } else if str_eq(issue.path.as_str(), "/") {
            path_prefix.to_owned()
        } else {
            let mut p = path_prefix.to_owned();
            p.append(issue.path.as_str());
            p
        };
        let message = resolve_message(issue.message_key.as_str(), issue.fallback.as_str(), locale);
        out.push(Diagnostic {
            code: issue.code.clone(),
            path,
            severity: DiagnosticSeverity::Error,
            message_key: issue.message_key.clone(),
            fallback: issue.fallback.clone(),
            message,
            hint: None,
            component_id: Some(component_ref.to_owned()),
            digest: Some(resolved_digest.to_owned()),
            operation_id: Some(op_id.to_owned()),
        });
        i += 1;
    }
    proof {
        assert(diags_value(out@)->Arr_0 =~= issues_diags(
            ivs,
            path_prefix@,
            component_ref@,
            resolved_digest@,
            op_id@,
            locale@,
        ));
    }
    out
}

/// Whether a validation phase's outcome is exactly the type-mismatch
/// refusal carrying the given issues under the given path prefix — or no
/// refusal at all when the issue list is empty.
pub open spec fn issues_outcome(
    r: Option<OperatorResponse>,
    ivs: Seq<(Seq<char>, Seq<char>, Seq<char>, Seq<char>)>,
    msg: Seq<char>,
    prefix: Seq<char>,
    component_ref: Seq<char>,
    digest: Seq<char>,
    op: Seq<char>,
    locale: Seq<char>,
) -> bool {
    if ivs.len() > 0 {
        r matches Some(resp) && resp.status == OperatorStatus::Error && (resp.error matches Some(
            e,
        ) && e.code == OperatorErrorCode::TypeMismatch && e.message@ == msg && (e.details_cbor
            matches Some(db) && db@ == enc(
            JVal::Arr(issues_diags(ivs, prefix, component_ref, digest, op, locale)),
        )))
    } else {
        r is None
    }
}

/// Input validation: a non-null input schema is enforced against the merged
/// input; without one, strict mode refuses a binding whose config schema
/// reference could not be loaded. The issue list is pinned exactly for
/// reference-free schemas and for the strict refusal of unsupported
/// constraints; otherwise the validator's verdict decides which issues the
/// refusal carries.
pub fn input_validation_response(
    input_schema: &JsonValue,
    input: &JsonValue,
    options: &ExecutionValidationOptions,
    config_schema_ref: Option<&str>,
    component_ref: &str,
    resolved_digest: &str,
    op_id: &str,
    locale: &str,
) -> (r: Option<OperatorResponse>)
    ensures
        !(input_schema@ is Null) && (crate::schema_validator::ref_free(input_schema@)
            || (options.strict && crate::schema_validator::unsupported_in(
            input_schema@,
            Seq::empty(),
        ).len() > 0)) ==> issues_outcome(
            r,
            crate::schema_validator::spec_validate(input_schema@, input@, options.strict),
            "input failed schema validation"@,
            "/input"@,
            component_ref@,
            resolved_digest@,
            op_id@,
            locale@,
        ),
        !(input_schema@ is Null) ==> exists|
            ivs: Seq<(Seq<char>, Seq<char>, Seq<char>, Seq<char>)>,
        |
            #[trigger] issues_outcome(
                r,
                ivs,
                "input failed schema validation"@,
                "/input"@,
                component_ref@,
                resolved_digest@,
                op_id@,
                locale@,
            ),
        ({
            if input_schema@ is Null {
                if options.strict && config_schema_ref is Some {
                let msg = "schema `"@ + config_schema_ref->0@ + "` referenced by op `"@ + op_id@
                    + "` was not found in pack"@;
                r matches Some(resp) && resp.status == OperatorStatus::Error && (resp.error
                    matches Some(e) && e.code == OperatorErrorCode::TypeMismatch && e.message@
                    == msg && (e.details_cbor matches Some(db) && db@ == one_diag_bytes(
                    error_diag_jv(
                        "schema_ref_not_found"@,
                        "/schema_hash"@,
                        "runner.operator.schema_ref_not_found"@,
                        msg,
                        locale@,
                        Some(component_ref@),
                        Some(resolved_digest@),
                        Some(op_id@),
                    ),
                )))
                } else {
                    r is None
                }
            } else {
                true
            }
        }),
{
    if !input_schema.is_null() {
        let issues = crate::schema_validator::validate_json_instance(
            input_schema,
            input,
            options.strict,
        );
        let ghost ivs = crate::schema_validator::issues_view(issues@);
        if issues.len() > 0 {
            let diags = schema_issues_to_diagnostics(
                issues,
                "/input",
                component_ref,
                resolved_digest,
                op_id,
                locale,
            );
            let resp = OperatorResponse::error_with_diagnostics(
                OperatorErrorCode::TypeMismatch,
                "input failed schema validation".to_owned(),
                diags,
            );
            proof {
                assert(issues_outcome(
                    Some(resp),
                    ivs,
                    "input failed schema validation"@,
                    "/input"@,
                    component_ref@,
                    resolved_digest@,
                    op_id@,
                    locale@,
                ));
            }
            return Some(resp);
        }
        proof {
            assert(issues_outcome(
                None::<OperatorResponse>,
                ivs,
                "input failed schema validation"@,
                "/input"@,
                component_ref@,
                resolved_digest@,
                op_id@,
                locale@,
            ));
        }
        return None;
    }
    let cref = match config_schema_ref {
        Some(c) => c,
        None => {
            return None;
        },
    };
    if !options.strict {
        return None;
    }
    let mut message = "schema `".to_owned();
    message.append(cref);
    message.append("` referenced by op `");
    message.append(op_id);
    message.append("` was not found in pack");
    let diag = diagnostic_error(
        "schema_ref_not_found",
        "/schema_hash",
        "runner.operator.schema_ref_not_found",
        message.clone(),
        Some(op_id),
        Some(component_ref),
        Some(resolved_digest),
        locale,
    );
    let ghost dv = diag_value(diag);
    let mut diags: Vec<Diagnostic> = Vec::new();
    diags.push(diag);
    proof {
        lemma_one_diag(diags@, dv);
    }
    Some(
        OperatorResponse::error_with_diagnostics(
            OperatorErrorCode::TypeMismatch,
            message,
            diags,
        ),
    )
}

/// The value an output validation inspects: the result's `output` field
/// when the result is an object carrying one, else the whole result.
pub open spec fn output_target(result: JVal) -> JVal {
    match jv_get(result, "output"@) {
        Some(o) => o,
        None => result,
    }
}

/// Output validation against a loaded output schema. The issue list is
/// pinned exactly for reference-free schemas and for the strict refusal of
/// unsupported constraints; otherwise the validator's verdict decides
/// which issues the refusal carries.
pub fn output_validation_response(
    result: &JsonValue,
    output_schema: &JsonValue,
    strict: bool,
    component_ref: &str,
    resolved_digest: &str,
    op_id: &str,
    locale: &str,
) -> (r: Option<OperatorResponse>)
    ensures
        crate::schema_validator::ref_free(output_schema@) || (strict
            && crate::schema_validator::unsupported_in(output_schema@, Seq::empty()).len() > 0)
            ==> issues_outcome(
            r,
            crate::schema_validator::spec_validate(output_schema@, output_target(result@), strict),
            "output failed schema validation"@,
            "/output"@,
            component_ref@,
            resolved_digest@,
            op_id@,
            locale@,
        ),
        exists|ivs: Seq<(Seq<char>, Seq<char>, Seq<char>, Seq<char>)>|
            #[trigger] issues_outcome(
                r,
                ivs,
                "output failed schema validation"@,
                "/output"@,
                component_ref@,
                resolved_digest@,
                op_id@,
                locale@,
            ),
{
    let target: &JsonValue = match result.get_field("output") {
        Some(o) => o,
        None => result,
    };
    let issues = crate::schema_validator::validate_json_instance(output_schema, target, strict);
    let ghost ivs = crate::schema_validator::issues_view(issues@);
    if issues.len() == 0 {
        proof {
            assert(issues_outcome(
                None::<OperatorResponse>,
                ivs,
                "output failed schema validation"@,
                "/output"@,
                component_ref@,
                resolved_digest@,
                op_id@,
                locale@,
            ));
        }
        return None;
    }
    let diags = schema_issues_to_diagnostics(
        issues,
        "/output",
        component_ref,
        resolved_digest,
        op_id,
        locale,
    );
    let resp = OperatorResponse::error_with_diagnostics(
        OperatorErrorCode::TypeMismatch,
        "output failed schema validation".to_owned(),
        diags,
    );
    proof {
        assert(issues_outcome(
            Some(resp),
            ivs,
            "output failed schema validation"@,
            "/output"@,
            component_ref@,
            resolved_digest@,
            op_id@,
            locale@,
        ));
    }
    Some(resp)
}

/// How the caller's attempt to load the config schema ended.
#[derive(Debug)]
pub enum SchemaLoad {
    Loaded(JsonValue),
    Missing,
    LoadFailed(String),
}

/// Validation of a returned `new_state`: enforced against the config
/// schema when one is referenced, with distinct findings for a missing or
/// unloadable schema; in strict mode an unreferenced schema is itself an
/// error.
pub fn new_state_response(
    result: &JsonValue,
    config_schema_ref: Option<&str>,
    config_load: &SchemaLoad,
    strict: bool,
    component_ref: &str,
    resolved_digest: &str,
    op_id: &str,
    locale: &str,
) -> (r: Option<OperatorResponse>)
    ensures
        jv_get(result@, "new_state"@) is None ==> r is None,
        ({
            jv_get(result@, "new_state"@) matches Some(ns) ==> {
                if config_schema_ref is Some {
                    match *config_load {
                        SchemaLoad::Loaded(ref schema) => {
                            let exact = issues_outcome(
                                r,
                                crate::schema_validator::spec_validate(schema@, ns, strict),
                                "new_state failed schema validation"@,
                                "/new_state"@,
                                component_ref@,
                                resolved_digest@,
                                op_id@,
                                locale@,
                            );
                            &&& (crate::schema_validator::ref_free(schema@) || (strict
                                && crate::schema_validator::unsupported_in(
                                schema@,
                                Seq::empty(),
                            ).len() > 0)) ==> exact
                            &&& exists|ivs: Seq<(Seq<char>, Seq<char>, Seq<char>, Seq<char>)>|
                                #[trigger] issues_outcome(
                                    r,
                                    ivs,
                                    "new_state failed schema validation"@,
                                    "/new_state"@,
                                    component_ref@,
                                    resolved_digest@,
                                    op_id@,
                                    locale@,
                                )
                        },
                        SchemaLoad::Missing => {
                            let msg = "config schema `"@ + config_schema_ref->0@
                                + "` required for new_state validation was not found"@;
                            r matches Some(resp) && (resp.error matches Some(e) && e.code
                                == OperatorErrorCode::TypeMismatch && e.message@ == msg && (
                            e.details_cbor matches Some(db) && db@ == one_diag_bytes(
                                error_diag_jv(
                                    "new_state_schema_missing"@,
                                    "/new_state"@,
                                    "runner.operator.new_state_schema_missing"@,
                                    msg,
                                    locale@,
                                    Some(component_ref@),
                                    Some(resolved_digest@),
                                    Some(op_id@),
                                ),
                            )))
                        },
                        SchemaLoad::LoadFailed(ref err) => {
                            let msg = "failed to load config schema `"@ + config_schema_ref->0@
                                + "` for new_state validation: "@ + err@;
                            r matches Some(resp) && (resp.error matches Some(e) && e.code
                                == OperatorErrorCode::TypeMismatch && e.message@ == msg && (
                            e.details_cbor matches Some(db) && db@ == one_diag_bytes(
                                error_diag_jv(
                                    "new_state_schema_load_failed"@,
                                    "/new_state"@,
                                    "runner.operator.new_state_schema_load_failed"@,
                                    msg,
                                    locale@,
                                    Some(component_ref@),
                                    Some(resolved_digest@),
                                    Some(op_id@),
                                ),
                            )))
                        },
                    }
                } else if strict {
                    let msg = "new_state returned but no config_schema_ref is available"@;
                    r matches Some(resp) && (resp.error matches Some(e) && e.code
                        == OperatorErrorCode::TypeMismatch && e.message@ == msg && (e.details_cbor
                        matches Some(db) && db@ == one_diag_bytes(
                        error_diag_jv(
                            "new_state_schema_unavailable"@,
                            "/new_state"@,
                            "runner.operator.new_state_schema_unavailable"@,
                            msg,
                            locale@,
                            Some(component_ref@),
                            Some(resolved_digest@),
                            Some(op_id@),
                        ),
                    )))
                } else {
                    r is None
                }
            }
        }),
{
    let new_state = match result.get_field("new_state") {
        Some(ns) => ns,
        None => {
            return None;
        },
    };
    let cref = match config_schema_ref {
        Some(c) => c,
        None => {
            if !strict {
                return None;
            }
            let message = "new_state returned but no config_schema_ref is available".to_owned();
            let diag = diagnostic_error(
                "new_state_schema_unavailable",
                "/new_state",
                "runner.operator.new_state_schema_unavailable",
                message.clone(),
                Some(op_id),
                Some(component_ref),
                Some(resolved_digest),
                locale,
            );
            let ghost dv = diag_value(diag);
            let mut diags: Vec<Diagnostic> = Vec::new();
            diags.push(diag);
            proof {
                lemma_one_diag(diags@, dv);
            }
            return Some(
                OperatorResponse::error_with_diagnostics(
                    OperatorErrorCode::TypeMismatch,
                    message,
                    diags,
                ),
            );
        },
    };
    match config_load {
        SchemaLoad::Loaded(schema) => {
            let issues = crate::schema_validator::validate_json_instance(
                schema,
                new_state,
                strict,
            );
            let ghost ivs = crate::schema_validator::issues_view(issues@);
            if issues.len() == 0 {
                proof {
                    assert(issues_outcome(
                        None::<OperatorResponse>,
                        ivs,
                        "new_state failed schema validation"@,
                        "/new_state"@,
                        component_ref@,
                        resolved_digest@,
                        op_id@,
                        locale@,
                    ));
                }
                return None;
            }
            let diags = schema_issues_to_diagnostics(
                issues,
                "/new_state",
                component_ref,
                resolved_digest,
                op_id,
                locale,
            );
            let resp = OperatorResponse::error_with_diagnostics(
                OperatorErrorCode::TypeMismatch,
                "new_state failed schema validation".to_owned(),
                diags,
            );
            proof {
                assert(issues_outcome(
                    Some(resp),
                    ivs,
                    "new_state failed schema validation"@,
                    "/new_state"@,
                    component_ref@,
                    resolved_digest@,
                    op_id@,
                    locale@,
                ));
            }
            Some(resp)
        },
        SchemaLoad::Missing => {
            let mut message = "config schema `".to_owned();
            message.append(cref);
            message.append("` required for new_state validation was not found");
            let diag = diagnostic_error(
                "new_state_schema_missing",
                "/new_state",
                "runner.operator.new_state_schema_missing",
                message.clone(),
                Some(op_id),
                Some(component_ref),
                Some(resolved_digest),
                locale,
            );
            let ghost dv = diag_value(diag);
            let mut diags: Vec<Diagnostic> = Vec::new();
            diags.push(diag);
            proof {
                lemma_one_diag(diags@, dv);
            }
            Some(
                OperatorResponse::error_with_diagnostics(
                    OperatorErrorCode::TypeMismatch,
                    message,
                    diags,
                ),
            )
        },
        SchemaLoad::LoadFailed(err) => {
            let mut message = "failed to load config schema `".to_owned();
            message.append(cref);
            message.append("` for new_state validation: ");
            message.append(err.as_str());
            let diag = diagnostic_error(
                "new_state_schema_load_failed",
                "/new_state",
                "runner.operator.new_state_schema_load_failed",
                message.clone(),
                Some(op_id),
                Some(component_ref),
                Some(resolved_digest),
                locale,
            );
            let ghost dv = diag_value(diag);
            let mut diags: Vec<Diagnostic> = Vec::new();
            diags.push(diag);
            proof {
                lemma_one_diag(diags@, dv);
            }
            Some(
                OperatorResponse::error_with_diagnostics(
                    OperatorErrorCode::TypeMismatch,
                    message,
                    diags,
                ),
            )
        },
    }
}

/// The refusal when contract introspection fails.
pub fn introspection_failed_response(
    err: &str,
    op_id: &str,
    component_ref: &str,
    resolved_digest: &str,
    locale: &str,
) -> (r: OperatorResponse)
    ensures
        ({
            let msg = "failed to introspect component contract: "@ + err@;
            &&& r.status == OperatorStatus::Error
            &&& r.error matches Some(e) && e.code == OperatorErrorCode::TypeMismatch && e.message@
                == msg && (e.details_cbor matches Some(db) && db@ == one_diag_bytes(
                error_diag_jv(
                    "contract_introspection_failed"@,
                    "/operation"@,
                    "runner.operator.contract_introspection_failed"@,
                    msg,
                    locale@,
                    Some(component_ref@),
                    Some(resolved_digest@),
                    Some(op_id@),
                ),
            ))
        }),
{
    let mut message = "failed to introspect component contract: ".to_owned();
    message.append(err);
    let diag = diagnostic_error(
        "contract_introspection_failed",
        "/operation",
        "runner.operator.contract_introspection_failed",
        message.clone(),
        Some(op_id),
        Some(component_ref),
        Some(resolved_digest),
        locale,
    );
    let ghost dv = diag_value(diag);
    let mut diags: Vec<Diagnostic> = Vec::new();
    diags.push(diag);
    proof {
        lemma_one_diag(diags@, dv);
    }
    OperatorResponse::error_with_diagnostics(OperatorErrorCode::TypeMismatch, message, diags)
}

/// The digest an invocation resolves for a component: the pack's reported
/// digest, unless it is the placeholder "unknown", in which case the
/// binding's recorded pack digest is preferred when it exists.
pub fn resolve_digest(pack_digest: &str, binding_digest: Option<&str>) -> (r: String)
    ensures
        r@ == (if pack_digest@ == "unknown"@ {
            match binding_digest {
                Some(d) => d@,
                None => pack_digest@,
            }
        } else {
            pack_digest@
        }),
{
    proof {
        reveal_strlit("unknown");
    }
    if str_eq(pack_digest, "unknown") {
        match binding_digest {
            Some(d) => d.to_owned(),
            None => pack_digest.to_owned(),
        }
    } else {
        pack_digest.to_owned()
    }
}

/// Folds resolved secrets into the attachment map, each value under its
/// alias, in request order.
pub fn attachments_from_secrets(resolved: Vec<(SecretRequest, String)>) -> (r: Vec<
    (String, JsonValue),
>)
    ensures
        crate::jsonval::fields_view(r@) == Seq::new(
            resolved@.len(),
            |i: int|
                if 0 <= i < resolved@.len() {
                    (resolved@[i].0.alias@, JVal::Text(resolved@[i].1@))
                } else {
                    (Seq::<char>::empty(), JVal::Null)
                },
        ),
{
    let ghost goal = Seq::new(
        resolved@.len(),
        |i: int|
            if 0 <= i < resolved@.len() {
                (resolved@[i].0.alias@, JVal::Text(resolved@[i].1@))
            } else {
                (Seq::<char>::empty(), JVal::Null)
            },
    );
    let mut out: Vec<(String, JsonValue)> = Vec::new();
    let mut i: usize = 0;
    let n = resolved.len();
    let mut work = resolved;
    proof {
        assert(goal.len() == n);
    }
    while i < n
        invariant
            goal == Seq::new(
                work@.len(),
                |k: int|
                    if 0 <= k < work@.len() {
                        (work@[k].0.alias@, JVal::Text(work@[k].1@))
                    } else {
                        (Seq::<char>::empty(), JVal::Null)
                    },
            ),
            n == work@.len(),
            i <= n,
            out@.len() == i,
            forall|k: int|
                0 <= k < i ==> crate::jsonval::fields_view(out@)[k] == #[trigger] goal[k],
        decreases n - i,
    {
        let alias = work[i].0.alias.clone();
        let value = work[i].1.clone();
        out.push((alias, JsonValue::Text(value)));
        i += 1;
    }
    proof {
        assert(crate::jsonval::fields_view(out@) =~= goal);
    }
    out
}

/// The schemas one invocation validates against, resolved from the
/// introspected contract with the pack's loaded schemas as fallbacks: a
/// null introspected schema defers to the loaded one; the input schema
/// defers to the config schema; and a loaded config schema wins over the
/// introspected one. Returned as (input, output, config).
pub fn resolve_contract_schemas(
    introspected: Option<&crate::introspection::IntrospectedContract>,
    config_loaded: Option<JsonValue>,
    output_loaded: Option<JsonValue>,
) -> (r: (JsonValue, JsonValue, JsonValue))
    ensures
        ({
            let icfg = (match introspected {
                Some(c) => if !(c.config_schema@ is Null) {
                    Some(c.config_schema@)
                } else {
                    None::<JVal>
                },
                None => None,
            });
            let cfg0 = (match icfg {
                Some(v) => v,
                None => match config_loaded {
                    Some(s) => s@,
                    None => JVal::Null,
                },
            });
            let iout = (match introspected {
                Some(c) => if !(c.output_schema@ is Null) {
                    Some(c.output_schema@)
                } else {
                    None::<JVal>
                },
                None => None,
            });
            let iin = (match introspected {
                Some(c) => if !(c.input_schema@ is Null) {
                    Some(c.input_schema@)
                } else {
                    None::<JVal>
                },
                None => None,
            });
            &&& r.0@ == (match iin {
                Some(v) => v,
                None => cfg0,
            })
            &&& r.1@ == (match iout {
                Some(v) => v,
                None => match output_loaded {
                    Some(s) => s@,
                    None => JVal::Null,
                },
            })
            &&& r.2@ == (match config_loaded {
                Some(s) => s@,
                None => cfg0,
            })
        }),
{
    let icfg: Option<JsonValue> = match introspected {
        Some(c) => {
            if !c.config_schema.is_null() {
                Some(c.config_schema.deep_clone())
            } else {
                None
            }
        },
        None => None,
    };
    let cfg0: JsonValue = match icfg {
        Some(v) => v,
        None => match &config_loaded {
            Some(s) => s.deep_clone(),
            None => JsonValue::Null,
        },
    };
    let output: JsonValue = match introspected {
        Some(c) if !c.output_schema.is_null() => c.output_schema.deep_clone(),
        _ => match output_loaded {
            Some(s) => s,
            None => JsonValue::Null,
        },
    };
    let input: JsonValue = match introspected {
        Some(c) if !c.input_schema.is_null() => c.input_schema.deep_clone(),
        _ => cfg0.deep_clone(),
    };
    let config: JsonValue = match config_loaded {
        Some(s) => s,
        None => cfg0,
    };
    (input, output, config)
}

} // verus!
