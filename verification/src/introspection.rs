use vstd::prelude::*;

use crate::cbor::{cbor_encode, enc};
use crate::hashing::{sha256_prefixed, sha256_prefixed_of};
use crate::jsonval::{canon, jv_get, JVal, JsonValue};
use crate::strutil::{contains_substr, has_substring, str_eq};

verus! {

/// The contract a component reports about one of its operations.
#[derive(Debug)]
pub struct IntrospectedContract {
    pub selected_operation: String,
    pub input_schema: JsonValue,
    pub output_schema: JsonValue,
    pub config_schema: JsonValue,
    pub describe_hash: String,
    pub schema_hash: String,
}

/// An operation entry's name: its "id" when it is text, else its "name".
pub open spec fn op_name(v: JVal) -> Option<Seq<char>> {
    match jv_get(v, "id"@) {
        Some(JVal::Text(s)) => Some(s),
        _ => match jv_get(v, "name"@) {
            Some(JVal::Text(s)) => Some(s),
            _ => None,
        },
    }
}

/// Which operation a describe payload selects for a request: the entries
/// are scanned for one whose id or name equals the request; otherwise for
/// one named "run"; otherwise the first entry's own name decides.
pub open spec fn select_op(ops: Seq<JVal>, requested: Seq<char>) -> Option<Seq<char>> {
    if find_op(ops, requested) is Some {
        Some(requested)
    } else if find_op(ops, "run"@) is Some {
        Some("run"@)
    } else if ops.len() > 0 {
        op_name(ops[0])
    } else {
        None
    }
}

/// The "operations" array of a describe payload, if it is one.
pub open spec fn payload_ops(payload: JVal) -> Option<Seq<JVal>> {
    match jv_get(payload, "operations"@) {
        Some(JVal::Arr(items)) => Some(items),
        _ => None,
    }
}

/// First operation entry carrying the given name.
pub open spec fn find_op(ops: Seq<JVal>, name: Seq<char>) -> Option<JVal>
    decreases ops.len(),
{
    if ops.len() == 0 {
        None
    } else if op_name(ops[0]) == Some(name) {
        Some(ops[0])
    } else {
        find_op(ops.drop_first(), name)
    }
}

/// The schema an operation declares for one side: `<side>.schema`, or the
/// flat `<side>_schema` field; nothing when the side object is absent.
pub open spec fn side_schema(op: JVal, side: Seq<char>, flat: Seq<char>) -> Option<JVal> {
    match jv_get(op, side) {
        Some(side_obj) => match jv_get(side_obj, "schema"@) {
            Some(s) => Some(s),
            None => jv_get(op, flat),
        },
        None => None,
    }
}

/// A schema option collapsed to a value, canonicalized; absent means null.
pub open spec fn canon_or_null(o: Option<JVal>) -> JVal {
    match o {
        Some(v) => canon(v),
        None => JVal::Null,
    }
}

/// The fixed-shape record hashed as an introspected describe hash.
pub open spec fn describe_material(
    component_ref: Seq<char>,
    operation: Seq<char>,
    world: Seq<char>,
    input_schema: JVal,
    output_schema: JVal,
) -> JVal {
    JVal::Obj(
        seq![
            ("component_ref"@, JVal::Text(component_ref)),
            ("operation"@, JVal::Text(operation)),
            ("world"@, JVal::Text(world)),
            ("input_schema"@, input_schema),
            ("output_schema"@, output_schema),
        ],
    )
}

/// The fixed-shape record hashed as an introspected schema hash.
pub open spec fn schema_material(
    component_ref: Seq<char>,
    operation: Seq<char>,
    input_schema: JVal,
    output_schema: JVal,
    config_schema: JVal,
) -> JVal {
    JVal::Obj(
        seq![
            ("component_ref"@, JVal::Text(component_ref)),
            ("operation"@, JVal::Text(operation)),
            ("input_schema"@, input_schema),
            ("output_schema"@, output_schema),
            ("config_schema"@, config_schema),
        ],
    )
}

/// The digest of a record: its deterministic wire bytes, hashed and spelled
/// `sha256:<hex>`.
pub open spec fn material_hash(v: JVal) -> Seq<char> {
    sha256_prefixed_of(enc(v))
}

/// Hashes a record value.
pub fn hash_material(v: &JsonValue) -> (r: String)
    ensures
        r@ == material_hash(v@),
{
    let bytes = cbor_encode(v);
    sha256_prefixed(&bytes)
}

fn exec_op_name<'a>(v: &'a JsonValue) -> (r: Option<&'a String>)
    ensures
        match r {
            Some(s) => op_name(v@) == Some(s@),
            None => op_name(v@) is None,
        },
{
    match v.get_field("id") {
        Some(JsonValue::Text(s)) => Some(s),
        _ => match v.get_field("name") {
            Some(JsonValue::Text(s)) => Some(s),
            _ => None,
        },
    }
}

/// First operation entry carrying the given name, scanning in order.
fn exec_find_op<'a>(ops: &'a Vec<JsonValue>, name: &str) -> (r: Option<&'a JsonValue>)
    ensures
        match r {
            Some(e) => find_op(crate::jsonval::arr_view(ops@), name@) == Some(e@),
            None => find_op(crate::jsonval::arr_view(ops@), name@) is None,
        },
{
    let ghost opsv = crate::jsonval::arr_view(ops@);
    let n = ops.len();
    let mut k: usize = 0;
    while k < n
        invariant
            opsv == crate::jsonval::arr_view(ops@),
            n == ops@.len(),
            k <= n,
            forall|j: int| 0 <= j < k ==> op_name(#[trigger] opsv[j]) != Some(name@),
        decreases n - k,
    {
        let hit = match exec_op_name(&ops[k]) {
            Some(entry_name) => str_eq(entry_name.as_str(), name),
            None => false,
        };
        if hit {
            proof {
                lemma_find_op_window(opsv, name@, k as int);
            }
            return Some(&ops[k]);
        }
        k += 1;
    }
    proof {
        lemma_find_op_window(opsv, name@, n as int);
    }
    None
}

proof fn lemma_find_op_window(ops: Seq<JVal>, name: Seq<char>, i: int)
    requires
        0 <= i <= ops.len(),
        forall|j: int| 0 <= j < i ==> op_name(#[trigger] ops[j]) != Some(name),
        i < ops.len() ==> op_name(ops[i]) == Some(name),
    ensures
        find_op(ops, name) == if i < ops.len() {
            Some(ops[i])
        } else {
            None::<JVal>
        },
    decreases i,
{
    if i == 0 {
    } else {
        assert(op_name(ops[0]) != Some(name));
        lemma_find_op_window(ops.drop_first(), name, i - 1);
        assert(forall|j: int| 1 <= j < ops.len() ==> ops.drop_first()[j - 1] == #[trigger] ops[j]);
    }
}

/// The schema an operation entry declares for the input or output side.
fn exec_side_schema<'a>(op: &'a JsonValue, side: &str, flat: &str) -> (r: Option<&'a JsonValue>)
    requires
        side@ == "input"@ && flat@ == "input_schema"@ || side@ == "output"@ && flat@
            == "output_schema"@,
    ensures
        match r {
            Some(v) => side_schema(op@, side@, flat@) == Some(v@),
            None => side_schema(op@, side@, flat@) is None,
        },
{
    match op.get_field(side) {
        Some(side_obj) => match side_obj.get_field("schema") {
            Some(schema) => Some(schema),
            None => op.get_field(flat),
        },
        None => None,
    }
}

/// Canonicalizes an optional schema; absent means null.
fn exec_canon_or_null(o: Option<&JsonValue>) -> (r: JsonValue)
    ensures
        r@ == canon_or_null(
            match o {
                Some(v) => Some(v@),
                None => None,
            },
        ),
{
    match o {
        Some(v) => v.canonical(),
        None => JsonValue::Null,
    }
}

/// Builds and hashes the introspected describe record.
fn hash_describe_material(
    component_ref: &str,
    operation: &str,
    world: &str,
    input_schema: &JsonValue,
    output_schema: &JsonValue,
) -> (r: String)
    ensures
        r@ == material_hash(
            describe_material(
                component_ref@,
                operation@,
                world@,
                input_schema@,
                output_schema@,
            ),
        ),
{
    let mut fields: Vec<(String, JsonValue)> = Vec::new();
    fields.push(("component_ref".to_owned(), JsonValue::Text(component_ref.to_owned())));
    fields.push(("operation".to_owned(), JsonValue::Text(operation.to_owned())));
    fields.push(("world".to_owned(), JsonValue::Text(world.to_owned())));
    fields.push(("input_schema".to_owned(), input_schema.deep_clone()));
    fields.push(("output_schema".to_owned(), output_schema.deep_clone()));
    let ghost fv = fields@;
    let v = JsonValue::Object(fields);
    proof {
        assert(v@ == JVal::Obj(crate::jsonval::fields_view(fv)));
        assert(v@->Obj_0 =~= describe_material(
            component_ref@,
            operation@,
            world@,
            input_schema@,
            output_schema@,
        )->Obj_0);
    }
    hash_material(&v)
}

/// Builds and hashes the introspected schema record.
fn hash_schema_material(
    component_ref: &str,
    operation: &str,
    input_schema: &JsonValue,
    output_schema: &JsonValue,
    config_schema: &JsonValue,
) -> (r: String)
    ensures
        r@ == material_hash(
            schema_material(
                component_ref@,
                operation@,
                input_schema@,
                output_schema@,
                config_schema@,
            ),
        ),
{
    let mut fields: Vec<(String, JsonValue)> = Vec::new();
    fields.push(("component_ref".to_owned(), JsonValue::Text(component_ref.to_owned())));
    fields.push(("operation".to_owned(), JsonValue::Text(operation.to_owned())));
    fields.push(("input_schema".to_owned(), input_schema.deep_clone()));
    fields.push(("output_schema".to_owned(), output_schema.deep_clone()));
    fields.push(("config_schema".to_owned(), config_schema.deep_clone()));
    let ghost fv = fields@;
    let v = JsonValue::Object(fields);
    proof {
        assert(v@ == JVal::Obj(crate::jsonval::fields_view(fv)));
        assert(v@->Obj_0 =~= schema_material(
            component_ref@,
            operation@,
            input_schema@,
            output_schema@,
            config_schema@,
        )->Obj_0);
    }
    hash_material(&v)
}

/// The world identifier of components whose contracts can be introspected.
pub open spec fn describe_world() -> Seq<char> {
    "greentic:component@0.6.0"@
}

/// Introspects a component's contract from its describe payload. Components
/// of other worlds report nothing; a 0.6 component without a payload is an
/// error, as is a payload without a selectable operation.
pub fn introspect_component_contract(
    world: &str,
    describe_payload: Option<&JsonValue>,
    component_ref: &str,
    requested_operation: &str,
) -> (r: Result<Option<IntrospectedContract>, String>)
    ensures
        !has_substring(world@, describe_world()) ==> (r matches Ok(o) && o is None),
        has_substring(world@, describe_world()) && describe_payload is None ==> (r matches Err(e)
            && e@ == "component does not export 0.6 describe()"@),
        ({
            if has_substring(world@, describe_world()) {
                describe_payload matches Some(p) ==> {
                let err_msg = "operation `"@ + requested_operation@
                    + "` not present in 0.6 describe payload for component `"@ + component_ref@
                    + "`"@;
                match payload_ops(p@) {
                    None => r matches Err(e) && e@ == err_msg,
                    Some(ops) => match select_op(ops, requested_operation@) {
                        None => r matches Err(e) && e@ == err_msg,
                        Some(sel) => r matches Ok(o) && (o matches Some(c) && {
                            let input = canon_or_null(
                                match find_op(ops, sel) {
                                    Some(op) => side_schema(op, "input"@, "input_schema"@),
                                    None => None,
                                },
                            );
                            let output = canon_or_null(
                                match find_op(ops, sel) {
                                    Some(op) => side_schema(op, "output"@, "output_schema"@),
                                    None => None,
                                },
                            );
                            let config = canon_or_null(jv_get(p@, "config_schema"@));
                            &&& c.selected_operation@ == sel
                            &&& c.input_schema@ == input
                            &&& c.output_schema@ == output
                            &&& c.config_schema@ == config
                            &&& c.describe_hash@ == material_hash(
                                describe_material(component_ref@, sel, world@, input, output),
                            )
                            &&& c.schema_hash@ == material_hash(
                                schema_material(component_ref@, sel, input, output, config),
                            )
                        }),
                    },
                }
            }
            } else {
                true
            }
        }),
{
    if !contains_substr(world, "greentic:component@0.6.0") {
        return Ok(None);
    }
    let payload = match describe_payload {
        Some(p) => p,
        None => {
            return Err("component does not export 0.6 describe()".to_owned());
        },
    };
    let mut not_present = "operation `".to_owned();
    not_present.append(requested_operation);
    not_present.append("` not present in 0.6 describe payload for component `");
    not_present.append(component_ref);
    not_present.append("`");
    let ops: &Vec<JsonValue> = match payload.get_field("operations") {
        Some(JsonValue::Array(items)) => items,
        _ => {
            return Err(not_present);
        },
    };
    let ghost opsv = crate::jsonval::arr_view(ops@);
    proof {
        assert(payload_ops(payload@) == Some(opsv));
    }
    // scan for the requested operation, then for "run", then the first entry
    let selected: String = if exec_find_op(ops, requested_operation).is_some() {
        requested_operation.to_owned()
    } else if exec_find_op(ops, "run").is_some() {
        "run".to_owned()
    } else if ops.len() > 0 {
        match exec_op_name(&ops[0]) {
            Some(first_entry_name) => first_entry_name.clone(),
            None => {
                return Err(not_present);
            },
        }
    } else {
        return Err(not_present);
    };
    let ghost sel = selected@;
    let entry: Option<&JsonValue> = exec_find_op(ops, selected.as_str());
    let input_schema = match entry {
        Some(op) => exec_canon_or_null(exec_side_schema(op, "input", "input_schema")),
        None => JsonValue::Null,
    };
    let output_schema = match entry {
        Some(op) => exec_canon_or_null(exec_side_schema(op, "output", "output_schema")),
        None => JsonValue::Null,
    };
    let config_schema = exec_canon_or_null(payload.get_field("config_schema"));
    let describe_hash = hash_describe_material(
        component_ref,
        selected.as_str(),
        world,
        &input_schema,
        &output_schema,
    );
    let schema_hash = hash_schema_material(
        component_ref,
        selected.as_str(),
        &input_schema,
        &output_schema,
        &config_schema,
    );
    Ok(
        Some(
            IntrospectedContract {
                selected_operation: selected,
                input_schema,
                output_schema,
                config_schema,
                describe_hash,
                schema_hash,
            },
        ),
    )
}

/// The fixed-shape record the pipeline hashes as a fallback describe hash,
/// when the component's own describe payload is unavailable.
pub open spec fn fallback_describe_material(
    resolved_digest: Seq<char>,
    component_ref: Seq<char>,
    world: Seq<char>,
    export: Seq<char>,
    pack_ref: Seq<char>,
    input_schema: JVal,
    output_schema: JVal,
) -> JVal {
    JVal::Obj(
        seq![
            ("resolved_digest"@, JVal::Text(resolved_digest)),
            ("component_ref"@, JVal::Text(component_ref)),
            ("world"@, JVal::Text(world)),
            ("export"@, JVal::Text(export)),
            ("pack_ref"@, JVal::Text(pack_ref)),
            ("input_schema"@, input_schema),
            ("output_schema"@, output_schema),
        ],
    )
}

/// The fixed-shape record the pipeline hashes as a fallback schema hash.
pub open spec fn fallback_schema_material(
    resolved_digest: Seq<char>,
    component_ref: Seq<char>,
    operation_id: Seq<char>,
    world: Seq<char>,
    export: Seq<char>,
    input_schema: JVal,
    output_schema: JVal,
    config_schema: JVal,
    state_schema_ref: Option<Seq<char>>,
) -> JVal {
    JVal::Obj(
        seq![
            ("resolved_digest"@, JVal::Text(resolved_digest)),
            ("component_ref"@, JVal::Text(component_ref)),
            ("operation_id"@, JVal::Text(operation_id)),
            ("world"@, JVal::Text(world)),
            ("export"@, JVal::Text(export)),
            ("input_schema"@, input_schema),
            ("output_schema"@, output_schema),
            ("config_schema"@, config_schema),
            (
                "state_schema_ref"@,
                match state_schema_ref {
                    Some(sr) => JVal::Text(sr),
                    None => JVal::Null,
                },
            ),
        ],
    )
}

/// Computes the pipeline's fallback contract hashes over canonicalized
/// schemas: the describe hash, then the schema hash.
pub fn compute_contract_hashes(
    resolved_digest: &str,
    component_ref: &str,
    operation_id: &str,
    world: &str,
    export: &str,
    input_schema: &JsonValue,
    output_schema: &JsonValue,
    config_schema: &JsonValue,
    state_schema_ref: Option<&str>,
    pack_ref: &str,
) -> (r: (String, String))
    ensures
        r.0@ == material_hash(
            fallback_describe_material(
                resolved_digest@,
                component_ref@,
                world@,
                export@,
                pack_ref@,
                canon(input_schema@),
                canon(output_schema@),
            ),
        ),
        r.1@ == material_hash(
            fallback_schema_material(
                resolved_digest@,
                component_ref@,
                operation_id@,
                world@,
                export@,
                canon(input_schema@),
                canon(output_schema@),
                canon(config_schema@),
                match state_schema_ref {
                    Some(sr) => Some(sr@),
                    None => None,
                },
            ),
        ),
{
    let ci = input_schema.canonical();
    let co = output_schema.canonical();
    let cc = config_schema.canonical();
    let mut dfields: Vec<(String, JsonValue)> = Vec::new();
    dfields.push(("resolved_digest".to_owned(), JsonValue::Text(resolved_digest.to_owned())));
    dfields.push(("component_ref".to_owned(), JsonValue::Text(component_ref.to_owned())));
    dfields.push(("world".to_owned(), JsonValue::Text(world.to_owned())));
    dfields.push(("export".to_owned(), JsonValue::Text(export.to_owned())));
    dfields.push(("pack_ref".to_owned(), JsonValue::Text(pack_ref.to_owned())));
    dfields.push(("input_schema".to_owned(), ci.deep_clone()));
    dfields.push(("output_schema".to_owned(), co.deep_clone()));
    let ghost dfv = dfields@;
    let dv = JsonValue::Object(dfields);
    proof {
        assert(dv@ == JVal::Obj(crate::jsonval::fields_view(dfv)));
        assert(dv@->Obj_0 =~= fallback_describe_material(
            resolved_digest@,
            component_ref@,
            world@,
            export@,
            pack_ref@,
            canon(input_schema@),
            canon(output_schema@),
        )->Obj_0);
    }
    let describe_hash = hash_material(&dv);
    let mut sfields: Vec<(String, JsonValue)> = Vec::new();
    sfields.push(("resolved_digest".to_owned(), JsonValue::Text(resolved_digest.to_owned())));
    sfields.push(("component_ref".to_owned(), JsonValue::Text(component_ref.to_owned())));
    sfields.push(("operation_id".to_owned(), JsonValue::Text(operation_id.to_owned())));
    sfields.push(("world".to_owned(), JsonValue::Text(world.to_owned())));
    sfields.push(("export".to_owned(), JsonValue::Text(export.to_owned())));
    sfields.push(("input_schema".to_owned(), ci));
    sfields.push(("output_schema".to_owned(), co));
    sfields.push(("config_schema".to_owned(), cc));
    sfields.push(
        (
            "state_schema_ref".to_owned(),
            match state_schema_ref {
                Some(sr) => JsonValue::Text(sr.to_owned()),
                None => JsonValue::Null,
            },
        ),
    );
    let ghost sfv = sfields@;
    let sv = JsonValue::Object(sfields);
    proof {
        assert(sv@ == JVal::Obj(crate::jsonval::fields_view(sfv)));
        assert(sv@->Obj_0 =~= fallback_schema_material(
            resolved_digest@,
            component_ref@,
            operation_id@,
            world@,
            export@,
            canon(input_schema@),
            canon(output_schema@),
            canon(config_schema@),
            match state_schema_ref {
                Some(sr) => Some(sr@),
                None => None,
            },
        )->Obj_0);
    }
    let schema_hash = hash_material(&sv);
    (describe_hash, schema_hash)
}

} // verus!
