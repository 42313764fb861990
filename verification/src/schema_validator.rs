use vstd::prelude::*;

use serde_json::Value as SerdeValue;

use crate::jsonval::{jv_get, JVal, JsonValue};
use crate::strutil::dec_str;

verus! {

/// One validation finding, localized later.
#[derive(Debug)]
pub struct SchemaValidationIssue {
    pub code: String,
    pub path: String,
    pub message_key: String,
    pub fallback: String,
}

/// The abstract contents of an issue: code, path, message key, fallback.
pub open spec fn issue_view(i: SchemaValidationIssue) -> (Seq<char>, Seq<char>, Seq<char>, Seq<
    char,
>) {
    (i.code@, i.path@, i.message_key@, i.fallback@)
}

/// Views of a list of issues.
pub open spec fn issues_view(s: Seq<SchemaValidationIssue>) -> Seq<
    (Seq<char>, Seq<char>, Seq<char>, Seq<char>),
> {
    Seq::new(
        s.len(),
        |i: int|
            if 0 <= i < s.len() {
                issue_view(s[i])
            } else {
                issue_view(s[0])
            },
    )
}

/// The unsupported-constraint markers the strict mode refuses.
pub open spec fn marker_hits(v: JVal, path: Seq<char>) -> Seq<Seq<char>> {
    let p = (if jv_get(v, "pattern"@) is Some {
        seq![path + "/pattern"@]
    } else {
        Seq::empty()
    });
    let f = (if jv_get(v, "format"@) is Some {
        seq![path + "/format"@]
    } else {
        Seq::empty()
    });
    let pp = (if jv_get(v, "patternProperties"@) is Some {
        seq![path + "/patternProperties"@]
    } else {
        Seq::empty()
    });
    p + f + pp
}

/// Paths of every unsupported constraint in the schema, in scan order:
/// this object's markers first, then its fields in order, arrays by index.
pub open spec fn unsupported_in(v: JVal, path: Seq<char>) -> Seq<Seq<char>>
    decreases v, 1int,
{
    match v {
        JVal::Obj(fields) => marker_hits(v, path) + fields_scan(fields, path),
        _ => Seq::empty(),
    }
}

/// The hits contributed by one field's value.
pub open spec fn field_hits(f: (Seq<char>, JVal), path: Seq<char>) -> Seq<Seq<char>>
    decreases f, 1int,
{
    match f.1 {
        JVal::Obj(_) => unsupported_in(f.1, path + "/"@ + f.0),
        JVal::Arr(items) => arr_scan(items, path + "/"@ + f.0, 0),
        _ => Seq::empty(),
    }
}

/// Scan of an object's field values.
pub open spec fn fields_scan(fields: Seq<(Seq<char>, JVal)>, path: Seq<char>) -> Seq<Seq<char>>
    decreases fields, 2int,
{
    if fields.len() == 0 {
        Seq::empty()
    } else {
        field_hits(fields[0], path) + fields_scan(fields.drop_first(), path)
    }
}

/// Scan of an array's items, each under its index.
pub open spec fn arr_scan(items: Seq<JVal>, base: Seq<char>, idx: int) -> Seq<Seq<char>>
    decreases items, 0int,
{
    if items.len() == 0 {
        Seq::empty()
    } else {
        unsupported_in(items[0], base + "/"@ + dec_str(idx)) + arr_scan(
            items.drop_first(),
            base,
            idx + 1,
        )
    }
}

proof fn lemma_fields_scan_snoc(fields: Seq<(Seq<char>, JVal)>, f: (Seq<char>, JVal), path: Seq<char>)
    ensures
        fields_scan(fields.push(f), path) == fields_scan(fields, path) + field_hits(f, path),
    decreases fields.len(),
{
    if fields.len() == 0 {
        assert(fields.push(f)[0] == f);
        assert(fields.push(f).drop_first() =~= Seq::<(Seq<char>, JVal)>::empty());
        assert(fields_scan(fields.push(f).drop_first(), path) == Seq::<Seq<char>>::empty());
        assert(fields_scan(fields.push(f), path) =~= fields_scan(fields, path) + field_hits(
            f,
            path,
        ));
    } else {
        assert(fields.push(f)[0] == fields[0]);
        assert(fields.push(f).drop_first() =~= fields.drop_first().push(f));
        lemma_fields_scan_snoc(fields.drop_first(), f, path);
        assert(fields_scan(fields.push(f), path) =~= fields_scan(fields, path) + field_hits(
            f,
            path,
        ));
    }
}

proof fn lemma_arr_scan_snoc(items: Seq<JVal>, x: JVal, base: Seq<char>, idx: int)
    ensures
        arr_scan(items.push(x), base, idx) == arr_scan(items, base, idx) + unsupported_in(
            x,
            base + "/"@ + dec_str(idx + items.len()),
        ),
    decreases items.len(),
{
    if items.len() == 0 {
        assert(items.push(x)[0] == x);
        assert(items.push(x).drop_first() =~= Seq::<JVal>::empty());
        assert(arr_scan(items.push(x).drop_first(), base, idx + 1) == Seq::<Seq<char>>::empty());
        assert(arr_scan(items.push(x), base, idx) =~= arr_scan(items, base, idx) + unsupported_in(
            x,
            base + "/"@ + dec_str(idx),
        ));
    } else {
        assert(items.push(x)[0] == items[0]);
        assert(items.push(x).drop_first() =~= items.drop_first().push(x));
        lemma_arr_scan_snoc(items.drop_first(), x, base, idx + 1);
        assert(arr_scan(items.push(x), base, idx) =~= arr_scan(items, base, idx) + unsupported_in(
            x,
            base + "/"@ + dec_str(idx + items.len()),
        ));
    }
}

/// Views of a list of strings.
pub open spec fn paths_view(s: Seq<String>) -> Seq<Seq<char>> {
    Seq::new(
        s.len(),
        |i: int|
            if 0 <= i < s.len() {
                s[i]@
            } else {
                Seq::empty()
            },
    )
}

/// Collects the unsupported-constraint paths of a schema document.
fn scan_value(v: &JsonValue, path: &str, out: &mut Vec<String>)
    ensures
        paths_view(final(out)@) == paths_view(old(out)@) + unsupported_in(v@, path@),
    decreases v,
{
    match v {
        JsonValue::Object(fields) => {
            let ghost base0 = paths_view(out@);
            if v.get_field("pattern").is_some() {
                let mut p = path.to_owned();
                p.append("/pattern");
                out.push(p);
            }
            if v.get_field("format").is_some() {
                let mut p = path.to_owned();
                p.append("/format");
                out.push(p);
            }
            if v.get_field("patternProperties").is_some() {
                let mut p = path.to_owned();
                p.append("/patternProperties");
                out.push(p);
            }
            proof {
                assert(paths_view(out@) =~= base0 + marker_hits(v@, path@));
            }
            let ghost fv = crate::jsonval::fields_view(fields@);
            let ghost base1 = paths_view(out@);
            let n = fields.len();
            let mut i: usize = 0;
            proof {
                assert(fv.take(0) =~= Seq::<(Seq<char>, JVal)>::empty());
                assert(base1 =~= base1 + fields_scan(fv.take(0), path@));
            }
            while i < n
                invariant
                    *v == JsonValue::Object(*fields),
                    v@ == JVal::Obj(fv),
                    fv == crate::jsonval::fields_view(fields@),
                    n == fields.len(),
                    i <= n,
                    paths_view(out@) == base1 + fields_scan(fv.take(i as int), path@),
                decreases n - i,
            {
                let mut next = path.to_owned();
                next.append("/");
                next.append(fields[i].0.as_str());
                let ghost before = paths_view(out@);
                match &fields[i].1 {
                    JsonValue::Object(_) => {
                        proof {
                            assert(decreases_to!(*v => v->Object_0));
                            assert(decreases_to!(v->Object_0 => v->Object_0@));
                            assert(decreases_to!(v->Object_0@ => v->Object_0@[i as int]));
                            assert(decreases_to!(v->Object_0@[i as int] => v->Object_0@[
                                i as int
                            ].1));
                        }
                        scan_value(&fields[i].1, next.as_str(), out);
                        proof {
                            assert(paths_view(out@) =~= before + field_hits(
                                fv[i as int],
                                path@,
                            ));
                        }
                    },
                    JsonValue::Array(items) => {
                        let ghost av = crate::jsonval::arr_view(items@);
                        let m = items.len();
                        let mut k: usize = 0;
                        proof {
                            assert(av.take(0) =~= Seq::<JVal>::empty());
                            assert(before =~= before + arr_scan(av.take(0), next@, 0));
                        }
                        while k < m
                            invariant
                                *v == JsonValue::Object(*fields),
                                i < fields@.len(),
                                fields@[i as int].1 == JsonValue::Array(*items),
                                av == crate::jsonval::arr_view(items@),
                                m == items.len(),
                                k <= m,
                                paths_view(out@) == before + arr_scan(av.take(k as int), next@, 0),
                            decreases m - k,
                        {
                            let mut ipath = next.clone();
                            ipath.append("/");
                            let idx_s = crate::strutil::u64_to_dec(k as u64);
                            ipath.append(idx_s.as_str());
                            proof {
                                assert(decreases_to!(*v => v->Object_0));
                                assert(decreases_to!(v->Object_0 => v->Object_0@));
                                assert(decreases_to!(v->Object_0@ => v->Object_0@[i as int]));
                                assert(decreases_to!(v->Object_0@[i as int] => v->Object_0@[
                                    i as int
                                ].1));
                                assert(decreases_to!(v->Object_0@[i as int].1 => v->Object_0@[
                                    i as int
                                ].1->Array_0));
                                assert(decreases_to!(v->Object_0@[i as int].1->Array_0 => v->Object_0@[
                                    i as int
                                ].1->Array_0@));
                                assert(decreases_to!(v->Object_0@[i as int].1->Array_0@ => v->Object_0@[
                                    i as int
                                ].1->Array_0@[k as int]));
                            }
                            scan_value(&items[k], ipath.as_str(), out);
                            proof {
                                assert(av.take(k as int).push(av[k as int]) =~= av.take(
                                    k as int + 1,
                                ));
                                lemma_arr_scan_snoc(av.take(k as int), av[k as int], next@, 0);
                            }
                            k += 1;
                        }
                        proof {
                            assert(av.take(m as int) =~= av);
                            assert(field_hits(fv[i as int], path@) == arr_scan(av, next@, 0));
                        }
                    },
                    _ => {
                        proof {
                            assert(field_hits(fv[i as int], path@) == Seq::<Seq<char>>::empty());
                            assert(paths_view(out@) =~= before + field_hits(fv[i as int], path@));
                        }
                    },
                }
                proof {
                    assert(fv.take(i as int).push(fv[i as int]) =~= fv.take(i as int + 1));
                    lemma_fields_scan_snoc(fv.take(i as int), fv[i as int], path@);
                }
                i += 1;
            }
            proof {
                assert(fv.take(n as int) =~= fv);
            }
        },
        _ => {
            proof {
                assert(paths_view(out@) =~= paths_view(out@) + unsupported_in(v@, path@));
            }
        },
    }
}

#[verifier::external_type_specification]
#[verifier::external_body]
pub struct ExSerdeValue(serde_json::Value);

/// Relies on serde_json's value constructors: rebuilds the same tree, field
/// for field; byte strings become arrays of numbers.
#[verifier::external_body]
fn to_serde(v: &JsonValue) -> SerdeValue {
    match v {
        JsonValue::Null => SerdeValue::Null,
        JsonValue::Bool(b) => SerdeValue::Bool(*b),
        JsonValue::Int(n) => SerdeValue::from(*n),
        JsonValue::UInt(n) => SerdeValue::from(*n),
        JsonValue::Text(s) => SerdeValue::String(s.clone()),
        JsonValue::Bytes(b) => SerdeValue::Array(b.iter().map(|x| SerdeValue::from(*x)).collect()),
        JsonValue::Array(items) => SerdeValue::Array(items.iter().map(to_serde).collect()),
        JsonValue::Object(fields) => SerdeValue::Object(
            fields.iter().map(|(k, val)| (k.clone(), to_serde(val))).collect(),
        ),
    }
}

/// The keywords whose presence can make schema compilation resolve other
/// documents: references and base redefinitions.
pub open spec fn is_reference_keyword(k: Seq<char>) -> bool {
    k == "$ref"@ || k == "$id"@ || k == "$schema"@ || k == "$recursiveRef"@ || k
        == "$dynamicRef"@
}

/// Whether a document carries no reference keyword at any level. Only such
/// documents are validated without consulting anything outside them.
pub open spec fn ref_free(v: JVal) -> bool
    decreases v, 1int,
{
    match v {
        JVal::Obj(fields) => ref_free_fields(fields),
        JVal::Arr(items) => ref_free_items(items),
        _ => true,
    }
}

/// Reference freedom of an object's fields.
pub open spec fn ref_free_fields(fields: Seq<(Seq<char>, JVal)>) -> bool
    decreases fields, 2int,
{
    if fields.len() == 0 {
        true
    } else {
        !is_reference_keyword(fields[0].0) && ref_free(fields[0].1) && ref_free_fields(
            fields.drop_first(),
        )
    }
}

/// Reference freedom of an array's items.
pub open spec fn ref_free_items(items: Seq<JVal>) -> bool
    decreases items, 0int,
{
    if items.len() == 0 {
        true
    } else {
        ref_free(items[0]) && ref_free_items(items.drop_first())
    }
}

proof fn lemma_ref_free_fields_pointwise(fields: Seq<(Seq<char>, JVal)>)
    ensures
        ref_free_fields(fields) <==> (forall|j: int|
            0 <= j < fields.len() ==> !is_reference_keyword((#[trigger] fields[j]).0) && ref_free(
                fields[j].1,
            )),
    decreases fields.len(),
{
    if fields.len() > 0 {
        lemma_ref_free_fields_pointwise(fields.drop_first());
        assert(forall|j: int|
            1 <= j < fields.len() ==> fields.drop_first()[j - 1] == #[trigger] fields[j]);
    }
}

proof fn lemma_ref_free_items_pointwise(items: Seq<JVal>)
    ensures
        ref_free_items(items) <==> (forall|j: int|
            0 <= j < items.len() ==> ref_free(#[trigger] items[j])),
    decreases items.len(),
{
    if items.len() > 0 {
        lemma_ref_free_items_pointwise(items.drop_first());
        assert(forall|j: int|
            1 <= j < items.len() ==> items.drop_first()[j - 1] == #[trigger] items[j]);
    }
}

fn is_reference_keyword_exec(k: &str) -> (r: bool)
    ensures
        r == is_reference_keyword(k@),
{
    crate::strutil::str_eq(k, "$ref") || crate::strutil::str_eq(k, "$id")
        || crate::strutil::str_eq(k, "$schema") || crate::strutil::str_eq(k, "$recursiveRef")
        || crate::strutil::str_eq(k, "$dynamicRef")
}

/// Whether a schema document is free of reference keywords everywhere.
pub fn schema_ref_free(v: &JsonValue) -> (r: bool)
    ensures
        r == ref_free(v@),
    decreases v,
{
    match v {
        JsonValue::Object(fields) => {
            let ghost fv = crate::jsonval::fields_view(fields@);
            let n = fields.len();
            let mut i: usize = 0;
            while i < n
                invariant
                    *v == JsonValue::Object(*fields),
                    fv == crate::jsonval::fields_view(fields@),
                    n == fields.len(),
                    i <= n,
                    forall|j: int|
                        0 <= j < i ==> !is_reference_keyword((#[trigger] fv[j]).0) && ref_free(
                            fv[j].1,
                        ),
                decreases n - i,
            {
                if is_reference_keyword_exec(fields[i].0.as_str()) {
                    proof {
                        lemma_ref_free_fields_pointwise(fv);
                        assert(is_reference_keyword(fv[i as int].0));
                        assert(!ref_free_fields(fv));
                        assert(v@ == JVal::Obj(fv));
                    }
                    return false;
                }
                proof {
                    assert(decreases_to!(*v => v->Object_0));
                    assert(decreases_to!(v->Object_0 => v->Object_0@));
                    assert(decreases_to!(v->Object_0@ => v->Object_0@[i as int]));
                    assert(decreases_to!(v->Object_0@[i as int] => v->Object_0@[i as int].1));
                }
                if !schema_ref_free(&fields[i].1) {
                    proof {
                        lemma_ref_free_fields_pointwise(fv);
                        assert(!ref_free(fv[i as int].1));
                        assert(!ref_free_fields(fv));
                        assert(v@ == JVal::Obj(fv));
                    }
                    return false;
                }
                i += 1;
            }
            proof {
                lemma_ref_free_fields_pointwise(fv);
                assert(ref_free_fields(fv));
                assert(v@ == JVal::Obj(fv));
            }
            true
        },
        JsonValue::Array(items) => {
            let ghost av = crate::jsonval::arr_view(items@);
            let n = items.len();
            let mut i: usize = 0;
            while i < n
                invariant
                    *v == JsonValue::Array(*items),
                    av == crate::jsonval::arr_view(items@),
                    n == items.len(),
                    i <= n,
                    forall|j: int| 0 <= j < i ==> ref_free(#[trigger] av[j]),
                decreases n - i,
            {
                proof {
                    assert(decreases_to!(*v => v->Array_0));
                    assert(decreases_to!(v->Array_0 => v->Array_0@));
                    assert(decreases_to!(v->Array_0@ => v->Array_0@[i as int]));
                }
                if !schema_ref_free(&items[i]) {
                    proof {
                        lemma_ref_free_items_pointwise(av);
                        assert(!ref_free(av[i as int]));
                        assert(!ref_free_items(av));
                        assert(v@ == JVal::Arr(av));
                    }
                    return false;
                }
                i += 1;
            }
            proof {
                lemma_ref_free_items_pointwise(av);
                assert(ref_free_items(av));
                assert(v@ == JVal::Arr(av));
            }
            true
        },
        _ => true,
    }
}

/// Views of error pairs: instance path and message.
pub open spec fn pairs_view(s: Seq<(String, String)>) -> Seq<(Seq<char>, Seq<char>)> {
    Seq::new(
        s.len(),
        |i: int|
            if 0 <= i < s.len() {
                (s[i].0@, s[i].1@)
            } else {
                (Seq::empty(), Seq::empty())
            },
    )
}

/// Names the outcome of a draft-7 validation of `instance` against a
/// reference-free `schema`: either the error list, each with its instance
/// path and message, or the message of a schema that does not compile. For
/// such documents the outcome depends on the two documents alone; a schema
/// carrying reference keywords may be resolved through the crate's
/// retriever, so nothing is named for it.
pub uninterp spec fn draft7_validation_of(schema: JVal, instance: JVal) -> Result<
    Seq<(Seq<char>, Seq<char>)>,
    Seq<char>,
>;

/// Relies on the jsonschema crate: compiles the schema under draft 7 and
/// collects every validation error with its instance path. The crate's
/// default retriever fetches `http(s)` and `file` references while
/// building, so the outcome is asserted to be a function of the documents
/// only when the schema carries no reference keyword at all.
#[verifier::external_body]
fn draft7_validate(schema: &JsonValue, instance: &JsonValue) -> (r: Result<
    Vec<(String, String)>,
    String,
>)
    ensures
        ref_free(schema@) ==> ({
            let spec_r = draft7_validation_of(schema@, instance@);
            match r {
                Ok(v) => spec_r is Ok && pairs_view(v@) == spec_r->Ok_0,
                Err(e) => spec_r == Err::<Seq<(Seq<char>, Seq<char>)>, Seq<char>>(e@),
            }
        }),
{
    let validator = match jsonschema::options().with_draft(jsonschema::Draft::Draft7).build(
        &to_serde(schema),
    ) {
        Ok(v) => v,
        Err(e) => {
            return Err(e.to_string());
        },
    };
    Ok(
        validator.iter_errors(&to_serde(instance)).map(
            |e| (e.instance_path().to_string(), e.to_string()),
        ).collect(),
    )
}

/// The issue reported for one unsupported-constraint path.
pub open spec fn unsupported_issue(p: Seq<char>) -> (Seq<char>, Seq<char>, Seq<char>, Seq<char>) {
    (
        "unsupported_schema_constraint"@,
        p,
        "runner.schema.unsupported_constraint"@,
        "schema contains unsupported constraint"@,
    )
}

/// The issue reported for one validation error.
pub open spec fn validation_issue(e: (Seq<char>, Seq<char>)) -> (
    Seq<char>,
    Seq<char>,
    Seq<char>,
    Seq<char>,
) {
    (
        "schema_validation"@,
        if e.0.len() == 0 {
            "/"@
        } else {
            e.0
        },
        "runner.schema.validation_failed"@,
        e.1,
    )
}

/// The issue list one validator outcome maps to: a failed compilation is
/// one issue at the root, and every error becomes one issue at its
/// instance path, the root spelled "/".
pub open spec fn validator_issues(oc: Result<Seq<(Seq<char>, Seq<char>)>, Seq<char>>) -> Seq<
    (Seq<char>, Seq<char>, Seq<char>, Seq<char>),
> {
    match oc {
        Err(e) => seq![
            ("invalid_schema"@, "/"@, "runner.schema.invalid_schema"@, "invalid schema: "@ + e),
        ],
        Ok(errs) => Seq::new(
            errs.len(),
            |i: int|
                if 0 <= i < errs.len() {
                    validation_issue(errs[i])
                } else {
                    validation_issue((Seq::empty(), Seq::empty()))
                },
        ),
    }
}

/// What a validation returns. In strict mode a schema with any unsupported
/// constraint is refused outright, one issue per offending location;
/// otherwise the validator's outcome decides. For schemas carrying
/// reference keywords the named outcome is unconstrained, so this function
/// pins the result only for reference-free schemas.
pub open spec fn spec_validate(schema: JVal, instance: JVal, strict: bool) -> Seq<
    (Seq<char>, Seq<char>, Seq<char>, Seq<char>),
> {
    let un = unsupported_in(schema, Seq::empty());
    if strict && un.len() > 0 {
        Seq::new(
            un.len(),
            |i: int|
                if 0 <= i < un.len() {
                    unsupported_issue(un[i])
                } else {
                    unsupported_issue(Seq::empty())
                },
        )
    } else {
        validator_issues(draft7_validation_of(schema, instance))
    }
}

/// Validates an instance against a draft-7 schema subset. The result is
/// pinned exactly for reference-free schemas (and for the strict refusal,
/// which never consults the validator); for a schema carrying reference
/// keywords, the issues still have the validator's shape, mapped from some
/// outcome.
pub fn validate_json_instance(schema: &JsonValue, instance: &JsonValue, strict: bool) -> (r: Vec<
    SchemaValidationIssue,
>)
    ensures
        strict && unsupported_in(schema@, Seq::empty()).len() > 0 ==> issues_view(r@)
            == spec_validate(schema@, instance@, strict),
        ref_free(schema@) ==> issues_view(r@) == spec_validate(schema@, instance@, strict),
        !(strict && unsupported_in(schema@, Seq::empty()).len() > 0) ==> exists|
            oc: Result<Seq<(Seq<char>, Seq<char>)>, Seq<char>>,
        | issues_view(r@) == #[trigger] validator_issues(oc),
{
    let mut unsupported: Vec<String> = Vec::new();
    let empty_path = String::new();
    proof {
        assert(paths_view(unsupported@) =~= Seq::<Seq<char>>::empty());
        assert(Seq::<Seq<char>>::empty() + unsupported_in(schema@, empty_path@) =~= unsupported_in(
            schema@,
            Seq::empty(),
        ));
    }
    scan_value(schema, empty_path.as_str(), &mut unsupported);
    let ghost un = unsupported_in(schema@, Seq::empty());
    let mut issues: Vec<SchemaValidationIssue> = Vec::new();
    if strict && unsupported.len() > 0 {
        let n = unsupported.len();
        let mut i: usize = 0;
        while i < n
            invariant
                n == unsupported@.len(),
                paths_view(unsupported@) == un,
                un.len() == n,
                i <= n,
                issues@.len() == i,
                forall|j: int| 0 <= j < i ==> issue_view(#[trigger] issues@[j]) == unsupported_issue(un[j]),
            decreases n - i,
        {
            issues.push(SchemaValidationIssue {
                code: "unsupported_schema_constraint".to_owned(),
                path: unsupported[i].clone(),
                message_key: "runner.schema.unsupported_constraint".to_owned(),
                fallback: "schema contains unsupported constraint".to_owned(),
            });
            i += 1;
        }
        proof {
            assert(issues_view(issues@) =~= spec_validate(schema@, instance@, strict));
        }
        return issues;
    }
    match draft7_validate(schema, instance) {
        Err(e) => {
            let mut fallback = "invalid schema: ".to_owned();
            fallback.append(e.as_str());
            issues.push(SchemaValidationIssue {
                code: "invalid_schema".to_owned(),
                path: "/".to_owned(),
                message_key: "runner.schema.invalid_schema".to_owned(),
                fallback,
            });
            proof {
                let ghost oc = Err::<Seq<(Seq<char>, Seq<char>)>, Seq<char>>(e@);
                assert(issues_view(issues@) =~= validator_issues(oc));
                if ref_free(schema@) {
                    assert(issues_view(issues@) =~= spec_validate(schema@, instance@, strict));
                }
            }
            issues
        },
        Ok(errs) => {
            let ghost ev = pairs_view(errs@);
            let n = errs.len();
            let mut i: usize = 0;
            while i < n
                invariant
                    n == errs@.len(),
                    ev == pairs_view(errs@),
                    i <= n,
                    issues@.len() == i,
                    forall|j: int|
                        0 <= j < i ==> issue_view(#[trigger] issues@[j]) == validation_issue(
                            ev[j],
                        ),
                decreases n - i,
            {
                let path = if errs[i].0.as_str().unicode_len() == 0 {
                    "/".to_owned()
                } else {
                    errs[i].0.clone()
                };
                issues.push(SchemaValidationIssue {
                    code: "schema_validation".to_owned(),
                    path,
                    message_key: "runner.schema.validation_failed".to_owned(),
                    fallback: errs[i].1.clone(),
                });
                i += 1;
            }
            proof {
                let ghost oc = Ok::<Seq<(Seq<char>, Seq<char>)>, Seq<char>>(ev);
                assert(issues_view(issues@) =~= validator_issues(oc));
                if ref_free(schema@) {
                    assert(issues_view(issues@) =~= spec_validate(schema@, instance@, strict));
                }
            }
            issues
        },
    }
}

} // verus!
