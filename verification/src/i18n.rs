use vstd::prelude::*;

use crate::strutil::{lower_char, lower_char_exec, str_eq, trim, trim_spec};

verus! {

/// A message key together with its English fallback text.
#[derive(Debug)]
pub struct I18nText {
    pub message_key: String,
    pub fallback: String,
}

impl I18nText {
    pub fn new(message_key: &str, fallback: &str) -> (r: Self)
        ensures
            r.message_key@ == message_key@,
            r.fallback@ == fallback@,
    {
        I18nText { message_key: message_key.to_owned(), fallback: fallback.to_owned() }
    }
}

/// Locale normalization maps '_' to '-' and ASCII-lowercases, per character.
pub open spec fn dash_lower(c: char) -> char {
    if c == '_' {
        '-'
    } else {
        lower_char(c)
    }
}

/// Index of the first '-' in the sequence, or its length if none occurs.
pub open spec fn dash_split(s: Seq<char>) -> int
    decreases s.len(),
{
    if s.len() == 0 {
        0
    } else if s[0] == '-' {
        0
    } else {
        1 + dash_split(s.drop_first())
    }
}

/// The primary tag: everything before the first '-'.
pub open spec fn primary_of(s: Seq<char>) -> Seq<char> {
    s.take(dash_split(s))
}

/// What `normalize_locale` returns: lowercase primary tag, or "en" when empty.
pub open spec fn spec_normalize_locale(s: Seq<char>) -> Seq<char> {
    let mapped = s.map_values(|c: char| dash_lower(c));
    let p = primary_of(mapped);
    if p.len() == 0 {
        "en"@
    } else {
        p
    }
}

proof fn lemma_dash_split_window(s: Seq<char>, i: int)
    requires
        0 <= i <= s.len(),
        forall|j: int| 0 <= j < i ==> s[j] != '-',
        i < s.len() ==> s[i] == '-',
    ensures
        dash_split(s) == i,
    decreases i,
{
    if i == 0 {
        if s.len() > 0 {
            assert(s[0] == '-');
        }
    } else {
        assert(s[0] != '-');
        lemma_dash_split_window(s.drop_first(), i - 1);
    }
}

proof fn lemma_dash_split_bounds(s: Seq<char>)
    ensures
        0 <= dash_split(s) <= s.len(),
        forall|j: int| 0 <= j < dash_split(s) ==> s[j] != '-',
    decreases s.len(),
{
    if s.len() > 0 && s[0] != '-' {
        lemma_dash_split_bounds(s.drop_first());
        assert(forall|j: int| 1 <= j < dash_split(s) ==> s[j] == s.drop_first()[j - 1]);
    }
}

/// Reduces a locale tag to its lowercase primary tag; blank input becomes "en".
pub fn normalize_locale(value: &str) -> (r: String)
    ensures
        r@ == spec_normalize_locale(value@),
{
    let ghost mapped = value@.map_values(|c: char| dash_lower(c));
    let n = value.unicode_len();
    let mut low = String::new();
    let mut i: usize = 0;
    while i < n
        invariant
            n == value@.len(),
            i <= n,
            low@ == value@.take(i as int).map_values(|c: char| dash_lower(c)),
        decreases n - i,
    {
        let c = value.get_char(i);
        let mapped_c = if c == '_' {
            '-'
        } else {
            lower_char_exec(c)
        };
        low.push(mapped_c);
        proof {
            assert(value@.take(i + 1).map_values(|c: char| dash_lower(c)) =~= value@.take(
                i as int,
            ).map_values(|c: char| dash_lower(c)).push(dash_lower(value@[i as int])));
        }
        i += 1;
    }
    proof {
        assert(value@.take(n as int) =~= value@);
        assert(low@ == mapped);
    }
    let mut cut: usize = 0;
    while cut < n && low.as_str().get_char(cut) != '-'
        invariant
            n == low@.len(),
            low@ == mapped,
            cut <= n,
            forall|j: int| 0 <= j < cut ==> mapped[j] != '-',
        decreases n - cut,
    {
        cut += 1;
    }
    proof {
        lemma_dash_split_window(mapped, cut as int);
    }
    if cut == 0 {
        "en".to_owned()
    } else {
        let p = low.as_str().substring_char(0, cut);
        proof {
            assert(p@ =~= mapped.take(cut as int));
        }
        p.to_owned()
    }
}

/// The locale that `select_locale_with_sources` picks, by source precedence.
pub open spec fn spec_pick_locale(
    cli: Option<Seq<char>>,
    explicit: Option<Seq<char>>,
    env_locale: Option<Seq<char>>,
    system: Option<Seq<char>>,
) -> Seq<char> {
    if cli is Some && trim_spec(cli->0).len() > 0 {
        spec_normalize_locale(trim_spec(cli->0))
    } else if explicit is Some && trim_spec(explicit->0).len() > 0 {
        spec_normalize_locale(trim_spec(explicit->0))
    } else if env_locale is Some && trim_spec(env_locale->0).len() > 0 {
        spec_normalize_locale(trim_spec(env_locale->0))
    } else if system is Some && trim_spec(system->0).len() > 0 {
        spec_normalize_locale(trim_spec(system->0))
    } else {
        "en"@
    }
}

/// Picks the first non-blank source by precedence (CLI, explicit, environment,
/// system) and normalizes it; "en" when none is usable.
pub fn select_locale_with_sources(
    cli_locale: Option<&str>,
    explicit: Option<&str>,
    env_locale: Option<&str>,
    system_locale: Option<&str>,
) -> (r: String)
    ensures
        r@ == spec_pick_locale(
            match cli_locale {
                Some(s) => Some(s@),
                None => None,
            },
            match explicit {
                Some(s) => Some(s@),
                None => None,
            },
            match env_locale {
                Some(s) => Some(s@),
                None => None,
            },
            match system_locale {
                Some(s) => Some(s@),
                None => None,
            },
        ),
{
    if let Some(value) = cli_locale {
        let t = trim(value);
        if t.as_str().unicode_len() > 0 {
            return normalize_locale(t.as_str());
        }
    }
    if let Some(value) = explicit {
        let t = trim(value);
        if t.as_str().unicode_len() > 0 {
            return normalize_locale(t.as_str());
        }
    }
    if let Some(value) = env_locale {
        let t = trim(value);
        if t.as_str().unicode_len() > 0 {
            return normalize_locale(t.as_str());
        }
    }
    if let Some(value) = system_locale {
        let t = trim(value);
        if t.as_str().unicode_len() > 0 {
            return normalize_locale(t.as_str());
        }
    }
    "en".to_owned()
}

/// English text for the runner's built-in message keys.
pub open spec fn spec_english_message(key: Seq<char>) -> Option<Seq<char>> {
    if key == "runner.operator.schema_hash_mismatch"@ {
        Some("schema hash mismatch between request and resolved contract"@)
    } else if key == "runner.operator.contract_introspection_failed"@ {
        Some("failed to introspect component contract"@)
    } else if key == "runner.operator.schema_ref_not_found"@ {
        Some("referenced schema not found in pack"@)
    } else if key == "runner.operator.schema_load_failed"@ {
        Some("failed to load referenced schema"@)
    } else if key == "runner.operator.new_state_schema_missing"@ {
        Some("missing config schema required for new_state validation"@)
    } else if key == "runner.operator.new_state_schema_load_failed"@ {
        Some("failed to load config schema for new_state validation"@)
    } else if key == "runner.operator.new_state_schema_unavailable"@ {
        Some("new_state schema unavailable in strict mode"@)
    } else if key == "runner.operator.tenant_mismatch"@ {
        Some("request tenant does not match routed tenant"@)
    } else if key == "runner.operator.missing_provider_selector"@ {
        Some("request must include provider_id or provider_type"@)
    } else if key == "runner.operator.provider_not_found"@ {
        Some("provider not found"@)
    } else if key == "runner.operator.op_not_found"@ {
        Some("operation not found"@)
    } else if key == "runner.operator.resolve_error"@ {
        Some("failed to resolve provider operation"@)
    } else if key == "runner.schema.unsupported_constraint"@ {
        Some("schema includes unsupported constraint"@)
    } else if key == "runner.schema.invalid_schema"@ {
        Some("invalid schema document"@)
    } else if key == "runner.schema.validation_failed"@ {
        Some("schema validation failed"@)
    } else {
        None
    }
}

fn english_message(key: &str) -> (r: Option<&'static str>)
    ensures
        match r {
            Some(m) => spec_english_message(key@) == Some(m@),
            None => spec_english_message(key@) is None,
        },
{
    if str_eq(key, "runner.operator.schema_hash_mismatch") {
        Some("schema hash mismatch between request and resolved contract")
    } else if str_eq(key, "runner.operator.contract_introspection_failed") {
        Some("failed to introspect component contract")
    } else if str_eq(key, "runner.operator.schema_ref_not_found") {
        Some("referenced schema not found in pack")
    } else if str_eq(key, "runner.operator.schema_load_failed") {
        Some("failed to load referenced schema")
    } else if str_eq(key, "runner.operator.new_state_schema_missing") {
        Some("missing config schema required for new_state validation")
    } else if str_eq(key, "runner.operator.new_state_schema_load_failed") {
        Some("failed to load config schema for new_state validation")
    } else if str_eq(key, "runner.operator.new_state_schema_unavailable") {
        Some("new_state schema unavailable in strict mode")
    } else if str_eq(key, "runner.operator.tenant_mismatch") {
        Some("request tenant does not match routed tenant")
    } else if str_eq(key, "runner.operator.missing_provider_selector") {
        Some("request must include provider_id or provider_type")
    } else if str_eq(key, "runner.operator.provider_not_found") {
        Some("provider not found")
    } else if str_eq(key, "runner.operator.op_not_found") {
        Some("operation not found")
    } else if str_eq(key, "runner.operator.resolve_error") {
        Some("failed to resolve provider operation")
    } else if str_eq(key, "runner.schema.unsupported_constraint") {
        Some("schema includes unsupported constraint")
    } else if str_eq(key, "runner.schema.invalid_schema") {
        Some("invalid schema document")
    } else if str_eq(key, "runner.schema.validation_failed") {
        Some("schema validation failed")
    } else {
        None
    }
}

/// What `resolve_message` returns: the English text of a known key under the
/// "en" locale, the fallback otherwise.
pub open spec fn spec_resolve_message(
    key: Seq<char>,
    fallback: Seq<char>,
    locale: Seq<char>,
) -> Seq<char> {
    if spec_normalize_locale(locale) == "en"@ {
        match spec_english_message(key) {
            Some(m) => m,
            None => fallback,
        }
    } else {
        fallback
    }
}

/// Resolves a message key in the given locale, falling back to `fallback`.
pub fn resolve_message(key: &str, fallback: &str, locale: &str) -> (r: String)
    ensures
        r@ == spec_resolve_message(key@, fallback@, locale@),
{
    let normalized = normalize_locale(locale);
    if str_eq(normalized.as_str(), "en") {
        match english_message(key) {
            Some(m) => m.to_owned(),
            None => fallback.to_owned(),
        }
    } else {
        fallback.to_owned()
    }
}

/// Resolves an `I18nText` in the given locale.
pub fn resolve_text(text: &I18nText, locale: &str) -> (r: String)
    ensures
        r@ == spec_resolve_message(text.message_key@, text.fallback@, locale@),
{
    resolve_message(text.message_key.as_str(), text.fallback.as_str(), locale)
}

/// Law: locale normalization is idempotent.
pub proof fn lemma_normalize_locale_idempotent(s: Seq<char>)
    ensures
        spec_normalize_locale(spec_normalize_locale(s)) == spec_normalize_locale(s),
{
    let mapped = s.map_values(|c: char| dash_lower(c));
    let p = primary_of(mapped);
    lemma_dash_split_bounds(mapped);
    if p.len() == 0 {
        lemma_normalize_en();
    } else {
        lemma_normalize_fixed(p);
        assert(forall|j: int| 0 <= j < p.len() ==> p[j] == mapped[j] && mapped[j] != '-');
        assert(forall|j: int| 0 <= j < p.len() ==> #[trigger] dash_lower(p[j]) == p[j]) by {
            assert(forall|c: char| #[trigger] dash_lower(dash_lower(c)) == dash_lower(c));
        }
    }
}

/// "en" normalizes to itself.
proof fn lemma_normalize_en()
    ensures
        spec_normalize_locale("en"@) == "en"@,
{
    reveal_strlit("en");
    let e = "en"@;
    let m = e.map_values(|c: char| dash_lower(c));
    assert(m =~= e);
    lemma_dash_split_bounds(e);
    assert(e[0] != '-' && e[1] != '-');
    lemma_dash_split_window(e, 2);
    assert(primary_of(e) =~= e);
}

/// A nonempty dash-free string of fixed characters normalizes to itself.
proof fn lemma_normalize_fixed(p: Seq<char>)
    requires
        p.len() > 0,
        forall|j: int| 0 <= j < p.len() ==> #[trigger] dash_lower(p[j]) == p[j],
        forall|j: int| 0 <= j < p.len() ==> p[j] != '-',
    ensures
        spec_normalize_locale(p) == p,
{
    let m = p.map_values(|c: char| dash_lower(c));
    assert(m =~= p);
    lemma_dash_split_window(p, p.len() as int);
    assert(primary_of(p) =~= p);
}

/// Law: locale selection always yields a normalization fixed point.
pub proof fn lemma_selected_locale_normalized(
    cli: Option<Seq<char>>,
    explicit: Option<Seq<char>>,
    env_locale: Option<Seq<char>>,
    system: Option<Seq<char>>,
)
    ensures
        spec_normalize_locale(spec_pick_locale(cli, explicit, env_locale, system))
            == spec_pick_locale(cli, explicit, env_locale, system),
{
    if cli is Some && trim_spec(cli->0).len() > 0 {
        lemma_normalize_locale_idempotent(trim_spec(cli->0));
    } else if explicit is Some && trim_spec(explicit->0).len() > 0 {
        lemma_normalize_locale_idempotent(trim_spec(explicit->0));
    } else if env_locale is Some && trim_spec(env_locale->0).len() > 0 {
        lemma_normalize_locale_idempotent(trim_spec(env_locale->0));
    } else if system is Some && trim_spec(system->0).len() > 0 {
        lemma_normalize_locale_idempotent(trim_spec(system->0));
    } else {
        lemma_normalize_en();
    }
}

} // verus!
