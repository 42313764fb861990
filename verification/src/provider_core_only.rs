use vstd::prelude::*;

use crate::strutil::{lower_char, str_eq};

verus! {

/// Whether a flag value switches provider-core-only enforcement on: the
/// lowercased value must be "1", "true" or "yes"; an absent value does not.
pub open spec fn spec_flag_enables(value: Option<Seq<char>>) -> bool {
    match value {
        Some(v) => {
            let low = v.map_values(|c: char| lower_char(c));
            low == "1"@ || low == "true"@ || low == "yes"@
        },
        None => false,
    }
}

/// Decides provider-core-only enforcement from the flag's raw value.
pub fn is_enabled_value(value: Option<&str>) -> (r: bool)
    ensures
        r == spec_flag_enables(
            match value {
                Some(v) => Some(v@),
                None => None,
            },
        ),
{
    match value {
        Some(v) => {
            let low = crate::strutil::lower_ascii(v);
            str_eq(low.as_str(), "1") || str_eq(low.as_str(), "true") || str_eq(
                low.as_str(),
                "yes",
            )
        },
        None => false,
    }
}

/// The message shown when a legacy adapter path is blocked.
pub fn blocked_message(domain: &str) -> (r: String)
    ensures
        r@ == "provider-core only mode is enabled; legacy "@ + domain@
            + " adapter is blocked. Use provider.invoke via provider-core"@,
{
    let mut out = "provider-core only mode is enabled; legacy ".to_owned();
    out.append(domain);
    out.append(" adapter is blocked. Use provider.invoke via provider-core");
    out
}

} // verus!
