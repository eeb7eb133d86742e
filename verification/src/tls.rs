//! Connection security settings as they stand in the environment.

use crate::config;
use crate::dict::Dict;
use crate::store;
use crate::text;
use vstd::prelude::*;

verus! {

broadcast use vstd::string::group_string_axioms;

/// Variable that turns certificate checks off.
pub const ENV_INSECURE: &'static str = "SEMDOC_TLS_INSECURE";

/// Variable that names a file with certificates to trust.
pub const ENV_CA_BUNDLE: &'static str = "SEMDOC_CA_BUNDLE";

/// Whether a switch is on: `1`, or `true` in any case.
pub open spec fn is_on(v: Seq<char>) -> bool {
    v == "1"@ || text::lowered(v) == "true"@
}

/// Whether a switch is on.
pub fn on(v: &str) -> (r: bool)
    ensures
        r == is_on(v@),
{
    let l: String = text::to_lower(v);
    text::same(v, "1") || text::same(l.as_str(), "true")
}

/// Whether the environment turns certificate checks off.
pub open spec fn insecure_in(m: Map<Seq<char>, Seq<char>>) -> bool {
    match config::var(m, ENV_INSECURE@) {
        Some(v) => is_on(v),
        None => false,
    }
}

/// Whether certificate checks are turned off.
pub fn insecure_enabled(env: &Dict<String>) -> (r: bool)
    requires
        env.wf(),
    ensures
        r == insecure_in(config::vars(*env)),
{
    match config::get_var(env, ENV_INSECURE) {
        Some(v) => on(v.as_str()),
        None => false,
    }
}

/// The file with certificates to trust, if one is named.
pub fn ca_bundle_path(env: &Dict<String>) -> (r: Option<String>)
    requires
        env.wf(),
    ensures
        store::opt_view(r) == config::filled_var(config::vars(*env), ENV_CA_BUNDLE@),
{
    match config::get_var(env, ENV_CA_BUNDLE) {
        Some(v) => if v.as_str().is_empty() {
            None
        } else {
            Some(v)
        },
        None => None,
    }
}

} // verus!
