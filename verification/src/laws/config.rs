//! Laws of the configuration.
use crate::config::{config_of, ConfigView};
use vstd::prelude::*;

verus! {

/// A configuration is valid if and only if no required variable is missing and TLS, where it is
/// enabled, has its files.
pub proof fn law_valid_configs_lack_nothing(c: ConfigView)
    ensures
        c.is_valid() <==> c.missing().len() == 0 && !c.lacks_tls_files(),
{
}

/// The names of the missing variables are those of the required variables that are not set.
pub proof fn law_missing_names_are_exact(c: ConfigView, name: Seq<char>)
    ensures
        c.missing().contains(name) <==> {
            ||| c.relay_username is None && name == "RELAY_USERNAME"@
            ||| c.relay_password is None && name == "RELAY_PASSWORD"@
            ||| c.sl_api_key is None && name == "SL_API_KEY"@
            ||| c.upstream_username is None && name == "UPSTREAM_USERNAME"@
            ||| c.upstream_password is None && name == "UPSTREAM_PASSWORD"@
        },
{
    let a = ConfigView::name_if_missing(c.relay_username, "RELAY_USERNAME"@);
    let b = ConfigView::name_if_missing(c.relay_password, "RELAY_PASSWORD"@);
    let d = ConfigView::name_if_missing(c.sl_api_key, "SL_API_KEY"@);
    let e = ConfigView::name_if_missing(c.upstream_username, "UPSTREAM_USERNAME"@);
    let f = ConfigView::name_if_missing(c.upstream_password, "UPSTREAM_PASSWORD"@);
    lemma_contains_concat(a, b, name);
    lemma_contains_concat(a + b, d, name);
    lemma_contains_concat(a + b + d, e, name);
    lemma_contains_concat(a + b + d + e, f, name);
    lemma_contains_if_missing(c.relay_username, "RELAY_USERNAME"@, name);
    lemma_contains_if_missing(c.relay_password, "RELAY_PASSWORD"@, name);
    lemma_contains_if_missing(c.sl_api_key, "SL_API_KEY"@, name);
    lemma_contains_if_missing(c.upstream_username, "UPSTREAM_USERNAME"@, name);
    lemma_contains_if_missing(c.upstream_password, "UPSTREAM_PASSWORD"@, name);
}

/// A variable counts as missing where it is not set or set to an empty text.
pub proof fn law_empty_variables_are_missing(vars: Map<Seq<char>, Seq<char>>)
    ensures
        config_of(vars).relay_username is Some <==> vars.contains_key("RELAY_USERNAME"@)
            && vars["RELAY_USERNAME"@].len() > 0,
        config_of(vars).relay_password is Some <==> vars.contains_key("RELAY_PASSWORD"@)
            && vars["RELAY_PASSWORD"@].len() > 0,
        config_of(vars).sl_api_key is Some <==> vars.contains_key("SL_API_KEY"@)
            && vars["SL_API_KEY"@].len() > 0,
        config_of(vars).upstream_username is Some <==> vars.contains_key("UPSTREAM_USERNAME"@)
            && vars["UPSTREAM_USERNAME"@].len() > 0,
        config_of(vars).upstream_password is Some <==> vars.contains_key("UPSTREAM_PASSWORD"@)
            && vars["UPSTREAM_PASSWORD"@].len() > 0,
{
}

/// A list holds what its two parts hold.
proof fn lemma_contains_concat(a: Seq<Seq<char>>, b: Seq<Seq<char>>, x: Seq<char>)
    ensures
        (a + b).contains(x) <==> a.contains(x) || b.contains(x),
{
    let all = a + b;
    if a.contains(x) {
        let i = choose|i: int| 0 <= i < a.len() && a[i] == x;
        assert(all[i] == x);
    }
    if b.contains(x) {
        let i = choose|i: int| 0 <= i < b.len() && b[i] == x;
        assert(all[a.len() + i] == x);
    }
    if all.contains(x) {
        let i = choose|i: int| 0 <= i < all.len() && all[i] == x;
        if i < a.len() {
            assert(a[i] == x);
        } else {
            assert(b[i - a.len()] == x);
        }
    }
}

/// The name is listed if the variable is missing.
proof fn lemma_contains_if_missing(value: Option<Seq<char>>, name: Seq<char>, x: Seq<char>)
    ensures
        ConfigView::name_if_missing(value, name).contains(x) <==> value is None && name == x,
{
    if value is None {
        assert(seq![name][0] == name);
    }
}

} // verus!
