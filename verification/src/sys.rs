use vstd::prelude::*;

verus! {

/// Relies on `dirs::home_dir`: the platform's home directory for the
/// current user, if one can be determined. The answer depends on the
/// environment, so nothing is promised of it.
#[verifier::external_body]
pub fn system_home_dir() -> (r: Option<String>) {
    dirs::home_dir().map(|p| p.to_string_lossy().to_string())
}

/// Relies on `dirs::config_dir`: the platform's per-user configuration
/// directory, if one can be determined. The answer depends on the
/// environment, so nothing is promised of it.
#[verifier::external_body]
pub fn system_config_dir() -> (r: Option<String>) {
    dirs::config_dir().map(|p| p.to_string_lossy().to_string())
}

} // verus!
