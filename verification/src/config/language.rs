//! The language settings: the preferred language, a fallback, and
//! per-domain overrides.
use vstd::prelude::*;
use vstd::string::*;

verus! {

/// Language settings. `overrides` maps a key domain (the part of a
/// translation key before its first '.') to a language code.
pub struct LanguageConfig {
    pub preferred: String,
    pub fallback: Option<String>,
    pub overrides: Vec<(String, String)>,
}

impl Default for LanguageConfig {
    /// English, with English as fallback and no override.
    fn default() -> (r: Self)
        ensures
            r.preferred@ == "en"@,
            r.fallback matches Some(f) && f@ == "en"@,
            r.overrides@.len() == 0,
    {
        LanguageConfig {
            preferred: String::from_str("en"),
            fallback: Some(String::from_str("en")),
            overrides: Vec::new(),
        }
    }
}

} // verus!
