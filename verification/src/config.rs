use vstd::prelude::*;

use crate::models::Config;
use crate::text::str_eq;

verus! {

/// Loads and checks the configuration; reading and writing the file is left to the caller.
pub struct ConfigManager;

/// Why a configuration is refused.
pub enum ConfigError {
    /// The API key is empty or still the placeholder of the sample file.
    InvalidApiKey,
}

/// The API key that the sample configuration file holds.
pub open spec fn placeholder_api_key() -> Seq<char> {
    "your_mteam_api_key_here"@
}

impl ConfigManager {
    /// Accepts a configuration unless its API key is empty or the placeholder.
    pub fn check(config: &Config) -> (r: Result<(), ConfigError>)
        ensures
            r is Err <==> (config.api_key@.len() == 0 || config.api_key@ == placeholder_api_key()),
    {
        if config.api_key.as_str().is_empty() || str_eq(
            config.api_key.as_str(),
            "your_mteam_api_key_here",
        ) {
            Err(ConfigError::InvalidApiKey)
        } else {
            Ok(())
        }
    }
}

impl ConfigError {
    /// The message shown for this error.
    pub fn message(&self) -> (r: String)
        ensures
            r@ == "API Key 未配置或无效\n请在 config.yaml 中填入有效的 M-Team API Key"@,
    {
        "API Key 未配置或无效\n请在 config.yaml 中填入有效的 M-Team API Key".to_owned()
    }
}

} // verus!
