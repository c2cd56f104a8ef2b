//! The configuration of the translation backend call. The call itself — an
//! HTTP request to a language-model server — is the caller's, outside this
//! crate; only the configuration it is driven by is modelled here.
use vstd::prelude::*;
use crate::Input;

verus! {

/// Everything one translation run is driven by.
pub struct Config {
    pub host: String,
    pub api_key: String,
    pub model: String,
    pub input: Input,
    pub output_file: Option<String>,
    pub languages: String,
    pub verbose: bool,
}

} // verus!
