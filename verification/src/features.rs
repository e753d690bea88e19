//! The report of which optional features a build enabled.  Turning it into
//! JSON is done by the program around it, with serde.

use vstd::prelude::*;
use vstd::string::*;

verus! {

/// Which features were enabled, and when the program was built.
#[derive(Debug)]
pub struct FeatureReport {
    pub basic_enabled: bool,
    pub advanced_enabled: bool,
    pub json_output_enabled: bool,
    pub compile_time: String,
}

impl FeatureReport {
    /// A report of the given features, built `2026-06-05`.
    pub fn new(basic_enabled: bool, advanced_enabled: bool, json_output_enabled: bool) -> (r:
        FeatureReport)
        ensures
            r.basic_enabled == basic_enabled,
            r.advanced_enabled == advanced_enabled,
            r.json_output_enabled == json_output_enabled,
            r.compile_time@ == "2026-06-05"@,
    {
        FeatureReport {
            basic_enabled,
            advanced_enabled,
            json_output_enabled,
            compile_time: String::from_str("2026-06-05"),
        }
    }
}

} // verus!
