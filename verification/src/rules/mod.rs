//! The rules a scan applies.

pub mod duplicate_functions;
pub mod exposed_secrets;
pub mod fallback_defaults;
pub mod helper_sprawl;
pub mod large_file;
pub mod large_function;
pub mod line_rule;

pub use duplicate_functions::DuplicateFunctionsRule;
pub use exposed_secrets::ExposedSecretsRule;
pub use fallback_defaults::FallbackDefaultsRule;
pub use helper_sprawl::HelperSprawlRule;
pub use large_file::LargeFileRule;
pub use large_function::LargeFunctionRule;

use vstd::prelude::*;
use duplicate_functions::DUPLICATE_FUNCTIONS;
use exposed_secrets::EXPOSED_SECRETS;
use fallback_defaults::FALLBACK_DEFAULTS;
use helper_sprawl::HELPER_SPRAWL;
use large_file::LARGE_FILE;
use large_function::LARGE_FUNCTION;

verus! {

/// The ids of all rules, in registration order.
pub open spec fn rule_ids() -> Seq<Seq<char>> {
    seq![
        LARGE_FILE@,
        LARGE_FUNCTION@,
        DUPLICATE_FUNCTIONS@,
        HELPER_SPRAWL@,
        EXPOSED_SECRETS@,
        FALLBACK_DEFAULTS@,
    ]
}

/// All rule ids that exist in this build (for validating `include` in config).
pub fn registered_rule_ids() -> (r: Vec<&'static str>)
    ensures
        r@.map_values(|s: &'static str| s@) == rule_ids(),
{
    let r = vec![
        LARGE_FILE,
        LARGE_FUNCTION,
        DUPLICATE_FUNCTIONS,
        HELPER_SPRAWL,
        EXPOSED_SECRETS,
        FALLBACK_DEFAULTS,
    ];
    assert(r@.map_values(|s: &'static str| s@) =~= rule_ids());
    r
}

} // verus!
