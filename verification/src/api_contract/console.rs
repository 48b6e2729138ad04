//! Product-neutral browser-suite navigation contract.
//!
//! Products own their routes and domain navigation. A deployment may expose one
//! trusted hub destination so separately delivered consoles can return to the
//! suite without learning account, tenant, billing, or product topology.
use vstd::prelude::*;

verus! {

/// Same-origin endpoint serving [`SuiteNavigation`].
pub const SUITE_NAVIGATION_PATH: &'static str = "/.well-known/awaken-suite-navigation";

/// Optional deployment-owned navigation out of one product console.
#[derive(Debug, Clone, PartialEq, Eq)]
pub struct SuiteNavigation {
    /// Exact trusted URL of the suite hub. `None` keeps a standalone product
    /// self-contained and must not be replaced by hostname inference.
    pub hub_url: Option<String>,
}

impl Default for SuiteNavigation {
    fn default() -> (navigation: Self)
        ensures
            navigation.hub_url is None,
    {
        SuiteNavigation { hub_url: None }
    }
}

} // verus!
