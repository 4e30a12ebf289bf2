//! Base URLs for the two service endpoints.

use vstd::prelude::*;

verus! {

/// Context struct which contains the base urls used for api requests. Use the
/// associated methods to overwrite urls if necessary.
pub struct Context {
    pub base_url: String,
    pub utils_base_url: String,
}

pub open spec fn default_base_url() -> Seq<char> {
    "https://ggst-game.guiltygear.com"@
}

pub open spec fn default_utils_base_url() -> Seq<char> {
    "https://ggst-utils-default-rtdb.europe-west1.firebasedatabase.app"@
}

impl Default for Context {
    fn default() -> (r: Self)
        ensures
            r.base_url@ == default_base_url(),
            r.utils_base_url@ == default_utils_base_url(),
    {
        Context {
            base_url: String::from_str("https://ggst-game.guiltygear.com"),
            utils_base_url: String::from_str(
                "https://ggst-utils-default-rtdb.europe-west1.firebasedatabase.app",
            ),
        }
    }
}

impl Context {
    pub fn new() -> (r: Self)
        ensures
            r.base_url@ == default_base_url(),
            r.utils_base_url@ == default_utils_base_url(),
    {
        Context::default()
    }

    /// Overwrite the url used for api requests.
    pub fn base_url(self, base_url: String) -> (r: Self)
        ensures
            r.base_url == base_url,
            r.utils_base_url == self.utils_base_url,
    {
        Context { base_url, ..self }
    }

    /// Overwrite the url used for requests regarding static content, such as
    /// user ids.
    pub fn utils_base_url(self, utils_base_url: String) -> (r: Self)
        ensures
            r.utils_base_url == utils_base_url,
            r.base_url == self.base_url,
    {
        Context { utils_base_url, ..self }
    }
}

} // verus!
