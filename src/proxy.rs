use vstd::prelude::*;
use vstd::string::StringExecFns;

verus! {

/// Forwards bus calls to an HTTP server below `base_url`.
#[derive(Clone, Debug)]
pub struct GsbToHttpProxy {
    pub base_url: String,
}

impl GsbToHttpProxy {
    pub fn new(base_url: String) -> (r: GsbToHttpProxy)
        ensures
            r.base_url@ == base_url@,
    {
        GsbToHttpProxy { base_url }
    }

    /// The address that a call on `path` goes to: the base address followed by the path.
    pub fn url(&self, path: &str) -> (r: String)
        ensures
            r@ == self.base_url@ + path@,
    {
        let mut url = self.base_url.clone();
        url.append(path);
        url
    }
}

} // verus!
