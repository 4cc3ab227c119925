//! Where requests go: a service's address, credentials and whether requests are logged.
use crate::config::ServiceConfig;
use crate::confluence_meta::trim_trailing_slashes;
use crate::text::strip_trailing;
use vstd::prelude::*;
use vstd::string::*;

verus! {

/// The endpoint of a service: its address without trailing slashes, the account's email
/// and API token, and whether requests are logged.
pub struct Endpoint {
    pub base_url: String,
    pub email: String,
    pub api_token: String,
    pub verbose: bool,
}

impl Endpoint {
    /// The endpoint of a service's settings.
    pub fn new(config: &ServiceConfig, verbose: bool) -> (r: Endpoint)
        ensures
            r.base_url@ == strip_trailing(config@.base_url, '/'),
            r.email@ == config@.email,
            r.api_token@ == config@.api_token,
            r.verbose == verbose,
    {
        Endpoint {
            base_url: trim_trailing_slashes(config.base_url.as_str()),
            email: config.email.clone(),
            api_token: config.api_token.clone(),
            verbose,
        }
    }

    /// The address of a path on the service.
    pub fn url(&self, path: &str) -> (r: String)
        ensures
            r@ == self.base_url@ + path@,
    {
        let mut s = self.base_url.clone();
        s.append(path);
        s
    }

    /// The line that logs a request, when requests are logged.
    pub fn request_log(&self, method: &str, path: &str) -> (r: Option<String>)
        ensures
            r matches Some(s) ==> self.verbose && s@ == "[verbose] "@ + method@ + " "@ + self.base_url@ + path@,
            r is None ==> !self.verbose,
    {
        if !self.verbose {
            return None;
        }
        let mut s = "[verbose] ".to_owned();
        s.append(method);
        s.append(" ");
        s.append(self.base_url.as_str());
        s.append(path);
        Some(s)
    }
}

} // verus!
