use acil::client::Endpoint;
use acil::config::ServiceConfig;

#[test]
fn endpoint_addresses() {
    let cfg = ServiceConfig { base_url: "https://site.net//".into(), email: "me@x".into(), api_token: "tok".into() };
    let e = Endpoint::new(&cfg, true);
    assert_eq!(e.base_url, "https://site.net");
    assert_eq!(e.email, "me@x");
    assert_eq!(e.api_token, "tok");
    assert_eq!(e.url("/rest/api/3/issue/A-1"), "https://site.net/rest/api/3/issue/A-1");
    assert_eq!(e.request_log("GET", "/x"), Some("[verbose] GET https://site.net/x".to_string()));
    let quiet = Endpoint::new(&cfg, false);
    assert_eq!(quiet.request_log("GET", "/x"), None);
}
