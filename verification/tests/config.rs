use acil::config::{Config, Profile, ServiceConfig};
use acil::error::AppError;

fn profile(url: &str) -> Profile {
    Profile {
        jira: ServiceConfig { base_url: url.into(), email: "e@x".into(), api_token: "t1".into() },
        confluence: ServiceConfig { base_url: url.into(), email: "e@x".into(), api_token: "t2".into() },
    }
}

fn names(c: &Config) -> Vec<String> {
    c.profiles.iter().map(|(n, _)| n.clone()).collect()
}

#[test]
fn new_config_is_empty() {
    let c = Config::new();
    assert_eq!(c.active_profile, "");
    assert!(c.profiles.is_empty());
}

#[test]
fn first_profile_becomes_active() {
    let mut c = Config::new();
    c.add_profile("work".into(), profile("https://w"));
    assert_eq!(c.active_profile, "work");
    c.add_profile("home".into(), profile("https://h"));
    assert_eq!(c.active_profile, "work");
    assert_eq!(names(&c), vec!["home", "work"]);
    match c.active_profile() {
        Ok(p) => assert_eq!(p.jira.base_url, "https://w"),
        Err(_) => panic!("expected the active profile"),
    }
}

#[test]
fn add_replaces_same_name() {
    let mut c = Config::new();
    c.add_profile("a".into(), profile("https://1"));
    c.add_profile("a".into(), profile("https://2"));
    assert_eq!(c.profiles.len(), 1);
    assert_eq!(c.profiles[0].1.jira.base_url, "https://2");
}

#[test]
fn active_profile_errors() {
    let c = Config::new();
    match c.active_profile() {
        Err(AppError::Config(m)) => assert_eq!(m, "No profiles configured. Run 'acil login' first."),
        _ => panic!("expected an error"),
    }
    let mut c = Config::new();
    c.add_profile("a".into(), profile("https://1"));
    c.active_profile = "zzz".into();
    match c.active_profile() {
        Err(AppError::Config(m)) => {
            assert_eq!(m, "Active profile 'zzz' not found. Run 'acil profile list' to see available profiles.")
        }
        _ => panic!("expected an error"),
    }
}

#[test]
fn switch_then_read_back() {
    let mut c = Config::new();
    c.add_profile("a".into(), profile("https://1"));
    c.add_profile("b".into(), profile("https://2"));
    assert!(c.switch_profile("b").is_ok());
    assert_eq!(c.active_profile, "b");
    match c.active_profile() {
        Ok(p) => assert_eq!(p.jira.base_url, "https://2"),
        Err(_) => panic!("expected the active profile"),
    }
    match c.switch_profile("nope") {
        Err(AppError::NotFound(m)) => assert_eq!(m, "Profile 'nope' not found"),
        _ => panic!("expected an error"),
    }
    assert_eq!(c.active_profile, "b");
}

#[test]
fn remove_active_picks_first_remaining() {
    let mut c = Config::new();
    c.add_profile("m".into(), profile("https://m"));
    c.add_profile("b".into(), profile("https://b"));
    c.add_profile("z".into(), profile("https://z"));
    assert_eq!(c.active_profile, "m");
    assert!(c.remove_profile("m").is_ok());
    assert_eq!(c.active_profile, "b");
    assert_eq!(names(&c), vec!["b", "z"]);
    assert!(c.remove_profile("z").is_ok());
    assert_eq!(c.active_profile, "b");
    assert!(c.remove_profile("b").is_ok());
    assert_eq!(c.active_profile, "");
    match c.remove_profile("b") {
        Err(AppError::NotFound(m)) => assert_eq!(m, "Profile 'b' not found"),
        _ => panic!("expected an error"),
    }
}
