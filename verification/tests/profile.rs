use acil::commands::profile::{current, execute, list, rm, switch, ProfileCommand};
use acil::config::{Config, Profile, ServiceConfig};
use acil::error::AppError;
use acil::output::CommandOutput;

fn profile(url: &str, email: &str) -> Profile {
    Profile {
        jira: ServiceConfig { base_url: url.into(), email: email.into(), api_token: "t".into() },
        confluence: ServiceConfig { base_url: url.into(), email: email.into(), api_token: "u".into() },
    }
}

fn lines_of(out: CommandOutput) -> Vec<String> {
    match out {
        CommandOutput::Lines(lines) => lines,
        CommandOutput::Empty => panic!("expected lines"),
    }
}

fn sample() -> Config {
    let mut c = Config::new();
    c.add_profile("work".into(), profile("https://w.net", "me@w"));
    c.add_profile("home".into(), profile("https://h.net", "me@h"));
    c
}

#[test]
fn list_empty() {
    let c = Config::new();
    assert_eq!(lines_of(list(&c, false)), vec!["No profiles configured. Run 'login' to add one."]);
}

#[test]
fn list_table() {
    let c = sample();
    assert_eq!(
        lines_of(list(&c, false)),
        vec![
            "   Profile  Jira URL       Email",
            "--------------------------------",
            "   home     https://h.net  me@h ",
            "*  work     https://w.net  me@w ",
        ]
    );
}

#[test]
fn current_line() {
    assert_eq!(lines_of(current(&Config::new())), vec!["No active profile. Run 'login' to add one."]);
    assert_eq!(lines_of(current(&sample())), vec!["work"]);
}

#[test]
fn switch_and_rm() {
    let mut c = sample();
    match switch(&mut c, "home") {
        Ok(reply) => {
            assert!(reply.save_config);
            assert_eq!(lines_of(reply.output), vec!["Switched to profile 'home'"]);
        }
        Err(_) => panic!("expected success"),
    }
    assert_eq!(c.active_profile, "home");
    match rm(&mut c, "home") {
        Ok(reply) => assert_eq!(lines_of(reply.output), vec!["Removed profile 'home'"]),
        Err(_) => panic!("expected success"),
    }
    assert_eq!(c.active_profile, "work");
    match rm(&mut c, "home") {
        Err(AppError::NotFound(m)) => assert_eq!(m, "Profile 'home' not found"),
        _ => panic!("expected an error"),
    }
}

#[test]
fn execute_commands() {
    let mut c = sample();
    match execute(&mut c, ProfileCommand::Current, false) {
        Ok(reply) => {
            assert!(!reply.save_config);
            assert_eq!(lines_of(reply.output), vec!["work"]);
        }
        Err(_) => panic!("expected success"),
    }
    match execute(&mut c, ProfileCommand::Rm { name: "work".into() }, false) {
        Ok(reply) => assert!(reply.save_config),
        Err(_) => panic!("expected success"),
    }
    assert_eq!(c.active_profile, "home");
}
