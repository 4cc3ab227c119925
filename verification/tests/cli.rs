use acil::cli::{is_confirmation, login_intro, login_profile, login_saved, uninstall_question, update_report};

#[test]
fn login_pieces() {
    let p = login_profile("https://x.net//", "me@x", "t1".into(), "t2".into());
    assert_eq!(p.jira.base_url, "https://x.net");
    assert_eq!(p.confluence.base_url, "https://x.net");
    assert_eq!(p.jira.email, "me@x");
    assert_eq!(p.jira.api_token, "t1");
    assert_eq!(p.confluence.api_token, "t2");
    assert_eq!(login_intro("w", "https://x.net/"), "Adding profile 'w' for https://x.net/");
    assert_eq!(login_saved("w", "a"), "Profile 'w' saved. Active profile: 'a'");
}

#[test]
fn confirmations() {
    assert!(is_confirmation(" YES\n"));
    assert!(is_confirmation("y"));
    assert!(!is_confirmation("no"));
    assert!(!is_confirmation(""));
}

#[test]
fn self_management_texts() {
    assert_eq!(uninstall_question("/bin/acil", false), "Remove /bin/acil? [y/N] ");
    assert_eq!(
        uninstall_question("/bin/acil", true),
        "Remove /bin/acil and ~/.config/acil (profiles, API tokens, history)? [y/N] "
    );
    assert_eq!(update_report(true, "1.0"), "\nAlready up to date (v1.0).");
    assert_eq!(update_report(false, "1.1"), "\nUpdated to v1.1.");
}
