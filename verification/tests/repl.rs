use acil::repl::{
    art_lines, banner_lines, classify_line, command_words, help_lines, pause_after, profile_line, prompt_label, quits, route, skipped_line,
    unknown_command_message, version_line, words, Route, ShellLine, PAGE_SIZE,
};

#[test]
fn word_list() {
    let w = command_words();
    assert_eq!(w.len(), 19);
    assert_eq!(w[0], "login");
    assert_eq!(w[18], "quit");
}

#[test]
fn splitting_words() {
    assert_eq!(words("  jira  list\t--limit 5 \n"), vec!["jira", "list", "--limit", "5"]);
    assert!(words("   ").is_empty());
    assert_eq!(words("a\u{3000}b"), vec!["a", "b"]);
}

#[test]
fn classifying_lines() {
    assert!(matches!(classify_line("   "), ShellLine::Empty));
    assert!(matches!(classify_line(" exit "), ShellLine::Exit));
    assert!(matches!(classify_line("quit"), ShellLine::Exit));
    assert!(matches!(classify_line("q"), ShellLine::Exit));
    assert!(matches!(classify_line("help"), ShellLine::Help));
    assert!(matches!(classify_line(" jira list "), ShellLine::Command(c) if c == "jira list"));
}

#[test]
fn routing() {
    assert!(matches!(route(""), Route::Nothing));
    assert!(matches!(route("login --name a"), Route::Login(a) if a == vec!["--name", "a"]));
    assert!(matches!(route("profile switch work"), Route::Switch(n) if n == "work"));
    assert!(matches!(route("profile switch"), Route::SwitchUsage));
    assert!(matches!(route("profile list"), Route::Profile(a) if a == vec!["list"]));
    assert!(matches!(route("jira get A-1"), Route::Jira(a) if a == vec!["get", "A-1"]));
    assert!(matches!(route("confluence pages --space X"), Route::Confluence(a) if a.len() == 3));
    assert!(matches!(route("frobnicate now"), Route::Unknown(w) if w == "frobnicate"));
    assert_eq!(unknown_command_message("x"), "Unknown command: x");
}

#[test]
fn help_and_prompt() {
    let h = help_lines();
    assert_eq!(h.len(), 19);
    assert_eq!(h[0], "Commands:");
    assert_eq!(h[18], "  exit");
    assert_eq!(prompt_label("work"), "acil(work)");
    assert_eq!(version_line("1.2.3"), "v1.2.3  ·  github.com/a666hn/acil");
    assert_eq!(profile_line("", true), None);
    assert_eq!(profile_line("w", false), Some("Profile: w".to_string()));
    assert_eq!(profile_line("w", true), Some("Profile: \u{1b}[1;32mw\u{1b}[0m".to_string()));
}

#[test]
fn pager() {
    assert_eq!(PAGE_SIZE, 20);
    assert!(pause_after(19, 20, 41));
    assert!(!pause_after(18, 20, 41));
    assert!(!pause_after(39, 20, 40));
    assert!(quits(" Q \n"));
    assert!(!quits("quit"));
    assert!(!quits(""));
    assert_eq!(skipped_line(41, 19), "(skipped 21 remaining lines)");
}

#[test]
fn art_lines_drop_blank_lines() {
    assert_eq!(art_lines(" a \r\n  \n\nb\r"), vec![" a ", "b\r"]);
    assert_eq!(art_lines("x\n"), vec!["x"]);
    assert!(art_lines("").is_empty());
    assert!(art_lines(" \n\t\n").is_empty());
}

#[test]
fn banner_has_lines() {
    let lines = banner_lines("ACIL");
    assert!(!lines.is_empty());
    assert!(lines.iter().all(|l| !l.trim().is_empty()));
    let expected: Vec<String> = figleter::FIGfont::standard()
        .unwrap()
        .convert("ACIL")
        .unwrap()
        .to_string()
        .lines()
        .filter(|l| !l.trim().is_empty())
        .map(|l| l.to_string())
        .collect();
    assert_eq!(lines, expected);
}
