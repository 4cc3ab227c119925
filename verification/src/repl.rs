//! The decisions of the interactive shell: what a typed line asks for, where a command
//! goes, the help text, the prompt, and when the pager stops.
use crate::output::{paint, paint_spec, TermColor, TextStyle};
use crate::text::{
    char_is_whitespace, char_vec, decimal, is_white_space, lowercase, push_decimal, str_equal, string_of, to_lowercase,
    trim_chars, trim_spec,
};
use vstd::prelude::*;
use vstd::string::*;

verus! {

/// The number of lines the shell shows before it pauses.
pub const PAGE_SIZE: usize = 20;

/// The words the shell completes and highlights.
pub open spec fn command_words_spec() -> Seq<Seq<char>> {
    seq![
        "login"@, "profile"@, "list"@, "switch"@, "current"@, "rm"@, "jira"@, "get"@, "create"@, "transition"@,
        "confluence"@, "search"@, "pages"@, "pull"@, "push"@, "update"@, "help"@, "exit"@, "quit"@,
    ]
}

/// The words the shell completes and highlights.
pub fn command_words() -> (r: Vec<String>)
    ensures
        r@.map_values(|s: String| s@) == command_words_spec(),
{
    let words: Vec<&str> = vec![
        "login", "profile", "list", "switch", "current", "rm", "jira", "get", "create", "transition",
        "confluence", "search", "pages", "pull", "push", "update", "help", "exit", "quit",
    ];
    let mut r: Vec<String> = Vec::new();
    let mut i: usize = 0;
    while i < words.len()
        invariant
            i <= words.len(),
            r@.len() == i,
            forall|j: int| 0 <= j < i ==> #[trigger] r@[j]@ == words@[j]@,
        decreases words.len() - i,
    {
        r.push(words[i].to_owned());
        i = i + 1;
    }
    assert(r@.map_values(|s: String| s@) =~= command_words_spec());
    r
}

/// The state of splitting `s` into words: the words ended so far and the word being read.
pub open spec fn words_state(s: Seq<char>) -> (Seq<Seq<char>>, Seq<char>)
    decreases s.len(),
{
    if s.len() == 0 {
        (Seq::empty(), Seq::empty())
    } else {
        let (ws, cur) = words_state(s.drop_last());
        let c = s.last();
        if is_white_space(c) {
            if cur.len() > 0 { (ws.push(cur), Seq::empty()) } else { (ws, cur) }
        } else {
            (ws, cur.push(c))
        }
    }
}

/// The words of `s`: its longest runs of characters that are not white space, in order
/// (as `str::split_whitespace` gives them).
pub open spec fn split_words(s: Seq<char>) -> Seq<Seq<char>> {
    let (ws, cur) = words_state(s);
    if cur.len() > 0 { ws.push(cur) } else { ws }
}

/// The words of `s` (see `split_words`).
pub fn words(s: &str) -> (r: Vec<String>)
    ensures
        r@.map_values(|w: String| w@) == split_words(s@),
{
    let cs = char_vec(s);
    let mut out: Vec<String> = Vec::new();
    let mut cur: Vec<char> = Vec::new();
    let mut i: usize = 0;
    assert(cs@.take(0) =~= Seq::<char>::empty());
    while i < cs.len()
        invariant
            i <= cs.len(),
            cs@ == s@,
            words_state(cs@.take(i as int)) == (out@.map_values(|w: String| w@), cur@),
        decreases cs.len() - i,
    {
        let c = cs[i];
        assert(cs@.take(i + 1).drop_last() =~= cs@.take(i as int));
        assert(cs@.take(i + 1).last() == c);
        let ghost before = out@;
        if char_is_whitespace(c) {
            if cur.len() > 0 {
                let w = string_of(&cur);
                out.push(w);
                assert(out@.map_values(|w: String| w@) =~= before.map_values(|w: String| w@).push(cur@));
                cur = Vec::new();
            }
        } else {
            cur.push(c);
        }
        i = i + 1;
    }
    assert(cs@.take(cs.len() as int) =~= cs@);
    if cur.len() > 0 {
        let ghost before = out@;
        let w = string_of(&cur);
        out.push(w);
        assert(out@.map_values(|w: String| w@) =~= before.map_values(|w: String| w@).push(cur@));
    }
    out
}

/// What a line typed at the shell asks for.
pub enum ShellLine {
    /// Nothing (only white space).
    Empty,
    /// Leave the shell.
    Exit,
    /// Show the help.
    Help,
    /// Run a command: the line without white space at its ends.
    Command(String),
}

/// The model of a typed line's meaning.
pub enum ShellLineV {
    Empty,
    Exit,
    Help,
    Command(Seq<char>),
}

impl View for ShellLine {
    type V = ShellLineV;

    open spec fn view(&self) -> ShellLineV {
        match self {
            ShellLine::Empty => ShellLineV::Empty,
            ShellLine::Exit => ShellLineV::Exit,
            ShellLine::Help => ShellLineV::Help,
            ShellLine::Command(s) => ShellLineV::Command(s@),
        }
    }
}

/// What a typed line asks for, once trimmed: nothing when empty; `exit`, `quit` or `q`
/// leave; `help` shows the help; anything else is a command.
pub open spec fn shell_line(line: Seq<char>) -> ShellLineV {
    let t = trim_spec(line);
    if t.len() == 0 {
        ShellLineV::Empty
    } else if t == "exit"@ || t == "quit"@ || t == "q"@ {
        ShellLineV::Exit
    } else if t == "help"@ {
        ShellLineV::Help
    } else {
        ShellLineV::Command(t)
    }
}

/// `s` without white space at either end.
pub fn trim_text(s: &str) -> (r: String)
    ensures
        r@ == trim_spec(s@),
{
    let cs = char_vec(s);
    let t = trim_chars(&cs);
    string_of(&t)
}

/// What a typed line asks for (see `shell_line`).
pub fn classify_line(line: &str) -> (r: ShellLine)
    ensures
        r@ == shell_line(line@),
{
    let t = trim_text(line);
    if t.as_str().is_empty() {
        ShellLine::Empty
    } else if str_equal(t.as_str(), "exit") || str_equal(t.as_str(), "quit") || str_equal(t.as_str(), "q") {
        ShellLine::Exit
    } else if str_equal(t.as_str(), "help") {
        ShellLine::Help
    } else {
        ShellLine::Command(t)
    }
}

/// Where a command line goes, by its words.
pub enum Route {
    /// No word at all.
    Nothing,
    /// `login`, with the words after it.
    Login(Vec<String>),
    /// `profile switch` with the name to switch to.
    Switch(String),
    /// `profile switch` without a name.
    SwitchUsage,
    /// Another `profile` command, with the words after `profile`.
    Profile(Vec<String>),
    /// A `jira` command, with the words after `jira`.
    Jira(Vec<String>),
    /// A `confluence` command, with the words after `confluence`.
    Confluence(Vec<String>),
    /// An unknown command word.
    Unknown(String),
}

/// The model of a route.
pub enum RouteV {
    Nothing,
    Login(Seq<Seq<char>>),
    Switch(Seq<char>),
    SwitchUsage,
    Profile(Seq<Seq<char>>),
    Jira(Seq<Seq<char>>),
    Confluence(Seq<Seq<char>>),
    Unknown(Seq<char>),
}

/// The texts of some strings.
pub open spec fn texts(v: Seq<String>) -> Seq<Seq<char>> {
    v.map_values(|w: String| w@)
}

impl View for Route {
    type V = RouteV;

    open spec fn view(&self) -> RouteV {
        match self {
            Route::Nothing => RouteV::Nothing,
            Route::Login(a) => RouteV::Login(texts(a@)),
            Route::Switch(n) => RouteV::Switch(n@),
            Route::SwitchUsage => RouteV::SwitchUsage,
            Route::Profile(a) => RouteV::Profile(texts(a@)),
            Route::Jira(a) => RouteV::Jira(texts(a@)),
            Route::Confluence(a) => RouteV::Confluence(texts(a@)),
            Route::Unknown(w) => RouteV::Unknown(w@),
        }
    }
}

/// Where a command line goes: by its first word, with the words after it; `profile
/// switch` is handled by the shell itself and takes the third word as the name.
pub open spec fn route_of(input: Seq<char>) -> RouteV {
    let ws = split_words(input);
    if ws.len() == 0 {
        RouteV::Nothing
    } else if ws[0] == "login"@ {
        RouteV::Login(ws.skip(1))
    } else if ws[0] == "profile"@ {
        if ws.len() >= 2 && ws[1] == "switch"@ {
            if ws.len() >= 3 { RouteV::Switch(ws[2]) } else { RouteV::SwitchUsage }
        } else {
            RouteV::Profile(ws.skip(1))
        }
    } else if ws[0] == "jira"@ {
        RouteV::Jira(ws.skip(1))
    } else if ws[0] == "confluence"@ {
        RouteV::Confluence(ws.skip(1))
    } else {
        RouteV::Unknown(ws[0])
    }
}

/// The words after the first.
fn rest_words(ws: &Vec<String>) -> (r: Vec<String>)
    requires
        ws@.len() > 0,
    ensures
        texts(r@) == texts(ws@).skip(1),
{
    let mut r: Vec<String> = Vec::new();
    let mut i: usize = 1;
    while i < ws.len()
        invariant
            1 <= i <= ws.len(),
            r@.len() == i - 1,
            forall|j: int| 0 <= j < r@.len() ==> #[trigger] r@[j]@ == ws@[j + 1]@,
        decreases ws.len() - i,
    {
        r.push(ws[i].clone());
        i = i + 1;
    }
    assert(texts(r@) =~= texts(ws@).skip(1));
    r
}

/// Where a command line goes (see `route_of`).
pub fn route(input: &str) -> (r: Route)
    ensures
        r@ == route_of(input@),
{
    let ws = words(input);
    let ghost tw = texts(ws@);
    assert(tw == split_words(input@));
    if ws.len() == 0 {
        return Route::Nothing;
    }
    let first = ws[0].as_str();
    if str_equal(first, "login") {
        Route::Login(rest_words(&ws))
    } else if str_equal(first, "profile") {
        if ws.len() >= 2 && str_equal(ws[1].as_str(), "switch") {
            if ws.len() >= 3 {
                Route::Switch(ws[2].clone())
            } else {
                Route::SwitchUsage
            }
        } else {
            Route::Profile(rest_words(&ws))
        }
    } else if str_equal(first, "jira") {
        Route::Jira(rest_words(&ws))
    } else if str_equal(first, "confluence") {
        Route::Confluence(rest_words(&ws))
    } else {
        Route::Unknown(ws[0].clone())
    }
}

/// The line for an unknown command word.
pub fn unknown_command_message(word: &str) -> (r: String)
    ensures
        r@ == "Unknown command: "@ + word@,
{
    let mut s = "Unknown command: ".to_owned();
    s.append(word);
    s
}

/// The help of the shell, line by line.
pub open spec fn help_text() -> Seq<Seq<char>> {
    seq![
        "Commands:"@,
        "  login --name <name> --url <url> --email <email>   Add a new profile"@,
        "  profile list                                      List all profiles"@,
        "  profile switch <name>                             Switch active profile"@,
        "  profile current                                   Show active profile"@,
        "  profile rm <name>                                 Remove a profile"@,
        "  jira list [--query <jql>] [--assigned <email>] [--status <status>] [--max <n>] [--limit <n>] [--subtasks] [--tree]"@,
        "  jira get <key>"@,
        "  jira create --project <key> --summary <text> [--issue-type <type>] [--priority <p>] [--labels <l>] [--assignee <a>] [--parent <key>] [--description <md>]"@,
        "  jira transition <key> --status <status>"@,
        "  confluence search <query> [--max <n>] [--limit <n>]"@,
        "  confluence pages --space <key> [--tree] [--limit <n>]"@,
        "  confluence get <id>"@,
        "  confluence pull <id> [--output <dir>]              Download page as markdown"@,
        "  confluence push <file>                              Push local markdown to Confluence"@,
        "  confluence create --space <key> --title <text> [--file <path>] [--parent <id>]"@,
        "  confluence update <id> [--title <text>] [--body <text>]"@,
        "  help"@,
        "  exit"@,
    ]
}

/// The help of the shell, line by line.
pub fn help_lines() -> (r: Vec<String>)
    ensures
        texts(r@) == help_text(),
{
    let lines: Vec<&str> = vec![
        "Commands:",
        "  login --name <name> --url <url> --email <email>   Add a new profile",
        "  profile list                                      List all profiles",
        "  profile switch <name>                             Switch active profile",
        "  profile current                                   Show active profile",
        "  profile rm <name>                                 Remove a profile",
        "  jira list [--query <jql>] [--assigned <email>] [--status <status>] [--max <n>] [--limit <n>] [--subtasks] [--tree]",
        "  jira get <key>",
        "  jira create --project <key> --summary <text> [--issue-type <type>] [--priority <p>] [--labels <l>] [--assignee <a>] [--parent <key>] [--description <md>]",
        "  jira transition <key> --status <status>",
        "  confluence search <query> [--max <n>] [--limit <n>]",
        "  confluence pages --space <key> [--tree] [--limit <n>]",
        "  confluence get <id>",
        "  confluence pull <id> [--output <dir>]              Download page as markdown",
        "  confluence push <file>                              Push local markdown to Confluence",
        "  confluence create --space <key> --title <text> [--file <path>] [--parent <id>]",
        "  confluence update <id> [--title <text>] [--body <text>]",
        "  help",
        "  exit",
    ];
    let mut r: Vec<String> = Vec::new();
    let mut i: usize = 0;
    while i < lines.len()
        invariant
            i <= lines.len(),
            r@.len() == i,
            forall|j: int| 0 <= j < i ==> #[trigger] r@[j]@ == lines@[j]@,
        decreases lines.len() - i,
    {
        r.push(lines[i].to_owned());
        i = i + 1;
    }
    assert(texts(r@) =~= help_text());
    r
}

/// The prompt of the shell for the active profile's name.
pub fn prompt_label(profile: &str) -> (r: String)
    ensures
        r@ == "acil("@ + profile@ + ")"@,
{
    let mut s = "acil(".to_owned();
    s.append(profile);
    s.append(")");
    s
}

/// The line under the banner: the version and where the project lives.
pub fn version_line(version: &str) -> (r: String)
    ensures
        r@ == "v"@ + version@ + "  ·  github.com/a666hn/acil"@,
{
    let mut s = "v".to_owned();
    s.append(version);
    s.append("  ·  github.com/a666hn/acil");
    s
}

/// The greeting's profile line: the active profile's name in bold green, when there is one.
pub open spec fn profile_greeting(active: Seq<char>, color: bool) -> Option<Seq<char>> {
    if active.len() == 0 {
        None
    } else {
        Some("Profile: "@ + paint_spec(active, TextStyle { fg: Some(TermColor::Green), bold: true, italic: false }, color))
    }
}

/// The greeting's profile line (see `profile_greeting`).
pub fn profile_line(active: &str, color: bool) -> (r: Option<String>)
    ensures
        match r {
            Some(s) => profile_greeting(active@, color) == Some(s@),
            None => profile_greeting(active@, color) is None,
        },
{
    if active.is_empty() {
        return None;
    }
    let mut s = "Profile: ".to_owned();
    let p = paint(active, TextStyle::fg(TermColor::Green).bold(), color);
    s.append(p.as_str());
    Some(s)
}

/// Whether the pager pauses after the line at `index` (counted from 0) of `total`: after
/// every full page, unless no line follows.
pub open spec fn pauses_after(index: nat, page_size: nat, total: nat) -> bool {
    (index + 1) % page_size == 0 && index + 1 < total
}

/// Whether the pager pauses after a line (see `pauses_after`).
pub fn pause_after(index: usize, page_size: usize, total: usize) -> (r: bool)
    requires
        page_size > 0,
        index < total,
    ensures
        r == pauses_after(index as nat, page_size as nat, total as nat),
{
    (index + 1) % page_size == 0 && index + 1 < total
}

/// Whether an answer to the pager asks to stop: `q` in either case, white space around
/// it aside.
pub open spec fn quits_pager(answer: Seq<char>) -> bool {
    lowercase(trim_spec(answer)) == "q"@
}

/// Whether an answer to the pager asks to stop (see `quits_pager`).
pub fn quits(answer: &str) -> (r: bool)
    ensures
        r == quits_pager(answer@),
{
    let t = trim_text(answer);
    let l = to_lowercase(t.as_str());
    str_equal(l.as_str(), "q")
}

/// The line shown when the pager stops after the line at `index` of `total`.
pub fn skipped_line(total: usize, index: usize) -> (r: String)
    requires
        index < total,
    ensures
        r@ == "(skipped "@ + decimal((total - index - 1) as nat) + " remaining lines)"@,
{
    let mut s = "(skipped ".to_owned();
    push_decimal(&mut s, (total - index - 1) as u64);
    s.append(" remaining lines)");
    s
}

/// The text that figleter draws for `text` in its standard font
/// (`FIGfont::standard`, `convert`, then the figure as a string); `None` where the font
/// does not load or draws nothing.
pub uninterp spec fn figlet_standard(text: Seq<char>) -> Option<Seq<char>>;

/// Draws `text` in figleter's standard font. Only the banner's word is asked for: that
/// figleter's drawing of any other text cannot panic is not shown by its source.
#[verifier::external_body]
fn figlet(text: &str) -> (r: Option<String>)
    requires
        text@ == "ACIL"@,
    ensures
        r matches Some(s) ==> figlet_standard(text@) == Some(s@),
        r is None ==> figlet_standard(text@) is None,
{
    let font = figleter::FIGfont::standard().ok()?;
    let figure = font.convert(text)?;
    Some(figure.to_string())
}

/// A line without the carriage return that ends it, if any.
pub open spec fn strip_cr(l: Seq<char>) -> Seq<char> {
    if l.len() > 0 && l.last() == '\r' { l.drop_last() } else { l }
}

/// Reading `s` for its lines that are not blank: the lines kept so far (each without the
/// `\r` of a `\r\n` ending) and the line being read.
pub open spec fn art_state(s: Seq<char>) -> (Seq<Seq<char>>, Seq<char>)
    decreases s.len(),
{
    if s.len() == 0 {
        (Seq::empty(), Seq::empty())
    } else {
        let (ls, cur) = art_state(s.drop_last());
        if s.last() == '\n' {
            (if trim_spec(cur).len() > 0 { ls.push(strip_cr(cur)) } else { ls }, Seq::empty())
        } else {
            (ls, cur.push(s.last()))
        }
    }
}

/// The lines of `s` (as `str::lines` splits it) that are not blank.
pub open spec fn art_lines_spec(s: Seq<char>) -> Seq<Seq<char>> {
    let (ls, cur) = art_state(s);
    if trim_spec(cur).len() > 0 { ls.push(cur) } else { ls }
}

/// The lines of `art` that are not blank (see `art_lines_spec`).
pub fn art_lines(art: &str) -> (r: Vec<String>)
    ensures
        texts(r@) == art_lines_spec(art@),
{
    let cs = char_vec(art);
    let mut out: Vec<String> = Vec::new();
    let mut cur: Vec<char> = Vec::new();
    let mut i: usize = 0;
    assert(cs@.take(0) =~= Seq::<char>::empty());
    while i < cs.len()
        invariant
            i <= cs.len(),
            cs@ == art@,
            art_state(cs@.take(i as int)) == (texts(out@), cur@),
        decreases cs.len() - i,
    {
        let c = cs[i];
        assert(cs@.take(i + 1).drop_last() =~= cs@.take(i as int));
        assert(cs@.take(i + 1).last() == c);
        if c == '\n' {
            let t = trim_chars(&cur);
            if t.len() > 0 {
                let ghost before = out@;
                let mut line = cur;
                if line.len() > 0 && line[line.len() - 1] == '\r' {
                    let ghost full = line@;
                    line.pop();
                    assert(line@ =~= full.drop_last());
                }
                let s = string_of(&line);
                out.push(s);
                assert(texts(out@) =~= texts(before).push(s@));
            }
            cur = Vec::new();
        } else {
            cur.push(c);
        }
        i = i + 1;
    }
    assert(cs@.take(cs.len() as int) =~= cs@);
    let t = trim_chars(&cur);
    if t.len() > 0 {
        let ghost before = out@;
        let s = string_of(&cur);
        out.push(s);
        assert(texts(out@) =~= texts(before).push(s@));
    }
    out
}

/// The banner's lines: `text` (the banner's word, `ACIL`) drawn in figleter's standard
/// font, without its blank lines; none where the font draws nothing.
pub fn banner_lines(text: &str) -> (r: Vec<String>)
    requires
        text@ == "ACIL"@,
    ensures
        texts(r@) == match figlet_standard(text@) {
            Some(art) => art_lines_spec(art),
            None => Seq::empty(),
        },
{
    match figlet(text) {
        Some(art) => art_lines(art.as_str()),
        None => {
            let r: Vec<String> = Vec::new();
            assert(texts(r@) =~= Seq::<Seq<char>>::empty());
            r
        },
    }
}

} // verus!
