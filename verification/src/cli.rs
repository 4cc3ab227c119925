//! The decisions of the command-line entry points: adding a profile at login, and the
//! confirmations and reports of the self-management commands.
use crate::config::{Profile, ProfileV, ServiceConfig, ServiceV};
use crate::confluence_meta::trim_trailing_slashes;
use crate::repl::trim_text;
use crate::text::{lowercase, str_equal, strip_trailing, to_lowercase, trim_spec};
use vstd::prelude::*;
use vstd::string::*;

verus! {

/// The profile that a login adds: the site's address without trailing slashes for both
/// services, the same email, and each service's own token.
pub open spec fn login_profile_spec(url: Seq<char>, email: Seq<char>, jira_token: Seq<char>, confluence_token: Seq<char>) -> ProfileV {
    ProfileV {
        jira: ServiceV { base_url: strip_trailing(url, '/'), email, api_token: jira_token },
        confluence: ServiceV { base_url: strip_trailing(url, '/'), email, api_token: confluence_token },
    }
}

/// The profile that a login adds (see `login_profile_spec`).
pub fn login_profile(url: &str, email: &str, jira_token: String, confluence_token: String) -> (r: Profile)
    ensures
        r@ == login_profile_spec(url@, email@, jira_token@, confluence_token@),
{
    let base = trim_trailing_slashes(url);
    Profile {
        jira: ServiceConfig { base_url: base.clone(), email: email.to_owned(), api_token: jira_token },
        confluence: ServiceConfig { base_url: base, email: email.to_owned(), api_token: confluence_token },
    }
}

/// The line that opens a login.
pub fn login_intro(name: &str, url: &str) -> (r: String)
    ensures
        r@ == "Adding profile '"@ + name@ + "' for "@ + url@,
{
    let mut s = "Adding profile '".to_owned();
    s.append(name);
    s.append("' for ");
    s.append(url);
    s
}

/// The line that closes a login: the saved profile and the active one.
pub fn login_saved(name: &str, active: &str) -> (r: String)
    ensures
        r@ == "Profile '"@ + name@ + "' saved. Active profile: '"@ + active@ + "'"@,
{
    let mut s = "Profile '".to_owned();
    s.append(name);
    s.append("' saved. Active profile: '");
    s.append(active);
    s.append("'");
    s
}

/// Whether an answer confirms: `y` or `yes` in any case, white space around it aside.
pub open spec fn confirms(answer: Seq<char>) -> bool {
    let a = lowercase(trim_spec(answer));
    a == "y"@ || a == "yes"@
}

/// Whether an answer confirms (see `confirms`).
pub fn is_confirmation(answer: &str) -> (r: bool)
    ensures
        r == confirms(answer@),
{
    let t = trim_text(answer);
    let l = to_lowercase(t.as_str());
    str_equal(l.as_str(), "y") || str_equal(l.as_str(), "yes")
}

/// The question before an uninstall: the binary, and the settings directory too when it
/// goes as well.
pub fn uninstall_question(binary: &str, purge_config: bool) -> (r: String)
    ensures
        r@ == "Remove "@ + binary@ + (if purge_config {
            " and ~/.config/acil (profiles, API tokens, history)"@
        } else {
            Seq::empty()
        }) + "? [y/N] "@,
{
    let mut s = "Remove ".to_owned();
    s.append(binary);
    if purge_config {
        s.append(" and ~/.config/acil (profiles, API tokens, history)");
    }
    let ghost before = s@;
    s.append("? [y/N] ");
    assert(!purge_config ==> before =~= before + Seq::<char>::empty());
    s
}

/// The report of an update: already current, or updated, with the version.
pub fn update_report(up_to_date: bool, version: &str) -> (r: String)
    ensures
        r@ == if up_to_date { "\nAlready up to date (v"@ + version@ + ")."@ } else { "\nUpdated to v"@ + version@ + "."@ },
{
    if up_to_date {
        let mut s = "\nAlready up to date (v".to_owned();
        s.append(version);
        s.append(").");
        s
    } else {
        let mut s = "\nUpdated to v".to_owned();
        s.append(version);
        s.append(".");
        s
    }
}

} // verus!
