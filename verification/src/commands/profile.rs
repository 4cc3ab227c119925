//! The `profile` commands: list the profiles, show or switch the active one, remove one.
use crate::config::{profile_not_found, Config, ConfigV};
use crate::error::AppError;
use crate::output::{
    collect_single_line, collect_table, rows_view, strings_view, strs_view, table_lines, CommandOutput, OutputV,
};
use vstd::prelude::*;
use vstd::string::*;

verus! {

/// A `profile` subcommand.
pub enum ProfileCommand {
    /// List all profiles.
    List,
    /// Show the active profile.
    Current,
    /// Remove a profile.
    Rm { name: String },
}

/// What a profile command prints, and whether the settings changed and must be saved
/// before it is printed.
pub struct ProfileReply {
    pub output: CommandOutput,
    pub save_config: bool,
}

/// The header of the profile table.
pub open spec fn profile_headers() -> Seq<Seq<char>> {
    seq![""@, "Profile"@, "Jira URL"@, "Email"@]
}

/// The row of one profile: `*` when it is the active one, its name, Jira address and email.
pub open spec fn profile_row(cfg: ConfigV, i: int) -> Seq<Seq<char>> {
    let (name, p) = cfg.profiles[i];
    seq![if name == cfg.active { "*"@ } else { ""@ }, name, p.jira.base_url, p.jira.email]
}

/// What `profile list` prints.
pub open spec fn list_output(cfg: ConfigV, color: bool) -> OutputV {
    if cfg.profiles.len() == 0 {
        OutputV::Lines(seq!["No profiles configured. Run 'login' to add one."@])
    } else {
        OutputV::Lines(table_lines(profile_headers(), Seq::new(cfg.profiles.len(), |i: int| profile_row(cfg, i)), color))
    }
}

/// What `profile current` prints.
pub open spec fn current_output(cfg: ConfigV) -> OutputV {
    if cfg.active.len() == 0 {
        OutputV::Lines(seq!["No active profile. Run 'login' to add one."@])
    } else {
        OutputV::Lines(seq![cfg.active])
    }
}

/// Lists the profiles in name order, marking the active one.
pub fn list(config: &Config, color: bool) -> (out: CommandOutput)
    ensures
        out@ == list_output(config@, color),
{
    if config.profiles.len() == 0 {
        return collect_single_line("No profiles configured. Run 'login' to add one.".to_owned());
    }
    let mut rows: Vec<Vec<String>> = Vec::new();
    let ghost cfg = config@;
    let mut i: usize = 0;
    while i < config.profiles.len()
        invariant
            i <= config.profiles.len(),
            cfg == config@,
            rows@.len() == i,
            forall|j: int| 0 <= j < i ==> strings_view(#[trigger] rows@[j]@) == profile_row(cfg, j),
        decreases config.profiles.len() - i,
    {
        let (name, p) = (&config.profiles[i].0, &config.profiles[i].1);
        let mark = if *name == config.active_profile { "*".to_owned() } else { "".to_owned() };
        let row = vec![mark, name.clone(), p.jira.base_url.clone(), p.jira.email.clone()];
        assert(cfg.profiles[i as int] == (name@, p@));
        assert(strings_view(row@) =~= profile_row(cfg, i as int));
        rows.push(row);
        i = i + 1;
    }
    let headers: Vec<&str> = vec!["", "Profile", "Jira URL", "Email"];
    assert(strs_view(headers@) =~= profile_headers());
    assert(rows_view(rows@) =~= Seq::new(cfg.profiles.len(), |i: int| profile_row(cfg, i)));
    collect_table(headers.as_slice(), rows.as_slice(), color)
}

/// Shows the name of the active profile.
pub fn current(config: &Config) -> (out: CommandOutput)
    ensures
        out@ == current_output(config@),
{
    if config.active_profile.as_str().is_empty() {
        collect_single_line("No active profile. Run 'login' to add one.".to_owned())
    } else {
        collect_single_line(config.active_profile.clone())
    }
}

/// `prefix`, `name` and `suffix` in one string.
fn quoted_message(prefix: &str, name: &str, suffix: &str) -> (r: String)
    ensures
        r@ == prefix@ + name@ + suffix@,
{
    let mut m = prefix.to_owned();
    m.append(name);
    m.append(suffix);
    m
}

/// Removes a profile; the settings must then be saved.
pub fn rm(config: &mut Config, name: &str) -> (r: Result<ProfileReply, AppError>)
    requires
        old(config)@.wf(),
    ensures
        final(config)@.wf(),
        match r {
            Ok(reply) => old(config)@.map().contains_key(name@)
                && final(config)@.map() == old(config)@.map().remove(name@)
                && final(config)@.active == if old(config)@.active == name@ {
                    final(config)@.first_name()
                } else {
                    old(config)@.active
                }
                && reply.save_config
                && reply.output@ == OutputV::Lines(seq!["Removed profile '"@ + name@ + "'"@]),
            Err(e) => !old(config)@.map().contains_key(name@) && e@ == profile_not_found(name@)
                && final(config)@ == old(config)@,
        },
{
    config.remove_profile(name)?;
    let m = quoted_message("Removed profile '", name, "'");
    Ok(ProfileReply { output: collect_single_line(m), save_config: true })
}

/// Makes a profile the active one; the settings must then be saved.
pub fn switch(config: &mut Config, name: &str) -> (r: Result<ProfileReply, AppError>)
    requires
        old(config)@.wf(),
    ensures
        final(config)@.profiles == old(config)@.profiles,
        match r {
            Ok(reply) => old(config)@.map().contains_key(name@) && final(config)@.active == name@
                && reply.save_config
                && reply.output@ == OutputV::Lines(seq!["Switched to profile '"@ + name@ + "'"@]),
            Err(e) => !old(config)@.map().contains_key(name@) && e@ == profile_not_found(name@)
                && final(config)@.active == old(config)@.active,
        },
{
    config.switch_profile(name)?;
    let m = quoted_message("Switched to profile '", name, "'");
    Ok(ProfileReply { output: collect_single_line(m), save_config: true })
}

/// Runs a `profile` subcommand.
pub fn execute(config: &mut Config, command: ProfileCommand, color: bool) -> (r: Result<ProfileReply, AppError>)
    requires
        old(config)@.wf(),
    ensures
        final(config)@.wf(),
        match command {
            ProfileCommand::List => final(config)@ == old(config)@
                && (r matches Ok(reply) && !reply.save_config && reply.output@ == list_output(old(config)@, color)),
            ProfileCommand::Current => final(config)@ == old(config)@
                && (r matches Ok(reply) && !reply.save_config && reply.output@ == current_output(old(config)@)),
            ProfileCommand::Rm { name } => match r {
                Ok(reply) => old(config)@.map().contains_key(name@)
                    && final(config)@.map() == old(config)@.map().remove(name@)
                    && final(config)@.active == if old(config)@.active == name@ {
                        final(config)@.first_name()
                    } else {
                        old(config)@.active
                    }
                    && reply.save_config
                    && reply.output@ == OutputV::Lines(seq!["Removed profile '"@ + name@ + "'"@]),
                Err(e) => !old(config)@.map().contains_key(name@) && e@ == profile_not_found(name@)
                    && final(config)@ == old(config)@,
            },
        },
{
    match command {
        ProfileCommand::List => Ok(ProfileReply { output: list(config, color), save_config: false }),
        ProfileCommand::Current => Ok(ProfileReply { output: current(config), save_config: false }),
        ProfileCommand::Rm { name } => rm(config, name.as_str()),
    }
}

} // verus!
