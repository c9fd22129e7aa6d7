//! Command selection: turns the flag values handed over by the argument
//! parser into a validated command, or a typed error — never an abort.

use vstd::prelude::*;
use crate::errors::CommandError;
use crate::executor::BuildSpec;
use crate::ident::PackageIdentity;
use crate::ident::valid_identity;

verus! {

/// What the argument parser saw: which mode flags are present and the raw
/// values of the option flags. URLs arrive as bytes; build options are
/// passed through untouched.
pub struct FlagValues {
    pub setup: bool,
    pub list: bool,
    pub help: bool,
    pub install_url: Option<Vec<u8>>,
    pub fetch_url: Option<Vec<u8>>,
    pub build_url: Option<Vec<u8>>,
    pub configure_opts: Option<String>,
    pub make_opts: Option<String>,
    pub install_target: Option<String>,
}

/// A validated command, ready for execution.
#[derive(Debug, PartialEq, Eq)]
pub enum Command {
    /// No mode flag was given.
    Unknown,
    /// Print usage and exit successfully; no pipeline invocation.
    Help,
    /// Ensure the ledger is ready.
    Init,
    /// Print the ledger's contents.
    List,
    /// Run the full pipeline: check, fetch, build, record.
    Install { url: PackageIdentity, build: BuildSpec },
    /// Run the fetcher only.
    Fetch { url: PackageIdentity },
    /// Run fetcher and build executor, without recording.
    Build { url: PackageIdentity, build: BuildSpec },
}

/// The error owed for a URL that does not validate: a missing (empty) URL
/// is reported as such; anything else malformed is an invalid flag.
pub open spec fn url_err(u: Seq<u8>) -> CommandError {
    if u.len() == 0 {
        CommandError::MissingUrl
    } else {
        CommandError::InvalidFlags
    }
}

/// Selects the command the flags ask for. Mode flags take precedence in
/// the order: help, setup, list, install, fetch, build; with none present
/// the command is `Unknown`. A URL-taking mode validates its URL and
/// reports `MissingUrl` or `InvalidFlags` instead of running anything.
pub fn select_command(f: FlagValues) -> (r: Result<Command, CommandError>)
    ensures
        f.help ==> r == Ok::<Command, CommandError>(Command::Help),
        !f.help && f.setup ==> r == Ok::<Command, CommandError>(Command::Init),
        !f.help && !f.setup && f.list ==> r == Ok::<Command, CommandError>(Command::List),
        !f.help && !f.setup && !f.list ==> (f.install_url matches Some(u) ==> (if valid_identity(
            u@,
        ) {
            r matches Ok(c) && c matches Command::Install { url, build } && url@ == u@
                && build.configure_opts == f.configure_opts && build.make_opts == f.make_opts
                && build.install_target == f.install_target
        } else {
            r == Err::<Command, CommandError>(url_err(u@))
        })),
        !f.help && !f.setup && !f.list && f.install_url is None ==> (f.fetch_url matches Some(u)
            ==> (if valid_identity(u@) {
            r matches Ok(c) && c matches Command::Fetch { url } && url@ == u@
        } else {
            r == Err::<Command, CommandError>(url_err(u@))
        })),
        !f.help && !f.setup && !f.list && f.install_url is None && f.fetch_url is None ==> (
        f.build_url matches Some(u) ==> (if valid_identity(u@) {
            r matches Ok(c) && c matches Command::Build { url, build } && url@ == u@
                && build.configure_opts == f.configure_opts && build.make_opts == f.make_opts
                && build.install_target == f.install_target
        } else {
            r == Err::<Command, CommandError>(url_err(u@))
        })),
        !f.help && !f.setup && !f.list && f.install_url is None && f.fetch_url is None
            && f.build_url is None ==> r == Ok::<Command, CommandError>(Command::Unknown),
{
    if f.help {
        return Ok(Command::Help);
    }
    if f.setup {
        return Ok(Command::Init);
    }
    if f.list {
        return Ok(Command::List);
    }
    let FlagValues {
        setup: _,
        list: _,
        help: _,
        install_url,
        fetch_url,
        build_url,
        configure_opts,
        make_opts,
        install_target,
    } = f;
    match install_url {
        Some(u) => {
            if u.len() == 0 {
                return Err(CommandError::MissingUrl);
            }
            match PackageIdentity::new(u) {
                None => Err(CommandError::InvalidFlags),
                Some(url) => Ok(
                    Command::Install {
                        url,
                        build: BuildSpec { configure_opts, make_opts, install_target },
                    },
                ),
            }
        },
        None => match fetch_url {
            Some(u) => {
                if u.len() == 0 {
                    return Err(CommandError::MissingUrl);
                }
                match PackageIdentity::new(u) {
                    None => Err(CommandError::InvalidFlags),
                    Some(url) => Ok(Command::Fetch { url }),
                }
            },
            None => match build_url {
                Some(u) => {
                    if u.len() == 0 {
                        return Err(CommandError::MissingUrl);
                    }
                    match PackageIdentity::new(u) {
                        None => Err(CommandError::InvalidFlags),
                        Some(url) => Ok(
                            Command::Build {
                                url,
                                build: BuildSpec { configure_opts, make_opts, install_target },
                            },
                        ),
                    }
                },
                None => Ok(Command::Unknown),
            },
        },
    }
}

/// The process exit code for a command that never reached the pipeline.
pub fn command_error_exit_code(e: &CommandError) -> (c: i32)
    ensures
        c != 0,
        *e is MissingUrl ==> c == 2,
        *e is InvalidFlags ==> c == 2,
{
    match e {
        CommandError::MissingUrl => 2,
        CommandError::InvalidFlags => 2,
    }
}

} // verus!
