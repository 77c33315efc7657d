//! The commands of the tool, as plain values, and the decisions each one
//! makes. Argument parsing, file handling and the network live in the
//! surrounding binary, which fills these in and acts on what the methods
//! here return.

use vstd::prelude::*;

use crate::config::{ClientState, Config};
use crate::http::HttpOptions;
use crate::server::Bind;

verus! {

/// A shell to generate completions for.
#[derive(Clone, Copy, Debug, PartialEq, Eq, Structural)]
pub enum Shell {
    Bash,
    Elvish,
    Fish,
    PowerShell,
    Zsh,
}

/// Generate shell completion.
#[derive(Clone, Debug)]
pub struct GetCompletion {
    /// The shell to generate completions for.
    pub shell: Shell,
}

/// Delete a client.
#[derive(Clone, Debug)]
pub struct Delete {
    /// The name of the client to delete.
    pub name: String,
    /// Override config file.
    pub config: Option<String>,
}

impl Delete {
    /// Remove the named client from the store; nothing happens when no client
    /// of that name exists. Reports whether the store changed (and must be
    /// written back).
    pub fn apply(&self, config: &mut Config) -> (removed: bool)
        requires
            old(config).wf(),
        ensures
            final(config).wf(),
            removed == old(config).has_name(self.name@),
            removed ==> !final(config).has_name(self.name@) && final(config).clients@.len() + 1
                == old(config).clients@.len(),
            !removed ==> *final(config) == *old(config),
    {
        config.remove_client(&self.name).is_some()
    }
}

/// Inspect tokens.
#[derive(Clone, Debug)]
pub struct Inspect {
    /// The tokens to inspect; when empty, they are read from standard input.
    pub token: Vec<String>,
}

/// List configured clients.
#[derive(Clone, Debug)]
pub struct List {
    /// Override config file.
    pub config: Option<String>,
    /// Show more details.
    pub details: bool,
}

/// How a token's expiry stands relative to now.
#[derive(Clone, Copy, Debug, PartialEq, Eq, Structural)]
pub enum ExpiryStatus {
    /// No expiry is recorded: treated as non-expiring.
    NoExpiry,
    /// Still valid, for the given number of seconds.
    Valid(u64),
    /// Expired, since the given number of seconds.
    Expired(u64),
}

/// Classify a token expiry against the time `now`: still valid while the
/// expiry lies strictly in the future, and the distance in whole seconds
/// either way.
pub fn expiration_status(expires: Option<i64>, now: i64) -> (r: ExpiryStatus)
    ensures
        match expires {
            None => r == ExpiryStatus::NoExpiry,
            Some(e) => if e > now {
                r == ExpiryStatus::Valid((e - now) as u64)
            } else {
                r == ExpiryStatus::Expired((now - e) as u64)
            },
        },
{
    match expires {
        None => ExpiryStatus::NoExpiry,
        Some(e) => {
            let rem: i128 = e as i128 - now as i128;
            if rem > 0 {
                ExpiryStatus::Valid(rem as u64)
            } else {
                ExpiryStatus::Expired((-rem) as u64)
            }
        },
    }
}

/// Get a valid token.
#[derive(Clone, Debug)]
pub struct GetToken {
    /// Name of the client whose token to get.
    pub name: String,
    /// Override config file.
    pub config: Option<String>,
    /// Get the ID token instead of the access token.
    pub id: bool,
    /// Get the refresh token instead of the access token.
    pub refresh: bool,
    /// Prefix the output with `Bearer `.
    pub bearer: bool,
    /// Print a whole `Authorization` header line.
    pub header: bool,
    /// Inspect the token instead of printing it.
    pub inspect: bool,
    /// Force a new token.
    pub force: bool,
    pub http: HttpOptions,
}

impl GetToken {
    /// The token this command asks for: the ID or refresh token when so
    /// requested — absent is a failure — and the access token by default.
    pub fn select_token(&self, state: &ClientState) -> (r: Option<String>)
        ensures
            match r {
                Some(t) => {
                    if self.id {
                        state.id_token matches Some(x) && t@ == x@
                    } else if self.refresh {
                        state.refresh_token matches Some(x) && t@ == x@
                    } else {
                        t@ == state.access_token@
                    }
                },
                None => {
                    if self.id {
                        state.id_token is None
                    } else if self.refresh {
                        state.refresh_token is None
                    } else {
                        false
                    }
                },
            },
    {
        if self.id {
            crate::config::clone_opt_string(&state.id_token)
        } else if self.refresh {
            crate::config::clone_opt_string(&state.refresh_token)
        } else {
            Some(state.access_token.clone())
        }
    }

    /// The line to print for a selected token: with `Bearer ` for `--bearer`,
    /// a full header line for `--header`, and the bare token otherwise.
    pub fn output_line(&self, token: String) -> (r: String)
        ensures
            if self.bearer {
                r@ == "Bearer "@ + token@
            } else if self.header {
                r@ == "Authorization:Bearer "@ + token@
            } else {
                r@ == token@
            },
    {
        if self.bearer {
            let mut line = String::from_str("Bearer ");
            line.append(token.as_str());
            line
        } else if self.header {
            let mut line = String::from_str("Authorization:Bearer ");
            line.append(token.as_str());
            line
        } else {
            token
        }
    }
}

/// What a new client is registered from.
#[derive(Clone, Debug)]
pub struct CreateCommon {
    /// Name of the client, used to locally identify it.
    pub name: String,
    /// Overwrite an existing client with the same name.
    pub force: bool,
    /// Skip fetching the initial token.
    pub skip_initial: bool,
    /// URL of the issuer.
    pub issuer: String,
}

/// Whether a client may be registered under this name: an existing entry
/// stands in the way unless overwriting was asked for.
pub fn can_register(config: &Config, name: &String, force: bool) -> (r: bool)
    requires
        config.wf(),
    ensures
        r == (force || !config.has_name(name@)),
{
    force || config.by_name(name).is_none()
}

/// Create a new confidential client.
#[derive(Clone, Debug)]
pub struct CreateConfidential {
    pub common: CreateCommon,
    /// Override config file.
    pub config: Option<String>,
    /// The client ID.
    pub client_id: String,
    /// The client secret.
    pub client_secret: String,
    pub http: HttpOptions,
}

/// Create a new public client.
#[derive(Clone, Debug)]
pub struct CreatePublic {
    pub common: CreateCommon,
    /// Override config file.
    pub config: Option<String>,
    /// The client ID.
    pub client_id: String,
    /// Force using a specific port for the local server.
    pub port: Option<u16>,
    /// Open the link automatically.
    pub open_browser: bool,
    /// How to bind the local server.
    pub bind: Bind,
    /// Use IPv4-only binding.
    pub only4: bool,
    /// Use IPv6-only binding.
    pub only6: bool,
    pub http: HttpOptions,
}

impl CreatePublic {
    /// The bind policy this command means: the `--only` switches win over the
    /// `--bind` choice, IPv4 first.
    pub fn bind_mode(&self) -> (r: Bind)
        ensures
            r == if self.only4 {
                Bind::Only4
            } else if self.only6 {
                Bind::Only6
            } else {
                self.bind
            },
    {
        if self.only4 {
            Bind::Only4
        } else if self.only6 {
            Bind::Only6
        } else {
            self.bind
        }
    }
}

/// Create a new client.
#[derive(Clone, Debug)]
pub struct Create {
    pub create_type: CreateType,
}

/// The kinds of client that can be created.
#[derive(Clone, Debug)]
pub enum CreateType {
    Confidential(CreateConfidential),
    Public(CreatePublic),
}

/// The commands of the tool.
#[derive(Clone, Debug)]
pub enum Command {
    Create(Create),
    Delete(Delete),
    Token(GetToken),
    List(List),
    Inspect(Inspect),
    Completion(GetCompletion),
}

/// How much is logged.
#[derive(Clone, Copy, Debug, PartialEq, Eq, Structural)]
pub enum LogLevel {
    Error,
    Warn,
    Info,
    Debug,
    Trace,
}

/// The log level the global switches ask for: `--quiet` wins, and each
/// repetition of `--verbose` raises the level one step.
pub fn log_level(quiet: bool, verbose: u8) -> (r: LogLevel)
    ensures
        r == if quiet {
            LogLevel::Error
        } else if verbose == 0 {
            LogLevel::Warn
        } else if verbose == 1 {
            LogLevel::Info
        } else if verbose == 2 {
            LogLevel::Debug
        } else {
            LogLevel::Trace
        },
{
    if quiet {
        LogLevel::Error
    } else if verbose == 0 {
        LogLevel::Warn
    } else if verbose == 1 {
        LogLevel::Info
    } else if verbose == 2 {
        LogLevel::Debug
    } else {
        LogLevel::Trace
    }
}

} // verus!
