//! What the command line asks for.

use crate::config;
use crate::config::Config;
use crate::text;
use vstd::prelude::*;

verus! {

/// The command line.
#[derive(Debug)]
pub struct Cli {
    /// Print one snapshot and exit.
    pub once: bool,
    /// Print a snapshot in JSON and exit.
    pub json: bool,
    /// Milliseconds between two snapshots.
    pub interval_ms: u64,
    /// The wireless interface, before the settings and what is found.
    pub interface: Option<String>,
    /// Leave the router out.
    pub no_router: bool,
    pub command: Option<Commands>,
}

/// A subcommand.
#[derive(Debug)]
pub enum Commands {
    /// Diagnose the interface, the gateway and the connection to the router.
    Doctor,
    /// Write the settings to their file.
    InitConfig {
        /// Overwrite a file that is there.
        force: bool,
    },
    /// Set up interactively.
    Setup,
}

/// What to do.
pub enum Mode {
    /// Say why nothing is done.
    Refuse(String),
    WriteConfig,
    Setup,
    Doctor,
    /// Collect, pause, collect again and print in JSON.
    Json { pause_ms: u64 },
    /// Collect, pause, collect again and print tables.
    Once { pause_ms: u64 },
    Dashboard { interval_ms: u64 },
}

/// The model of a [`Mode`].
pub enum ModeView {
    Refuse(Seq<char>),
    WriteConfig,
    Setup,
    Doctor,
    Json { pause_ms: u64 },
    Once { pause_ms: u64 },
    Dashboard { interval_ms: u64 },
}

impl View for Mode {
    type V = ModeView;

    open spec fn view(&self) -> ModeView {
        match *self {
            Mode::Refuse(s) => ModeView::Refuse(s@),
            Mode::WriteConfig => ModeView::WriteConfig,
            Mode::Setup => ModeView::Setup,
            Mode::Doctor => ModeView::Doctor,
            Mode::Json { pause_ms } => ModeView::Json { pause_ms },
            Mode::Once { pause_ms } => ModeView::Once { pause_ms },
            Mode::Dashboard { interval_ms } => ModeView::Dashboard { interval_ms },
        }
    }
}

/// What the command line asks for, where the settings are kept at `path`. A subcommand comes before
/// the options, and JSON before tables.
pub open spec fn mode(cli: Cli, path: Seq<char>, exists: bool) -> ModeView {
    match cli.command {
        Some(Commands::InitConfig { force }) => if exists && !force {
            ModeView::Refuse(
                "config already exists at "@ + path
                    + " (pass --force to overwrite, or run `mywifistats setup`)"@,
            )
        } else {
            ModeView::WriteConfig
        },
        Some(Commands::Setup) => ModeView::Setup,
        Some(Commands::Doctor) => ModeView::Doctor,
        None => if cli.json {
            ModeView::Json {
                pause_ms: if cli.interval_ms < 2000 {
                    cli.interval_ms
                } else {
                    2000
                },
            }
        } else if cli.once {
            ModeView::Once { pause_ms: 800 }
        } else {
            ModeView::Dashboard { interval_ms: cli.interval_ms }
        },
    }
}

impl Cli {
    /// Puts the options that concern settings in place of those.
    pub fn override_config(&self, config: &mut Config)
        ensures
            final(config)@ == (config::ConfigView {
                interface: if self.interface is Some {
                    text::opt_text(self.interface)
                } else {
                    old(config)@.interface
                },
                router: config::RouterConfigView {
                    enabled: old(config)@.router.enabled && !self.no_router,
                    ..old(config)@.router
                },
            }),
    {
        if self.no_router {
            config.router.enabled = false;
        }
        if let Some(i) = &self.interface {
            config.interface = Some(i.clone());
        }
    }

    /// What the command line asks for, where the settings are kept at `path`; `exists` says whether
    /// that file is there.
    pub fn mode(&self, path: &str, exists: bool) -> (r: Mode)
        ensures
            r@ == mode(*self, path@, exists),
    {
        match &self.command {
            Some(Commands::InitConfig { force }) => {
                if exists && !*force {
                    Mode::Refuse(
                        text::join3(
                            "config already exists at ",
                            path,
                            " (pass --force to overwrite, or run `mywifistats setup`)",
                        ),
                    )
                } else {
                    Mode::WriteConfig
                }
            },
            Some(Commands::Setup) => Mode::Setup,
            Some(Commands::Doctor) => Mode::Doctor,
            None => {
                if self.json {
                    let pause_ms: u64 = if self.interval_ms < 2000 {
                        self.interval_ms
                    } else {
                        2000
                    };
                    Mode::Json { pause_ms }
                } else if self.once {
                    Mode::Once { pause_ms: 800 }
                } else {
                    Mode::Dashboard { interval_ms: self.interval_ms }
                }
            },
        }
    }
}

/// A file of settings that is there is overwritten only where that is forced.
pub proof fn law_config_kept(cli: Cli, path: Seq<char>)
    requires
        !(cli.command matches Some(Commands::InitConfig { force }) && force),
    ensures
        mode(cli, path, true) !is WriteConfig,
{
}

/// A command comes before the options. Without one, JSON comes before tables and tables before the
/// dashboard; JSON waits as long as the interval, but two seconds at most, and tables eight tenths of
/// a second.
pub proof fn law_mode(cli: Cli, path: Seq<char>, exists: bool, force: bool)
    ensures
        cli.command == Some(Commands::Setup) ==> mode(cli, path, exists) == ModeView::Setup,
        cli.command == Some(Commands::Doctor) ==> mode(cli, path, exists) == ModeView::Doctor,
        cli.command == Some(Commands::InitConfig { force }) && exists && !force ==> mode(
            cli,
            path,
            exists,
        ) == ModeView::Refuse(
            "config already exists at "@ + path
                + " (pass --force to overwrite, or run `mywifistats setup`)"@,
        ),
        cli.command == Some(Commands::InitConfig { force }) && (force || !exists) ==> mode(
            cli,
            path,
            exists,
        ) == ModeView::WriteConfig,
        cli.command is None && cli.json ==> (mode(cli, path, exists) matches ModeView::Json {
            pause_ms,
        } && pause_ms <= 2000 && pause_ms <= cli.interval_ms && (pause_ms == 2000 || pause_ms
            == cli.interval_ms)),
        cli.command is None && !cli.json && cli.once ==> mode(cli, path, exists) == (
        ModeView::Once { pause_ms: 800 }),
        cli.command is None && !cli.json && !cli.once ==> mode(cli, path, exists) == (
        ModeView::Dashboard { interval_ms: cli.interval_ms }),
{
}

} // verus!
