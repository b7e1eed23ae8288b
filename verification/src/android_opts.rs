//! The commands of the launcher.

use vstd::prelude::*;

use crate::android_log::LogMode;

verus! {

/// The command line.
#[derive(Debug)]
pub struct Cli {
    pub command: Commands,
}

/// What the launcher is to do.
#[derive(Debug)]
pub enum Commands {
    /// The module was installed.
    MagiskInstall(MagiskCommonArgs),
    /// Run the service of the module.
    MagiskDaemon(MagiskCommonArgs),
    /// The action of the module was asked for.
    MagiskAction(MagiskCommonArgs),
    /// The module is being uninstalled.
    MagiskUninstall(MagiskCommonArgs),
    /// Run the service without a module.
    Daemon(DaemonArgs),
}

/// What the commands of the module are given.
#[derive(Debug)]
pub struct MagiskCommonArgs {
    pub module_id: String,
    pub module_dir: String,
    pub temp_path: String,
}

/// What the service is given.
#[derive(Debug)]
pub struct DaemonArgs {
    pub conf_path: String,
    pub temp_path: String,
}

impl Commands {
    /// Who reads the log of the launcher.
    pub fn log_mode(&self) -> (r: LogMode)
        ensures
            r == (if *self is Daemon {
                LogMode::Standard
            } else {
                LogMode::Magisk
            }),
    {
        match self {
            Commands::Daemon(_) => LogMode::Standard,
            _ => LogMode::Magisk,
        }
    }
}

} // verus!
