//! What the launcher passes on to the library that it starts.

use vstd::prelude::*;

use crate::android_log::LogMode;

verus! {

/// How the library is started. Paths are texts here.
#[derive(Debug)]
pub struct LibLaunchArgs {
    pub launch_mode: LaunchMode,
    pub conf_path: String,
    pub temp_path: String,
    /// A file that ends the library when it is created.
    pub stop_file: Option<String>,
}

/// Who the library is started for.
#[derive(Debug)]
pub enum LaunchMode {
    Magisk { mod_id: String, module_dir: String },
    Normal,
}

impl LaunchMode {
    /// Who reads the log of the library.
    pub fn log_mode(&self) -> (r: LogMode)
        ensures
            r == (if *self is Normal {
                LogMode::Standard
            } else {
                LogMode::Magisk
            }),
    {
        match self {
            LaunchMode::Normal => LogMode::Standard,
            _ => LogMode::Magisk,
        }
    }
}

impl LibLaunchArgs {
    /// Sets the file that ends the library when it is created, in place of any other.
    pub fn set_stop_file(&mut self, path: String)
        ensures
            final(self).stop_file == Some(path),
            final(self).launch_mode == old(self).launch_mode,
            final(self).conf_path == old(self).conf_path,
            final(self).temp_path == old(self).temp_path,
    {
        self.stop_file = Some(path);
    }
}

} // verus!
