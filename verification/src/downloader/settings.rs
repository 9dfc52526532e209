//! Settings of the queue.

use crate::workers;
use vstd::prelude::*;

verus! {

/// The most downloads that can be set to run at once.
pub const MAX_CONCURRENT: usize = 16;

/// What the user can set.
#[derive(Debug)]
pub struct Settings {
    pub max_concurrent: usize,
    pub clipboard_enabled: bool,
    pub mp4_output: bool,
    pub default_dir: String,
}

/// Settings as a mathematical value.
pub struct SettingsView {
    pub max_concurrent: usize,
    pub clipboard_enabled: bool,
    pub mp4_output: bool,
    pub default_dir: Seq<char>,
}

impl View for Settings {
    type V = SettingsView;

    open spec fn view(&self) -> SettingsView {
        SettingsView {
            max_concurrent: self.max_concurrent,
            clipboard_enabled: self.clipboard_enabled,
            mp4_output: self.mp4_output,
            default_dir: self.default_dir@,
        }
    }
}

/// The settings of a new installation.
pub open spec fn default_settings() -> SettingsView {
    SettingsView {
        max_concurrent: 3,
        clipboard_enabled: true,
        mp4_output: true,
        default_dir: Seq::empty(),
    }
}

impl Default for Settings {
    /// The settings of a new installation.
    fn default() -> (out: Settings)
        ensures
            out@ == default_settings(),
    {
        let out = Settings {
            max_concurrent: 3,
            clipboard_enabled: true,
            mp4_output: true,
            default_dir: String::new(),
        };
        assert(out@ == default_settings());
        out
    }
}

impl Clone for Settings {
    fn clone(&self) -> (out: Settings)
        ensures
            out@ == self@,
    {
        Settings {
            max_concurrent: self.max_concurrent,
            clipboard_enabled: self.clipboard_enabled,
            mp4_output: self.mp4_output,
            default_dir: self.default_dir.clone(),
        }
    }
}

/// Settings with some of them changed; at least one download can always run.
pub open spec fn changed(
    s: SettingsView,
    max_concurrent: Option<usize>,
    clipboard_enabled: Option<bool>,
    mp4_output: Option<bool>,
    default_dir: Option<Seq<char>>,
) -> SettingsView {
    SettingsView {
        max_concurrent: match max_concurrent {
            Some(n) => workers::clamped(n as int, 1, MAX_CONCURRENT as int) as usize,
            None => s.max_concurrent,
        },
        clipboard_enabled: match clipboard_enabled {
            Some(v) => v,
            None => s.clipboard_enabled,
        },
        mp4_output: match mp4_output {
            Some(v) => v,
            None => s.mp4_output,
        },
        default_dir: match default_dir {
            Some(d) => d,
            None => s.default_dir,
        },
    }
}

} // verus!
