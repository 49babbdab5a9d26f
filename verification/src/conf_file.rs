//! Application configuration: settings the user can change without
//! recompiling.

use vstd::prelude::*;

verus! {

/// Name of the configuration file in the working directory.
pub const CONFIG_FILE_NAME: &'static str = "conf.toml";

/// Application configuration.
#[derive(Debug, PartialEq)]
pub struct Config {
    /// Network port.
    pub port: String,
    /// Hotkey for microphone activation.
    pub microphone_hotkey: String,
    /// Hotkey for language switching.
    pub language_hotkey: String,
}

impl Default for Config {
    /// The values written to a new configuration file.
    fn default() -> (c: Self)
        ensures
            c.port@ == "51234"@,
            c.microphone_hotkey@ == "<left_alt>"@,
            c.language_hotkey@ == "<left_alt>+<left_win>"@,
    {
        Config {
            port: String::from_str("51234"),
            microphone_hotkey: String::from_str("<left_alt>"),
            language_hotkey: String::from_str("<left_alt>+<left_win>"),
        }
    }
}

impl Config {
    /// The configuration in force: the one read from the configuration file
    /// when there is one, the default values otherwise (those are then written
    /// to a new file by the caller).
    pub fn new(from_file: Option<Config>) -> (c: Self)
        ensures
            from_file matches Some(f) ==> c == f,
            from_file is None ==> c.port@ == "51234"@ && c.microphone_hotkey@ == "<left_alt>"@
                && c.language_hotkey@ == "<left_alt>+<left_win>"@,
    {
        match from_file {
            Some(f) => f,
            None => Config::default(),
        }
    }
}

/// The network port of a configuration.
pub fn appconf_port(config: &Config) -> (port: String)
    ensures
        port@ == config.port@,
{
    config.port.clone()
}

} // verus!
