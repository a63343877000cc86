use vstd::prelude::*;
use vstd::string::*;

use crate::GameModes;

verus! {

/// The plugin's settings, as read from its TOML configuration file.
#[derive(Clone, Debug)]
pub struct Config {
    /// The chat OAuth token, `oauth:` followed by the secret.
    pub oauth: String,
    /// The channel whose chat is read, without the leading `#`.
    pub channel: String,
    pub mode: GameModes,
    /// Length of a voting period, in seconds of match time.
    pub voting_interval: u32,
}

impl Config {
    /// The settings written to a fresh configuration file.
    pub fn new() -> (c: Config)
        ensures
            c.oauth@ == "oauth:"@,
            c.channel@ == "faultypine"@,
            c.mode == GameModes::ChooseEffect,
            c.voting_interval == 45,
    {
        Config {
            oauth: String::from_str("oauth:"),
            channel: String::from_str("faultypine"),
            mode: GameModes::ChooseEffect,
            voting_interval: 45,
        }
    }
}

} // verus!
