//! Turning the command line into the settings of the side that runs.
use vstd::prelude::*;

use crate::{receiver, sender};

verus! {

/// The role chosen on the command line, with its own settings.
pub enum Command {
    /// Run as receiver: listen on an address, write into a temporary
    /// directory first.
    Recv { listen: String, tmp: String },
    /// Run as sender: connect to an address.
    Send { dial: String },
}

/// The parsed command line: the cache directory and the role.
pub struct Config {
    cache: String,
    command: Command,
}

/// The settings of the side that runs.
pub enum AppConfig {
    Receiver(receiver::Config),
    Sender(sender::Config),
}

impl Config {
    pub fn new(cache: String, command: Command) -> (r: Config)
        ensures
            r.spec_cache() == cache@,
            r.spec_command() == command,
    {
        Config { cache, command }
    }

    pub closed spec fn spec_cache(&self) -> Seq<char> {
        self.cache@
    }

    pub closed spec fn spec_command(&self) -> Command {
        self.command
    }

    /// The settings of the chosen role; the cache directory goes to either.
    /// This never fails.
    pub fn get_config(self) -> (r: AppConfig)
        ensures
            match self.spec_command() {
                Command::Recv { listen, tmp } => r matches AppConfig::Receiver(rc) && rc.cache@
                    == self.spec_cache() && rc.listen == listen && rc.tmp == tmp,
                Command::Send { dial } => r matches AppConfig::Sender(sc) && sc.cache@ == self.spec_cache()
                    && sc.dial == dial,
            },
    {
        match self.command {
            Command::Recv { listen, tmp } => {
                let config = receiver::Config { cache: self.cache, listen, tmp };
                AppConfig::Receiver(config)
            },
            Command::Send { dial } => {
                let config = sender::Config { cache: self.cache, dial };
                AppConfig::Sender(config)
            },
        }
    }
}

} // verus!
