//! Process-wide configuration values, as plain data.  Loading and parsing
//! the configuration file is the surrounding process's concern; the core
//! only consumes the resulting values.

use vstd::prelude::*;
use crate::file::ConfigFile;

verus! {

/// The network endpoint of the peer: where the master connects, or where
/// the minion listens.
pub struct Network {
    pub bind_port: u16,
    pub bind_address: String,
}

/// Everything a process needs to run in either role: its role flags, the
/// marker pair, the peer endpoint, the watched files and the poll interval.
pub struct Config {
    pub master: bool,
    pub minion: bool,
    pub open_tag: Vec<u8>,
    pub close_tag: Vec<u8>,
    pub network: Network,
    pub files: Vec<ConfigFile>,
    pub polling_freq: Option<u32>,
}

impl Config {
    /// A usable marker pair: both markers non-empty and distinct.
    pub open spec fn wf_tags(&self) -> bool {
        &&& self.open_tag@.len() > 0
        &&& self.close_tag@.len() > 0
        &&& self.open_tag@ != self.close_tag@
    }
}

} // verus!
