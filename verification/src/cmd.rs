//! What the program is started with.

use vstd::prelude::*;

verus! {

/// The TCP port on which the daemon listens unless told otherwise.
pub const DEFAULT_PORT: u16 = 5829;

/// How much the program writes to its log.
#[derive(Clone, Copy, Debug, PartialEq, Eq, Structural)]
pub enum LogLevel {
    Off,
    Error,
    Warn,
    Info,
    Debug,
    Trace,
}

impl Default for LogLevel {
    fn default() -> (level: LogLevel)
        ensures
            level == LogLevel::Info,
    {
        LogLevel::Info
    }
}

/// The configuration of one run.
#[derive(Clone, Debug, PartialEq, Eq)]
pub struct Args {
    /// Log level.
    pub log_level: LogLevel,
    /// TCP port of the daemon, on the loopback interface.
    pub port: u16,
    /// Bundle identifiers, each of which is the name of a virtual key.
    pub bundle_ids: Vec<String>,
    /// Input source identifiers, each of which is the name of a virtual key.
    pub input_source_ids: Vec<String>,
    /// Only show identifiers as they change, without connecting to the daemon.
    pub find_id_mode: bool,
}

impl Args {
    /// The port is one that a daemon can listen on: any but zero.
    pub open spec fn wf(&self) -> bool {
        self.port >= 1
    }

    /// Tells whether the configuration can be run with.
    pub fn is_valid(&self) -> (valid: bool)
        ensures
            valid == self.wf(),
    {
        self.port >= 1
    }
}

impl Default for Args {
    fn default() -> (args: Args)
        ensures
            args.log_level == LogLevel::Info,
            args.port == DEFAULT_PORT,
            args.bundle_ids@ == Seq::<String>::empty(),
            args.input_source_ids@ == Seq::<String>::empty(),
            !args.find_id_mode,
            args.wf(),
    {
        Args {
            log_level: LogLevel::Info,
            port: DEFAULT_PORT,
            bundle_ids: Vec::new(),
            input_source_ids: Vec::new(),
            find_id_mode: false,
        }
    }
}

} // verus!
