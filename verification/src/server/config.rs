//! The settings of the server.

use vstd::prelude::*;
use crate::logging::{level, sink, Level, Sink};

verus! {

/// The port that the server listens on unless told otherwise.
pub const DEFAULT_PORT: u16 = 5050;

/// The settings of the server, as given on the command line.
#[derive(Debug, PartialEq, Eq)]
pub struct Config {
    pub verbose: bool,
    pub debug: bool,
    pub quiet: bool,
    pub port: u16,
    /// The directory that log files go to, if any.
    pub logs_path: Option<String>,
}

impl Config {
    /// The settings of a development build: everything is logged, to the
    /// terminal, and the server listens on the default port.
    pub fn init() -> (r: Self)
        ensures
            r.verbose,
            r.debug,
            !r.quiet,
            r.port == DEFAULT_PORT,
            r.logs_path is None,
    {
        Config { verbose: true, debug: true, quiet: false, port: DEFAULT_PORT, logs_path: None }
    }

    /// How much the server logs.
    pub fn log_level(&self) -> (r: Level)
        ensures
            self.debug ==> r == Level::Debug,
            !self.debug && self.verbose ==> r == Level::Info,
            !self.debug && !self.verbose ==> r == Level::Error,
    {
        level(self.debug, self.verbose)
    }

    /// Where the server's log goes.
    pub fn log_sink(&self) -> (r: Sink)
        ensures
            self.logs_path matches Some(directory) ==> r matches Sink::Files {
                directory: to,
                echo,
            } && to@ == directory@ && echo == !self.quiet,
            self.logs_path is None && self.quiet ==> r == Sink::Nowhere,
            self.logs_path is None && !self.quiet ==> r == Sink::Terminal,
    {
        sink(&self.logs_path, self.quiet)
    }
}

} // verus!
