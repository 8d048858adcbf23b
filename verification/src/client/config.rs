//! The settings of the client.

use vstd::prelude::*;
use crate::logging::{level, sink, Level, Sink};

verus! {

/// The settings of the client, as given on the command line.
#[derive(Debug, PartialEq, Eq)]
pub struct Config {
    pub verbose: bool,
    pub debug: bool,
    pub quiet: bool,
    /// The host of the server.
    pub host: String,
    /// The port of the server.
    pub port: u16,
    /// The nickname that the client asks for.
    pub nick: String,
    /// The directory that log files go to, if any.
    pub logs_path: Option<String>,
}

impl Config {
    /// The settings of a development build: everything is logged, to the
    /// terminal, and the server is looked for on this machine.
    pub fn new() -> (r: Self)
        ensures
            r.verbose,
            r.debug,
            !r.quiet,
            r.host@ == "127.0.0.1"@,
            r.port == 5050,
            r.nick@ == "avonarret"@,
            r.logs_path is None,
    {
        Config {
            verbose: true,
            debug: true,
            quiet: false,
            host: "127.0.0.1".to_owned(),
            port: 5050,
            nick: "avonarret".to_owned(),
            logs_path: None,
        }
    }

    /// How much the client logs.
    pub fn log_level(&self) -> (r: Level)
        ensures
            self.debug ==> r == Level::Debug,
            !self.debug && self.verbose ==> r == Level::Info,
            !self.debug && !self.verbose ==> r == Level::Error,
    {
        level(self.debug, self.verbose)
    }

    /// Where the client's log goes.
    pub fn log_sink(&self) -> (r: Sink)
        ensures
            self.logs_path matches Some(directory) ==> r matches Sink::Files {
                directory: to,
                echo,
            } && to@ == directory@ && echo == !self.quiet,
            self.logs_path is None && self.quiet ==> r == Sink::Nowhere,
            self.logs_path is None && !self.quiet ==> r == Sink::Terminal,
    {
        sink(&self.logs_path, self.quiet)
    }
}

} // verus!
