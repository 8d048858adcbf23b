//! What is logged, and where to: the choice that the settings make.

use vstd::prelude::*;

verus! {

/// How much is logged.
#[derive(Debug, Clone, Copy, PartialEq, Eq, Structural)]
pub enum Level {
    /// Everything, for debugging.
    Debug,
    /// What an operator wants to see.
    Info,
    /// Failures only.
    Error,
}

/// Where the log goes.
#[derive(Debug, PartialEq, Eq)]
pub enum Sink {
    /// Nowhere: nothing is logged.
    Nowhere,
    /// To the terminal.
    Terminal,
    /// To files in `directory`; with `echo`, to the terminal as well.
    Files { directory: String, echo: bool },
}

/// The level that the flags ask for: `debug` wins over `verbose`, and without
/// either only failures are logged.
pub fn level(debug: bool, verbose: bool) -> (r: Level)
    ensures
        debug ==> r == Level::Debug,
        !debug && verbose ==> r == Level::Info,
        !debug && !verbose ==> r == Level::Error,
{
    if debug {
        Level::Debug
    } else if verbose {
        Level::Info
    } else {
        Level::Error
    }
}

/// Where the log goes: to files when a directory is given, and then to the
/// terminal too unless `quiet`; without a directory to the terminal, or nowhere
/// when `quiet`.
pub fn sink(logs_path: &Option<String>, quiet: bool) -> (r: Sink)
    ensures
        logs_path matches Some(directory) ==> r matches Sink::Files {
            directory: to,
            echo,
        } && to@ == directory@ && echo == !quiet,
        logs_path is None && quiet ==> r == Sink::Nowhere,
        logs_path is None && !quiet ==> r == Sink::Terminal,
{
    match logs_path {
        Some(directory) => Sink::Files { directory: directory.clone(), echo: !quiet },
        None => if quiet {
            Sink::Nowhere
        } else {
            Sink::Terminal
        },
    }
}

} // verus!
