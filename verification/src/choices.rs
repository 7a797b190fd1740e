//! Small decisions taken once per run.

use vstd::prelude::*;
use crate::types::{Config, DisplayMode};

verus! {

/// The text output or JSON when asked for; otherwise columns on a terminal
/// and raw lines when the output goes elsewhere.
pub fn display_mode(llm: bool, json: bool, stdout_is_tty: bool) -> (m: DisplayMode)
    ensures
        m == (if llm { DisplayMode::Llm } else if json { DisplayMode::Json } else if stdout_is_tty { DisplayMode::Tty } else { DisplayMode::Pipe }),
{
    if llm {
        DisplayMode::Llm
    } else if json {
        DisplayMode::Json
    } else if stdout_is_tty {
        DisplayMode::Tty
    } else {
        DisplayMode::Pipe
    }
}

/// Colours are written unless the option or the `NO_COLOR` variable turns
/// them off, and only to a terminal.
pub fn color_enabled(config: &Config, no_color_env: bool, stdout_is_tty: bool) -> (r: bool)
    ensures
        r == (!config.no_color && !no_color_env && stdout_is_tty),
{
    if config.no_color {
        return false;
    }
    if no_color_env {
        return false;
    }
    stdout_is_tty
}

} // verus!
