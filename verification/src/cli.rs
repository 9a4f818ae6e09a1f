//! The command line's options.
use crate::config::Level;
use crate::lint::diagnostic::Diagnostic;
use vstd::prelude::*;

verus! {

/// What the command line asks for: the entry file (`-` for standard
/// input), an optional configuration file, the output format and color,
/// and the rules to enable or disable.
#[derive(Debug, PartialEq, Eq)]
pub struct Cli {
    pub input: String,
    pub config: Option<String>,
    pub format: OutputFormat,
    pub color: ColorChoice,
    pub enable: Vec<String>,
    pub disable: Vec<String>,
}

/// The report format.
#[derive(Debug, Clone, Copy, PartialEq, Eq, Structural)]
pub enum OutputFormat {
    Human,
    Json,
}

/// When to color the report.
#[derive(Debug, Clone, Copy, PartialEq, Eq, Structural)]
pub enum ColorChoice {
    Auto,
    Always,
    Never,
}

/// The report's color mode for a color choice.
pub fn color_mode(color: ColorChoice) -> (m: crate::output::human::ColorMode)
    ensures
        m == match color {
            ColorChoice::Auto => crate::output::human::ColorMode::Auto,
            ColorChoice::Always => crate::output::human::ColorMode::Always,
            ColorChoice::Never => crate::output::human::ColorMode::Never,
        },
{
    match color {
        ColorChoice::Auto => crate::output::human::ColorMode::Auto,
        ColorChoice::Always => crate::output::human::ColorMode::Always,
        ColorChoice::Never => crate::output::human::ColorMode::Never,
    }
}

/// The process's exit status after a run that reported `diagnostics`: 1
/// when any of them is an error, otherwise 0.
pub fn exit_code(diagnostics: &[Diagnostic]) -> (r: i32)
    ensures
        r == if exists|i: int| 0 <= i < diagnostics@.len() && #[trigger] diagnostics@[i].severity == Level::Error {
            1i32
        } else {
            0i32
        },
{
    let mut i: usize = 0;
    while i < diagnostics.len()
        invariant
            i <= diagnostics@.len(),
            forall|k: int| 0 <= k < i ==> #[trigger] diagnostics@[k].severity != Level::Error,
        decreases diagnostics@.len() - i,
    {
        if diagnostics[i].severity == Level::Error {
            return 1;
        }
        i = i + 1;
    }
    0
}

} // verus!
