//! The command-line options the interpreter is started with. The host
//! binary parses its arguments into this shape.

use vstd::prelude::*;

verus! {

/// Options for one run of the interpreter.
pub struct Cli {
    /// Path to the program image to run.
    pub path: String,
    /// Whether to print debug output while running.
    pub debug: bool,
    /// The color, in hex (e.g. `#FF0000`), for pixels that are on.
    pub fg: Option<String>,
    /// The color, in hex (e.g. `#00FF00`), for pixels that are off.
    pub bg: Option<String>,
    /// Whether to start in the alternate legacy mode.
    pub eti_mode: bool,
}

} // verus!
