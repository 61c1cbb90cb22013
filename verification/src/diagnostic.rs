//! Diagnostics of a command run, and its trace log.
use vstd::prelude::*;

use crate::text::{chars_of, push_str, to_string};

verus! {

/// Diagnostic info appended to stderr when --diagnostic is used.
#[derive(Debug, Clone)]
pub struct Diagnostic {
    pub command: String,
    pub exit_code: i32,
    pub duration_ms: u64,
    pub stdout_bytes: usize,
    pub stderr_bytes: usize,
    pub warnings: Vec<String>,
    pub syntax_health: SyntaxHealth,
}

/// Whether the output's brackets balance, and what is left open.
#[derive(Debug, Clone)]
pub struct SyntaxHealth {
    pub balanced: bool,
    pub unclosed: Vec<UnclosedSymbol>,
    pub output_parseable_as_json: bool,
}

/// A symbol left open.
#[derive(Debug, Clone)]
pub struct UnclosedSymbol {
    pub symbol: String,
    pub context: String,
    pub line_in_header: Option<usize>,
}

impl Diagnostic {
    /// A clean diagnostic of `command`: exit code 0, nothing counted, no
    /// warnings, output balanced.
    pub fn new(command: String) -> (r: Self)
        ensures
            r.command@ == command@,
            r.exit_code == 0,
            r.duration_ms == 0,
            r.stdout_bytes == 0,
            r.stderr_bytes == 0,
            r.warnings@.len() == 0,
            r.syntax_health.balanced,
            r.syntax_health.unclosed@.len() == 0,
            !r.syntax_health.output_parseable_as_json,
    {
        Diagnostic {
            command,
            exit_code: 0,
            duration_ms: 0,
            stdout_bytes: 0,
            stderr_bytes: 0,
            warnings: Vec::new(),
            syntax_health: SyntaxHealth { balanced: true, unclosed: Vec::new(), output_parseable_as_json: false },
        }
    }
}

/// Trace logger that writes to stderr when --trace is enabled.
pub struct TraceLogger {
    enabled: bool,
}

impl TraceLogger {
    pub closed spec fn is_enabled(&self) -> bool {
        self.enabled
    }

    pub fn new(enabled: bool) -> (r: Self)
        ensures
            r.is_enabled() == enabled,
    {
        TraceLogger { enabled }
    }

    /// The line the logger writes for `msg`: `[trace] msg` when enabled.
    pub fn line(&self, msg: &str) -> (r: Option<String>)
        ensures
            self.is_enabled() ==> (r matches Some(l) && l@ == "[trace] "@ + msg@),
            !self.is_enabled() ==> r is None,
    {
        if self.enabled {
            let mut l = chars_of("[trace] ");
            push_str(&mut l, msg);
            Some(to_string(&l))
        } else {
            None
        }
    }
}

} // verus!
