//! Errors raised while loading, compiling and running scripts.

use vstd::prelude::*;
use vstd::string::*;
use crate::text::joined;

verus! {

/// Result type for Rhai operations.
pub type Result<T> = std::result::Result<T, RhaiError>;

/// Errors that can occur during Rhai script execution.
///
/// Paths are carried as strings, and the errors of the I/O layer, the JSON
/// codec and the file watcher as their messages.
#[derive(Debug)]
pub enum RhaiError {
    /// Script file not found.
    ScriptNotFound { path: String },
    /// Script compilation error.
    CompilationError { path: String, message: String },
    /// Script runtime error.
    RuntimeError { path: String, message: String },
    /// Script execution timeout.
    Timeout { timeout_ms: u64 },
    /// Script exceeded operation limit.
    OperationLimit { max_ops: u64 },
    /// Invalid script output.
    InvalidOutput { expected: String, actual: String },
    /// Script returned an error.
    ScriptError { message: String },
    /// Configuration error.
    ConfigError { message: String },
    /// IO error.
    Io(String),
    /// JSON serialization error.
    Json(String),
    /// Rhai parse error.
    Parse(String),
    /// Rhai box error (runtime).
    Runtime(String),
    /// Hot reload watcher error.
    Watcher(String),
}

/// The decimal digits of `n`, most significant first.
pub open spec fn decimal(n: nat) -> Seq<char>
    decreases n,
{
    if n < 10 {
        seq![digit_char(n)]
    } else {
        decimal(n / 10).push(digit_char(n % 10))
    }
}

/// The character for a digit below ten.
pub open spec fn digit_char(d: nat) -> char {
    if d == 0 { '0' }
    else if d == 1 { '1' }
    else if d == 2 { '2' }
    else if d == 3 { '3' }
    else if d == 4 { '4' }
    else if d == 5 { '5' }
    else if d == 6 { '6' }
    else if d == 7 { '7' }
    else if d == 8 { '8' }
    else { '9' }
}

fn digit(d: u64) -> (c: char)
    requires
        d < 10,
    ensures
        c == digit_char(d as nat),
{
    if d == 0 { '0' }
    else if d == 1 { '1' }
    else if d == 2 { '2' }
    else if d == 3 { '3' }
    else if d == 4 { '4' }
    else if d == 5 { '5' }
    else if d == 6 { '6' }
    else if d == 7 { '7' }
    else if d == 8 { '8' }
    else { '9' }
}

/// `n` written in decimal.
pub fn decimal_string(n: u64) -> (s: String)
    ensures
        s@ == decimal(n as nat),
    decreases n,
{
    if n < 10 {
        let v = vec![digit(n)];
        crate::text::string_of(&v)
    } else {
        let head = decimal_string(n / 10);
        let mut cs = crate::text::chars_of(head.as_str());
        cs.push(digit(n % 10));
        crate::text::string_of(&cs)
    }
}

/// The message of an error, as its `Display` form reads.
pub open spec fn error_text(e: RhaiError) -> Seq<char> {
    match e {
        RhaiError::ScriptNotFound { path } => "Script not found: "@ + path@,
        RhaiError::CompilationError { path, message } =>
            "Script compilation error in "@ + path@ + ": "@ + message@,
        RhaiError::RuntimeError { path, message } =>
            "Script runtime error in "@ + path@ + ": "@ + message@,
        RhaiError::Timeout { timeout_ms } =>
            "Script execution timeout after "@ + decimal(timeout_ms as nat) + "ms"@,
        RhaiError::OperationLimit { max_ops } =>
            "Script exceeded maximum operations ("@ + decimal(max_ops as nat) + ")"@,
        RhaiError::InvalidOutput { expected, actual } =>
            "Invalid script output: expected "@ + expected@ + ", got "@ + actual@,
        RhaiError::ScriptError { message } => "Script error: "@ + message@,
        RhaiError::ConfigError { message } => "Configuration error: "@ + message@,
        RhaiError::Io(m) => "IO error: "@ + m@,
        RhaiError::Json(m) => "JSON error: "@ + m@,
        RhaiError::Parse(m) => "Parse error: "@ + m@,
        RhaiError::Runtime(m) => "Runtime error: "@ + m@,
        RhaiError::Watcher(m) => "Watcher error: "@ + m@,
    }
}


impl RhaiError {
    /// Create a script error.
    pub fn script(message: &str) -> (e: Self)
        ensures
            e matches RhaiError::ScriptError { message: m } && m@ == message@,
    {
        RhaiError::ScriptError { message: message.to_owned() }
    }

    /// Create a configuration error.
    pub fn config(message: &str) -> (e: Self)
        ensures
            e matches RhaiError::ConfigError { message: m } && m@ == message@,
    {
        RhaiError::ConfigError { message: message.to_owned() }
    }

    /// Create a compilation error.
    pub fn compilation(path: &str, message: &str) -> (e: Self)
        ensures
            e matches RhaiError::CompilationError { path: p, message: m } && p@ == path@ && m@
                == message@,
    {
        RhaiError::CompilationError { path: path.to_owned(), message: message.to_owned() }
    }

    /// Create a runtime error.
    pub fn runtime(path: &str, message: &str) -> (e: Self)
        ensures
            e matches RhaiError::RuntimeError { path: p, message: m } && p@ == path@ && m@
                == message@,
    {
        RhaiError::RuntimeError { path: path.to_owned(), message: message.to_owned() }
    }

    /// The error's message, as its `Display` form reads.
    pub fn message(&self) -> (s: String)
        ensures
            s@ == error_text(*self),
    {
        match self {
            RhaiError::ScriptNotFound { path } => joined("Script not found: ", path.as_str()),
            RhaiError::CompilationError { path, message } => {
                let a = joined("Script compilation error in ", path.as_str());
                let b = joined(a.as_str(), ": ");
                joined(b.as_str(), message.as_str())
            },
            RhaiError::RuntimeError { path, message } => {
                let a = joined("Script runtime error in ", path.as_str());
                let b = joined(a.as_str(), ": ");
                joined(b.as_str(), message.as_str())
            },
            RhaiError::Timeout { timeout_ms } => {
                let n = decimal_string(*timeout_ms);
                let a = joined("Script execution timeout after ", n.as_str());
                joined(a.as_str(), "ms")
            },
            RhaiError::OperationLimit { max_ops } => {
                let n = decimal_string(*max_ops);
                let a = joined("Script exceeded maximum operations (", n.as_str());
                joined(a.as_str(), ")")
            },
            RhaiError::InvalidOutput { expected, actual } => {
                let a = joined("Invalid script output: expected ", expected.as_str());
                let b = joined(a.as_str(), ", got ");
                joined(b.as_str(), actual.as_str())
            },
            RhaiError::ScriptError { message } => joined("Script error: ", message.as_str()),
            RhaiError::ConfigError { message } => joined("Configuration error: ", message.as_str()),
            RhaiError::Io(m) => joined("IO error: ", m.as_str()),
            RhaiError::Json(m) => joined("JSON error: ", m.as_str()),
            RhaiError::Parse(m) => joined("Parse error: ", m.as_str()),
            RhaiError::Runtime(m) => joined("Runtime error: ", m.as_str()),
            RhaiError::Watcher(m) => joined("Watcher error: ", m.as_str()),
        }
    }
}

} // verus!
