//! The options of the command line.

use crate::text;
use vstd::prelude::*;

verus! {

/// How log lines are written.
#[derive(Debug, Clone, Copy, PartialEq, Eq, Structural)]
pub enum LogFormat {
    Json,
    Text,
}

/// The log format of a name.
pub open spec fn log_format(name: Seq<char>) -> Option<LogFormat> {
    if name == "json"@ {
        Some(LogFormat::Json)
    } else if name == "text"@ {
        Some(LogFormat::Text)
    } else {
        None
    }
}

/// A name that is no log format.
#[derive(Debug)]
pub struct InvalidLogFormat(pub String);

impl InvalidLogFormat {
    /// The error as a text for people.
    pub fn message(&self) -> (r: String)
        ensures
            r@ == "invalid log format: "@ + text::debug_form(self.0@) + " (expected json or text)"@,
    {
        let mut s = "invalid log format: ".to_string();
        s.append(text::quoted(self.0.as_str()).as_str());
        s.append(" (expected json or text)");
        s
    }
}

/// Reads the name of a log format: `json` or `text`.
pub fn parse_log_format(name: &str) -> (r: Result<LogFormat, InvalidLogFormat>)
    ensures
        match r {
            Ok(f) => log_format(name@) == Some(f),
            Err(e) => log_format(name@) is None && e.0@ == name@,
        },
{
    if text::same(name, "json") {
        Ok(LogFormat::Json)
    } else if text::same(name, "text") {
        Ok(LogFormat::Text)
    } else {
        Err(InvalidLogFormat(name.to_string()))
    }
}

/// There are two log formats, each under its own name.
pub proof fn log_formats_have_their_names(name: Seq<char>)
    ensures
        log_format(name) == Some(LogFormat::Json) <==> name == "json"@,
        log_format(name) == Some(LogFormat::Text) <==> name == "text"@,
{
    reveal_strlit("json");
    reveal_strlit("text");
    assert("json"@[0] != "text"@[0]);
}

} // verus!
