//! An in-memory diagnostics log: labelled messages are styled and collected
//! in a buffer, which the surrounding program flushes once at shutdown.

use vstd::prelude::*;

verus! {

/// A buffer of styled log lines. The surrounding program owns one and
/// flushes its contents to the error stream when it exits.
pub struct Log {
    buffer: String,
}

impl View for Log {
    type V = Seq<char>;

    closed spec fn view(&self) -> Seq<char> {
        self.buffer@
    }
}

/// One log line: the style code, the label, the style reset, the message,
/// and a carriage-return line-feed pair.
pub open spec fn log_line(label: Seq<char>, message: Seq<char>, style: Seq<char>) -> Seq<char> {
    style + label + "\x1b[0m"@ + message + "\r\n"@
}

impl Log {
    /// An empty log buffer.
    pub fn new() -> (r: Log)
        ensures
            r@ == Seq::<char>::empty(),
    {
        Log { buffer: String::new() }
    }

    /// The buffered text, to be written out by the surrounding program.
    pub fn contents(&self) -> (r: &String)
        ensures
            r@ == self@,
    {
        &self.buffer
    }

    /// Appends one line: the label under its ANSI style code, a style
    /// reset, and the message.
    pub fn log(&mut self, label: &str, message: &str, label_ansi_style_code: &str)
        ensures
            final(self)@ == old(self)@ + log_line(label@, message@, label_ansi_style_code@),
    {
        self.buffer.append(label_ansi_style_code);
        self.buffer.append(label);
        self.buffer.append("\x1b[0m");
        self.buffer.append(message);
        self.buffer.append("\r\n");
        proof {
            assert(final(self)@ =~= old(self)@ + log_line(
                label@,
                message@,
                label_ansi_style_code@,
            ));
        }
    }

    /// Appends an error line: a red, bold label.
    pub fn error(&mut self, error_msg: &str)
        ensures
            final(self)@ == old(self)@ + log_line("error:   "@, error_msg@, "\x1b[1;31m"@),
    {
        self.log("error:   ", error_msg, "\x1b[1;31m");
    }

    /// Appends an info line: a blue, bold label.
    pub fn info(&mut self, info_msg: &str)
        ensures
            final(self)@ == old(self)@ + log_line("info:    "@, info_msg@, "\x1b[1;34m"@),
    {
        self.log("info:    ", info_msg, "\x1b[1;34m");
    }

    /// Appends a warning line: a yellow, bold label.
    pub fn warn(&mut self, warning_msg: &str)
        ensures
            final(self)@ == old(self)@ + log_line("warning: "@, warning_msg@, "\x1b[1;33m"@),
    {
        self.log("warning: ", warning_msg, "\x1b[1;33m");
    }
}

/// Process exit codes for fatal conditions.
#[derive(Clone, Copy, Debug, PartialEq, Eq, Structural)]
pub enum ErrorCode {
    /// An application-level failure.
    App,
    /// An input/output failure.
    IO,
}

impl From<ErrorCode> for i32 {
    /// The numeric exit code: 1 for application failures, 2 for
    /// input/output failures.
    fn from(value: ErrorCode) -> (r: i32) {
        match value {
            ErrorCode::App => 1,
            ErrorCode::IO => 2,
        }
    }
}

impl vstd::std_specs::convert::FromSpecImpl<ErrorCode> for i32 {
    open spec fn obeys_from_spec() -> bool {
        true
    }

    open spec fn from_spec(v: ErrorCode) -> i32 {
        match v {
            ErrorCode::App => 1,
            ErrorCode::IO => 2,
        }
    }
}

} // verus!
