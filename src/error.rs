//! The error that callers see, whichever way a tool was run.
use vstd::prelude::*;

use crate::cmd::CmdError;
use crate::message::{models, Message, MessageModel};
use crate::text::{decimal, describe_io_error, int_text};

verus! {

/// The status codes of the native library, in which both ways of running a tool report.
#[derive(Clone, Copy, Debug, PartialEq, Eq, Structural)]
pub enum SpirvResult {
    Success,
    Unsupported,
    EndOfStream,
    Warning,
    FailedMatch,
    RequestedTermination,
    InternalError,
    OutOfMemory,
    InvalidPointer,
    InvalidBinary,
    InvalidText,
    InvalidTable,
    InvalidValue,
    InvalidDiagnostic,
    InvalidLookup,
    InvalidId,
    InvalidCfg,
    InvalidLayout,
    InvalidCapability,
    InvalidData,
    MissingExtension,
    WrongVersion,
}

/// The one diagnostic an error carries.
#[derive(Clone, Debug)]
pub struct Diagnostic {
    pub line: usize,
    pub column: usize,
    pub index: usize,
    pub message: String,
    pub notes: String,
}

pub struct DiagnosticModel {
    pub line: nat,
    pub column: nat,
    pub index: nat,
    pub message: Seq<char>,
    pub notes: Seq<char>,
}

impl View for Diagnostic {
    type V = DiagnosticModel;

    open spec fn view(&self) -> DiagnosticModel {
        DiagnosticModel {
            line: self.line as nat,
            column: self.column as nat,
            index: self.index as nat,
            message: self.message@,
            notes: self.notes@,
        }
    }
}

/// The diagnostic that carries a message.
pub open spec fn message_diagnostic(m: MessageModel) -> DiagnosticModel {
    DiagnosticModel {
        line: m.line,
        column: m.column,
        index: m.index,
        message: m.message,
        notes: m.notes,
    }
}

/// A diagnostic of text alone.
pub open spec fn text_diagnostic(text: Seq<char>) -> DiagnosticModel {
    DiagnosticModel { line: 0, column: 0, index: 0, message: text, notes: Seq::empty() }
}

pub open spec fn spawn_failure_text(description: Seq<char>) -> Seq<char> {
    "failed to spawn executable: "@ + description
}

pub open spec fn transport_failure_text(description: Seq<char>) -> Seq<char> {
    "i/o error occurred communicating with executable: "@ + description
}

pub open spec fn silent_failure_text(exit_code: i32) -> Seq<char> {
    "tool exited with code `"@ + int_text(exit_code as int) + "` and no output"@
}

/// The diagnostic that a failed run is reported with: its last message, or, with none,
/// a text that gives the exit code.
pub open spec fn tool_failure_diagnostic(exit_code: i32, ms: Seq<MessageModel>) -> DiagnosticModel {
    if ms.len() == 0 {
        text_diagnostic(silent_failure_text(exit_code))
    } else {
        message_diagnostic(ms.last())
    }
}

impl Diagnostic {
    pub fn from_message(m: Message) -> (d: Diagnostic)
        ensures
            d@ == message_diagnostic(m@),
    {
        Diagnostic {
            line: m.line,
            column: m.column,
            index: m.index,
            message: m.message,
            notes: m.notes,
        }
    }

    pub fn from_text(text: String) -> (d: Diagnostic)
        ensures
            d@ == text_diagnostic(text@),
    {
        Diagnostic { line: 0, column: 0, index: 0, message: text, notes: String::new() }
    }
}

pub struct Error {
    pub inner: SpirvResult,
    pub diagnostic: Option<Diagnostic>,
}

impl Error {
    /// A tool that could not be started: it is not supported here.
    pub fn spawn_failure(description: &str) -> (e: Error)
        ensures
            e.inner == SpirvResult::Unsupported,
            e.diagnostic matches Some(d) && d@ == text_diagnostic(spawn_failure_text(description@)),
    {
        let mut t = String::from_str("failed to spawn executable: ");
        t.append(description);
        Error { inner: SpirvResult::Unsupported, diagnostic: Some(Diagnostic::from_text(t)) }
    }

    /// Bytes that could not be moved to or from a tool: the stream ended.
    pub fn transport_failure(description: &str) -> (e: Error)
        ensures
            e.inner == SpirvResult::EndOfStream,
            e.diagnostic matches Some(d) && d@ == text_diagnostic(
                transport_failure_text(description@),
            ),
    {
        let mut t = String::from_str("i/o error occurred communicating with executable: ");
        t.append(description);
        Error { inner: SpirvResult::EndOfStream, diagnostic: Some(Diagnostic::from_text(t)) }
    }

    /// A tool that ran and failed. Its exit code does not tell which status applies, so
    /// the status is an internal error; of its messages only the last is kept.
    pub fn tool_failure(exit_code: i32, messages: Vec<Message>) -> (e: Error)
        ensures
            e.inner == SpirvResult::InternalError,
            e.diagnostic matches Some(d) && d@ == tool_failure_diagnostic(
                exit_code,
                models(messages@),
            ),
    {
        let mut messages = messages;
        let ghost ms = messages@;
        let diagnostic = match messages.pop() {
            Some(m) => Diagnostic::from_message(m),
            None => {
                let mut t = String::from_str("tool exited with code `");
                let d = decimal(exit_code);
                t.append(d.as_str());
                t.append("` and no output");
                Diagnostic::from_text(t)
            },
        };
        proof {
            if ms.len() > 0 {
                assert(models(ms).last() == ms.last()@);
            }
        }
        Error { inner: SpirvResult::InternalError, diagnostic: Some(diagnostic) }
    }

    /// The error a failed run is reported with, in the status codes of the native
    /// library and with at most one diagnostic.
    pub fn from_cmd_error(ce: CmdError) -> (e: Error)
        ensures
            match ce {
                CmdError::BinaryNotFound(_) => {
                    &&& e.inner == SpirvResult::Unsupported
                    &&& e.diagnostic matches Some(d) && exists|t: Seq<char>|
                        d@ == text_diagnostic(#[trigger] spawn_failure_text(t))
                },
                CmdError::Io(_) => {
                    &&& e.inner == SpirvResult::EndOfStream
                    &&& e.diagnostic matches Some(d) && exists|t: Seq<char>|
                        d@ == text_diagnostic(#[trigger] transport_failure_text(t))
                },
                CmdError::ToolErrors { exit_code, messages } => {
                    &&& e.inner == SpirvResult::InternalError
                    &&& e.diagnostic matches Some(d) && d@ == tool_failure_diagnostic(
                        exit_code,
                        models(messages@),
                    )
                },
            },
    {
        match ce {
            CmdError::BinaryNotFound(err) => {
                let t = describe_io_error(&err);
                Error::spawn_failure(t.as_str())
            },
            CmdError::Io(err) => {
                let t = describe_io_error(&err);
                Error::transport_failure(t.as_str())
            },
            CmdError::ToolErrors { exit_code, messages } => Error::tool_failure(
                exit_code,
                messages,
            ),
        }
    }
}

/// Reporting a failed run keeps only its last message: with two or more messages, the
/// diagnostic is the last one's and none of the others'.
pub proof fn lemma_last_message_wins(exit_code: i32, ms: Seq<MessageModel>)
    requires
        ms.len() >= 1,
    ensures
        tool_failure_diagnostic(exit_code, ms) == message_diagnostic(ms[ms.len() - 1]),
{
}

} // verus!
