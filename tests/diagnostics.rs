use spirv_tools::cmd::{failure, stdout_messages, success, CmdError, Termination};
use spirv_tools::error::{Error, SpirvResult};
use spirv_tools::message::{Message, MessageLevel};

fn tool_errors(e: Option<CmdError>) -> (i32, Vec<Message>) {
    match e {
        Some(CmdError::ToolErrors {
            exit_code,
            messages,
        }) => (exit_code, messages),
        _ => panic!("expected tool errors"),
    }
}

#[test]
fn parses_a_diagnostic_line() {
    let m = Message::parse("error:3:7 - bad thing").unwrap();
    assert_eq!(m.level, MessageLevel::Error);
    assert_eq!(m.line, 3);
    assert_eq!(m.column, 7);
    assert_eq!(m.message, "bad thing");
    assert_eq!(m.notes, "");
    assert!(m.source.is_none());
    assert_eq!(m.index, 0);
}

#[test]
fn parses_every_level() {
    assert_eq!(Message::parse("warning:0:0 - w").unwrap().level, MessageLevel::Warning);
    assert_eq!(Message::parse("info:0:0 - i").unwrap().level, MessageLevel::Info);
    assert_eq!(Message::parse("debug:10:200 - d").unwrap().level, MessageLevel::Debug);
    let m = Message::parse("debug:10:200 - d").unwrap();
    assert_eq!((m.line, m.column), (10, 200));
}

#[test]
fn keeps_colons_and_dashes_in_the_text() {
    let m = Message::parse("warning:12:34 - ID 5: x - y: z").unwrap();
    assert_eq!(m.line, 12);
    assert_eq!(m.column, 34);
    assert_eq!(m.message, "ID 5: x - y: z");
}

#[test]
fn keeps_an_empty_text_and_unicode() {
    assert_eq!(Message::parse("error:1:2 - ").unwrap().message, "");
    assert_eq!(Message::parse("error:1:2 - caf\u{e9} \u{1F600}").unwrap().message, "caf\u{e9} \u{1F600}");
}

#[test]
fn rejects_lines_outside_the_grammar() {
    for line in [
        "",
        "garbage",
        "Error:1:1 - x",
        "fatal:1:1 - x",
        "error:1 - x",
        "error::1 - x",
        "error:1: - x",
        "error:a:1 - x",
        "error:1:1 -x",
        "error:1:1- x",
        "error:1:1",
        "error 1:1 - x",
        "  error:1:1 - x",
        "error:99999999999999999999999:1 - x",
    ] {
        assert!(Message::parse(line).is_none(), "{line}");
    }
}

#[test]
fn fatal_has_no_location() {
    let m = Message::fatal("it broke".to_owned());
    assert_eq!(m.level, MessageLevel::Error);
    assert_eq!((m.line, m.column, m.index), (0, 0, 0));
    assert_eq!(m.message, "it broke");
    assert_eq!(m.notes, "");
    assert!(m.source.is_none());
}

#[test]
fn folds_stderr_lines_into_notes() {
    let stderr = b"error:1:1 - x\n  detail1\n  detail2\n".to_vec();
    let (code, messages) = tool_errors(failure(Termination::Exited(1), stderr));
    assert_eq!(code, 1);
    assert_eq!(messages.len(), 1);
    assert_eq!(messages[0].message, "x");
    assert_eq!(messages[0].notes, "  detail1\n  detail2");
}

#[test]
fn first_stderr_line_of_garbage_becomes_fatal() {
    let stderr = b"garbage\nerror:1:1 - x\n".to_vec();
    let (code, messages) = tool_errors(failure(Termination::Exited(2), stderr));
    assert_eq!(code, 2);
    assert_eq!(messages.len(), 2);
    assert_eq!(messages[0].level, MessageLevel::Error);
    assert_eq!(messages[0].message, "garbage");
    assert_eq!((messages[0].line, messages[0].column), (0, 0));
    assert_eq!(messages[1].message, "x");
}

#[test]
fn stderr_lines_drop_carriage_returns() {
    let stderr = b"error:4:5 - first\r\n  note\r\nwarning:6:7 - second\r".to_vec();
    let (_, messages) = tool_errors(failure(Termination::Exited(1), stderr));
    assert_eq!(messages.len(), 2);
    assert_eq!(messages[0].message, "first");
    assert_eq!(messages[0].notes, "  note");
    assert_eq!(messages[1].level, MessageLevel::Warning);
    assert_eq!(messages[1].message, "second\r");
}

#[test]
fn empty_stderr_gives_no_messages() {
    let (code, messages) = tool_errors(failure(Termination::Exited(-3), Vec::new()));
    assert_eq!(code, -3);
    assert!(messages.is_empty());
}

#[test]
fn undecodable_stderr_gives_one_fatal() {
    let stderr = vec![b'e', b'r', 0xff, b'\n', 0xfe];
    let (code, messages) = tool_errors(failure(Termination::Exited(3), stderr));
    assert_eq!(code, 3);
    assert_eq!(messages.len(), 1);
    let text = &messages[0].message;
    assert!(text.starts_with("unable to read stderr ("), "{text}");
    assert!(text.contains("invalid utf-8"), "{text}");
    assert!(text.ends_with(") but process exited with code 3"), "{text}");
    assert_eq!(messages[0].level, MessageLevel::Error);
}

#[test]
fn signal_death_is_reported() {
    let (code, messages) = tool_errors(failure(Termination::Signalled(Some(9)), Vec::new()));
    assert_eq!(code, -1);
    assert_eq!(messages.len(), 1);
    assert_eq!(messages[0].message, "process terminated by signal: 9");
    let (_, messages) = tool_errors(failure(Termination::Signalled(None), b"error:1:1 - x".to_vec()));
    assert_eq!(messages.len(), 1);
    assert_eq!(messages[0].message, "process terminated by signal: 666");
    let (code, messages) = tool_errors(failure(Termination::Unknown, Vec::new()));
    assert_eq!(code, -1);
    assert_eq!(messages[0].message, "process ended in an unknown state");
}

#[test]
fn exit_zero_is_no_failure() {
    assert!(failure(Termination::Exited(0), b"error:1:1 - x\n".to_vec()).is_none());
}

#[test]
fn exit_zero_with_empty_stdout_and_no_artifact() {
    let out = success(Vec::new(), b"");
    assert!(out.binary.is_empty());
    assert!(out.messages.is_empty());
}

#[test]
fn success_keeps_the_artifact() {
    let out = success(vec![3, 2, 0x23, 7], b"info:1:2 - ok\n");
    assert_eq!(out.binary, vec![3, 2, 0x23, 7]);
    assert_eq!(out.messages.len(), 1);
    assert_eq!(out.messages[0].message, "ok");
}

#[test]
fn stdout_scan_stops_at_first_non_match() {
    let messages = stdout_messages(b"info:0:0 - hi\nBINARYJUNK");
    assert_eq!(messages.len(), 1);
    assert_eq!(messages[0].level, MessageLevel::Info);
    assert_eq!(messages[0].message, "hi");
    assert_eq!(messages[0].notes, "");
}

#[test]
fn stdout_scan_reads_several_lines_and_stops_for_good() {
    let messages =
        stdout_messages(b"info:0:0 - a\nwarning:1:2 - b\n\ninfo:3:3 - never\n");
    assert_eq!(messages.len(), 2);
    assert_eq!(messages[0].message, "a");
    assert_eq!(messages[1].message, "b");
    let all = stdout_messages(b"info:0:0 - a\nwarning:1:2 - b\n");
    assert_eq!(all.len(), 2);
    let last = stdout_messages(b"info:0:0 - a\ndebug:1:2 - b");
    assert_eq!(last.len(), 2);
    assert_eq!(last[1].message, "b");
}

#[test]
fn stdout_scan_stops_at_bytes_that_are_not_utf8() {
    let messages = stdout_messages(&[0x07, 0x23, 0x02, 0x03, 0xff, b'\n', b'i']);
    assert!(messages.is_empty());
    let messages = stdout_messages(b"info:0:0 - a\n\xff\xfe\ninfo:1:1 - b\n");
    assert_eq!(messages.len(), 1);
}

#[test]
fn stdout_keeps_carriage_returns() {
    let messages = stdout_messages(b"info:0:0 - a\r\n");
    assert_eq!(messages.len(), 1);
    assert_eq!(messages[0].message, "a\r");
}

#[test]
fn unification_keeps_the_last_message() {
    let m1 = Message::parse("error:1:2 - first").unwrap();
    let mut m2 = Message::parse("error:3:4 - second").unwrap();
    m2.add_note("  %x = OpLabel");
    let err = Error::from_cmd_error(CmdError::ToolErrors {
        exit_code: 1,
        messages: vec![m1, m2],
    });
    assert_eq!(err.inner, SpirvResult::InternalError);
    let diag = err.diagnostic.unwrap();
    assert_eq!(diag.message, "second");
    assert_eq!((diag.line, diag.column, diag.index), (3, 4, 0));
    assert_eq!(diag.notes, "  %x = OpLabel");
}

#[test]
fn unification_without_messages_names_the_code() {
    let err = Error::from_cmd_error(CmdError::ToolErrors {
        exit_code: 4,
        messages: Vec::new(),
    });
    assert_eq!(err.inner, SpirvResult::InternalError);
    let diag = err.diagnostic.unwrap();
    assert_eq!(diag.message, "tool exited with code `4` and no output");
    assert_eq!((diag.line, diag.column), (0, 0));
}

#[test]
fn unification_of_spawn_and_io_failures() {
    let e = std::io::Error::new(std::io::ErrorKind::NotFound, "no such tool");
    let err = Error::from_cmd_error(CmdError::BinaryNotFound(e));
    assert_eq!(err.inner, SpirvResult::Unsupported);
    assert_eq!(
        err.diagnostic.unwrap().message,
        "failed to spawn executable: no such tool"
    );
    let e = std::io::Error::new(std::io::ErrorKind::BrokenPipe, "pipe closed");
    let err = Error::from_cmd_error(CmdError::Io(e));
    assert_eq!(err.inner, SpirvResult::EndOfStream);
    assert_eq!(
        err.diagnostic.unwrap().message,
        "i/o error occurred communicating with executable: pipe closed"
    );
}

#[test]
fn notes_are_joined_by_newlines() {
    let mut m = Message::fatal("x".to_owned());
    m.add_note("a");
    assert_eq!(m.notes, "a");
    m.add_note("");
    m.add_note("b");
    assert_eq!(m.notes, "a\n\nb");
}

#[test]
fn negative_exit_codes_are_written_with_a_sign() {
    let err = Error::from_cmd_error(CmdError::ToolErrors {
        exit_code: -1073741819,
        messages: Vec::new(),
    });
    assert_eq!(
        err.diagnostic.unwrap().message,
        "tool exited with code `-1073741819` and no output"
    );
    let (code, messages) = tool_errors(failure(Termination::Exited(-7), vec![0xc3]));
    assert_eq!(code, -7);
    assert!(messages[0].message.ends_with("exited with code -7"));
}
