//! What a tool's run comes to: its output, or the error it is reported as.
use vstd::prelude::*;

use crate::lines::{
    lemma_pieces_concat, lemma_pieces_first_line, lemma_pieces_len, lemma_pieces_no_sep, pieces,
    split_lines,
};
use crate::message::{
    fold_line, fold_lines, models, parse_chars, parse_model, plain_model, Message,
    MessageLevel, MessageModel,
};
use crate::text::{chars_of, decimal, decode_utf8, find_byte, int_text, utf8_error_text};
use vstd::utf8::{decode_utf8 as decode_utf8_spec, valid_utf8};

verus! {

pub enum CmdError {
    /// The tool could not be started: it is missing, or not runnable.
    BinaryNotFound(std::io::Error),
    /// Moving bytes to or from the tool failed.
    Io(std::io::Error),
    /// The tool ran and failed; what it reported is read into messages.
    ToolErrors { exit_code: i32, messages: Vec<Message> },
}

pub struct CmdOutput {
    /// The artifact the tool wrote; empty when it was not asked for.
    pub binary: Vec<u8>,
    /// The diagnostics the tool printed before its output.
    pub messages: Vec<Message>,
}

#[derive(PartialEq, Eq, Copy, Clone, Debug, Structural)]
pub enum Output {
    /// The tool writes no artifact to be read back.
    Ignore,
    /// The tool writes an artifact to a file, which is read back.
    Retrieve,
}

/// How a tool's process ended.
#[derive(PartialEq, Eq, Copy, Clone, Debug, Structural)]
pub enum Termination {
    /// It exited with this code.
    Exited(i32),
    /// A signal ended it; the signal's number, where the platform tells it.
    Signalled(Option<i32>),
    /// The platform cannot tell how it ended.
    Unknown,
}

/// The number reported for a signal whose number is not known.
pub const UNKNOWN_SIGNAL: i32 = 666;

/// A line ending in a carriage return, without it.
pub open spec fn trim_cr(l: Seq<char>) -> Seq<char> {
    if l.len() > 0 && l.last() == '\r' {
        l.drop_last()
    } else {
        l
    }
}

/// The lines of a text: split at `\n`, a `\r` before the `\n` dropped, and no empty line
/// after a final `\n`.
pub open spec fn text_lines(s: Seq<char>) -> Seq<Seq<char>> {
    let p = pieces(s, '\n');
    let ended = p.drop_last().map_values(|l: Seq<char>| trim_cr(l));
    if p.last().len() == 0 {
        ended
    } else {
        ended.push(p.last())
    }
}

/// The message reported for a process ended by a signal.
pub open spec fn signal_text(signal: Option<i32>) -> Seq<char> {
    "process terminated by signal: "@ + int_text(
        match signal {
            Some(n) => n as int,
            None => UNKNOWN_SIGNAL as int,
        },
    )
}

/// The message reported when failure output is not UTF-8.
pub open spec fn undecodable_text(stderr: Seq<u8>, code: i32) -> Seq<char> {
    "unable to read stderr ("@ + utf8_error_text(stderr) + ") but process exited with code "@
        + int_text(code as int)
}

/// The messages of a failed run, from its failure output.
pub open spec fn failure_messages(stderr: Seq<u8>, code: i32) -> Seq<MessageModel> {
    if valid_utf8(stderr) {
        fold_lines(text_lines(decode_utf8_spec(stderr)))
    } else {
        seq![plain_model(MessageLevel::Error, undecodable_text(stderr, code))]
    }
}

/// For a run that failed, its exit code and messages; `None` for a run that succeeded.
pub open spec fn failure_model(status: Termination, stderr: Seq<u8>) -> Option<
    (i32, Seq<MessageModel>),
> {
    match status {
        Termination::Exited(code) => if code == 0 {
            None
        } else {
            Some((code, failure_messages(stderr, code)))
        },
        Termination::Signalled(signal) => Some(
            (-1i32, seq![plain_model(MessageLevel::Error, signal_text(signal))]),
        ),
        Termination::Unknown => Some(
            (-1i32, seq![plain_model(MessageLevel::Error, "process ended in an unknown state"@)]),
        ),
    }
}

/// The messages of the lines of failure output.
fn fold_text(text: &Vec<char>) -> (r: Vec<Message>)
    ensures
        models(r@) == fold_lines(text_lines(text@)),
{
    let mut messages: Vec<Message> = Vec::new();
    let mut cur: Vec<char> = Vec::new();
    let ghost mut done: Seq<Seq<char>> = Seq::empty();
    let mut i: usize = 0;
    assert(text@.take(0) =~= Seq::<char>::empty());
    assert(models(messages@) =~= Seq::<MessageModel>::empty());
    assert(done.map_values(|l: Seq<char>| trim_cr(l)) =~= Seq::<Seq<char>>::empty());
    while i < text.len()
        invariant
            i <= text.len(),
            pieces(text@.take(i as int), '\n') == done.push(cur@),
            models(messages@) == fold_lines(done.map_values(|l: Seq<char>| trim_cr(l))),
        decreases text.len() - i,
    {
        assert(text@.take(i + 1).drop_last() =~= text@.take(i as int));
        let c = text[i];
        if c == '\n' {
            let mut line = cur;
            if line.len() > 0 && line[line.len() - 1] == '\r' {
                line.pop();
            }
            assert(line@ == trim_cr(cur@)) by {
                if cur@.len() > 0 && cur@.last() == '\r' {
                    assert(line@ =~= cur@.drop_last());
                }
            }
            fold_line(&mut messages, &line);
            let ghost trimmed = done.map_values(|l: Seq<char>| trim_cr(l));
            assert(done.push(cur@).map_values(|l: Seq<char>| trim_cr(l)) =~= trimmed.push(line@));
            assert(trimmed.push(line@).drop_last() =~= trimmed);
            proof {
                done = done.push(cur@);
            }
            cur = Vec::new();
        } else {
            cur.push(c);
        }
        i = i + 1;
    }
    assert(text@.take(i as int) =~= text@);
    let ghost trimmed = done.map_values(|l: Seq<char>| trim_cr(l));
    assert(done.push(cur@).drop_last() =~= done);
    if cur.len() > 0 {
        fold_line(&mut messages, &cur);
        assert(trimmed.push(cur@).drop_last() =~= trimmed);
    }
    messages
}

/// Reads failure output that must be UTF-8 text.
fn stderr_messages(stderr: Vec<u8>, code: i32) -> (r: Vec<Message>)
    ensures
        models(r@) == failure_messages(stderr@, code),
{
    let ghost bytes = stderr@;
    match decode_utf8(stderr) {
        Ok(text) => {
            let chars = chars_of(text.as_str());
            fold_text(&chars)
        },
        Err(err) => {
            let mut t = String::from_str("unable to read stderr (");
            t.append(err.as_str());
            t.append(") but process exited with code ");
            let d = decimal(code);
            t.append(d.as_str());
            let m = Message::fatal(t);
            let v = vec![m];
            assert(models(v@) =~= seq![m@]);
            v
        },
    }
}

/// Classifies how a tool's process ended: `None` for an exit with code 0; otherwise the
/// error that reports it, with the messages read from the failure output.
pub fn failure(status: Termination, stderr: Vec<u8>) -> (r: Option<CmdError>)
    ensures
        match failure_model(status, stderr@) {
            None => r is None,
            Some((code, ms)) => r matches Some(CmdError::ToolErrors { exit_code, messages }) && exit_code
                == code && models(messages@) == ms,
        },
{
    match status {
        Termination::Exited(code) => {
            if code == 0 {
                None
            } else {
                let messages = stderr_messages(stderr, code);
                Some(CmdError::ToolErrors { exit_code: code, messages })
            }
        },
        Termination::Signalled(signal) => {
            let n = match signal {
                Some(n) => n,
                None => UNKNOWN_SIGNAL,
            };
            let mut t = String::from_str("process terminated by signal: ");
            let d = decimal(n);
            t.append(d.as_str());
            let m = Message::fatal(t);
            let messages = vec![m];
            assert(models(messages@) =~= seq![m@]);
            Some(CmdError::ToolErrors { exit_code: -1, messages })
        },
        Termination::Unknown => {
            let m = Message::fatal(String::from_str("process ended in an unknown state"));
            let messages = vec![m];
            assert(models(messages@) =~= seq![m@]);
            Some(CmdError::ToolErrors { exit_code: -1, messages })
        },
    }
}

/// The newline byte.
pub const NEWLINE: u8 = 10;

/// The message that a line of standard output holds: one when it is UTF-8 text and a
/// diagnostic line.
pub open spec fn output_line_message(b: Seq<u8>) -> Option<MessageModel> {
    if valid_utf8(b) {
        parse_model(decode_utf8_spec(b))
    } else {
        None
    }
}

/// The messages of the leading diagnostic lines, up to the first line that is not one.
pub open spec fn leading_messages(lines: Seq<Seq<u8>>) -> Seq<MessageModel>
    decreases lines.len(),
{
    if lines.len() == 0 {
        Seq::empty()
    } else {
        match output_line_message(lines[0]) {
            Some(m) => seq![m] + leading_messages(lines.skip(1)),
            None => Seq::empty(),
        }
    }
}

/// The diagnostics that lead standard output, split at newline bytes.
pub open spec fn stdout_model(out: Seq<u8>) -> Seq<MessageModel> {
    leading_messages(split_lines(out, NEWLINE))
}

pub open spec fn all_messages(lines: Seq<Seq<u8>>) -> bool {
    forall|k: int| 0 <= k < lines.len() ==> (#[trigger] output_line_message(lines[k])) is Some
}

/// Past lines that all hold messages, scanning goes on into what follows.
proof fn lemma_leading_concat(a: Seq<Seq<u8>>, b: Seq<Seq<u8>>)
    requires
        all_messages(a),
    ensures
        leading_messages(a + b) == leading_messages(a) + leading_messages(b),
    decreases a.len(),
{
    if a.len() == 0 {
        assert(a + b =~= b);
        assert(leading_messages(a) + leading_messages(b) =~= leading_messages(b));
    } else {
        assert((a + b)[0] == a[0]);
        assert((a + b).skip(1) =~= a.skip(1) + b);
        assert(all_messages(a.skip(1))) by {
            assert forall|k: int| 0 <= k < a.skip(1).len() implies (#[trigger] output_line_message(
                a.skip(1)[k],
            )) is Some by {
                assert(a.skip(1)[k] == a[k + 1]);
            }
        }
        assert(output_line_message(a[0]) is Some);
        lemma_leading_concat(a.skip(1), b);
        let m = output_line_message(a[0]).unwrap();
        assert(seq![m] + (leading_messages(a.skip(1)) + leading_messages(b)) =~= (seq![m]
            + leading_messages(a.skip(1))) + leading_messages(b));
    }
}

/// After the lines done, the next line of the rest comes first among the lines of the
/// whole; where the rest has no newline, it is the last line.
proof fn lemma_next_line(x: Seq<u8>, rest: Seq<u8>, done: Seq<Seq<u8>>, l: Seq<u8>)
    requires
        pieces(x, NEWLINE) == done.push(Seq::empty()),
        rest.len() > 0,
        !l.contains(NEWLINE),
        rest == l || (rest.len() > l.len() && rest == l + seq![NEWLINE] + rest.skip(
            l.len() as int + 1,
        )),
    ensures
        ({
            let all = split_lines(x + rest, NEWLINE);
            &&& all == done + (seq![l] + all.skip(done.len() as int + 1))
            &&& rest == l ==> all == done.push(l)
        }),
{
    lemma_pieces_len(rest, NEWLINE);
    lemma_pieces_concat(x, rest, NEWLINE);
    assert(Seq::<u8>::empty() + pieces(rest, NEWLINE)[0] =~= pieces(rest, NEWLINE)[0]);
    assert(done.push(Seq::empty()).drop_last() =~= done);
    assert(pieces(x + rest, NEWLINE) =~= done + pieces(rest, NEWLINE));
    if rest == l {
        lemma_pieces_no_sep(l, NEWLINE);
        assert(pieces(x + rest, NEWLINE) =~= done.push(l));
        assert(split_lines(x + rest, NEWLINE) =~= done.push(l));
    } else {
        let more = rest.skip(l.len() as int + 1);
        lemma_pieces_first_line(l, more, NEWLINE);
        lemma_pieces_len(more, NEWLINE);
    }
    let all = split_lines(x + rest, NEWLINE);
    assert(all.len() > done.len());
    assert(all =~= done + (seq![l] + all.skip(done.len() as int + 1)));
}

/// A line ended by a newline joins the lines done.
proof fn lemma_line_done(x: Seq<u8>, done: Seq<Seq<u8>>, l: Seq<u8>)
    requires
        pieces(x, NEWLINE) == done.push(Seq::empty()),
        !l.contains(NEWLINE),
    ensures
        pieces(x + (l + seq![NEWLINE]), NEWLINE) == done.push(l).push(Seq::empty()),
{
    lemma_pieces_first_line(l, Seq::empty(), NEWLINE);
    lemma_pieces_concat(x, l + seq![NEWLINE], NEWLINE);
    assert(done.push(Seq::empty()).drop_last() =~= done);
    assert(Seq::<u8>::empty() + l =~= l);
    assert(pieces(x + (l + seq![NEWLINE]), NEWLINE) =~= done.push(l).push(Seq::empty()));
}

/// The message of one line of standard output, if it holds one.
fn line_message(line: &[u8]) -> (r: Option<Message>)
    ensures
        match r {
            Some(m) => output_line_message(line@) == Some(m@),
            None => output_line_message(line@) is None,
        },
{
    match decode_utf8(vstd::slice::slice_to_vec(line)) {
        Ok(text) => {
            let chars = chars_of(text.as_str());
            parse_chars(&chars)
        },
        Err(_) => None,
    }
}

/// Reads the diagnostics that lead standard output: line by line, up to the first line
/// that is not UTF-8 or not a diagnostic line, which ends the scan.
pub fn stdout_messages(out: &[u8]) -> (r: Vec<Message>)
    ensures
        models(r@) == stdout_model(out@),
{
    let mut messages: Vec<Message> = Vec::new();
    let mut start: usize = 0;
    let ghost mut done: Seq<Seq<u8>> = Seq::empty();
    assert(out@.take(0) =~= Seq::<u8>::empty());
    assert(models(messages@) =~= Seq::<MessageModel>::empty());
    while start < out.len()
        invariant
            start <= out.len(),
            pieces(out@.take(start as int), NEWLINE) == done.push(Seq::empty()),
            all_messages(done),
            models(messages@) == leading_messages(done),
        decreases out.len() - start,
    {
        let rest = vstd::slice::slice_subrange(out, start, out.len());
        let found = find_byte(NEWLINE, rest);
        let end = match found {
            Some(p) => start + p,
            None => out.len(),
        };
        let line = vstd::slice::slice_subrange(out, start, end);
        let ghost x = out@.take(start as int);
        let ghost l = line@;
        proof {
            assert(!l.contains(NEWLINE)) by {
                if l.contains(NEWLINE) {
                    let j = choose|j: int| 0 <= j < l.len() && l[j] == NEWLINE;
                    assert(rest@[j] == NEWLINE);
                }
            }
            assert(out@ =~= x + rest@);
            if let Some(p) = found {
                assert(rest@ =~= l + seq![NEWLINE] + rest@.skip(p + 1));
            } else {
                assert(rest@ =~= l);
            }
            lemma_next_line(x, rest@, done, l);
        }
        match line_message(line) {
            Some(m) => {
                proof {
                    let ls = seq![l];
                    assert(ls.skip(1) =~= Seq::<Seq<u8>>::empty());
                    assert(all_messages(ls));
                    lemma_leading_concat(done, ls);
                    assert(done + ls =~= done.push(l));
                    assert(models(messages@.push(m)) =~= models(messages@).push(m@));
                    assert(ls[0] == l);
                    assert(leading_messages(ls.skip(1)) == Seq::<MessageModel>::empty());
                    assert(leading_messages(ls) == seq![m@] + leading_messages(ls.skip(1)));
                    assert(leading_messages(ls) =~= seq![m@]);
                    assert(all_messages(done.push(l))) by {
                        assert forall|k: int| 0 <= k < done.push(l).len() implies (
                        #[trigger] output_line_message(done.push(l)[k])) is Some by {
                            if k < done.len() {
                                assert(done.push(l)[k] == done[k]);
                            }
                        }
                    }
                }
                messages.push(m);
                match found {
                    Some(p) => {
                        proof {
                            assert(out@.take(start + p + 1) =~= x + (l + seq![NEWLINE]));
                            lemma_line_done(x, done, l);
                            done = done.push(l);
                        }
                        start = start + p + 1;
                    },
                    None => {
                        return messages;
                    },
                }
            },
            None => {
                proof {
                    let all = split_lines(out@, NEWLINE);
                    let tail = seq![l] + all.skip(done.len() as int + 1);
                    assert(tail[0] == l);
                    lemma_leading_concat(done, tail);
                    assert(leading_messages(tail) =~= Seq::<MessageModel>::empty());
                    assert(leading_messages(done) + Seq::<MessageModel>::empty() =~= leading_messages(done));
                }
                return messages;
            },
        }
    }
    assert(out@.take(start as int) =~= out@);
    assert(split_lines(out@, NEWLINE) =~= done);
    messages
}

/// The result of a run that succeeded: the artifact read back, and the diagnostics that
/// lead standard output.
pub fn success(binary: Vec<u8>, stdout: &[u8]) -> (r: CmdOutput)
    ensures
        r.binary@ == binary@,
        models(r.messages@) == stdout_model(stdout@),
{
    let messages = stdout_messages(stdout);
    CmdOutput { binary, messages }
}

/// Scanning standard output stops at the first line that is not a diagnostic: the lines
/// after it are never read, not even as notes.
pub proof fn lemma_scan_stops(before: Seq<Seq<u8>>, stop: Seq<u8>, after: Seq<Seq<u8>>)
    requires
        all_messages(before),
        output_line_message(stop) is None,
    ensures
        leading_messages(before + (seq![stop] + after)) == leading_messages(before),
{
    lemma_leading_concat(before, seq![stop] + after);
    assert((seq![stop] + after)[0] == stop);
    assert(leading_messages(before) + Seq::<MessageModel>::empty() =~= leading_messages(before));
}

/// Failure output that is not UTF-8 is reported as one error that gives the decoding
/// error and the exit code.
pub proof fn lemma_undecodable_failure(stderr: Seq<u8>, code: i32)
    requires
        !valid_utf8(stderr),
        code != 0,
    ensures
        failure_model(Termination::Exited(code), stderr) == Some(
            (code, seq![plain_model(MessageLevel::Error, undecodable_text(stderr, code))]),
        ),
{
}

} // verus!
