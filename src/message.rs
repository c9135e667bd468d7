//! One diagnostic reported by a tool, and the line grammar it is read from:
//! `<level>:<line>:<column> - <text>`.
use vstd::prelude::*;

use crate::text::{chars_of, string_of};

verus! {

#[derive(Clone, Copy, Debug, PartialEq, Eq, Structural)]
pub enum MessageLevel {
    Error,
    Warning,
    Info,
    Debug,
}

#[derive(Clone, Debug)]
pub struct Message {
    pub level: MessageLevel,
    pub source: Option<String>,
    pub line: usize,
    pub column: usize,
    pub index: usize,
    pub message: String,
    /// Supplementary lines, joined by newlines.
    pub notes: String,
}

/// What a [`Message`] holds, as mathematical values.
pub struct MessageModel {
    pub level: MessageLevel,
    pub source: Option<Seq<char>>,
    pub line: nat,
    pub column: nat,
    pub index: nat,
    pub message: Seq<char>,
    pub notes: Seq<char>,
}

impl View for Message {
    type V = MessageModel;

    open spec fn view(&self) -> MessageModel {
        MessageModel {
            level: self.level,
            source: match self.source {
                Some(s) => Some(s@),
                None => None,
            },
            line: self.line as nat,
            column: self.column as nat,
            index: self.index as nat,
            message: self.message@,
            notes: self.notes@,
        }
    }
}

/// A message with no location and no notes.
pub open spec fn plain_model(level: MessageLevel, text: Seq<char>) -> MessageModel {
    MessageModel {
        level,
        source: None,
        line: 0,
        column: 0,
        index: 0,
        message: text,
        notes: Seq::empty(),
    }
}

/// The word that names a level at the start of a line.
pub open spec fn level_word(level: MessageLevel) -> Seq<char> {
    match level {
        MessageLevel::Error => seq!['e', 'r', 'r', 'o', 'r'],
        MessageLevel::Warning => seq!['w', 'a', 'r', 'n', 'i', 'n', 'g'],
        MessageLevel::Info => seq!['i', 'n', 'f', 'o'],
        MessageLevel::Debug => seq!['d', 'e', 'b', 'u', 'g'],
    }
}

pub open spec fn is_digit(c: char) -> bool {
    '0' <= c && c <= '9'
}

pub open spec fn all_digits(s: Seq<char>) -> bool {
    forall|i: int| 0 <= i < s.len() ==> is_digit(#[trigger] s[i])
}

/// The value of a string of decimal digits.
pub open spec fn decimal_value(s: Seq<char>) -> nat
    decreases s.len(),
{
    if s.len() == 0 {
        0
    } else {
        decimal_value(s.drop_last()) * 10 + (s.last() as nat - '0' as nat) as nat
    }
}

/// A line or column number: one or more digits whose value fits in `usize`.
pub open spec fn is_number(s: Seq<char>) -> bool {
    s.len() > 0 && all_digits(s) && decimal_value(s) <= usize::MAX
}

pub open spec fn separator() -> Seq<char> {
    seq![' ', '-', ' ']
}

/// `s` reads `<level>:<line>:<column> - <text>` with the given parts.
#[verifier::opaque]
pub open spec fn spells(
    s: Seq<char>,
    level: MessageLevel,
    line: Seq<char>,
    column: Seq<char>,
    text: Seq<char>,
) -> bool {
    &&& s == level_word(level) + seq![':'] + line + seq![':'] + column + separator() + text
    &&& is_number(line)
    &&& is_number(column)
}

/// `s` is a diagnostic line.
pub open spec fn well_formed(s: Seq<char>) -> bool {
    exists|level: MessageLevel, line: Seq<char>, column: Seq<char>, text: Seq<char>|
        spells(s, level, line, column, text)
}

/// The message that a line spelled from the given parts stands for.
pub open spec fn spelled_model(
    level: MessageLevel,
    line: Seq<char>,
    column: Seq<char>,
    text: Seq<char>,
) -> MessageModel {
    MessageModel {
        level,
        source: None,
        line: decimal_value(line),
        column: decimal_value(column),
        index: 0,
        message: text,
        notes: Seq::empty(),
    }
}

/// The message that a line stands for, if it is a diagnostic line.
pub open spec fn parse_model(s: Seq<char>) -> Option<MessageModel> {
    if well_formed(s) {
        let (level, line, column, text) = choose|
            level: MessageLevel,
            line: Seq<char>,
            column: Seq<char>,
            text: Seq<char>,
        | spells(s, level, line, column, text);
        Some(spelled_model(level, line, column, text))
    } else {
        None
    }
}

proof fn lemma_word_has_no_colon(level: MessageLevel)
    ensures
        forall|i: int| 0 <= i < level_word(level).len() ==> #[trigger] level_word(level)[i] != ':',
        forall|i: int| 0 <= i < level_word(level).len() ==> !is_digit(#[trigger] level_word(level)[i]),
{
}

/// Where the parts of a line stand in it, for a level word of length `p` and numbers of
/// lengths `q - p - 1` and `r - q - 1`.
spec fn shaped(
    s: Seq<char>,
    level: MessageLevel,
    line: Seq<char>,
    column: Seq<char>,
    text: Seq<char>,
) -> bool {
    let p = level_word(level).len() as int;
    let q = p + 1 + line.len();
    let r = q + 1 + column.len();
    &&& is_number(line)
    &&& is_number(column)
    &&& r + 3 <= s.len()
    &&& s.subrange(0, p) == level_word(level)
    &&& s[p] == ':'
    &&& (forall|i: int| 0 <= i < p ==> #[trigger] s[i] != ':')
    &&& s.subrange(p + 1, q) == line
    &&& s[q] == ':'
    &&& s.subrange(q + 1, r) == column
    &&& s[r] == ' ' && s[r + 1] == '-' && s[r + 2] == ' '
    &&& s.subrange(r + 3, s.len() as int) == text
}

proof fn lemma_spelled_shape(
    s: Seq<char>,
    level: MessageLevel,
    line: Seq<char>,
    column: Seq<char>,
    text: Seq<char>,
)
    requires
        spells(s, level, line, column, text),
    ensures
        shaped(s, level, line, column, text),
{
    reveal(spells);
    let w = level_word(level);
    lemma_word_has_no_colon(level);
    let p = w.len() as int;
    let q = p + 1 + line.len();
    let r = q + 1 + column.len();
    assert(s.subrange(0, p) =~= w);
    assert(s.subrange(p + 1, q) =~= line);
    assert(s.subrange(q + 1, r) =~= column);
    assert(s.subrange(r + 3, s.len() as int) =~= text);
    assert forall|i: int| 0 <= i < p implies #[trigger] s[i] != ':' by {
        assert(s[i] == w[i]);
    }
}

proof fn lemma_word_injective(l1: MessageLevel, l2: MessageLevel)
    requires
        level_word(l1) == level_word(l2),
    ensures
        l1 == l2,
{
    assert(level_word(l1).len() == level_word(l2).len());
    assert(level_word(l1)[0] == level_word(l2)[0]);
}

/// A line is spelled from one set of parts at most.
proof fn lemma_shape_unique(
    s: Seq<char>,
    l1: MessageLevel,
    a1: Seq<char>,
    b1: Seq<char>,
    t1: Seq<char>,
    l2: MessageLevel,
    a2: Seq<char>,
    b2: Seq<char>,
    t2: Seq<char>,
)
    requires
        shaped(s, l1, a1, b1, t1),
        shaped(s, l2, a2, b2, t2),
    ensures
        l1 == l2 && a1 == a2 && b1 == b2 && t1 == t2,
{
    let p1 = level_word(l1).len() as int;
    let p2 = level_word(l2).len() as int;
    assert(!(p1 < p2)) by {
        if p1 < p2 {
            assert(s[p1] != ':');
        }
    }
    assert(!(p2 < p1)) by {
        if p2 < p1 {
            assert(s[p2] != ':');
        }
    }
    lemma_word_injective(l1, l2);
    let p = p1;
    assert(a1.len() == a2.len()) by {
        if a1.len() < a2.len() {
            assert(s.subrange(p + 1, p + 1 + a2.len())[a1.len() as int] == s[p + 1 + a1.len()]);
            assert(is_digit(a2[a1.len() as int]));
        } else if a1.len() > a2.len() {
            assert(s.subrange(p + 1, p + 1 + a1.len())[a2.len() as int] == s[p + 1 + a2.len()]);
            assert(is_digit(a1[a2.len() as int]));
        }
    }
    let q = p + 1 + a1.len();
    assert(b1.len() == b2.len()) by {
        if b1.len() < b2.len() {
            assert(s.subrange(q + 1, q + 1 + b2.len())[b1.len() as int] == s[q + 1 + b1.len()]);
            assert(is_digit(b2[b1.len() as int]));
        } else if b1.len() > b2.len() {
            assert(s.subrange(q + 1, q + 1 + b1.len())[b2.len() as int] == s[q + 1 + b2.len()]);
            assert(is_digit(b1[b2.len() as int]));
        }
    }
}

/// Parsing a line spelled from its parts gives back exactly those parts, with no source,
/// no index and no notes.
pub proof fn lemma_parse_round_trip(
    s: Seq<char>,
    level: MessageLevel,
    line: Seq<char>,
    column: Seq<char>,
    text: Seq<char>,
)
    requires
        spells(s, level, line, column, text),
    ensures
        parse_model(s) == Some(spelled_model(level, line, column, text)),
{
    assert(well_formed(s));
    let (l2, a2, b2, t2) = choose|
        l2: MessageLevel,
        a2: Seq<char>,
        b2: Seq<char>,
        t2: Seq<char>,
    | spells(s, l2, a2, b2, t2);
    lemma_spelled_shape(s, level, line, column, text);
    lemma_spelled_shape(s, l2, a2, b2, t2);
    lemma_shape_unique(s, level, line, column, text, l2, a2, b2, t2);
}

/// Whether `c[0..end]` is the word of `level`.
fn is_word(c: &Vec<char>, end: usize, level: MessageLevel) -> (r: bool)
    requires
        end <= c.len(),
    ensures
        r == (c@.subrange(0, end as int) == level_word(level)),
{
    let w: Vec<char> = match level {
        MessageLevel::Error => vec!['e', 'r', 'r', 'o', 'r'],
        MessageLevel::Warning => vec!['w', 'a', 'r', 'n', 'i', 'n', 'g'],
        MessageLevel::Info => vec!['i', 'n', 'f', 'o'],
        MessageLevel::Debug => vec!['d', 'e', 'b', 'u', 'g'],
    };
    assert(w@ =~= level_word(level));
    if w.len() != end {
        return false;
    }
    let mut i: usize = 0;
    while i < end
        invariant
            i <= end,
            end == w.len(),
            end <= c.len(),
            w@ == level_word(level),
            forall|j: int| 0 <= j < i ==> c@[j] == w@[j],
        decreases end - i,
    {
        if c[i] != w[i] {
            assert(c@.subrange(0, end as int)[i as int] != w@[i as int]);
            return false;
        }
        i = i + 1;
    }
    assert(c@.subrange(0, end as int) =~= w@);
    true
}

/// Reads the digits of `c` from `start` on: where they end, and their value when it fits
/// in `usize`.
fn scan_number(c: &Vec<char>, start: usize) -> (r: (usize, Option<usize>))
    requires
        start <= c.len(),
    ensures
        start <= r.0 <= c.len(),
        all_digits(c@.subrange(start as int, r.0 as int)),
        r.0 == c.len() || !is_digit(c@[r.0 as int]),
        match r.1 {
            Some(v) => v == decimal_value(c@.subrange(start as int, r.0 as int)),
            None => decimal_value(c@.subrange(start as int, r.0 as int)) > usize::MAX,
        },
{
    let mut k: usize = start;
    let mut value: Option<usize> = Some(0);
    assert(c@.subrange(start as int, start as int) =~= Seq::<char>::empty());
    while k < c.len() && '0' <= c[k] && c[k] <= '9'
        invariant
            start <= k <= c.len(),
            all_digits(c@.subrange(start as int, k as int)),
            match value {
                Some(v) => v == decimal_value(c@.subrange(start as int, k as int)),
                None => decimal_value(c@.subrange(start as int, k as int)) > usize::MAX,
            },
        decreases c.len() - k,
    {
        let ghost before = c@.subrange(start as int, k as int);
        let ghost after = c@.subrange(start as int, k + 1);
        assert(after.drop_last() =~= before);
        assert(after.last() == c@[k as int]);
        let d: usize = (c[k] as u32 - '0' as u32) as usize;
        value = match value {
            Some(v) => {
                match v.checked_mul(10) {
                    Some(t) => t.checked_add(d),
                    None => None,
                }
            },
            None => None,
        };
        k = k + 1;
        assert(all_digits(c@.subrange(start as int, k as int))) by {
            assert forall|j: int| 0 <= j < after.len() implies is_digit(#[trigger] after[j]) by {
                if j < before.len() {
                    assert(after[j] == before[j]);
                }
            }
        }
    }
    (k, value)
}

/// The position of the first colon of `c`, or its length where it has none.
fn first_colon(c: &Vec<char>) -> (i: usize)
    ensures
        i <= c.len(),
        forall|j: int| 0 <= j < i ==> c@[j] != ':',
        i < c.len() ==> c@[i as int] == ':',
{
    let mut i: usize = 0;
    while i < c.len() && c[i] != ':'
        invariant
            i <= c.len(),
            forall|j: int| 0 <= j < i ==> c@[j] != ':',
        decreases c.len() - i,
    {
        i = i + 1;
    }
    i
}

/// The level whose word is `c[0..end]`, if any.
fn level_named(c: &Vec<char>, end: usize) -> (r: Option<MessageLevel>)
    requires
        end <= c.len(),
    ensures
        match r {
            Some(l) => c@.subrange(0, end as int) == level_word(l),
            None => forall|l: MessageLevel| c@.subrange(0, end as int) != level_word(l),
        },
{
    if is_word(c, end, MessageLevel::Error) {
        Some(MessageLevel::Error)
    } else if is_word(c, end, MessageLevel::Warning) {
        Some(MessageLevel::Warning)
    } else if is_word(c, end, MessageLevel::Info) {
        Some(MessageLevel::Info)
    } else if is_word(c, end, MessageLevel::Debug) {
        Some(MessageLevel::Debug)
    } else {
        assert forall|l: MessageLevel| c@.subrange(0, end as int) != level_word(l) by {
            match l {
                MessageLevel::Error => {},
                MessageLevel::Warning => {},
                MessageLevel::Info => {},
                MessageLevel::Debug => {},
            }
        }
        None
    }
}

/// Reads a diagnostic line given as characters.
pub(crate) fn parse_chars(c: &Vec<char>) -> (r: Option<Message>)
    ensures
        match r {
            Some(m) => parse_model(c@) == Some(m@),
            None => !well_formed(c@),
        },
{
    let ghost s = c@;
    let ghost w = well_formed(s);
    let ghost (gl, ga, gb, gt) = choose|
        l: MessageLevel,
        a: Seq<char>,
        b: Seq<char>,
        t: Seq<char>,
    | spells(s, l, a, b, t);
    let ghost p = level_word(gl).len() as int;
    let ghost q = p + 1 + ga.len();
    let ghost rr = q + 1 + gb.len();
    proof {
        if w {
            lemma_spelled_shape(s, gl, ga, gb, gt);
        }
    }
    let n = c.len();
    let i = first_colon(c);
    if i == n {
        assert(!w) by {
            if w {
                assert(s[p] == ':');
            }
        }
        return None;
    }
    proof {
        if w {
            assert(!(i < p)) by {
                if i < p {
                    assert(s[i as int] != ':');
                }
            }
            assert(!(p < i)) by {
                if p < i {
                    assert(s[p] != ':');
                }
            }
        }
    }
    let level = match level_named(c, i) {
        Some(l) => l,
        None => {
            assert(!w) by {
                if w {
                    assert(s.subrange(0, i as int) == level_word(gl));
                }
            }
            return None;
        },
    };
    let (k1, v1) = scan_number(c, i + 1);
    proof {
        if w {
            lemma_word_injective(level, gl);
            assert(k1 == q) by {
                if k1 < q {
                    assert(ga[k1 - p - 1] == s[k1 as int]);
                    assert(is_digit(ga[k1 - p - 1]));
                } else if k1 > q {
                    assert(c@.subrange(i + 1, k1 as int)[q - p - 1] == s[q]);
                }
            }
        }
    }
    if k1 == i + 1 || k1 == n || c[k1] != ':' {
        assert(!w);
        return None;
    }
    let line = match v1 {
        Some(v) => v,
        None => {
            assert(!w);
            return None;
        },
    };
    let (k2, v2) = scan_number(c, k1 + 1);
    proof {
        if w {
            assert(k2 == rr) by {
                if k2 < rr {
                    assert(gb[k2 - q - 1] == s[k2 as int]);
                    assert(is_digit(gb[k2 - q - 1]));
                } else if k2 > rr {
                    assert(c@.subrange(k1 + 1, k2 as int)[rr - q - 1] == s[rr]);
                }
            }
        }
    }
    if k2 == k1 + 1 || n - k2 < 3 || c[k2] != ' ' || c[k2 + 1] != '-' || c[k2 + 2] != ' ' {
        assert(!w);
        return None;
    }
    let column = match v2 {
        Some(v) => v,
        None => {
            assert(!w);
            return None;
        },
    };
    let text = string_of(vstd::slice::slice_subrange(c.as_slice(), k2 + 3, n));
    let ghost a = s.subrange(i + 1, k1 as int);
    let ghost b = s.subrange(k1 + 1, k2 as int);
    assert(spells(s, level, a, b, text@)) by {
        reveal(spells);
        assert(s =~= level_word(level) + seq![':'] + a + seq![':'] + b + separator() + text@);
    }
    proof {
        lemma_parse_round_trip(s, level, a, b, text@);
    }
    Some(
        Message {
            level,
            source: None,
            line,
            column,
            index: 0,
            message: text,
            notes: String::new(),
        },
    )
}

impl Message {
    /// Reads one line in the grammar `<level>:<line>:<column> - <text>`; `None` for any
    /// other line.
    pub fn parse(line: &str) -> (r: Option<Message>)
        ensures
            match r {
                Some(m) => parse_model(line@) == Some(m@),
                None => !well_formed(line@),
            },
    {
        let c = chars_of(line);
        parse_chars(&c)
    }
}

/// The models of a sequence of messages.
pub open spec fn models(ms: Seq<Message>) -> Seq<MessageModel> {
    ms.map_values(|m: Message| m@)
}

/// `m` with one more line of notes.
pub open spec fn with_note(m: MessageModel, line: Seq<char>) -> MessageModel {
    MessageModel {
        notes: if m.notes.len() == 0 {
            line
        } else {
            m.notes + seq!['\n'] + line
        },
        ..m
    }
}

/// One line of failure output read into the messages before it: a diagnostic line
/// starts a message; another line is a note of the last message, or, with no message
/// yet, a message of its own.
pub open spec fn fold_step(ms: Seq<MessageModel>, line: Seq<char>) -> Seq<MessageModel> {
    match parse_model(line) {
        Some(m) => ms.push(m),
        None => if ms.len() == 0 {
            ms.push(plain_model(MessageLevel::Error, line))
        } else {
            ms.update(ms.len() - 1, with_note(ms.last(), line))
        },
    }
}

/// The messages that lines of failure output hold.
pub open spec fn fold_lines(lines: Seq<Seq<char>>) -> Seq<MessageModel>
    decreases lines.len(),
{
    if lines.len() == 0 {
        Seq::empty()
    } else {
        fold_step(fold_lines(lines.drop_last()), lines.last())
    }
}

proof fn lemma_models_push(ms: Seq<Message>, m: Message)
    ensures
        models(ms.push(m)) == models(ms).push(m@),
{
    assert(models(ms.push(m)) =~= models(ms).push(m@));
}

impl Message {
    /// An error with the given text, no location and no notes.
    pub fn fatal(text: String) -> (m: Message)
        ensures
            m@ == plain_model(MessageLevel::Error, text@),
    {
        Message {
            level: MessageLevel::Error,
            source: None,
            line: 0,
            column: 0,
            index: 0,
            message: text,
            notes: String::new(),
        }
    }

    /// Adds a line to the notes, after a newline where there are notes already.
    pub fn add_note(&mut self, line: &str)
        ensures
            final(self)@ == with_note(old(self)@, line@),
    {
        if !self.notes.as_str().is_empty() {
            self.notes.append("\n");
            proof {
                reveal_strlit("\n");
            }
        }
        self.notes.append(line);
        proof {
            if old(self).notes@.len() != 0 {
                assert(final(self).notes@ =~= old(self).notes@ + seq!['\n'] + line@);
            }
        }
    }
}

/// Reads one line of failure output into `messages`.
pub(crate) fn fold_line(messages: &mut Vec<Message>, line: &Vec<char>)
    ensures
        models(final(messages)@) == fold_step(models(old(messages)@), line@),
{
    match parse_chars(line) {
        Some(m) => {
            proof {
                lemma_models_push(messages@, m);
            }
            messages.push(m);
        },
        None => {
            let text = string_of(line.as_slice());
            if messages.len() == 0 {
                let m = Message::fatal(text);
                proof {
                    lemma_models_push(messages@, m);
                }
                messages.push(m);
            } else {
                let ghost before = messages@;
                let mut last = messages.pop().unwrap();
                last.add_note(text.as_str());
                proof {
                    lemma_models_push(messages@, last);
                }
                messages.push(last);
                assert(models(messages@) =~= models(before).update(
                    before.len() - 1,
                    with_note(models(before).last(), line@),
                ));
            }
        },
    }
}

} // verus!
