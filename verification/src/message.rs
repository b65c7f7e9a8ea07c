//! Messages relayed to clients, and their newline-delimited JSON wire
//! encoding. Embedded newlines and every other character JSON cannot carry
//! raw are escaped, so one encoded message always occupies exactly one line
//! on the wire.

use crate::text::digit_char;
use vstd::prelude::*;
use vstd::string::*;

verus! {

/// Severity of a notification or log line.
#[derive(Clone, Copy, PartialEq, Eq, Structural, Debug)]
pub enum Level {
    Info,
    Warn,
    Error,
}

/// Which stream of the supervised process a log line came from.
#[derive(Clone, Copy, PartialEq, Eq, Structural, Debug)]
pub enum Stream {
    Stdout,
    Stderr,
}

/// One outbound message: a stream-tagged log line from a supervised
/// process, or a status notification addressed to the user.
#[derive(Debug, PartialEq)]
pub enum Message {
    Log { stream: Stream, level: Level, text: String },
    Notify { level: Level, text: String },
}

impl Message {
    /// An informational notification.
    pub fn notify_info(text: String) -> (m: Message)
        ensures
            m == (Message::Notify { level: Level::Info, text }),
    {
        Message::Notify { level: Level::Info, text }
    }

    /// An error notification.
    pub fn notify_error(text: String) -> (m: Message)
        ensures
            m == (Message::Notify { level: Level::Error, text }),
    {
        Message::Notify { level: Level::Error, text }
    }

    /// An informational log line.
    pub fn log_info(text: String) -> (m: Message)
        ensures
            m == (Message::Log { stream: Stream::Stdout, level: Level::Info, text }),
    {
        Message::Log { stream: Stream::Stdout, level: Level::Info, text }
    }

    /// An error log line.
    pub fn log_error(text: String) -> (m: Message)
        ensures
            m == (Message::Log { stream: Stream::Stderr, level: Level::Error, text }),
    {
        Message::Log { stream: Stream::Stderr, level: Level::Error, text }
    }
}

pub open spec fn hex_digit_char(d: int) -> char {
    if d < 10 {
        digit_char(d)
    } else if d == 10 {
        'a'
    } else if d == 11 {
        'b'
    } else if d == 12 {
        'c'
    } else if d == 13 {
        'd'
    } else if d == 14 {
        'e'
    } else {
        'f'
    }
}

/// The JSON escape of one character of message text.
pub open spec fn escape_char(c: char) -> Seq<char> {
    if c == '"' {
        seq!['\\', '"']
    } else if c == '\\' {
        seq!['\\', '\\']
    } else if c == '\n' {
        seq!['\\', 'n']
    } else if c == '\r' {
        seq!['\\', 'r']
    } else if c == '\t' {
        seq!['\\', 't']
    } else if (c as int) < 32 {
        seq!['\\', 'u', '0', '0', hex_digit_char((c as int) / 16), hex_digit_char((c as int) % 16)]
    } else {
        seq![c]
    }
}

/// The JSON escape of a whole text.
pub open spec fn escape_text(s: Seq<char>) -> Seq<char>
    decreases s.len(),
{
    if s.len() == 0 {
        Seq::empty()
    } else {
        escape_text(s.drop_last()) + escape_char(s.last())
    }
}

pub open spec fn level_str(l: Level) -> Seq<char> {
    match l {
        Level::Info => "info"@,
        Level::Warn => "warn"@,
        Level::Error => "error"@,
    }
}

pub open spec fn stream_str(s: Stream) -> Seq<char> {
    match s {
        Stream::Stdout => "stdout"@,
        Stream::Stderr => "stderr"@,
    }
}

/// The JSON encoding of a message, without the terminating newline.
pub open spec fn encoded_message(m: Message) -> Seq<char> {
    match m {
        Message::Log { stream, level, text } => "{\"kind\":\"log\",\"stream\":\""@ + stream_str(
            stream,
        ) + "\",\"level\":\""@ + level_str(level) + "\",\"text\":\""@ + escape_text(text@)
            + "\"}"@,
        Message::Notify { level, text } => "{\"kind\":\"notify\",\"level\":\""@ + level_str(level)
            + "\",\"text\":\""@ + escape_text(text@) + "\"}"@,
    }
}

/// What one message occupies on the wire: its encoding, newline-terminated.
pub open spec fn wire_line(m: Message) -> Seq<char> {
    encoded_message(m).push('\n')
}

fn hex_digit_to_char(d: u32) -> (c: char)
    requires
        d < 16,
    ensures
        c == hex_digit_char(d as int),
{
    if d == 0 {
        '0'
    } else if d == 1 {
        '1'
    } else if d == 2 {
        '2'
    } else if d == 3 {
        '3'
    } else if d == 4 {
        '4'
    } else if d == 5 {
        '5'
    } else if d == 6 {
        '6'
    } else if d == 7 {
        '7'
    } else if d == 8 {
        '8'
    } else if d == 9 {
        '9'
    } else if d == 10 {
        'a'
    } else if d == 11 {
        'b'
    } else if d == 12 {
        'c'
    } else if d == 13 {
        'd'
    } else if d == 14 {
        'e'
    } else {
        'f'
    }
}

/// Appends the JSON escape of `text` to `out`.
pub fn append_escaped(out: &mut String, text: &str)
    ensures
        final(out)@ == old(out)@ + escape_text(text@),
{
    let n = text.unicode_len();
    let mut i: usize = 0;
    proof {
        assert(old(out)@ + escape_text(text@.take(0)) =~= old(out)@);
    }
    while i < n
        invariant
            0 <= i <= n,
            n == text@.len(),
            out@ == old(out)@ + escape_text(text@.take(i as int)),
        decreases n - i,
    {
        let c = text.get_char(i);
        proof {
            assert(text@.take(i as int + 1).drop_last() =~= text@.take(i as int));
            assert(text@.take(i as int + 1).last() == text@[i as int]);
        }
        let cv = c as u32;
        if c == '"' {
            out.push('\\');
            out.push('"');
        } else if c == '\\' {
            out.push('\\');
            out.push('\\');
        } else if c == '\n' {
            out.push('\\');
            out.push('n');
        } else if c == '\r' {
            out.push('\\');
            out.push('r');
        } else if c == '\t' {
            out.push('\\');
            out.push('t');
        } else if cv < 32 {
            out.push('\\');
            out.push('u');
            out.push('0');
            out.push('0');
            out.push(hex_digit_to_char(cv / 16));
            out.push(hex_digit_to_char(cv % 16));
        } else {
            out.push(c);
        }
        proof {
            assert(out@ =~= old(out)@ + escape_text(text@.take(i as int + 1)));
        }
        i += 1;
    }
    proof {
        assert(text@.take(n as int) =~= text@);
    }
}

/// Encodes a message as one JSON object, exactly as `encoded_message` says.
pub fn encode_message(m: &Message) -> (r: String)
    ensures
        r@ == encoded_message(*m),
{
    let mut out = String::new();
    match m {
        Message::Log { stream, level, text } => {
            out.append("{\"kind\":\"log\",\"stream\":\"");
            match stream {
                Stream::Stdout => out.append("stdout"),
                Stream::Stderr => out.append("stderr"),
            }
            out.append("\",\"level\":\"");
            match level {
                Level::Info => out.append("info"),
                Level::Warn => out.append("warn"),
                Level::Error => out.append("error"),
            }
            out.append("\",\"text\":\"");
            append_escaped(&mut out, text.as_str());
            out.append("\"}");
        },
        Message::Notify { level, text } => {
            out.append("{\"kind\":\"notify\",\"level\":\"");
            match level {
                Level::Info => out.append("info"),
                Level::Warn => out.append("warn"),
                Level::Error => out.append("error"),
            }
            out.append("\",\"text\":\"");
            append_escaped(&mut out, text.as_str());
            out.append("\"}");
        },
    }
    out
}

/// Encodes a message as one newline-terminated wire line.
pub fn encode_wire_line(m: &Message) -> (r: String)
    ensures
        r@ == wire_line(*m),
{
    let mut out = encode_message(m);
    out.push('\n');
    out
}

proof fn lemma_escape_char_no_newline(c: char)
    ensures
        forall|i: int| 0 <= i < escape_char(c).len() ==> escape_char(c)[i] != '\n',
{
}

proof fn lemma_escape_text_no_newline(s: Seq<char>)
    ensures
        forall|i: int| 0 <= i < escape_text(s).len() ==> escape_text(s)[i] != '\n',
    decreases s.len(),
{
    if s.len() > 0 {
        lemma_escape_text_no_newline(s.drop_last());
        lemma_escape_char_no_newline(s.last());
        let a = escape_text(s.drop_last());
        let b = escape_char(s.last());
        assert forall|i: int| 0 <= i < escape_text(s).len() implies escape_text(s)[i] != '\n' by {
            assert(escape_text(s) == a + b);
            if i < a.len() {
                assert((a + b)[i] == a[i]);
            } else {
                assert((a + b)[i] == b[i - a.len()]);
            }
        }
    }
}

proof fn lemma_literal_no_newline()
    ensures
        forall|i: int|
            0 <= i < "{\"kind\":\"log\",\"stream\":\""@.len()
                ==> "{\"kind\":\"log\",\"stream\":\""@[i] != '\n',
        forall|i: int|
            0 <= i < "{\"kind\":\"notify\",\"level\":\""@.len()
                ==> "{\"kind\":\"notify\",\"level\":\""@[i] != '\n',
        forall|i: int| 0 <= i < "\",\"level\":\""@.len() ==> "\",\"level\":\""@[i] != '\n',
        forall|i: int| 0 <= i < "\",\"text\":\""@.len() ==> "\",\"text\":\""@[i] != '\n',
        forall|i: int| 0 <= i < "\"}"@.len() ==> "\"}"@[i] != '\n',
        forall|i: int| 0 <= i < "info"@.len() ==> "info"@[i] != '\n',
        forall|i: int| 0 <= i < "warn"@.len() ==> "warn"@[i] != '\n',
        forall|i: int| 0 <= i < "error"@.len() ==> "error"@[i] != '\n',
        forall|i: int| 0 <= i < "stdout"@.len() ==> "stdout"@[i] != '\n',
        forall|i: int| 0 <= i < "stderr"@.len() ==> "stderr"@[i] != '\n',
{
    reveal_strlit("{\"kind\":\"log\",\"stream\":\"");
    reveal_strlit("{\"kind\":\"notify\",\"level\":\"");
    reveal_strlit("\",\"level\":\"");
    reveal_strlit("\",\"text\":\"");
    reveal_strlit("\"}");
    reveal_strlit("info");
    reveal_strlit("warn");
    reveal_strlit("error");
    reveal_strlit("stdout");
    reveal_strlit("stderr");
}

/// The encoded form of a message holds no raw newline, so the terminator of
/// `wire_line` is the only newline of the line: framing on the wire never
/// splits a message.
pub proof fn lemma_encoded_no_newline(m: Message)
    ensures
        forall|i: int| 0 <= i < encoded_message(m).len() ==> encoded_message(m)[i] != '\n',
{
    lemma_literal_no_newline();
    match m {
        Message::Log { stream, level, text } => {
            lemma_escape_text_no_newline(text@);
        },
        Message::Notify { level, text } => {
            lemma_escape_text_no_newline(text@);
        },
    }
}

} // verus!
