//! The diagnostic log's format: the time stamp, one line per event with its
//! level, and the tail of the log shown to the user. Writing the file is the
//! application's part.

use vstd::prelude::*;
use crate::gcpad::join_lines;
use crate::text::{
    chars_of, dec_digits, hex_digits, push_chars, push_dec, push_dec_padded, push_hex_padded, push_str,
    split_lines, string_of, text_lines, zero_pad,
};

verus! {

/// The time of day (UTC) of an instant given as whole seconds since the
/// epoch and milliseconds past them, as `HH:MM:SS.mmm`.
pub open spec fn timestamp_spec(secs: u64, millis: u32) -> Seq<char> {
    zero_pad(dec_digits(((secs / 3600) % 24) as nat), 2) + seq![':'] + zero_pad(dec_digits(((secs / 60) % 60) as nat), 2)
        + seq![':'] + zero_pad(dec_digits((secs % 60) as nat), 2) + seq!['.'] + zero_pad(dec_digits(millis as nat), 3)
}

/// The time stamp of a log line (see [`timestamp_spec`]).
pub fn timestamp(secs: u64, millis: u32) -> (s: String)
    ensures
        s@ == timestamp_spec(secs, millis),
{
    let mut v: Vec<char> = Vec::new();
    push_dec_padded(&mut v, (secs / 3600) % 24, 2);
    v.push(':');
    push_dec_padded(&mut v, (secs / 60) % 60, 2);
    v.push(':');
    push_dec_padded(&mut v, secs % 60, 2);
    v.push('.');
    push_dec_padded(&mut v, millis as u64, 3);
    assert(v@ =~= timestamp_spec(secs, millis));
    string_of(&v)
}

/// A log line: the time stamp and the level in brackets, the message, a line feed.
pub open spec fn log_line_spec(ts: Seq<char>, level: Seq<char>, msg: Seq<char>) -> Seq<char> {
    seq!['['] + ts + "] ["@ + level + "] "@ + msg + seq!['\n']
}

/// A log line (see [`log_line_spec`]).
pub fn log_line(ts: &str, level: &str, msg: &str) -> (s: String)
    ensures
        s@ == log_line_spec(ts@, level@, msg@),
{
    let mut v: Vec<char> = Vec::new();
    v.push('[');
    push_str(&mut v, ts);
    push_str(&mut v, "] [");
    push_str(&mut v, level);
    push_str(&mut v, "] ");
    push_str(&mut v, msg);
    v.push('\n');
    assert(v@ =~= log_line_spec(ts@, level@, msg@));
    string_of(&v)
}

/// The log line of an informational message.
pub fn log_info(ts: &str, msg: &str) -> (s: String)
    ensures
        s@ == log_line_spec(ts@, "INFO"@, msg@),
{
    log_line(ts, "INFO", msg)
}

/// The log line of a warning.
pub fn log_warn(ts: &str, msg: &str) -> (s: String)
    ensures
        s@ == log_line_spec(ts@, "WARN"@, msg@),
{
    log_line(ts, "WARN", msg)
}

/// The log line of an error.
pub fn log_error(ts: &str, msg: &str) -> (s: String)
    ensures
        s@ == log_line_spec(ts@, "ERROR"@, msg@),
{
    log_line(ts, "ERROR", msg)
}

/// The log line of a control-server event.
pub fn log_ipc(ts: &str, msg: &str) -> (s: String)
    ensures
        s@ == log_line_spec(ts@, "IPC"@, msg@),
{
    log_line(ts, "IPC", msg)
}

/// The log line of a network event.
pub fn log_net(ts: &str, msg: &str) -> (s: String)
    ensures
        s@ == log_line_spec(ts@, "NET"@, msg@),
{
    log_line(ts, "NET", msg)
}

/// The log line of a crash.
pub fn log_crash(ts: &str, msg: &str) -> (s: String)
    ensures
        s@ == log_line_spec(ts@, "CRASH"@, msg@),
{
    log_line(ts, "CRASH", msg)
}

/// What a desync line says: the frame and both state hashes in hexadecimal.
pub open spec fn desync_message_spec(frame: u32, local_hash: u32, remote_hash: u32) -> Seq<char> {
    "Frame "@ + dec_digits(frame as nat) + " \u{2014} local_hash=0x"@ + zero_pad(hex_digits(local_hash as nat), 8)
        + " remote_hash=0x"@ + zero_pad(hex_digits(remote_hash as nat), 8)
}

/// The log line of a desync (see [`desync_message_spec`]).
pub fn log_desync(ts: &str, frame: u32, local_hash: u32, remote_hash: u32) -> (s: String)
    ensures
        s@ == log_line_spec(ts@, "DESYNC"@, desync_message_spec(frame, local_hash, remote_hash)),
{
    let mut m: Vec<char> = Vec::new();
    push_str(&mut m, "Frame ");
    push_dec(&mut m, frame as u64);
    push_str(&mut m, " \u{2014} local_hash=0x");
    push_hex_padded(&mut m, local_hash as u64, 8);
    push_str(&mut m, " remote_hash=0x");
    push_hex_padded(&mut m, remote_hash as u64, 8);
    assert(m@ =~= desync_message_spec(frame, local_hash, remote_hash));
    log_line(ts, "DESYNC", string_of(&m).as_str())
}

/// How many lines of the log are shown when the caller does not say.
pub const DEFAULT_TAIL_LINES: u32 = 100;

/// The last `max` lines of a log (100 when not given), joined by line feeds.
pub open spec fn log_tail_spec(content: Seq<char>, max: Option<u32>) -> Seq<char> {
    let ls = text_lines(content);
    let m = match max {
        Some(n) => n as int,
        None => DEFAULT_TAIL_LINES as int,
    };
    let start = if ls.len() > m { ls.len() - m } else { 0 };
    join_lines(ls.subrange(start, ls.len() as int))
}

/// The last lines of a log (see [`log_tail_spec`]).
pub fn log_tail(content: &str, max: Option<u32>) -> (s: String)
    ensures
        s@ == log_tail_spec(content@, max),
{
    let lines = split_lines(&chars_of(content));
    let ghost ls = lines@.map_values(|l: Vec<char>| l@);
    let m: usize = match max {
        Some(n) => n as usize,
        None => DEFAULT_TAIL_LINES as usize,
    };
    let n = lines.len();
    let start = if n > m { n - m } else { 0 };
    let mut v: Vec<char> = Vec::new();
    assert(ls.subrange(start as int, start as int) =~= Seq::<Seq<char>>::empty());
    for i in start..n
        invariant
            n == lines@.len(),
            start <= n,
            ls == lines@.map_values(|l: Vec<char>| l@),
            v@ == join_lines(ls.subrange(start as int, i as int)),
    {
        let ghost pre = ls.subrange(start as int, i as int);
        let ghost next = ls.subrange(start as int, i + 1);
        assert(next.drop_last() =~= pre);
        assert(next.last() == lines@[i as int]@);
        if i > start {
            v.push('\n');
        }
        push_chars(&mut v, &lines[i]);
        proof {
            if i == start {
                assert(v@ =~= next[0]);
            } else {
                assert(v@ =~= join_lines(pre) + seq!['\n'] + next.last());
            }
        }
    }
    string_of(&v)
}

} // verus!
