//! The line protocol spoken with the patched emulator's control server:
//! the commands the launcher sends, how a reply line is read, and what each
//! command's reply means. The socket itself is driven by the application.

use vstd::prelude::*;
use crate::text::{
    chars_of, chars_eq, dec_digits, find_char, first_index_of, has_prefix, hex_digits, parse_i8,
    parse_i8_spec, parse_unsigned, parse_unsigned_spec, push_chars, push_dec, push_hex_padded,
    push_signed, push_str, signed_digits, slice_chars, split_words, starts_with, string_of,
    strip_all, strip_all_prefixes, trim, trim_chars, words, zero_pad, is_ws, plain_char, lemma_hex_digits_len,
    lemma_dec_digits_value, lemma_hex_digits_value, lemma_zero_pad_value, lemma_parse_dec_digits,
    lemma_parse_signed_digits, lemma_words_append, lemma_words_cons, lemma_words_single,
};

verus! {

/// TCP port of the emulator's control server on localhost.
pub const HW_SERVER_PORT: u16 = 17492;
/// How long to keep retrying the first connection, in milliseconds.
pub const CONNECT_TIMEOUT_MS: u64 = 5000;
/// Pause between connection attempts, in milliseconds.
pub const RECONNECT_DELAY_MS: u64 = 500;

/// A GameCube controller state as the control server takes and reports it.
#[derive(Clone, Copy, Debug, PartialEq, Eq, Structural)]
pub struct HWPadInput {
    pub buttons: u16,
    pub stick_x: i8,
    pub stick_y: i8,
    pub cstick_x: i8,
    pub cstick_y: i8,
    pub trigger_l: u8,
    pub trigger_r: u8,
}

/// Nothing pressed, sticks centred.
pub open spec fn neutral_pad() -> HWPadInput {
    HWPadInput { buttons: 0, stick_x: 0, stick_y: 0, cstick_x: 0, cstick_y: 0, trigger_l: 0, trigger_r: 0 }
}

impl Default for HWPadInput {
    fn default() -> (r: Self)
        ensures
            r == neutral_pad(),
    {
        HWPadInput { buttons: 0, stick_x: 0, stick_y: 0, cstick_x: 0, cstick_y: 0, trigger_l: 0, trigger_r: 0 }
    }
}

/// The seven fields as command arguments: the buttons as `0x` and four
/// upper-case hexadecimal digits, then the sticks and triggers in decimal,
/// separated by single spaces.
pub open spec fn pad_args(p: HWPadInput) -> Seq<char> {
    seq!['0', 'x'] + zero_pad(hex_digits(p.buttons as nat), 4) + seq![' '] + signed_digits(p.stick_x as int)
        + seq![' '] + signed_digits(p.stick_y as int) + seq![' '] + signed_digits(p.cstick_x as int) + seq![' ']
        + signed_digits(p.cstick_y as int) + seq![' '] + dec_digits(p.trigger_l as nat) + seq![' '] + dec_digits(
        p.trigger_r as nat,
    )
}

/// Append a space and a signed number.
fn push_field(out: &mut Vec<char>, v: i8)
    ensures
        final(out)@ == old(out)@ + seq![' '] + signed_digits(v as int),
{
    let ghost start = out@;
    out.push(' ');
    push_signed(out, v as i64);
    assert(out@ =~= start + seq![' '] + signed_digits(v as int));
}

/// Append a space and an unsigned number.
fn push_ufield(out: &mut Vec<char>, v: u8)
    ensures
        final(out)@ == old(out)@ + seq![' '] + dec_digits(v as nat),
{
    let ghost start = out@;
    out.push(' ');
    push_dec(out, v as u64);
    assert(out@ =~= start + seq![' '] + dec_digits(v as nat));
}

/// Append [`pad_args`].
fn push_pad_args(out: &mut Vec<char>, p: &HWPadInput)
    ensures
        final(out)@ == old(out)@ + pad_args(*p),
{
    let ghost start = out@;
    out.push('0');
    out.push('x');
    push_hex_padded(out, p.buttons as u64, 4);
    assert(out@ =~= start + (seq!['0', 'x'] + zero_pad(hex_digits(p.buttons as nat), 4)));
    push_field(out, p.stick_x);
    push_field(out, p.stick_y);
    push_field(out, p.cstick_x);
    push_field(out, p.cstick_y);
    push_ufield(out, p.trigger_l);
    push_ufield(out, p.trigger_r);
    assert(out@ =~= start + pad_args(*p));
}

impl HWPadInput {
    /// The pad as command arguments (see [`pad_args`]).
    pub fn to_ipc_args(&self) -> (s: String)
        ensures
            s@ == pad_args(*self),
    {
        let mut v: Vec<char> = Vec::new();
        push_pad_args(&mut v, self);
        assert(v@ =~= pad_args(*self));
        string_of(&v)
    }
}

/// A command to the control server.
#[derive(Clone, Copy, Debug)]
pub enum Command {
    Ping,
    /// Save the emulator state to a slot.
    SaveState(u32),
    /// Load the emulator state from a slot.
    LoadState(u32),
    /// Run exactly one frame while paused.
    FrameAdvance,
    /// Override a port's controller from the next poll on.
    SetInput(u32, HWPadInput),
    /// Read a port's physical controller.
    GetInput(u32),
    /// Give a port back to its physical controller.
    ClearInput(u32),
    GetFrame,
    Pause,
    Resume,
}

/// The text of a command, without its line end.
pub open spec fn command_text(c: Command) -> Seq<char> {
    match c {
        Command::Ping => "PING"@,
        Command::SaveState(slot) => "SAVE_STATE "@ + dec_digits(slot as nat),
        Command::LoadState(slot) => "LOAD_STATE "@ + dec_digits(slot as nat),
        Command::FrameAdvance => "FRAME_ADVANCE"@,
        Command::SetInput(port, pad) => "SET_INPUT "@ + dec_digits(port as nat) + seq![' '] + pad_args(pad),
        Command::GetInput(port) => "GET_INPUT "@ + dec_digits(port as nat),
        Command::ClearInput(port) => "CLEAR_INPUT "@ + dec_digits(port as nat),
        Command::GetFrame => "GET_FRAME"@,
        Command::Pause => "PAUSE"@,
        Command::Resume => "RESUME"@,
    }
}

impl Command {
    /// The line sent for the command: its text and a line feed.
    pub fn line(&self) -> (s: String)
        ensures
            s@ == command_text(*self).push('\n'),
    {
        let mut v: Vec<char> = Vec::new();
        match self {
            Command::Ping => push_str(&mut v, "PING"),
            Command::SaveState(slot) => {
                push_str(&mut v, "SAVE_STATE ");
                push_dec(&mut v, *slot as u64);
            },
            Command::LoadState(slot) => {
                push_str(&mut v, "LOAD_STATE ");
                push_dec(&mut v, *slot as u64);
            },
            Command::FrameAdvance => push_str(&mut v, "FRAME_ADVANCE"),
            Command::SetInput(port, pad) => {
                push_str(&mut v, "SET_INPUT ");
                push_dec(&mut v, *port as u64);
                v.push(' ');
                push_pad_args(&mut v, pad);
            },
            Command::GetInput(port) => {
                push_str(&mut v, "GET_INPUT ");
                push_dec(&mut v, *port as u64);
            },
            Command::ClearInput(port) => {
                push_str(&mut v, "CLEAR_INPUT ");
                push_dec(&mut v, *port as u64);
            },
            Command::GetFrame => push_str(&mut v, "GET_FRAME"),
            Command::Pause => push_str(&mut v, "PAUSE"),
            Command::Resume => push_str(&mut v, "RESUME"),
        }
        assert(v@ =~= command_text(*self));
        v.push('\n');
        string_of(&v)
    }
}

/// A reply line from the control server.
#[derive(Clone, Debug)]
pub enum HWResponse {
    /// `OK <command> <args>`; the server's greeting is read as one too.
    Ack { command: String, args: String },
    /// `ERR <command> <reason>`.
    Error { command: String, reason: String },
    /// `FRAME <n>`.
    Frame(u64),
    /// `STATE <state>`.
    State(String),
    /// `PONG`.
    Pong,
    /// `EVENT <type> <data>`.
    Event { event_type: String, data: String },
    /// Anything else, trimmed.
    Unknown(String),
}

/// A reply with its strings as character sequences.
pub enum ResponseView {
    Ack(Seq<char>, Seq<char>),
    Error(Seq<char>, Seq<char>),
    Frame(u64),
    State(Seq<char>),
    Pong,
    Event(Seq<char>, Seq<char>),
    Unknown(Seq<char>),
}

impl View for HWResponse {
    type V = ResponseView;

    open spec fn view(&self) -> ResponseView {
        match self {
            HWResponse::Ack { command, args } => ResponseView::Ack(command@, args@),
            HWResponse::Error { command, reason } => ResponseView::Error(command@, reason@),
            HWResponse::Frame(n) => ResponseView::Frame(*n),
            HWResponse::State(s) => ResponseView::State(s@),
            HWResponse::Pong => ResponseView::Pong,
            HWResponse::Event { event_type, data } => ResponseView::Event(event_type@, data@),
            HWResponse::Unknown(s) => ResponseView::Unknown(s@),
        }
    }
}

/// `s` split at its first space: what comes before, and what comes after
/// (empty when there is no space).
pub open spec fn split_at_space(s: Seq<char>) -> (Seq<char>, Seq<char>) {
    match first_index_of(s, ' ') {
        Some(p) => (s.subrange(0, p), s.subrange(p + 1, s.len() as int)),
        None => (s, seq![]),
    }
}

/// `s` without its first `n` characters.
pub open spec fn after(s: Seq<char>, n: nat) -> Seq<char> {
    s.subrange(n as int, s.len() as int)
}

/// A decimal `u64`, or 0 when the text is not one.
pub open spec fn u64_or_zero(s: Seq<char>) -> u64 {
    match parse_unsigned_spec(s, 10, u64::MAX as nat) {
        Some(v) => v as u64,
        None => 0,
    }
}

/// How a reply line is read: trimmed, then by its leading keyword.
pub open spec fn parse_response(line: Seq<char>) -> ResponseView {
    let t = trim(line);
    if has_prefix(t, "OK "@) {
        let (c, a) = split_at_space(after(t, "OK "@.len()));
        ResponseView::Ack(c, a)
    } else if has_prefix(t, "ERR "@) {
        let (c, r) = split_at_space(after(t, "ERR "@.len()));
        ResponseView::Error(c, r)
    } else if has_prefix(t, "FRAME "@) {
        ResponseView::Frame(u64_or_zero(trim(after(t, "FRAME "@.len()))))
    } else if has_prefix(t, "STATE "@) {
        ResponseView::State(trim(after(t, "STATE "@.len())))
    } else if t == "PONG"@ {
        ResponseView::Pong
    } else if has_prefix(t, "EVENT "@) {
        let (e, d) = split_at_space(after(t, "EVENT "@.len()));
        ResponseView::Event(e, d)
    } else if has_prefix(t, "HOWLINGWIND "@) {
        ResponseView::Ack("WELCOME"@, t)
    } else {
        ResponseView::Unknown(t)
    }
}

/// `v` split at its first space (see [`split_at_space`]).
fn split_first_chars(v: &Vec<char>) -> (r: (Vec<char>, Vec<char>))
    ensures
        (r.0@, r.1@) == split_at_space(v@),
{
    match find_char(v, ' ') {
        Some(p) => {
            let n = v.len();
            (slice_chars(v, 0, p), slice_chars(v, p + 1, n))
        },
        None => {
            let empty: Vec<char> = Vec::new();
            assert(empty@ =~= seq![]);
            (slice_chars(v, 0, v.len()), empty)
        },
    }
}

/// A string split at its first space (see [`split_at_space`]).
pub fn split_first(s: &str) -> (r: (String, String))
    ensures
        (r.0@, r.1@) == split_at_space(s@),
{
    let v = chars_of(s);
    let (a, b) = split_first_chars(&v);
    (string_of(&a), string_of(&b))
}

/// `v` without its first `n` characters.
fn drop_chars(v: &Vec<char>, n: usize) -> (r: Vec<char>)
    requires
        n <= v@.len(),
    ensures
        r@ == after(v@, n as nat),
{
    slice_chars(v, n, v.len())
}

/// A decimal `u64`, or 0 (see [`u64_or_zero`]).
fn parse_u64_or_zero(v: &Vec<char>) -> (r: u64)
    ensures
        r == u64_or_zero(v@),
{
    match parse_unsigned(v, 10, u64::MAX) {
        Some(x) => x,
        None => 0,
    }
}

impl HWResponse {
    /// Read a reply line (see [`parse_response`]).
    pub fn parse(line: &str) -> (r: HWResponse)
        ensures
            r@ == parse_response(line@),
    {
        let raw = chars_of(line);
        let t = trim_chars(&raw);
        let ok = chars_of("OK ");
        let err = chars_of("ERR ");
        let frame = chars_of("FRAME ");
        let state = chars_of("STATE ");
        let pong = chars_of("PONG");
        let event = chars_of("EVENT ");
        let hello = chars_of("HOWLINGWIND ");
        if starts_with(&t, &ok) {
            let (c, a) = split_first_chars(&drop_chars(&t, ok.len()));
            HWResponse::Ack { command: string_of(&c), args: string_of(&a) }
        } else if starts_with(&t, &err) {
            let (c, r) = split_first_chars(&drop_chars(&t, err.len()));
            HWResponse::Error { command: string_of(&c), reason: string_of(&r) }
        } else if starts_with(&t, &frame) {
            HWResponse::Frame(parse_u64_or_zero(&trim_chars(&drop_chars(&t, frame.len()))))
        } else if starts_with(&t, &state) {
            HWResponse::State(string_of(&trim_chars(&drop_chars(&t, state.len()))))
        } else if chars_eq(&t, &pong) {
            HWResponse::Pong
        } else if starts_with(&t, &event) {
            let (e, d) = split_first_chars(&drop_chars(&t, event.len()));
            HWResponse::Event { event_type: string_of(&e), data: string_of(&d) }
        } else if starts_with(&t, &hello) {
            HWResponse::Ack { command: string_of(&chars_of("WELCOME")), args: string_of(&t) }
        } else {
            HWResponse::Unknown(string_of(&t))
        }
    }
}


/// Why a command's reply does not give what the command asked for.
#[derive(Clone, Debug)]
pub enum ResponseError {
    /// The server answered `ERR`, with this reason.
    Refused(String),
    /// The server answered with a reply the command does not expect.
    Unexpected(HWResponse),
    /// A controller reading with fewer than eight fields; its arguments.
    Malformed(String),
}

/// A hexadecimal `u16`, or 0 when the text is not one.
pub open spec fn hex_u16_or_zero(s: Seq<char>) -> u16 {
    match parse_unsigned_spec(s, 16, 0xFFFF) {
        Some(v) => v as u16,
        None => 0,
    }
}

/// A decimal `i8`, or 0 when the text is not one.
pub open spec fn i8_or_zero(s: Seq<char>) -> i8 {
    match parse_i8_spec(s) {
        Some(v) => v as i8,
        None => 0,
    }
}

/// A decimal `u8`, or 0 when the text is not one.
pub open spec fn u8_or_zero(s: Seq<char>) -> u8 {
    match parse_unsigned_spec(s, 10, 0xFF) {
        Some(v) => v as u8,
        None => 0,
    }
}

/// The pad a controller reading `<port> 0xBBBB <sx> <sy> <cx> <cy> <tl> <tr>`
/// describes, read from its words; a field that does not parse reads as 0,
/// and the buttons may carry any number of `0x` and then `0X` prefixes.
pub open spec fn pad_from_words(w: Seq<Seq<char>>) -> HWPadInput {
    HWPadInput {
        buttons: hex_u16_or_zero(strip_all(strip_all(w[1], "0x"@), "0X"@)),
        stick_x: i8_or_zero(w[2]),
        stick_y: i8_or_zero(w[3]),
        cstick_x: i8_or_zero(w[4]),
        cstick_y: i8_or_zero(w[5]),
        trigger_l: u8_or_zero(w[6]),
        trigger_r: u8_or_zero(w[7]),
    }
}

/// The frame number a save reports: its arguments are `<slot> <frame>`, and
/// a missing or unreadable frame reads as 0.
pub open spec fn saved_frame(args: Seq<char>) -> u64 {
    if words(args).len() > 1 {
        u64_or_zero(words(args)[1])
    } else {
        0
    }
}

/// A hexadecimal `u16`, or 0.
fn parse_hex_u16_or_zero(v: &Vec<char>) -> (r: u16)
    ensures
        r == hex_u16_or_zero(v@),
{
    match parse_unsigned(v, 16, 0xFFFF) {
        Some(x) => x as u16,
        None => 0,
    }
}

/// A decimal `i8`, or 0.
fn parse_i8_or_zero(v: &Vec<char>) -> (r: i8)
    ensures
        r == i8_or_zero(v@),
{
    match parse_i8(v) {
        Some(x) => x,
        None => 0,
    }
}

/// A decimal `u8`, or 0.
fn parse_u8_or_zero(v: &Vec<char>) -> (r: u8)
    ensures
        r == u8_or_zero(v@),
{
    match parse_unsigned(v, 10, 0xFF) {
        Some(x) => x as u8,
        None => 0,
    }
}

/// The answer to `PING`: only `PONG` will do.
pub fn ping_reply(resp: HWResponse) -> (r: Result<(), ResponseError>)
    ensures
        match resp {
            HWResponse::Pong => r is Ok,
            _ => r matches Err(ResponseError::Unexpected(x)) && x == resp,
        },
{
    match resp {
        HWResponse::Pong => Ok(()),
        other => Err(ResponseError::Unexpected(other)),
    }
}

/// The answer to a command that only needs acknowledging (loading a state,
/// setting or clearing an input): `OK`, or the reason of an `ERR`.
pub fn ack_reply(resp: HWResponse) -> (r: Result<(), ResponseError>)
    ensures
        match resp {
            HWResponse::Ack { .. } => r is Ok,
            HWResponse::Error { reason, .. } => r matches Err(ResponseError::Refused(m)) && m@ == reason@,
            _ => r matches Err(ResponseError::Unexpected(x)) && x == resp,
        },
{
    match resp {
        HWResponse::Ack { .. } => Ok(()),
        HWResponse::Error { command: _, reason } => Err(ResponseError::Refused(reason)),
        other => Err(ResponseError::Unexpected(other)),
    }
}

/// The answer to pausing or resuming: `OK`; anything else, an `ERR`
/// included, is unexpected.
pub fn control_reply(resp: HWResponse) -> (r: Result<(), ResponseError>)
    ensures
        match resp {
            HWResponse::Ack { .. } => r is Ok,
            _ => r matches Err(ResponseError::Unexpected(x)) && x == resp,
        },
{
    match resp {
        HWResponse::Ack { .. } => Ok(()),
        other => Err(ResponseError::Unexpected(other)),
    }
}

/// The answer to saving a state: the frame it was taken at (see [`saved_frame`]).
pub fn save_state_reply(resp: HWResponse) -> (r: Result<u64, ResponseError>)
    ensures
        match resp {
            HWResponse::Ack { args, .. } => r == Ok::<u64, ResponseError>(saved_frame(args@)),
            HWResponse::Error { reason, .. } => r matches Err(ResponseError::Refused(m)) && m@ == reason@,
            _ => r matches Err(ResponseError::Unexpected(x)) && x == resp,
        },
{
    match resp {
        HWResponse::Ack { command: _, args } => {
            let ws = split_words(&chars_of(args.as_str()));
            if ws.len() > 1 {
                assert(ws@.map_values(|w: Vec<char>| w@)[1] == ws@[1]@);
                Ok(parse_u64_or_zero(&ws[1]))
            } else {
                Ok(0)
            }
        },
        HWResponse::Error { command: _, reason } => Err(ResponseError::Refused(reason)),
        other => Err(ResponseError::Unexpected(other)),
    }
}

/// The answer to advancing a frame: the new frame number, 0 when unreadable.
pub fn frame_advance_reply(resp: HWResponse) -> (r: Result<u64, ResponseError>)
    ensures
        match resp {
            HWResponse::Ack { args, .. } => r == Ok::<u64, ResponseError>(u64_or_zero(trim(args@))),
            HWResponse::Error { reason, .. } => r matches Err(ResponseError::Refused(m)) && m@ == reason@,
            _ => r matches Err(ResponseError::Unexpected(x)) && x == resp,
        },
{
    match resp {
        HWResponse::Ack { command: _, args } => Ok(parse_u64_or_zero(&trim_chars(&chars_of(args.as_str())))),
        HWResponse::Error { command: _, reason } => Err(ResponseError::Refused(reason)),
        other => Err(ResponseError::Unexpected(other)),
    }
}

/// The answer to reading a controller (see [`pad_from_words`]); fewer than
/// eight fields make the reading malformed.
pub fn get_input_reply(resp: HWResponse) -> (r: Result<HWPadInput, ResponseError>)
    ensures
        match resp {
            HWResponse::Ack { args, .. } => if words(args@).len() < 8 {
                r matches Err(ResponseError::Malformed(m)) && m@ == args@
            } else {
                r == Ok::<HWPadInput, ResponseError>(pad_from_words(words(args@)))
            },
            HWResponse::Error { reason, .. } => r matches Err(ResponseError::Refused(m)) && m@ == reason@,
            _ => r matches Err(ResponseError::Unexpected(x)) && x == resp,
        },
{
    match resp {
        HWResponse::Ack { command: _, args } => {
            let ws = split_words(&chars_of(args.as_str()));
            if ws.len() < 8 {
                return Err(ResponseError::Malformed(args));
            }
            let ghost w = words(args@);
            assert(forall|k: int| 0 <= k < ws@.len() ==> ws@[k]@ == w[k]) by {
                assert forall|k: int| 0 <= k < ws@.len() implies ws@[k]@ == w[k] by {
                    assert(ws@.map_values(|w: Vec<char>| w@)[k] == ws@[k]@);
                }
            }
            let buttons = parse_hex_u16_or_zero(
                &strip_all_prefixes(&strip_all_prefixes(&ws[1], &chars_of("0x")), &chars_of("0X")),
            );
            Ok(
                HWPadInput {
                    buttons,
                    stick_x: parse_i8_or_zero(&ws[2]),
                    stick_y: parse_i8_or_zero(&ws[3]),
                    cstick_x: parse_i8_or_zero(&ws[4]),
                    cstick_y: parse_i8_or_zero(&ws[5]),
                    trigger_l: parse_u8_or_zero(&ws[6]),
                    trigger_r: parse_u8_or_zero(&ws[7]),
                },
            )
        },
        HWResponse::Error { command: _, reason } => Err(ResponseError::Refused(reason)),
        other => Err(ResponseError::Unexpected(other)),
    }
}

/// The answer to asking the frame number: only `FRAME <n>` will do.
pub fn get_frame_reply(resp: HWResponse) -> (r: Result<u64, ResponseError>)
    ensures
        match resp {
            HWResponse::Frame(f) => r == Ok::<u64, ResponseError>(f),
            _ => r matches Err(ResponseError::Unexpected(x)) && x == resp,
        },
{
    match resp {
        HWResponse::Frame(f) => Ok(f),
        other => Err(ResponseError::Unexpected(other)),
    }
}

/// The frame a `FRAME_BOUNDARY` event announces, when its data is a number;
/// such events go to the frame queue, every other reply to the reply queue.
pub fn frame_boundary(resp: &HWResponse) -> (r: Option<u64>)
    ensures
        match resp {
            HWResponse::Event { event_type, data } => if event_type@ == "FRAME_BOUNDARY"@ {
                match parse_unsigned_spec(trim(data@), 10, u64::MAX as nat) {
                    Some(v) => r == Some(v as u64),
                    None => r is None,
                }
            } else {
                r is None
            },
            _ => r is None,
        },
{
    match resp {
        HWResponse::Event { event_type, data } => {
            if chars_eq(&chars_of(event_type.as_str()), &chars_of("FRAME_BOUNDARY")) {
                parse_unsigned(&trim_chars(&chars_of(data.as_str())), 10, u64::MAX)
            } else {
                None
            }
        },
        _ => None,
    }
}

/// Whether a reply is the server's greeting, which must be consumed before
/// the first command.
pub fn is_welcome(resp: &HWResponse) -> (b: bool)
    ensures
        b == (resp@ matches ResponseView::Ack(c, _) && c == "WELCOME"@),
{
    match resp {
        HWResponse::Ack { command, args: _ } => chars_eq(&chars_of(command.as_str()), &chars_of("WELCOME")),
        _ => false,
    }
}

/// The commands that replay frames: for each, both ports' inputs, then one frame.
pub open spec fn replay_commands(inputs: Seq<(u64, HWPadInput, HWPadInput)>) -> Seq<Command>
    decreases inputs.len(),
{
    if inputs.len() == 0 {
        seq![]
    } else {
        replay_commands(inputs.drop_last()) + seq![
            Command::SetInput(0, inputs.last().1),
            Command::SetInput(1, inputs.last().2),
            Command::FrameAdvance,
        ]
    }
}

/// A rollback: pause, load the snapshot, replay the frames with corrected
/// inputs, give both ports back and resume.
pub open spec fn rollback_script(slot: u32, inputs: Seq<(u64, HWPadInput, HWPadInput)>) -> Seq<Command> {
    seq![Command::Pause, Command::LoadState(slot)] + replay_commands(inputs) + seq![
        Command::ClearInput(0),
        Command::ClearInput(1),
        Command::Resume,
    ]
}

/// The commands of a rollback to `slot` replaying `inputs` (frame, port 0
/// input, port 1 input), in the order they are sent; sending stops at the
/// first failed reply.
pub fn rollback_commands(slot: u32, inputs: &Vec<(u64, HWPadInput, HWPadInput)>) -> (r: Vec<Command>)
    ensures
        r@ == rollback_script(slot, inputs@),
{
    let mut out: Vec<Command> = Vec::new();
    out.push(Command::Pause);
    out.push(Command::LoadState(slot));
    let ghost head = out@;
    assert(inputs@.subrange(0, 0) =~= Seq::<(u64, HWPadInput, HWPadInput)>::empty());
    for i in 0..inputs.len()
        invariant
            head == seq![Command::Pause, Command::LoadState(slot)],
            out@ == head + replay_commands(inputs@.subrange(0, i as int)),
    {
        let (_, p1, p2) = inputs[i];
        assert(inputs@.subrange(0, i + 1).drop_last() =~= inputs@.subrange(0, i as int));
        out.push(Command::SetInput(0, p1));
        out.push(Command::SetInput(1, p2));
        out.push(Command::FrameAdvance);
        assert(out@ =~= head + replay_commands(inputs@.subrange(0, i + 1)));
    }
    assert(inputs@.subrange(0, inputs@.len() as int) =~= inputs@);
    out.push(Command::ClearInput(0));
    out.push(Command::ClearInput(1));
    out.push(Command::Resume);
    assert(out@ =~= rollback_script(slot, inputs@));
    out
}


/// How a failed reply to a rollback command reads: pausing and resuming
/// take nothing but `OK`, so any other reply is unexpected; the other
/// commands report the reason of an `ERR`, and take any other reply as
/// unexpected.
pub open spec fn rollback_failure(c: Command, resp: HWResponse, e: ResponseError) -> bool {
    match c {
        Command::Pause | Command::Resume => e == ResponseError::Unexpected(resp),
        _ => match resp {
            HWResponse::Error { reason, .. } => e matches ResponseError::Refused(m) && m@ == reason@,
            _ => e == ResponseError::Unexpected(resp),
        },
    }
}

/// Whether `e` is the error of the first reply in `replies` that is not
/// `OK`, as an answer to its command in `cmds`.
pub open spec fn first_failure(cmds: Seq<Command>, replies: Seq<HWResponse>, e: ResponseError) -> bool {
    exists|i: int|
        #![trigger replies[i]]
        0 <= i < replies.len() && !(replies[i] is Ack) && (forall|j: int| 0 <= j < i ==> #[trigger] replies[j] is Ack)
            && rollback_failure(cmds[i], replies[i], e)
}

/// The frame reported by the last `FRAME_ADVANCE` among the first `n`
/// commands (their replies all `OK`), 0 when there is none.
pub open spec fn last_advance(cmds: Seq<Command>, replies: Seq<HWResponse>, n: nat) -> u64
    decreases n,
{
    if n == 0 {
        0
    } else if cmds[n - 1] is FrameAdvance && replies[n - 1]@ is Ack {
        match replies[n - 1]@ {
            ResponseView::Ack(_, args) => u64_or_zero(trim(args)),
            _ => 0,
        }
    } else {
        last_advance(cmds, replies, (n - 1) as nat)
    }
}

/// Three commands replay each frame.
pub proof fn lemma_replay_len(inputs: Seq<(u64, HWPadInput, HWPadInput)>)
    ensures
        replay_commands(inputs).len() == 3 * inputs.len(),
    decreases inputs.len(),
{
    if inputs.len() > 0 {
        lemma_replay_len(inputs.drop_last());
    }
}

/// A rollback that replays no frame, once every command is acknowledged,
/// reports frame 0; one that replays frames reports what the reply to its
/// last `FRAME_ADVANCE` says.
pub proof fn lemma_rollback_reports_last_advance(slot: u32, inputs: Seq<(u64, HWPadInput, HWPadInput)>, replies: Seq<HWResponse>)
    requires
        replies.len() == rollback_script(slot, inputs).len(),
    ensures
        inputs.len() == 0 ==> last_advance(rollback_script(slot, inputs), replies, replies.len()) == 0,
        inputs.len() > 0 ==> (replies[3 * inputs.len() as int + 1]@ matches ResponseView::Ack(_, a) ==> last_advance(
            rollback_script(slot, inputs),
            replies,
            replies.len(),
        ) == u64_or_zero(trim(a))),
{
    lemma_replay_len(inputs);
    let cmds = rollback_script(slot, inputs);
    let k: int = 3 * inputs.len() as int;
    assert(cmds.len() == k + 5);
    assert(cmds[k + 4] == Command::Resume);
    assert(cmds[k + 3] == Command::ClearInput(1));
    assert(cmds[k + 2] == Command::ClearInput(0));
    let n = replies.len();
    assert(last_advance(cmds, replies, n) == last_advance(cmds, replies, (n - 1) as nat));
    assert(last_advance(cmds, replies, (n - 1) as nat) == last_advance(cmds, replies, (n - 2) as nat));
    assert(last_advance(cmds, replies, (n - 2) as nat) == last_advance(cmds, replies, (n - 3) as nat));
    if inputs.len() == 0 {
        assert(cmds[1] == Command::LoadState(slot));
        assert(cmds[0] == Command::Pause);
        assert(last_advance(cmds, replies, 0) == 0);
        assert(last_advance(cmds, replies, 1) == 0);
        assert(last_advance(cmds, replies, 2) == 0);
    } else {
        let r = replay_commands(inputs);
        assert(r == replay_commands(inputs.drop_last()) + seq![
            Command::SetInput(0, inputs.last().1),
            Command::SetInput(1, inputs.last().2),
            Command::FrameAdvance,
        ]);
        lemma_replay_len(inputs.drop_last());
        assert(r[k - 1] == Command::FrameAdvance);
        assert(cmds[k + 1] == r[k - 1]);
    }
}

/// Where a rollback stands, given the replies so far.
#[derive(Clone, Debug)]
pub enum RollbackProgress {
    /// Send this command next.
    Send(Command),
    /// Every command was acknowledged; the frame the last advance reported.
    Done(u64),
    /// A command failed; nothing more is sent.
    Failed(ResponseError),
}

/// The progress of a rollback to `slot` replaying `inputs` (see
/// [`rollback_script`]), given the replies to the commands sent so far, in
/// order: the first reply that is not `OK` ends it with that command's
/// error; while every reply is `OK` the next command is sent, and once all
/// are acknowledged the result is the frame of the last `FRAME_ADVANCE`
/// reply, or 0 when nothing was replayed.
pub fn rollback_progress(slot: u32, inputs: &Vec<(u64, HWPadInput, HWPadInput)>, replies: Vec<HWResponse>) -> (p: RollbackProgress)
    requires
        replies.len() <= rollback_script(slot, inputs@).len(),
    ensures
        ({
            let cmds = rollback_script(slot, inputs@);
            let all_ok = forall|j: int| 0 <= j < replies.len() ==> #[trigger] replies@[j] is Ack;
            match p {
                RollbackProgress::Failed(e) => first_failure(cmds, replies@, e),
                RollbackProgress::Send(c) => all_ok && replies.len() < cmds.len() && c == cmds[replies.len() as int],
                RollbackProgress::Done(f) => all_ok && replies.len() == cmds.len() && f == last_advance(
                    cmds,
                    replies@,
                    replies.len() as nat,
                ),
            }
        }),
{
    let cmds = rollback_commands(slot, inputs);
    let (k, last) = scan_acks(&cmds, &replies);
    if k < replies.len() {
        let mut rest = replies;
        let resp = rest.remove(k);
        let e = match cmds[k] {
            Command::Pause | Command::Resume => ResponseError::Unexpected(resp),
            _ => match resp {
                HWResponse::Error { command: _, reason } => ResponseError::Refused(reason),
                other => ResponseError::Unexpected(other),
            },
        };
        RollbackProgress::Failed(e)
    } else if k < cmds.len() {
        RollbackProgress::Send(cmds[k])
    } else {
        RollbackProgress::Done(last)
    }
}

/// How many replies from the first are `OK`, and the frame of the last
/// `FRAME_ADVANCE` among them (see [`last_advance`]).
fn scan_acks(cmds: &Vec<Command>, replies: &Vec<HWResponse>) -> (r: (usize, u64))
    requires
        replies.len() <= cmds.len(),
    ensures
        r.0 <= replies.len(),
        forall|j: int| 0 <= j < r.0 ==> #[trigger] replies@[j] is Ack,
        r.0 < replies.len() ==> !(replies@[r.0 as int] is Ack),
        r.1 == last_advance(cmds@, replies@, r.0 as nat),
{
    let n = replies.len();
    let mut last: u64 = 0;
    let mut i: usize = 0;
    while i < n
        invariant
            n == replies.len(),
            n <= cmds.len(),
            i <= n,
            forall|j: int| 0 <= j < i ==> #[trigger] replies@[j] is Ack,
            last == last_advance(cmds@, replies@, i as nat),
        decreases n - i,
    {
        match &replies[i] {
            HWResponse::Ack { command: _, args } => {
                match cmds[i] {
                    Command::FrameAdvance => {
                        last = parse_u64_or_zero(&trim_chars(&chars_of(args.as_str())));
                    },
                    _ => {},
                }
            },
            _ => {
                return (i, last);
            },
        }
        i = i + 1;
    }
    (n, last)
}

/// Where the reader sends a reply line.
#[derive(Clone, Copy, Debug, PartialEq, Eq, Structural)]
pub enum ReplyRoute {
    /// A frame boundary: the frame goes to the frame queue.
    Frame(u64),
    /// A reply to a command: it goes to the reply queue.
    Reply,
    /// A frame boundary whose frame does not read as a number: dropped.
    Discard,
}

/// Where the reader sends a reply line: frame boundaries to the frame
/// queue (or nowhere when unreadable), everything else to the reply queue.
pub fn route(resp: &HWResponse) -> (r: ReplyRoute)
    ensures
        match resp@ {
            ResponseView::Event(t, d) => if t == "FRAME_BOUNDARY"@ {
                match parse_unsigned_spec(trim(d), 10, u64::MAX as nat) {
                    Some(v) => r == ReplyRoute::Frame(v as u64),
                    None => r == ReplyRoute::Discard,
                }
            } else {
                r == ReplyRoute::Reply
            },
            _ => r == ReplyRoute::Reply,
        },
{
    match resp {
        HWResponse::Event { event_type, data } => {
            if chars_eq(&chars_of(event_type.as_str()), &chars_of("FRAME_BOUNDARY")) {
                match parse_unsigned(&trim_chars(&chars_of(data.as_str())), 10, u64::MAX) {
                    Some(f) => ReplyRoute::Frame(f),
                    None => ReplyRoute::Discard,
                }
            } else {
                ReplyRoute::Reply
            }
        },
        _ => ReplyRoute::Reply,
    }
}

/// Whether a text holds no white space.
pub open spec fn no_ws(w: Seq<char>) -> bool {
    forall|k: int| 0 <= k < w.len() ==> !is_ws(#[trigger] w[k])
}

/// The buttons field of [`pad_args`]: `0x` and four hexadecimal digits.
pub open spec fn buttons_field(b: u16) -> Seq<char> {
    seq!['0', 'x'] + zero_pad(hex_digits(b as nat), 4)
}

/// The four hexadecimal digits of the buttons: four digits, none white
/// space nor an `x`, worth the buttons.
proof fn lemma_buttons_digits(b: u16)
    ensures
        zero_pad(hex_digits(b as nat), 4).len() == 4,
        parse_unsigned_spec(zero_pad(hex_digits(b as nat), 4), 16, 0xFFFF) == Some(b as nat),
        forall|k: int| 0 <= k < 4 ==> {
            let c = #[trigger] zero_pad(hex_digits(b as nat), 4)[k];
            !is_ws(c) && c != 'x' && c != 'X'
        },
{
    let hd = hex_digits(b as nat);
    lemma_hex_digits_value(b as nat);
    lemma_hex_digits_len(b as nat);
    lemma_zero_pad_value(hd, 4, 16);
    let h = zero_pad(hd, 4);
    assert forall|k: int| 0 <= k < 4 implies {
        let c = #[trigger] h[k];
        !is_ws(c) && c != 'x' && c != 'X'
    } by {
        if k < 4 - hd.len() {
            assert(h[k] == '0');
        } else {
            let j = k - (4 - hd.len());
            assert(h[h.len() - hd.len() + j] == hd[j]);
            assert(plain_char(hd[j]));
        }
    }
    assert(h[0] != '+');
}

/// The decimal digits of a number hold no white space.
proof fn lemma_dec_no_ws(n: nat)
    ensures
        no_ws(dec_digits(n)),
        dec_digits(n).len() >= 1,
{
    lemma_dec_digits_value(n);
    let d = dec_digits(n);
    assert forall|k: int| 0 <= k < d.len() implies !is_ws(#[trigger] d[k]) by {
        assert(plain_char(d[k]));
    }
}

/// The seven fields of [`pad_args`], each its own word.
pub open spec fn pad_fields(p: HWPadInput) -> Seq<Seq<char>> {
    seq![
        buttons_field(p.buttons),
        signed_digits(p.stick_x as int),
        signed_digits(p.stick_y as int),
        signed_digits(p.cstick_x as int),
        signed_digits(p.cstick_y as int),
        dec_digits(p.trigger_l as nat),
        dec_digits(p.trigger_r as nat),
    ]
}

/// Each field of a pad's arguments is a word: not empty, no white space.
proof fn lemma_pad_fields_plain(p: HWPadInput)
    ensures
        forall|i: int| 0 <= i < 7 ==> (#[trigger] pad_fields(p)[i]).len() > 0 && no_ws(pad_fields(p)[i]),
{
    let f = pad_fields(p);
    let h = zero_pad(hex_digits(p.buttons as nat), 4);
    lemma_buttons_digits(p.buttons);
    lemma_parse_signed_digits(p.stick_x as int);
    lemma_parse_signed_digits(p.stick_y as int);
    lemma_parse_signed_digits(p.cstick_x as int);
    lemma_parse_signed_digits(p.cstick_y as int);
    lemma_dec_no_ws(p.trigger_l as nat);
    lemma_dec_no_ws(p.trigger_r as nat);
    let w0 = f[0];
    assert(w0.len() == 6);
    assert forall|k: int| 0 <= k < w0.len() implies !is_ws(#[trigger] w0[k]) by {
        if k >= 2 {
            assert(w0[k] == h[k - 2]);
        }
    }
    assert(no_ws(f[1]) && no_ws(f[2]) && no_ws(f[3]) && no_ws(f[4]));
}

/// The words of a pad's arguments are its seven fields.
proof fn lemma_pad_words(p: HWPadInput)
    ensures
        words(pad_args(p)) == pad_fields(p),
{
    let f = pad_fields(p);
    lemma_pad_fields_plain(p);
    assert forall|i: int| 0 <= i < 7 implies words(#[trigger] f[i]) == seq![f[i]] by {
        lemma_words_single(f[i]);
    }
    let x1 = f[0] + seq![' '] + f[1];
    let x2 = x1 + seq![' '] + f[2];
    let x3 = x2 + seq![' '] + f[3];
    let x4 = x3 + seq![' '] + f[4];
    let x5 = x4 + seq![' '] + f[5];
    assert(pad_args(p) =~= x5 + seq![' '] + f[6]);
    lemma_words_append(f[0], f[1]);
    lemma_words_append(x1, f[2]);
    lemma_words_append(x2, f[3]);
    lemma_words_append(x3, f[4]);
    lemma_words_append(x4, f[5]);
    lemma_words_append(x5, f[6]);
    assert(words(f[0]) == seq![f[0]]);
    assert(words(f[1]) == seq![f[1]]);
    assert(words(f[2]) == seq![f[2]]);
    assert(words(f[3]) == seq![f[3]]);
    assert(words(f[4]) == seq![f[4]]);
    assert(words(f[5]) == seq![f[5]]);
    assert(words(f[6]) == seq![f[6]]);
    assert(words(pad_args(p)) =~= f);
}

/// The buttons word loses exactly its `0x` when its prefixes are stripped.
proof fn lemma_strip_buttons(b: u16)
    ensures
        strip_all(strip_all(buttons_field(b), "0x"@), "0X"@) == zero_pad(hex_digits(b as nat), 4),
{
    let h = zero_pad(hex_digits(b as nat), 4);
    let w0 = buttons_field(b);
    lemma_buttons_digits(b);
    reveal_strlit("0x");
    reveal_strlit("0X");
    assert(w0.subrange(0, 2) =~= "0x"@);
    assert(has_prefix(w0, "0x"@));
    assert(w0.subrange(2, w0.len() as int) =~= h);
    assert(!has_prefix(h, "0x"@)) by {
        if has_prefix(h, "0x"@) {
            assert(h.subrange(0, 2)[1] == h[1]);
        }
    }
    assert(!has_prefix(h, "0X"@)) by {
        if has_prefix(h, "0X"@) {
            assert(h.subrange(0, 2)[1] == h[1]);
        }
    }
    assert(strip_all(h, "0x"@) == h);
    assert(strip_all(w0, "0x"@) == strip_all(h, "0x"@));
    assert(strip_all(h, "0X"@) == h);
}

/// The arguments of a pad split into seven words, one per field: the
/// buttons as `0x` and four hexadecimal digits worth them, the four stick
/// axes as decimal `i8`s and the two triggers as decimal `u8`s, each of
/// which parses back to its field. Read back as a controller reading after
/// a port word, the arguments give the pad.
pub proof fn lemma_pad_args_read_back(p: HWPadInput, port: Seq<char>)
    requires
        port.len() > 0,
        no_ws(port),
    ensures
        ({
            let w = words(pad_args(p));
            &&& w.len() == 7
            &&& w[0].len() == 6 && w[0].subrange(0, 2) == seq!['0', 'x']
            &&& parse_unsigned_spec(w[0].subrange(2, 6), 16, 0xFFFF) == Some(p.buttons as nat)
            &&& parse_i8_spec(w[1]) == Some(p.stick_x as int)
            &&& parse_i8_spec(w[2]) == Some(p.stick_y as int)
            &&& parse_i8_spec(w[3]) == Some(p.cstick_x as int)
            &&& parse_i8_spec(w[4]) == Some(p.cstick_y as int)
            &&& parse_unsigned_spec(w[5], 10, 0xFF) == Some(p.trigger_l as nat)
            &&& parse_unsigned_spec(w[6], 10, 0xFF) == Some(p.trigger_r as nat)
        }),
        pad_from_words(words(port + seq![' '] + pad_args(p))) == p,
{
    lemma_pad_words(p);
    lemma_buttons_digits(p.buttons);
    lemma_parse_signed_digits(p.stick_x as int);
    lemma_parse_signed_digits(p.stick_y as int);
    lemma_parse_signed_digits(p.cstick_x as int);
    lemma_parse_signed_digits(p.cstick_y as int);
    lemma_parse_dec_digits(p.trigger_l as nat, 0xFF);
    lemma_parse_dec_digits(p.trigger_r as nat, 0xFF);
    let f = pad_fields(p);
    let h = zero_pad(hex_digits(p.buttons as nat), 4);
    assert(f[0].subrange(2, 6) =~= h);
    assert(f[0].subrange(0, 2) =~= seq!['0', 'x']);
    lemma_words_cons(port, pad_args(p));
    let all = words(port + seq![' '] + pad_args(p));
    assert(all =~= seq![port] + f);
    assert(all[1] == f[0]);
    lemma_strip_buttons(p.buttons);
}

} // verus!
