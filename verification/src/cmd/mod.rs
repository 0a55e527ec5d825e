//! Commands: what a client can ask of the server.
//!
//! A command goes through three phases. It is parsed from a request, applied
//! to the store with an answer to the client, and, where the mutation has to
//! reach a replica or a log, turned back into a frame. The commands form a
//! closed set, and a request is matched to one of them by its first element.

pub mod apply;
pub mod set;

use vstd::prelude::*;
use vstd::utf8::{encode_utf8_decode_utf8, encode_utf8_valid_utf8};

use crate::cmd::apply::{Action, ActionView, Phase};
use crate::cmd::set::{
    left_by_set, lemma_accepted_arguments, lemma_ex_counts_seconds, lemma_key_alone,
    lemma_modifier_without_number, lemma_no_modifier_no_expiry, lemma_px_counts_millis,
    lemma_replay_reads_back, lemma_unknown_modifier, parse_set, set_frame, SetCmd, SetCmdView,
};
use crate::frame::{Frame, FrameView};
use crate::parse::{
    bytes_of, first_text, int_of, reads_as, rest, text_of, Parse, ParseError, Violation,
};
use crate::text::{is_keyword, matches_keyword};
use crate::ttl::nanos_per_milli;

verus! {

/// A request that the server can carry out.
#[derive(Debug, PartialEq, Eq)]
pub enum Command {
    SetCmd(SetCmd),
}

/// What a [`Command`] stands for.
pub enum CommandView {
    SetCmd(SetCmdView),
}

impl View for Command {
    type V = CommandView;

    open spec fn view(&self) -> CommandView {
        match self {
            Command::SetCmd(cmd) => CommandView::SetCmd(cmd@),
        }
    }
}

/// The command that a request denotes. The request is an array; its first
/// element names the command, in any case of letters, and the elements
/// behind it are the arguments of that command, all of which it takes.
pub open spec fn parse_request(request: FrameView) -> Result<CommandView, ParseError> {
    match request {
        FrameView::Array(items) => match first_text(items) {
            Err(e) => Err(e),
            Ok(name) => if is_keyword(name, "SET"@) {
                match parse_set(rest(items)) {
                    Err(e) => Err(e),
                    Ok(cmd) => if left_by_set(rest(items)).len() == 0 {
                        Ok(CommandView::SetCmd(cmd))
                    } else {
                        Err(ParseError::Protocol(Violation::TrailingElement))
                    },
                }
            } else {
                Err(ParseError::Protocol(Violation::UnknownCommand))
            },
        },
        _ => Err(ParseError::Protocol(Violation::NotAnArray)),
    }
}

/// The frame that replays a command.
pub open spec fn replay(cmd: CommandView) -> FrameView {
    match cmd {
        CommandView::SetCmd(cmd) => set_frame(cmd),
    }
}

impl Command {
    /// Parses a command from a request.
    pub fn from_frame(frame: Frame) -> (r: Result<Command, ParseError>)
        ensures
            match r {
                Ok(cmd) => parse_request(frame@) == Ok::<CommandView, ParseError>(cmd@),
                Err(e) => parse_request(frame@) == Err::<CommandView, ParseError>(e),
            },
    {
        let mut parse = Parse::new(frame)?;
        let name = parse.next_string()?;
        let cmd = if matches_keyword(name.as_str(), "SET") {
            Command::SetCmd(SetCmd::parse_frame(&mut parse)?)
        } else {
            return Err(ParseError::Protocol(Violation::UnknownCommand));
        };
        parse.finish()?;
        Ok(cmd)
    }

    /// Begins to apply the command. See [`SetCmd::apply`].
    pub fn apply(self) -> (r: (Phase, Action))
        ensures
            r.0 == Phase::Storing,
            self@ matches CommandView::SetCmd(cmd) && r.1@ == (ActionView::Store {
                key: cmd.key,
                value: cmd.value,
                expire: cmd.expire,
            }),
    {
        match self {
            Command::SetCmd(cmd) => cmd.apply(),
        }
    }

    /// Turns the command back into a request, for a replica or a log.
    pub fn into_frame(self) -> (frame: Frame)
        ensures
            frame@ == replay(self@),
    {
        match self {
            Command::SetCmd(cmd) => cmd.into_frame(),
        }
    }
}

/// A request of a command name and arguments, in one sequence.
pub open spec fn request(name: FrameView, args: Seq<FrameView>) -> FrameView {
    FrameView::Array(seq![name] + args)
}

/// A request whose first element reads `SET` denotes what its arguments
/// denote as a `SET`, provided that the command takes them all.
pub proof fn lemma_set_request(name: FrameView, args: Seq<FrameView>)
    requires
        reads_as(name, "SET"@),
    ensures
        parse_request(request(name, args)) == match parse_set(args) {
            Err(e) => Err::<CommandView, ParseError>(e),
            Ok(cmd) => if left_by_set(args).len() == 0 {
                Ok(CommandView::SetCmd(cmd))
            } else {
                Err(ParseError::Protocol(Violation::TrailingElement))
            },
        },
{
    assert(rest(seq![name] + args) =~= args);
}

/// The requests that denote a command are `[SET, key, value]`,
/// `[SET, key, value, EX, count]` and `[SET, key, value, PX, count]`, with
/// the command name and the modifier in any case of letters, a key that is
/// text, a value that is bytes, and a count that is a number.
pub proof fn lemma_accepted_requests(items: Seq<FrameView>)
    ensures
        parse_request(FrameView::Array(items)) is Ok <==> {
            &&& items.len() == 3 || items.len() == 5
            &&& reads_as(items[0], "SET"@)
            &&& text_of(items[1]) is Ok
            &&& bytes_of(items[2]) is Ok
            &&& items.len() == 5 ==> {
                &&& reads_as(items[3], "EX"@) || reads_as(items[3], "PX"@)
                &&& int_of(items[4]) is Ok
            }
        },
{
    if items.len() >= 1 {
        let args = rest(items);
        lemma_accepted_arguments(args);
        assert(args.len() == items.len() - 1);
        assert forall|i: int| 0 <= i < args.len() implies args[i] == items[i + 1] by {}
        if args.len() > 4 {
            assert(args.skip(4).len() > 0);
        }
    }
}

/// `[SET, key, value]` denotes a command that never expires.
pub proof fn lemma_request_without_modifier(name: FrameView, key: FrameView, value: FrameView)
    requires
        reads_as(name, "SET"@),
        text_of(key) is Ok,
        bytes_of(value) is Ok,
    ensures
        parse_request(FrameView::Array(seq![name, key, value])) == Ok::<CommandView, ParseError>(
            CommandView::SetCmd(
                SetCmdView { key: text_of(key)->Ok_0, value: bytes_of(value)->Ok_0, expire: None },
            ),
        ),
{
    lemma_set_request(name, seq![key, value]);
    lemma_no_modifier_no_expiry(key, value);
    assert(seq![name] + seq![key, value] =~= seq![name, key, value]);
}

/// `[SET, key, value, EX, seconds]` denotes a command that expires after a
/// thousand times as many milliseconds as it names seconds.
pub proof fn lemma_request_with_ex(
    name: FrameView,
    key: FrameView,
    value: FrameView,
    ex: FrameView,
    secs: FrameView,
)
    requires
        reads_as(name, "SET"@),
        text_of(key) is Ok,
        bytes_of(value) is Ok,
        reads_as(ex, "EX"@),
        int_of(secs) is Ok,
    ensures
        parse_request(FrameView::Array(seq![name, key, value, ex, secs])) == Ok::<
            CommandView,
            ParseError,
        >(
            CommandView::SetCmd(
                SetCmdView {
                    key: text_of(key)->Ok_0,
                    value: bytes_of(value)->Ok_0,
                    expire: Some((int_of(secs)->Ok_0 * 1000 * nanos_per_milli()) as nat),
                },
            ),
        ),
{
    lemma_set_request(name, seq![key, value, ex, secs]);
    lemma_ex_counts_seconds(key, value, ex, secs);
    assert(seq![name] + seq![key, value, ex, secs] =~= seq![name, key, value, ex, secs]);
}

/// `[SET, key, value, PX, milliseconds]` denotes a command that expires
/// after that many milliseconds.
pub proof fn lemma_request_with_px(
    name: FrameView,
    key: FrameView,
    value: FrameView,
    px: FrameView,
    millis: FrameView,
)
    requires
        reads_as(name, "SET"@),
        text_of(key) is Ok,
        bytes_of(value) is Ok,
        reads_as(px, "PX"@),
        int_of(millis) is Ok,
    ensures
        parse_request(FrameView::Array(seq![name, key, value, px, millis])) == Ok::<
            CommandView,
            ParseError,
        >(
            CommandView::SetCmd(
                SetCmdView {
                    key: text_of(key)->Ok_0,
                    value: bytes_of(value)->Ok_0,
                    expire: Some((int_of(millis)->Ok_0 * nanos_per_milli()) as nat),
                },
            ),
        ),
{
    lemma_set_request(name, seq![key, value, px, millis]);
    lemma_px_counts_millis(key, value, px, millis);
    assert(seq![name] + seq![key, value, px, millis] =~= seq![name, key, value, px, millis]);
}

/// A count of seconds behind `EX` and a thousand times that count behind
/// `PX` denote the very same command.
pub proof fn lemma_request_ex_px_agree(
    name: FrameView,
    key: FrameView,
    value: FrameView,
    ex: FrameView,
    secs: FrameView,
    px: FrameView,
    millis: FrameView,
)
    requires
        reads_as(name, "SET"@),
        text_of(key) is Ok,
        bytes_of(value) is Ok,
        reads_as(ex, "EX"@),
        reads_as(px, "PX"@),
        int_of(secs) is Ok,
        int_of(millis) is Ok,
        int_of(millis)->Ok_0 == int_of(secs)->Ok_0 * 1000,
    ensures
        parse_request(FrameView::Array(seq![name, key, value, px, millis])) == parse_request(
            FrameView::Array(seq![name, key, value, ex, secs]),
        ),
{
    lemma_request_with_ex(name, key, value, ex, secs);
    lemma_request_with_px(name, key, value, px, millis);
}

/// `[SET, key, value, modifier, ..]` with a modifier that is neither `EX`
/// nor `PX` is a breach of the protocol, whatever stands behind the
/// modifier. It is not taken for a request that ends too early, nor for one
/// with a bad number.
pub proof fn lemma_request_with_unknown_modifier(
    name: FrameView,
    key: FrameView,
    value: FrameView,
    modifier: FrameView,
    behind: Seq<FrameView>,
)
    requires
        reads_as(name, "SET"@),
        text_of(key) is Ok,
        bytes_of(value) is Ok,
        text_of(modifier) is Ok,
        !reads_as(modifier, "EX"@),
        !reads_as(modifier, "PX"@),
    ensures
        parse_request(FrameView::Array(seq![name, key, value, modifier] + behind)) == Err::<
            CommandView,
            ParseError,
        >(ParseError::Protocol(Violation::UnknownModifier)),
{
    lemma_set_request(name, seq![key, value, modifier] + behind);
    lemma_unknown_modifier(key, value, modifier, behind);
    assert(seq![name] + (seq![key, value, modifier] + behind) =~= seq![
        name,
        key,
        value,
        modifier,
    ] + behind);
}

/// `[SET, key, value, EX]` and `[SET, key, value, PX]` end too early. They
/// are not taken for requests without expiration.
pub proof fn lemma_request_without_number(
    name: FrameView,
    key: FrameView,
    value: FrameView,
    modifier: FrameView,
)
    requires
        reads_as(name, "SET"@),
        text_of(key) is Ok,
        bytes_of(value) is Ok,
        reads_as(modifier, "EX"@) || reads_as(modifier, "PX"@),
    ensures
        parse_request(FrameView::Array(seq![name, key, value, modifier])) == Err::<
            CommandView,
            ParseError,
        >(ParseError::EndOfStream),
{
    lemma_set_request(name, seq![key, value, modifier]);
    lemma_modifier_without_number(key, value, modifier);
    assert(seq![name] + seq![key, value, modifier] =~= seq![name, key, value, modifier]);
}

/// `[SET, key]` ends too early.
pub proof fn lemma_request_without_value(name: FrameView, key: FrameView)
    requires
        reads_as(name, "SET"@),
        text_of(key) is Ok,
    ensures
        parse_request(FrameView::Array(seq![name, key])) == Err::<CommandView, ParseError>(
            ParseError::EndOfStream,
        ),
{
    lemma_set_request(name, seq![key]);
    lemma_key_alone(key);
    assert(seq![name] + seq![key] =~= seq![name, key]);
}

/// The replay of a command is a request for a command with the same key and
/// value. Where the command expires, so does the one replayed, after the
/// same whole milliseconds: what part of a millisecond there was is lost,
/// and so is whether the client counted in seconds. This holds of
/// expirations that the wire can carry, up to `i64::MAX` milliseconds.
pub proof fn lemma_replay_is_a_request(cmd: SetCmdView)
    requires
        cmd.expire matches Some(ns) ==> ns / nanos_per_milli() <= i64::MAX,
    ensures
        parse_request(replay(CommandView::SetCmd(cmd))) == Ok::<CommandView, ParseError>(
            CommandView::SetCmd(
                SetCmdView {
                    key: cmd.key,
                    value: cmd.value,
                    expire: match cmd.expire {
                        None => None,
                        Some(ns) => Some(ns / nanos_per_milli() * nanos_per_milli()),
                    },
                },
            ),
        ),
{
    let items = set_frame(cmd)->Array_0;
    lemma_replay_reads_back(cmd);
    match cmd.expire {
        None => {
            assert(items =~= seq![items[0]] + seq![items[1], items[2]]);
            lemma_set_request(items[0], seq![items[1], items[2]]);
            lemma_no_modifier_no_expiry(items[1], items[2]);
        },
        Some(ns) => {
            assert(items =~= seq![items[0]] + seq![items[1], items[2], items[3], items[4]]);
            lemma_set_request(items[0], seq![items[1], items[2], items[3], items[4]]);
            assert(reads_as(items[3], "PX"@)) by {
                encode_utf8_valid_utf8("px"@);
                encode_utf8_decode_utf8("px"@);
                reveal_strlit("px");
                reveal_strlit("PX");
            }
            lemma_px_counts_millis(items[1], items[2], items[3], items[4]);
        },
    }
}

} // verus!
