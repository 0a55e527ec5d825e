//! `SET key value [EX seconds | PX milliseconds]`.

use bytes::Bytes;
use vstd::prelude::*;
use vstd::string::*;
use vstd::utf8::*;

use crate::buf::{contents, from_static, from_vec};
use crate::cmd::apply::{Action, ActionView, Phase};
use crate::frame::{Frame, FrameView};
use crate::parse::{
    bytes_of, first_bytes, first_int, first_text, int_of, reads_as, rest, text_of, Parse, ParseError,
    Violation,
};
use crate::text::{ascii_upper, is_keyword, matches_keyword};
use crate::ttl::{nanos_per_milli, nanos_per_sec, option_nanos, Ttl};

verus! {

/// Store `value` under `key`, for good or until `expire` has passed.
#[derive(Debug, PartialEq, Eq)]
pub struct SetCmd {
    key: String,
    value: Bytes,
    expire: Option<Ttl>,
}

/// What a [`SetCmd`] stands for. The expiration is in nanoseconds.
pub struct SetCmdView {
    pub key: Seq<char>,
    pub value: Seq<u8>,
    pub expire: Option<nat>,
}

impl View for SetCmd {
    type V = SetCmdView;

    closed spec fn view(&self) -> SetCmdView {
        SetCmdView { key: self.key@, value: contents(self.value), expire: option_nanos(self.expire) }
    }
}

/// The expiration that the arguments behind the value ask for, in
/// nanoseconds: none where nothing follows, else what `EX` or `PX` and its
/// number say. Any other modifier is a breach of the protocol.
pub open spec fn parse_expire(tail: Seq<FrameView>) -> Result<Option<nat>, ParseError> {
    match first_text(tail) {
        Err(ParseError::EndOfStream) => Ok(None),
        Err(e) => Err(e),
        Ok(modifier) => if is_keyword(modifier, "EX"@) {
            match first_int(rest(tail)) {
                Ok(secs) => Ok(Some((secs * nanos_per_sec()) as nat)),
                Err(e) => Err(e),
            }
        } else if is_keyword(modifier, "PX"@) {
            match first_int(rest(tail)) {
                Ok(millis) => Ok(Some((millis * nanos_per_milli()) as nat)),
                Err(e) => Err(e),
            }
        } else {
            Err(ParseError::Protocol(Violation::UnknownModifier))
        },
    }
}

/// The command that the arguments `args` of a `SET` request denote: a key,
/// a value, and an optional expiration. The first argument that cannot be
/// read decides the error.
pub open spec fn parse_set(args: Seq<FrameView>) -> Result<SetCmdView, ParseError> {
    match first_text(args) {
        Err(e) => Err(e),
        Ok(key) => match first_bytes(rest(args)) {
            Err(e) => Err(e),
            Ok(value) => match parse_expire(rest(rest(args))) {
                Err(e) => Err(e),
                Ok(expire) => Ok(SetCmdView { key, value, expire }),
            },
        },
    }
}

/// The arguments that parsing a `SET` leaves unread. Parsing stops behind
/// the first argument that it cannot accept; where all are accepted, it
/// stops behind the value, the unknown modifier, or the number of `EX` or
/// `PX`.
pub open spec fn left_by_set(args: Seq<FrameView>) -> Seq<FrameView> {
    let tail = rest(rest(args));
    if first_text(args) is Err {
        rest(args)
    } else if first_bytes(rest(args)) is Err {
        tail
    } else if first_text(tail) matches Ok(modifier) && (is_keyword(modifier, "EX"@) || is_keyword(
        modifier,
        "PX"@,
    )) {
        rest(rest(tail))
    } else {
        rest(tail)
    }
}

/// A count of milliseconds as the wire carries it: its low 64 bits, read as
/// a signed number. Counts up to `i64::MAX` are carried unchanged.
pub open spec fn wire_millis(millis: nat) -> int {
    let low = millis % 0x1_0000_0000_0000_0000;
    if low <= i64::MAX {
        low as int
    } else {
        low - 0x1_0000_0000_0000_0000
    }
}

/// The frame that replays a command: `set`, the key and the value as bulk
/// strings, then `px` and the expiration in whole milliseconds where there
/// is one.
pub open spec fn set_frame(cmd: SetCmdView) -> FrameView {
    let head = seq![
        FrameView::Bulk(encode_utf8("set"@)),
        FrameView::Bulk(encode_utf8(cmd.key)),
        FrameView::Bulk(cmd.value),
    ];
    FrameView::Array(
        match cmd.expire {
            None => head,
            Some(ns) => head + seq![
                FrameView::Bulk(encode_utf8("px"@)),
                FrameView::Integer(wire_millis(ns / nanos_per_milli())),
            ],
        },
    )
}

fn to_wire(millis: u128) -> (n: i64)
    ensures
        n == wire_millis(millis as nat),
{
    let low: u128 = millis % 0x1_0000_0000_0000_0000u128;
    if low <= 0x7fff_ffff_ffff_ffffu128 {
        low as i64
    } else {
        (low as i128 - 0x1_0000_0000_0000_0000i128) as i64
    }
}

impl SetCmd {
    /// A command that stores `value` under `key`.
    pub fn new(key: &str, value: Bytes, expire: Option<Ttl>) -> (cmd: SetCmd)
        ensures
            cmd@ == (SetCmdView { key: key@, value: contents(value), expire: option_nanos(expire) }),
    {
        SetCmd { key: key.to_owned(), value, expire }
    }

    /// The key to store under.
    pub fn key(&self) -> (key: &str)
        ensures
            key@ == self@.key,
    {
        self.key.as_str()
    }

    /// The value to store.
    pub fn value(&self) -> (value: &Bytes)
        ensures
            contents(*value) == self@.value,
    {
        &self.value
    }

    /// How long the value is to be kept, if not for good.
    pub fn expire(&self) -> (expire: Option<Ttl>)
        ensures
            option_nanos(expire) == self@.expire,
    {
        self.expire
    }

    /// Parses the arguments of a `SET` request from a cursor that stands just
    /// behind the command name.
    ///
    /// Whether a modifier is there is found out by reading it: a cursor that
    /// has run out behind the value means a command without expiration, and
    /// any other failure to read is an error of the request.
    pub fn parse_frame(parse: &mut Parse) -> (r: Result<SetCmd, ParseError>)
        ensures
            match r {
                Ok(cmd) => parse_set(old(parse).remaining()) == Ok::<SetCmdView, ParseError>(cmd@),
                Err(e) => parse_set(old(parse).remaining()) == Err::<SetCmdView, ParseError>(e),
            },
            final(parse).remaining() == left_by_set(old(parse).remaining()),
    {
        let key = parse.next_string()?;
        let value = parse.next_bytes()?;
        let mut expire = None;
        match parse.next_string() {
            Ok(modifier) => {
                if matches_keyword(modifier.as_str(), "EX") {
                    let secs = parse.next_int()?;
                    expire = Some(Ttl::from_secs(secs));
                } else if matches_keyword(modifier.as_str(), "PX") {
                    let millis = parse.next_int()?;
                    expire = Some(Ttl::from_millis(millis));
                } else {
                    return Err(ParseError::Protocol(Violation::UnknownModifier));
                }
            },
            Err(ParseError::EndOfStream) => {},
            Err(e) => {
                return Err(e);
            },
        }
        Ok(SetCmd { key, value, expire })
    }

    /// Begins to apply the command: the store is to take the mutation, with
    /// exactly the key, value and expiration of the command. What follows is
    /// decided by [`Phase::step`].
    pub fn apply(self) -> (r: (Phase, Action))
        ensures
            r.0 == Phase::Storing,
            r.1@ == (ActionView::Store {
                key: self@.key,
                value: self@.value,
                expire: self@.expire,
            }),
    {
        (Phase::Storing, Action::Store { key: self.key, value: self.value, expire: self.expire })
    }

    /// Turns the command back into a request frame, for a replica or a log.
    /// The expiration is always written in milliseconds, whichever unit the
    /// client gave it in.
    pub fn into_frame(self) -> (frame: Frame)
        ensures
            frame@ == set_frame(self@),
    {
        let mut frame = Frame::array();
        frame.push_bulk(from_static("set".as_bytes()));
        frame.push_bulk(from_vec(self.key.as_str().as_bytes_vec()));
        frame.push_bulk(self.value);
        if let Some(expire) = self.expire {
            frame.push_bulk(from_static("px".as_bytes()));
            frame.push_int(to_wire(expire.as_millis()));
        }
        proof {
            assert(frame@->Array_0 =~= set_frame(self@)->Array_0);
        }
        frame
    }
}

/// A modifier reads `EX` in exactly four spellings, and so does `PX`; none
/// reads as both.
pub proof fn lemma_modifier_spellings(text: Seq<char>)
    ensures
        is_keyword(text, "EX"@) <==> text.len() == 2 && (text[0] == 'E' || text[0] == 'e') && (
        text[1] == 'X' || text[1] == 'x'),
        is_keyword(text, "PX"@) <==> text.len() == 2 && (text[0] == 'P' || text[0] == 'p') && (
        text[1] == 'X' || text[1] == 'x'),
        !(is_keyword(text, "EX"@) && is_keyword(text, "PX"@)),
{
    reveal_strlit("EX");
    reveal_strlit("PX");
    if text.len() == 2 {
        assert(ascii_upper(text[0]) == 'E' <==> text[0] == 'E' || text[0] == 'e');
        assert(ascii_upper(text[0]) == 'P' <==> text[0] == 'P' || text[0] == 'p');
        assert(ascii_upper(text[1]) == 'X' <==> text[1] == 'X' || text[1] == 'x');
    }
}

/// The arguments that denote a command are a key that is text, a value
/// that is bytes, and then either nothing more, or `EX` or `PX` and a
/// count. What stands behind the count is not looked at.
pub proof fn lemma_accepted_arguments(args: Seq<FrameView>)
    ensures
        parse_set(args) is Ok <==> {
            &&& args.len() >= 2
            &&& text_of(args[0]) is Ok
            &&& bytes_of(args[1]) is Ok
            &&& args.len() > 2 ==> {
                &&& args.len() >= 4
                &&& reads_as(args[2], "EX"@) || reads_as(args[2], "PX"@)
                &&& int_of(args[3]) is Ok
            }
        },
        parse_set(args) is Ok ==> left_by_set(args) == if args.len() == 2 {
            Seq::<FrameView>::empty()
        } else {
            args.skip(4)
        },
{
    if args.len() >= 1 {
        assert(rest(args).len() == args.len() - 1);
        if args.len() >= 2 {
            assert(rest(args)[0] == args[1]);
            let tail = rest(rest(args));
            assert(tail.len() == args.len() - 2);
            if args.len() >= 3 {
                assert(tail[0] == args[2]);
                assert(rest(tail).len() == args.len() - 3);
                if args.len() >= 4 {
                    assert(rest(tail)[0] == args[3]);
                    assert(rest(rest(tail)) =~= args.skip(4));
                }
            } else {
                assert(tail =~= Seq::<FrameView>::empty());
                assert(rest(tail) =~= Seq::<FrameView>::empty());
            }
        }
    }
}

/// A key and a value with nothing behind them denote a command that never
/// expires.
pub proof fn lemma_no_modifier_no_expiry(key: FrameView, value: FrameView)
    requires
        text_of(key) is Ok,
        bytes_of(value) is Ok,
    ensures
        parse_set(seq![key, value]) == Ok::<SetCmdView, ParseError>(
            SetCmdView { key: text_of(key)->Ok_0, value: bytes_of(value)->Ok_0, expire: None },
        ),
        left_by_set(seq![key, value]) == Seq::<FrameView>::empty(),
{
    let args = seq![key, value];
    assert(rest(args) =~= seq![value]);
    assert(rest(rest(args)) =~= Seq::<FrameView>::empty());
    assert(left_by_set(args) =~= Seq::<FrameView>::empty());
}

/// `EX` with a count of seconds asks for that many seconds, which is a
/// thousand times as many milliseconds.
pub proof fn lemma_ex_counts_seconds(
    key: FrameView,
    value: FrameView,
    ex: FrameView,
    secs: FrameView,
)
    requires
        text_of(key) is Ok,
        bytes_of(value) is Ok,
        reads_as(ex, "EX"@),
        int_of(secs) is Ok,
    ensures
        parse_set(seq![key, value, ex, secs]) == Ok::<SetCmdView, ParseError>(
            SetCmdView {
                key: text_of(key)->Ok_0,
                value: bytes_of(value)->Ok_0,
                expire: Some((int_of(secs)->Ok_0 * 1000 * nanos_per_milli()) as nat),
            },
        ),
        left_by_set(seq![key, value, ex, secs]) == Seq::<FrameView>::empty(),
{
    let args = seq![key, value, ex, secs];
    assert(rest(args) =~= seq![value, ex, secs]);
    assert(rest(rest(args)) =~= seq![ex, secs]);
    assert(rest(rest(rest(args))) =~= seq![secs]);
    assert(rest(rest(rest(rest(args)))) =~= Seq::<FrameView>::empty());
}

/// `PX` with a count of milliseconds asks for that many milliseconds.
pub proof fn lemma_px_counts_millis(
    key: FrameView,
    value: FrameView,
    px: FrameView,
    millis: FrameView,
)
    requires
        text_of(key) is Ok,
        bytes_of(value) is Ok,
        reads_as(px, "PX"@),
        int_of(millis) is Ok,
    ensures
        parse_set(seq![key, value, px, millis]) == Ok::<SetCmdView, ParseError>(
            SetCmdView {
                key: text_of(key)->Ok_0,
                value: bytes_of(value)->Ok_0,
                expire: Some((int_of(millis)->Ok_0 * nanos_per_milli()) as nat),
            },
        ),
        left_by_set(seq![key, value, px, millis]) == Seq::<FrameView>::empty(),
{
    let args = seq![key, value, px, millis];
    assert(rest(args) =~= seq![value, px, millis]);
    assert(rest(rest(args)) =~= seq![px, millis]);
    assert(rest(rest(rest(args))) =~= seq![millis]);
    assert(rest(rest(rest(rest(args)))) =~= Seq::<FrameView>::empty());
    lemma_modifier_spellings(text_of(px)->Ok_0);
}

/// A count of seconds behind `EX` and a thousand times that count behind
/// `PX` denote the very same command.
pub proof fn lemma_ex_px_agree(
    key: FrameView,
    value: FrameView,
    ex: FrameView,
    secs: FrameView,
    px: FrameView,
    millis: FrameView,
)
    requires
        text_of(key) is Ok,
        bytes_of(value) is Ok,
        reads_as(ex, "EX"@),
        reads_as(px, "PX"@),
        int_of(secs) is Ok,
        int_of(millis) is Ok,
        int_of(millis)->Ok_0 == int_of(secs)->Ok_0 * 1000,
    ensures
        parse_set(seq![key, value, px, millis]) == parse_set(seq![key, value, ex, secs]),
{
    lemma_ex_counts_seconds(key, value, ex, secs);
    lemma_px_counts_millis(key, value, px, millis);
}

/// A modifier that is neither `EX` nor `PX` is a breach of the protocol,
/// whatever stands behind it: the parser neither runs out of arguments nor
/// looks for a number.
pub proof fn lemma_unknown_modifier(
    key: FrameView,
    value: FrameView,
    modifier: FrameView,
    behind: Seq<FrameView>,
)
    requires
        text_of(key) is Ok,
        bytes_of(value) is Ok,
        text_of(modifier) is Ok,
        !reads_as(modifier, "EX"@),
        !reads_as(modifier, "PX"@),
    ensures
        parse_set(seq![key, value, modifier] + behind) == Err::<SetCmdView, ParseError>(
            ParseError::Protocol(Violation::UnknownModifier),
        ),
        left_by_set(seq![key, value, modifier] + behind) == behind,
{
    let args = seq![key, value, modifier] + behind;
    assert(rest(args) =~= seq![value, modifier] + behind);
    assert(rest(rest(args)) =~= seq![modifier] + behind);
    assert(rest(rest(rest(args))) =~= behind);
}

/// `EX` or `PX` with nothing behind it fails for want of an argument; the
/// command is not taken to be one without expiration.
pub proof fn lemma_modifier_without_number(key: FrameView, value: FrameView, modifier: FrameView)
    requires
        text_of(key) is Ok,
        bytes_of(value) is Ok,
        reads_as(modifier, "EX"@) || reads_as(modifier, "PX"@),
    ensures
        parse_set(seq![key, value, modifier]) == Err::<SetCmdView, ParseError>(
            ParseError::EndOfStream,
        ),
{
    let args = seq![key, value, modifier];
    assert(rest(args) =~= seq![value, modifier]);
    assert(rest(rest(args)) =~= seq![modifier]);
    assert(rest(rest(rest(args))) =~= Seq::<FrameView>::empty());
}

/// A key with nothing behind it fails for want of a value.
pub proof fn lemma_key_alone(key: FrameView)
    requires
        text_of(key) is Ok,
    ensures
        parse_set(seq![key]) == Err::<SetCmdView, ParseError>(ParseError::EndOfStream),
{
    let args = seq![key];
    assert(rest(args) =~= Seq::<FrameView>::empty());
}

/// Where the value is not acceptable, parsing fails on the value, and
/// leaves what stands behind it unread: no modifier is looked at.
pub proof fn lemma_value_before_modifier(key: FrameView, value: FrameView, behind: Seq<FrameView>)
    requires
        text_of(key) is Ok,
        bytes_of(value) is Err,
    ensures
        parse_set(seq![key, value] + behind) == Err::<SetCmdView, ParseError>(
            bytes_of(value)->Err_0,
        ),
        left_by_set(seq![key, value] + behind) == behind,
{
    let args = seq![key, value] + behind;
    assert(rest(args) =~= seq![value] + behind);
    assert(rest(rest(args)) =~= behind);
}

/// A command without expiration is replayed in three elements. One with
/// an expiration is replayed in five: the last two are `px` and the whole
/// milliseconds of the expiration, which is that very count unless it
/// exceeds what a signed 64-bit number holds.
pub proof fn lemma_frame_shape(cmd: SetCmdView)
    ensures
        set_frame(cmd) is Array,
        cmd.expire is None ==> set_frame(cmd)->Array_0.len() == 3,
        cmd.expire matches Some(ns) ==> {
            let items = set_frame(cmd)->Array_0;
            let millis = ns / nanos_per_milli();
            &&& items.len() == 5
            &&& items[3] == FrameView::Bulk(encode_utf8("px"@))
            &&& items[4] == FrameView::Integer(wire_millis(millis))
            &&& millis <= i64::MAX ==> items[4] == FrameView::Integer(millis as int)
        },
{
}

/// An expiration of whole seconds is replayed as a thousand times as many
/// milliseconds.
pub proof fn lemma_seconds_as_millis(secs: nat)
    requires
        secs * 1000 <= i64::MAX,
    ensures
        wire_millis(secs * nanos_per_sec() / nanos_per_milli()) == secs * 1000,
{
}

/// The keywords of the replay frame, byte for byte.
pub proof fn lemma_keyword_bytes()
    ensures
        encode_utf8("set"@) == seq![0x73u8, 0x65u8, 0x74u8],
        encode_utf8("px"@) == seq![0x70u8, 0x78u8],
{
    reveal_strlit("set");
    reveal_strlit("px");
    is_ascii_chars_encode_utf8("set"@);
    is_ascii_chars_encode_utf8("px"@);
    assert(encode_utf8("set"@) =~= seq![0x73u8, 0x65u8, 0x74u8]);
    assert(encode_utf8("px"@) =~= seq![0x70u8, 0x78u8]);
}

/// The replay of a command begins with its name, and its key and value read
/// back as they are.
pub proof fn lemma_replay_reads_back(cmd: SetCmdView)
    ensures
        reads_as(set_frame(cmd)->Array_0[0], "SET"@),
        text_of(set_frame(cmd)->Array_0[1]) == Ok::<Seq<char>, ParseError>(cmd.key),
        bytes_of(set_frame(cmd)->Array_0[2]) == Ok::<Seq<u8>, ParseError>(cmd.value),
{
    encode_utf8_valid_utf8("set"@);
    encode_utf8_decode_utf8("set"@);
    encode_utf8_valid_utf8(cmd.key);
    encode_utf8_decode_utf8(cmd.key);
    reveal_strlit("set");
    reveal_strlit("SET");
}

} // verus!
