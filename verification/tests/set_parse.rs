use bytes::Bytes;
use rudis::cmd::set::SetCmd;
use rudis::frame::Frame;
use rudis::parse::{Parse, ParseError, Violation};
use rudis::ttl::Ttl;

fn bulk(bytes: &'static [u8]) -> Frame {
    Frame::Bulk(Bytes::from_static(bytes))
}

/// A cursor over `request`, advanced past the command name.
fn behind_name(request: Vec<Frame>) -> Parse {
    let mut parse = Parse::new(Frame::Array(request)).unwrap();
    assert!(parse.next_string().unwrap().eq_ignore_ascii_case("set"));
    parse
}

fn parse(request: Vec<Frame>) -> Result<SetCmd, ParseError> {
    SetCmd::parse_frame(&mut behind_name(request))
}

#[test]
fn key_and_value_give_no_expiration() {
    let cmd = parse(vec![bulk(b"SET"), bulk(b"hello"), bulk(b"world")]).unwrap();
    assert_eq!(cmd.key(), "hello");
    assert_eq!(&cmd.value()[..], b"world");
    assert_eq!(cmd.expire(), None);
}

#[test]
fn value_is_kept_byte_for_byte() {
    let cmd = parse(vec![bulk(b"set"), bulk(b"k"), bulk(&[0xff, 0x00, 0x0d, 0x0a, 0x80])]).unwrap();
    assert_eq!(&cmd.value()[..], &[0xff, 0x00, 0x0d, 0x0a, 0x80]);
}

#[test]
fn empty_key_and_value_are_taken() {
    let cmd = parse(vec![bulk(b"SET"), bulk(b""), bulk(b"")]).unwrap();
    assert_eq!(cmd.key(), "");
    assert!(cmd.value().is_empty());
    assert_eq!(cmd.expire(), None);
}

#[test]
fn ex_counts_seconds() {
    let cmd = parse(vec![bulk(b"SET"), bulk(b"k"), bulk(b"v"), bulk(b"EX"), bulk(b"5")]).unwrap();
    assert_eq!(cmd.key(), "k");
    assert_eq!(&cmd.value()[..], b"v");
    assert_eq!(cmd.expire(), Some(Ttl::from_millis(5000)));
    assert_eq!(cmd.expire(), Some(Ttl::new(5, 0).unwrap()));
}

#[test]
fn px_counts_milliseconds() {
    let cmd = parse(vec![bulk(b"SET"), bulk(b"k"), bulk(b"v"), bulk(b"PX"), bulk(b"1500")]).unwrap();
    assert_eq!(cmd.expire(), Some(Ttl::new(1, 500_000_000).unwrap()));
}

#[test]
fn ex_and_px_agree() {
    for secs in [0u64, 1, 5, 60, 86_400, 18_446_744_073_709_551] {
        let ex = parse(vec![
            bulk(b"SET"),
            bulk(b"k"),
            bulk(b"v"),
            bulk(b"EX"),
            Frame::Bulk(Bytes::from(secs.to_string())),
        ])
        .unwrap();
        let px = parse(vec![
            bulk(b"SET"),
            bulk(b"k"),
            bulk(b"v"),
            bulk(b"PX"),
            Frame::Bulk(Bytes::from((secs * 1000).to_string())),
        ])
        .unwrap();
        assert_eq!(ex.expire(), Some(Ttl::from_millis(secs * 1000)));
        assert_eq!(ex.expire(), px.expire());
        assert_eq!(ex, px);
    }
}

#[test]
fn modifiers_are_read_in_any_case() {
    for modifier in [&b"ex"[..], b"Ex", b"eX", b"EX"] {
        let cmd = parse(vec![
            bulk(b"SET"),
            bulk(b"k"),
            bulk(b"v"),
            Frame::Bulk(Bytes::copy_from_slice(modifier)),
            bulk(b"2"),
        ])
        .unwrap();
        assert_eq!(cmd.expire(), Some(Ttl::from_secs(2)));
    }
    for modifier in [&b"px"[..], b"Px", b"pX", b"PX"] {
        let cmd = parse(vec![
            bulk(b"SET"),
            bulk(b"k"),
            bulk(b"v"),
            Frame::Bulk(Bytes::copy_from_slice(modifier)),
            bulk(b"2"),
        ])
        .unwrap();
        assert_eq!(cmd.expire(), Some(Ttl::from_millis(2)));
    }
}

#[test]
fn largest_counts_are_taken() {
    let ex = parse(vec![bulk(b"SET"), bulk(b"k"), bulk(b"v"), bulk(b"EX"), bulk(b"18446744073709551615")]).unwrap();
    assert_eq!(ex.expire(), Some(Ttl::from_secs(u64::MAX)));
    let px = parse(vec![bulk(b"SET"), bulk(b"k"), bulk(b"v"), bulk(b"PX"), bulk(b"18446744073709551615")]).unwrap();
    assert_eq!(px.expire(), Some(Ttl::from_millis(u64::MAX)));
}

#[test]
fn zero_is_a_count() {
    let cmd = parse(vec![bulk(b"SET"), bulk(b"k"), bulk(b"v"), bulk(b"EX"), bulk(b"0")]).unwrap();
    assert_eq!(cmd.expire(), Some(Ttl::from_secs(0)));
}

#[test]
fn unknown_modifier_breaks_the_protocol() {
    let r = parse(vec![bulk(b"SET"), bulk(b"k"), bulk(b"v"), bulk(b"XX"), bulk(b"5")]);
    assert_eq!(r, Err(ParseError::Protocol(Violation::UnknownModifier)));
}

#[test]
fn unknown_modifier_is_told_whatever_follows() {
    for modifier in [&b"XX"[..], b"NX", b"E", b"EXX", b"", b"EX ", b"5", b"KEEPTTL"] {
        for behind in [vec![], vec![bulk(b"5")], vec![bulk(b"abc")], vec![Frame::Null]] {
            let mut request = vec![bulk(b"SET"), bulk(b"k"), bulk(b"v"), Frame::Bulk(Bytes::copy_from_slice(modifier))];
            request.extend(behind);
            assert_eq!(
                parse(request),
                Err(ParseError::Protocol(Violation::UnknownModifier))
            );
        }
    }
}

#[test]
fn modifier_without_number_runs_out() {
    let ex = parse(vec![bulk(b"SET"), bulk(b"k"), bulk(b"v"), bulk(b"EX")]);
    assert_eq!(ex, Err(ParseError::EndOfStream));
    let px = parse(vec![bulk(b"SET"), bulk(b"k"), bulk(b"v"), bulk(b"px")]);
    assert_eq!(px, Err(ParseError::EndOfStream));
}

#[test]
fn missing_value_runs_out() {
    let mut cursor = behind_name(vec![bulk(b"SET"), bulk(b"k")]);
    assert_eq!(SetCmd::parse_frame(&mut cursor), Err(ParseError::EndOfStream));
    assert_eq!(cursor.next_string(), Err(ParseError::EndOfStream));
}

#[test]
fn missing_key_runs_out() {
    assert_eq!(parse(vec![bulk(b"SET")]), Err(ParseError::EndOfStream));
}

#[test]
fn bad_value_fails_before_the_modifier() {
    let mut cursor = behind_name(vec![bulk(b"SET"), bulk(b"k"), Frame::Null, bulk(b"XX"), bulk(b"5")]);
    assert_eq!(
        SetCmd::parse_frame(&mut cursor),
        Err(ParseError::Protocol(Violation::WrongKind))
    );
    assert_eq!(cursor.next_string(), Ok("XX".to_string()));
    assert_eq!(cursor.next_int(), Ok(5));
}

#[test]
fn bad_key_fails_first() {
    let mut cursor = behind_name(vec![bulk(b"SET"), bulk(&[0xff]), bulk(b"v")]);
    assert_eq!(
        SetCmd::parse_frame(&mut cursor),
        Err(ParseError::Protocol(Violation::InvalidUtf8))
    );
    assert_eq!(cursor.next_string(), Ok("v".to_string()));

    let r = parse(vec![bulk(b"SET"), Frame::Integer(1), bulk(b"v")]);
    assert_eq!(r, Err(ParseError::Protocol(Violation::WrongKind)));
}

#[test]
fn bad_modifier_is_passed_on() {
    let r = parse(vec![bulk(b"SET"), bulk(b"k"), bulk(b"v"), bulk(&[0xc3, 0x28])]);
    assert_eq!(r, Err(ParseError::Protocol(Violation::InvalidUtf8)));
    let r = parse(vec![bulk(b"SET"), bulk(b"k"), bulk(b"v"), Frame::Integer(5)]);
    assert_eq!(r, Err(ParseError::Protocol(Violation::WrongKind)));
}

#[test]
fn bad_number_is_passed_on() {
    let r = parse(vec![bulk(b"SET"), bulk(b"k"), bulk(b"v"), bulk(b"EX"), bulk(b"soon")]);
    assert_eq!(r, Err(ParseError::NotANumber));
    let r = parse(vec![bulk(b"SET"), bulk(b"k"), bulk(b"v"), bulk(b"PX"), bulk(b"-1")]);
    assert_eq!(r, Err(ParseError::NotANumber));
    let r = parse(vec![bulk(b"SET"), bulk(b"k"), bulk(b"v"), bulk(b"PX"), bulk(b"18446744073709551616")]);
    assert_eq!(r, Err(ParseError::NotANumber));
    let r = parse(vec![bulk(b"SET"), bulk(b"k"), bulk(b"v"), bulk(b"EX"), Frame::Integer(-5)]);
    assert_eq!(r, Err(ParseError::NotANumber));
    let r = parse(vec![bulk(b"SET"), bulk(b"k"), bulk(b"v"), bulk(b"EX"), Frame::Null]);
    assert_eq!(r, Err(ParseError::Protocol(Violation::WrongKind)));
    let r = parse(vec![bulk(b"SET"), bulk(b"k"), bulk(b"v"), bulk(b"EX"), bulk(&[0xff])]);
    assert_eq!(r, Err(ParseError::Protocol(Violation::InvalidUtf8)));
}

#[test]
fn a_count_may_come_as_an_integer() {
    let cmd = parse(vec![bulk(b"SET"), bulk(b"k"), bulk(b"v"), bulk(b"EX"), Frame::Integer(5)]).unwrap();
    assert_eq!(cmd.expire(), Some(Ttl::from_secs(5)));
    let cmd = parse(vec![bulk(b"set"), bulk(b"k"), bulk(b"v"), bulk(b"px"), Frame::Integer(5000)]).unwrap();
    assert_eq!(cmd.expire(), Some(Ttl::from_secs(5)));
}

#[test]
fn what_follows_the_command_is_left_unread() {
    let mut cursor = behind_name(vec![
        bulk(b"SET"),
        bulk(b"k"),
        bulk(b"v"),
        bulk(b"PX"),
        bulk(b"10"),
        bulk(b"more"),
    ]);
    let cmd = SetCmd::parse_frame(&mut cursor).unwrap();
    assert_eq!(cmd.expire(), Some(Ttl::from_millis(10)));
    assert_eq!(cursor.next_string(), Ok("more".to_string()));
    assert_eq!(cursor.next_string(), Err(ParseError::EndOfStream));
}

#[test]
fn simple_strings_serve_as_arguments() {
    let cmd = parse(vec![
        Frame::Simple("SET".to_string()),
        Frame::Simple("k\u{e9}y".to_string()),
        Frame::Simple("v\u{e5}l".to_string()),
        Frame::Simple("ex".to_string()),
        Frame::Simple("3".to_string()),
    ])
    .unwrap();
    assert_eq!(cmd.key(), "k\u{e9}y");
    assert_eq!(&cmd.value()[..], "v\u{e5}l".as_bytes());
    assert_eq!(cmd.expire(), Some(Ttl::from_secs(3)));
}

#[test]
fn new_keeps_what_it_is_given() {
    let cmd = SetCmd::new("name", Bytes::from_static(b"\x01\x02"), Some(Ttl::new(1, 2).unwrap()));
    assert_eq!(cmd.key(), "name");
    assert_eq!(cmd.value(), &Bytes::from_static(b"\x01\x02"));
    assert_eq!(cmd.expire(), Some(Ttl::new(1, 2).unwrap()));

    let cmd = SetCmd::new("", Bytes::new(), None);
    assert_eq!(cmd.key(), "");
    assert!(cmd.value().is_empty());
    assert_eq!(cmd.expire(), None);
}
