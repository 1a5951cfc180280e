//! The parser for escape sequences.

use kitty_graphics::apc::{ApcAdvanceResult, ApcParseState, KittyApcParser};
use kitty_graphics::types::{KittyAction, KittyCommand, KittyFormat};

/// Feeds all bytes; the commands, the forwarded bytes and the number of errors.
fn feed(parser: &mut KittyApcParser, bytes: &[u8]) -> (Vec<KittyCommand>, Vec<u8>, usize) {
    let mut commands = Vec::new();
    let mut forwarded = Vec::new();
    let mut errors = 0;
    for byte in bytes {
        match parser.advance(*byte) {
            ApcAdvanceResult::Continue => assert!(parser.is_parsing()),
            ApcAdvanceResult::Complete(command) => {
                assert!(!parser.is_parsing());
                commands.push(command);
            }
            ApcAdvanceResult::NotApc(bytes) => {
                assert!(!parser.is_parsing());
                forwarded.extend(bytes);
            }
            ApcAdvanceResult::Error => {
                assert!(!parser.is_parsing());
                errors += 1;
            }
        }
    }
    (commands, forwarded, errors)
}

#[test]
fn parser_starts_idle() {
    assert!(!KittyApcParser::default().is_parsing());
    assert_eq!(ApcParseState::default(), ApcParseState::Ground);
}

#[test]
fn plain_text_is_forwarded() {
    let mut parser = KittyApcParser::default();
    let (commands, forwarded, errors) = feed(&mut parser, b"hello;G_\\\n");
    assert!(commands.is_empty());
    assert_eq!(forwarded, b"hello;G_\\\n");
    assert_eq!(errors, 0);
}

#[test]
fn other_escape_sequences_are_forwarded() {
    let mut parser = KittyApcParser::default();
    let bytes = b"\x1b[31mred\x1b]0;t\x07\x1b_Xabc\x1b\\";
    let (commands, forwarded, errors) = feed(&mut parser, bytes);
    assert!(commands.is_empty());
    assert_eq!(forwarded, bytes);
    assert_eq!(errors, 0);
}

#[test]
fn an_unknown_apc_gives_back_its_introducer() {
    let mut parser = KittyApcParser::default();
    assert!(matches!(parser.advance(0x1B), ApcAdvanceResult::Continue));
    assert!(matches!(parser.advance(b'_'), ApcAdvanceResult::Continue));
    match parser.advance(b'X') {
        ApcAdvanceResult::NotApc(bytes) => assert_eq!(bytes, vec![0x1B, b'_', b'X']),
        _ => panic!("expected bytes to forward"),
    }
}

#[test]
fn a_trailing_escape_is_held_back() {
    let mut parser = KittyApcParser::default();
    let (_, forwarded, _) = feed(&mut parser, b"ab\x1b");
    assert_eq!(forwarded, b"ab");
    assert!(parser.is_parsing());
    let (_, forwarded, _) = feed(&mut parser, b"c");
    assert_eq!(forwarded, b"\x1bc");
}

#[test]
fn two_escapes_are_forwarded_together() {
    let mut parser = KittyApcParser::default();
    let (_, forwarded, _) = feed(&mut parser, b"\x1b\x1b_G");
    assert_eq!(forwarded, b"\x1b\x1b_G");
    assert!(!parser.is_parsing());
}

#[test]
fn a_command_ends_with_a_string_terminator() {
    let mut parser = KittyApcParser::default();
    let (commands, forwarded, errors) = feed(&mut parser, b"x\x1b_Ga=t,f=100,i=7;QUJD\x1b\\y");
    assert_eq!(commands.len(), 1);
    assert_eq!(commands[0].control.action, KittyAction::Transmit);
    assert_eq!(commands[0].control.format, KittyFormat::Png);
    assert_eq!(commands[0].control.image_id, Some(7));
    assert_eq!(commands[0].payload, b"QUJD");
    assert_eq!(forwarded, b"xy");
    assert_eq!(errors, 0);
}

#[test]
fn a_command_ends_with_a_bell() {
    let mut parser = KittyApcParser::default();
    let (commands, _, _) = feed(&mut parser, b"\x1b_Ga=p,i=3;AA\x07\x1b_Ga=d\x07");
    assert_eq!(commands.len(), 2);
    assert_eq!(commands[0].control.action, KittyAction::Put);
    assert_eq!(commands[0].payload, b"AA");
    assert_eq!(commands[1].control.action, KittyAction::Delete);
    assert!(commands[1].payload.is_empty());
}

#[test]
fn a_command_needs_no_payload() {
    let mut parser = KittyApcParser::default();
    let (commands, _, _) = feed(&mut parser, b"\x1b_Ga=q,i=31\x1b\\");
    assert_eq!(commands.len(), 1);
    assert_eq!(commands[0].control.action, KittyAction::Query);
    assert_eq!(commands[0].control.image_id, Some(31));
    assert!(commands[0].payload.is_empty());
}

#[test]
fn a_lone_escape_is_part_of_the_payload() {
    let mut parser = KittyApcParser::default();
    let (commands, _, _) = feed(&mut parser, b"\x1b_Ga=t;ab\x1bcd;e\x1b\\");
    assert_eq!(commands.len(), 1);
    assert_eq!(commands[0].payload, b"ab\x1bcd;e");
}

#[test]
fn an_escape_in_the_control_data_begins_the_payload() {
    let mut parser = KittyApcParser::default();
    let (commands, _, _) = feed(&mut parser, b"\x1b_Gi=5\x1bX,a=d\x1b\\");
    assert_eq!(commands.len(), 1);
    assert_eq!(commands[0].control.image_id, Some(5));
    assert_eq!(commands[0].control.action, KittyAction::TransmitPut);
    assert_eq!(commands[0].payload, b"\x1bX,a=d");
}

#[test]
fn control_data_that_is_not_text_is_an_error() {
    let mut parser = KittyApcParser::default();
    let (commands, forwarded, errors) = feed(&mut parser, b"\x1b_Ga=\xff\x1b\\ok\x1b_Gi=2\x07");
    assert_eq!(errors, 1);
    assert_eq!(forwarded, b"ok");
    assert_eq!(commands.len(), 1);
    assert_eq!(commands[0].control.image_id, Some(2));
}

#[test]
fn bytes_may_come_in_any_pieces() {
    let bytes = b"\x1b_Ga=T,i=9;Zm9v\x1b\\";
    for split in 0..bytes.len() {
        let mut parser = KittyApcParser::default();
        let (first, _, _) = feed(&mut parser, &bytes[..split]);
        assert!(first.is_empty());
        let (second, _, _) = feed(&mut parser, &bytes[split..]);
        assert_eq!(second.len(), 1);
        assert_eq!(second[0].control.image_id, Some(9));
        assert_eq!(second[0].payload, b"Zm9v");
    }
}

#[test]
fn reset_forgets_what_was_read() {
    let mut parser = KittyApcParser::default();
    feed(&mut parser, b"\x1b_Gi=4;abc");
    assert!(parser.is_parsing());
    parser.reset();
    assert!(!parser.is_parsing());
    let (commands, forwarded, _) = feed(&mut parser, b"d\x1b_Gi=6;e\x07");
    assert_eq!(forwarded, b"d");
    assert_eq!(commands.len(), 1);
    assert_eq!(commands[0].control.image_id, Some(6));
    assert_eq!(commands[0].payload, b"e");
}

#[test]
fn a_parsed_quiet_mode_is_at_most_two() {
    let mut parser = KittyApcParser::default();
    let (commands, _, _) = feed(&mut parser, b"\x1b_Gq=9\x07\x1b_Gq=1\x07\x1b_Gq=x\x07");
    let modes: Vec<u8> = commands.iter().map(|c| c.control.quiet).collect();
    assert_eq!(modes, vec![2, 1, 0]);
}
