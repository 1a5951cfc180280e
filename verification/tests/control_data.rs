//! Control data, and the numbers in it.

use kitty_graphics::control::parse_control_data;
use kitty_graphics::text::{
    decimal_chars, parse_i32, parse_u32, parse_u8, parse_unsigned, parse_usize, push_decimal,
};
use kitty_graphics::types::{KittyAction, KittyControlData, KittyFormat, TransmissionMedium};

fn parse(data: &str) -> KittyControlData {
    match parse_control_data(data.as_bytes()) {
        Ok(control) => control,
        Err(()) => panic!("{} is no control data", data),
    }
}

fn chars(text: &str) -> Vec<char> {
    text.chars().collect()
}

#[test]
fn no_keys_give_the_defaults() {
    for control in [parse(""), KittyControlData::default(), parse(",,,")] {
        assert_eq!(control.action, KittyAction::TransmitPut);
        assert_eq!(control.format, KittyFormat::Rgba32);
        assert_eq!(control.transmission, TransmissionMedium::Direct);
        assert_eq!(control.image_id, None);
        assert_eq!(control.image_number, None);
        assert_eq!(control.placement_id, None);
        assert_eq!(control.width, None);
        assert_eq!(control.height, None);
        assert_eq!(control.data_size, None);
        assert_eq!(control.data_offset, None);
        assert!(!control.more_data);
        assert_eq!(control.compression, None);
        assert_eq!(control.quiet, 0);
        assert_eq!(control.display_x, None);
        assert_eq!(control.display_y, None);
        assert_eq!(control.display_width, None);
        assert_eq!(control.display_height, None);
        assert_eq!(control.columns, None);
        assert_eq!(control.rows, None);
        assert_eq!(control.z_index, None);
        assert_eq!(control.delete_type, None);
        assert!(!control.cursor_movement);
    }
    assert_eq!(KittyAction::default(), KittyAction::TransmitPut);
    assert_eq!(KittyFormat::default(), KittyFormat::Rgba32);
    assert_eq!(TransmissionMedium::default(), TransmissionMedium::Direct);
}

#[test]
fn every_key_sets_its_field() {
    let control = parse(
        "a=p,f=24,t=f,i=1,I=2,p=3,s=4,v=5,S=6,O=7,m=1,o=z,q=2,x=8,y=9,w=10,h=11,c=12,r=13,z=-14,d=i,C=1",
    );
    assert_eq!(control.action, KittyAction::Put);
    assert_eq!(control.format, KittyFormat::Rgb24);
    assert_eq!(control.transmission, TransmissionMedium::File);
    assert_eq!(control.image_id, Some(1));
    assert_eq!(control.image_number, Some(2));
    assert_eq!(control.placement_id, Some(3));
    assert_eq!(control.width, Some(4));
    assert_eq!(control.height, Some(5));
    assert_eq!(control.data_size, Some(6));
    assert_eq!(control.data_offset, Some(7));
    assert!(control.more_data);
    assert_eq!(control.compression, Some('z'));
    assert_eq!(control.quiet, 2);
    assert_eq!(control.display_x, Some(8));
    assert_eq!(control.display_y, Some(9));
    assert_eq!(control.display_width, Some(10));
    assert_eq!(control.display_height, Some(11));
    assert_eq!(control.columns, Some(12));
    assert_eq!(control.rows, Some(13));
    assert_eq!(control.z_index, Some(-14));
    assert_eq!(control.delete_type, Some('i'));
    assert!(control.cursor_movement);
}

#[test]
fn every_action_has_its_letter() {
    assert_eq!(parse("a=t").action, KittyAction::Transmit);
    assert_eq!(parse("a=T").action, KittyAction::TransmitPut);
    assert_eq!(parse("a=q").action, KittyAction::Query);
    assert_eq!(parse("a=p").action, KittyAction::Put);
    assert_eq!(parse("a=d").action, KittyAction::Delete);
    assert_eq!(parse("a=f").action, KittyAction::Frame);
    assert_eq!(parse("a=a").action, KittyAction::Animation);
    assert_eq!(parse("a=c").action, KittyAction::Compose);
    assert_eq!(parse("a=d,a=nonsense").action, KittyAction::TransmitPut);
    assert_eq!(parse("a=d,a").action, KittyAction::TransmitPut);
}

#[test]
fn every_format_has_its_number() {
    assert_eq!(parse("f=24").format, KittyFormat::Rgb24);
    assert_eq!(parse("f=32").format, KittyFormat::Rgba32);
    assert_eq!(parse("f=100").format, KittyFormat::Png);
    assert_eq!(parse("f=24,f=25").format, KittyFormat::Rgba32);
    assert_eq!(parse("f=024").format, KittyFormat::Rgba32);
}

#[test]
fn every_medium_has_its_letter() {
    assert_eq!(parse("t=d").transmission, TransmissionMedium::Direct);
    assert_eq!(parse("t=f").transmission, TransmissionMedium::File);
    assert_eq!(parse("t=t").transmission, TransmissionMedium::TempFile);
    assert_eq!(parse("t=s").transmission, TransmissionMedium::SharedMemory);
    assert_eq!(parse("t=f,t=x").transmission, TransmissionMedium::Direct);
}

#[test]
fn unknown_keys_are_ignored() {
    let control = parse("k=1,ii=2,=3,i=4,ä=5,J,a b=6");
    assert_eq!(control.image_id, Some(4));
    assert_eq!(control.action, KittyAction::TransmitPut);
}

#[test]
fn later_keys_win() {
    assert_eq!(parse("i=1,i=2").image_id, Some(2));
    assert_eq!(parse("i=1,i=").image_id, None);
    assert_eq!(parse("m=1,m=0").more_data, false);
}

#[test]
fn lists_join() {
    let joined = parse("i=1,s=2,i=3,v=4");
    assert_eq!(joined.image_id, Some(3));
    assert_eq!(joined.width, Some(2));
    assert_eq!(joined.height, Some(4));
}

#[test]
fn a_value_begins_at_the_first_equals_sign() {
    assert_eq!(parse("o==").compression, Some('='));
    assert_eq!(parse("i=1=2").image_id, None);
    assert_eq!(parse("o=").compression, None);
    assert_eq!(parse("d=xyz").delete_type, Some('x'));
    assert_eq!(parse("d=äb").delete_type, Some('ä'));
}

#[test]
fn flags_are_set_by_one_only() {
    assert!(parse("m=1").more_data);
    assert!(!parse("m=01").more_data);
    assert!(!parse("m=2").more_data);
    assert!(!parse("m").more_data);
    assert!(parse("C=1").cursor_movement);
    assert!(!parse("C=0").cursor_movement);
}

#[test]
fn a_quiet_mode_is_at_most_two() {
    assert_eq!(parse("q=0").quiet, 0);
    assert_eq!(parse("q=1").quiet, 1);
    assert_eq!(parse("q=2").quiet, 2);
    assert_eq!(parse("q=3").quiet, 2);
    assert_eq!(parse("q=7").quiet, 2);
    assert_eq!(parse("q=255").quiet, 2);
    // What is no number of one byte is zero.
    assert_eq!(parse("q=256").quiet, 0);
    assert_eq!(parse("q=2,q=x").quiet, 0);
}

#[test]
fn text_that_is_not_utf8_is_refused() {
    assert!(parse_control_data(b"a=t,\xc3\x28").is_err());
    assert!(parse_control_data(b"\xff").is_err());
    assert!(parse_control_data("a=t,ö=1".as_bytes()).is_ok());
}

#[test]
fn numbers_read_as_rust_reads_them() {
    for text in [
        "", "0", "7", "+7", "-7", "-0", "+", "-", "++1", "+-1", " 1", "1 ", "007", "12a", "0x1", "255", "256",
        "4294967295", "4294967296", "2147483647", "2147483648", "-2147483648", "-2147483649",
        "18446744073709551615", "18446744073709551616", "99999999999999999999999999", "\u{0661}",
    ] {
        let c = chars(text);
        assert_eq!(parse_u8(&c), text.parse::<u8>().ok(), "u8 {}", text);
        assert_eq!(parse_u32(&c), text.parse::<u32>().ok(), "u32 {}", text);
        assert_eq!(parse_usize(&c), text.parse::<usize>().ok(), "usize {}", text);
        assert_eq!(parse_i32(&c), text.parse::<i32>().ok(), "i32 {}", text);
    }
    assert_eq!(parse_unsigned(&chars("100"), 99), None);
    assert_eq!(parse_unsigned(&chars("+99"), 99), Some(99));
}

#[test]
fn numbers_read_back() {
    for n in [0u64, 9, 10, 99, 100, 4096, 4294967295, 18446744073709551615] {
        let digits = decimal_chars(n);
        assert_eq!(digits.iter().collect::<String>(), n.to_string());
        assert_eq!(parse_unsigned(&digits, u64::MAX), Some(n));
    }
    let mut text = String::from("n=");
    push_decimal(&mut text, 1205);
    assert_eq!(text, "n=1205");
}
