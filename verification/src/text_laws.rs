//! What the text of a command means: numbers, keys and the frame around them.

use crate::apc::{
    continues, framed, idle_parser, is_terminator, lemma_framed_command_is_read, run, AdvanceView,
    ApcParseState, ParserView, BEL, ESC,
};
use crate::codec::ascii_bytes;
use crate::control::{lemma_prefix_len_is, with_list};
use crate::output::{chunk, chunk_count, chunk_sequence, kitty_output, Drawing};
use crate::reply::ok_response;
use crate::roundtrip::{chunk_commands, commands, lemma_item, lemma_output_reads_back, printable};
use crate::text::{
    decimal, digits_value, is_digit, lemma_decimal_reads_back, signed_number, unsigned_number,
};
use crate::types::{
    default_control, CommandView, KittyAction, KittyControlData, KittyFormat, TransmissionMedium,
};
use vstd::prelude::*;
use vstd::utf8::{decode_utf8, valid_utf8};

verus! {

// ---------------------------------------------------------------------------------------
// Numbers

/// Numbers are written as everyone writes them: a number below ten as its digit, and any other
/// as the number of its tens followed by the digit of its ones.
pub proof fn lemma_decimal_is_positional(n: nat, d: nat)
    requires
        d < 10,
    ensures
        decimal(d).len() == 1,
        decimal(d)[0] as nat == '0' as nat + d,
        n > 0 ==> decimal(10 * n + d) == decimal(n) + decimal(d),
{
    if n > 0 {
        assert((10 * n + d) / 10 == n);
        assert((10 * n + d) % 10 == d);
        assert(decimal(10 * n + d) =~= decimal(n) + decimal(d));
    }
}

/// A digit behind a number that reads as `n` makes it ten times as large and adds the digit; a
/// zero before it, or a plus sign before a number without a sign, makes no difference.
pub proof fn lemma_reading_is_positional(s: Seq<char>, n: nat, d: nat, max: nat)
    requires
        d < 10,
        s.len() > 0,
        is_digit(s[0]),
        unsigned_number(s, max) == Some(n),
    ensures
        10 * n + d <= max ==> unsigned_number(s + decimal(d), max) == Some(10 * n + d),
        10 * n + d > max ==> unsigned_number(s + decimal(d), max) is None,
        unsigned_number(seq!['0'] + s, max) == Some(n),
        unsigned_number(seq!['+'] + s, max) == Some(n),
{
    let digit = decimal(d)[0];
    let longer = s + decimal(d);
    assert(decimal(d) =~= seq![digit]);
    assert(longer.drop_last() =~= s);
    assert(longer.last() == digit);
    assert(is_digit(digit));
    assert forall|i: int| 0 <= i < longer.len() implies is_digit(#[trigger] longer[i]) by {
        if i < s.len() {
            assert(is_digit(s[i]));
        }
    }
    assert(digits_value(longer) == 10 * n + d);
    lemma_leading_zero(s);
    let zero = seq!['0'] + s;
    assert forall|i: int| 0 <= i < zero.len() implies is_digit(#[trigger] zero[i]) by {
        if i > 0 {
            assert(is_digit(s[i - 1]));
        }
    }
    assert((seq!['+'] + s).skip(1) =~= s);
}

proof fn lemma_leading_zero(s: Seq<char>)
    ensures
        digits_value(seq!['0'] + s) == digits_value(s),
    decreases s.len(),
{
    let zero = seq!['0'] + s;
    if s.len() == 0 {
        assert(zero.drop_last() =~= Seq::<char>::empty());
        assert(digits_value(zero.drop_last()) == 0);
    } else {
        lemma_leading_zero(s.drop_last());
        assert(zero.drop_last() =~= seq!['0'] + s.drop_last());
    }
}

/// Digits that are too large a number stay too large with one more digit.
pub proof fn lemma_too_large_stays_too_large(s: Seq<char>, d: nat, max: nat)
    requires
        d < 10,
        s.len() > 0,
        forall|i: int| 0 <= i < s.len() ==> '0' <= #[trigger] s[i] && s[i] <= '9',
        unsigned_number(s, max) is None,
    ensures
        unsigned_number(s + decimal(d), max) is None,
{
    let longer = s + decimal(d);
    assert(decimal(d) =~= seq![decimal(d)[0]]);
    assert(longer.drop_last() =~= s);
    assert forall|i: int| 0 <= i < s.len() implies is_digit(#[trigger] s[i]) by {
    }
    assert('0' <= s[0] && s[0] <= '9');
    assert(longer[0] == s[0]);
}

/// What holds anything but digits, behind one sign at most, is no number, nor is nothing.
pub proof fn lemma_other_text_is_no_number(s: Seq<char>, i: int, max: nat)
    requires
        0 <= i < s.len(),
        !('0' <= s[i] && s[i] <= '9'),
        i > 0 || (s[0] != '+' && s[0] != '-'),
    ensures
        unsigned_number(s, max) is None,
        signed_number(s) is None,
        unsigned_number(seq!['-'] + s, max) is None,
        unsigned_number(Seq::empty(), max) is None,
        signed_number(Seq::empty()) is None,
        unsigned_number(seq!['+'], max) is None,
        signed_number(seq!['+']) is None,
        signed_number(seq!['-']) is None,
{
    assert(seq!['+'].skip(1) =~= Seq::empty());
    assert(seq!['-'].skip(1) =~= Seq::empty());
    assert(!is_digit(s[i]));
    if i > 0 {
        assert(s.skip(1)[i - 1] == s[i]);
    }
    let negative = seq!['-'] + s;
    assert(!is_digit(negative[0]));
}

/// A number with a minus sign is its negative, down to the least there is; without one it is
/// itself, up to the greatest.
pub proof fn lemma_signed_numbers_read_back(n: nat)
    ensures
        n <= i32::MAX ==> signed_number(decimal(n)) == Some(n as int),
        n > i32::MAX ==> signed_number(decimal(n)) is None,
        -n >= i32::MIN ==> signed_number(seq!['-'] + decimal(n)) == Some(-n),
        -n < i32::MIN ==> signed_number(seq!['-'] + decimal(n)) is None,
{
    lemma_decimal_reads_back(n, n);
    let digits = decimal(n);
    assert(is_digit(digits[0]));
    assert((seq!['-'] + digits).skip(1) =~= digits);
}

/// A number that is larger than the largest one that is asked for is none.
pub proof fn lemma_large_numbers_are_none(n: nat, max: nat)
    requires
        n > max,
    ensures
        unsigned_number(decimal(n), max) is None,
{
    lemma_decimal_reads_back(n, n);
    assert(is_digit(decimal(n)[0]));
}

proof fn lemma_digits_are_no_separators(n: nat)
    ensures
        !decimal(n).contains(','),
{
    lemma_decimal_reads_back(n, n);
    assert forall|i: int| 0 <= i < decimal(n).len() implies decimal(n)[i] != ',' by {
        assert(is_digit(decimal(n)[i]));
    }
}

// ---------------------------------------------------------------------------------------
// Keys

/// Each of these keys sets its own field to the number behind it, whichever it is, and no other
/// field: the size of an image and its size on the screen.
pub proof fn lemma_size_keys(control: KittyControlData, n: usize)
    ensures
        with_list(control, seq!['s', '='] + decimal(n as nat)) == (KittyControlData {
            width: Some(n),
            ..control
        }),
        with_list(control, seq!['v', '='] + decimal(n as nat)) == (KittyControlData {
            height: Some(n),
            ..control
        }),
        with_list(control, seq!['w', '='] + decimal(n as nat)) == (KittyControlData {
            display_width: Some(n),
            ..control
        }),
        with_list(control, seq!['h', '='] + decimal(n as nat)) == (KittyControlData {
            display_height: Some(n),
            ..control
        }),
{
    lemma_decimal_reads_back(n as nat, usize::MAX as nat);
    lemma_digits_are_no_separators(n as nat);
    lemma_item(control, 's', decimal(n as nat));
    lemma_item(control, 'v', decimal(n as nat));
    lemma_item(control, 'w', decimal(n as nat));
    lemma_item(control, 'h', decimal(n as nat));
}

/// The same for a point of the screen and for cells.
pub proof fn lemma_place_keys(control: KittyControlData, n: usize)
    ensures
        with_list(control, seq!['x', '='] + decimal(n as nat)) == (KittyControlData {
            display_x: Some(n),
            ..control
        }),
        with_list(control, seq!['y', '='] + decimal(n as nat)) == (KittyControlData {
            display_y: Some(n),
            ..control
        }),
        with_list(control, seq!['c', '='] + decimal(n as nat)) == (KittyControlData {
            columns: Some(n),
            ..control
        }),
        with_list(control, seq!['r', '='] + decimal(n as nat)) == (KittyControlData {
            rows: Some(n),
            ..control
        }),
{
    lemma_decimal_reads_back(n as nat, usize::MAX as nat);
    lemma_digits_are_no_separators(n as nat);
    lemma_item(control, 'x', decimal(n as nat));
    lemma_item(control, 'y', decimal(n as nat));
    lemma_item(control, 'c', decimal(n as nat));
    lemma_item(control, 'r', decimal(n as nat));
}

/// The same for the extent of the data.
pub proof fn lemma_data_keys(control: KittyControlData, n: usize)
    ensures
        with_list(control, seq!['S', '='] + decimal(n as nat)) == (KittyControlData {
            data_size: Some(n),
            ..control
        }),
        with_list(control, seq!['O', '='] + decimal(n as nat)) == (KittyControlData {
            data_offset: Some(n),
            ..control
        }),
{
    lemma_decimal_reads_back(n as nat, usize::MAX as nat);
    lemma_digits_are_no_separators(n as nat);
    lemma_item(control, 'S', decimal(n as nat));
    lemma_item(control, 'O', decimal(n as nat));
}

/// The same for ids.
pub proof fn lemma_id_keys(control: KittyControlData, n: u32)
    ensures
        with_list(control, seq!['i', '='] + decimal(n as nat)) == (KittyControlData {
            image_id: Some(n),
            ..control
        }),
        with_list(control, seq!['I', '='] + decimal(n as nat)) == (KittyControlData {
            image_number: Some(n),
            ..control
        }),
        with_list(control, seq!['p', '='] + decimal(n as nat)) == (KittyControlData {
            placement_id: Some(n),
            ..control
        }),
{
    lemma_decimal_reads_back(n as nat, u32::MAX as nat);
    lemma_digits_are_no_separators(n as nat);
    lemma_item(control, 'i', decimal(n as nat));
    lemma_item(control, 'I', decimal(n as nat));
    lemma_item(control, 'p', decimal(n as nat));
}

/// Whatever stands behind such a key, the field is the number that it spells, or none, also if the
/// field was set before.
pub proof fn lemma_size_keys_take_numbers(control: KittyControlData, value: Seq<char>)
    requires
        !value.contains(','),
    ensures
        ({
            let number = match unsigned_number(value, usize::MAX as nat) {
                Some(n) => Some(n as usize),
                None => None,
            };
            &&& with_list(control, seq!['s', '='] + value) == (KittyControlData {
                width: number,
                ..control
            })
            &&& with_list(control, seq!['v', '='] + value) == (KittyControlData {
                height: number,
                ..control
            })
            &&& with_list(control, seq!['w', '='] + value) == (KittyControlData {
                display_width: number,
                ..control
            })
            &&& with_list(control, seq!['h', '='] + value) == (KittyControlData {
                display_height: number,
                ..control
            })
        }),
{
    lemma_item(control, 's', value);
    lemma_item(control, 'v', value);
    lemma_item(control, 'w', value);
    lemma_item(control, 'h', value);
}

/// The same for a point of the screen and for cells.
pub proof fn lemma_place_keys_take_numbers(control: KittyControlData, value: Seq<char>)
    requires
        !value.contains(','),
    ensures
        ({
            let number = match unsigned_number(value, usize::MAX as nat) {
                Some(n) => Some(n as usize),
                None => None,
            };
            &&& with_list(control, seq!['x', '='] + value) == (KittyControlData {
                display_x: number,
                ..control
            })
            &&& with_list(control, seq!['y', '='] + value) == (KittyControlData {
                display_y: number,
                ..control
            })
            &&& with_list(control, seq!['c', '='] + value) == (KittyControlData {
                columns: number,
                ..control
            })
            &&& with_list(control, seq!['r', '='] + value) == (KittyControlData {
                rows: number,
                ..control
            })
        }),
{
    lemma_item(control, 'x', value);
    lemma_item(control, 'y', value);
    lemma_item(control, 'c', value);
    lemma_item(control, 'r', value);
}

/// The same for the extent of the data.
pub proof fn lemma_data_keys_take_numbers(control: KittyControlData, value: Seq<char>)
    requires
        !value.contains(','),
    ensures
        ({
            let number = match unsigned_number(value, usize::MAX as nat) {
                Some(n) => Some(n as usize),
                None => None,
            };
            &&& with_list(control, seq!['S', '='] + value) == (KittyControlData {
                data_size: number,
                ..control
            })
            &&& with_list(control, seq!['O', '='] + value) == (KittyControlData {
                data_offset: number,
                ..control
            })
        }),
{
    lemma_item(control, 'S', value);
    lemma_item(control, 'O', value);
}

/// The same for ids.
pub proof fn lemma_id_keys_take_numbers(control: KittyControlData, value: Seq<char>)
    requires
        !value.contains(','),
    ensures
        ({
            let number = match unsigned_number(value, u32::MAX as nat) {
                Some(n) => Some(n as u32),
                None => None,
            };
            &&& with_list(control, seq!['i', '='] + value) == (KittyControlData {
                image_id: number,
                ..control
            })
            &&& with_list(control, seq!['I', '='] + value) == (KittyControlData {
                image_number: number,
                ..control
            })
            &&& with_list(control, seq!['p', '='] + value) == (KittyControlData {
                placement_id: number,
                ..control
            })
        }),
{
    lemma_item(control, 'i', value);
    lemma_item(control, 'I', value);
    lemma_item(control, 'p', value);
}

/// The same for the z-index, which may have a minus sign, and for the quiet mode, which is 0
/// where there is no number.
pub proof fn lemma_other_keys_take_numbers(control: KittyControlData, value: Seq<char>)
    requires
        !value.contains(','),
    ensures
        ({
            let number = match signed_number(value) {
                Some(n) => Some(n as i32),
                None => None,
            };
            with_list(control, seq!['z', '='] + value) == (KittyControlData {
                z_index: number,
                ..control
            })
        }),
        unsigned_number(value, u8::MAX as nat) is None ==> with_list(
            control,
            seq!['q', '='] + value,
        ) == (KittyControlData { quiet: 0, ..control }),
{
    lemma_item(control, 'z', value);
    lemma_item(control, 'q', value);
}

/// An empty item says nothing.
pub proof fn lemma_empty_item_says_nothing(control: KittyControlData)
    ensures
        with_list(control, Seq::empty()) == control,
{
}

/// A key without `=` is a key with nothing behind it.
pub proof fn lemma_bare_key_has_no_value(control: KittyControlData, key: char)
    requires
        key != ',',
        key != '=',
    ensures
        with_list(control, seq![key]) == with_list(control, seq![key, '=']),
{
    lemma_item(control, key, Seq::empty());
    assert(seq![key, '='] + Seq::<char>::empty() =~= seq![key, '=']);
    assert(seq![key][0] == key);
    lemma_prefix_len_is(seq![key], ',', 1);
    lemma_prefix_len_is(seq![key], '=', 1);
}

/// A z-index is any `i32`, with a minus sign or without.
pub proof fn lemma_z_index_key(control: KittyControlData, n: i32)
    ensures
        n >= 0 ==> with_list(control, seq!['z', '='] + decimal(n as nat)) == (KittyControlData {
            z_index: Some(n),
            ..control
        }),
        n <= 0 ==> with_list(control, seq!['z', '='] + (seq!['-'] + decimal((-n) as nat))) == (
        KittyControlData { z_index: Some(n), ..control }),
{
    let m = if n >= 0 {
        n as nat
    } else {
        (-n) as nat
    };
    lemma_signed_numbers_read_back(m);
    lemma_digits_are_no_separators(m);
    let negative = seq!['-'] + decimal(m);
    assert forall|i: int| 0 <= i < negative.len() implies negative[i] != ',' by {
        if i > 0 {
            assert(negative[i] == decimal(m)[i - 1]);
            assert(decimal(m).contains(decimal(m)[i - 1]));
        }
    }
    lemma_item(control, 'z', decimal(m));
    lemma_item(control, 'z', negative);
}

/// A quiet mode is the number behind its key, but at most 2.
pub proof fn lemma_quiet_key(control: KittyControlData, n: u8)
    ensures
        with_list(control, seq!['q', '='] + decimal(n as nat)) == (KittyControlData {
            quiet: if n <= 2 {
                n
            } else {
                2
            },
            ..control
        }),
{
    lemma_decimal_reads_back(n as nat, u8::MAX as nat);
    lemma_digits_are_no_separators(n as nat);
    lemma_item(control, 'q', decimal(n as nat));
}

/// The flags are set by `1` and cleared by anything else.
pub proof fn lemma_flag_keys(control: KittyControlData, value: Seq<char>)
    requires
        !value.contains(','),
    ensures
        with_list(control, seq!['m', '='] + value) == (KittyControlData {
            more_data: value.len() == 1 && value[0] == '1',
            ..control
        }),
        with_list(control, seq!['C', '='] + value) == (KittyControlData {
            cursor_movement: value.len() == 1 && value[0] == '1',
            ..control
        }),
{
    lemma_item(control, 'm', value);
    lemma_item(control, 'C', value);
    assert(value == seq!['1'] <==> value.len() == 1 && value[0] == '1') by {
        if value.len() == 1 && value[0] == '1' {
            assert(value =~= seq!['1']);
        }
    }
}

/// The compression and the kind of a deletion are the first character behind their keys, if
/// there is one.
pub proof fn lemma_letter_keys(control: KittyControlData, letter: char, rest: Seq<char>)
    requires
        letter != ',',
        !rest.contains(','),
    ensures
        with_list(control, seq!['o', '='] + (seq![letter] + rest)) == (KittyControlData {
            compression: Some(letter),
            ..control
        }),
        with_list(control, seq!['d', '='] + (seq![letter] + rest)) == (KittyControlData {
            delete_type: Some(letter),
            ..control
        }),
        with_list(control, seq!['o', '=']) == (KittyControlData { compression: None, ..control }),
        with_list(control, seq!['d', '=']) == (KittyControlData { delete_type: None, ..control }),
{
    lemma_item(control, 'o', Seq::empty());
    lemma_item(control, 'd', Seq::empty());
    assert(seq!['o', '='] + Seq::<char>::empty() =~= seq!['o', '=']);
    assert(seq!['d', '='] + Seq::<char>::empty() =~= seq!['d', '=']);
    let value = seq![letter] + rest;
    assert forall|i: int| 0 <= i < value.len() implies value[i] != ',' by {
        if i > 0 {
            assert(value[i] == rest[i - 1]);
            assert(rest.contains(rest[i - 1]));
        }
    }
    lemma_item(control, 'o', value);
    lemma_item(control, 'd', value);
}

/// The letters of the actions.
pub open spec fn action_letters() -> Seq<(char, KittyAction)> {
    seq![
        ('t', KittyAction::Transmit),
        ('T', KittyAction::TransmitPut),
        ('q', KittyAction::Query),
        ('p', KittyAction::Put),
        ('d', KittyAction::Delete),
        ('f', KittyAction::Frame),
        ('a', KittyAction::Animation),
        ('c', KittyAction::Compose),
    ]
}

/// Each letter stands for its action; any other text stands for the default.
pub proof fn lemma_action_key(control: KittyControlData, value: Seq<char>, i: int)
    requires
        !value.contains(','),
        0 <= i < action_letters().len(),
    ensures
        with_list(control, seq!['a', '='] + seq![action_letters()[i].0]) == (KittyControlData {
            action: action_letters()[i].1,
            ..control
        }),
        (forall|k: int|
            0 <= k < action_letters().len() ==> !(value.len() == 1 && value[0] == (
            #[trigger] action_letters()[k]).0)) ==> with_list(control, seq!['a', '='] + value) == (
        KittyControlData { action: KittyAction::TransmitPut, ..control }),
{
    let table = action_letters();
    let letter = table[i].0;
    assert(seq![letter][0] == letter);
    lemma_item(control, 'a', seq![letter]);
    lemma_item(control, 'a', value);
    assert(seq!['t'][0] == 't' && seq!['q'][0] == 'q' && seq!['p'][0] == 'p' && seq!['d'][0] == 'd'
        && seq!['f'][0] == 'f' && seq!['a'][0] == 'a' && seq!['c'][0] == 'c');
    assert(table[0].0 == 't' && table[2].0 == 'q' && table[3].0 == 'p' && table[4].0 == 'd'
        && table[5].0 == 'f' && table[6].0 == 'a' && table[7].0 == 'c');
}

/// The letters of the media.
pub open spec fn medium_letters() -> Seq<(char, TransmissionMedium)> {
    seq![
        ('d', TransmissionMedium::Direct),
        ('f', TransmissionMedium::File),
        ('t', TransmissionMedium::TempFile),
        ('s', TransmissionMedium::SharedMemory),
    ]
}

/// Each letter stands for its medium; any other text stands for the default.
pub proof fn lemma_medium_key(control: KittyControlData, value: Seq<char>, i: int)
    requires
        !value.contains(','),
        0 <= i < medium_letters().len(),
    ensures
        with_list(control, seq!['t', '='] + seq![medium_letters()[i].0]) == (KittyControlData {
            transmission: medium_letters()[i].1,
            ..control
        }),
        (forall|k: int|
            0 <= k < medium_letters().len() ==> !(value.len() == 1 && value[0] == (
            #[trigger] medium_letters()[k]).0)) ==> with_list(control, seq!['t', '='] + value) == (
        KittyControlData { transmission: TransmissionMedium::Direct, ..control }),
{
    let table = medium_letters();
    let letter = table[i].0;
    assert(seq![letter][0] == letter);
    lemma_item(control, 't', seq![letter]);
    lemma_item(control, 't', value);
    assert(seq!['f'][0] == 'f' && seq!['t'][0] == 't' && seq!['s'][0] == 's');
    assert(table[1].0 == 'f' && table[2].0 == 't' && table[3].0 == 's');
}

/// The numbers of the formats; any other text stands for the default.
pub proof fn lemma_format_key(control: KittyControlData, value: Seq<char>)
    requires
        !value.contains(','),
    ensures
        with_list(control, seq!['f', '='] + value) == (KittyControlData {
            format: if value == decimal(24) {
                KittyFormat::Rgb24
            } else if value == decimal(100) {
                KittyFormat::Png
            } else {
                KittyFormat::Rgba32
            },
            ..control
        }),
{
    lemma_item(control, 'f', value);
    lemma_decimal_is_positional(2, 4);
    lemma_decimal_is_positional(1, 0);
    lemma_decimal_is_positional(10, 0);
    assert(decimal(2) =~= seq!['2']);
    assert(decimal(4) =~= seq!['4']);
    assert(decimal(1) =~= seq!['1']);
    assert(decimal(0) =~= seq!['0']);
    assert(decimal(24) =~= seq!['2', '4']);
    assert(decimal(100) =~= seq!['1', '0', '0']);
}

// ---------------------------------------------------------------------------------------
// Frames

/// What is framed is read as a command with just its payload and the meaning of its control
/// data, if that is text, and as an error if it is not; either way nothing of it is left.
pub proof fn lemma_frame_is_read(control: Seq<u8>, payload: Seq<u8>, end: Seq<u8>)
    requires
        forall|i: int|
            0 <= i < control.len() ==> #[trigger] control[i] != ESC && control[i] != BEL
                && control[i] != 0x3B,
        forall|i: int|
            0 <= i < payload.len() ==> #[trigger] payload[i] != ESC && payload[i] != BEL,
        end == seq![0x1Bu8, 0x5Cu8] || end == seq![0x07u8],
    ensures
        ({
            let bytes = seq![0x1Bu8, 0x5Fu8, 0x47u8] + control + seq![0x3Bu8] + payload + end;
            let read = run(idle_parser(), bytes);
            &&& read.0 == idle_parser()
            &&& read.1.len() == bytes.len()
            &&& forall|i: int| 0 <= i < bytes.len() - 1 ==> #[trigger] read.1[i]
                == AdvanceView::Continue
            &&& valid_utf8(control) ==> read.1.last() == AdvanceView::Complete(
                CommandView {
                    control: with_list(default_control(), decode_utf8(control)),
                    payload,
                },
            )
            &&& !valid_utf8(control) ==> read.1.last() == AdvanceView::Error
        }),
{
    assert(is_terminator(end));
    lemma_framed_command_is_read(control, payload, end);
    assert(framed(control, payload, end) =~= seq![0x1Bu8, 0x5Fu8, 0x47u8] + control
        + seq![0x3Bu8] + payload + end);
}

/// An escape in the control data that does not begin the terminator ends the control data: it
/// and the byte behind it begin the payload.
pub proof fn lemma_lone_escape_begins_the_payload(control: Seq<u8>, byte: u8)
    requires
        byte != 0x5C,
    ensures
        run(
            ParserView { state: ApcParseState::ApcParam, control, ..idle_parser() },
            seq![ESC, byte],
        ) == (
            ParserView {
                state: ApcParseState::ApcPassthrough,
                control,
                payload: seq![ESC, byte],
                ..idle_parser()
            },
            continues(2),
        ),
{
    reveal_with_fuel(run, 3);
    let parser = ParserView { state: ApcParseState::ApcParam, control, ..idle_parser() };
    let bytes = seq![ESC, byte];
    assert(bytes.drop_last() == seq![ESC]);
    assert(bytes.drop_last().drop_last() == Seq::<u8>::empty());
    let (last, results) = run(parser, bytes);
    assert(last.payload =~= seq![ESC, byte]);
    assert(results =~= continues(2));
}

/// An escape that does not begin an APC is forwarded together with the byte behind it, whatever
/// that is; so is the beginning of an APC of another kind.
pub proof fn lemma_other_escapes_are_forwarded(byte: u8)
    ensures
        byte != 0x5F ==> run(idle_parser(), seq![0x1Bu8, byte]) == (
            idle_parser(),
            seq![AdvanceView::Continue, AdvanceView::NotApc(seq![0x1Bu8, byte])],
        ),
        byte != 0x47 ==> run(idle_parser(), seq![0x1Bu8, 0x5Fu8, byte]) == (
            idle_parser(),
            seq![
                AdvanceView::Continue,
                AdvanceView::Continue,
                AdvanceView::NotApc(seq![0x1Bu8, 0x5Fu8, byte]),
            ],
        ),
{
    reveal_with_fuel(run, 4);
    let two = seq![0x1Bu8, byte];
    let three = seq![0x1Bu8, 0x5Fu8, byte];
    assert(two.drop_last() =~= seq![0x1Bu8]);
    assert(two.drop_last().drop_last() =~= Seq::<u8>::empty());
    assert(three.drop_last() =~= seq![0x1Bu8, 0x5Fu8]);
    assert(three.drop_last().drop_last() =~= seq![0x1Bu8]);
    assert(three.drop_last().drop_last().drop_last() =~= Seq::<u8>::empty());
    if byte != 0x5F {
        let (last, results) = run(idle_parser(), two);
        assert(last =~= idle_parser());
        assert(results[1]->NotApc_0 =~= two);
        assert(results =~= seq![AdvanceView::Continue, AdvanceView::NotApc(two)]);
    }
    if byte != 0x47 {
        let (last, results) = run(idle_parser(), three);
        assert(last =~= idle_parser());
        assert(results[2]->NotApc_0 =~= three);
        assert(results =~= seq![
            AdvanceView::Continue,
            AdvanceView::Continue,
            AdvanceView::NotApc(three),
        ]);
    }
}

// ---------------------------------------------------------------------------------------
// What is written

/// The answer for an image is `ESC _ G i=` and the id, `;OK` and the terminator.
pub proof fn lemma_response_text(id: u32)
    ensures
        ok_response(id) == seq![0x1Bu8, 0x5Fu8, 0x47u8, 0x69u8, 0x3Du8] + ascii_bytes(
            decimal(id as nat),
        ) + seq![0x3Bu8, 0x4Fu8, 0x4Bu8, 0x1Bu8, 0x5Cu8],
{
    assert(ok_response(id) =~= seq![0x1Bu8, 0x5Fu8, 0x47u8, 0x69u8, 0x3Du8] + ascii_bytes(
        decimal(id as nat),
    ) + seq![0x3Bu8, 0x4Fu8, 0x4Bu8, 0x1Bu8, 0x5Cu8]);
}

/// How the data of a drawing is spread over its sequences, for `n` sequences: each but the last
/// carries 4096 characters, the last carries the rest, in order, and each says whether another
/// follows. The first one says which image it is and how large it is and is shown; the others
/// say nothing else.
pub proof fn lemma_output_is_spread_over_sequences(drawing: Drawing, data: Seq<char>, n: int)
    requires
        printable(data),
        (n - 1) * 4096 < data.len() <= n * 4096,
    ensures
        ({
            let cmds = commands(
                run(idle_parser(), ascii_bytes(kitty_output(drawing, data))).1,
            );
            &&& cmds.len() == n
            &&& forall|i: int|
                0 <= i < n ==> (#[trigger] cmds[i]).payload.len() == (if i + 1 < n {
                    4096int
                } else {
                    data.len() - i * 4096
                })
            &&& forall|i: int, j: int|
                0 <= i < n && 0 <= j < cmds[i].payload.len() ==> #[trigger] cmds[i].payload[j]
                    == data[i * 4096 + j] as u8
            &&& forall|i: int|
                0 < i < n ==> (#[trigger] cmds[i]).control == (KittyControlData {
                    more_data: i + 1 < n,
                    ..default_control()
                })
            &&& n > 0 ==> cmds[0].control == (KittyControlData {
                action: KittyAction::TransmitPut,
                format: KittyFormat::Rgba32,
                transmission: TransmissionMedium::Direct,
                image_id: Some(drawing.image_id),
                width: Some(drawing.source_width),
                height: Some(drawing.source_height),
                display_width: Some(drawing.display_width),
                display_height: Some(drawing.display_height),
                more_data: 1 < n,
                ..default_control()
            })
        }),
{
    lemma_output_reads_back(drawing, data);
    assert(chunk_count(data.len()) == n);
    let cmds = chunk_commands(drawing, data, chunk_count(data.len()));
    assert forall|i: int| 0 <= i < n implies (#[trigger] cmds[i]).payload.len() == (if i + 1 < n {
        4096int
    } else {
        data.len() - i * 4096
    }) by {
        assert(cmds[i].payload.len() == chunk(data, i).len());
    }
    assert forall|i: int, j: int|
        0 <= i < n && 0 <= j < cmds[i].payload.len() implies #[trigger] cmds[i].payload[j]
        == data[i * 4096 + j] as u8 by {
        assert(cmds[i].payload[j] == chunk(data, i)[j] as u8);
    }
}

/// Without data there is nothing to write.
pub proof fn lemma_no_data_is_no_output(drawing: Drawing)
    ensures
        kitty_output(drawing, Seq::empty()).len() == 0,
{
}

/// The first sequence of a drawing, character for character.
pub proof fn lemma_first_sequence_text(drawing: Drawing, data: Seq<char>, flag: char, n: int)
    requires
        data.len() > 4096 ==> flag == '1' && n == 4096,
        0 < data.len() <= 4096 ==> flag == '0' && n == data.len(),
        data.len() > 0,
    ensures
        chunk_sequence(drawing, data, 0) == seq!['\x1b', '_', 'G'] + (seq![
            'a', '=', 'T', ',', 'f', '=', '3', '2',
        ] + (seq![',', 's', '='] + decimal(drawing.source_width as nat)) + (seq![',', 'v', '=']
            + decimal(drawing.source_height as nat)) + (seq![',', 'w', '='] + decimal(
            drawing.display_width as nat,
        )) + (seq![',', 'h', '='] + decimal(drawing.display_height as nat)) + (seq![',', 'i', '=']
            + decimal(drawing.image_id as nat)) + (seq![',', 'm', '='] + seq![flag])) + seq![';']
            + data.take(n) + seq!['\x1b', '\\'],
{
    assert(decimal(1) =~= seq!['1']);
    assert(decimal(0) =~= seq!['0']);
    assert((data.len() > 4096) == (1 < chunk_count(data.len())));
    assert(chunk(data, 0) =~= data.take(n));
}

/// Any other sequence of a drawing, character for character.
pub proof fn lemma_later_sequence_text(drawing: Drawing, data: Seq<char>, i: int)
    requires
        0 < i,
        i * 4096 < data.len(),
    ensures
        ({
            let more = data.len() > (i + 1) * 4096;
            chunk_sequence(drawing, data, i) == seq![
                '\x1b', '_', 'G', 'm', '=', if more { '1' } else { '0' }, ';',
            ] + data.subrange(
                i * 4096,
                if more { (i + 1) * 4096 } else { data.len() as int },
            ) + seq!['\x1b', '\\']
        }),
{
    assert(decimal(1) =~= seq!['1']);
    assert(decimal(0) =~= seq!['0']);
    let more = data.len() > (i + 1) * 4096;
    assert(more == (i + 1 < chunk_count(data.len())));
    assert(chunk_sequence(drawing, data, i) =~= seq![
        '\x1b', '_', 'G', 'm', '=', if more { '1' } else { '0' }, ';',
    ] + data.subrange(i * 4096, if more { (i + 1) * 4096 } else { data.len() as int }) + seq![
        '\x1b', '\\',
    ]);
}

} // verus!
