//! The control data of a command: a list such as `a=T,f=100,i=1`.

use crate::text::{parse_i32, parse_u32, parse_u8, parse_usize, signed_number, unsigned_number};
use crate::types::{
    default_control, KittyAction, KittyControlData, KittyFormat, TransmissionMedium,
};
use vstd::prelude::*;
use vstd::slice::slice_subrange;
use vstd::utf8::{decode_utf8, valid_utf8};

verus! {

/// The text that a byte string encodes in UTF-8: `std::str::from_utf8`, which accepts
/// UTF-8 and nothing else, and gives a string of the very bytes.
#[verifier::external_body]
pub(crate) fn utf8_str(bytes: &[u8]) -> (text: Option<&str>)
    ensures
        match text {
            Some(text) => valid_utf8(bytes@) && text@ == decode_utf8(bytes@),
            None => !valid_utf8(bytes@),
        },
{
    std::str::from_utf8(bytes).ok()
}

/// How many characters of `text` come before the first `sep`, or before its end.
pub open spec fn prefix_len(text: Seq<char>, sep: char) -> nat
    decreases text.len(),
{
    if text.len() == 0 || text[0] == sep {
        0
    } else {
        1 + prefix_len(text.skip(1), sep)
    }
}

/// The action that a value of the key `a` names.
pub open spec fn action_of(value: Seq<char>) -> KittyAction {
    if value == seq!['t'] {
        KittyAction::Transmit
    } else if value == seq!['q'] {
        KittyAction::Query
    } else if value == seq!['p'] {
        KittyAction::Put
    } else if value == seq!['d'] {
        KittyAction::Delete
    } else if value == seq!['f'] {
        KittyAction::Frame
    } else if value == seq!['a'] {
        KittyAction::Animation
    } else if value == seq!['c'] {
        KittyAction::Compose
    } else {
        KittyAction::TransmitPut
    }
}

/// The format that a value of the key `f` names.
pub open spec fn format_of(value: Seq<char>) -> KittyFormat {
    if value == seq!['2', '4'] {
        KittyFormat::Rgb24
    } else if value == seq!['1', '0', '0'] {
        KittyFormat::Png
    } else {
        KittyFormat::Rgba32
    }
}

/// The medium that a value of the key `t` names.
pub open spec fn medium_of(value: Seq<char>) -> TransmissionMedium {
    if value == seq!['f'] {
        TransmissionMedium::File
    } else if value == seq!['t'] {
        TransmissionMedium::TempFile
    } else if value == seq!['s'] {
        TransmissionMedium::SharedMemory
    } else {
        TransmissionMedium::Direct
    }
}

/// A value read as a `u32`.
pub open spec fn u32_of(value: Seq<char>) -> Option<u32> {
    match unsigned_number(value, u32::MAX as nat) {
        Some(n) => Some(n as u32),
        None => None,
    }
}

/// A value read as a `usize`.
pub open spec fn usize_of(value: Seq<char>) -> Option<usize> {
    match unsigned_number(value, usize::MAX as nat) {
        Some(n) => Some(n as usize),
        None => None,
    }
}

/// A value read as a quiet mode, from 0 to 2: a larger `u8` is taken for 2, and what is no
/// `u8` for 0.
pub open spec fn quiet_of(value: Seq<char>) -> u8 {
    match unsigned_number(value, u8::MAX as nat) {
        Some(n) => if n < 2 {
            n as u8
        } else {
            2
        },
        None => 0,
    }
}

/// A value read as an `i32`.
pub open spec fn i32_of(value: Seq<char>) -> Option<i32> {
    match signed_number(value) {
        Some(n) => Some(n as i32),
        None => None,
    }
}

/// The first character of a value.
pub open spec fn first_char_of(value: Seq<char>) -> Option<char> {
    if value.len() > 0 {
        Some(value[0])
    } else {
        None
    }
}

/// The control data after `key=value`. An unknown key changes nothing.
pub open spec fn with_key(
    control: KittyControlData,
    key: Seq<char>,
    value: Seq<char>,
) -> KittyControlData {
    if key.len() != 1 {
        control
    } else {
        match key[0] {
            'a' => KittyControlData { action: action_of(value), ..control },
            'f' => KittyControlData { format: format_of(value), ..control },
            't' => KittyControlData { transmission: medium_of(value), ..control },
            'i' => KittyControlData { image_id: u32_of(value), ..control },
            'I' => KittyControlData { image_number: u32_of(value), ..control },
            'p' => KittyControlData { placement_id: u32_of(value), ..control },
            's' => KittyControlData { width: usize_of(value), ..control },
            'v' => KittyControlData { height: usize_of(value), ..control },
            'S' => KittyControlData { data_size: usize_of(value), ..control },
            'O' => KittyControlData { data_offset: usize_of(value), ..control },
            'm' => KittyControlData { more_data: value == seq!['1'], ..control },
            'o' => KittyControlData { compression: first_char_of(value), ..control },
            'q' => KittyControlData { quiet: quiet_of(value), ..control },
            'x' => KittyControlData { display_x: usize_of(value), ..control },
            'y' => KittyControlData { display_y: usize_of(value), ..control },
            'w' => KittyControlData { display_width: usize_of(value), ..control },
            'h' => KittyControlData { display_height: usize_of(value), ..control },
            'c' => KittyControlData { columns: usize_of(value), ..control },
            'r' => KittyControlData { rows: usize_of(value), ..control },
            'z' => KittyControlData { z_index: i32_of(value), ..control },
            'd' => KittyControlData { delete_type: first_char_of(value), ..control },
            'C' => KittyControlData { cursor_movement: value == seq!['1'], ..control },
            _ => control,
        }
    }
}

/// The control data after one item of the list. The key ends at the first `=`, or with
/// the item, whose value is then empty.
pub open spec fn with_pair(control: KittyControlData, pair: Seq<char>) -> KittyControlData {
    let split = prefix_len(pair, '=') as int;
    if split < pair.len() {
        with_key(control, pair.take(split), pair.skip(split + 1))
    } else {
        with_key(control, pair, Seq::empty())
    }
}

/// The control data after each item of a comma-separated list, from left to right.
pub open spec fn with_list(control: KittyControlData, list: Seq<char>) -> KittyControlData
    decreases list.len(),
{
    let split = prefix_len(list, ',') as int;
    if split < list.len() {
        with_list(with_pair(control, list.take(split)), list.skip(split + 1))
    } else {
        with_pair(control, list)
    }
}

/// The control data that a byte string gives, if it is UTF-8.
pub open spec fn control_of(data: Seq<u8>) -> Option<KittyControlData> {
    if valid_utf8(data) {
        Some(with_list(default_control(), decode_utf8(data)))
    } else {
        None
    }
}

/// What [`prefix_len`] finds.
pub proof fn lemma_prefix_len(text: Seq<char>, sep: char)
    ensures
        prefix_len(text, sep) <= text.len(),
        forall|i: int| 0 <= i < prefix_len(text, sep) ==> text[i] != sep,
        prefix_len(text, sep) < text.len() ==> text[prefix_len(text, sep) as int] == sep,
    decreases text.len(),
{
    if text.len() > 0 && text[0] != sep {
        let rest = text.skip(1);
        lemma_prefix_len(rest, sep);
        assert forall|i: int| 0 <= i < prefix_len(text, sep) implies text[i] != sep by {
            if i > 0 {
                assert(text[i] == rest[i - 1]);
            }
        }
    }
}

/// [`prefix_len`] is the only place that fits its description.
pub proof fn lemma_prefix_len_is(text: Seq<char>, sep: char, n: int)
    requires
        0 <= n <= text.len(),
        forall|i: int| 0 <= i < n ==> text[i] != sep,
        n < text.len() ==> text[n] == sep,
    ensures
        prefix_len(text, sep) == n,
{
    lemma_prefix_len(text, sep);
    let m = prefix_len(text, sep) as int;
    if m < n {
        assert(text[m] != sep);
    }
}

/// The characters of a UTF-8 byte string.
fn utf8_chars(data: &[u8]) -> (chars: Option<Vec<char>>)
    ensures
        match chars {
            Some(chars) => valid_utf8(data@) && chars@ == decode_utf8(data@),
            None => !valid_utf8(data@),
        },
{
    match utf8_str(data) {
        None => None,
        Some(text) => {
            let mut chars: Vec<char> = Vec::new();
            for c in it: text.chars()
                invariant
                    it.seq() == text@,
                    chars@ == text@.take(it.index() as int),
            {
                chars.push(c);
                assert(text@.take(it.index() + 1) == text@.take(it.index() as int).push(c));
            }
            assert(text@.take(text@.len() as int) == text@);
            Some(chars)
        },
    }
}

/// Where the first `sep` of `text` stands, or its length.
fn find(text: &[char], sep: char) -> (at: usize)
    ensures
        at == prefix_len(text@, sep),
        at <= text@.len(),
{
    let mut i: usize = 0;
    while i < text.len() && text[i] != sep
        invariant
            i <= text@.len(),
            forall|j: int| 0 <= j < i ==> text@[j] != sep,
        decreases text@.len() - i,
    {
        i += 1;
    }
    proof {
        lemma_prefix_len_is(text@, sep, i as int);
    }
    i
}

/// Whether `value` is the one character `c`.
fn is_char(value: &[char], c: char) -> (r: bool)
    ensures
        r == (value@ == seq![c]),
{
    let r = value.len() == 1 && value[0] == c;
    assert(r == (value@ =~= seq![c]));
    r
}

fn action(value: &[char]) -> (action: KittyAction)
    ensures
        action == action_of(value@),
{
    if is_char(value, 't') {
        KittyAction::Transmit
    } else if is_char(value, 'q') {
        KittyAction::Query
    } else if is_char(value, 'p') {
        KittyAction::Put
    } else if is_char(value, 'd') {
        KittyAction::Delete
    } else if is_char(value, 'f') {
        KittyAction::Frame
    } else if is_char(value, 'a') {
        KittyAction::Animation
    } else if is_char(value, 'c') {
        KittyAction::Compose
    } else {
        KittyAction::TransmitPut
    }
}

fn format(value: &[char]) -> (format: KittyFormat)
    ensures
        format == format_of(value@),
{
    let rgb24 = value.len() == 2 && value[0] == '2' && value[1] == '4';
    let png = value.len() == 3 && value[0] == '1' && value[1] == '0' && value[2] == '0';
    assert(rgb24 == (value@ =~= seq!['2', '4']));
    assert(png == (value@ =~= seq!['1', '0', '0']));
    if rgb24 {
        KittyFormat::Rgb24
    } else if png {
        KittyFormat::Png
    } else {
        KittyFormat::Rgba32
    }
}

fn medium(value: &[char]) -> (medium: TransmissionMedium)
    ensures
        medium == medium_of(value@),
{
    if is_char(value, 'f') {
        TransmissionMedium::File
    } else if is_char(value, 't') {
        TransmissionMedium::TempFile
    } else if is_char(value, 's') {
        TransmissionMedium::SharedMemory
    } else {
        TransmissionMedium::Direct
    }
}

fn first_char(value: &[char]) -> (c: Option<char>)
    ensures
        c == first_char_of(value@),
{
    if value.len() > 0 {
        Some(value[0])
    } else {
        None
    }
}

fn quiet(value: &[char]) -> (quiet: u8)
    ensures
        quiet == quiet_of(value@),
{
    match parse_u8(value) {
        Some(n) => if n < 2 {
            n
        } else {
            2
        },
        None => 0,
    }
}

/// Sets the field that `key` names.
fn set_key(control: &mut KittyControlData, key: &[char], value: &[char])
    ensures
        *final(control) == with_key(*old(control), key@, value@),
{
    if key.len() != 1 {
        return;
    }
    match key[0] {
        'a' => control.action = action(value),
        'f' => control.format = format(value),
        't' => control.transmission = medium(value),
        'i' => control.image_id = parse_u32(value),
        'I' => control.image_number = parse_u32(value),
        'p' => control.placement_id = parse_u32(value),
        's' => control.width = parse_usize(value),
        'v' => control.height = parse_usize(value),
        'S' => control.data_size = parse_usize(value),
        'O' => control.data_offset = parse_usize(value),
        'm' => control.more_data = is_char(value, '1'),
        'o' => control.compression = first_char(value),
        'q' => control.quiet = quiet(value),
        'x' => control.display_x = parse_usize(value),
        'y' => control.display_y = parse_usize(value),
        'w' => control.display_width = parse_usize(value),
        'h' => control.display_height = parse_usize(value),
        'c' => control.columns = parse_usize(value),
        'r' => control.rows = parse_usize(value),
        'z' => control.z_index = parse_i32(value),
        'd' => control.delete_type = first_char(value),
        'C' => control.cursor_movement = is_char(value, '1'),
        _ => {},
    }
}

/// Applies one item of the list.
fn set_pair(control: &mut KittyControlData, pair: &[char])
    ensures
        *final(control) == with_pair(*old(control), pair@),
{
    let split = find(pair, '=');
    if split < pair.len() {
        let key = slice_subrange(pair, 0, split);
        let value = slice_subrange(pair, split + 1, pair.len());
        assert(key@ == pair@.take(split as int));
        assert(value@ == pair@.skip(split + 1));
        set_key(control, key, value);
    } else {
        let value = slice_subrange(pair, split, split);
        assert(value@ == Seq::<char>::empty());
        set_key(control, pair, value);
    }
}

/// The two ways in which a list goes on.
proof fn lemma_with_list_step(control: KittyControlData, list: Seq<char>)
    ensures
        prefix_len(list, ',') < list.len() ==> with_list(control, list) == with_list(
            with_pair(control, list.take(prefix_len(list, ',') as int)),
            list.skip(prefix_len(list, ',') as int + 1),
        ),
        prefix_len(list, ',') >= list.len() ==> with_list(control, list) == with_pair(
            control,
            list,
        ),
{
}

/// Applies each item of the list.
fn set_list(control: &mut KittyControlData, list: &[char])
    ensures
        *final(control) == with_list(*old(control), list@),
{
    let ghost goal = with_list(*control, list@);
    let mut rest: &[char] = list;
    let mut split = find(rest, ',');
    while split < rest.len()
        invariant
            split == prefix_len(rest@, ','),
            split <= rest@.len(),
            with_list(*control, rest@) == goal,
        decreases rest@.len(),
    {
        proof {
            lemma_with_list_step(*control, rest@);
        }
        let pair = slice_subrange(rest, 0, split);
        let tail = slice_subrange(rest, split + 1, rest.len());
        assert(pair@ == rest@.take(split as int));
        assert(tail@ == rest@.skip(split + 1));
        set_pair(control, pair);
        rest = tail;
        split = find(rest, ',');
    }
    proof {
        lemma_with_list_step(*control, rest@);
    }
    set_pair(control, rest);
}

/// Parse control data string like "a=T,f=100,i=1"
pub fn parse_control_data(data: &[u8]) -> (control: Result<KittyControlData, ()>)
    ensures
        match control {
            Ok(control) => control_of(data@) == Some(control) && control.quiet <= 2,
            Err(_) => control_of(data@) is None,
        },
{
    proof {
        lemma_quiet_is_bounded(data@);
    }
    let chars = match utf8_chars(data) {
        Some(chars) => chars,
        None => return Err(()),
    };
    let mut control = KittyControlData::default();
    set_list(&mut control, chars.as_slice());
    Ok(control)
}

proof fn lemma_list_keeps_quiet_bounded(control: KittyControlData, list: Seq<char>)
    requires
        control.quiet <= 2,
    ensures
        with_list(control, list).quiet <= 2,
    decreases list.len(),
{
    let split = prefix_len(list, ',') as int;
    if split < list.len() {
        lemma_list_keeps_quiet_bounded(with_pair(control, list.take(split)), list.skip(split + 1));
    }
}

/// The quiet mode of control data is 0, 1 or 2, whatever the text says.
pub proof fn lemma_quiet_is_bounded(data: Seq<u8>)
    ensures
        control_of(data) matches Some(control) ==> control.quiet <= 2,
{
    if valid_utf8(data) {
        lemma_list_keeps_quiet_bounded(default_control(), decode_utf8(data));
    }
}

/// The keys that the protocol gives a meaning.
pub open spec fn is_known_key(key: Seq<char>) -> bool {
    &&& key.len() == 1
    &&& seq![
        'a', 'f', 't', 'i', 'I', 'p', 's', 'v', 'S', 'O', 'm', 'o', 'q', 'x', 'y', 'w', 'h', 'c',
        'r', 'z', 'd', 'C',
    ].contains(key[0])
}

/// Unknown keys are ignored per protocol: an item with such a key, with or without a value,
/// leaves the control data as it is.
pub proof fn lemma_unknown_key_is_ignored(
    control: KittyControlData,
    key: Seq<char>,
    value: Seq<char>,
)
    requires
        !is_known_key(key),
        !key.contains('='),
    ensures
        with_pair(control, key) == control,
        with_pair(control, key + seq!['='] + value) == control,
{
    let known = seq![
        'a', 'f', 't', 'i', 'I', 'p', 's', 'v', 'S', 'O', 'm', 'o', 'q', 'x', 'y', 'w', 'h', 'c',
        'r', 'z', 'd', 'C',
    ];
    if key.len() == 1 {
        assert(forall|i: int| 0 <= i < known.len() ==> known[i] != key[0]);
        assert(known[0] != key[0] && known[1] != key[0] && known[2] != key[0] && known[3] != key[0]
            && known[4] != key[0] && known[5] != key[0] && known[6] != key[0] && known[7] != key[0]
            && known[8] != key[0] && known[9] != key[0] && known[10] != key[0] && known[11]
            != key[0] && known[12] != key[0] && known[13] != key[0] && known[14] != key[0]
            && known[15] != key[0] && known[16] != key[0] && known[17] != key[0] && known[18]
            != key[0] && known[19] != key[0] && known[20] != key[0] && known[21] != key[0]);
    }
    let pair = key + seq!['='] + value;
    let n = key.len() as int;
    assert forall|i: int| 0 <= i < n implies key[i] != '=' && pair[i] != '=' by {
        assert(pair[i] == key[i]);
    }
    lemma_prefix_len_is(key, '=', n);
    lemma_prefix_len_is(pair, '=', n);
    assert(pair.take(n) == key);
}

/// Of two items with one key, the later one counts.
pub proof fn lemma_later_key_wins(
    control: KittyControlData,
    key: Seq<char>,
    earlier: Seq<char>,
    later: Seq<char>,
)
    ensures
        with_key(with_key(control, key, earlier), key, later) == with_key(control, key, later),
{
    let twice = with_key(with_key(control, key, earlier), key, later);
    let once = with_key(control, key, later);
    if key.len() == 1 {
        match key[0] {
            'a' => assert(twice == once),
            'f' => assert(twice == once),
            't' => assert(twice == once),
            'i' => assert(twice == once),
            'I' => assert(twice == once),
            'p' => assert(twice == once),
            's' => assert(twice == once),
            'v' => assert(twice == once),
            'S' => assert(twice == once),
            'O' => assert(twice == once),
            'm' => assert(twice == once),
            'o' => assert(twice == once),
            'q' => assert(twice == once),
            'x' => assert(twice == once),
            'y' => assert(twice == once),
            'w' => assert(twice == once),
            'h' => assert(twice == once),
            'c' => assert(twice == once),
            'r' => assert(twice == once),
            'z' => assert(twice == once),
            'd' => assert(twice == once),
            'C' => assert(twice == once),
            _ => assert(twice == once),
        }
    }
}

/// A list is read item by item: two lists joined by a comma have the effect of the first
/// list followed by that of the second.
pub proof fn lemma_lists_join(control: KittyControlData, first: Seq<char>, second: Seq<char>)
    ensures
        with_list(control, first + seq![','] + second) == with_list(
            with_list(control, first),
            second,
        ),
    decreases first.len(),
{
    let whole = first + seq![','] + second;
    let n = prefix_len(first, ',') as int;
    lemma_prefix_len(first, ',');
    assert forall|i: int| 0 <= i < n implies whole[i] != ',' by {
        assert(whole[i] == first[i]);
    }
    lemma_prefix_len_is(whole, ',', n);
    lemma_with_list_step(control, first);
    lemma_with_list_step(control, whole);
    assert(whole.take(n) == first.take(n));
    if n < first.len() {
        assert(whole.skip(n + 1) == first.skip(n + 1) + seq![','] + second);
        lemma_lists_join(with_pair(control, first.take(n)), first.skip(n + 1), second);
    } else {
        assert(first.take(n) == first);
        assert(whole.skip(n + 1) == second);
    }
}

} // verus!
