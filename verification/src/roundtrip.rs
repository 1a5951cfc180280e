//! What is written can be read: the sequences that draw an image give that image to whoever
//! parses them.

use crate::apc::{
    continues, forwarded, framed, idle_parser, is_terminator,
    lemma_framed_command_is_read, lemma_run_concat, run, AdvanceView, BEL, ESC,
};
use crate::codec::{ascii_bytes, base64_bytes, base64_text, lemma_base64_reads_back};
use crate::control::{
    control_of, lemma_lists_join, lemma_prefix_len_is, with_key, with_list,
};
use crate::decode::OutOfRange;
use crate::grid::{
    between_transmissions, command_step, empty_grid, placed, placement_id_for, transmits, GridView,
    OutcomeView, StepView,
};
use crate::laws::{
    joined_payload, lemma_chunked_image_is_one_image, lemma_chunks_are_collected, run_commands,
};
use crate::output::{
    chunk, chunk_count, chunk_sequence, first_control, kitty_output, lemma_base64_is_printable,
    more_flag, next_control, number_item, sequence, sequences, Drawing, CHUNK_SIZE,
};
use crate::placements::{
    is_free_placement_id, lemma_free_placement_id, lemma_without_absent,
};
use crate::reply::ok_response;
use crate::store::{
    covers, lemma_region_is_a_crop, lemma_row_parts_fit, region, serialized, smaller,
};
use crate::text::{decimal, is_digit, lemma_decimal_reads_back};
use crate::types::{
    default_control, CommandView, ImageView, KittyControlData, KittyPlacement, PixelRect,
    SizeInPixels,
};
use vstd::prelude::*;
use vstd::utf8::{
    encode_utf8, encode_utf8_decode_utf8, encode_utf8_valid_utf8, is_ascii_chars,
    is_ascii_chars_encode_utf8,
};

verus! {

/// Whether a text holds printable ASCII characters only.
pub open spec fn printable(text: Seq<char>) -> bool {
    forall|i: int| 0 <= i < text.len() ==> ' ' < #[trigger] text[i] && text[i] <= '~'
}

/// Whether a text can stand as control data: it is printable and holds no `;`.
pub open spec fn plain(text: Seq<char>) -> bool {
    printable(text) && forall|i: int| 0 <= i < text.len() ==> #[trigger] text[i] != ';'
}

proof fn lemma_plain_join(a: Seq<char>, b: Seq<char>)
    requires
        plain(a),
        plain(b),
    ensures
        plain(a + b),
{
    let whole = a + b;
    assert forall|i: int| 0 <= i < whole.len() implies ' ' < #[trigger] whole[i] && whole[i] <= '~'
        && whole[i] != ';' by {
        if i < a.len() {
            assert(whole[i] == a[i]);
        } else {
            assert(whole[i] == b[i - a.len()]);
        }
    }
}

proof fn lemma_decimal_is_plain(n: nat)
    ensures
        plain(decimal(n)),
        !decimal(n).contains(','),
{
    lemma_decimal_reads_back(n, n);
    let digits = decimal(n);
    assert forall|i: int| 0 <= i < digits.len() implies ' ' < #[trigger] digits[i] && digits[i]
        <= '~' && digits[i] != ';' && digits[i] != ',' by {
        assert(is_digit(digits[i]));
    }
}

/// An item of a list sets its key.
pub proof fn lemma_item(control: KittyControlData, key: char, value: Seq<char>)
    requires
        key != ',',
        key != '=',
        !value.contains(','),
    ensures
        with_list(control, seq![key, '='] + value) == with_key(control, seq![key], value),
{
    let item = seq![key, '='] + value;
    assert forall|i: int| 0 <= i < item.len() implies item[i] != ',' by {
        if i >= 2 {
            assert(item[i] == value[i - 2]);
            assert(value.contains(value[i - 2]));
        }
    }
    lemma_prefix_len_is(item, ',', item.len() as int);
    lemma_prefix_len_is(item, '=', 1);
    assert(item.take(1) == seq![key]);
    assert(item.skip(2) == value);
}

/// A number behind a list sets its key.
proof fn lemma_number_item(control: KittyControlData, list: Seq<char>, key: char, n: nat)
    requires
        key != ',',
        key != '=',
    ensures
        with_list(control, list + number_item(key, n)) == with_key(
            with_list(control, list),
            seq![key],
            decimal(n),
        ),
{
    let item = seq![key, '='] + decimal(n);
    lemma_decimal_is_plain(n);
    lemma_item(with_list(control, list), key, decimal(n));
    lemma_lists_join(control, list, item);
    assert(list + number_item(key, n) =~= list + seq![','] + item);
}

proof fn lemma_more_flag(more: bool)
    ensures
        (decimal(more_flag(more)) == seq!['1']) == more,
{
    assert(decimal(1) == seq!['1']);
    assert(decimal(0) == seq!['0']);
    assert(seq!['0'][0] != seq!['1'][0]);
}

/// The control data that the first sequence of a drawing carries.
pub open spec fn drawing_control(drawing: Drawing, more: bool) -> KittyControlData {
    KittyControlData {
        width: Some(drawing.source_width),
        height: Some(drawing.source_height),
        display_width: Some(drawing.display_width),
        display_height: Some(drawing.display_height),
        image_id: Some(drawing.image_id),
        more_data: more,
        ..default_control()
    }
}

/// The control data that a later sequence carries.
pub open spec fn continued_control(more: bool) -> KittyControlData {
    KittyControlData { more_data: more, ..default_control() }
}

/// The control data behind a list whose own control data is known, and a number.
proof fn lemma_number_sets_key(
    list: Seq<char>,
    before: KittyControlData,
    key: char,
    n: nat,
    after: KittyControlData,
)
    requires
        key != ',',
        key != '=',
        with_list(default_control(), list) == before,
        with_key(before, seq![key], decimal(n)) == after,
    ensures
        with_list(default_control(), list + number_item(key, n)) == after,
{
    lemma_number_item(default_control(), list, key, n);
}

/// What the numbers of a drawing set.
proof fn lemma_drawing_keys(control: KittyControlData, size: usize, id: u32, more: bool)
    ensures
        with_key(control, seq!['s'], decimal(size as nat)) == (KittyControlData {
            width: Some(size),
            ..control
        }),
        with_key(control, seq!['v'], decimal(size as nat)) == (KittyControlData {
            height: Some(size),
            ..control
        }),
        with_key(control, seq!['w'], decimal(size as nat)) == (KittyControlData {
            display_width: Some(size),
            ..control
        }),
        with_key(control, seq!['h'], decimal(size as nat)) == (KittyControlData {
            display_height: Some(size),
            ..control
        }),
        with_key(control, seq!['i'], decimal(id as nat)) == (KittyControlData {
            image_id: Some(id),
            ..control
        }),
        with_key(control, seq!['m'], decimal(more_flag(more))) == (KittyControlData {
            more_data: more,
            ..control
        }),
{
    lemma_decimal_reads_back(size as nat, usize::MAX as nat);
    lemma_decimal_reads_back(id as nat, u32::MAX as nat);
    lemma_more_flag(more);
}

/// The first two keys of a drawing say what holds by default.
proof fn lemma_drawing_head()
    ensures
        with_list(default_control(), seq!['a', '=', 'T', ',', 'f', '=', '3', '2'])
            == default_control(),
{
    let first = seq!['a', '='] + seq!['T'];
    let second = seq!['f', '='] + seq!['3', '2'];
    assert(seq!['a', '=', 'T', ',', 'f', '=', '3', '2'] =~= first + seq![','] + second);
    assert(seq!['T'][0] == 'T');
    assert(seq!['3', '2'][0] == '3');
    lemma_item(default_control(), 'a', seq!['T']);
    lemma_item(default_control(), 'f', seq!['3', '2']);
    lemma_lists_join(default_control(), first, second);
}

/// The control data of the first sequence reads back.
pub proof fn lemma_first_control_reads_back(drawing: Drawing, more: bool)
    ensures
        with_list(default_control(), first_control(drawing, more)) == drawing_control(
            drawing,
            more,
        ),
{
    let d = drawing;
    let c0 = default_control();
    let c1 = KittyControlData { width: Some(d.source_width), ..c0 };
    let c2 = KittyControlData { height: Some(d.source_height), ..c1 };
    let c3 = KittyControlData { display_width: Some(d.display_width), ..c2 };
    let c4 = KittyControlData { display_height: Some(d.display_height), ..c3 };
    let c5 = KittyControlData { image_id: Some(d.image_id), ..c4 };
    let c6 = KittyControlData { more_data: more, ..c5 };
    assert(with_key(c0, seq!['s'], decimal(d.source_width as nat)) == c1) by {
        lemma_drawing_keys(c0, d.source_width, d.image_id, more);
    }
    assert(with_key(c1, seq!['v'], decimal(d.source_height as nat)) == c2) by {
        lemma_drawing_keys(c1, d.source_height, d.image_id, more);
    }
    assert(with_key(c2, seq!['w'], decimal(d.display_width as nat)) == c3) by {
        lemma_drawing_keys(c2, d.display_width, d.image_id, more);
    }
    assert(with_key(c3, seq!['h'], decimal(d.display_height as nat)) == c4) by {
        lemma_drawing_keys(c3, d.display_height, d.image_id, more);
    }
    assert(with_key(c4, seq!['i'], decimal(d.image_id as nat)) == c5) by {
        lemma_drawing_keys(c4, 0, d.image_id, more);
    }
    assert(with_key(c5, seq!['m'], decimal(more_flag(more))) == c6) by {
        lemma_drawing_keys(c5, 0, d.image_id, more);
    }
    let head = seq!['a', '=', 'T', ',', 'f', '=', '3', '2'];
    lemma_drawing_head();
    lemma_number_sets_key(head, c0, 's', d.source_width as nat, c1);
    let l1 = head + number_item('s', d.source_width as nat);
    lemma_number_sets_key(l1, c1, 'v', d.source_height as nat, c2);
    let l2 = l1 + number_item('v', d.source_height as nat);
    lemma_number_sets_key(l2, c2, 'w', d.display_width as nat, c3);
    let l3 = l2 + number_item('w', d.display_width as nat);
    lemma_number_sets_key(l3, c3, 'h', d.display_height as nat, c4);
    let l4 = l3 + number_item('h', d.display_height as nat);
    lemma_number_sets_key(l4, c4, 'i', d.image_id as nat, c5);
    let l5 = l4 + number_item('i', d.image_id as nat);
    lemma_number_sets_key(l5, c5, 'm', more_flag(more), c6);
}

/// The control data of a later sequence reads back.
pub proof fn lemma_next_control_reads_back(more: bool)
    ensures
        with_list(default_control(), next_control(more)) == continued_control(more),
{
    lemma_decimal_is_plain(more_flag(more));
    lemma_item(default_control(), 'm', decimal(more_flag(more)));
    lemma_more_flag(more);
}

proof fn lemma_number_item_is_plain(key: char, n: nat)
    requires
        plain(seq![key]),
    ensures
        plain(number_item(key, n)),
{
    lemma_decimal_is_plain(n);
    let head = seq![',', key, '='];
    assert(seq![key][0] == key);
    assert(plain(head));
    lemma_plain_join(head, decimal(n));
}

proof fn lemma_control_is_plain(drawing: Drawing, more: bool)
    ensures
        plain(first_control(drawing, more)),
        plain(next_control(more)),
{
    let head = seq!['a', '=', 'T', ',', 'f', '=', '3', '2'];
    assert(plain(head));
    lemma_number_item_is_plain('s', drawing.source_width as nat);
    lemma_number_item_is_plain('v', drawing.source_height as nat);
    lemma_number_item_is_plain('w', drawing.display_width as nat);
    lemma_number_item_is_plain('h', drawing.display_height as nat);
    lemma_number_item_is_plain('i', drawing.image_id as nat);
    lemma_number_item_is_plain('m', more_flag(more));
    let l1 = head + number_item('s', drawing.source_width as nat);
    let l2 = l1 + number_item('v', drawing.source_height as nat);
    let l3 = l2 + number_item('w', drawing.display_width as nat);
    let l4 = l3 + number_item('h', drawing.display_height as nat);
    let l5 = l4 + number_item('i', drawing.image_id as nat);
    lemma_plain_join(head, number_item('s', drawing.source_width as nat));
    lemma_plain_join(l1, number_item('v', drawing.source_height as nat));
    lemma_plain_join(l2, number_item('w', drawing.display_width as nat));
    lemma_plain_join(l3, number_item('h', drawing.display_height as nat));
    lemma_plain_join(l4, number_item('i', drawing.image_id as nat));
    lemma_plain_join(l5, number_item('m', more_flag(more)));
    assert(plain(seq!['m', '=']));
    lemma_decimal_is_plain(more_flag(more));
    lemma_plain_join(seq!['m', '='], decimal(more_flag(more)));
}

/// The bytes of an ASCII text are its UTF-8 encoding.
proof fn lemma_ascii_is_utf8(text: Seq<char>)
    requires
        is_ascii_chars(text),
    ensures
        ascii_bytes(text) == encode_utf8(text),
        control_of(ascii_bytes(text)) == Some(with_list(default_control(), text)),
{
    is_ascii_chars_encode_utf8(text);
    assert(ascii_bytes(text) =~= encode_utf8(text));
    encode_utf8_valid_utf8(text);
    encode_utf8_decode_utf8(text);
}

/// A sequence that was written reads as one command, with its control data and payload; every
/// byte but the last asks for more, and the parser is as new.
pub proof fn lemma_sequence_reads_back(control: Seq<char>, payload: Seq<char>)
    requires
        plain(control),
        printable(payload),
    ensures
        run(idle_parser(), ascii_bytes(sequence(control, payload))) == (
            idle_parser(),
            continues((sequence(control, payload).len() - 1) as nat).push(
                AdvanceView::Complete(
                    CommandView {
                        control: with_list(default_control(), control),
                        payload: ascii_bytes(payload),
                    },
                ),
            ),
        ),
{
    let end = seq![ESC, 0x5Cu8];
    let bytes = framed(ascii_bytes(control), ascii_bytes(payload), end);
    assert(ascii_bytes(sequence(control, payload)) =~= bytes);
    assert forall|i: int| 0 <= i < control.len() implies #[trigger] ascii_bytes(control)[i] != ESC
        && ascii_bytes(control)[i] != BEL && ascii_bytes(control)[i] != 0x3B by {
        let c = control[i];
        assert(' ' < c && c <= '~' && c != ';');
    }
    assert forall|i: int| 0 <= i < payload.len() implies #[trigger] ascii_bytes(payload)[i] != ESC
        && ascii_bytes(payload)[i] != BEL by {
        let c = payload[i];
        assert(' ' < c && c <= '~');
    }
    assert(is_terminator(end));
    lemma_framed_command_is_read(ascii_bytes(control), ascii_bytes(payload), end);
    lemma_ascii_is_utf8(control);
}

/// The commands among the results of the parser, in order.
pub open spec fn commands(results: Seq<AdvanceView>) -> Seq<CommandView>
    decreases results.len(),
{
    if results.len() == 0 {
        Seq::empty()
    } else {
        let before = commands(results.drop_last());
        match results.last() {
            AdvanceView::Complete(command) => before.push(command),
            _ => before,
        }
    }
}

proof fn lemma_commands_join(a: Seq<AdvanceView>, b: Seq<AdvanceView>)
    ensures
        commands(a + b) == commands(a) + commands(b),
        forwarded(a + b) == forwarded(a) + forwarded(b),
    decreases b.len(),
{
    if b.len() == 0 {
        assert(a + b =~= a);
        assert(commands(a) + commands(b) =~= commands(a));
        assert(forwarded(a) + forwarded(b) =~= forwarded(a));
    } else {
        lemma_commands_join(a, b.drop_last());
        assert((a + b).drop_last() =~= a + b.drop_last());
        assert((a + b).last() == b.last());
        assert(commands(a + b) =~= commands(a) + commands(b));
        assert(forwarded(a + b) =~= forwarded(a) + forwarded(b));
    }
}

proof fn lemma_continues_give_no_command(n: nat)
    ensures
        commands(continues(n)) == Seq::<CommandView>::empty(),
        forwarded(continues(n)) == Seq::<u8>::empty(),
    decreases n,
{
    if n > 0 {
        lemma_continues_give_no_command((n - 1) as nat);
        assert(continues(n).drop_last() =~= continues((n - 1) as nat));
        assert(forwarded(continues(n)) =~= Seq::<u8>::empty());
    }
}

/// The command that the sequence `i` of a drawing stands for.
pub open spec fn chunk_command(drawing: Drawing, data: Seq<char>, i: int) -> CommandView {
    let more = i + 1 < chunk_count(data.len());
    CommandView {
        control: if i == 0 {
            drawing_control(drawing, more)
        } else {
            continued_control(more)
        },
        payload: ascii_bytes(chunk(data, i)),
    }
}

/// The commands that the first `n` sequences of a drawing stand for.
pub open spec fn chunk_commands(drawing: Drawing, data: Seq<char>, n: nat) -> Seq<CommandView> {
    Seq::new(n, |i: int| chunk_command(drawing, data, i))
}

proof fn lemma_chunk_reads_back(drawing: Drawing, data: Seq<char>, i: int)
    requires
        printable(data),
        0 <= i < chunk_count(data.len()),
    ensures
        run(idle_parser(), ascii_bytes(chunk_sequence(drawing, data, i))) == (
            idle_parser(),
            continues((chunk_sequence(drawing, data, i).len() - 1) as nat).push(
                AdvanceView::Complete(chunk_command(drawing, data, i)),
            ),
        ),
{
    let more = i + 1 < chunk_count(data.len());
    let control = if i == 0 {
        first_control(drawing, more)
    } else {
        next_control(more)
    };
    let payload = chunk(data, i);
    assert(i * CHUNK_SIZE < data.len());
    assert forall|j: int| 0 <= j < payload.len() implies ' ' < #[trigger] payload[j] && payload[j]
        <= '~' by {
        assert(payload[j] == data[i * CHUNK_SIZE + j]);
    }
    lemma_control_is_plain(drawing, more);
    lemma_sequence_reads_back(control, payload);
    lemma_first_control_reads_back(drawing, more);
    lemma_next_control_reads_back(more);
}

proof fn lemma_sequences_read_back(drawing: Drawing, data: Seq<char>, n: nat)
    requires
        printable(data),
        n <= chunk_count(data.len()),
    ensures
        run(idle_parser(), ascii_bytes(sequences(drawing, data, n))).0 == idle_parser(),
        commands(run(idle_parser(), ascii_bytes(sequences(drawing, data, n))).1) == chunk_commands(
            drawing,
            data,
            n,
        ),
        forwarded(run(idle_parser(), ascii_bytes(sequences(drawing, data, n))).1) == Seq::<
            u8,
        >::empty(),
    decreases n,
{
    if n == 0 {
        assert(ascii_bytes(sequences(drawing, data, n)) =~= Seq::<u8>::empty());
        assert(chunk_commands(drawing, data, n) =~= Seq::<CommandView>::empty());
    } else {
        let m = (n - 1) as nat;
        let before = ascii_bytes(sequences(drawing, data, m));
        let last = ascii_bytes(chunk_sequence(drawing, data, n - 1));
        lemma_sequences_read_back(drawing, data, m);
        lemma_chunk_reads_back(drawing, data, n - 1);
        lemma_run_concat(idle_parser(), before, last);
        assert(ascii_bytes(sequences(drawing, data, n)) =~= before + last);
        let r1 = run(idle_parser(), before).1;
        let r2 = run(idle_parser(), last).1;
        lemma_commands_join(r1, r2);
        let k = (chunk_sequence(drawing, data, n - 1).len() - 1) as nat;
        lemma_continues_give_no_command(k);
        assert(r2.drop_last() =~= continues(k));
        assert(commands(r2) =~= seq![chunk_command(drawing, data, n - 1)]);
        assert(forwarded(r2) =~= Seq::<u8>::empty());
        assert(chunk_commands(drawing, data, n) =~= chunk_commands(drawing, data, m).push(
            chunk_command(drawing, data, n - 1),
        ));
    }
}

/// What is written for a drawing is read as one command for each sequence, and as nothing
/// else: no byte of it reaches the terminal, and the parser is as new.
pub proof fn lemma_output_reads_back(drawing: Drawing, data: Seq<char>)
    requires
        printable(data),
    ensures
        run(idle_parser(), ascii_bytes(kitty_output(drawing, data))).0 == idle_parser(),
        commands(run(idle_parser(), ascii_bytes(kitty_output(drawing, data))).1) == chunk_commands(
            drawing,
            data,
            chunk_count(data.len()),
        ),
        forwarded(run(idle_parser(), ascii_bytes(kitty_output(drawing, data))).1) == Seq::<
            u8,
        >::empty(),
{
    lemma_sequences_read_back(drawing, data, chunk_count(data.len()));
}

/// The payloads of the commands of a drawing are its data.
proof fn lemma_payloads_join(drawing: Drawing, data: Seq<char>, n: nat)
    requires
        n <= chunk_count(data.len()),
    ensures
        joined_payload(chunk_commands(drawing, data, n)) == ascii_bytes(
            data.take(smaller(n * CHUNK_SIZE, data.len() as int)),
        ),
    decreases n,
{
    let cmds = chunk_commands(drawing, data, n);
    if n == 0 {
        assert(joined_payload(cmds) =~= ascii_bytes(data.take(0)));
    } else {
        let m = (n - 1) as nat;
        lemma_payloads_join(drawing, data, m);
        assert(cmds.drop_last() =~= chunk_commands(drawing, data, m));
        assert(m * CHUNK_SIZE < data.len());
        assert(joined_payload(cmds) =~= ascii_bytes(
            data.take(smaller(n * CHUNK_SIZE, data.len() as int)),
        ));
    }
}

/// The grid and the images after a drawing was received: its data is the image of its id, in
/// place of the one before, and is shown at the cursor, at the size that the drawing says.
pub open spec fn received(
    grid: GridView,
    images: Map<u32, ImageView>,
    cell_size: Option<SizeInPixels>,
    drawing: Drawing,
    pixels: Seq<u8>,
    cursor_x: usize,
    cursor_y: usize,
) -> StepView {
    StepView {
        grid: placed(
            grid,
            drawing.image_id,
            drawing.source_width,
            drawing.source_height,
            drawing_control(drawing, false),
            cell_size,
            cursor_x,
            cursor_y,
        ),
        images: images.insert(
            drawing.image_id,
            ImageView {
                id: drawing.image_id,
                width: drawing.source_width,
                height: drawing.source_height,
                pixels,
            },
        ),
        outcome: Ok(OutcomeView::Done(Some(ok_response(drawing.image_id)))),
    }
}

/// The commands of a drawing give its image to the grid that runs them, if its data is the
/// base64 text of the pixels.
pub proof fn lemma_drawing_is_received(
    grid: GridView,
    images: Map<u32, ImageView>,
    cell_size: Option<SizeInPixels>,
    drawing: Drawing,
    data: Seq<char>,
    pixels: Seq<u8>,
    cursor_x: usize,
    cursor_y: usize,
)
    requires
        grid.transmission is None,
        placement_id_for(grid, drawing.image_id, None) is Some,
        data.len() > 0,
        base64_bytes(ascii_bytes(data)) == Some(pixels),
        pixels.len() == drawing.source_width * drawing.source_height * 4,
        pixels.len() <= usize::MAX,
    ensures
        run_commands(
            grid,
            images,
            cell_size,
            chunk_commands(drawing, data, chunk_count(data.len())),
            cursor_x,
            cursor_y,
        ) == received(grid, images, cell_size, drawing, pixels, cursor_x, cursor_y),
{
    let n = chunk_count(data.len());
    let cmds = chunk_commands(drawing, data, n);
    let whole = CommandView {
        control: drawing_control(drawing, false),
        payload: ascii_bytes(data),
    };
    assert(n > 0);
    lemma_payloads_join(drawing, data, n);
    assert(data.take(smaller(n * CHUNK_SIZE, data.len() as int)) =~= data);
    if n == 1 {
        assert(cmds.drop_last() =~= Seq::<CommandView>::empty());
        assert(joined_payload(cmds) =~= cmds.last().payload);
        assert(cmds.last() == whole);
        reveal_with_fuel(run_commands, 2);
        assert(run_commands(grid, images, cell_size, cmds, cursor_x, cursor_y) == command_step(
            grid,
            images,
            cell_size,
            whole,
            cursor_x,
            cursor_y,
        ));
    } else {
        let chunks = cmds.drop_last();
        let last = cmds.last();
        assert(cmds =~= chunks.push(last));
        assert forall|i: int| 0 <= i < chunks.len() implies transmits(#[trigger] chunks[i])
            && chunks[i].control.more_data by {
            assert(chunks[i] == chunk_command(drawing, data, i));
        }
        assert(chunks[0] == chunk_command(drawing, data, 0));
        lemma_chunked_image_is_one_image(
            grid,
            images,
            cell_size,
            chunks,
            last,
            cursor_x,
            cursor_y,
        );
    }
    assert(pixels.take(drawing.source_width * drawing.source_height * 4) =~= pixels);
    assert(between_transmissions(grid) =~= grid);
    let after = command_step(grid, images, cell_size, whole, cursor_x, cursor_y);
    assert(after =~= received(grid, images, cell_size, drawing, pixels, cursor_x, cursor_y));
}

/// What a store writes to draw a rectangle of an image gives that part of the image, pixel
/// for pixel, to the grid that reads it, under the same id.
pub proof fn lemma_drawn_image_is_received(
    images: Map<u32, ImageView>,
    rect: PixelRect,
    image_id: u32,
    grid: GridView,
    other_images: Map<u32, ImageView>,
    cell_size: Option<SizeInPixels>,
    cursor_x: usize,
    cursor_y: usize,
)
    requires
        images.contains_key(image_id),
        covers(images[image_id]),
        images[image_id].pixels.len() <= usize::MAX,
        rect.x < images[image_id].width,
        rect.y < images[image_id].height,
        rect.width > 0,
        rect.height > 0,
        grid.transmission is None,
        placement_id_for(grid, image_id, None) is Some,
    ensures
        serialized(images, image_id, rect) is Some,
        ({
            let image = images[image_id];
            let parsed = run(
                idle_parser(),
                ascii_bytes(serialized(images, image_id, rect).unwrap()),
            );
            &&& parsed.0 == idle_parser()
            &&& forwarded(parsed.1) == Seq::<u8>::empty()
            &&& run_commands(
                grid,
                other_images,
                cell_size,
                commands(parsed.1),
                cursor_x,
                cursor_y,
            ) == received(
                grid,
                other_images,
                cell_size,
                Drawing {
                    image_id,
                    source_width: smaller(rect.width as int, image.width - rect.x) as usize,
                    source_height: smaller(rect.height as int, image.height - rect.y) as usize,
                    display_width: rect.width,
                    display_height: rect.height,
                },
                region(image, rect).unwrap(),
                cursor_x,
                cursor_y,
            )
        }),
{
    let image = images[image_id];
    let pixels = region(image, rect).unwrap();
    let width = smaller(rect.width as int, image.width - rect.x);
    let height = smaller(rect.height as int, image.height - rect.y);
    let drawing = Drawing {
        image_id,
        source_width: width as usize,
        source_height: height as usize,
        display_width: rect.width,
        display_height: rect.height,
    };
    let data = base64_text(pixels);
    lemma_region_is_a_crop(image, rect);
    assert(height * width * 4 == width * height * 4 && height * width > 0) by (nonlinear_arith)
        requires
            height > 0,
            width > 0,
    ;
    lemma_row_parts_fit(image, rect.x as int, rect.y as int, width, height as nat);
    lemma_base64_is_printable(pixels);
    lemma_base64_reads_back(pixels);
    lemma_output_reads_back(drawing, data);
    lemma_drawing_is_received(
        grid,
        other_images,
        cell_size,
        drawing,
        data,
        pixels,
        cursor_x,
        cursor_y,
    );
}

/// While the sequences of a drawing come in, nothing is answered before the last one.
pub proof fn lemma_only_the_last_chunk_is_answered(
    grid: GridView,
    images: Map<u32, ImageView>,
    cell_size: Option<SizeInPixels>,
    drawing: Drawing,
    data: Seq<char>,
    n: nat,
    cursor_x: usize,
    cursor_y: usize,
)
    requires
        grid.transmission is None,
        0 < n < chunk_count(data.len()),
    ensures
        run_commands(
            grid,
            images,
            cell_size,
            chunk_commands(drawing, data, n),
            cursor_x,
            cursor_y,
        ).outcome == Ok::<OutcomeView, OutOfRange>(OutcomeView::Done(None)),
{
    let cmds = chunk_commands(drawing, data, n);
    assert forall|i: int| 0 <= i < cmds.len() implies transmits(#[trigger] cmds[i])
        && cmds[i].control.more_data by {
        assert(cmds[i] == chunk_command(drawing, data, i));
    }
    lemma_chunks_are_collected(grid, images, cell_size, cmds, cursor_x, cursor_y);
}

/// What is written for the pixels of an image gives a new grid with an empty store exactly that
/// image, and exactly one placement of it: at the cursor, at the size that the drawing says.
/// Only the last sequence is answered.
pub proof fn lemma_new_grid_receives_drawing(
    drawing: Drawing,
    pixels: Seq<u8>,
    cell_size: Option<SizeInPixels>,
    cursor_x: usize,
    cursor_y: usize,
)
    requires
        drawing.source_width > 0,
        drawing.source_height > 0,
        pixels.len() == drawing.source_width * drawing.source_height * 4,
        pixels.len() <= usize::MAX,
    ensures
        ({
            let parsed = run(
                idle_parser(),
                ascii_bytes(kitty_output(drawing, base64_text(pixels))),
            );
            let cmds = commands(parsed.1);
            let grid = empty_grid(1, cell_size);
            let images = Map::<u32, ImageView>::empty();
            let after = run_commands(grid, images, cell_size, cmds, cursor_x, cursor_y);
            &&& parsed.0 == idle_parser()
            &&& forwarded(parsed.1) == Seq::<u8>::empty()
            &&& after.images == images.insert(
                drawing.image_id,
                ImageView {
                    id: drawing.image_id,
                    width: drawing.source_width,
                    height: drawing.source_height,
                    pixels,
                },
            )
            &&& after.grid.placements == seq![
                KittyPlacement {
                    image_id: drawing.image_id,
                    placement_id: 1,
                    pixel_x: cursor_x,
                    pixel_y: cursor_y as isize,
                    display_width: drawing.display_width,
                    display_height: drawing.display_height,
                    z_index: 0,
                },
            ]
            &&& after.outcome == Ok::<OutcomeView, OutOfRange>(
                OutcomeView::Done(Some(ok_response(drawing.image_id))),
            )
            &&& forall|n: int|
                0 < n < cmds.len() ==> run_commands(
                    grid,
                    images,
                    cell_size,
                    #[trigger] cmds.take(n),
                    cursor_x,
                    cursor_y,
                ).outcome == Ok::<OutcomeView, OutOfRange>(OutcomeView::Done(None))
        }),
{
    let data = base64_text(pixels);
    let grid = empty_grid(1, cell_size);
    let images = Map::<u32, ImageView>::empty();
    let cmds = chunk_commands(drawing, data, chunk_count(data.len()));
    assert(drawing.source_width * drawing.source_height > 0) by (nonlinear_arith)
        requires
            drawing.source_width > 0,
            drawing.source_height > 0,
    ;
    lemma_base64_is_printable(pixels);
    lemma_base64_reads_back(pixels);
    lemma_output_reads_back(drawing, data);
    assert(is_free_placement_id(grid.placements, drawing.image_id, 1, 1));
    lemma_free_placement_id(grid.placements, drawing.image_id, 1, 1);
    lemma_without_absent(grid.placements, drawing.image_id, 1);
    lemma_drawing_is_received(
        grid,
        images,
        cell_size,
        drawing,
        data,
        pixels,
        cursor_x,
        cursor_y,
    );
    assert forall|n: int| 0 < n < cmds.len() implies run_commands(
        grid,
        images,
        cell_size,
        #[trigger] cmds.take(n),
        cursor_x,
        cursor_y,
    ).outcome == Ok::<OutcomeView, OutOfRange>(OutcomeView::Done(None)) by {
        assert(cmds.take(n) =~= chunk_commands(drawing, data, n as nat));
        lemma_only_the_last_chunk_is_answered(
            grid,
            images,
            cell_size,
            drawing,
            data,
            n as nat,
            cursor_x,
            cursor_y,
        );
    }
}

/// The answer to a command reads as one command: its control data names the image, and its
/// payload is `OK`.
pub proof fn lemma_response_reads_back(id: u32)
    ensures
        run(idle_parser(), ok_response(id)).0 == idle_parser(),
        commands(run(idle_parser(), ok_response(id)).1) == seq![
            CommandView {
                control: KittyControlData { image_id: Some(id), ..default_control() },
                payload: seq![0x4Fu8, 0x4Bu8],
            },
        ],
{
    let control = seq!['i', '='] + decimal(id as nat);
    let payload = seq!['O', 'K'];
    lemma_decimal_is_plain(id as nat);
    assert(plain(seq!['i', '=']));
    lemma_plain_join(seq!['i', '='], decimal(id as nat));
    assert(printable(payload));
    lemma_sequence_reads_back(control, payload);
    lemma_item(default_control(), 'i', decimal(id as nat));
    lemma_decimal_reads_back(id as nat, u32::MAX as nat);
    let k = (sequence(control, payload).len() - 1) as nat;
    let results = run(idle_parser(), ok_response(id)).1;
    lemma_continues_give_no_command(k);
    assert(results.drop_last() =~= continues(k));
    assert(ascii_bytes(payload) =~= seq![0x4Fu8, 0x4Bu8]);
    assert(commands(results) =~= seq![results.last()->Complete_0]);
}

} // verus!
