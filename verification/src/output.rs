//! Writes image data as the escape sequences that draw it.

use crate::codec::{base64_encode, base64_len, base64_text, sextet};
use crate::text::{decimal, push_decimal};
use vstd::prelude::*;
use vstd::string::{StrSliceExecFns, StringExecFns};
use vstd::utf8::is_ascii_chars;

verus! {

/// How many characters of data one sequence carries at most.
pub const CHUNK_SIZE: usize = 4096;

/// What is drawn: an image, the size of its data and the size that it is shown at.
#[derive(Debug, Clone, Copy)]
pub struct Drawing {
    pub image_id: u32,
    pub source_width: usize,
    pub source_height: usize,
    pub display_width: usize,
    pub display_height: usize,
}

/// `,key=n`
pub open spec fn number_item(key: char, n: nat) -> Seq<char> {
    seq![',', key, '='] + decimal(n)
}

/// The value of the key `m`: whether more sequences follow.
pub open spec fn more_flag(more: bool) -> nat {
    if more {
        1
    } else {
        0
    }
}

/// The control data of the first sequence.
pub open spec fn first_control(drawing: Drawing, more: bool) -> Seq<char> {
    seq!['a', '=', 'T', ',', 'f', '=', '3', '2'] + number_item('s', drawing.source_width as nat)
        + number_item('v', drawing.source_height as nat) + number_item(
        'w',
        drawing.display_width as nat,
    ) + number_item('h', drawing.display_height as nat) + number_item(
        'i',
        drawing.image_id as nat,
    ) + number_item('m', more_flag(more))
}

/// The control data of each later sequence.
pub open spec fn next_control(more: bool) -> Seq<char> {
    seq!['m', '='] + decimal(more_flag(more))
}

/// `ESC _ G control ; payload ESC \`
pub open spec fn sequence(control: Seq<char>, payload: Seq<char>) -> Seq<char> {
    seq!['\x1b', '_', 'G'] + control + seq![';'] + payload + seq!['\x1b', '\\']
}

/// How many sequences it takes to carry `len` characters of data.
pub open spec fn chunk_count(len: nat) -> nat {
    (len + CHUNK_SIZE - 1) as nat / CHUNK_SIZE as nat
}

/// The data that the sequence `i` carries.
pub open spec fn chunk(data: Seq<char>, i: int) -> Seq<char> {
    let end = (i + 1) * CHUNK_SIZE;
    data.subrange(
        i * CHUNK_SIZE,
        if end < data.len() {
            end
        } else {
            data.len() as int
        },
    )
}

/// The sequence `i` of a drawing.
pub open spec fn chunk_sequence(drawing: Drawing, data: Seq<char>, i: int) -> Seq<char> {
    let more = i + 1 < chunk_count(data.len());
    sequence(
        if i == 0 {
            first_control(drawing, more)
        } else {
            next_control(more)
        },
        chunk(data, i),
    )
}

/// The first `n` sequences of a drawing.
pub open spec fn sequences(drawing: Drawing, data: Seq<char>, n: nat) -> Seq<char>
    decreases n,
{
    if n == 0 {
        Seq::empty()
    } else {
        sequences(drawing, data, (n - 1) as nat) + chunk_sequence(drawing, data, n - 1)
    }
}

/// All sequences of a drawing, whose data is in base64.
pub open spec fn kitty_output(drawing: Drawing, data: Seq<char>) -> Seq<char> {
    sequences(drawing, data, chunk_count(data.len()))
}

/// Appends `,key=n`.
fn push_number_item(out: &mut String, key: char, n: u64)
    ensures
        final(out)@ == old(out)@ + number_item(key, n as nat),
{
    out.push(',');
    out.push(key);
    out.push('=');
    push_decimal(out, n);
    assert(out@ =~= old(out)@ + number_item(key, n as nat));
}

/// Appends the control data of the first sequence.
fn push_first_control(out: &mut String, drawing: &Drawing, more: bool)
    ensures
        final(out)@ == old(out)@ + first_control(*drawing, more),
{
    out.append("a=T,f=32");
    proof {
        reveal_strlit("a=T,f=32");
        assert("a=T,f=32"@ =~= seq!['a', '=', 'T', ',', 'f', '=', '3', '2']);
    }
    push_number_item(out, 's', drawing.source_width as u64);
    push_number_item(out, 'v', drawing.source_height as u64);
    push_number_item(out, 'w', drawing.display_width as u64);
    push_number_item(out, 'h', drawing.display_height as u64);
    push_number_item(out, 'i', drawing.image_id as u64);
    push_number_item(out, 'm', if more { 1 } else { 0 });
    assert(out@ =~= old(out)@ + first_control(*drawing, more));
}

/// Appends the control data of a later sequence.
fn push_next_control(out: &mut String, more: bool)
    ensures
        final(out)@ == old(out)@ + next_control(more),
{
    out.push('m');
    out.push('=');
    push_decimal(out, if more { 1 } else { 0 });
    assert(out@ =~= old(out)@ + next_control(more));
}

/// Writes base64 text as the sequences of a drawing.
pub fn frame_output(drawing: &Drawing, data: &str) -> (out: String)
    requires
        is_ascii_chars(data@),
    ensures
        out@ == kitty_output(*drawing, data@),
{
    let bytes = data.as_bytes();
    let len = bytes.len();
    proof {
        vstd::string::is_ascii_spec_bytes(data);
        assert(len == data@.len());
    }
    let mut out = String::new();
    let mut start: usize = 0;
    let ghost mut i: nat = 0;
    while start < len
        invariant
            is_ascii_chars(data@),
            len == data@.len(),
            i <= chunk_count(data@.len()),
            start <= len,
            start < len ==> start == i * CHUNK_SIZE && i < chunk_count(data@.len()),
            start == len ==> i == chunk_count(data@.len()),
            out@ == sequences(*drawing, data@, i),
        decreases len - start,
    {
        let end = if len - start > CHUNK_SIZE {
            start + CHUNK_SIZE
        } else {
            len
        };
        let more = end < len;
        proof {
            assert(more == (i + 1 < chunk_count(data@.len())));
        }
        let ghost before = out@;
        out.push('\x1b');
        out.push('_');
        out.push('G');
        if start == 0 {
            push_first_control(&mut out, drawing, more);
        } else {
            push_next_control(&mut out, more);
        }
        out.push(';');
        out.append(data.substring_ascii(start, end));
        out.push('\x1b');
        out.push('\\');
        proof {
            assert(data@.subrange(start as int, end as int) == chunk(data@, i as int));
            assert(out@ =~= before + chunk_sequence(*drawing, data@, i as int));
            i = i + 1;
        }
        start = end;
    }
    out
}

/// Base64 text is ASCII, without control characters.
pub proof fn lemma_base64_is_printable(data: Seq<u8>)
    ensures
        base64_text(data).len() == base64_len(data.len()),
        is_ascii_chars(base64_text(data)),
        forall|i: int|
            0 <= i < base64_text(data).len() ==> ' ' < #[trigger] base64_text(data)[i]
                && base64_text(data)[i] <= '~',
{
    let text = base64_text(data);
    assert forall|i: int| 0 <= i < text.len() implies ' ' < #[trigger] text[i] && text[i]
        <= '~' by {
        let n = sextet(data, i);
        assert(0 <= n < 64);
    }
    assert(is_ascii_chars(text));
}

/// Format RGBA data as a kitty graphics output command
pub fn format_kitty_output(
    image_id: u32,
    source_width: usize,
    source_height: usize,
    display_width: usize,
    display_height: usize,
    rgba_data: &[u8],
) -> (out: String)
    requires
        base64_len(rgba_data@.len()) <= isize::MAX,
    ensures
        out@ == kitty_output(
            Drawing { image_id, source_width, source_height, display_width, display_height },
            base64_text(rgba_data@),
        ),
{
    let encoded = base64_encode(rgba_data);
    proof {
        lemma_base64_is_printable(rgba_data@);
    }
    let drawing = Drawing {
        image_id,
        source_width,
        source_height,
        display_width,
        display_height,
    };
    frame_output(&drawing, encoded.as_str())
}

} // verus!
