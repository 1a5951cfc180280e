//! The encodings that outside crates compute: base64, zlib and PNG.
//!
//! The functions that hand their argument to an outside crate are not proved: their contracts
//! say what is believed of the result.

use std::io::Read;
use vstd::prelude::*;

verus! {

/// The base64 alphabet: the character for a number below 64.
pub open spec fn base64_char(n: int) -> char {
    if n < 26 {
        (65 + n) as char
    } else if n < 52 {
        (97 + n - 26) as char
    } else if n < 62 {
        (48 + n - 52) as char
    } else if n == 62 {
        '+'
    } else {
        '/'
    }
}

/// The byte at `i`, or 0 behind the end.
pub open spec fn byte_or_zero(data: Seq<u8>, i: int) -> int {
    if i < data.len() {
        data[i] as int
    } else {
        0
    }
}

/// The six bits at `6 * i` of the bits of `data`, as a number: four such numbers to each
/// three bytes.
pub open spec fn sextet(data: Seq<u8>, i: int) -> int {
    let first = i / 4 * 3;
    let bits = byte_or_zero(data, first) * 65536 + byte_or_zero(data, first + 1) * 256
        + byte_or_zero(data, first + 2);
    if i % 4 == 0 {
        bits / 262144
    } else if i % 4 == 1 {
        bits / 4096 % 64
    } else if i % 4 == 2 {
        bits / 64 % 64
    } else {
        bits % 64
    }
}

/// How many characters the base64 text of `len` bytes has.
pub open spec fn base64_len(len: nat) -> nat {
    (len + 2) / 3 * 4
}

/// Whether the base64 text of `len` bytes fits in memory.
pub fn base64_fits(len: usize) -> (fits: bool)
    ensures
        fits == (base64_len(len as nat) <= isize::MAX),
{
    let groups: usize = len / 3 + if len % 3 == 0 {
        0
    } else {
        1
    };
    assert(groups == (len + 2) / 3);
    groups <= isize::MAX as usize / 4
}

/// `data` in base64 with the standard alphabet, padded with `=` to a multiple of four.
pub open spec fn base64_text(data: Seq<u8>) -> Seq<char> {
    Seq::new(
        base64_len(data.len()),
        |i: int|
            if 6 * i < 8 * data.len() {
                base64_char(sextet(data, i))
            } else {
                '='
            },
    )
}

/// The bytes of an ASCII text.
pub open spec fn ascii_bytes(text: Seq<char>) -> Seq<u8> {
    text.map_values(|c: char| c as u8)
}

/// Whether a text is the base64 text of some bytes, with all, some or none of its padding.
pub open spec fn decodes_to(text: Seq<u8>, bytes: Seq<u8>) -> bool {
    let padded = base64_text(bytes);
    &&& text.len() <= padded.len()
    &&& text == ascii_bytes(padded).take(text.len() as int)
    &&& forall|i: int| text.len() <= i < padded.len() ==> #[trigger] padded[i] == '='
}

/// The bytes that a base64 text stands for, if it is one.
pub open spec fn base64_bytes(text: Seq<u8>) -> Option<Seq<u8>> {
    if exists|bytes: Seq<u8>| decodes_to(text, bytes) {
        Some(choose|bytes: Seq<u8>| decodes_to(text, bytes))
    } else {
        None
    }
}

/// `base64::encode`: the standard alphabet, with padding. It panics where the text would not
/// fit in memory: a buffer holds at most `isize::MAX` bytes.
#[verifier::external_body]
pub(crate) fn base64_encode(data: &[u8]) -> (text: String)
    requires
        base64_len(data@.len()) <= isize::MAX,
    ensures
        text@ == base64_text(data@),
{
    base64::encode(data)
}

/// `base64::decode`: the standard alphabet. It accepts the base64 text of any bytes, with or
/// without its padding or a part of it, and nothing else: no other character, no more padding,
/// no set bits behind the last byte. A slice holds at most `isize::MAX` bytes, so that the
/// lengths that it computes do not overflow.
#[verifier::external_body]
pub(crate) fn base64_decode(text: &[u8]) -> (data: Option<Vec<u8>>)
    ensures
        match data {
            Some(data) => decodes_to(text@, data@),
            None => forall|bytes: Seq<u8>| !decodes_to(text@, bytes),
        },
{
    base64::decode(text).ok()
}

/// The character of a sextet is ASCII, is no padding and tells which sextet it stands for.
proof fn lemma_base64_char(m: int, n: int)
    requires
        0 <= m < 64,
        0 <= n < 64,
    ensures
        base64_char(m) < '\u{80}',
        base64_char(m) != '=',
        base64_char(m) as u8 != '=' as u8,
        base64_char(m) as u8 == base64_char(n) as u8 ==> m == n,
{
}

/// Sextets are below 64, and those of the padding are zero.
proof fn lemma_sextet(data: Seq<u8>, i: int)
    requires
        0 <= i,
    ensures
        0 <= sextet(data, i) < 64,
        6 * i >= 8 * data.len() ==> sextet(data, i) == 0,
{
}

/// The 24 bits that the three bytes from `3 * q` on make.
spec fn group_bits(data: Seq<u8>, q: int) -> int {
    byte_or_zero(data, 3 * q) * 65536 + byte_or_zero(data, 3 * q + 1) * 256 + byte_or_zero(
        data,
        3 * q + 2,
    )
}

/// The four sextets of a group.
proof fn lemma_group_sextets(data: Seq<u8>, q: int)
    requires
        0 <= q,
    ensures
        sextet(data, 4 * q) == group_bits(data, q) / 262144,
        sextet(data, 4 * q + 1) == group_bits(data, q) / 4096 % 64,
        sextet(data, 4 * q + 2) == group_bits(data, q) / 64 % 64,
        sextet(data, 4 * q + 3) == group_bits(data, q) % 64,
{
    assert((4 * q) / 4 == q && (4 * q) % 4 == 0);
    assert((4 * q + 1) / 4 == q && (4 * q + 1) % 4 == 1);
    assert((4 * q + 2) / 4 == q && (4 * q + 2) % 4 == 2);
    assert((4 * q + 3) / 4 == q && (4 * q + 3) % 4 == 3);
}

/// 24 bits are told by their four sextets.
proof fn lemma_sextets_tell_bits(x: int, y: int)
    requires
        x / 262144 == y / 262144,
        x / 4096 % 64 == y / 4096 % 64,
        x / 64 % 64 == y / 64 % 64,
        x % 64 == y % 64,
    ensures
        x == y,
{
    assert(x / 4096 == x / 262144 * 64 + x / 4096 % 64);
    assert(y / 4096 == y / 262144 * 64 + y / 4096 % 64);
    assert(x / 64 == x / 4096 * 64 + x / 64 % 64);
    assert(y / 64 == y / 4096 * 64 + y / 64 % 64);
}

/// Three bytes are told by their four sextets.
proof fn lemma_sextets_tell_bytes(a: Seq<u8>, b: Seq<u8>, q: int)
    requires
        0 <= q,
        a.len() == b.len(),
        forall|i: int| 0 <= i ==> sextet(a, i) == sextet(b, i),
    ensures
        forall|k: int| 3 * q <= k < 3 * q + 3 && k < a.len() ==> a[k] == b[k],
{
    lemma_group_sextets(a, q);
    lemma_group_sextets(b, q);
    lemma_sextets_tell_bits(group_bits(a, q), group_bits(b, q));
    assert(byte_or_zero(a, 3 * q) == byte_or_zero(b, 3 * q));
    assert(byte_or_zero(a, 3 * q + 1) == byte_or_zero(b, 3 * q + 1));
    assert(byte_or_zero(a, 3 * q + 2) == byte_or_zero(b, 3 * q + 2));
}

/// How many bytes a text stands for is told by where its padding begins.
proof fn lemma_base64_len_is_unique(text: Seq<u8>, a: Seq<u8>, b: Seq<u8>)
    requires
        decodes_to(text, a),
        decodes_to(text, b),
    ensures
        a.len() >= b.len(),
{
    if a.len() < b.len() {
        let i = (4 * a.len() + 2) / 3;
        lemma_sextet(b, i as int);
        lemma_base64_char(sextet(b, i as int), 0);
        assert(base64_text(b)[i as int] != '=');
        assert(i < text.len());
        assert(text[i as int] == base64_text(b)[i as int] as u8);
        assert(text[i as int] == base64_text(a)[i as int] as u8);
    }
}

/// A text stands for one string of bytes at most.
pub proof fn lemma_base64_is_unique(text: Seq<u8>, a: Seq<u8>, b: Seq<u8>)
    requires
        decodes_to(text, a),
        decodes_to(text, b),
    ensures
        a == b,
{
    lemma_base64_len_is_unique(text, a, b);
    lemma_base64_len_is_unique(text, b, a);
    assert forall|i: int| 0 <= i implies sextet(a, i) == sextet(b, i) by {
        lemma_sextet(a, i);
        lemma_sextet(b, i);
        if 6 * i < 8 * a.len() {
            lemma_base64_char(sextet(a, i), sextet(b, i));
            assert(base64_text(a)[i] != '=');
            assert(i < text.len());
            assert(text[i] == base64_text(a)[i] as u8);
            assert(text[i] == base64_text(b)[i] as u8);
        }
    }
    assert forall|k: int| 0 <= k < a.len() implies a[k] == b[k] by {
        lemma_sextets_tell_bytes(a, b, k / 3);
    }
    assert(a =~= b);
}

/// A text that decodes to some bytes has them as its bytes.
pub proof fn lemma_decodes_to(text: Seq<u8>, bytes: Seq<u8>)
    requires
        decodes_to(text, bytes),
    ensures
        base64_bytes(text) == Some(bytes),
{
    lemma_base64_is_unique(text, bytes, base64_bytes(text).unwrap());
}

/// The base64 text of some bytes decodes to those bytes.
pub proof fn lemma_base64_reads_back(bytes: Seq<u8>)
    ensures
        base64_bytes(ascii_bytes(base64_text(bytes))) == Some(bytes),
{
    let text = ascii_bytes(base64_text(bytes));
    assert(text.take(text.len() as int) =~= text);
    lemma_decodes_to(text, bytes);
}

/// What `flate2` inflates a zlib stream to.
pub uninterp spec fn zlib_bytes(stream: Seq<u8>) -> Option<Seq<u8>>;

/// `flate2::read::ZlibDecoder`, read to its end. The result depends on the stream alone;
/// which streams it accepts, and what they hold, is left unsaid.
#[verifier::external_body]
pub(crate) fn zlib_decode(stream: &[u8]) -> (data: Option<Vec<u8>>)
    ensures
        match data {
            Some(data) => zlib_bytes(stream@) == Some(data@),
            None => zlib_bytes(stream@) is None,
        },
{
    let mut data: Vec<u8> = Vec::new();
    match flate2::read::ZlibDecoder::new(stream).read_to_end(&mut data) {
        Ok(_) => Some(data),
        Err(_) => None,
    }
}

/// A picture: its width, its height and its RGBA pixels.
pub struct Picture {
    pub width: u32,
    pub height: u32,
    pub pixels: Vec<u8>,
}

/// What the `image` crate makes of a PNG file: the width, the height and the RGBA pixels.
pub uninterp spec fn png_picture(file: Seq<u8>) -> Option<(u32, u32, Seq<u8>)>;

/// `image::load_from_memory_with_format` for PNG, and `to_rgba8`. The result depends on the
/// file alone, and there are four bytes to each pixel; which files it accepts, and which
/// colours they show, is left unsaid.
#[verifier::external_body]
pub(crate) fn png_decode(file: &[u8]) -> (picture: Option<Picture>)
    ensures
        match picture {
            Some(p) => {
                &&& png_picture(file@) == Some((p.width, p.height, p.pixels@))
                &&& p.pixels@.len() == 4 * p.width * p.height
            },
            None => png_picture(file@) is None,
        },
{
    match image::load_from_memory_with_format(file, image::ImageFormat::Png) {
        Ok(decoded) => {
            let rgba = decoded.to_rgba8();
            let (width, height) = rgba.dimensions();
            Some(Picture { width, height, pixels: rgba.into_raw() })
        },
        Err(_) => None,
    }
}

} // verus!
