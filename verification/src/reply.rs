//! The answer to a command that succeeded.

use crate::codec::ascii_bytes;
use crate::output::sequence;
use crate::text::{all_digits, decimal, decimal_chars, is_digit, lemma_decimal_reads_back};
use vstd::prelude::*;

verus! {

/// `ESC _ G i=id ; OK ESC \`
pub open spec fn ok_response(id: u32) -> Seq<u8> {
    ascii_bytes(sequence(seq!['i', '='] + decimal(id as nat), seq!['O', 'K']))
}

/// The answer for an image: none in quiet mode.
pub open spec fn reply(quiet: u8, id: u32) -> Option<Seq<u8>> {
    if quiet == 0 {
        Some(ok_response(id))
    } else {
        None
    }
}

/// Writes the answer for an image, unless in quiet mode.
pub fn make_reply(quiet: u8, id: u32) -> (response: Option<Vec<u8>>)
    ensures
        crate::types::opt_bytes_view(response) == reply(quiet, id),
{
    if quiet != 0 {
        return None;
    }
    let digits = decimal_chars(id as u64);
    proof {
        lemma_decimal_reads_back(id as nat, id as nat);
    }
    let mut response: Vec<u8> = vec![0x1B, 0x5F, 0x47, 0x69, 0x3D];
    let mut i: usize = 0;
    while i < digits.len()
        invariant
            i <= digits@.len(),
            digits@ == decimal(id as nat),
            all_digits(digits@),
            response@ == seq![0x1Bu8, 0x5F, 0x47, 0x69, 0x3D] + ascii_bytes(
                digits@.take(i as int),
            ),
        decreases digits@.len() - i,
    {
        let c: char = digits[i];
        assert(is_digit(digits@[i as int]));
        response.push(c as u8);
        i += 1;
        assert(response@ =~= seq![0x1Bu8, 0x5F, 0x47, 0x69, 0x3D] + ascii_bytes(
            digits@.take(i as int),
        ));
    }
    response.push(0x3B);
    response.push(0x4F);
    response.push(0x4B);
    response.push(0x1B);
    response.push(0x5C);
    assert(digits@.take(i as int) == digits@);
    assert(response@ =~= ok_response(id));
    Some(response)
}

} // verus!
