//! Grids out of text: the decimal digits of a text, in order, are the cells.

use vstd::prelude::*;
use vstd::string::StringSliceAdditionalSpecFns;
use crate::matrix::Vmatrix;

verus! {

/// The byte is one of the ten decimal digits in ASCII.
pub open spec fn is_digit(byte: u8) -> bool {
    0x30 <= byte <= 0x39
}

/// The values of the decimal digits among `text`, in order. Every other
/// byte is passed over.
pub open spec fn digits_of(text: Seq<u8>) -> Seq<u32>
    decreases text.len(),
{
    if text.len() == 0 {
        Seq::empty()
    } else if is_digit(text.last()) {
        digits_of(text.drop_last()).push((text.last() - 0x30) as u32)
    } else {
        digits_of(text.drop_last())
    }
}

/// Reads the decimal digits out of a text. The text is gone through byte
/// by byte; no byte of a longer character is a digit.
pub fn text_to_int_vector(file_content: &str) -> (all_data: Vec<u32>)
    ensures
        all_data@ == digits_of(file_content.spec_bytes()),
{
    let bytes = file_content.as_bytes();
    let mut all_data: Vec<u32> = Vec::new();
    let mut i: usize = 0;
    while i < bytes.len()
        invariant
            bytes@ == file_content.spec_bytes(),
            i <= bytes@.len(),
            all_data@ == digits_of(bytes@.take(i as int)),
        decreases bytes@.len() - i,
    {
        let byte: u8 = bytes[i];
        assert(bytes@.take(i + 1).drop_last() =~= bytes@.take(i as int));
        if 0x30 <= byte && byte <= 0x39 {
            all_data.push((byte - 0x30) as u32);
        }
        i += 1;
    }
    assert(bytes@.take(i as int) =~= bytes@);
    all_data
}

/// Reads a grid of width `size` out of a text, given that the text holds
/// exactly `size * size` digits.
pub fn text_to_vmatrix(file_content: &str, size: usize) -> (grid: Option<Vmatrix<u32>>)
    ensures
        match grid {
            Some(grid) => {
                &&& grid.wf()
                &&& grid.size == size
                &&& grid@ == digits_of(file_content.spec_bytes())
            },
            None => size == 0 || digits_of(file_content.spec_bytes()).len() != size * size,
        },
{
    let all_data = text_to_int_vector(file_content);
    if size == 0 {
        return None;
    }
    match size.checked_mul(size) {
        Some(cells) => {
            if all_data.len() == cells {
                Some(Vmatrix::<u32>::build(size, all_data))
            } else {
                None
            }
        },
        None => {
            assert(all_data@.len() == all_data.len());
            None
        },
    }
}

} // verus!
