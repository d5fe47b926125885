//! Human-readable sizes: a byte count scaled by thousands, with the
//! remainder of the last division as its fraction.

use vstd::prelude::*;
use crate::text::{decimal, push_decimal};

verus! {

/// How many units there are: B, kB, MB, GB, TB.
pub const UNIT_COUNT: usize = 5;

/// `size` divided by a thousand, `steps` times over.
pub open spec fn scaled(size: nat, steps: nat) -> nat {
    if steps == 0 {
        size
    } else if steps == 1 {
        size / 1_000
    } else if steps == 2 {
        size / 1_000_000
    } else if steps == 3 {
        size / 1_000_000_000
    } else {
        size / 1_000_000_000_000
    }
}

/// The unit a size is shown in: the first one in which the scaled size is
/// at most a thousand, and the largest one if there is none.
pub open spec fn unit_index(size: nat) -> nat {
    if scaled(size, 0) <= 1000 {
        0
    } else if scaled(size, 1) <= 1000 {
        1
    } else if scaled(size, 2) <= 1000 {
        2
    } else if scaled(size, 3) <= 1000 {
        3
    } else {
        4
    }
}

/// The whole part of the displayed size.
pub open spec fn whole_part(size: nat) -> nat {
    scaled(size, unit_index(size))
}

/// The fraction of the displayed size: what the last division by a thousand
/// left over, and zero where nothing was divided.
pub open spec fn fraction_part(size: nat) -> nat {
    let k = unit_index(size);
    if k == 0 {
        0
    } else {
        scaled(size, (k - 1) as nat) % 1000
    }
}

/// The name of the unit at `index`.
pub open spec fn unit_name(index: nat) -> Seq<char> {
    if index == 0 {
        seq!['B']
    } else if index == 1 {
        seq!['k', 'B']
    } else if index == 2 {
        seq!['M', 'B']
    } else if index == 3 {
        seq!['G', 'B']
    } else {
        seq!['T', 'B']
    }
}

/// The displayed form of a size: whole part, a dot, the fraction as a plain
/// numeral (neither padded nor rounded), a space and the unit.
pub open spec fn size_text(size: nat) -> Seq<char> {
    decimal(whole_part(size)) + seq!['.'] + decimal(fraction_part(size)) + seq![' ']
        + unit_name(unit_index(size))
}

fn unit_label(index: usize) -> (label: &'static str)
    requires
        index < UNIT_COUNT,
    ensures
        label@ == unit_name(index as nat),
{
    proof {
        reveal_strlit("B");
        reveal_strlit("kB");
        reveal_strlit("MB");
        reveal_strlit("GB");
        reveal_strlit("TB");
    }
    let label = if index == 0 {
        "B"
    } else if index == 1 {
        "kB"
    } else if index == 2 {
        "MB"
    } else if index == 3 {
        "GB"
    } else {
        "TB"
    };
    label
}

/// Splits a size into whole part, fraction and unit.
pub fn scale(size: u64) -> (parts: (u64, u64, usize))
    ensures
        parts.0 == whole_part(size as nat),
        parts.1 == fraction_part(size as nat),
        parts.2 == unit_index(size as nat),
{
    let mut whole: u64 = size;
    let mut fraction: u64 = 0;
    let mut index: usize = 0;
    while whole > 1000 && index + 1 < UNIT_COUNT
        invariant
            index < UNIT_COUNT,
            whole == scaled(size as nat, index as nat),
            index == 0 ==> fraction == 0,
            index > 0 ==> fraction == scaled(size as nat, (index - 1) as nat) % 1000,
            forall|j: nat| j < index ==> scaled(size as nat, j) > 1000,
        decreases UNIT_COUNT - index,
    {
        fraction = whole % 1000;
        whole = whole / 1000;
        index = index + 1;
    }
    (whole, fraction, index)
}

/// Formats a byte count for display.
pub fn size_with_unit(size: u64) -> (text: String)
    ensures
        text@ == size_text(size as nat),
{
    let (whole, fraction, index) = scale(size);
    let mut text = String::new();
    push_decimal(&mut text, whole);
    text.push('.');
    push_decimal(&mut text, fraction);
    text.push(' ');
    text.append(unit_label(index));
    text
}

} // verus!
