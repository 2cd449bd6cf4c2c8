//! The sector viewer's position: which sector is shown, how the arrow buttons
//! move it, and the position line above the hex dump.

use vstd::prelude::*;

use crate::text::{append_chars, append_str, digits_of, pad_left, pad_left_vec, radix_digits, string_from_chars};

verus! {

/// The sector to show when the disk has `count` sectors: the current one,
/// or the last one when the current lies past the end.
pub fn clamp_sector(current: usize, count: usize) -> (r: usize)
    requires
        count > 0,
    ensures
        r == (if current < count { current } else { (count - 1) as usize }),
{
    if current >= count {
        count - 1
    } else {
        current
    }
}

/// The sector the ◀ (`forward` false) or ▶ (`forward` true) button moves to:
/// one back or one on, staying put at either end.
pub open spec fn stepped_sector(current: nat, count: nat, forward: bool) -> nat {
    if forward {
        if current + 1 < count {
            current + 1
        } else {
            current
        }
    } else {
        if current > 0 {
            (current - 1) as nat
        } else {
            current
        }
    }
}

/// The sector the ◀ (`forward` false) or ▶ (`forward` true) button moves to.
pub fn step_sector(current: usize, count: usize, forward: bool) -> (r: usize)
    ensures
        r == stepped_sector(current as nat, count as nat, forward),
{
    if forward {
        if current < count && count - current > 1 {
            current + 1
        } else {
            current
        }
    } else {
        if current > 0 {
            current - 1
        } else {
            current
        }
    }
}

/// ▶ then ◀ comes back to the sector it started from, unless it started on
/// the last sector; the buttons never leave the disk.
pub proof fn lemma_step_back_undoes_step_on(current: nat, count: nat)
    requires
        current + 1 < count,
    ensures
        stepped_sector(stepped_sector(current, count, true), count, false) == current,
        stepped_sector(current, count, true) < count,
        stepped_sector(current, count, false) < count,
{
}

/// The position line: `/ 1440    offset 0x000200` for sector 1 of 1440.
pub open spec fn position_text(current: nat, count: nat) -> Seq<char> {
    "/ "@ + digits_of(count, 10) + "    offset 0x"@ + pad_left(digits_of(current * 512, 16), 6, '0')
}

/// The position line shown beside the sector number.
pub fn sector_position_text(current: usize, count: usize) -> (r: String)
    requires
        current * 512 <= usize::MAX,
    ensures
        r@ == position_text(current as nat, count as nat),
{
    let mut out: Vec<char> = Vec::new();
    append_str(&mut out, "/ ");
    let n = radix_digits(count as u64, 10);
    append_chars(&mut out, n.as_slice());
    append_str(&mut out, "    offset 0x");
    let offset: usize = current * 512;
    let h = pad_left_vec(radix_digits(offset as u64, 16), 6, '0');
    append_chars(&mut out, h.as_slice());
    proof {
        assert(out@ =~= position_text(current as nat, count as nat));
    }
    string_from_chars(out.as_slice())
}

} // verus!
