//! What the hex view's go-to box does with the offset typed into it.

use vstd::prelude::*;

use crate::hexui::{goto_for, offset_of, offset_digits, GotoOutcome};
use crate::text::{
    digit_value, digits_of, is_ws, lemma_digits_value, starts_with, trim, trim_end, trim_start, upper_hex_digit,
};

verus! {

/// The offset the cursor goes to, when the outcome is a jump.
pub open spec fn jump_target(o: GotoOutcome) -> Option<nat> {
    match o {
        GotoOutcome::Jump { offset, row: _ } => Some(offset as nat),
        _ => None,
    }
}

/// The row the view scrolls to, when the outcome is a jump.
pub open spec fn jump_row(o: GotoOutcome) -> Option<nat> {
    match o {
        GotoOutcome::Jump { offset: _, row } => Some(row as nat),
        _ => None,
    }
}

/// The offset reported as lying past the end, when the outcome says so.
pub open spec fn past_end_offset(o: GotoOutcome) -> Option<nat> {
    match o {
        GotoOutcome::PastEnd { offset } => Some(offset as nat),
        _ => None,
    }
}

/// Bytes on one row of the view: the requested count, at least one.
pub open spec fn row_width(bytes_per_row: nat) -> nat {
    if bytes_per_row >= 1 {
        bytes_per_row
    } else {
        1
    }
}

/// A go-to that names an offset inside the data puts the cursor on exactly
/// that offset, and scrolls to the row that holds it.
pub proof fn lemma_goto_lands_on_offset(input: Seq<char>, len: nat, bytes_per_row: nat, off: nat)
    requires
        offset_of(input) == Some(off),
        off < len,
        len <= usize::MAX,
    ensures
        jump_target(goto_for(input, len, bytes_per_row)) == Some(off),
        jump_row(goto_for(input, len, bytes_per_row)) is Some,
        jump_row(goto_for(input, len, bytes_per_row)).unwrap() * row_width(bytes_per_row) <= off,
        off < (jump_row(goto_for(input, len, bytes_per_row)).unwrap() + 1) * row_width(bytes_per_row),
{
    let b: nat = row_width(bytes_per_row);
    let row = off / b;
    assert(row * b <= off < (row + 1) * b) by (nonlinear_arith)
        requires
            b >= 1,
            row == off / b,
    ;
    assert(row <= off) by (nonlinear_arith)
        requires
            b >= 1,
            row == off / b,
    ;
}

proof fn lemma_trim_digits(t: Seq<char>)
    requires
        t.len() > 0,
        !is_ws(t[0]),
        !is_ws(t.last()),
    ensures
        trim(t) == t,
{
    assert(trim_start(t) == t);
    assert(trim_end(t) == t);
}

/// The offset typed as its hex digits (uppercase, `0x` before them or not)
/// is the offset the go-to box reads.
pub proof fn lemma_typed_offset_is_read(n: nat)
    requires
        n <= usize::MAX,
    ensures
        offset_of(digits_of(n, 16)) == Some(n),
        offset_of(seq!['0', 'x'] + digits_of(n, 16)) == Some(n),
{
    let d = digits_of(n, 16);
    lemma_digits_value(n, 16);
    assert(upper_hex_digit(d[0]));
    assert(upper_hex_digit(d[d.len() - 1]));
    lemma_trim_digits(d);
    if starts_with(d, seq!['0', 'x']) {
        assert(d.take(2)[1] == 'x');
        assert(upper_hex_digit(d[1]));
    }
    if starts_with(d, seq!['0', 'X']) {
        assert(d.take(2)[1] == 'X');
        assert(upper_hex_digit(d[1]));
    }
    assert(offset_digits(d) == d);
    assert(digit_value(d[0], 16) is Some);
    let p = seq!['0', 'x'] + d;
    assert(p[0] == '0');
    assert(p.last() == d.last());
    lemma_trim_digits(p);
    assert(p.take(2) =~= seq!['0', 'x']);
    assert(p.skip(2) =~= d);
    assert(offset_digits(p) == d);
}

/// Typing an offset's hex digits jumps to that very offset when it lies in
/// the data, and reports it as past the end otherwise.
pub proof fn lemma_goto_typed_offset(n: nat, len: nat, bytes_per_row: nat)
    requires
        n <= usize::MAX,
        len <= usize::MAX,
    ensures
        n < len ==> jump_target(goto_for(digits_of(n, 16), len, bytes_per_row)) == Some(n),
        n < len ==> jump_target(goto_for(seq!['0', 'x'] + digits_of(n, 16), len, bytes_per_row)) == Some(n),
        n >= len ==> past_end_offset(goto_for(digits_of(n, 16), len, bytes_per_row)) == Some(n),
{
    lemma_typed_offset_is_read(n);
}

} // verus!
