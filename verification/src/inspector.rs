//! The hex view's data inspector: the bytes at the cursor read as numbers of
//! several widths, and the drive of a file control block.
use vstd::prelude::*;

use crate::text::{append_chars, append_str, chars_of, digits_of, pad_left, pad_left_vec, radix_digits, string_from_chars};

verus! {

/// The unsigned value of two little-endian bytes.
pub open spec fn le16(a: Seq<u8>) -> nat {
    a[0] as nat + a[1] as nat * 256
}

/// The unsigned value of three little-endian bytes.
pub open spec fn le24(a: Seq<u8>) -> nat {
    le16(a) + a[2] as nat * 65536
}

/// The unsigned value of four little-endian bytes.
pub open spec fn le32(a: Seq<u8>) -> nat {
    le24(a) + a[3] as nat * 16777216
}

/// `v` read as two's complement, where `half` is the first value that is
/// negative (128 for a byte, 32768 for a 16-bit word).
pub open spec fn as_signed(v: nat, half: nat) -> int {
    if v >= half {
        v - 2 * half
    } else {
        v as int
    }
}

/// A signed number in decimal, with a leading `-` when negative.
pub open spec fn signed_text(v: int) -> Seq<char> {
    if v < 0 {
        "-"@ + digits_of((-v) as nat, 10)
    } else {
        digits_of(v as nat, 10)
    }
}

/// The inspector's rows for the bytes `at` from the cursor on, each a label
/// and a value: the first byte as `u8`, `i8`, `0xHH`, eight binary digits and
/// the character `ch` it shows as, then the little-endian `u16`/`i16`, `u24`
/// and `u32` that start there, as far as there are bytes for them. No rows
/// when the cursor is past the end.
pub open spec fn inspector_text(at: Seq<u8>, ch: char) -> Seq<(Seq<char>, Seq<char>)> {
    if at.len() == 0 {
        Seq::empty()
    } else {
        let b = at[0] as nat;
        seq![
            ("u8"@, digits_of(b, 10)),
            ("i8"@, signed_text(as_signed(b, 128))),
            ("hex"@, "0x"@ + pad_left(digits_of(b, 16), 2, '0')),
            ("binary"@, pad_left(digits_of(b, 2), 8, '0')),
            ("char"@, seq![ch]),
        ] + (if at.len() >= 2 {
            seq![
                ("u16 (LE)"@, digits_of(le16(at), 10)),
                ("i16 (LE)"@, signed_text(as_signed(le16(at), 32768))),
            ]
        } else {
            Seq::empty()
        }) + (if at.len() >= 3 {
            seq![("u24 (LE)"@, digits_of(le24(at), 10))]
        } else {
            Seq::empty()
        }) + (if at.len() >= 4 {
            seq![("u32 (LE)"@, digits_of(le32(at), 10))]
        } else {
            Seq::empty()
        })
    }
}

/// The text of each label/value row.
pub open spec fn rows_view(v: Seq<(String, String)>) -> Seq<(Seq<char>, Seq<char>)> {
    v.map_values(|p: (String, String)| (p.0@, p.1@))
}

fn push_row(rows: &mut Vec<(String, String)>, label: &str, value: Vec<char>)
    ensures
        rows_view(final(rows)@) == rows_view(old(rows)@).push((label@, value@)),
{
    let l = string_from_chars(chars_of(label).as_slice());
    let v = string_from_chars(value.as_slice());
    rows.push((l, v));
    proof {
        assert(rows_view(rows@) =~= rows_view(old(rows)@).push((label@, value@)));
    }
}

fn signed_chars(negative: bool, magnitude: u64) -> (r: Vec<char>)
    ensures
        r@ == (if negative { "-"@ + digits_of(magnitude as nat, 10) } else { digits_of(
            magnitude as nat,
            10,
        ) }),
{
    let d = radix_digits(magnitude, 10);
    if negative {
        let mut r: Vec<char> = Vec::new();
        r.push('-');
        append_chars(&mut r, d.as_slice());
        proof {
            reveal_strlit("-");
            assert(r@ =~= "-"@ + digits_of(magnitude as nat, 10));
        }
        r
    } else {
        d
    }
}

/// The data inspector's rows for the bytes of `bytes` from `origin` on; `ch`
/// is how the byte at `origin` shows as a character.
pub fn inspector_rows(bytes: &[u8], origin: usize, ch: char) -> (r: Vec<(String, String)>)
    ensures
        rows_view(r@) == inspector_text(
            if origin <= bytes@.len() { bytes@.skip(origin as int) } else { Seq::empty() },
            ch,
        ),
{
    let ghost at = if origin <= bytes@.len() { bytes@.skip(origin as int) } else { Seq::<u8>::empty() };
    let mut rows: Vec<(String, String)> = Vec::new();
    if origin >= bytes.len() {
        proof {
            assert(at.len() == 0);
            assert(rows_view(rows@) =~= Seq::<(Seq<char>, Seq<char>)>::empty());
        }
        return rows;
    }
    let n = bytes.len() - origin;
    let b = bytes[origin];
    proof {
        assert(at.len() == n && at[0] == b);
    }
    push_row(&mut rows, "u8", radix_digits(b as u64, 10));
    let neg8 = b >= 128;
    let mag8: u64 = if neg8 { 256 - b as u64 } else { b as u64 };
    push_row(&mut rows, "i8", signed_chars(neg8, mag8));
    let mut hex: Vec<char> = Vec::new();
    append_str(&mut hex, "0x");
    let hd = pad_left_vec(radix_digits(b as u64, 16), 2, '0');
    append_chars(&mut hex, hd.as_slice());
    push_row(&mut rows, "hex", hex);
    push_row(&mut rows, "binary", pad_left_vec(radix_digits(b as u64, 2), 8, '0'));
    let mut c: Vec<char> = Vec::new();
    c.push(ch);
    push_row(&mut rows, "char", c);
    let ghost first = rows_view(rows@);
    proof {
        reveal_strlit("0x");
        reveal_strlit("-");
        assert(first =~= seq![
            ("u8"@, digits_of(b as nat, 10)),
            ("i8"@, signed_text(as_signed(b as nat, 128))),
            ("hex"@, "0x"@ + pad_left(digits_of(b as nat, 16), 2, '0')),
            ("binary"@, pad_left(digits_of(b as nat, 2), 8, '0')),
            ("char"@, seq![ch]),
        ]);
    }
    let ghost mut second: Seq<(Seq<char>, Seq<char>)> = Seq::empty();
    if n >= 2 {
        let b1 = bytes[origin + 1];
        let v16: u64 = b as u64 + b1 as u64 * 256;
        proof {
            assert(at[1] == b1);
            assert(v16 == le16(at));
        }
        push_row(&mut rows, "u16 (LE)", radix_digits(v16, 10));
        let neg16 = v16 >= 32768;
        let mag16: u64 = if neg16 { 65536 - v16 } else { v16 };
        push_row(&mut rows, "i16 (LE)", signed_chars(neg16, mag16));
        proof {
            second = seq![
                ("u16 (LE)"@, digits_of(le16(at), 10)),
                ("i16 (LE)"@, signed_text(as_signed(le16(at), 32768))),
            ];
            assert(rows_view(rows@) =~= first + second);
        }
    }
    let ghost mut third: Seq<(Seq<char>, Seq<char>)> = Seq::empty();
    if n >= 3 {
        let v24: u64 = b as u64 + bytes[origin + 1] as u64 * 256 + bytes[origin + 2] as u64 * 65536;
        proof {
            assert(at[1] == bytes@[origin + 1] && at[2] == bytes@[origin + 2]);
            assert(v24 == le24(at));
        }
        push_row(&mut rows, "u24 (LE)", radix_digits(v24, 10));
        proof {
            third = seq![("u24 (LE)"@, digits_of(le24(at), 10))];
            assert(rows_view(rows@) =~= first + second + third);
        }
    }
    let ghost mut fourth: Seq<(Seq<char>, Seq<char>)> = Seq::empty();
    if n >= 4 {
        let v32: u64 = b as u64 + bytes[origin + 1] as u64 * 256 + bytes[origin + 2] as u64 * 65536
            + bytes[origin + 3] as u64 * 16777216;
        proof {
            assert(at[1] == bytes@[origin + 1] && at[2] == bytes@[origin + 2] && at[3] == bytes@[origin
                + 3]);
            assert(v32 == le32(at));
        }
        push_row(&mut rows, "u32 (LE)", radix_digits(v32, 10));
        proof {
            fourth = seq![("u32 (LE)"@, digits_of(le32(at), 10))];
            assert(rows_view(rows@) =~= first + second + third + fourth);
        }
    }
    proof {
        assert(rows_view(rows@) =~= first + second + third + fourth);
        assert(inspector_text(at, ch) =~= first + second + third + fourth);
    }
    rows
}

/// The drive of a file control block as the inspector shows it: the drive
/// number and its letter (`1 (A:)`), or `None` for 0, the default drive.
pub open spec fn fcb_drive(drive: u8) -> Option<Seq<char>> {
    if drive == 0 {
        None
    } else {
        Some(digits_of(drive as nat, 10) + " ("@ + seq![((64 + drive) as u8) as char] + ":)"@)
    }
}

/// The drive of a file control block as the inspector shows it, or `None`
/// for the default drive (which the caller names in the user's language).
pub fn fcb_drive_text(drive: u8) -> (r: Option<String>)
    requires
        drive <= 190,
    ensures
        match r {
            Some(s) => fcb_drive(drive) == Some(s@),
            None => fcb_drive(drive) is None,
        },
{
    if drive == 0 {
        return None;
    }
    let mut out = radix_digits(drive as u64, 10);
    append_str(&mut out, " (");
    let code: u8 = 64 + drive;
    let letter = code as char;
    out.push(letter);
    append_str(&mut out, ":)");
    proof {
        reveal_strlit(" (");
        reveal_strlit(":)");
        assert(out@ =~= digits_of(drive as nat, 10) + " ("@ + seq![((64 + drive) as u8) as char] + ":)"@);
    }
    Some(string_from_chars(out.as_slice()))
}

} // verus!
