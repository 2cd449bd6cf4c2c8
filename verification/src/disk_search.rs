//! Stepping through the matches of a search: the whole-disk search of the
//! Sectors view, and the Find of the file viewer.
use vstd::prelude::*;

verus! {

/// Bytes per sector of the Sectors view.
pub const SEARCH_SECTOR_BYTES: usize = 512;

/// Bytes per row of the Sectors view's hex dump.
pub const SEARCH_ROW_BYTES: usize = 16;

/// The match list of a disk search and the one currently shown.
#[derive(Debug, Clone, PartialEq, Eq)]
pub struct DiskSearch {
    /// Byte offsets of the matches in the image, in the order found.
    pub matches: Vec<usize>,
    /// Index of the match currently shown.
    pub pos: usize,
}

/// The match index after a step from `pos` among `n` matches: the next one
/// forward or the previous one backward, wrapping around at either end.
pub open spec fn stepped(pos: nat, n: nat, forward: bool) -> nat {
    if n == 0 {
        pos
    } else if forward {
        (pos + 1) % (n as int) as nat
    } else {
        ((pos + n - 1) % (n as int)) as nat
    }
}

/// The sector an image offset lies in, and the 16-byte row within that
/// sector.
pub open spec fn sector_and_row(off: nat) -> (nat, nat) {
    (off / 512, (off % 512) / 16)
}

impl DiskSearch {
    /// Moves to the next (`forward`) or previous match, wrapping around at
    /// either end; nothing happens when there are no matches.
    pub fn step(&mut self, forward: bool)
        requires
            old(self).pos + old(self).matches@.len() <= usize::MAX,
        ensures
            final(self).matches@ == old(self).matches@,
            final(self).pos == stepped(old(self).pos as nat, old(self).matches@.len(), forward),
    {
        let n = self.matches.len();
        if n == 0 {
            return;
        }
        self.pos = if forward {
            (self.pos + 1) % n
        } else {
            (self.pos + n - 1) % n
        };
    }

    /// Where the current match is shown: its sector, and the row of that
    /// sector's hex dump it falls in; `None` when there is no current match.
    pub fn jump_target(&self) -> (r: Option<(usize, usize)>)
        ensures
            r == (if self.pos < self.matches@.len() {
                let (s, w) = sector_and_row(self.matches@[self.pos as int] as nat);
                Some((s as usize, w as usize))
            } else {
                None
            }),
    {
        if self.pos < self.matches.len() {
            let off = self.matches[self.pos];
            Some((off / SEARCH_SECTOR_BYTES, (off % SEARCH_SECTOR_BYTES) / SEARCH_ROW_BYTES))
        } else {
            None
        }
    }
}

/// A step always lands on a match, and a step one way followed by a step the
/// other way comes back to where it started.
pub proof fn lemma_step_round_trip(pos: nat, n: nat, forward: bool)
    requires
        pos < n,
    ensures
        stepped(pos, n, forward) < n,
        stepped(stepped(pos, n, forward), n, !forward) == pos,
{
    let p = pos as int;
    let m = n as int;
    if forward {
        if p + 1 < m {
            assert((p + 1) % m == p + 1) by (nonlinear_arith)
                requires 0 <= p + 1 < m;
            assert((p + 1 + m - 1) % m == p) by (nonlinear_arith)
                requires 0 <= p < m, m > 0;
        } else {
            assert((p + 1) % m == 0) by (nonlinear_arith)
                requires p + 1 == m, m > 0;
            assert((0 + m - 1) % m == p) by (nonlinear_arith)
                requires p == m - 1, m > 0;
        }
    } else {
        if p > 0 {
            assert((p + m - 1) % m == p - 1) by (nonlinear_arith)
                requires 0 < p < m;
            assert((p - 1 + 1) % m == p) by (nonlinear_arith)
                requires 0 <= p < m;
        } else {
            assert((p + m - 1) % m == m - 1) by (nonlinear_arith)
                requires p == 0, m > 0;
            assert((m - 1 + 1) % m == 0) by (nonlinear_arith)
                requires m > 0;
        }
    }
}

/// How many newline bytes `text` holds before position `end`.
pub open spec fn newlines_before(text: Seq<u8>, end: int) -> nat
    decreases end,
{
    if end <= 0 {
        0
    } else {
        newlines_before(text, end - 1) + if text[end - 1] == 10 {
            1nat
        } else {
            0nat
        }
    }
}

proof fn lemma_newlines_bounded(text: Seq<u8>, end: int)
    requires
        0 <= end,
    ensures
        newlines_before(text, end) <= end,
    decreases end,
{
    if end > 0 {
        lemma_newlines_bounded(text, end - 1);
    }
}

/// The listing line of each match of a Find in a rendered listing: the
/// number of newlines before the match's byte offset, so the view scrolls by
/// line.
pub fn listing_match_lines(text: &[u8], offsets: &[usize]) -> (r: Vec<usize>)
    requires
        forall|i: int| 0 <= i < offsets@.len() ==> offsets@[i] <= text@.len(),
    ensures
        r@.len() == offsets@.len(),
        forall|i: int| 0 <= i < offsets@.len() ==> r@[i] as nat == newlines_before(text@, offsets@[i] as int),
{
    let mut out: Vec<usize> = Vec::new();
    let mut i: usize = 0;
    while i < offsets.len()
        invariant
            i <= offsets@.len(),
            out@.len() == i,
            forall|k: int| 0 <= k < offsets@.len() ==> offsets@[k] <= text@.len(),
            forall|k: int| 0 <= k < i ==> out@[k] as nat == newlines_before(text@, offsets@[k] as int),
        decreases offsets@.len() - i,
    {
        let end = offsets[i];
        let mut count: usize = 0;
        let mut j: usize = 0;
        while j < end
            invariant
                j <= end,
                end <= text@.len(),
                count as nat == newlines_before(text@, j as int),
            decreases end - j,
        {
            proof {
                lemma_newlines_bounded(text@, j as int);
            }
            if text[j] == 10 {
                count = count + 1;
            }
            j = j + 1;
        }
        out.push(count);
        i = i + 1;
    }
    out
}

/// The row a Find scrolls to for a match: in the Hex view the row of the
/// match's byte `offset` (at `bytes_per_row`, taken as at least one), in a
/// listing the match's line (`line`, the first line when unknown).
pub fn match_scroll_row(hex: bool, offset: usize, bytes_per_row: usize, line: Option<usize>) -> (r: usize)
    ensures
        r == (if hex {
            offset / (if bytes_per_row == 0 { 1 } else { bytes_per_row }) as usize
        } else {
            match line {
                Some(l) => l,
                None => 0,
            }
        }),
{
    if hex {
        let per_row: usize = if bytes_per_row == 0 {
            1
        } else {
            bytes_per_row
        };
        offset / per_row
    } else {
        match line {
            Some(l) => l,
            None => 0,
        }
    }
}

} // verus!
