//! The settled blocks: occupancy, row counts, locking and the scan that clears full rows.
use vstd::prelude::*;
use crate::geometry::{Block, WELL_HEIGHT, WELL_WIDTH, distinct_cells, hits, in_well, same_pos};

verus! {

/// The settled blocks at the bottom of the well.
#[derive(Clone, Debug)]
pub struct Stack {
    pub blocks: Vec<Block>,
}

/// How many blocks of `s` stand in row `y`.
pub open spec fn row_count(s: Seq<Block>, y: int) -> nat
    decreases s.len(),
{
    if s.len() == 0 {
        0
    } else {
        row_count(s.drop_last(), y) + (if s.last().y == y { 1nat } else { 0nat })
    }
}

/// Row `y` is full when it holds at least a well's width of blocks.
pub open spec fn full_row(s: Seq<Block>, y: int) -> bool {
    row_count(s, y) >= WELL_WIDTH
}

/// `b` one row lower.
pub open spec fn lowered(b: Block) -> Block {
    Block { x: b.x, y: (b.y + 1) as i32, style: b.style }
}

/// `s` with row `y` removed and every block above it one row lower; the
/// order of the remaining blocks is kept.
pub open spec fn clear_row(s: Seq<Block>, y: int) -> Seq<Block>
    decreases s.len(),
{
    if s.len() == 0 {
        s
    } else {
        let rest = clear_row(s.drop_last(), y);
        let b = s.last();
        if b.y == y {
            rest
        } else if b.y < y {
            rest.push(lowered(b))
        } else {
            rest.push(b)
        }
    }
}

/// One scan of the rows from `r` down to the floor, top to bottom: each row
/// found full when its turn comes is cleared. Gives the blocks left and the
/// number of rows cleared.
pub open spec fn clear_from(s: Seq<Block>, r: int) -> (Seq<Block>, nat)
    decreases WELL_HEIGHT - r,
{
    if r >= WELL_HEIGHT {
        (s, 0)
    } else if full_row(s, r) {
        let t = clear_from(clear_row(s, r), r + 1);
        (t.0, t.1 + 1)
    } else {
        clear_from(s, r + 1)
    }
}

/// Some block has reached the top row, or stands above it.
pub open spec fn at_top(s: Seq<Block>) -> bool {
    exists|i: int| 0 <= i < s.len() && #[trigger] s[i].y <= 0
}

/// Every block lies within the walls and above the floor.
pub open spec fn cells_in_well(s: Seq<Block>) -> bool {
    forall|i: int| 0 <= i < s.len() ==> in_well(#[trigger] s[i])
}

/// No row of the well, nor any row above it, is full.
pub open spec fn no_full_row(s: Seq<Block>) -> bool {
    forall|k: int| k < WELL_HEIGHT ==> #[trigger] row_count(s, k) < WELL_WIDTH
}

/// Each block left by clearing row `r` is a block of `s` from below the row,
/// unchanged, or one from above it, one row lower.
proof fn lemma_clear_row_origin(s: Seq<Block>, r: int, j: int)
    requires
        0 <= j < clear_row(s, r).len(),
    ensures
        exists|k: int|
            0 <= k < s.len() && ((#[trigger] s[k].y > r && clear_row(s, r)[j] == s[k]) || (s[k].y < r
                && clear_row(s, r)[j] == lowered(s[k]))),
    decreases s.len(),
{
    let t = s.drop_last();
    let rest = clear_row(t, r);
    if j < rest.len() {
        lemma_clear_row_origin(t, r, j);
        let k = choose|k: int|
            0 <= k < t.len() && ((#[trigger] t[k].y > r && rest[j] == t[k]) || (t[k].y < r && rest[j]
                == lowered(t[k])));
        assert(t[k] == s[k]);
    } else {
        let k = s.len() - 1;
        assert(s[k] == s.last());
    }
}

proof fn lemma_clear_row_keeps(s: Seq<Block>, r: int)
    requires
        cells_in_well(s),
        distinct_cells(s),
        r < WELL_HEIGHT,
    ensures
        cells_in_well(clear_row(s, r)),
        distinct_cells(clear_row(s, r)),
    decreases s.len(),
{
    if s.len() > 0 {
        let t = s.drop_last();
        let rest = clear_row(t, r);
        let b = s.last();
        assert(b == s[s.len() - 1]);
        lemma_clear_row_keeps(t, r);
        if b.y != r {
            let nb = if b.y < r {
                lowered(b)
            } else {
                b
            };
            assert forall|j: int| 0 <= j < rest.len() implies !same_pos(#[trigger] rest[j], nb) by {
                lemma_clear_row_origin(t, r, j);
                let k = choose|k: int|
                    0 <= k < t.len() && ((#[trigger] t[k].y > r && rest[j] == t[k]) || (t[k].y < r
                        && rest[j] == lowered(t[k])));
                assert(t[k] == s[k]);
                assert(!same_pos(s[k], s[s.len() - 1]));
            }
            assert(clear_row(s, r) == rest.push(nb));
            assert(in_well(nb));
        }
    }
}

/// How many blocks stand in row `k` once row `r` is cleared: rows down to
/// `r` hold what the row above them held, rows below `r` are unchanged.
proof fn lemma_clear_row_count(s: Seq<Block>, r: int, k: int)
    requires
        r < WELL_HEIGHT,
        forall|i: int| 0 <= i < s.len() ==> #[trigger] s[i].y < WELL_HEIGHT,
    ensures
        row_count(clear_row(s, r), k) == if k <= r {
            row_count(s, k - 1)
        } else {
            row_count(s, k)
        },
    decreases s.len(),
{
    if s.len() > 0 {
        let t = s.drop_last();
        let b = s.last();
        assert(b == s[s.len() - 1]);
        assert forall|i: int| 0 <= i < t.len() implies #[trigger] t[i].y < WELL_HEIGHT by {
            assert(t[i] == s[i]);
        }
        lemma_clear_row_count(t, r, k);
        let rest = clear_row(t, r);
        if b.y < r {
            assert(rest.push(lowered(b)).drop_last() =~= rest);
        } else if b.y > r {
            assert(rest.push(b).drop_last() =~= rest);
        }
    }
}

/// A scan keeps every block in the well and no two on one cell.
pub proof fn lemma_clear_from_keeps(s: Seq<Block>, r: int)
    requires
        cells_in_well(s),
        distinct_cells(s),
    ensures
        cells_in_well(clear_from(s, r).0),
        distinct_cells(clear_from(s, r).0),
    decreases WELL_HEIGHT - r,
{
    if r < WELL_HEIGHT {
        if full_row(s, r) {
            lemma_clear_row_keeps(s, r);
            lemma_clear_from_keeps(clear_row(s, r), r + 1);
        } else {
            lemma_clear_from_keeps(s, r + 1);
        }
    }
}

/// A scan from row `r` on leaves no full row, provided no row above `r` is
/// full when it starts.
pub proof fn lemma_clear_from_no_full(s: Seq<Block>, r: int)
    requires
        cells_in_well(s),
        forall|k: int| k < r ==> #[trigger] row_count(s, k) < WELL_WIDTH,
    ensures
        no_full_row(clear_from(s, r).0),
    decreases WELL_HEIGHT - r,
{
    if r < WELL_HEIGHT {
        if full_row(s, r) {
            let t = clear_row(s, r);
            assert forall|i: int| 0 <= i < s.len() implies #[trigger] s[i].y < WELL_HEIGHT by {
                assert(in_well(s[i]));
            }
            assert forall|k: int| k < r + 1 implies #[trigger] row_count(t, k) < WELL_WIDTH by {
                lemma_clear_row_count(s, r, k);
            }
            lemma_clear_row_cells(s, r);
            lemma_clear_from_no_full(t, r + 1);
        } else {
            lemma_clear_from_no_full(s, r + 1);
        }
    }
}

proof fn lemma_clear_row_cells(s: Seq<Block>, r: int)
    requires
        cells_in_well(s),
        r < WELL_HEIGHT,
    ensures
        cells_in_well(clear_row(s, r)),
{
    assert forall|j: int| 0 <= j < clear_row(s, r).len() implies in_well(#[trigger] clear_row(s, r)[j]) by {
        lemma_clear_row_origin(s, r, j);
        let k = choose|k: int|
            0 <= k < s.len() && ((#[trigger] s[k].y > r && clear_row(s, r)[j] == s[k]) || (s[k].y < r
                && clear_row(s, r)[j] == lowered(s[k])));
        assert(in_well(s[k]));
    }
}

/// A scan over a stack without a full row changes nothing.
pub proof fn lemma_clear_from_idle(s: Seq<Block>, r: int)
    requires
        no_full_row(s),
    ensures
        clear_from(s, r) == (s, 0nat),
    decreases WELL_HEIGHT - r,
{
    if r < WELL_HEIGHT {
        assert(row_count(s, r) < WELL_WIDTH);
        lemma_clear_from_idle(s, r + 1);
    }
}

/// Rows count separately in the two parts of a sequence.
pub proof fn lemma_row_count_concat(s: Seq<Block>, t: Seq<Block>, k: int)
    ensures
        row_count(s + t, k) == row_count(s, k) + row_count(t, k),
    decreases t.len(),
{
    if t.len() == 0 {
        assert(s + t =~= s);
    } else {
        assert((s + t).drop_last() =~= s + t.drop_last());
        assert((s + t).last() == t.last());
        lemma_row_count_concat(s, t.drop_last(), k);
    }
}

pub proof fn lemma_row_count_bound(s: Seq<Block>, k: int)
    ensures
        row_count(s, k) <= s.len(),
        (forall|i: int| 0 <= i < s.len() ==> #[trigger] s[i].y != k) ==> row_count(s, k) == 0,
    decreases s.len(),
{
    if s.len() > 0 {
        let t = s.drop_last();
        assert forall|i: int| 0 <= i < t.len() implies t[i] == s[i] by {}
        assert(s.last() == s[s.len() - 1]);
        lemma_row_count_bound(t, k);
    }
}

proof fn lemma_clear_row_len_exact(s: Seq<Block>, r: int)
    ensures
        clear_row(s, r).len() + row_count(s, r) == s.len(),
    decreases s.len(),
{
    if s.len() > 0 {
        lemma_clear_row_len_exact(s.drop_last(), r);
    }
}

/// `b` is some block of `s` from above row `r`, one row lower.
pub open spec fn lowered_from_above(s: Seq<Block>, b: Block, r: int) -> bool {
    exists|k: int| 0 <= k < s.len() && #[trigger] s[k].y < r && b == lowered(s[k])
}

proof fn lemma_clear_from_skip(s: Seq<Block>, r: int, m: int)
    requires
        r <= m <= WELL_HEIGHT,
        forall|k: int| r <= k < m ==> !#[trigger] full_row(s, k),
    ensures
        clear_from(s, r) == clear_from(s, m),
    decreases m - r,
{
    if r < m {
        assert(!full_row(s, r));
        lemma_clear_from_skip(s, r + 1, m);
    }
}

/// With the bottom row full and no other row full, one scan clears exactly
/// that row: the blocks left are all the others, each one row lower than
/// before.
pub proof fn lemma_bottom_row_clear(s: Seq<Block>)
    requires
        cells_in_well(s),
        full_row(s, WELL_HEIGHT - 1),
        forall|k: int| k < WELL_HEIGHT - 1 ==> !#[trigger] full_row(s, k),
    ensures
        clear_from(s, 0) == (clear_row(s, WELL_HEIGHT - 1), 1nat),
        clear_row(s, WELL_HEIGHT - 1).len() == s.len() - row_count(s, WELL_HEIGHT - 1),
        forall|j: int|
            0 <= j < clear_row(s, WELL_HEIGHT - 1).len() ==> lowered_from_above(
                s,
                #[trigger] clear_row(s, WELL_HEIGHT - 1)[j],
                WELL_HEIGHT - 1,
            ),
{
    let r = WELL_HEIGHT - 1;
    lemma_clear_from_skip(s, 0, r);
    lemma_clear_row_len_exact(s, r);
    let t = clear_row(s, r);
    assert(clear_from(t, r + 1) == (t, 0nat));
    assert forall|j: int| 0 <= j < t.len() implies lowered_from_above(s, #[trigger] t[j], r) by {
        lemma_clear_row_origin(s, r, j);
        let k = choose|k: int|
            0 <= k < s.len() && ((#[trigger] s[k].y > r && t[j] == s[k]) || (s[k].y < r && t[j] == lowered(
                s[k],
            )));
        assert(in_well(s[k]));
    }
}

/// How many rows from row `lo` down to the floor are full in `s`.
pub open spec fn full_rows_from(s: Seq<Block>, lo: int) -> nat
    decreases WELL_HEIGHT - lo,
{
    if lo >= WELL_HEIGHT {
        0
    } else {
        full_rows_from(s, lo + 1) + (if full_row(s, lo) { 1nat } else { 0nat })
    }
}

/// `b` sits in a row at or below `r` that is full in `orig`.
pub open spec fn swept(orig: Seq<Block>, b: Block, r: int) -> bool {
    r <= b.y < WELL_HEIGHT && full_row(orig, b.y as int)
}

/// `b` moved `n` rows down.
pub open spec fn dropped(b: Block, n: nat) -> Block {
    Block { x: b.x, y: (b.y + n) as i32, style: b.style }
}

/// The first row, counting from `r`, that lies below `b`.
pub open spec fn first_below(b: Block, r: int) -> int {
    if b.y + 1 > r {
        b.y + 1
    } else {
        r
    }
}

/// What a scan from row `r` leaves of the blocks `s`, judged by the rows
/// full in `orig`: blocks in full rows at or below `r` are gone, and every
/// other block drops by the number of full rows from `r` on that lie below it.
pub open spec fn settle(s: Seq<Block>, orig: Seq<Block>, r: int) -> Seq<Block>
    decreases s.len(),
{
    if s.len() == 0 {
        s
    } else {
        let rest = settle(s.drop_last(), orig, r);
        let b = s.last();
        if swept(orig, b, r) {
            rest
        } else {
            rest.push(dropped(b, full_rows_from(orig, first_below(b, r))))
        }
    }
}

proof fn lemma_full_rows_same(s: Seq<Block>, t: Seq<Block>, lo: int)
    requires
        forall|k: int| lo <= k ==> #[trigger] full_row(s, k) == full_row(t, k),
    ensures
        full_rows_from(s, lo) == full_rows_from(t, lo),
    decreases WELL_HEIGHT - lo,
{
    if lo < WELL_HEIGHT {
        assert(full_row(s, lo) == full_row(t, lo));
        lemma_full_rows_same(s, t, lo + 1);
    }
}

proof fn lemma_full_rows_none(s: Seq<Block>, lo: int)
    requires
        lo >= WELL_HEIGHT,
    ensures
        full_rows_from(s, lo) == 0,
{
}

proof fn lemma_settle_floor(x: Seq<Block>, orig: Seq<Block>)
    requires
        forall|i: int| 0 <= i < x.len() ==> #[trigger] x[i].y < WELL_HEIGHT,
    ensures
        settle(x, orig, WELL_HEIGHT as int) == x,
    decreases x.len(),
{
    if x.len() > 0 {
        let t = x.drop_last();
        assert forall|i: int| 0 <= i < t.len() implies #[trigger] t[i].y < WELL_HEIGHT by {
            assert(t[i] == x[i]);
        }
        lemma_settle_floor(t, orig);
        let b = x.last();
        assert(b == x[x.len() - 1]);
        lemma_full_rows_none(orig, first_below(b, WELL_HEIGHT as int));
        assert(t.push(b) =~= x);
    }
}

proof fn lemma_settle_skip(x: Seq<Block>, s: Seq<Block>, r: int)
    requires
        !full_row(s, r),
    ensures
        settle(x, s, r + 1) == settle(x, s, r),
    decreases x.len(),
{
    if x.len() > 0 {
        lemma_settle_skip(x.drop_last(), s, r);
        let b = x.last();
        if b.y + 1 <= r {
            if r < WELL_HEIGHT {
                assert(full_rows_from(s, r) == full_rows_from(s, r + 1));
            }
        }
    }
}

proof fn lemma_settle_after_clear(x: Seq<Block>, s: Seq<Block>, t: Seq<Block>, r: int)
    requires
        0 <= r < WELL_HEIGHT,
        full_row(s, r),
        forall|k: int| r + 1 <= k ==> #[trigger] full_row(s, k) == full_row(t, k),
        forall|i: int| 0 <= i < x.len() ==> #[trigger] x[i].y < WELL_HEIGHT,
    ensures
        settle(clear_row(x, r), t, r + 1) == settle(x, s, r),
    decreases x.len(),
{
    if x.len() > 0 {
        let x0 = x.drop_last();
        assert forall|i: int| 0 <= i < x0.len() implies #[trigger] x0[i].y < WELL_HEIGHT by {
            assert(x0[i] == x[i]);
        }
        lemma_settle_after_clear(x0, s, t, r);
        let b = x.last();
        assert(b == x[x.len() - 1]);
        let c = clear_row(x0, r);
        if b.y < r {
            assert(c.push(lowered(b)).drop_last() =~= c);
            lemma_full_rows_same(s, t, r + 1);
            assert(first_below(lowered(b), r + 1) == r + 1);
        } else if b.y > r {
            assert(c.push(b).drop_last() =~= c);
            lemma_full_rows_same(s, t, b.y + 1);
            assert(full_row(s, b.y as int) == full_row(t, b.y as int));
        }
    }
}

proof fn lemma_scan_direct(s: Seq<Block>, r: int)
    requires
        0 <= r <= WELL_HEIGHT,
        cells_in_well(s),
    ensures
        clear_from(s, r) == (settle(s, s, r), full_rows_from(s, r)),
    decreases WELL_HEIGHT - r,
{
    assert forall|i: int| 0 <= i < s.len() implies #[trigger] s[i].y < WELL_HEIGHT by {
        assert(in_well(s[i]));
    }
    if r == WELL_HEIGHT {
        lemma_settle_floor(s, s);
    } else if full_row(s, r) {
        let t = clear_row(s, r);
        lemma_clear_row_cells(s, r);
        lemma_scan_direct(t, r + 1);
        assert forall|k: int| r + 1 <= k implies #[trigger] full_row(s, k) == full_row(t, k) by {
            lemma_clear_row_count(s, r, k);
        }
        lemma_full_rows_same(s, t, r + 1);
        lemma_settle_after_clear(s, s, t, r);
    } else {
        lemma_scan_direct(s, r + 1);
        lemma_settle_skip(s, s, r);
    }
}

/// A scan removes exactly the rows that are full when it starts, and moves
/// every other block down by the number of those rows that lie below it; it
/// counts exactly those rows.
pub proof fn lemma_scan_result(s: Seq<Block>)
    requires
        cells_in_well(s),
    ensures
        clear_from(s, 0) == (settle(s, s, 0), full_rows_from(s, 0)),
{
    lemma_scan_direct(s, 0);
}

impl View for Stack {
    type V = Seq<Block>;

    open spec fn view(&self) -> Seq<Block> {
        self.blocks@
    }
}

impl Stack {
    pub fn new() -> (r: Stack)
        ensures
            r@ == Seq::<Block>::empty(),
    {
        Stack { blocks: Vec::new() }
    }

    /// Whether some settled block stands on the cell of `b`.
    pub fn occupies(&self, b: &Block) -> (r: bool)
        ensures
            r == hits(self@, *b),
    {
        let mut i: usize = 0;
        while i < self.blocks.len()
            invariant
                0 <= i <= self.blocks.len(),
                forall|k: int| 0 <= k < i ==> !same_pos(#[trigger] self@[k], *b),
            decreases self.blocks.len() - i,
        {
            if self.blocks[i].x == b.x && self.blocks[i].y == b.y {
                assert(same_pos(self@[i as int], *b));
                return true;
            }
            i += 1;
        }
        false
    }

    /// How many settled blocks stand in row `y`.
    pub fn row_len(&self, y: i32) -> (n: usize)
        ensures
            n == row_count(self@, y as int),
    {
        let mut n: usize = 0;
        let mut i: usize = 0;
        while i < self.blocks.len()
            invariant
                0 <= i <= self.blocks.len(),
                n == row_count(self@.subrange(0, i as int), y as int),
                n <= i,
            decreases self.blocks.len() - i,
        {
            assert(self@.subrange(0, i as int + 1).drop_last() =~= self@.subrange(0, i as int));
            if self.blocks[i].y == y {
                n += 1;
            }
            i += 1;
        }
        assert(self@.subrange(0, self@.len() as int) =~= self@);
        n
    }

    /// Removes row `y` and moves every block above it one row lower.
    pub fn clear_row(&mut self, y: i32)
        ensures
            final(self)@ == clear_row(old(self)@, y as int),
    {
        let mut out: Vec<Block> = Vec::new();
        let mut i: usize = 0;
        while i < self.blocks.len()
            invariant
                0 <= i <= self.blocks.len(),
                out@ == clear_row(self@.subrange(0, i as int), y as int),
            decreases self.blocks.len() - i,
        {
            assert(self@.subrange(0, i as int + 1).drop_last() =~= self@.subrange(0, i as int));
            let b = self.blocks[i];
            if b.y < y {
                out.push(Block { x: b.x, y: b.y + 1, style: b.style });
            } else if b.y > y {
                out.push(b);
            }
            i += 1;
        }
        assert(self@.subrange(0, self@.len() as int) =~= self@);
        self.blocks = out;
    }

    /// Scans the rows top to bottom and clears each one found full, moving the
    /// blocks above it down. Returns how many rows were cleared.
    pub fn clear_full_rows(&mut self) -> (n: u32)
        ensures
            final(self)@ == clear_from(old(self)@, 0).0,
            n == clear_from(old(self)@, 0).1,
            n <= WELL_HEIGHT,
    {
        let ghost start = self@;
        let mut n: u32 = 0;
        let mut r: i32 = 0;
        while r < WELL_HEIGHT
            invariant
                0 <= r <= WELL_HEIGHT,
                n <= r,
                clear_from(self@, r as int).0 == clear_from(start, 0).0,
                n + clear_from(self@, r as int).1 == clear_from(start, 0).1,
            decreases WELL_HEIGHT - r,
        {
            if self.row_len(r) >= WELL_WIDTH as usize {
                self.clear_row(r);
                n += 1;
            }
            r += 1;
        }
        n
    }

    /// Puts every block of the piece into the stack, in order, unchanged.
    pub fn lock(&mut self, piece: &Vec<Block>)
        ensures
            final(self)@ == old(self)@ + piece@,
    {
        let ghost start = self@;
        let mut i: usize = 0;
        while i < piece.len()
            invariant
                0 <= i <= piece.len(),
                self@ == start + piece@.subrange(0, i as int),
            decreases piece.len() - i,
        {
            self.blocks.push(piece[i]);
            i += 1;
            assert(self@ =~= start + piece@.subrange(0, i as int));
        }
        assert(piece@.subrange(0, piece@.len() as int) =~= piece@);
    }

    /// Whether some settled block has reached the top row: the round is over.
    pub fn reaches_top(&self) -> (r: bool)
        ensures
            r == at_top(self@),
    {
        let mut i: usize = 0;
        while i < self.blocks.len()
            invariant
                0 <= i <= self.blocks.len(),
                forall|k: int| 0 <= k < i ==> #[trigger] self@[k].y > 0,
            decreases self.blocks.len() - i,
        {
            if self.blocks[i].y <= 0 {
                return true;
            }
            i += 1;
        }
        false
    }
}

} // verus!
