//! The mathematical model of a single row move.
//!
//! A 16-bit row pattern is read as four cells, low nybble first. Sliding the
//! row toward the low nybble (the canonical collapse, used directly for the
//! "right" move) means: drop the empty cells, merge equal neighbours once
//! each from the front, pad with zeros. Sliding the other way is the same
//! collapse conjugated by reversal.

use vstd::prelude::*;

use crate::masks::lemma_field_bounds;
use crate::masks::reverse_spec;

verus! {

/// The four cells of a 16-bit row pattern, low nybble first.
pub open spec fn row_cells(r: u64) -> Seq<u64> {
    seq![r & 0xF, (r >> 4) & 0xF, (r >> 8) & 0xF, (r >> 12) & 0xF]
}

/// Packs four cell values, each below 16, back into a 16-bit row pattern.
pub open spec fn pack_cells(s: Seq<u64>) -> u64
    recommends
        s.len() == 4,
{
    s[0] | (s[1] << 4) | (s[2] << 8) | (s[3] << 12)
}

/// Every entry is a 4-bit cell value.
pub open spec fn cells_ok(s: Seq<u64>) -> bool {
    forall|i: int| 0 <= i < s.len() ==> s[i] < 16
}

/// The nonzero cells of a row, in order: a slide first packs the tiles
/// together, dropping the gaps.
pub open spec fn drop_zeros(s: Seq<u64>) -> Seq<u64>
    decreases s.len(),
{
    if s.len() == 0 {
        Seq::empty()
    } else if s[0] == 0 {
        drop_zeros(s.skip(1))
    } else {
        seq![s[0]] + drop_zeros(s.skip(1))
    }
}

/// The value a merged pair collapses to: one step up, saturating at 15.
pub open spec fn bump(v: u64) -> u64 {
    if v == 0xF {
        0xF
    } else {
        (v + 1) as u64
    }
}

/// Collapses equal adjacent pairs front to back; each tile takes part in at
/// most one merge per move.
pub open spec fn merge_pairs(s: Seq<u64>) -> Seq<u64>
    decreases s.len(),
{
    if s.len() <= 1 {
        s
    } else if s[0] == s[1] {
        seq![bump(s[0])] + merge_pairs(s.skip(2))
    } else {
        seq![s[0]] + merge_pairs(s.skip(1))
    }
}

/// Pads a short cell list with empty cells up to the row width.
pub open spec fn pad4(s: Seq<u64>) -> Seq<u64>
    recommends
        s.len() <= 4,
{
    s + Seq::new((4 - s.len()) as nat, |i: int| 0u64)
}

/// The canonical collapse: the row's tiles slid toward the low nybble, with
/// equal neighbours merged once each. This is the result of the "right" move
/// on the row.
pub open spec fn slide_row(r: u64) -> u64 {
    pack_cells(pad4(merge_pairs(drop_zeros(row_cells(r)))))
}

/// The result of the "left" move on the row: the canonical collapse
/// conjugated by reversing the cell order.
pub open spec fn row_left(r: u64) -> u64 {
    reverse_spec(slide_row(reverse_spec(r)))
}

/// What one cell contributes to the score of a row: a cell of value `v >= 2`
/// is the outcome of at least one merge and counts `(v - 1) * 2^v`; empty
/// cells and unmerged starter tiles count nothing.
pub open spec fn cell_score(v: u64) -> int {
    if v >= 2 {
        (v - 1) * ((1u64 << v) as int)
    } else {
        0
    }
}

/// The summed score contribution of a list of cells.
pub open spec fn seq_score(s: Seq<u64>) -> int
    decreases s.len(),
{
    if s.len() == 0 {
        0
    } else {
        cell_score(s[0]) + seq_score(s.skip(1))
    }
}

/// The score of a 16-bit row pattern: the sum over its four cells.
pub open spec fn row_score(r: u64) -> int {
    cell_score(row_cells(r)[0]) + cell_score(row_cells(r)[1]) + cell_score(row_cells(r)[2])
        + cell_score(row_cells(r)[3])
}

/// A cell's score contribution is nonnegative and at most `14 * 2^15`.
pub proof fn lemma_cell_score_bounds(v: u64)
    requires
        v < 16,
    ensures
        0 <= cell_score(v) <= 458752,
{
    if v >= 2 {
        let p = (1u64 << v) as int;
        assert(1 <= (1u64 << v) && (1u64 << v) <= 0x8000) by (bit_vector)
            requires
                v < 16,
        ;
        assert((v - 1) * p >= 0 && (v - 1) * p <= 14 * 0x8000) by (nonlinear_arith)
            requires
                1 <= v - 1 <= 14,
                1 <= p <= 0x8000,
        ;
    }
}

/// `drop_zeros` keeps a subsequence: no entry grows, nothing new appears,
/// every kept entry is nonzero.
pub proof fn lemma_drop_zeros_props(s: Seq<u64>)
    ensures
        drop_zeros(s).len() <= s.len(),
        cells_ok(s) ==> cells_ok(drop_zeros(s)),
        forall|i: int| 0 <= i < drop_zeros(s).len() ==> #[trigger] drop_zeros(s)[i] != 0,
    decreases s.len(),
{
    if s.len() == 0 {
    } else {
        lemma_drop_zeros_props(s.skip(1));
    }
}

/// `merge_pairs` never lengthens a list and keeps cells in range.
pub proof fn lemma_merge_pairs_props(s: Seq<u64>)
    ensures
        merge_pairs(s).len() <= s.len(),
        s.len() > 0 ==> merge_pairs(s).len() > 0,
        cells_ok(s) ==> cells_ok(merge_pairs(s)),
    decreases s.len(),
{
    if s.len() <= 1 {
    } else if s[0] == s[1] {
        lemma_merge_pairs_props(s.skip(2));
    } else {
        lemma_merge_pairs_props(s.skip(1));
    }
}

/// A merge that shortens nothing did nothing: if the merged list is as long
/// as the input, it is the input.
pub proof fn lemma_merge_pairs_full(s: Seq<u64>)
    requires
        merge_pairs(s).len() == s.len(),
    ensures
        merge_pairs(s) == s,
    decreases s.len(),
{
    if s.len() <= 1 {
    } else if s[0] == s[1] {
        lemma_merge_pairs_props(s.skip(2));
    } else {
        lemma_merge_pairs_props(s.skip(1));
        lemma_merge_pairs_full(s.skip(1));
        assert(merge_pairs(s) =~= s);
    }
}

/// Extending the scanned prefix by one cell either keeps or appends to the
/// nonzero cells collected so far.
proof fn lemma_drop_zeros_snoc(s: Seq<u64>, i: int)
    requires
        0 <= i < s.len(),
    ensures
        drop_zeros(s.take(i + 1)) == drop_zeros(s.take(i)) + (if s[i] == 0 {
            Seq::<u64>::empty()
        } else {
            seq![s[i]]
        }),
    decreases i,
{
    let t1 = s.take(i + 1);
    let t0 = s.take(i);
    if i == 0 {
        assert(t0 =~= Seq::<u64>::empty());
        assert(t1 =~= seq![s[0]]);
        assert(t1.skip(1) =~= Seq::<u64>::empty());
        if s[0] == 0 {
            assert(drop_zeros(t1) =~= drop_zeros(t0) + Seq::<u64>::empty());
        } else {
            assert(drop_zeros(t1) =~= drop_zeros(t0) + seq![s[0]]);
        }
    } else {
        lemma_drop_zeros_snoc(s.skip(1), i - 1);
        assert(t1.skip(1) =~= s.skip(1).take(i));
        assert(t0.skip(1) =~= s.skip(1).take(i - 1));
        let tail = if s[i] == 0 {
            Seq::<u64>::empty()
        } else {
            seq![s[i]]
        };
        assert(s.skip(1)[i - 1] == s[i]);
        if s[0] == 0 {
            assert(drop_zeros(t1) == drop_zeros(t0) + tail);
        } else {
            assert(drop_zeros(t1) =~= drop_zeros(t0) + tail);
        }
    }
}

/// Dropping zeros from a list that kept its length means there were none.
pub proof fn lemma_drop_zeros_full(s: Seq<u64>)
    requires
        drop_zeros(s).len() == s.len(),
    ensures
        drop_zeros(s) == s,
    decreases s.len(),
{
    if s.len() == 0 {
    } else {
        lemma_drop_zeros_props(s.skip(1));
        if s[0] == 0 {
        } else {
            lemma_drop_zeros_full(s.skip(1));
            assert(drop_zeros(s) =~= s);
        }
    }
}

/// Executable form of the canonical collapse; the table builder runs it on
/// every 16-bit row pattern.
pub(crate) fn collapse_row(row: u64) -> (res: u64)
    requires
        row <= 0xFFFF,
    ensures
        res == slide_row(row),
        res <= 0xFFFF,
{
    let c0 = row & 0xF;
    let c1 = (row >> 4) & 0xF;
    let c2 = (row >> 8) & 0xF;
    let c3 = (row >> 12) & 0xF;
    proof {
        lemma_field_bounds(row, 4);
        lemma_field_bounds(row, 8);
        lemma_field_bounds(row, 12);
    }
    let mut cells: Vec<u64> = Vec::new();
    cells.push(c0);
    cells.push(c1);
    cells.push(c2);
    cells.push(c3);
    proof {
        assert(cells@ =~= row_cells(row));
        assert(cells_ok(row_cells(row)));
    }
    let mut tiles: Vec<u64> = Vec::new();
    let mut i: usize = 0;
    while i < 4
        invariant
            cells@ == row_cells(row),
            cells@.len() == 4,
            i <= 4,
            tiles@ == drop_zeros(row_cells(row).take(i as int)),
        decreases 4 - i,
    {
        proof {
            lemma_drop_zeros_snoc(row_cells(row), i as int);
        }
        if cells[i] != 0 {
            tiles.push(cells[i]);
            proof {
                assert(tiles@ =~= drop_zeros(row_cells(row).take(i as int + 1)));
            }
        } else {
            proof {
                assert(tiles@ =~= drop_zeros(row_cells(row).take(i as int + 1)));
            }
        }
        i += 1;
    }
    proof {
        assert(row_cells(row).take(4) =~= row_cells(row));
        lemma_drop_zeros_props(row_cells(row));
    }
    let ghost tl = tiles@;
    let mut out: Vec<u64> = Vec::new();
    let mut k: usize = 0;
    proof {
        assert(tl.skip(0) =~= tl);
        assert(Seq::<u64>::empty() + merge_pairs(tl) =~= merge_pairs(tl));
    }
    while k < tiles.len()
        invariant
            tiles@ == tl,
            k <= tl.len(),
            tl.len() <= 4,
            cells_ok(tl),
            cells_ok(out@),
            out@.len() <= k,
            out@ + merge_pairs(tl.skip(k as int)) == merge_pairs(tl),
        decreases tiles.len() - k,
    {
        if k + 1 < tiles.len() && tiles[k] == tiles[k + 1] {
            let v = tiles[k];
            let m = if v == 0xF {
                0xF
            } else {
                v + 1
            };
            proof {
                assert(tl.skip(k as int)[0] == tl[k as int]);
                assert(tl.skip(k as int)[1] == tl[k as int + 1]);
                assert(tl.skip(k as int).skip(2) =~= tl.skip(k as int + 2));
                assert((out@ + seq![m]) + merge_pairs(tl.skip(k as int + 2)) =~= out@
                    + merge_pairs(tl.skip(k as int)));
            }
            out.push(m);
            k += 2;
        } else {
            let v = tiles[k];
            proof {
                assert(tl.skip(k as int)[0] == tl[k as int]);
                assert(tl.skip(k as int).skip(1) =~= tl.skip(k as int + 1));
                assert((out@ + seq![v]) + merge_pairs(tl.skip(k as int + 1)) =~= out@
                    + merge_pairs(tl.skip(k as int)));
            }
            out.push(v);
            k += 1;
        }
    }
    let ghost merged = merge_pairs(drop_zeros(row_cells(row)));
    proof {
        assert(tl.skip(tl.len() as int) =~= Seq::<u64>::empty());
        assert(out@ =~= merge_pairs(tl));
        lemma_merge_pairs_props(tl);
        assert(out@ =~= pad4(merged).take(out@.len() as int));
    }
    while out.len() < 4
        invariant
            merged == merge_pairs(drop_zeros(row_cells(row))),
            merged.len() <= out@.len() <= 4,
            cells_ok(out@),
            out@ == pad4(merged).take(out@.len() as int),
        decreases 4 - out.len(),
    {
        out.push(0);
        proof {
            assert(out@ =~= pad4(merged).take(out@.len() as int));
        }
    }
    proof {
        assert(out@ =~= pad4(merged));
    }
    let o0 = out[0];
    let o1 = out[1];
    let o2 = out[2];
    let o3 = out[3];
    let res = o0 | (o1 << 4) | (o2 << 8) | (o3 << 12);
    proof {
        assert(o0 | (o1 << 4) | (o2 << 8) | (o3 << 12) <= 0xFFFF) by (bit_vector)
            requires
                o0 < 16,
                o1 < 16,
                o2 < 16,
                o3 < 16,
        ;
        assert(res == pack_cells(out@));
    }
    res
}

/// Every entry is strictly below the saturation value 15. Merging such cells
/// never loses score; at 15 a merge collapses two saturated tiles into one
/// and the row's score drops.
pub open spec fn cells_small(s: Seq<u64>) -> bool {
    forall|i: int| 0 <= i < s.len() ==> s[i] < 15
}

/// Scores add up over concatenation.
proof fn lemma_seq_score_add(a: Seq<u64>, b: Seq<u64>)
    ensures
        seq_score(a + b) == seq_score(a) + seq_score(b),
    decreases a.len(),
{
    if a.len() == 0 {
        assert(a + b =~= b);
    } else {
        lemma_seq_score_add(a.skip(1), b);
        assert((a + b).skip(1) =~= a.skip(1) + b);
        assert((a + b)[0] == a[0]);
    }
}

/// The score of a single cell list is that cell's contribution.
proof fn lemma_seq_score_one(x: u64)
    ensures
        seq_score(seq![x]) == cell_score(x),
{
    assert(seq![x].skip(1) =~= Seq::<u64>::empty());
    assert(seq_score(Seq::<u64>::empty()) == 0);
}

/// Empty cells contribute nothing.
proof fn lemma_seq_score_zeros(n: nat)
    ensures
        seq_score(Seq::new(n, |i: int| 0u64)) == 0,
    decreases n,
{
    if n > 0 {
        lemma_seq_score_zeros((n - 1) as nat);
        assert(Seq::new(n, |i: int| 0u64).skip(1) =~= Seq::new((n - 1) as nat, |i: int| 0u64));
    }
}

/// Dropping empty cells leaves the score unchanged.
proof fn lemma_seq_score_drop_zeros(s: Seq<u64>)
    ensures
        seq_score(drop_zeros(s)) == seq_score(s),
    decreases s.len(),
{
    if s.len() == 0 {
    } else {
        lemma_seq_score_drop_zeros(s.skip(1));
        if s[0] == 0 {
        } else {
            lemma_seq_score_add(seq![s[0]], drop_zeros(s.skip(1)));
            lemma_seq_score_one(s[0]);
        }
    }
}

/// Padding with empty cells leaves the score unchanged.
proof fn lemma_seq_score_pad4(s: Seq<u64>)
    ensures
        seq_score(pad4(s)) == seq_score(s),
{
    lemma_seq_score_add(s, Seq::new((4 - s.len()) as nat, |i: int| 0u64));
    lemma_seq_score_zeros((4 - s.len()) as nat);
}

/// A merged pair below saturation is worth at least its two halves.
proof fn lemma_bump_score(v: u64)
    requires
        v < 15,
    ensures
        cell_score(bump(v)) >= 2 * cell_score(v),
{
    if v >= 2 {
        let w = (v + 1) as u64;
        let p = (1u64 << v) as int;
        let q = (1u64 << w) as int;
        assert((1u64 << w) == (1u64 << v) + (1u64 << v) && (1u64 << v) >= 1) by (bit_vector)
            requires
                v < 15,
                w == v + 1,
        ;
        assert(v * q >= 2 * ((v - 1) * p)) by (nonlinear_arith)
            requires
                2 <= v,
                p >= 1,
                q == 2 * p,
        ;
    }
}

/// Merging equal neighbours never lowers the score while no cell is
/// saturated.
proof fn lemma_seq_score_merge(s: Seq<u64>)
    requires
        cells_small(s),
    ensures
        seq_score(merge_pairs(s)) >= seq_score(s),
    decreases s.len(),
{
    if s.len() <= 1 {
    } else if s[0] == s[1] {
        assert(cells_small(s.skip(2)));
        lemma_seq_score_merge(s.skip(2));
        lemma_bump_score(s[0]);
        lemma_seq_score_add(seq![bump(s[0])], merge_pairs(s.skip(2)));
        lemma_seq_score_one(bump(s[0]));
        reveal_with_fuel(seq_score, 3);
        assert(s.skip(1)[0] == s[1]);
        assert(s.skip(1).skip(1) =~= s.skip(2));
        assert(seq_score(s) == cell_score(s[0]) + cell_score(s[1]) + seq_score(s.skip(2)));
    } else {
        assert(cells_small(s.skip(1)));
        lemma_seq_score_merge(s.skip(1));
        lemma_seq_score_add(seq![s[0]], merge_pairs(s.skip(1)));
        lemma_seq_score_one(s[0]);
    }
}

/// `drop_zeros` keeps every cell below any bound the input obeyed.
proof fn lemma_drop_zeros_small(s: Seq<u64>)
    requires
        cells_small(s),
    ensures
        cells_small(drop_zeros(s)),
    decreases s.len(),
{
    if s.len() == 0 {
    } else {
        assert(cells_small(s.skip(1)));
        lemma_drop_zeros_small(s.skip(1));
    }
}

/// Splitting a row into its four cells agrees with the summed score form.
proof fn lemma_row_score_cells(r: u64)
    ensures
        row_score(r) == seq_score(row_cells(r)),
{
    let s = row_cells(r);
    reveal_with_fuel(seq_score, 5);
    assert(s.skip(1).skip(1).skip(1).skip(1) =~= Seq::<u64>::empty());
    assert(s.skip(1)[0] == s[1]);
    assert(s.skip(1).skip(1)[0] == s[2]);
    assert(s.skip(1).skip(1).skip(1)[0] == s[3]);
}

/// Packing four in-range cells and reading them back is the identity.
pub proof fn lemma_pack_unpack(s: Seq<u64>)
    requires
        s.len() == 4,
        cells_ok(s),
    ensures
        row_cells(pack_cells(s)) == s,
        pack_cells(s) <= 0xFFFF,
{
    let c0 = s[0];
    let c1 = s[1];
    let c2 = s[2];
    let c3 = s[3];
    let p = pack_cells(s);
    assert((c0 | (c1 << 4) | (c2 << 8) | (c3 << 12)) & 0xF == c0 && ((c0 | (c1 << 4) | (c2 << 8)
        | (c3 << 12)) >> 4) & 0xF == c1 && ((c0 | (c1 << 4) | (c2 << 8) | (c3 << 12)) >> 8) & 0xF
        == c2 && ((c0 | (c1 << 4) | (c2 << 8) | (c3 << 12)) >> 12) & 0xF == c3 && (c0 | (c1 << 4)
        | (c2 << 8) | (c3 << 12)) <= 0xFFFF) by (bit_vector)
        requires
            c0 < 16,
            c1 < 16,
            c2 < 16,
            c3 < 16,
    ;
    assert(row_cells(p) =~= s);
}

/// The cells of a reversed row are the row's cells back to front.
proof fn lemma_reverse_cells(r: u64)
    ensures
        row_cells(reverse_spec(r))[0] == row_cells(r)[3],
        row_cells(reverse_spec(r))[1] == row_cells(r)[2],
        row_cells(reverse_spec(r))[2] == row_cells(r)[1],
        row_cells(reverse_spec(r))[3] == row_cells(r)[0],
{
    assert(reverse_spec(r) & 0xF == (r >> 12) & 0xF && (reverse_spec(r) >> 4) & 0xF == (r >> 8)
        & 0xF && (reverse_spec(r) >> 8) & 0xF == (r >> 4) & 0xF && (reverse_spec(r) >> 12) & 0xF
        == r & 0xF) by (bit_vector);
}

/// Reversal permutes the cells, so the row's score is unchanged.
pub proof fn lemma_reverse_score(r: u64)
    ensures
        row_score(reverse_spec(r)) == row_score(r),
{
    lemma_reverse_cells(r);
}

/// While no cell is saturated, the canonical collapse never lowers a row's
/// score: a slide permutes tiles and each merge is worth at least its parts.
pub proof fn lemma_slide_score_mono(r: u64)
    requires
        r <= 0xFFFF,
        cells_small(row_cells(r)),
    ensures
        row_score(slide_row(r)) >= row_score(r),
{
    let cells = row_cells(r);
    let dropped = drop_zeros(cells);
    let merged = merge_pairs(dropped);
    lemma_drop_zeros_props(cells);
    lemma_drop_zeros_small(cells);
    lemma_merge_pairs_props(dropped);
    assert(cells_ok(cells)) by {
        crate::masks::lemma_field_bounds(r, 4);
        crate::masks::lemma_field_bounds(r, 8);
        crate::masks::lemma_field_bounds(r, 12);
    }
    assert(cells_ok(pad4(merged)));
    lemma_pack_unpack(pad4(merged));
    lemma_row_score_cells(slide_row(r));
    lemma_seq_score_pad4(merged);
    lemma_seq_score_merge(dropped);
    lemma_seq_score_drop_zeros(cells);
    lemma_row_score_cells(r);
}

/// The reversed collapse never lowers a row's score either.
pub proof fn lemma_row_left_score_mono(r: u64)
    requires
        r <= 0xFFFF,
        cells_small(row_cells(r)),
    ensures
        row_score(row_left(r)) >= row_score(r),
{
    let rev = reverse_spec(r);
    crate::masks::lemma_reverse_involution(r);
    lemma_reverse_cells(r);
    assert(cells_small(row_cells(rev)));
    lemma_slide_score_mono(rev);
    lemma_reverse_score(slide_row(rev));
    lemma_reverse_score(r);
}

/// A collapsed row is again a 16-bit value.
pub proof fn lemma_slide_row_bound(r: u64)
    ensures
        slide_row(r) <= 0xFFFF,
        row_left(r) <= 0xFFFF,
{
    let cells = row_cells(r);
    assert(cells_ok(cells)) by {
        lemma_field_bounds(r, 4);
        lemma_field_bounds(r, 8);
        lemma_field_bounds(r, 12);
    }
    lemma_drop_zeros_props(cells);
    lemma_merge_pairs_props(drop_zeros(cells));
    assert(cells_ok(pad4(merge_pairs(drop_zeros(cells)))));
    lemma_pack_unpack(pad4(merge_pairs(drop_zeros(cells))));
    crate::masks::lemma_reverse_involution(slide_row(reverse_spec(r)));
}

/// Reading a row's cells and packing them again drops everything above the
/// low 16 bits.
proof fn lemma_unpack_pack(r: u64)
    by (bit_vector)
    ensures
        pack_cells(row_cells(r)) == r & 0xFFFF,
        r <= 0xFFFF ==> r & 0xFFFF == r,
{
}

/// A collapse that leaves no cell empty did not move anything: the row was
/// already fully packed with no mergeable pair.
pub proof fn lemma_slide_full(r: u64)
    requires
        r <= 0xFFFF,
        forall|i: int| 0 <= i < 4 ==> #[trigger] row_cells(slide_row(r))[i] != 0,
    ensures
        slide_row(r) == r,
{
    let cells = row_cells(r);
    assert(cells_ok(cells)) by {
        lemma_field_bounds(r, 4);
        lemma_field_bounds(r, 8);
        lemma_field_bounds(r, 12);
    }
    let dropped = drop_zeros(cells);
    let merged = merge_pairs(dropped);
    lemma_drop_zeros_props(cells);
    lemma_merge_pairs_props(dropped);
    assert(cells_ok(pad4(merged)));
    lemma_pack_unpack(pad4(merged));
    assert(row_cells(slide_row(r)) == pad4(merged));
    if merged.len() < 4 {
        assert(pad4(merged)[merged.len() as int] == 0);
        assert(false);
    }
    lemma_merge_pairs_full(dropped);
    lemma_drop_zeros_full(cells);
    assert(pad4(cells) =~= cells);
    lemma_unpack_pack(r);
}

/// A reversed collapse that leaves no cell empty did not move anything
/// either.
pub proof fn lemma_row_left_full(r: u64)
    requires
        r <= 0xFFFF,
        forall|i: int| 0 <= i < 4 ==> #[trigger] row_cells(row_left(r))[i] != 0,
    ensures
        row_left(r) == r,
{
    let rev = reverse_spec(r);
    let slid = slide_row(rev);
    crate::masks::lemma_reverse_involution(r);
    lemma_reverse_cells(slid);
    assert(forall|i: int| 0 <= i < 4 ==> #[trigger] row_cells(slid)[i] != 0) by {
        assert(row_cells(slid)[0] == row_cells(row_left(r))[3]);
        assert(row_cells(slid)[1] == row_cells(row_left(r))[2]);
        assert(row_cells(slid)[2] == row_cells(row_left(r))[1]);
        assert(row_cells(slid)[3] == row_cells(row_left(r))[0]);
    }
    lemma_slide_full(rev);
    lemma_unpack_pack(r);
}

/// One cell's score contribution, computed.
fn score_cell(v: u64) -> (s: u64)
    requires
        v < 16,
    ensures
        s as int == cell_score(v),
        s <= 458752,
{
    proof {
        lemma_cell_score_bounds(v);
    }
    if v >= 2 {
        let p = 1u64 << v;
        (v - 1) * p
    } else {
        0
    }
}

/// The score of a 16-bit row pattern, computed; at most `4 * 14 * 2^15`.
pub(crate) fn score_row(row: u64) -> (s: u64)
    requires
        row <= 0xFFFF,
    ensures
        s as int == row_score(row),
        s <= 1835008,
{
    let c0 = row & 0xF;
    let c1 = (row >> 4) & 0xF;
    let c2 = (row >> 8) & 0xF;
    let c3 = (row >> 12) & 0xF;
    proof {
        lemma_field_bounds(row, 4);
        lemma_field_bounds(row, 8);
        lemma_field_bounds(row, 12);
    }
    score_cell(c0) + score_cell(c1) + score_cell(c2) + score_cell(c3)
}

} // verus!
