//! Moving cells from one row to another: from the low end of a period, from
//! its high end, or spread evenly over it.
//!
//! A cell can move where the source has it set and the destination does not.
//! A move unsets the cell in the source and sets it in the destination, so no
//! cell is ever handed out twice.

use vstd::prelude::*;
use crate::chartperiod::{least, ChartPeriod};
use crate::chartrow::{
    count_in, lemma_count_update, ChartRow, RowError, TransferResult,
};

verus! {

/// Whether `src` has cell `c` to give and `dst` does not hold it yet. A cell
/// beyond the width of `dst` counts as not held there.
pub open spec fn transferable(src: Seq<bool>, dst: Seq<bool>, c: int) -> bool {
    0 <= c < src.len() && src[c] && !(c < dst.len() && dst[c])
}

/// How many of the cells `lo .. hi` can move from `src` to `dst`.
pub open spec fn transferable_in(src: Seq<bool>, dst: Seq<bool>, lo: int, hi: int) -> int
    decreases hi - lo,
{
    if hi <= lo {
        0
    } else {
        transferable_in(src, dst, lo, hi - 1) + if transferable(src, dst, hi - 1) {
            1int
        } else {
            0int
        }
    }
}

pub proof fn lemma_transferable_in_bounds(src: Seq<bool>, dst: Seq<bool>, lo: int, hi: int)
    ensures
        0 <= transferable_in(src, dst, lo, hi),
        lo <= hi ==> transferable_in(src, dst, lo, hi) <= hi - lo,
    decreases hi - lo,
{
    if hi > lo {
        lemma_transferable_in_bounds(src, dst, lo, hi - 1);
    }
}

pub proof fn lemma_transferable_in_split(
    src: Seq<bool>,
    dst: Seq<bool>,
    lo: int,
    mid: int,
    hi: int,
)
    requires
        lo <= mid <= hi,
    ensures
        transferable_in(src, dst, lo, hi) == transferable_in(src, dst, lo, mid) + transferable_in(
            src,
            dst,
            mid,
            hi,
        ),
        transferable_in(src, dst, lo, mid) <= transferable_in(src, dst, lo, hi),
        transferable_in(src, dst, mid, hi) <= transferable_in(src, dst, lo, hi),
    decreases hi - mid,
{
    if hi > mid {
        lemma_transferable_in_split(src, dst, lo, mid, hi - 1);
    }
    lemma_transferable_in_bounds(src, dst, lo, mid);
    lemma_transferable_in_bounds(src, dst, mid, hi);
}

/// No cell beyond the source can move.
pub proof fn lemma_transferable_in_beyond(src: Seq<bool>, dst: Seq<bool>, lo: int, hi: int)
    requires
        src.len() <= lo <= hi,
    ensures
        transferable_in(src, dst, lo, hi) == 0,
    decreases hi - lo,
{
    if hi > lo {
        lemma_transferable_in_beyond(src, dst, lo, hi - 1);
    }
}

/// Whether a fill from the low end, started at `first` and asked for `count`
/// cells, takes cell `c`: the cell can move, and fewer than `count` cells
/// before it can.
pub open spec fn fill_takes(src: Seq<bool>, dst: Seq<bool>, count: int, first: int, c: int) -> bool {
    first <= c && transferable(src, dst, c) && transferable_in(src, dst, first, c) < count
}

/// How many cells of `lo .. hi` can move is the same for rows that agree on
/// those cells.
pub proof fn lemma_transferable_in_same(
    src: Seq<bool>,
    dst: Seq<bool>,
    src2: Seq<bool>,
    dst2: Seq<bool>,
    lo: int,
    hi: int,
)
    requires
        forall|c: int| lo <= c < hi ==> transferable(src, dst, c) == transferable(src2, dst2, c),
    ensures
        transferable_in(src, dst, lo, hi) == transferable_in(src2, dst2, lo, hi),
    decreases hi - lo,
{
    if hi > lo {
        lemma_transferable_in_same(src, dst, src2, dst2, lo, hi - 1);
    }
}

/// Whether a fill from the high end, started at `last` and asked for `count`
/// cells, takes cell `c`: the cell can move, and fewer than `count` cells
/// after it can.
pub open spec fn reverse_fill_takes(
    src: Seq<bool>,
    dst: Seq<bool>,
    count: int,
    last: int,
    c: int,
) -> bool {
    c <= last && transferable(src, dst, c) && transferable_in(src, dst, c + 1, last + 1) < count
}

/// Whether the transfer that led from `dst_before` to `dst_after` moved cell `c`.
pub open spec fn moved(dst_before: Seq<bool>, dst_after: Seq<bool>, c: int) -> bool {
    0 <= c < dst_before.len() && !dst_before[c] && dst_after[c]
}

/// What holds of every transfer that came to an end, whatever its policy:
/// the cells asked for were either moved or reported as failed; the moved
/// cells lie in the period, left the source and reached the destination; no
/// other cell changed; the source lost, and the destination gained, as many
/// set cells as were moved; and the result names the lowest and the highest
/// of them.
pub open spec fn transfer_sound(
    src_before: Seq<bool>,
    dst_before: Seq<bool>,
    src_after: Seq<bool>,
    dst_after: Seq<bool>,
    count: u32,
    period: ChartPeriod,
    result: TransferResult,
) -> bool {
    &&& src_after.len() == src_before.len()
    &&& dst_after.len() == dst_before.len()
    &&& result.transferred + result.failed == count
    &&& forall|c: int|
        0 <= c < dst_before.len() ==> dst_after[c] == (dst_before[c] || moved(
            dst_before,
            dst_after,
            c,
        ))
    &&& forall|c: int|
        0 <= c < src_before.len() ==> src_after[c] == (src_before[c] && !moved(
            dst_before,
            dst_after,
            c,
        ))
    &&& forall|c: int| #[trigger]
        moved(dst_before, dst_after, c) ==> period.contains(c) && transferable(
            src_before,
            dst_before,
            c,
        )
    &&& count_in(src_after, 0, src_after.len() as int) == count_in(
        src_before,
        0,
        src_before.len() as int,
    ) - result.transferred
    &&& count_in(dst_after, 0, dst_after.len() as int) == count_in(
        dst_before,
        0,
        dst_before.len() as int,
    ) + result.transferred
    &&& result.transferred == 0 <==> result.earliest is None
    &&& result.transferred == 0 <==> result.latest is None
    &&& result.transferred == 0 ==> forall|c: int| !moved(dst_before, dst_after, c)
    &&& result.earliest matches Some(e) ==> moved(dst_before, dst_after, e as int) && forall|
        c: int,
    | #[trigger]
        moved(dst_before, dst_after, c) ==> e <= c
    &&& result.latest matches Some(l) ==> moved(dst_before, dst_after, l as int) && forall|
        c: int,
    | #[trigger]
        moved(dst_before, dst_after, c) ==> c <= l
}

/// One pass of a smear wants `want` cells from the `length` cells that start
/// at `first`. After `i` cells it aims to have taken `i * want / length`, and
/// takes a cell that can move whenever it has taken less than that. This is
/// how many of the first `i` cells of the period the pass takes.
pub open spec fn smear_taken(
    src: Seq<bool>,
    dst: Seq<bool>,
    want: int,
    first: int,
    length: int,
    i: int,
) -> int
    decreases i,
{
    if i <= 0 {
        0
    } else {
        let before = smear_taken(src, dst, want, first, length, i - 1);
        if i * want > before * length && transferable(src, dst, first + i - 1) {
            before + 1
        } else {
            before
        }
    }
}

/// Whether one pass of a smear takes cell `c`.
pub open spec fn smear_takes(
    src: Seq<bool>,
    dst: Seq<bool>,
    want: int,
    first: int,
    length: int,
    c: int,
) -> bool {
    let i = c - first + 1;
    1 <= i <= length && i * want > smear_taken(src, dst, want, first, length, i - 1) * length
        && transferable(src, dst, c)
}

/// The first cell among the first `i` of the period that a pass takes though
/// it lies beyond the width of `dst`.
pub open spec fn smear_block(
    src: Seq<bool>,
    dst: Seq<bool>,
    want: int,
    first: int,
    length: int,
    i: int,
) -> Option<int>
    decreases i,
{
    if i <= 0 {
        None
    } else {
        match smear_block(src, dst, want, first, length, i - 1) {
            Some(c) => Some(c),
            None => if first + i - 1 >= dst.len() && smear_takes(
                src,
                dst,
                want,
                first,
                length,
                first + i - 1,
            ) {
                Some(first + i - 1)
            } else {
                None
            },
        }
    }
}

/// The source after one pass: without the cells that the pass took and that
/// `dst` has room for.
pub open spec fn smear_pass_src(
    src: Seq<bool>,
    dst: Seq<bool>,
    want: int,
    first: int,
    length: int,
) -> Seq<bool> {
    Seq::new(
        src.len(),
        |c: int| src[c] && !(c < dst.len() && smear_takes(src, dst, want, first, length, c)),
    )
}

/// The destination after one pass: with the cells that the pass took.
pub open spec fn smear_pass_dst(
    src: Seq<bool>,
    dst: Seq<bool>,
    want: int,
    first: int,
    length: int,
) -> Seq<bool> {
    Seq::new(dst.len(), |c: int| dst[c] || smear_takes(src, dst, want, first, length, c))
}

/// A smear of `want` cells: passes follow one another, each wanting what the
/// ones before it left, until nothing is left or a pass takes nothing. The
/// result is the source, the destination, what is left, and the cell beyond
/// the width of `dst` at which a pass had to stop, if there was one.
pub open spec fn smear(src: Seq<bool>, dst: Seq<bool>, want: int, first: int, length: int) -> (
    Seq<bool>,
    Seq<bool>,
    int,
    Option<int>,
)
    decreases want,
{
    if want <= 0 {
        (src, dst, 0, None)
    } else {
        let taken = smear_taken(src, dst, want, first, length, length);
        let block = smear_block(src, dst, want, first, length, length);
        if block is Some {
            (
                smear_pass_src(src, dst, want, first, length),
                smear_pass_dst(src, dst, want, first, length),
                want,
                block,
            )
        } else if taken <= 0 {
            (src, dst, want, None)
        } else if taken >= want {
            (
                smear_pass_src(src, dst, want, first, length),
                smear_pass_dst(src, dst, want, first, length),
                0,
                None,
            )
        } else {
            smear(
                smear_pass_src(src, dst, want, first, length),
                smear_pass_dst(src, dst, want, first, length),
                want - taken,
                first,
                length,
            )
        }
    }
}

/// A pass takes no more than it wants, and no more than one cell per cell.
pub proof fn lemma_smear_taken_bounds(
    src: Seq<bool>,
    dst: Seq<bool>,
    want: int,
    first: int,
    length: int,
    i: int,
)
    requires
        0 <= want,
        0 < length,
        0 <= i <= length,
    ensures
        0 <= smear_taken(src, dst, want, first, length, i) <= want,
        smear_taken(src, dst, want, first, length, i) <= i,
    decreases i,
{
    if i > 0 {
        lemma_smear_taken_bounds(src, dst, want, first, length, i - 1);
        let before = smear_taken(src, dst, want, first, length, i - 1);
        if i * want > before * length {
            assert(before < want) by (nonlinear_arith)
                requires
                    i * want > before * length,
                    0 < i <= length,
                    0 <= want,
                    0 <= before,
            ;
        }
    }
}

/// A pass has taken no fewer cells later than earlier.
pub proof fn lemma_smear_taken_grows(
    src: Seq<bool>,
    dst: Seq<bool>,
    want: int,
    first: int,
    length: int,
    i: int,
    j: int,
)
    requires
        i <= j,
    ensures
        smear_taken(src, dst, want, first, length, i) <= smear_taken(
            src,
            dst,
            want,
            first,
            length,
            j,
        ),
    decreases j - i,
{
    if i < j {
        lemma_smear_taken_grows(src, dst, want, first, length, i, j - 1);
        if j - 1 <= 0 {
            assert(smear_taken(src, dst, want, first, length, j - 1) == 0);
        }
    }
}

/// Where none of the cells from the `i`-th on is taken, the pass ends with
/// what it had after `i` cells, and stops where it had stopped by then.
pub proof fn lemma_smear_rest_untaken(
    src: Seq<bool>,
    dst: Seq<bool>,
    want: int,
    first: int,
    length: int,
    i: int,
    j: int,
)
    requires
        0 <= i <= j,
        forall|c: int| first
            + i <= c < first
            + j ==> !smear_takes(src, dst, want, first, length, c),
        j <= length,
    ensures
        smear_taken(src, dst, want, first, length, j) == smear_taken(
            src,
            dst,
            want,
            first,
            length,
            i,
        ),
        smear_block(src, dst, want, first, length, j) == smear_block(
            src,
            dst,
            want,
            first,
            length,
            i,
        ),
    decreases j - i,
{
    if i < j {
        lemma_smear_rest_untaken(src, dst, want, first, length, i, j - 1);
        assert(!smear_takes(src, dst, want, first, length, first + j - 1));
    }
}

/// A cell that stopped a pass stays the cell that stopped it.
pub proof fn lemma_smear_block_stays(
    src: Seq<bool>,
    dst: Seq<bool>,
    want: int,
    first: int,
    length: int,
    i: int,
    j: int,
)
    requires
        i <= j,
        smear_block(src, dst, want, first, length, i) is Some,
    ensures
        smear_block(src, dst, want, first, length, j) == smear_block(
            src,
            dst,
            want,
            first,
            length,
            i,
        ),
    decreases j - i,
{
    if i < j {
        lemma_smear_block_stays(src, dst, want, first, length, i, j - 1);
    }
}

/// The three ways of choosing the cells to move.
#[derive(Debug, Clone, Copy, PartialEq, Eq, Structural)]
pub enum TransferPolicy {
    /// The lowest cells that can move.
    Fill,
    /// The highest cells that can move.
    ReverseFill,
    /// Cells spread evenly over the period.
    Smear,
}

/// Whether a fill from the low end would take a cell beyond the width of `dst`.
pub open spec fn fill_blocked(src: Seq<bool>, dst: Seq<bool>, count: int, first: int, last: int) -> bool {
    exists|c: int| dst.len() <= c <= last && fill_takes(src, dst, count, first, c)
}

/// Whether a fill from the high end would take a cell beyond the width of `dst`.
pub open spec fn reverse_fill_blocked(
    src: Seq<bool>,
    dst: Seq<bool>,
    count: int,
    first: int,
    last: int,
) -> bool {
    count > 0 && exists|c: int| first <= c <= last && dst.len() <= c && transferable(src, dst, c)
}

/// What a transfer of `count` cells of `first ..= last` makes of the source
/// and of the destination, and how many cells it fails to move; `None` in
/// their place where it is stopped by a cell beyond the width of `dst`.
pub open spec fn transferred(
    policy: TransferPolicy,
    src: Seq<bool>,
    dst: Seq<bool>,
    count: int,
    first: int,
    last: int,
) -> (Seq<bool>, Seq<bool>, Option<int>) {
    match policy {
        TransferPolicy::Fill => (
            Seq::new(
                src.len(),
                |c: int|
                    src[c]
                        && !(c < dst.len() && c <= last && fill_takes(src, dst, count, first, c)),
            ),
            Seq::new(
                dst.len(),
                |c: int| dst[c] || (c <= last && fill_takes(src, dst, count, first, c)),
            ),
            if fill_blocked(src, dst, count, first, last) {
                None
            } else {
                Some(count - least(count, transferable_in(src, dst, first, last + 1)))
            },
        ),
        TransferPolicy::ReverseFill => if reverse_fill_blocked(src, dst, count, first, last) {
            (src, dst, None)
        } else {
            (
                Seq::new(
                    src.len(),
                    |c: int|
                        src[c] && !(first <= c && reverse_fill_takes(src, dst, count, last, c)),
                ),
                Seq::new(
                    dst.len(),
                    |c: int|
                        dst[c] || (first <= c && reverse_fill_takes(src, dst, count, last, c)),
                ),
                Some(count - least(count, transferable_in(src, dst, first, last + 1))),
            )
        },
        TransferPolicy::Smear => {
            let out = smear(src, dst, count, first, last - first + 1);
            (
                out.0,
                out.1,
                if out.3 is None {
                    Some(out.2)
                } else {
                    None
                },
            )
        },
    }
}

/// A pass that was not stopped took no cell beyond the width of `dst`.
pub proof fn lemma_smear_unblocked(
    src: Seq<bool>,
    dst: Seq<bool>,
    want: int,
    first: int,
    length: int,
    i: int,
    c: int,
)
    requires
        smear_block(src, dst, want, first, length, i) is None,
        first <= c < first + i,
        smear_takes(src, dst, want, first, length, c),
    ensures
        c < dst.len(),
    decreases i,
{
    if i > 0 {
        if c < first + i - 1 {
            lemma_smear_unblocked(src, dst, want, first, length, i - 1, c);
        }
    }
}

/// A pass takes only cells that can move.
pub proof fn lemma_smear_taken_can_move(
    src: Seq<bool>,
    dst: Seq<bool>,
    want: int,
    first: int,
    length: int,
    i: int,
)
    ensures
        smear_taken(src, dst, want, first, length, i) <= transferable_in(
            src,
            dst,
            first,
            first + i,
        ),
    decreases i,
{
    if i > 0 {
        lemma_smear_taken_can_move(src, dst, want, first, length, i - 1);
    } else {
        lemma_transferable_in_bounds(src, dst, first, first + i);
    }
}

/// A pass that wants a cell and takes none found none that can move.
pub proof fn lemma_smear_takes_where_it_can(
    src: Seq<bool>,
    dst: Seq<bool>,
    want: int,
    first: int,
    length: int,
    i: int,
)
    requires
        1 <= want,
        0 <= i <= length,
        smear_taken(src, dst, want, first, length, i) == 0,
    ensures
        transferable_in(src, dst, first, first + i) == 0,
    decreases i,
{
    if i > 0 {
        lemma_smear_taken_bounds(src, dst, want, first, length, i - 1);
        assert(i * want > 0 * length) by (nonlinear_arith)
            requires
                i >= 1,
                want >= 1,
        ;
        lemma_smear_takes_where_it_can(src, dst, want, first, length, i - 1);
    }
}

/// After a pass that was not stopped, the cells that can move are those
/// that could before it, less those that it took.
pub proof fn lemma_smear_pass_leaves_the_rest(
    src: Seq<bool>,
    dst: Seq<bool>,
    want: int,
    first: int,
    length: int,
    i: int,
)
    requires
        0 <= i <= length,
        smear_block(src, dst, want, first, length, length) is None,
    ensures
        transferable_in(
            smear_pass_src(src, dst, want, first, length),
            smear_pass_dst(src, dst, want, first, length),
            first,
            first + i,
        ) == transferable_in(src, dst, first, first + i) - smear_taken(
            src,
            dst,
            want,
            first,
            length,
            i,
        ),
    decreases i,
{
    if i > 0 {
        lemma_smear_pass_leaves_the_rest(src, dst, want, first, length, i - 1);
        let c = first + i - 1;
        if smear_takes(src, dst, want, first, length, c) {
            lemma_smear_unblocked(src, dst, want, first, length, length, c);
        }
    }
}

/// A smear that is not stopped moves all the cells asked for, or, where
/// fewer can move, all that can.
pub proof fn lemma_smear_moves_what_it_can(
    src: Seq<bool>,
    dst: Seq<bool>,
    want: int,
    first: int,
    length: int,
)
    requires
        0 <= want,
        0 < length,
        smear(src, dst, want, first, length).3 is None,
    ensures
        smear(src, dst, want, first, length).2 == want - least(
            want,
            transferable_in(src, dst, first, first + length),
        ),
    decreases want,
{
    let can = transferable_in(src, dst, first, first + length);
    lemma_transferable_in_bounds(src, dst, first, first + length);
    if want > 0 {
        let taken = smear_taken(src, dst, want, first, length, length);
        lemma_smear_taken_bounds(src, dst, want, first, length, length);
        lemma_smear_taken_can_move(src, dst, want, first, length, length);
        if taken == 0 {
            lemma_smear_takes_where_it_can(src, dst, want, first, length, length);
        } else if taken < want {
            lemma_smear_pass_leaves_the_rest(src, dst, want, first, length, length);
            lemma_smear_moves_what_it_can(
                smear_pass_src(src, dst, want, first, length),
                smear_pass_dst(src, dst, want, first, length),
                want - taken,
                first,
                length,
            );
        }
    }
}

/// A pass of a smear only takes cells from the source, and only gives cells
/// to the destination.
pub proof fn lemma_smear_source_only_loses(
    src: Seq<bool>,
    dst: Seq<bool>,
    want: int,
    first: int,
    length: int,
)
    ensures
        smear(src, dst, want, first, length).0.len() == src.len(),
        smear(src, dst, want, first, length).1.len() == dst.len(),
        forall|c: int|
            0 <= c < src.len() && #[trigger] smear(src, dst, want, first, length).0[c] ==> src[c],
        forall|c: int|
            0 <= c < dst.len() && dst[c] ==> #[trigger] smear(src, dst, want, first, length).1[c],
    decreases want,
{
    if want > 0 {
        let taken = smear_taken(src, dst, want, first, length, length);
        let block = smear_block(src, dst, want, first, length, length);
        if block is None && 0 < taken < want {
            lemma_smear_source_only_loses(
                smear_pass_src(src, dst, want, first, length),
                smear_pass_dst(src, dst, want, first, length),
                want - taken,
                first,
                length,
            );
        }
    }
}

/// A row in which every set cell is set in another row too has no more set
/// cells than that row.
pub proof fn lemma_count_of_part(part: Seq<bool>, whole: Seq<bool>, lo: int, hi: int)
    requires
        part.len() == whole.len(),
        forall|c: int| 0 <= c < part.len() && part[c] ==> whole[c],
    ensures
        count_in(part, lo, hi) <= count_in(whole, lo, hi),
    decreases hi - lo,
{
    if hi > lo {
        lemma_count_of_part(part, whole, lo, hi - 1);
    }
}

/// Whatever the policy, and whether the transfer comes to an end or is
/// stopped: the source keeps its width, gains no cell and so has no more set
/// cells than before; the destination keeps its width and loses no cell.
pub proof fn lemma_source_only_loses(
    policy: TransferPolicy,
    src: Seq<bool>,
    dst: Seq<bool>,
    count: int,
    first: int,
    last: int,
)
    ensures
        transferred(policy, src, dst, count, first, last).0.len() == src.len(),
        transferred(policy, src, dst, count, first, last).1.len() == dst.len(),
        forall|c: int|
            0 <= c < src.len() && #[trigger] transferred(policy, src, dst, count, first, last).0[c]
                ==> src[c],
        forall|c: int|
            0 <= c < dst.len() && dst[c] ==> #[trigger] transferred(
                policy,
                src,
                dst,
                count,
                first,
                last,
            ).1[c],
        count_in(transferred(policy, src, dst, count, first, last).0, 0, src.len() as int)
            <= count_in(src, 0, src.len() as int),
        count_in(transferred(policy, src, dst, count, first, last).1, 0, dst.len() as int)
            >= count_in(dst, 0, dst.len() as int),
{
    if policy == TransferPolicy::Smear {
        lemma_smear_source_only_loses(src, dst, count, first, last - first + 1);
    }
    let out = transferred(policy, src, dst, count, first, last);
    lemma_count_of_part(out.0, src, 0, src.len() as int);
    lemma_count_of_part(dst, out.1, 0, dst.len() as int);
}

/// `transfer_sound`, kept folded while a pass is under way.
#[verifier::opaque]
spec fn sound_so_far(
    src_before: Seq<bool>,
    dst_before: Seq<bool>,
    src_after: Seq<bool>,
    dst_after: Seq<bool>,
    count: u32,
    period: ChartPeriod,
    result: TransferResult,
) -> bool {
    transfer_sound(src_before, dst_before, src_after, dst_after, count, period, result)
}

impl ChartRow {
    /// The fill from the low end, cell by cell.
    fn fill_cells(
        &mut self,
        dest: &mut ChartRow,
        count: u32,
        period: &ChartPeriod,
    ) -> (r: Result<TransferResult, RowError>)
        ensures
            final(self)@.len() == old(self)@.len(),
            final(dest)@.len() == old(dest)@.len(),
            forall|c: int|
                0 <= c < old(dest)@.len() ==> final(dest)@[c] == (old(dest)@[c] || (c
                    <= period.last() && fill_takes(
                    old(self)@,
                    old(dest)@,
                    count as int,
                    period.first(),
                    c,
                ))),
            forall|c: int|
                0 <= c < old(self)@.len() ==> final(self)@[c] == (old(self)@[c] && !(c < old(
                    dest,
                )@.len() && c <= period.last() && fill_takes(
                    old(self)@,
                    old(dest)@,
                    count as int,
                    period.first(),
                    c,
                ))),
            match r {
                Ok(t) => {
                    &&& forall|c: int|
                        c <= period.last() && fill_takes(
                            old(self)@,
                            old(dest)@,
                            count as int,
                            period.first(),
                            c,
                        ) ==> c < old(dest)@.len()
                    &&& t.transferred == least(
                        count as int,
                        transferable_in(
                            old(self)@,
                            old(dest)@,
                            period.first(),
                            period.last() + 1,
                        ),
                    )
                    &&& transfer_sound(
                        old(self)@,
                        old(dest)@,
                        final(self)@,
                        final(dest)@,
                        count,
                        *period,
                        t,
                    )
                },
                Err(e) => {
                    &&& e matches RowError::CellOutOfRange { cell, width }
                    &&& width == old(dest)@.len()
                    &&& width <= cell <= period.last()
                    &&& fill_takes(
                        old(self)@,
                        old(dest)@,
                        count as int,
                        period.first(),
                        cell as int,
                    )
                    &&& forall|c: int|
                        width <= c < cell ==> !fill_takes(
                            old(self)@,
                            old(dest)@,
                            count as int,
                            period.first(),
                            c,
                        )
                },
            },
    {
        let first = period.get_first();
        let last = period.get_last();
        let width = self.get_num_cells();
        let dest_width = dest.get_num_cells();
        let stop: u32 = if last + 1 < width {
            last + 1
        } else {
            width
        };
        let ghost src = self@;
        let ghost dst = dest@;
        let mut rc = TransferResult::new(count);
        let mut cell: u32 = first;
        proof {
            lemma_transferable_in_bounds(src, dst, first as int, first as int);
        }
        while cell < stop && rc.to_transfer() != 0
            invariant
                src == old(self)@,
                dst == old(dest)@,
                first == period.first(),
                last == period.last(),
                first <= cell,
                cell <= stop || stop <= first,
                stop == least(last + 1, width as int),
                first <= last < u32::MAX,
                width == src.len(),
                dest_width == dst.len(),
                self@.len() == src.len(),
                dest@.len() == dst.len(),
                rc.transferred + rc.failed == count,
                rc.transferred == transferable_in(src, dst, first as int, cell as int),
                forall|c: int| cell <= c < src.len() ==> self@[c] == src[c],
                forall|c: int| cell <= c < dst.len() ==> dest@[c] == dst[c],
                forall|c: int|
                    0 <= c < cell && c < dst.len() ==> dest@[c] == (dst[c] || fill_takes(
                        src,
                        dst,
                        count as int,
                        first as int,
                        c,
                    )),
                forall|c: int|
                    0 <= c < cell && c < src.len() ==> self@[c] == (src[c] && !(c < dst.len()
                        && fill_takes(src, dst, count as int, first as int, c))),
                forall|c: int|
                    dst.len() <= c < cell ==> !fill_takes(src, dst, count as int, first as int, c),
                count_in(self@, 0, src.len() as int) == count_in(src, 0, src.len() as int)
                    - rc.transferred,
                count_in(dest@, 0, dst.len() as int) == count_in(dst, 0, dst.len() as int)
                    + rc.transferred,
                rc.transferred == 0 <==> rc.earliest is None,
                rc.transferred == 0 <==> rc.latest is None,
                rc.earliest is None ==> forall|c: int| !moved(dst, dest@, c),
                rc.earliest matches Some(e) ==> moved(dst, dest@, e as int)
                    && forall|c: int| #[trigger]
                    moved(dst, dest@, c) ==> e <= c,
                rc.latest matches Some(l) ==> moved(dst, dest@, l as int)
                    && forall|c: int| #[trigger]
                    moved(dst, dest@, c) ==> c <= l,
            decreases stop - cell,
        {
            if self.is_set(cell) && !dest.is_set(cell) {
                assert(transferable(src, dst, cell as int));
                assert(fill_takes(src, dst, count as int, first as int, cell as int));
                if cell >= dest_width {
                    return Err(RowError::CellOutOfRange { cell, width: dest_width });
                }
                let ghost src_now = self@;
                let ghost dst_now = dest@;
                let _ = self.unset(cell);
                let _ = dest.set(cell);
                let _ = rc.transfer(cell);
                proof {
                    lemma_count_update(src_now, cell as int, false, 0, src.len() as int);
                    lemma_count_update(dst_now, cell as int, true, 0, dst.len() as int);
                    assert forall|c: int| #[trigger] moved(dst, dest@, c) implies rc.earliest->0
                        <= c <= rc.latest->0 by {
                        if c != cell {
                            assert(moved(dst, dst_now, c));
                        }
                    }
                    assert(moved(dst, dest@, cell as int));
                    if rc.earliest->0 != cell {
                        assert(moved(dst, dst_now, rc.earliest->0 as int));
                    }
                    if rc.latest->0 != cell {
                        assert(moved(dst, dst_now, rc.latest->0 as int));
                    }
                }
            } else {
                assert(!transferable(src, dst, cell as int));
            }
            cell = cell + 1;
        }
        proof {
            let f = first as int;
            let n = count as int;
            lemma_transferable_in_bounds(src, dst, f, last + 1);
            // A cell that the scan did not reach is not taken: it lies beyond
            // the period or the row, or nothing was left to move.
            assert forall|c: int| cell <= c implies !(c <= last && c < src.len() && fill_takes(
                src,
                dst,
                n,
                f,
                c,
            )) by {
                if c <= last && c < src.len() {
                    assert(rc.failed == 0);
                    lemma_transferable_in_split(src, dst, f, cell as int, c);
                }
            }
            if rc.failed == 0 {
                if cell <= last + 1 {
                    lemma_transferable_in_split(src, dst, f, cell as int, last + 1);
                }
            } else if stop <= first {
                if width as int <= f {
                    lemma_transferable_in_beyond(src, dst, f, last + 1);
                }
            } else if stop < last + 1 {
                lemma_transferable_in_split(src, dst, f, stop as int, last + 1);
                lemma_transferable_in_beyond(src, dst, stop as int, last + 1);
            }
            assert(rc.transferred == least(n, transferable_in(src, dst, f, last + 1)));
            assert forall|c: int| #[trigger] moved(dst, dest@, c) implies period.contains(c)
                && transferable(src, dst, c) by {
                assert(c < cell);
                assert(fill_takes(src, dst, n, f, c));
            }
            assert forall|c: int| c <= last && fill_takes(src, dst, n, f, c) implies c
                < dst.len() by {
                if c >= dst.len() {
                    assert(c < cell);
                }
            }
            assert forall|c: int| 0 <= c < dst.len() implies dest@[c] == (dst[c] || moved(
                dst,
                dest@,
                c,
            )) by {}
            assert forall|c: int| 0 <= c < src.len() implies self@[c] == (src[c] && !moved(
                dst,
                dest@,
                c,
            )) by {}
            assert(transfer_sound(src, dst, self@, dest@, count, *period, rc));
        }
        Ok(rc)
    }

    /// The fill from the high end, cell by cell.
    fn reverse_fill_cells(
        &mut self,
        dest: &mut ChartRow,
        count: u32,
        period: &ChartPeriod,
    ) -> (r: Result<TransferResult, RowError>)
        ensures
            final(self)@.len() == old(self)@.len(),
            final(dest)@.len() == old(dest)@.len(),
            match r {
                Ok(t) => {
                    &&& forall|c: int|
                        0 <= c < old(dest)@.len() ==> final(dest)@[c] == (old(dest)@[c] || (
                        period.first() <= c && reverse_fill_takes(
                            old(self)@,
                            old(dest)@,
                            count as int,
                            period.last(),
                            c,
                        )))
                    &&& forall|c: int|
                        0 <= c < old(self)@.len() ==> final(self)@[c] == (old(self)@[c] && !(
                        period.first() <= c && reverse_fill_takes(
                            old(self)@,
                            old(dest)@,
                            count as int,
                            period.last(),
                            c,
                        )))
                    &&& forall|c: int|
                        period.first() <= c && reverse_fill_takes(
                            old(self)@,
                            old(dest)@,
                            count as int,
                            period.last(),
                            c,
                        ) ==> c < old(dest)@.len()
                    &&& t.transferred == least(
                        count as int,
                        transferable_in(
                            old(self)@,
                            old(dest)@,
                            period.first(),
                            period.last() + 1,
                        ),
                    )
                    &&& transfer_sound(
                        old(self)@,
                        old(dest)@,
                        final(self)@,
                        final(dest)@,
                        count,
                        *period,
                        t,
                    )
                },
                Err(e) => {
                    &&& final(self)@ == old(self)@
                    &&& final(dest)@ == old(dest)@
                    &&& count > 0
                    &&& e matches RowError::CellOutOfRange { cell, width }
                    &&& width == old(dest)@.len()
                    &&& width <= cell
                    &&& period.contains(cell as int)
                    &&& transferable(old(self)@, old(dest)@, cell as int)
                    &&& forall|c: int|
                        cell < c <= period.last() ==> !transferable(old(self)@, old(dest)@, c)
                },
            },
    {
        let first = period.get_first();
        let last = period.get_last();
        let width = self.get_num_cells();
        let dest_width = dest.get_num_cells();
        let start: u32 = if last + 1 < width {
            last + 1
        } else {
            width
        };
        let ghost src = self@;
        let ghost dst = dest@;
        let mut rc = TransferResult::new(count);
        let mut cell: u32 = start;
        proof {
            if start < last + 1 {
                lemma_transferable_in_beyond(src, dst, start as int, last + 1);
            }
            assert forall|c: int| start <= c <= last implies !transferable(src, dst, c) by {}
        }
        while cell > first && rc.to_transfer() != 0
            invariant
                src == old(self)@,
                dst == old(dest)@,
                first == period.first(),
                last == period.last(),
                cell <= start,
                cell >= first || cell == start,
                start == least(last + 1, width as int),
                first <= last < u32::MAX,
                width == src.len(),
                dest_width == dst.len(),
                self@.len() == src.len(),
                dest@.len() == dst.len(),
                rc.transferred + rc.failed == count,
                rc.transferred == transferable_in(src, dst, cell as int, last + 1),
                cell >= dst.len() ==> self@ == src && dest@ == dst,
                forall|c: int| cell <= c <= last && c >= dst.len() ==> !transferable(src, dst, c),
                forall|c: int| 0 <= c < cell && c < src.len() ==> self@[c] == src[c],
                forall|c: int| 0 <= c < cell && c < dst.len() ==> dest@[c] == dst[c],
                forall|c: int| start <= c < src.len() ==> self@[c] == src[c],
                forall|c: int| start <= c < dst.len() ==> dest@[c] == dst[c],
                forall|c: int|
                    cell <= c < start && c < dst.len() ==> dest@[c] == (dst[c]
                        || reverse_fill_takes(src, dst, count as int, last as int, c)),
                forall|c: int|
                    cell <= c < start && c < src.len() ==> self@[c] == (src[c]
                        && !reverse_fill_takes(src, dst, count as int, last as int, c)),
                count_in(self@, 0, src.len() as int) == count_in(src, 0, src.len() as int)
                    - rc.transferred,
                count_in(dest@, 0, dst.len() as int) == count_in(dst, 0, dst.len() as int)
                    + rc.transferred,
                rc.transferred == 0 <==> rc.earliest is None,
                rc.transferred == 0 <==> rc.latest is None,
                rc.earliest is None ==> forall|c: int| !moved(dst, dest@, c),
                rc.earliest matches Some(e) ==> moved(dst, dest@, e as int)
                    && forall|c: int| #[trigger]
                    moved(dst, dest@, c) ==> e <= c,
                rc.latest matches Some(l) ==> moved(dst, dest@, l as int)
                    && forall|c: int| #[trigger]
                    moved(dst, dest@, c) ==> c <= l,
            decreases cell,
        {
            cell = cell - 1;
            proof {
                lemma_transferable_in_split(src, dst, cell as int, cell + 1, last + 1);
                assert(transferable_in(src, dst, cell as int, cell + 1) == if transferable(
                    src,
                    dst,
                    cell as int,
                ) {
                    1int
                } else {
                    0int
                }) by {
                    assert(transferable_in(src, dst, cell as int, cell as int) == 0);
                }
            }
            if self.is_set(cell) && !dest.is_set(cell) {
                assert(transferable(src, dst, cell as int));
                assert(reverse_fill_takes(src, dst, count as int, last as int, cell as int));
                if cell >= dest_width {
                    return Err(RowError::CellOutOfRange { cell, width: dest_width });
                }
                let ghost src_now = self@;
                let ghost dst_now = dest@;
                let _ = self.unset(cell);
                let _ = dest.set(cell);
                let _ = rc.transfer(cell);
                proof {
                    lemma_count_update(src_now, cell as int, false, 0, src.len() as int);
                    lemma_count_update(dst_now, cell as int, true, 0, dst.len() as int);
                    assert forall|c: int| #[trigger] moved(dst, dest@, c) implies rc.earliest->0
                        <= c <= rc.latest->0 by {
                        if c != cell {
                            assert(moved(dst, dst_now, c));
                        }
                    }
                    assert(moved(dst, dest@, cell as int));
                    if rc.earliest->0 != cell {
                        assert(moved(dst, dst_now, rc.earliest->0 as int));
                    }
                    if rc.latest->0 != cell {
                        assert(moved(dst, dst_now, rc.latest->0 as int));
                    }
                }
            } else {
                assert(!transferable(src, dst, cell as int));
            }
        }
        proof {
            let f = first as int;
            let l = last as int;
            let n = count as int;
            lemma_transferable_in_bounds(src, dst, f, l + 1);
            assert forall|c: int| f <= c < cell implies !reverse_fill_takes(src, dst, n, l, c) by {
                assert(rc.failed == 0);
                if c <= l {
                    lemma_transferable_in_split(src, dst, c + 1, cell as int, l + 1);
                }
            }
            if rc.failed == 0 {
                if f <= cell {
                    lemma_transferable_in_split(src, dst, f, cell as int, l + 1);
                }
                assert(rc.transferred == n);
                assert(transferable_in(src, dst, f, l + 1) >= n);
            } else {
                if cell < first {
                    assert(start < last + 1);
                    lemma_transferable_in_beyond(src, dst, f, l + 1);
                }
                assert(rc.transferred == transferable_in(src, dst, f, l + 1));
            }
            assert forall|c: int| #[trigger] moved(dst, dest@, c) implies period.contains(c)
                && transferable(src, dst, c) by {
                assert(cell <= c < start);
                assert(reverse_fill_takes(src, dst, n, l, c));
            }
            assert forall|c: int| f <= c && reverse_fill_takes(src, dst, n, l, c) implies c
                < dst.len() by {
                if c >= dst.len() {
                    assert(cell <= c <= last);
                }
            }
            assert forall|c: int| 0 <= c < dst.len() implies dest@[c] == (dst[c] || moved(
                dst,
                dest@,
                c,
            )) by {}
            assert forall|c: int| 0 <= c < src.len() implies self@[c] == (src[c] && !moved(
                dst,
                dest@,
                c,
            )) by {}
            assert(transfer_sound(src, dst, self@, dest@, count, *period, rc));
        }
        Ok(rc)
    }

    /// Moves up to `count` cells of `period` to `dest`, spread as evenly over
    /// the period as the cells that can move allow.
    ///
    /// A pass that would take a cell beyond the width of `dest` stops the
    /// transfer: what was taken before has moved, and the cell is reported.
    pub fn smear_transfer_to(
        &mut self,
        dest: &mut ChartRow,
        count: u32,
        period: ChartPeriod,
    ) -> (r: Result<TransferResult, RowError>)
        ensures
            final(self)@.len() == old(self)@.len(),
            final(dest)@.len() == old(dest)@.len(),
            final(self)@ == smear(
                old(self)@,
                old(dest)@,
                count as int,
                period.first(),
                period.spec_length(),
            ).0,
            final(dest)@ == smear(
                old(self)@,
                old(dest)@,
                count as int,
                period.first(),
                period.spec_length(),
            ).1,
            match r {
                Ok(t) => {
                    &&& smear(
                        old(self)@,
                        old(dest)@,
                        count as int,
                        period.first(),
                        period.spec_length(),
                    ).3 is None
                    &&& t.failed == smear(
                        old(self)@,
                        old(dest)@,
                        count as int,
                        period.first(),
                        period.spec_length(),
                    ).2
                    &&& t.transferred == least(
                        count as int,
                        transferable_in(
                            old(self)@,
                            old(dest)@,
                            period.first(),
                            period.last() + 1,
                        ),
                    )
                    &&& transfer_sound(
                        old(self)@,
                        old(dest)@,
                        final(self)@,
                        final(dest)@,
                        count,
                        period,
                        t,
                    )
                },
                Err(e) => {
                    &&& e matches RowError::CellOutOfRange { cell, width }
                    &&& width == old(dest)@.len()
                    &&& smear(
                        old(self)@,
                        old(dest)@,
                        count as int,
                        period.first(),
                        period.spec_length(),
                    ).3 == Some(cell as int)
                },
            },
    {
        let ghost src0 = self@;
        let ghost dst0 = dest@;
        let ghost f = period.first();
        let ghost len = period.spec_length();
        let mut rc = TransferResult::new(count);
        let mut transferred_this_run: u32 = 1;
        proof {
            period.lemma_wf();
            use_type_invariant(&period);
            lemma_nothing_moved(src0, dst0, count, period);
        }
        while transferred_this_run != 0 && rc.to_transfer() != 0
            invariant
                src0 == old(self)@,
                dst0 == old(dest)@,
                f == period.first(),
                len == period.spec_length(),
                len > 0,
                self@.len() == src0.len(),
                dest@.len() == dst0.len(),
                rc.transferred + rc.failed == count,
                sound_so_far(src0, dst0, self@, dest@, count, period, rc),
                transferred_this_run != 0 ==> smear(src0, dst0, count as int, f, len) == smear(
                    self@,
                    dest@,
                    rc.failed as int,
                    f,
                    len,
                ),
                transferred_this_run == 0 ==> smear(src0, dst0, count as int, f, len) == (
                    self@,
                    dest@,
                    rc.failed as int,
                    None::<int>,
                ),
            decreases
                    rc.failed,
                    (if transferred_this_run != 0 {
                        1int
                    } else {
                        0int
                    }),
        {
            let ghost ps = self@;
            let ghost pd = dest@;
            let ghost want = rc.failed as int;
            match self.smear_pass(dest, &mut rc, &period, Ghost(src0), Ghost(dst0), Ghost(count)) {
                Ok(taken) => {
                    transferred_this_run = taken;
                    proof {
                        lemma_smear_taken_bounds(ps, pd, want, f, len, len);
                        if taken == 0 {
                            lemma_pass_without_effect(ps, pd, want, f, len);
                        }
                    }
                },
                Err(e) => {
                    return Err(e);
                },
            }
        }
        proof {
            reveal(sound_so_far);
            lemma_smear_moves_what_it_can(src0, dst0, count as int, f, len);
        }
        Ok(rc)
    }

    /// Moves up to `count` cells of `period` to `dest`, taking the lowest
    /// cells that can move.
    ///
    /// A cell that would be taken but lies beyond the width of `dest` stops
    /// the transfer: the cells below it have moved, and it is reported.
    pub fn fill_transfer_to(
        &mut self,
        dest: &mut ChartRow,
        count: u32,
        period: &ChartPeriod,
    ) -> (r: Result<TransferResult, RowError>)
        ensures
            final(self)@.len() == old(self)@.len(),
            final(dest)@.len() == old(dest)@.len(),
            final(self)@ == transferred(
                TransferPolicy::Fill,
                old(self)@,
                old(dest)@,
                count as int,
                period.first(),
                period.last(),
            ).0,
            final(dest)@ == transferred(
                TransferPolicy::Fill,
                old(self)@,
                old(dest)@,
                count as int,
                period.first(),
                period.last(),
            ).1,
            match r {
                Ok(t) => {
                    &&& !fill_blocked(
                        old(self)@,
                        old(dest)@,
                        count as int,
                        period.first(),
                        period.last(),
                    )
                    &&& t.transferred == least(
                        count as int,
                        transferable_in(
                            old(self)@,
                            old(dest)@,
                            period.first(),
                            period.last() + 1,
                        ),
                    )
                    &&& transfer_sound(
                        old(self)@,
                        old(dest)@,
                        final(self)@,
                        final(dest)@,
                        count,
                        *period,
                        t,
                    )
                },
                Err(e) => {
                    &&& fill_blocked(
                        old(self)@,
                        old(dest)@,
                        count as int,
                        period.first(),
                        period.last(),
                    )
                    &&& e matches RowError::CellOutOfRange { cell, width }
                    &&& width == old(dest)@.len()
                    &&& width <= cell <= period.last()
                    &&& fill_takes(
                        old(self)@,
                        old(dest)@,
                        count as int,
                        period.first(),
                        cell as int,
                    )
                    &&& forall|c: int|
                        width <= c < cell ==> !fill_takes(
                            old(self)@,
                            old(dest)@,
                            count as int,
                            period.first(),
                            c,
                        )
                },
            },
    {
        let ghost src = self@;
        let ghost dst = dest@;
        let r = self.fill_cells(dest, count, period);
        proof {
            let out = transferred(
                TransferPolicy::Fill,
                src,
                dst,
                count as int,
                period.first(),
                period.last(),
            );
            assert(self@ =~= out.0);
            assert(dest@ =~= out.1);
            if r is Err {
                assert(fill_takes(src, dst, count as int, period.first(), r->Err_0->cell as int));
            }
        }
        r
    }

    /// Moves up to `count` cells of `period` to `dest`, taking the highest
    /// cells that can move.
    ///
    /// Where the highest cell that can move lies beyond the width of `dest`,
    /// nothing moves and that cell is reported.
    pub fn reverse_fill_transfer_to(
        &mut self,
        dest: &mut ChartRow,
        count: u32,
        period: &ChartPeriod,
    ) -> (r: Result<TransferResult, RowError>)
        ensures
            final(self)@.len() == old(self)@.len(),
            final(dest)@.len() == old(dest)@.len(),
            final(self)@ == transferred(
                TransferPolicy::ReverseFill,
                old(self)@,
                old(dest)@,
                count as int,
                period.first(),
                period.last(),
            ).0,
            final(dest)@ == transferred(
                TransferPolicy::ReverseFill,
                old(self)@,
                old(dest)@,
                count as int,
                period.first(),
                period.last(),
            ).1,
            match r {
                Ok(t) => {
                    &&& !reverse_fill_blocked(
                        old(self)@,
                        old(dest)@,
                        count as int,
                        period.first(),
                        period.last(),
                    )
                    &&& t.transferred == least(
                        count as int,
                        transferable_in(
                            old(self)@,
                            old(dest)@,
                            period.first(),
                            period.last() + 1,
                        ),
                    )
                    &&& transfer_sound(
                        old(self)@,
                        old(dest)@,
                        final(self)@,
                        final(dest)@,
                        count,
                        *period,
                        t,
                    )
                },
                Err(e) => {
                    &&& reverse_fill_blocked(
                        old(self)@,
                        old(dest)@,
                        count as int,
                        period.first(),
                        period.last(),
                    )
                    &&& e matches RowError::CellOutOfRange { cell, width }
                    &&& width == old(dest)@.len()
                    &&& width <= cell
                    &&& period.contains(cell as int)
                    &&& transferable(old(self)@, old(dest)@, cell as int)
                    &&& forall|c: int|
                        cell < c <= period.last() ==> !transferable(old(self)@, old(dest)@, c)
                },
            },
    {
        let ghost src = self@;
        let ghost dst = dest@;
        let r = self.reverse_fill_cells(dest, count, period);
        proof {
            let out = transferred(
                TransferPolicy::ReverseFill,
                src,
                dst,
                count as int,
                period.first(),
                period.last(),
            );
            if r is Err {
                assert(transferable(src, dst, r->Err_0->cell as int));
            } else {
                if reverse_fill_blocked(src, dst, count as int, period.first(), period.last()) {
                    let c = choose|c: int|
                        period.first() <= c <= period.last() && dst.len() <= c && transferable(
                            src,
                            dst,
                            c,
                        );
                    lemma_highest_is_taken(
                        src,
                        dst,
                        count as int,
                        period.first(),
                        period.last(),
                        c,
                    );
                }
            }
            assert(self@ =~= out.0);
            assert(dest@ =~= out.1);
        }
        r
    }

    /// Moves up to `count` cells of `period` to `dest`, chosen as `policy` says.
    pub fn transfer_to(
        &mut self,
        dest: &mut ChartRow,
        policy: TransferPolicy,
        count: u32,
        period: &ChartPeriod,
    ) -> (r: Result<TransferResult, RowError>)
        ensures
            final(self)@.len() == old(self)@.len(),
            final(dest)@.len() == old(dest)@.len(),
            final(self)@ == transferred(
                policy,
                old(self)@,
                old(dest)@,
                count as int,
                period.first(),
                period.last(),
            ).0,
            final(dest)@ == transferred(
                policy,
                old(self)@,
                old(dest)@,
                count as int,
                period.first(),
                period.last(),
            ).1,
            match r {
                Ok(t) => transferred(
                    policy,
                    old(self)@,
                    old(dest)@,
                    count as int,
                    period.first(),
                    period.last(),
                ).2 == Some(t.failed as int) && transfer_sound(
                    old(self)@,
                    old(dest)@,
                    final(self)@,
                    final(dest)@,
                    count,
                    *period,
                    t,
                ),
                Err(e) => transferred(
                    policy,
                    old(self)@,
                    old(dest)@,
                    count as int,
                    period.first(),
                    period.last(),
                ).2 is None && e is CellOutOfRange,
            },
    {
        match policy {
            TransferPolicy::Fill => self.fill_transfer_to(dest, count, period),
            TransferPolicy::ReverseFill => self.reverse_fill_transfer_to(dest, count, period),
            TransferPolicy::Smear => {
                proof {
                    period.lemma_wf();
                    use_type_invariant(period);
                }
                self.smear_transfer_to(dest, count, *period)
            },
        }
    }

    /// One pass of a smear: wants what `rc` says is left, and records in `rc`
    /// what it takes. Returns how many cells it took.
    fn smear_pass(
        &mut self,
        dest: &mut ChartRow,
        rc: &mut TransferResult,
        period: &ChartPeriod,
        Ghost(src0): Ghost<Seq<bool>>,
        Ghost(dst0): Ghost<Seq<bool>>,
        Ghost(count): Ghost<u32>,
    ) -> (r: Result<u32, RowError>)
        requires
            sound_so_far(src0, dst0, old(self)@, old(dest)@, count, *period, *old(rc)),
            old(rc).transferred + old(rc).failed == count,
        ensures
            final(self)@ == smear_pass_src(
                old(self)@,
                old(dest)@,
                old(rc).failed as int,
                period.first(),
                period.spec_length(),
            ),
            final(dest)@ == smear_pass_dst(
                old(self)@,
                old(dest)@,
                old(rc).failed as int,
                period.first(),
                period.spec_length(),
            ),
            match r {
                Ok(taken) => {
                    &&& taken == smear_taken(
                        old(self)@,
                        old(dest)@,
                        old(rc).failed as int,
                        period.first(),
                        period.spec_length(),
                        period.spec_length(),
                    )
                    &&& smear_block(
                        old(self)@,
                        old(dest)@,
                        old(rc).failed as int,
                        period.first(),
                        period.spec_length(),
                        period.spec_length(),
                    ) is None
                    &&& final(rc).failed == old(rc).failed - taken
                    &&& final(rc).transferred == old(rc).transferred + taken
                    &&& sound_so_far(
                        src0,
                        dst0,
                        final(self)@,
                        final(dest)@,
                        count,
                        *period,
                        *final(rc),
                    )
                },
                Err(e) => {
                    &&& e matches RowError::CellOutOfRange { cell, width }
                    &&& width == old(dest)@.len()
                    &&& smear_block(
                        old(self)@,
                        old(dest)@,
                        old(rc).failed as int,
                        period.first(),
                        period.spec_length(),
                        period.spec_length(),
                    ) == Some(cell as int)
                },
            },
    {
        let first = period.get_first();
        let last = period.get_last();
        let length = period.length();
        let width = self.get_num_cells();
        let dest_width = dest.get_num_cells();
        let stop: u32 = if last + 1 < width {
            last + 1
        } else {
            width
        };
        let want = rc.to_transfer();
        let ghost ps = self@;
        let ghost pd = dest@;
        let ghost f = first as int;
        let ghost len = length as int;
        let ghost w = want as int;
        let mut taken: u32 = 0;
        let mut cell: u32 = first;
        while cell < stop && rc.to_transfer() != 0
            invariant
                ps == old(self)@,
                pd == old(dest)@,
                w == old(rc).failed,
                w == want,
                f == first,
                f == period.first(),
                last == period.last(),
                len == period.spec_length(),
                len == length,
                len == last - first + 1,
                first <= cell,
                cell <= stop || stop <= first,
                stop <= first ==> cell == first,
                stop == least(last + 1, width as int),
                first <= last < u32::MAX,
                width == ps.len(),
                dest_width == pd.len(),
                self@.len() == ps.len(),
                dest@.len() == pd.len(),
                taken == smear_taken(ps, pd, w, f, len, cell - first),
                smear_block(ps, pd, w, f, len, cell - first) is None,
                rc.failed == want - taken,
                rc.transferred + rc.failed == count,
                forall|c: int| cell <= c < ps.len() ==> self@[c] == ps[c],
                forall|c: int| cell <= c < pd.len() ==> dest@[c] == pd[c],
                forall|c: int|
                    0 <= c < cell && c < pd.len() ==> dest@[c] == (pd[c] || smear_takes(
                        ps,
                        pd,
                        w,
                        f,
                        len,
                        c,
                    )),
                forall|c: int|
                    0 <= c < cell && c < ps.len() ==> self@[c] == (ps[c] && !(c < pd.len()
                        && smear_takes(ps, pd, w, f, len, c))),
                sound_so_far(src0, dst0, self@, dest@, count, *period, *rc),
            decreases stop - cell,
        {
            let ghost i = cell - first + 1;
            proof {
                lemma_smear_taken_bounds(ps, pd, w, f, len, i - 1);
                assert(i * w <= 0xffff_ffff * 0xffff_ffff) by (nonlinear_arith)
                    requires
                        0 <= i <= 0xffff_ffff,
                        0 <= w <= 0xffff_ffff,
                ;
                assert(taken * len <= 0xffff_ffff * 0xffff_ffff) by (nonlinear_arith)
                    requires
                        0 <= taken <= 0xffff_ffff,
                        0 <= len <= 0xffff_ffff,
                ;
            }
            let due: bool = ((cell - first) as u64 + 1) * (want as u64) > (taken as u64) * (
            length as u64);
            if due && self.is_set(cell) && !dest.is_set(cell) {
                assert(transferable(ps, pd, cell as int));
                assert(smear_takes(ps, pd, w, f, len, cell as int));
                if cell >= dest_width {
                    proof {
                        assert(smear_block(ps, pd, w, f, len, i) == Some(cell as int));
                        lemma_smear_block_stays(ps, pd, w, f, len, i, len);
                        assert(self@ =~= smear_pass_src(ps, pd, w, f, len));
                        assert(dest@ =~= smear_pass_dst(ps, pd, w, f, len));
                    }
                    return Err(RowError::CellOutOfRange { cell, width: dest_width });
                }
                let ghost src_now = self@;
                let ghost dst_now = dest@;
                let ghost rc_now = *rc;
                let _ = self.unset(cell);
                let _ = dest.set(cell);
                let _ = rc.transfer(cell);
                taken = taken + 1;
                proof {
                    lemma_count_update(src_now, cell as int, false, 0, ps.len() as int);
                    lemma_count_update(dst_now, cell as int, true, 0, pd.len() as int);
                    lemma_moved_one_more(
                        src0,
                        dst0,
                        src_now,
                        dst_now,
                        self@,
                        dest@,
                        count,
                        *period,
                        rc_now,
                        *rc,
                        cell,
                    );
                }
            } else {
                assert(!smear_takes(ps, pd, w, f, len, cell as int));
            }
            cell = cell + 1;
        }
        proof {
            lemma_smear_taken_bounds(ps, pd, w, f, len, cell - first);
            assert forall|c: int| cell <= c < f
                + len implies !smear_takes(ps, pd, w, f, len, c) by {
                if smear_takes(ps, pd, w, f, len, c) {
                    // The cell is in the row, so the pass ended for want of nothing.
                    assert(c < stop);
                    assert(rc.failed == 0);
                    lemma_smear_taken_grows(ps, pd, w, f, len, cell - first, c - f);
                    lemma_smear_taken_bounds(ps, pd, w, f, len, c - f + 1);
                }
            }
            lemma_smear_rest_untaken(ps, pd, w, f, len, cell - first, len);
            assert(self@ =~= smear_pass_src(ps, pd, w, f, len));
            assert(dest@ =~= smear_pass_dst(ps, pd, w, f, len));
        }
        Ok(taken)
    }
}

/// Where a cell of the period beyond the width of `dst` can move, a fill
/// from the high end of at least one cell takes such a cell.
proof fn lemma_highest_is_taken(
    src: Seq<bool>,
    dst: Seq<bool>,
    count: int,
    first: int,
    last: int,
    c: int,
)
    requires
        count > 0,
        first <= c <= last,
        dst.len() <= c,
        transferable(src, dst, c),
    ensures
        exists|x: int|
            first <= x && x >= dst.len() && reverse_fill_takes(src, dst, count, last, x),
    decreases last - c,
{
    if transferable_in(src, dst, c + 1, last + 1) == 0 {
        assert(reverse_fill_takes(src, dst, count, last, c));
    } else {
        let x = lemma_some_transferable(src, dst, c + 1, last + 1);
        lemma_highest_is_taken(src, dst, count, first, last, x);
    }
}

/// Where some cells of `lo .. hi` can move, one of them can be named.
proof fn lemma_some_transferable(src: Seq<bool>, dst: Seq<bool>, lo: int, hi: int) -> (x: int)
    requires
        transferable_in(src, dst, lo, hi) != 0,
    ensures
        lo <= x < hi,
        transferable(src, dst, x),
    decreases hi - lo,
{
    if hi <= lo {
        0
    } else if transferable(src, dst, hi - 1) {
        hi - 1
    } else {
        lemma_some_transferable(src, dst, lo, hi - 1)
    }
}

/// Before any cell has moved, a transfer is sound.
proof fn lemma_nothing_moved(src: Seq<bool>, dst: Seq<bool>, count: u32, period: ChartPeriod)
    ensures
        sound_so_far(src, dst, src, dst, count, period, (TransferResult {
            earliest: None,
            latest: None,
            transferred: 0,
            failed: count,
        })),
{
    reveal(sound_so_far);
}

/// A pass that takes no cell leaves both rows as they are.
proof fn lemma_pass_without_effect(
    src: Seq<bool>,
    dst: Seq<bool>,
    want: int,
    first: int,
    length: int,
)
    requires
        0 <= want,
        0 < length,
        smear_taken(src, dst, want, first, length, length) == 0,
    ensures
        smear_pass_src(src, dst, want, first, length) == src,
        smear_pass_dst(src, dst, want, first, length) == dst,
{
    assert forall|c: int| !smear_takes(src, dst, want, first, length, c) by {
        if smear_takes(src, dst, want, first, length, c) {
            let i = c - first + 1;
            lemma_smear_taken_bounds(src, dst, want, first, length, i - 1);
            lemma_smear_taken_grows(src, dst, want, first, length, i, length);
        }
    }
    assert(smear_pass_src(src, dst, want, first, length) =~= src);
    assert(smear_pass_dst(src, dst, want, first, length) =~= dst);
}

/// A transfer that was sound so far and moves one more cell, which could
/// move, is sound with that cell recorded.
proof fn lemma_moved_one_more(
    src0: Seq<bool>,
    dst0: Seq<bool>,
    src_now: Seq<bool>,
    dst_now: Seq<bool>,
    src_next: Seq<bool>,
    dst_next: Seq<bool>,
    count: u32,
    period: ChartPeriod,
    rc_now: TransferResult,
    rc_next: TransferResult,
    cell: u32,
)
    requires
        sound_so_far(src0, dst0, src_now, dst_now, count, period, rc_now),
        period.contains(cell as int),
        cell < src_now.len(),
        cell < dst_now.len(),
        src_now[cell as int],
        !dst_now[cell as int],
        src_next == src_now.update(cell as int, false),
        dst_next == dst_now.update(cell as int, true),
        count_in(src_next, 0, src_now.len() as int) == count_in(src_now, 0, src_now.len() as int)
            - 1,
        count_in(dst_next, 0, dst_now.len() as int) == count_in(dst_now, 0, dst_now.len() as int)
            + 1,
        rc_now.failed > 0,
        rc_next == (TransferResult {
            earliest: Some(
                match rc_now.earliest {
                    Some(e) if e <= cell => e,
                    _ => cell,
                },
            ),
            latest: Some(
                match rc_now.latest {
                    Some(l) if l >= cell => l,
                    _ => cell,
                },
            ),
            transferred: (rc_now.transferred + 1) as u32,
            failed: (rc_now.failed - 1) as u32,
        }),
    ensures
        sound_so_far(src0, dst0, src_next, dst_next, count, period, rc_next),
{
    reveal(sound_so_far);
    assert(moved(dst0, dst_next, cell as int));
    assert forall|c: int| #[trigger] moved(dst0, dst_next, c) implies period.contains(c)
        && transferable(src0, dst0, c) && rc_next.earliest->0 <= c <= rc_next.latest->0 by {
        if c != cell {
            assert(moved(dst0, dst_now, c));
        }
    }
    assert forall|c: int| 0 <= c < dst0.len() implies dst_next[c] == (dst0[c] || moved(
        dst0,
        dst_next,
        c,
    )) by {}
    assert forall|c: int| 0 <= c < src0.len() implies src_next[c] == (src0[c] && !moved(
        dst0,
        dst_next,
        c,
    )) by {
        if c != cell {
            assert(moved(dst0, dst_next, c) == moved(dst0, dst_now, c));
        }
    }
    if rc_next.earliest->0 != cell {
        assert(moved(dst0, dst_now, rc_next.earliest->0 as int));
    }
    if rc_next.latest->0 != cell {
        assert(moved(dst0, dst_now, rc_next.latest->0 as int));
    }
    if rc_now.transferred == 0 {
    }
}

} // verus!
