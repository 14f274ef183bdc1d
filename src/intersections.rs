//! Batch intersection finders: brute force and sweep-line pruned, within one
//! set of segments or between two sets.

use crate::segment::{
    lemma_separated_no_intersection, lex_le, lex_lt, line_intersection_spec, segments_intersect,
    IxPoint, OrderedSegment,
};
use smallvec::SmallVec;
use vstd::multiset::Multiset;
use vstd::prelude::*;

verus! {

broadcast use vstd::seq_lib::group_to_multiset_ensures;

/// One intersection found between two segments: the point and the indices of
/// the two segments, in the order in which they were tested. The point is
/// exact; `Ratio::quot_rem` splits each coordinate for conversion to a
/// float.
#[derive(Debug, Clone, Copy, PartialEq, Eq, Structural)]
pub struct IxResultFloat {
    pub ix: IxPoint,
    pub idx1: usize,
    pub idx2: usize,
}

/// `(point, idx1, idx2)`, the point given as
/// `(x numerator, x denominator, y numerator, y denominator)`.
pub type Record = ((int, int, int, int), usize, usize);

impl IxResultFloat {
    pub open spec fn view(self) -> Record {
        (self.ix@, self.idx1, self.idx2)
    }
}

/// The records of a result list.
pub open spec fn records(v: Seq<IxResultFloat>) -> Seq<Record> {
    v.map_values(|r: IxResultFloat| r@)
}

/// What testing `s1` against `s2` contributes: a record when they cross.
pub open spec fn record_of(s1: OrderedSegment, s2: OrderedSegment) -> Option<Record> {
    if segments_intersect(s1, s2) {
        match line_intersection_spec(s1, s2) {
            Some(p) => Some((p, s1.idx, s2.idx)),
            None => None,
        }
    } else {
        None
    }
}

pub open spec fn opt_seq(o: Option<Record>) -> Seq<Record> {
    match o {
        Some(r) => seq![r],
        None => seq![],
    }
}

/// The records of `x` tested against each element of `t`, in order.
pub open spec fn row_records(x: OrderedSegment, t: Seq<OrderedSegment>) -> Seq<Record>
    decreases t.len(),
{
    if t.len() == 0 {
        seq![]
    } else {
        row_records(x, t.drop_last()) + opt_seq(record_of(x, t.last()))
    }
}

/// Every unordered pair of `s` tested once, the earlier element first, row
/// by row.
pub open spec fn brute_single_records(s: Seq<OrderedSegment>) -> Seq<Record>
    decreases s.len(),
{
    if s.len() == 0 {
        seq![]
    } else {
        row_records(s[0], s.drop_first()) + brute_single_records(s.drop_first())
    }
}

/// Every element of `s1` tested against every element of `s2`, row by row.
pub open spec fn brute_double_records(s1: Seq<OrderedSegment>, s2: Seq<OrderedSegment>) -> Seq<
    Record,
>
    decreases s1.len(),
{
    if s1.len() == 0 {
        seq![]
    } else {
        brute_double_records(s1.drop_last(), s2) + row_records(s1.last(), s2)
    }
}

/// The most records a result list is asked to hold.
pub const MAX_RECORDS: usize = usize::MAX / 512;

/// A list of results: up to four inline, more on the heap. The verifier
/// refuses a declaration of `SmallVec` itself (its `Array` bound), so the
/// vector is held here, opaque, and reached only through the functions below.
#[verifier::external_body]
#[derive(Debug)]
pub struct IxVec {
    items: SmallVec<[IxResultFloat; 4]>,
}

/// The records that a result list holds, in order.
pub uninterp spec fn ix_contents(v: IxVec) -> Seq<IxResultFloat>;

/// Relies on `SmallVec::new`: an empty vector.
#[verifier::external_body]
fn ix_vec_new() -> (r: IxVec)
    ensures
        ix_contents(r) == Seq::<IxResultFloat>::empty(),
{
    IxVec { items: SmallVec::new() }
}

/// Relies on `SmallVec::push`: the item is appended at the end. It panics
/// only when the new capacity overflows, far above `MAX_RECORDS` items.
#[verifier::external_body]
fn ix_vec_push(v: &mut IxVec, item: IxResultFloat)
    requires
        ix_contents(*old(v)).len() < MAX_RECORDS,
    ensures
        ix_contents(*final(v)) == ix_contents(*old(v)).push(item),
{
    v.items.push(item);
}

/// Relies on `SmallVec::len`: the number of items.
#[verifier::external_body]
fn ix_vec_len(v: &IxVec) -> (r: usize)
    ensures
        r == ix_contents(*v).len(),
{
    v.items.len()
}

/// Relies on `SmallVec::as_slice`: the items, in order.
#[verifier::external_body]
fn ix_vec_as_slice(v: &IxVec) -> (r: &[IxResultFloat])
    ensures
        r@ == ix_contents(*v),
{
    v.items.as_slice()
}

impl IxVec {
    /// The number of results.
    pub fn len(&self) -> (r: usize)
        ensures
            r == ix_contents(*self).len(),
    {
        ix_vec_len(self)
    }

    /// The results, in the order found.
    pub fn as_slice(&self) -> (r: &[IxResultFloat])
        ensures
            r@ == ix_contents(*self),
    {
        ix_vec_as_slice(self)
    }
}

/// Segments in nondecreasing order of their start points.
pub open spec fn sorted_by_start(s: Seq<OrderedSegment>) -> bool {
    forall|i: int, j: int| 0 <= i < j < s.len() ==> lex_le(s[i].start, s[j].start)
}

pub open spec fn all_wf(s: Seq<OrderedSegment>) -> bool {
    forall|i: int| 0 <= i < s.len() ==> (#[trigger] s[i]).wf()
}

/// Relies on `slice::sort_unstable_by_key`: the slice is reordered (a
/// permutation of its elements) so that the keys, here `(start.x, start.y)`
/// under the tuple order, are nondecreasing.
#[verifier::external_body]
fn sort_by_start(segments: &mut Vec<OrderedSegment>)
    ensures
        final(segments)@.to_multiset() == old(segments)@.to_multiset(),
        sorted_by_start(final(segments)@),
{
    segments.sort_unstable_by_key(|s| (s.start.x, s.start.y));
}

fn sort_segments(segments: &mut Vec<OrderedSegment>)
    requires
        all_wf(old(segments)@),
    ensures
        final(segments)@.to_multiset() == old(segments)@.to_multiset(),
        sorted_by_start(final(segments)@),
        all_wf(final(segments)@),
        final(segments)@.len() == old(segments)@.len(),
{
    let ghost before = segments@;
    sort_by_start(segments);
    proof {
        vstd::seq_lib::to_multiset_len(before);
        vstd::seq_lib::to_multiset_len(segments@);
        assert forall|i: int| 0 <= i < segments@.len() implies (#[trigger] segments@[i]).wf() by {
            assert(segments@.to_multiset().count(segments@[i]) > 0);
            assert(before.contains(segments@[i]));
        }
    }
}

proof fn lemma_records_push(v: Seq<IxResultFloat>, r: IxResultFloat)
    ensures
        records(v.push(r)) == records(v) + seq![r@],
{
    assert(records(v.push(r)) =~= records(v) + seq![r@]);
}

proof fn lemma_row_step(x: OrderedSegment, t: Seq<OrderedSegment>, lo: int, j: int)
    requires
        0 <= lo <= j < t.len(),
    ensures
        row_records(x, t.subrange(lo, j + 1)) == row_records(x, t.subrange(lo, j)) + opt_seq(
            record_of(x, t[j]),
        ),
{
    assert(t.subrange(lo, j + 1).drop_last() =~= t.subrange(lo, j));
}

/// Elements that contribute nothing can be dropped from the end of a row.
proof fn lemma_row_tail_silent(x: OrderedSegment, t: Seq<OrderedSegment>, lo: int, j: int, n: int)
    requires
        0 <= lo <= j <= n <= t.len(),
        forall|k: int| j <= k < n ==> record_of(x, #[trigger] t[k]) is None,
    ensures
        row_records(x, t.subrange(lo, n)) == row_records(x, t.subrange(lo, j)),
    decreases n - j,
{
    if n > j {
        lemma_row_tail_silent(x, t, lo, j, n - 1);
        lemma_row_step(x, t, lo, n - 1);
        assert(opt_seq(record_of(x, t[n - 1])) =~= seq![]);
        assert(row_records(x, t.subrange(lo, n)) =~= row_records(x, t.subrange(lo, n - 1)));
    }
}

/// The next row of a `rows` by `cols` scan still fits.
proof fn lemma_next_row_fits(i: int, rows: int, cols: int)
    requires
        0 <= i < rows,
        0 <= cols,
    ensures
        i * cols + cols == (i + 1) * cols,
        (i + 1) * cols <= rows * cols,
{
    assert(i * cols + cols == (i + 1) * cols) by (nonlinear_arith);
    assert((i + 1) * cols <= rows * cols) by (nonlinear_arith)
        requires
            i + 1 <= rows,
            0 <= cols,
    ;
}

/// Tests `si` against `sj` and appends the record, if any.
fn test_pair(si: &OrderedSegment, sj: &OrderedSegment, ixs: &mut IxVec)
    requires
        ix_contents(*old(ixs)).len() < MAX_RECORDS,
    ensures
        ix_contents(*final(ixs)).len() <= ix_contents(*old(ixs)).len() + 1,
        records(ix_contents(*final(ixs))) == records(ix_contents(*old(ixs))) + opt_seq(record_of(*si, *sj)),
{
    proof {
        lemma_intersects_locates(*si, *sj);
    }
    if si.intersects(sj) {
        if let Some(ix) = si.line_intersection(sj) {
            let r = IxResultFloat { ix, idx1: si.idx, idx2: sj.idx };
            proof {
                lemma_records_push(ix_contents(*ixs), r);
            }
            ix_vec_push(ixs, r);
            return ;
        }
    }
    assert(records(ix_contents(*ixs)) =~= records(ix_contents(*ixs)) + opt_seq(record_of(*si, *sj)));
}

proof fn lemma_intersects_locates(s1: OrderedSegment, s2: OrderedSegment)
    ensures
        segments_intersect(s1, s2) ==> line_intersection_spec(s1, s2) is Some,
{
    if segments_intersect(s1, s2) {
        crate::segment::lemma_intersection_in_both_boxes(s1, s2);
    }
}

/// All crossing pairs within one set, by testing every unordered pair once.
pub fn ix_brute_single_i32(segments: &[OrderedSegment]) -> (r: IxVec)
    requires
        segments@.len() * segments@.len() <= MAX_RECORDS,
    ensures
        records(ix_contents(r)) == brute_single_records(segments@),
{
    let mut ixs: IxVec = ix_vec_new();
    let n = segments.len();
    let mut i: usize = 0;
    proof {
        assert(segments@.subrange(0, n as int) =~= segments@);
        assert(records(ix_contents(ixs)) =~= seq![]);
    }
    while i < n
        invariant
            i <= n,
            n == segments@.len(),
            brute_single_records(segments@) == records(ix_contents(ixs)) + brute_single_records(
                segments@.subrange(i as int, n as int),
            ),
            n * n <= MAX_RECORDS,
            ix_contents(ixs).len() <= i * n,
        decreases n - i,
    {
        let si = segments[i];
        proof {
            lemma_next_row_fits(i as int, n as int, n as int);
        }
        let ghost base = records(ix_contents(ixs));
        proof {
            let rest = segments@.subrange(i as int, n as int);
            assert(rest.drop_first() =~= segments@.subrange(i + 1, n as int));
            assert(rest[0] == si);
            assert(segments@.subrange(i + 1, i + 1) =~= seq![]);
            assert(base + seq![] =~= base);
        }
        let mut j: usize = i + 1;
        while j < n
            invariant
                i < n,
                i + 1 <= j <= n,
                n == segments@.len(),
                si == segments@[i as int],
                records(ix_contents(ixs)) == base + row_records(si, segments@.subrange(i + 1, j as int)),
                (i + 1) * n <= MAX_RECORDS,
                i * n + n == (i + 1) * n,
                ix_contents(ixs).len() <= i * n + (j - i - 1),
            decreases n - j,
        {
            let sj = segments[j];
            proof {
                lemma_row_step(si, segments@, i + 1, j as int);
            }
            test_pair(&si, &sj, &mut ixs);
            proof {
                assert(records(ix_contents(ixs)) =~= base + row_records(si, segments@.subrange(i + 1, j + 1)));
            }
            j += 1;
        }
        proof {
            assert(records(ix_contents(ixs)) + brute_single_records(segments@.subrange(i + 1, n as int))
                =~= base + brute_single_records(segments@.subrange(i as int, n as int)));
        }
        i += 1;
    }
    proof {
        assert(segments@.subrange(n as int, n as int) =~= seq![]);
        assert(records(ix_contents(ixs)) + seq![] =~= records(ix_contents(ixs)));
    }
    ixs
}

/// Every segment of the first set tested against every segment of the second.
pub fn ix_brute_double_i32(segments1: &[OrderedSegment], segments2: &[OrderedSegment]) -> (r: IxVec)
    requires
        segments1@.len() * segments2@.len() <= MAX_RECORDS,
    ensures
        records(ix_contents(r)) == brute_double_records(segments1@, segments2@),
{
    let mut ixs: IxVec = ix_vec_new();
    let n1 = segments1.len();
    let n2 = segments2.len();
    let mut i: usize = 0;
    proof {
        assert(records(ix_contents(ixs)) =~= seq![]);
        assert(segments1@.subrange(0, 0) =~= seq![]);
    }
    while i < n1
        invariant
            i <= n1,
            n1 == segments1@.len(),
            n2 == segments2@.len(),
            records(ix_contents(ixs)) == brute_double_records(segments1@.subrange(0, i as int), segments2@),
            n1 * n2 <= MAX_RECORDS,
            ix_contents(ixs).len() <= i * n2,
        decreases n1 - i,
    {
        let si = segments1[i];
        proof {
            lemma_next_row_fits(i as int, n1 as int, n2 as int);
        }
        let ghost base = records(ix_contents(ixs));
        proof {
            assert(segments2@.subrange(0, 0) =~= seq![]);
            assert(base + seq![] =~= base);
        }
        let mut j: usize = 0;
        while j < n2
            invariant
                i < n1,
                j <= n2,
                n2 == segments2@.len(),
                si == segments1@[i as int],
                records(ix_contents(ixs)) == base + row_records(si, segments2@.subrange(0, j as int)),
                (i + 1) * n2 <= MAX_RECORDS,
                i * n2 + n2 == (i + 1) * n2,
                ix_contents(ixs).len() <= i * n2 + j,
            decreases n2 - j,
        {
            let sj = segments2[j];
            proof {
                lemma_row_step(si, segments2@, 0, j as int);
            }
            test_pair(&si, &sj, &mut ixs);
            proof {
                assert(records(ix_contents(ixs)) =~= base + row_records(si, segments2@.subrange(0, j + 1)));
            }
            j += 1;
        }
        proof {
            assert(segments2@.subrange(0, n2 as int) =~= segments2@);
            assert(segments1@.subrange(0, i + 1).drop_last() =~= segments1@.subrange(0, i as int));
        }
        i += 1;
    }
    proof {
        assert(segments1@.subrange(0, n1 as int) =~= segments1@);
    }
    ixs
}

/// Elements of a sorted sequence that start after `x` ends contribute
/// nothing to `x`'s row.
proof fn lemma_sorted_tail_silent(x: OrderedSegment, t: Seq<OrderedSegment>, j: int)
    requires
        x.wf(),
        all_wf(t),
        sorted_by_start(t),
        0 <= j < t.len(),
        lex_lt(x.end, t[j].start),
    ensures
        forall|k: int| j <= k < t.len() ==> record_of(x, #[trigger] t[k]) is None,
{
    assert forall|k: int| j <= k < t.len() implies record_of(x, #[trigger] t[k]) is None by {
        assert(t[k].wf());
        if k > j {
            assert(lex_le(t[j].start, t[k].start));
        }
        lemma_separated_no_intersection(x, t[k]);
    }
}

/// Sweep over `sorted[lo..]` for `si`, skipping segments that end before
/// `si` starts and stopping at the first one that starts after `si` ends.
fn sweep_row(si: &OrderedSegment, sorted: &Vec<OrderedSegment>, lo: usize, ixs: &mut IxVec)
    requires
        si.wf(),
        all_wf(sorted@),
        sorted_by_start(sorted@),
        lo <= sorted@.len(),
        ix_contents(*old(ixs)).len() + (sorted@.len() - lo) <= MAX_RECORDS,
    ensures
        ix_contents(*final(ixs)).len() <= ix_contents(*old(ixs)).len() + (sorted@.len() - lo),
        records(ix_contents(*final(ixs))) == records(ix_contents(*old(ixs))) + row_records(
            *si,
            sorted@.subrange(lo as int, sorted@.len() as int),
        ),
{
    let n = sorted.len();
    let ghost base = records(ix_contents(*ixs));
    let ghost base_len = ix_contents(*ixs).len();
    proof {
        assert(sorted@.subrange(lo as int, lo as int) =~= seq![]);
        assert(base + seq![] =~= base);
    }
    let mut j: usize = lo;
    while j < n
        invariant
            lo <= j <= n,
            n == sorted@.len(),
            si.wf(),
            all_wf(sorted@),
            sorted_by_start(sorted@),
            records(ix_contents(*ixs)) == base + row_records(*si, sorted@.subrange(lo as int, j as int)),
            base_len + (n - lo) <= MAX_RECORDS,
            ix_contents(*ixs).len() <= base_len + (j - lo),
        ensures
            ix_contents(*ixs).len() <= base_len + (n - lo),
            records(ix_contents(*ixs)) == base + row_records(*si, sorted@.subrange(lo as int, n as int)),
        decreases n - j,
    {
        let sj = &sorted[j];
        proof {
            lemma_row_step(*si, sorted@, lo as int, j as int);
            assert(sj.wf());
        }
        if sj.is_left(si) {
            // `sj` ends before `si` starts
            proof {
                lemma_separated_no_intersection(*sj, *si);
                assert(opt_seq(record_of(*si, *sj)) =~= seq![]);
                assert(records(ix_contents(*ixs)) =~= base + row_records(*si, sorted@.subrange(lo as int, j + 1)));
            }
            j += 1;
            continue;
        }
        if sj.is_right(si) {
            // `sj`, and every later segment, starts after `si` ends
            proof {
                lemma_sorted_tail_silent(*si, sorted@, j as int);
                lemma_row_tail_silent(*si, sorted@, lo as int, j as int, n as int);
            }
            break;
        }
        test_pair(si, sj, ixs);
        proof {
            assert(records(ix_contents(*ixs)) =~= base + row_records(*si, sorted@.subrange(lo as int, j + 1)));
        }
        j += 1;
    }
}

/// All crossing pairs within one set: the segments are first sorted by start
/// point (in place), then each is tested only against later segments that
/// can reach it.
pub fn ix_sort_single_i32(segments: &mut Vec<OrderedSegment>) -> (r: IxVec)
    requires
        all_wf(old(segments)@),
        old(segments)@.len() * old(segments)@.len() <= MAX_RECORDS,
    ensures
        final(segments)@.to_multiset() == old(segments)@.to_multiset(),
        sorted_by_start(final(segments)@),
        records(ix_contents(r)) == brute_single_records(final(segments)@),
{
    sort_segments(segments);
    let segments: &Vec<OrderedSegment> = segments;
    let mut ixs: IxVec = ix_vec_new();
    let n = segments.len();
    let mut i: usize = 0;
    proof {
        assert(segments@.subrange(0, n as int) =~= segments@);
        assert(records(ix_contents(ixs)) =~= seq![]);
    }
    while i < n
        invariant
            i <= n,
            n == segments@.len(),
            all_wf(segments@),
            sorted_by_start(segments@),
            brute_single_records(segments@) == records(ix_contents(ixs)) + brute_single_records(
                segments@.subrange(i as int, n as int),
            ),
            n * n <= MAX_RECORDS,
            ix_contents(ixs).len() <= i * n,
        decreases n - i,
    {
        let si = &segments[i];
        proof {
            lemma_next_row_fits(i as int, n as int, n as int);
        }
        let ghost base = records(ix_contents(ixs));
        proof {
            let rest = segments@.subrange(i as int, n as int);
            assert(rest.drop_first() =~= segments@.subrange(i + 1, n as int));
            assert(rest[0] == *si);
            assert(si.wf());
        }
        sweep_row(si, segments, i + 1, &mut ixs);
        proof {
            assert(records(ix_contents(ixs)) + brute_single_records(segments@.subrange(i + 1, n as int))
                =~= base + brute_single_records(segments@.subrange(i as int, n as int)));
        }
        i += 1;
    }
    proof {
        assert(segments@.subrange(n as int, n as int) =~= seq![]);
        assert(records(ix_contents(ixs)) + seq![] =~= records(ix_contents(ixs)));
    }
    ixs
}

/// Every segment of the first set against every segment of the second: both
/// sets are first sorted by start point (in place), then each segment of the
/// first is tested only against segments of the second that can reach it.
pub fn ix_sort_double_i32(segments1: &mut Vec<OrderedSegment>, segments2: &mut Vec<OrderedSegment>) -> (r: IxVec)
    requires
        all_wf(old(segments1)@),
        all_wf(old(segments2)@),
        old(segments1)@.len() * old(segments2)@.len() <= MAX_RECORDS,
    ensures
        final(segments1)@.to_multiset() == old(segments1)@.to_multiset(),
        final(segments2)@.to_multiset() == old(segments2)@.to_multiset(),
        sorted_by_start(final(segments1)@),
        sorted_by_start(final(segments2)@),
        records(ix_contents(r)) == brute_double_records(final(segments1)@, final(segments2)@),
{
    sort_segments(segments1);
    sort_segments(segments2);
    let segments1: &Vec<OrderedSegment> = segments1;
    let segments2: &Vec<OrderedSegment> = segments2;
    let mut ixs: IxVec = ix_vec_new();
    let n1 = segments1.len();
    let mut i: usize = 0;
    proof {
        assert(records(ix_contents(ixs)) =~= seq![]);
        assert(segments1@.subrange(0, 0) =~= seq![]);
    }
    while i < n1
        invariant
            i <= n1,
            n1 == segments1@.len(),
            all_wf(segments1@),
            all_wf(segments2@),
            sorted_by_start(segments2@),
            records(ix_contents(ixs)) == brute_double_records(segments1@.subrange(0, i as int), segments2@),
            n1 * segments2@.len() <= MAX_RECORDS,
            ix_contents(ixs).len() <= i * segments2@.len(),
        decreases n1 - i,
    {
        let si = &segments1[i];
        proof {
            lemma_next_row_fits(i as int, n1 as int, segments2@.len() as int);
        }
        proof {
            assert(si.wf());
        }
        sweep_row(si, segments2, 0, &mut ixs);
        proof {
            assert(segments2@.subrange(0, segments2@.len() as int) =~= segments2@);
            assert(segments1@.subrange(0, i + 1).drop_last() =~= segments1@.subrange(0, i as int));
        }
        i += 1;
    }
    proof {
        assert(segments1@.subrange(0, n1 as int) =~= segments1@);
    }
    ixs
}

/// The multiset of what testing `x` against `y` contributes.
pub open spec fn pair_multiset(x: OrderedSegment, y: OrderedSegment) -> Multiset<Record> {
    opt_seq(record_of(x, y)).to_multiset()
}

/// The multiset of `x`'s row over `t`, as a fold.
pub open spec fn row_fold(x: OrderedSegment, t: Seq<OrderedSegment>) -> Multiset<Record> {
    t.fold_left(
        Multiset::empty(),
        |acc: Multiset<Record>, y: OrderedSegment| acc.add(pair_multiset(x, y)),
    )
}

proof fn lemma_row_multiset(x: OrderedSegment, t: Seq<OrderedSegment>)
    ensures
        row_records(x, t).to_multiset() == row_fold(x, t),
    decreases t.len(),
{
    if t.len() > 0 {
        lemma_row_multiset(x, t.drop_last());
        vstd::seq_lib::lemma_multiset_commutative(
            row_records(x, t.drop_last()),
            opt_seq(record_of(x, t.last())),
        );
    } else {
        assert(row_records(x, t).to_multiset() =~= Multiset::empty());
    }
}

proof fn lemma_add_fold_commutes<A>(m: spec_fn(A) -> Multiset<Record>)
    ensures
        vstd::seq_lib::commutative_foldl(|acc: Multiset<Record>, a: A| acc.add(m(a))),
{
    let f = |acc: Multiset<Record>, a: A| acc.add(m(a));
    assert forall|x: A, y: A, v: Multiset<Record>| #[trigger] f(f(v, x), y) == f(f(v, y), x) by {
        assert(v.add(m(x)).add(m(y)) =~= v.add(m(y)).add(m(x)));
    }
}

/// A row's multiset depends only on the multiset of segments it is taken over.
proof fn lemma_row_permutation(x: OrderedSegment, t: Seq<OrderedSegment>, u: Seq<OrderedSegment>)
    requires
        t.to_multiset() == u.to_multiset(),
    ensures
        row_records(x, t).to_multiset() == row_records(x, u).to_multiset(),
{
    let m = |y: OrderedSegment| pair_multiset(x, y);
    lemma_add_fold_commutes(m);
    let f = |acc: Multiset<Record>, y: OrderedSegment| acc.add(m(y));
    assert(f =~= |acc: Multiset<Record>, y: OrderedSegment| acc.add(pair_multiset(x, y)));
    vstd::seq_lib::lemma_fold_left_permutation(t, u, f, Multiset::empty());
    lemma_row_multiset(x, t);
    lemma_row_multiset(x, u);
}

/// The multiset of the double brute-force records, as a fold over the first set.
pub open spec fn double_fold(s1: Seq<OrderedSegment>, s2: Seq<OrderedSegment>) -> Multiset<Record> {
    s1.fold_left(
        Multiset::empty(),
        |acc: Multiset<Record>, x: OrderedSegment| acc.add(row_records(x, s2).to_multiset()),
    )
}

proof fn lemma_double_multiset(s1: Seq<OrderedSegment>, s2: Seq<OrderedSegment>)
    ensures
        brute_double_records(s1, s2).to_multiset() == double_fold(s1, s2),
    decreases s1.len(),
{
    if s1.len() > 0 {
        lemma_double_multiset(s1.drop_last(), s2);
        vstd::seq_lib::lemma_multiset_commutative(
            brute_double_records(s1.drop_last(), s2),
            row_records(s1.last(), s2),
        );
    } else {
        assert(brute_double_records(s1, s2).to_multiset() =~= Multiset::empty());
    }
}

/// Reordering either input set does not change the multiset of records that
/// testing every segment of the first against every segment of the second
/// reports. The sweep-line finder reports exactly the brute-force records of
/// its sorted inputs, which are reorderings of the inputs given: so brute force
/// and sweep line report the same multiset of `(point, idx1, idx2)`.
pub proof fn lemma_double_finders_agree(
    s1: Seq<OrderedSegment>,
    s2: Seq<OrderedSegment>,
    t1: Seq<OrderedSegment>,
    t2: Seq<OrderedSegment>,
)
    requires
        t1.to_multiset() == s1.to_multiset(),
        t2.to_multiset() == s2.to_multiset(),
    ensures
        brute_double_records(s1, s2).to_multiset() == brute_double_records(t1, t2).to_multiset(),
{
    let m1 = |x: OrderedSegment| row_records(x, s2).to_multiset();
    let m2 = |x: OrderedSegment| row_records(x, t2).to_multiset();
    assert forall|x: OrderedSegment| #[trigger] m1(x) == m2(x) by {
        lemma_row_permutation(x, s2, t2);
    }
    assert(m1 =~= m2);
    lemma_add_fold_commutes(m1);
    let f = |acc: Multiset<Record>, x: OrderedSegment| acc.add(m1(x));
    vstd::seq_lib::lemma_fold_left_permutation(s1, t1, f, Multiset::empty());
    assert(f =~= |acc: Multiset<Record>, x: OrderedSegment| acc.add(row_records(x, s2).to_multiset()));
    assert(f =~= |acc: Multiset<Record>, x: OrderedSegment| acc.add(row_records(x, t2).to_multiset()));
    lemma_double_multiset(s1, s2);
    lemma_double_multiset(t1, t2);
}

/// A record with its two indices as an unordered pair (smaller first).
pub open spec fn unordered(r: Record) -> Record {
    if r.1 <= r.2 {
        r
    } else {
        (r.0, r.2, r.1)
    }
}

/// The multiset of records of `v`, each with its indices unordered.
pub open spec fn unordered_multiset(v: Seq<Record>) -> Multiset<Record> {
    v.map_values(|r: Record| unordered(r)).to_multiset()
}

spec fn pair_unordered(x: OrderedSegment, y: OrderedSegment) -> Multiset<Record> {
    unordered_multiset(opt_seq(record_of(x, y)))
}

/// `x` tested against each element of `t`, records unordered, as a fold.
spec fn star(x: OrderedSegment, t: Seq<OrderedSegment>) -> Multiset<Record> {
    t.fold_left(
        Multiset::empty(),
        |acc: Multiset<Record>, y: OrderedSegment| acc.add(pair_unordered(x, y)),
    )
}

/// Every unordered pair, grouped by its later element.
spec fn pairs_by_last(s: Seq<OrderedSegment>) -> Multiset<Record>
    decreases s.len(),
{
    if s.len() == 0 {
        Multiset::empty()
    } else {
        pairs_by_last(s.drop_last()).add(star(s.last(), s.drop_last()))
    }
}

proof fn lemma_pair_unordered_symmetric(x: OrderedSegment, y: OrderedSegment)
    ensures
        pair_unordered(x, y) == pair_unordered(y, x),
{
    crate::segment::lemma_intersects_symmetric(x, y);
    crate::segment::lemma_line_intersection_symmetric(x, y);
    let ux = opt_seq(record_of(x, y)).map_values(|r: Record| unordered(r));
    let uy = opt_seq(record_of(y, x)).map_values(|r: Record| unordered(r));
    assert(ux =~= uy);
}

proof fn lemma_unordered_concat(a: Seq<Record>, b: Seq<Record>)
    ensures
        unordered_multiset(a + b) == unordered_multiset(a).add(unordered_multiset(b)),
{
    let f = |r: Record| unordered(r);
    assert((a + b).map_values(f) =~= a.map_values(f) + b.map_values(f));
    vstd::seq_lib::lemma_multiset_commutative(a.map_values(f), b.map_values(f));
}

proof fn lemma_row_star(x: OrderedSegment, t: Seq<OrderedSegment>)
    ensures
        unordered_multiset(row_records(x, t)) == star(x, t),
    decreases t.len(),
{
    if t.len() > 0 {
        lemma_row_star(x, t.drop_last());
        lemma_unordered_concat(row_records(x, t.drop_last()), opt_seq(record_of(x, t.last())));
    } else {
        assert(unordered_multiset(row_records(x, t)) =~= Multiset::empty());
    }
}

proof fn lemma_star_permutation(x: OrderedSegment, t: Seq<OrderedSegment>, u: Seq<OrderedSegment>)
    requires
        t.to_multiset() == u.to_multiset(),
    ensures
        star(x, t) == star(x, u),
{
    let m = |y: OrderedSegment| pair_unordered(x, y);
    lemma_add_fold_commutes(m);
    let f = |acc: Multiset<Record>, y: OrderedSegment| acc.add(m(y));
    assert(f =~= |acc: Multiset<Record>, y: OrderedSegment| acc.add(pair_unordered(x, y)));
    vstd::seq_lib::lemma_fold_left_permutation(t, u, f, Multiset::empty());
}

proof fn lemma_star_remove(x: OrderedSegment, t: Seq<OrderedSegment>, k: int)
    requires
        0 <= k < t.len(),
    ensures
        star(x, t) == star(x, t.remove(k)).add(pair_unordered(x, t[k])),
{
    let u = t.remove(k).push(t[k]);
    assert(u.drop_last() =~= t.remove(k));
    vstd::seq_lib::to_multiset_build(t.remove(k), t[k]);
    vstd::seq_lib::to_multiset_remove(t, k);
    assert(u.to_multiset() =~= t.to_multiset());
    lemma_star_permutation(x, t, u);
}

proof fn lemma_pairs_remove(t: Seq<OrderedSegment>, k: int)
    requires
        0 <= k < t.len(),
    ensures
        pairs_by_last(t) == pairs_by_last(t.remove(k)).add(star(t[k], t.remove(k))),
    decreases t.len(),
{
    if k == t.len() - 1 {
        assert(t.remove(k) =~= t.drop_last());
    } else {
        let tp = t.drop_last();
        let z = t.last();
        let x = t[k];
        let r = tp.remove(k);
        assert(tp[k] == x);
        lemma_pairs_remove(tp, k);
        lemma_star_remove(z, tp, k);
        assert(t.remove(k) =~= r.push(z));
        assert(t.remove(k).drop_last() =~= r);
        assert(t.remove(k).last() == z);
        assert(r.push(z).drop_last() =~= r);
        lemma_pair_unordered_symmetric(x, z);
        let a = pairs_by_last(r);
        let sx = star(x, r);
        let sz = star(z, r);
        let p = pair_unordered(z, x);
        assert(pairs_by_last(t) == a.add(sx).add(sz.add(p)));
        assert(pairs_by_last(t.remove(k)) == a.add(sz));
        assert(star(x, t.remove(k)) == sx.add(pair_unordered(x, z)));
        assert(a.add(sx).add(sz.add(p)) =~= a.add(sz).add(sx.add(p)));
    }
}

proof fn lemma_pairs_permutation(s: Seq<OrderedSegment>, t: Seq<OrderedSegment>)
    requires
        s.to_multiset() == t.to_multiset(),
    ensures
        pairs_by_last(s) == pairs_by_last(t),
    decreases s.len(),
{
    vstd::seq_lib::to_multiset_len(s);
    vstd::seq_lib::to_multiset_len(t);
    if s.len() > 0 {
        let x = s.last();
        assert(s.to_multiset().count(x) > 0) by {
            vstd::seq_lib::to_multiset_contains(s, x);
            assert(s.contains(x)) by {
                assert(s[s.len() - 1] == x);
            }
        }
        vstd::seq_lib::to_multiset_contains(t, x);
        let k = t.index_of(x);
        lemma_pairs_remove(t, k);
        vstd::seq_lib::to_multiset_remove(t, k);
        vstd::seq_lib::to_multiset_remove(s, s.len() - 1);
        assert(s.remove(s.len() - 1) =~= s.drop_last());
        lemma_pairs_permutation(s.drop_last(), t.remove(k));
        lemma_star_permutation(x, s.drop_last(), t.remove(k));
    } else {
        assert(t.len() == 0);
        assert(s =~= t);
    }
}

proof fn lemma_brute_single_pairs(s: Seq<OrderedSegment>)
    ensures
        unordered_multiset(brute_single_records(s)) == pairs_by_last(s),
    decreases s.len(),
{
    if s.len() > 0 {
        lemma_brute_single_pairs(s.drop_first());
        lemma_unordered_concat(row_records(s[0], s.drop_first()), brute_single_records(s.drop_first()));
        lemma_row_star(s[0], s.drop_first());
        lemma_pairs_remove(s, 0);
        assert(s.remove(0) =~= s.drop_first());
        assert(star(s[0], s.drop_first()).add(pairs_by_last(s.drop_first())) =~= pairs_by_last(
            s.drop_first(),
        ).add(star(s[0], s.drop_first())));
    } else {
        assert(unordered_multiset(brute_single_records(s)) =~= Multiset::empty());
    }
}

/// Reordering the set does not change which pairs cross, nor where: testing
/// every unordered pair once reports the same multiset of records, each
/// taken with its two indices as an unordered pair. The sweep-line finder
/// reports exactly the brute-force records of its sorted input, a reordering
/// of the input given: so brute force and sweep line agree up to order.
pub proof fn lemma_single_finders_agree(s: Seq<OrderedSegment>, t: Seq<OrderedSegment>)
    requires
        t.to_multiset() == s.to_multiset(),
    ensures
        unordered_multiset(brute_single_records(s)) == unordered_multiset(brute_single_records(t)),
{
    lemma_brute_single_pairs(s);
    lemma_brute_single_pairs(t);
    lemma_pairs_permutation(s, t);
}

} // verus!
