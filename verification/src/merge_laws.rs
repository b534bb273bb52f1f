//! What merging keeps and what it does not depend on.
use vstd::prelude::*;

verus! {

/// How many of these samples hit a stack.
pub open spec fn hits(rows: Seq<crate::samples::SampleRow>, stack: Seq<u8>) -> nat
    decreases rows.len(),
{
    if rows.len() == 0 {
        0
    } else {
        hits(rows.drop_last(), stack) + if rows.last().stack == stack {
            1nat
        } else {
            0nat
        }
    }
}

/// How many of these samples hit a stack while its thread was blocked off-CPU.
pub open spec fn off_cpu_hits(rows: Seq<crate::samples::SampleRow>, stack: Seq<u8>) -> nat
    decreases rows.len(),
{
    if rows.len() == 0 {
        0
    } else {
        off_cpu_hits(rows.drop_last(), stack) + if rows.last().stack == stack
            && rows.last().off_cpu {
            1nat
        } else {
            0nat
        }
    }
}

/// A stack's tally grows by the samples that hit it, split on/off-CPU, and the sample count by
/// all of them.
pub proof fn tallies_count_hits(
    before: crate::accum::AccumView,
    rows: Seq<crate::samples::SampleRow>,
    stack: Seq<u8>,
)
    ensures
        before.with_samples(rows).tally(stack).total == before.tally(stack).total + hits(
            rows,
            stack,
        ),
        before.with_samples(rows).tally(stack).off_cpu == before.tally(stack).off_cpu
            + off_cpu_hits(rows, stack),
        before.with_samples(rows).total_samples == before.total_samples + rows.len(),
    decreases rows.len(),
{
    if rows.len() > 0 {
        tallies_count_hits(before, rows.drop_last(), stack);
    }
}

/// Some sample comes from this worker.
pub open spec fn worker_sampled(rows: Seq<crate::samples::SampleRow>, worker: u32) -> bool {
    exists|i: int| 0 <= i < rows.len() && (#[trigger] rows[i]).worker == Some(worker)
}

/// The workers counted are those that produced samples; off-worker sentinels never count.
pub proof fn workers_are_those_sampled(
    before: crate::accum::AccumView,
    rows: Seq<crate::samples::SampleRow>,
    worker: u32,
)
    ensures
        before.with_samples(rows).workers.contains(worker) <==> before.workers.contains(worker)
            || (worker < crate::accum::OFF_WORKER_ID && worker_sampled(rows, worker)),
    decreases rows.len(),
{
    if rows.len() > 0 {
        let rest = rows.drop_last();
        workers_are_those_sampled(before, rest, worker);
        if worker_sampled(rest, worker) {
            let i = choose|i: int| 0 <= i < rest.len() && (#[trigger] rest[i]).worker == Some(
                worker,
            );
            assert(rows[i].worker == Some(worker));
        }
        if worker_sampled(rows, worker) {
            let i = choose|i: int| 0 <= i < rows.len() && (#[trigger] rows[i]).worker == Some(
                worker,
            );
            if i < rest.len() {
                assert(rest[i].worker == Some(worker));
            }
        }
        assert(rows[rows.len() - 1] == rows.last());
    }
}

/// Some sample was taken at this time.
pub open spec fn timed(rows: Seq<crate::samples::SampleRow>, at: i64) -> bool {
    exists|i: int| 0 <= i < rows.len() && (#[trigger] rows[i]).timestamp == Some(at)
}

/// The earliest time is the least of what was there and all timestamps merged, and the latest the
/// greatest; without timestamps both stay as they were.
pub proof fn time_range_is_tight(
    before: crate::accum::AccumView,
    rows: Seq<crate::samples::SampleRow>,
)
    ensures
        ({
            let after = before.with_samples(rows);
            &&& match after.min_ts {
                Some(lo) => {
                    &&& before.min_ts == Some(lo) || timed(rows, lo)
                    &&& before.min_ts matches Some(t) ==> lo <= t
                    &&& forall|t: i64| #[trigger] timed(rows, t) ==> lo <= t
                },
                None => before.min_ts is None && forall|t: i64| !#[trigger] timed(rows, t),
            }
            &&& match after.max_ts {
                Some(hi) => {
                    &&& before.max_ts == Some(hi) || timed(rows, hi)
                    &&& before.max_ts matches Some(t) ==> t <= hi
                    &&& forall|t: i64| #[trigger] timed(rows, t) ==> t <= hi
                },
                None => before.max_ts is None && forall|t: i64| !#[trigger] timed(rows, t),
            }
            &&& (forall|t: i64| !#[trigger] timed(rows, t)) ==> after.min_ts == before.min_ts
                && after.max_ts == before.max_ts
        }),
    decreases rows.len(),
{
    if rows.len() > 0 {
        let rest = rows.drop_last();
        let last = rows.len() - 1;
        time_range_is_tight(before, rest);
        assert(rows[last] == rows.last());
        assert forall|t: i64| #[trigger]
            timed(rows, t) <==> timed(rest, t) || rows.last().timestamp == Some(t) by {
            if timed(rest, t) {
                let i = choose|i: int|
                    0 <= i < rest.len() && (#[trigger] rest[i]).timestamp == Some(t);
                assert(rows[i].timestamp == Some(t));
            }
            if timed(rows, t) {
                let i = choose|i: int|
                    0 <= i < rows.len() && (#[trigger] rows[i]).timestamp == Some(t);
                if i < last {
                    assert(rest[i].timestamp == Some(t));
                }
            }
        }
        assert forall|t: i64| #[trigger] timed(rest, t) implies timed(rows, t) by {}
        if rows.last().timestamp is Some {
            assert(timed(rows, rows.last().timestamp->0));
        }
    }
}

/// Two samples can be merged in either order.
pub proof fn two_samples_commute(
    before: crate::accum::AccumView,
    a: crate::samples::SampleRow,
    b: crate::samples::SampleRow,
)
    ensures
        before.with_sample(a).with_sample(b) == before.with_sample(b).with_sample(a),
{
    assert(before.with_sample(a).with_sample(b) =~= before.with_sample(b).with_sample(a));
}

/// Any of the samples can be merged last.
proof fn any_sample_can_be_last(
    before: crate::accum::AccumView,
    rows: Seq<crate::samples::SampleRow>,
    i: int,
)
    requires
        0 <= i < rows.len(),
    ensures
        before.with_samples(rows) == before.with_samples(rows.remove(i)).with_sample(rows[i]),
    decreases rows.len(),
{
    let rest = rows.drop_last();
    if i == rows.len() - 1 {
        assert(rows.remove(i) =~= rest);
    } else {
        any_sample_can_be_last(before, rest, i);
        assert(rows.remove(i).drop_last() =~= rest.remove(i));
        assert(rows.remove(i).last() == rows.last());
        two_samples_commute(before.with_samples(rest.remove(i)), rows[i], rows.last());
    }
}

/// The order in which samples are merged does not matter.
pub proof fn samples_merge_in_any_order(
    before: crate::accum::AccumView,
    a: Seq<crate::samples::SampleRow>,
    b: Seq<crate::samples::SampleRow>,
)
    requires
        a.to_multiset() == b.to_multiset(),
    ensures
        before.with_samples(a) == before.with_samples(b),
    decreases a.len(),
{
    a.to_multiset_ensures();
    b.to_multiset_ensures();
    if a.len() > 0 {
        let row = a.last();
        assert(a[a.len() - 1] == row);
        assert(a.contains(row));
        assert(a.to_multiset().count(row) > 0);
        assert(b.contains(row));
        let i = choose|i: int| 0 <= i < b.len() && b[i] == row;
        any_sample_can_be_last(before, b, i);
        assert(a.drop_last() =~= a.remove(a.len() - 1));
        assert(a.drop_last().to_multiset() =~= b.remove(i).to_multiset());
        samples_merge_in_any_order(before, a.drop_last(), b.remove(i));
    }
}

/// Samples and dictionary rows can be merged in either order.
pub proof fn samples_and_dict_commute(
    before: crate::accum::AccumView,
    rows: Seq<crate::samples::SampleRow>,
    dict: Seq<crate::samples::DictRow>,
)
    ensures
        before.with_samples(rows).with_dict(dict) == before.with_dict(dict).with_samples(rows),
    decreases rows.len(), dict.len(),
{
    if rows.len() > 0 {
        sample_and_dict_commute(before.with_samples(rows.drop_last()), rows.last(), dict);
        samples_and_dict_commute(before, rows.drop_last(), dict);
    }
}

proof fn sample_and_dict_commute(
    before: crate::accum::AccumView,
    row: crate::samples::SampleRow,
    dict: Seq<crate::samples::DictRow>,
)
    ensures
        before.with_sample(row).with_dict(dict) == before.with_dict(dict).with_sample(row),
    decreases dict.len(),
{
    if dict.len() > 0 {
        sample_and_dict_commute(before, row, dict.drop_last());
        let middle = before.with_dict(dict.drop_last());
        assert(middle.with_sample(row).with_dict_row(dict.last()) =~= middle.with_dict_row(
            dict.last(),
        ).with_sample(row));
    }
}

/// Frames once known for a stack stay, whatever dictionary rows come later.
pub proof fn known_frames_stay(
    before: crate::accum::AccumView,
    rows: Seq<crate::samples::DictRow>,
    stack: Seq<u8>,
)
    requires
        before.dict.contains_key(stack),
    ensures
        before.with_dict(rows).dict.contains_key(stack),
        before.with_dict(rows).dict[stack] == before.dict[stack],
    decreases rows.len(),
{
    if rows.len() > 0 {
        known_frames_stay(before, rows.drop_last(), stack);
    }
}

/// A stack without frames gets those of the first row that gives it any.
pub proof fn first_frames_win(
    before: crate::accum::AccumView,
    rows: Seq<crate::samples::DictRow>,
    i: int,
)
    requires
        0 <= i < rows.len(),
        rows[i].frames is Some,
        !before.dict.contains_key(rows[i].stack),
        forall|j: int|
            0 <= j < i ==> (#[trigger] rows[j]).stack != rows[i].stack || rows[j].frames is None,
    ensures
        before.with_dict(rows).dict.contains_key(rows[i].stack),
        before.with_dict(rows).dict[rows[i].stack] == rows[i].frames->0,
{
    let head = rows.take(i);
    let stack = rows[i].stack;
    let middle = before.with_dict(head);
    assert forall|j: int| 0 <= j < head.len() implies (#[trigger] head[j]).stack != stack
        || head[j].frames is None by {
        assert(head[j] == rows[j]);
    }
    unnamed_stack_stays_unknown(before, head, stack);
    let to_here = rows.take(i + 1);
    assert(to_here.drop_last() =~= head);
    assert(to_here.last() == rows[i]);
    crate::accum::dict_merges_in_goes(before, to_here, rows.skip(i + 1));
    assert(to_here + rows.skip(i + 1) =~= rows);
    known_frames_stay(before.with_dict(to_here), rows.skip(i + 1), stack);
}

/// Only dictionary rows make a stack known.
pub proof fn unnamed_stack_stays_unknown(
    before: crate::accum::AccumView,
    rows: Seq<crate::samples::DictRow>,
    stack: Seq<u8>,
)
    requires
        !before.dict.contains_key(stack),
        forall|j: int|
            0 <= j < rows.len() ==> (#[trigger] rows[j]).stack != stack || rows[j].frames is None,
    ensures
        !before.with_dict(rows).dict.contains_key(stack),
    decreases rows.len(),
{
    if rows.len() > 0 {
        let rest = rows.drop_last();
        assert forall|j: int| 0 <= j < rest.len() implies (#[trigger] rest[j]).stack != stack
            || rest[j].frames is None by {
            assert(rest[j] == rows[j]);
        }
        unnamed_stack_stays_unknown(before, rest, stack);
        assert(rows[rows.len() - 1] == rows.last());
    }
}

/// Merging the same dictionary again changes nothing.
pub proof fn dict_merges_once(
    before: crate::accum::AccumView,
    rows: Seq<crate::samples::DictRow>,
)
    ensures
        before.with_dict(rows).with_dict(rows) == before.with_dict(rows),
{
    assert(rows.take(rows.len() as int) =~= rows);
    known_rows_change_nothing(before, rows, rows.len() as int);
}

proof fn known_rows_change_nothing(
    before: crate::accum::AccumView,
    rows: Seq<crate::samples::DictRow>,
    n: int,
)
    requires
        0 <= n <= rows.len(),
    ensures
        before.with_dict(rows).with_dict(rows.take(n)) == before.with_dict(rows),
    decreases n,
{
    let after = before.with_dict(rows);
    if n > 0 {
        known_rows_change_nothing(before, rows, n - 1);
        assert(rows.take(n).drop_last() =~= rows.take(n - 1));
        let row = rows[n - 1];
        assert(rows.take(n).last() == row);
        if row.frames is Some {
            let middle = before.with_dict(rows.take(n));
            assert(middle.dict.contains_key(row.stack));
            crate::accum::dict_merges_in_goes(before, rows.take(n), rows.skip(n));
            assert(rows.take(n) + rows.skip(n) =~= rows);
            known_frames_stay(middle, rows.skip(n), row.stack);
        }
    }
}

/// The frames of the first row that gives a stack any.
pub open spec fn first_frames(rows: Seq<crate::samples::DictRow>, stack: Seq<u8>) -> Option<
    Seq<Seq<char>>,
>
    decreases rows.len(),
{
    if rows.len() == 0 {
        None
    } else {
        match first_frames(rows.drop_last(), stack) {
            Some(frames) => Some(frames),
            None => if rows.last().stack == stack {
                rows.last().frames
            } else {
                None
            },
        }
    }
}

/// What the dictionary says of a stack: what it said before, or else the first frames given.
pub proof fn dict_is_first_frames(
    before: crate::accum::AccumView,
    rows: Seq<crate::samples::DictRow>,
    stack: Seq<u8>,
)
    ensures
        ({
            let after = before.with_dict(rows).dict;
            if before.dict.contains_key(stack) {
                after.contains_key(stack) && after[stack] == before.dict[stack]
            } else {
                match first_frames(rows, stack) {
                    Some(frames) => after.contains_key(stack) && after[stack] == frames,
                    None => !after.contains_key(stack),
                }
            }
        }),
    decreases rows.len(),
{
    if rows.len() > 0 {
        dict_is_first_frames(before, rows.drop_last(), stack);
    }
}

/// Two dictionaries give no stack different frames.
pub open spec fn agree_on_frames(
    a: Seq<crate::samples::DictRow>,
    b: Seq<crate::samples::DictRow>,
) -> bool {
    forall|stack: Seq<u8>|
        #![trigger first_frames(a, stack), first_frames(b, stack)]
        first_frames(a, stack) is Some && first_frames(b, stack) is Some ==> first_frames(a, stack)
            == first_frames(b, stack)
}

/// Dictionaries that do not contradict each other can be merged in either order.
pub proof fn agreeing_dicts_commute(
    before: crate::accum::AccumView,
    a: Seq<crate::samples::DictRow>,
    b: Seq<crate::samples::DictRow>,
)
    requires
        agree_on_frames(a, b),
    ensures
        before.with_dict(a).with_dict(b) == before.with_dict(b).with_dict(a),
{
    let ab = before.with_dict(a).with_dict(b);
    let ba = before.with_dict(b).with_dict(a);
    assert forall|stack: Seq<u8>|
        #![trigger ab.dict.contains_key(stack)]
        #![trigger ba.dict.contains_key(stack)]
        ab.dict.contains_key(stack) == ba.dict.contains_key(stack) && (ab.dict.contains_key(stack)
            ==> ab.dict[stack] == ba.dict[stack]) by {
        dict_is_first_frames(before, a, stack);
        dict_is_first_frames(before, b, stack);
        dict_is_first_frames(before.with_dict(a), b, stack);
        dict_is_first_frames(before.with_dict(b), a, stack);
        let fa = first_frames(a, stack);
        let fb = first_frames(b, stack);
    }
    crate::accum::dict_leaves_tallies(before, a);
    crate::accum::dict_leaves_tallies(before, b);
    crate::accum::dict_leaves_tallies(before.with_dict(a), b);
    crate::accum::dict_leaves_tallies(before.with_dict(b), a);
    assert(ab.dict =~= ba.dict);
    assert(ab =~= ba);
}

/// A part-file opens and every batch of it can be decoded.
pub open spec fn readable(data: Seq<u8>) -> bool {
    match crate::columns::parquet_file(data, crate::samples::BATCH_ROWS) {
        Some(file) => !crate::samples::file_faulty(file),
        None => false,
    }
}

/// The samples of a readable samples part.
pub open spec fn sample_rows(data: Seq<u8>) -> Seq<crate::samples::SampleRow> {
    match crate::columns::parquet_file(data, crate::samples::BATCH_ROWS) {
        Some(file) => crate::samples::file_samples(file),
        None => Seq::empty(),
    }
}

/// The rows of a readable dictionary part; none where there is no such part.
pub open spec fn dict_rows(dict: Option<Seq<u8>>) -> Seq<crate::samples::DictRow> {
    match dict {
        Some(data) => match crate::columns::parquet_file(data, crate::samples::BATCH_ROWS) {
            Some(file) => crate::samples::file_dict(file),
            None => Seq::empty(),
        },
        None => Seq::empty(),
    }
}

/// Merging readable parts adds their samples and their dictionary rows.
pub proof fn readable_parts_merge(
    before: crate::accum::AccumView,
    samples: Seq<u8>,
    dict: Option<Seq<u8>>,
)
    requires
        readable(samples),
        dict matches Some(data) ==> readable(data),
        before.can_take(sample_rows(samples)),
    ensures
        crate::accum::merged_parts(before, samples, dict) == Some(
            (crate::accum::Merged {
                after: before.with_samples(sample_rows(samples)).with_dict(dict_rows(dict)),
                fault: None,
            }),
        ),
{
}

/// Folded files can be merged in either order, as long as their dictionaries do not give one
/// stack different frames.
pub proof fn folded_files_commute(
    before: crate::accum::AccumView,
    first: (Seq<u8>, Option<Seq<u8>>),
    second: (Seq<u8>, Option<Seq<u8>>),
)
    requires
        readable(first.0),
        first.1 matches Some(data) ==> readable(data),
        readable(second.0),
        second.1 matches Some(data) ==> readable(data),
        before.can_take(sample_rows(first.0) + sample_rows(second.0)),
        agree_on_frames(dict_rows(first.1), dict_rows(second.1)),
    ensures
        ({
            let one = crate::accum::merged_parts(before, first.0, first.1);
            let other = crate::accum::merged_parts(before, second.0, second.1);
            &&& one is Some
            &&& other is Some
            &&& crate::accum::merged_parts(one->0.after, second.0, second.1)
                == crate::accum::merged_parts(other->0.after, first.0, first.1)
            &&& crate::accum::merged_parts(one->0.after, second.0, second.1) is Some
        }),
{
    let a = sample_rows(first.0);
    let b = sample_rows(second.0);
    let da = dict_rows(first.1);
    let db = dict_rows(second.1);
    assert forall|i: int| 0 <= i < a.len() implies (#[trigger] a[i]).stack.len()
        == crate::accum::STACK_ID_BYTES by {
        assert((a + b)[i] == a[i]);
    }
    assert forall|i: int| 0 <= i < b.len() implies (#[trigger] b[i]).stack.len()
        == crate::accum::STACK_ID_BYTES by {
        assert((a + b)[a.len() + i] == b[i]);
    }
    crate::accum::samples_are_counted(before, a);
    crate::accum::samples_are_counted(before, b);
    crate::accum::dict_leaves_tallies(before.with_samples(a), da);
    crate::accum::dict_leaves_tallies(before.with_samples(b), db);
    readable_parts_merge(before, first.0, first.1);
    readable_parts_merge(before, second.0, second.1);
    let one = before.with_samples(a).with_dict(da);
    let other = before.with_samples(b).with_dict(db);
    assert(one.total_samples == before.total_samples + a.len());
    assert(other.total_samples == before.total_samples + b.len());
    readable_parts_merge(one, second.0, second.1);
    readable_parts_merge(other, first.0, first.1);
    samples_and_dict_commute(before.with_samples(a), b, da);
    samples_and_dict_commute(before.with_samples(b), a, db);
    crate::accum::samples_merge_in_goes(before, a, b);
    crate::accum::samples_merge_in_goes(before, b, a);
    vstd::seq_lib::lemma_multiset_commutative(a, b);
    vstd::seq_lib::lemma_multiset_commutative(b, a);
    assert((a + b).to_multiset() =~= (b + a).to_multiset());
    samples_merge_in_any_order(before, a + b, b + a);
    agreeing_dicts_commute(before.with_samples(a + b), da, db);
}

/// A samples part that cannot be opened leaves the accumulator as it was, and the dictionary that
/// comes with it is not read.
pub proof fn unopened_samples_change_nothing(
    before: crate::accum::AccumView,
    samples: Seq<u8>,
    dict: Option<Seq<u8>>,
)
    requires
        crate::columns::parquet_file(samples, crate::samples::BATCH_ROWS) is None,
    ensures
        crate::accum::merged_parts(before, samples, dict) == Some(
            (crate::accum::Merged { after: before, fault: Some(crate::accum::Fault::Open) }),
        ),
{
}

} // verus!
