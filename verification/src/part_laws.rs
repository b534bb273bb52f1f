//! What part-files come to, row by row and value by value.
use vstd::prelude::*;

use crate::accum::GraphAccum;
use crate::samples::{DictBatch, SampleBatch};

verus! {

/// Strings are read in full and in order.
pub proof fn texts_are_the_strings(strings: Seq<String>)
    ensures
        crate::columns::texts(strings).len() == strings.len(),
        forall|i: int|
            0 <= i < strings.len() ==> (#[trigger] crate::columns::texts(strings)[i])
                == strings[i]@,
{
}

/// Ids are read in full and in order.
pub proof fn byte_rows_are_the_bytes(rows: Seq<Vec<u8>>)
    ensures
        crate::columns::byte_rows(rows).len() == rows.len(),
        forall|i: int|
            0 <= i < rows.len() ==> (#[trigger] crate::columns::byte_rows(rows)[i]) == rows[i]@,
{
}

/// Lists of strings are read in full and in order, and a row without strings stays one.
pub proof fn list_rows_are_the_lists(rows: Seq<Option<Vec<String>>>, i: int)
    requires
        0 <= i < rows.len(),
    ensures
        crate::columns::list_rows(rows).len() == rows.len(),
        match (rows[i], crate::columns::list_rows(rows)[i]) {
            (Some(strings), Some(list)) => list.len() == strings@.len() && forall|j: int|
                0 <= j < list.len() ==> (#[trigger] list[j]) == strings@[j]@,
            (None, None) => true,
            _ => false,
        },
{
}

/// Row for row, the samples of a batch: the id from `stack_id`; off-CPU exactly where `source` is
/// there and holds 1; the time and the worker from their columns where those are there.
pub proof fn samples_are_read_row_by_row(
    columns: Map<Seq<char>, crate::columns::Column>,
    ids: Seq<Seq<u8>>,
    i: int,
)
    requires
        columns.contains_key("stack_id"@),
        columns["stack_id"@] == crate::columns::Column::Binary(ids),
        0 <= i < ids.len(),
    ensures
        crate::samples::batch_samples(columns).len() == ids.len(),
        ({
            let row = crate::samples::batch_samples(columns)[i];
            &&& row.stack == ids[i]
            &&& match columns["source"@] {
                crate::columns::Column::UInt8(sources) => columns.contains_key("source"@)
                    ==> row.off_cpu == (sources[i] == 1),
                _ => !row.off_cpu,
            }
            &&& !columns.contains_key("source"@) ==> !row.off_cpu
            &&& match columns["timestamp_ns"@] {
                crate::columns::Column::Int64(times) => columns.contains_key("timestamp_ns"@)
                    ==> row.timestamp == Some(times[i]),
                _ => row.timestamp is None,
            }
            &&& !columns.contains_key("timestamp_ns"@) ==> row.timestamp is None
            &&& match columns["worker_id"@] {
                crate::columns::Column::UInt32(workers) => columns.contains_key("worker_id"@)
                    ==> row.worker == workers[i],
                _ => row.worker is None,
            }
            &&& !columns.contains_key("worker_id"@) ==> row.worker is None
        }),
{
}

/// Row for row, the dictionary of a batch: the id from `stack_id`, and the whole list from
/// `frames`.
pub proof fn frames_are_read_row_by_row(
    columns: Map<Seq<char>, crate::columns::Column>,
    ids: Seq<Seq<u8>>,
    lists: Seq<Option<Seq<Seq<char>>>>,
    i: int,
)
    requires
        columns.contains_key("stack_id"@),
        columns["stack_id"@] == crate::columns::Column::Binary(ids),
        columns.contains_key("frames"@),
        columns["frames"@] == crate::columns::Column::Lists(lists),
        0 <= i < ids.len(),
    ensures
        crate::samples::batch_dict(columns).len() == ids.len(),
        crate::samples::batch_dict(columns)[i].stack == ids[i],
        match (lists[i], crate::samples::batch_dict(columns)[i].frames) {
            (Some(list), Some(frames)) => frames.len() == list.len() && forall|k: int|
                0 <= k < list.len() ==> (#[trigger] frames[k]) == list[k],
            (None, None) => true,
            _ => false,
        },
{
}

/// A batch without the columns that are needed holds no rows.
pub proof fn batches_without_columns_hold_nothing(
    columns: Map<Seq<char>, crate::columns::Column>,
)
    ensures
        !columns.contains_key("stack_id"@) || !(columns["stack_id"@] is Binary) ==> {
            &&& crate::samples::batch_samples(columns).len() == 0
            &&& crate::samples::batch_dict(columns).len() == 0
        },
        !columns.contains_key("frames"@) || !(columns["frames"@] is Lists)
            ==> crate::samples::batch_dict(columns).len() == 0,
{
}

/// A file of one batch holds the rows of that batch; batches in front of others, if they can all
/// be decoded, come first; and nothing behind an undecodable batch is read.
pub proof fn files_are_read_batch_by_batch(
    batch: Map<Seq<char>, crate::columns::Column>,
    front: Seq<Option<Map<Seq<char>, crate::columns::Column>>>,
    back: Seq<Option<Map<Seq<char>, crate::columns::Column>>>,
)
    requires
        forall|i: int| 0 <= i < front.len() ==> (#[trigger] front[i]) is Some,
    ensures
        crate::samples::file_samples(seq![Some(batch)]) == crate::samples::batch_samples(batch),
        crate::samples::file_dict(seq![Some(batch)]) == crate::samples::batch_dict(batch),
        crate::samples::file_samples(front + back) == crate::samples::file_samples(front)
            + crate::samples::file_samples(back),
        crate::samples::file_dict(front + back) == crate::samples::file_dict(front)
            + crate::samples::file_dict(back),
        crate::samples::file_samples(front + seq![None] + back) == crate::samples::file_samples(
            front,
        ),
        crate::samples::file_dict(front + seq![None] + back) == crate::samples::file_dict(front),
{
    let one = seq![Some(batch)];
    assert(one.drop_first() =~= Seq::empty());
    assert(crate::samples::file_samples(Seq::empty()) =~= Seq::empty());
    assert(crate::samples::file_dict(Seq::empty()) =~= Seq::empty());
    assert(crate::samples::file_samples(one) =~= crate::samples::batch_samples(batch));
    assert(crate::samples::file_dict(one) =~= crate::samples::batch_dict(batch));
    front_is_read_first(front, back);
    let bad = seq![None] + back;
    front_is_read_first(front, bad);
    assert(front + seq![None] + back =~= front + bad);
    assert(bad[0] is None);
    assert(crate::samples::file_samples(front) + crate::samples::file_samples(bad)
        =~= crate::samples::file_samples(front));
    assert(crate::samples::file_dict(front) + crate::samples::file_dict(bad)
        =~= crate::samples::file_dict(front));
}

proof fn front_is_read_first(
    front: Seq<Option<Map<Seq<char>, crate::columns::Column>>>,
    back: Seq<Option<Map<Seq<char>, crate::columns::Column>>>,
)
    requires
        forall|i: int| 0 <= i < front.len() ==> (#[trigger] front[i]) is Some,
    ensures
        crate::samples::file_samples(front + back) == crate::samples::file_samples(front)
            + crate::samples::file_samples(back),
        crate::samples::file_dict(front + back) == crate::samples::file_dict(front)
            + crate::samples::file_dict(back),
    decreases front.len(),
{
    let all = front + back;
    if front.len() == 0 {
        assert(all =~= back);
        assert(crate::samples::file_samples(all) =~= crate::samples::file_samples(front)
            + crate::samples::file_samples(back));
        assert(crate::samples::file_dict(all) =~= crate::samples::file_dict(front)
            + crate::samples::file_dict(back));
    } else {
        let rest = front.drop_first();
        assert forall|i: int| 0 <= i < rest.len() implies (#[trigger] rest[i]) is Some by {
            assert(rest[i] == front[i + 1]);
        }
        front_is_read_first(rest, back);
        assert(all.drop_first() =~= rest + back);
        assert(all[0] == front[0]);
        assert(crate::samples::file_samples(all) =~= crate::samples::file_samples(front)
            + crate::samples::file_samples(back));
        assert(crate::samples::file_dict(all) =~= crate::samples::file_dict(front)
            + crate::samples::file_dict(back));
    }
}

/// A file is faulty exactly when some batch of it cannot be decoded.
pub proof fn a_fault_is_an_undecodable_batch(
    file: Seq<Option<Map<Seq<char>, crate::columns::Column>>>,
)
    ensures
        crate::samples::file_faulty(file) <==> exists|i: int|
            0 <= i < file.len() && (#[trigger] file[i]) is None,
    decreases file.len(),
{
    if file.len() > 0 {
        let rest = file.drop_first();
        a_fault_is_an_undecodable_batch(rest);
        if exists|i: int| 0 <= i < file.len() && (#[trigger] file[i]) is None {
            let i = choose|i: int| 0 <= i < file.len() && (#[trigger] file[i]) is None;
            if i > 0 {
                assert(rest[i - 1] is None);
            }
        }
        if exists|i: int| 0 <= i < rest.len() && (#[trigger] rest[i]) is None {
            let i = choose|i: int| 0 <= i < rest.len() && (#[trigger] rest[i]) is None;
            assert(file[i + 1] is None);
        }
    }
}

/// The rows of plain sample columns, value for value.
pub proof fn sample_columns_hold_their_rows(batch: SampleBatch, i: int)
    requires
        0 <= i < batch.stack_ids@.len(),
    ensures
        batch.rows().len() == batch.stack_ids@.len(),
        batch.rows()[i].stack == batch.stack_ids@[i]@,
        match batch.sources {
            Some(sources) => batch.rows()[i].off_cpu == (sources@[i] == 1),
            None => !batch.rows()[i].off_cpu,
        },
        match batch.timestamps {
            Some(times) => batch.rows()[i].timestamp == Some(times@[i]),
            None => batch.rows()[i].timestamp is None,
        },
        match batch.workers {
            Some(workers) => batch.rows()[i].worker == workers@[i],
            None => batch.rows()[i].worker is None,
        },
{
}

/// The rows of plain dictionary columns, string for string.
pub proof fn dict_columns_hold_their_rows(batch: DictBatch, i: int)
    requires
        0 <= i < batch.stack_ids@.len(),
    ensures
        batch.rows().len() == batch.stack_ids@.len(),
        batch.rows()[i].stack == batch.stack_ids@[i]@,
        match (batch.frames@[i], batch.rows()[i].frames) {
            (Some(strings), Some(frames)) => frames.len() == strings@.len() && forall|k: int|
                0 <= k < frames.len() ==> (#[trigger] frames[k]) == strings@[k]@,
            (None, None) => true,
            _ => false,
        },
{
}

/// Batches are read one after the other, and none is left out.
pub proof fn batches_follow_each_other(
    samples: Seq<SampleBatch>,
    more_samples: SampleBatch,
    dicts: Seq<DictBatch>,
    more_dict: DictBatch,
)
    ensures
        crate::samples::all_samples(Seq::empty()).len() == 0,
        crate::samples::all_samples(samples.push(more_samples)) == crate::samples::all_samples(
            samples,
        ) + more_samples.rows(),
        crate::samples::all_dict(Seq::empty()).len() == 0,
        crate::samples::all_dict(dicts.push(more_dict)) == crate::samples::all_dict(dicts)
            + more_dict.rows(),
{
    assert(samples.push(more_samples).drop_last() =~= samples);
    assert(dicts.push(more_dict).drop_last() =~= dicts);
}

/// What an accumulator is said to hold is what its fields hold.
pub proof fn an_accumulator_holds_its_fields(accum: GraphAccum, stack: Seq<u8>)
    ensures
        accum@.stacks.contains_key(stack) <==> accum.stacks@.contains_key(stack),
        accum.stacks@.contains_key(stack) ==> {
            &&& accum@.stacks[stack].total == accum.stacks@[stack].total
            &&& accum@.stacks[stack].off_cpu == accum.stacks@[stack].off_cpu
        },
        accum@.dict.contains_key(stack) <==> accum.dict@.contains_key(stack),
        accum.dict@.contains_key(stack) ==> {
            &&& accum@.dict[stack].len() == accum.dict@[stack]@.len()
            &&& forall|k: int|
                0 <= k < accum.dict@[stack]@.len() ==> (#[trigger] accum@.dict[stack][k])
                    == accum.dict@[stack]@[k]@
        },
        accum@.workers == accum.workers@,
        accum@.total_samples == accum.total_samples,
        accum@.min_ts == accum.min_ts,
        accum@.max_ts == accum.max_ts,
{
}

/// A map of ids holds, under each id, the value of the row with that id, and nothing else.
pub proof fn an_id_map_holds_its_rows<V>(rows: Seq<(Seq<u8>, V)>, id: Seq<u8>)
    requires
        forall|i: int, j: int|
            #![trigger rows[i], rows[j]]
            0 <= i < j < rows.len() ==> crate::order::bytes_before(rows[i].0, rows[j].0),
    ensures
        crate::id_map::rows_map(rows).contains_key(id) <==> exists|i: int|
            0 <= i < rows.len() && (#[trigger] rows[i]).0 == id,
        forall|i: int|
            0 <= i < rows.len() && (#[trigger] rows[i]).0 == id ==> crate::id_map::rows_map(
                rows,
            )[id] == rows[i].1,
{
    assert forall|i: int|
        0 <= i < rows.len() && (#[trigger] rows[i]).0 == id implies crate::id_map::rows_map(
        rows,
    )[id] == rows[i].1 by {
        crate::id_map::row_is_in_map(rows, i);
    }
}

/// One sample counts once for its stack and for no other, once off-CPU where it was taken off-CPU,
/// once among all samples; its worker counts below 255; and the time range reaches to it.
pub proof fn one_sample_counts_once(
    before: crate::accum::AccumView,
    row: crate::samples::SampleRow,
    other: Seq<u8>,
    worker: u32,
)
    ensures
        ({
            let after = before.with_samples(seq![row]);
            let had = before.stacks.contains_key(row.stack);
            &&& after.stacks.contains_key(row.stack)
            &&& after.stacks[row.stack].total == 1 + if had {
                before.stacks[row.stack].total
            } else {
                0
            }
            &&& after.stacks[row.stack].off_cpu == if row.off_cpu {
                1nat
            } else {
                0nat
            } + if had {
                before.stacks[row.stack].off_cpu
            } else {
                0
            }
            &&& other != row.stack ==> {
                &&& after.stacks.contains_key(other) == before.stacks.contains_key(other)
                &&& after.stacks[other] == before.stacks[other]
            }
            &&& after.total_samples == before.total_samples + 1
            &&& after.dict == before.dict
            &&& after.workers.contains(worker) <==> before.workers.contains(worker) || (row.worker
                == Some(worker) && worker < 255)
            &&& match row.timestamp {
                Some(t) => {
                    &&& after.min_ts == Some(
                        match before.min_ts {
                            Some(lo) if lo < t => lo,
                            _ => t,
                        },
                    )
                    &&& after.max_ts == Some(
                        match before.max_ts {
                            Some(hi) if hi > t => hi,
                            _ => t,
                        },
                    )
                },
                None => after.min_ts == before.min_ts && after.max_ts == before.max_ts,
            }
        }),
{
    assert(seq![row].drop_last() =~= Seq::empty());
    reveal_with_fuel(crate::accum::AccumView::with_samples, 2);
}

/// The tally of a stack grows by the number of samples that hit it, and its off-CPU subtotal by
/// the number of those that were taken off-CPU; the sample count grows by all of them.
pub proof fn tallies_grow_by_the_rows_that_hit(
    before: crate::accum::AccumView,
    rows: Seq<crate::samples::SampleRow>,
    stack: Seq<u8>,
)
    ensures
        ({
            let after = before.with_samples(rows);
            let hit = Set::new(|i: int| 0 <= i < rows.len() && rows[i].stack == stack);
            let blocked = Set::new(
                |i: int| 0 <= i < rows.len() && rows[i].stack == stack && rows[i].off_cpu,
            );
            &&& hit.finite()
            &&& blocked.finite()
            &&& after.stacks.contains_key(stack) <==> before.stacks.contains_key(stack) || exists|
                i: int,
            |
                0 <= i < rows.len() && (#[trigger] rows[i]).stack == stack
            &&& after.stacks.contains_key(stack) ==> {
                &&& after.stacks[stack].total == hit.len() + if before.stacks.contains_key(stack) {
                    before.stacks[stack].total
                } else {
                    0
                }
                &&& after.stacks[stack].off_cpu == blocked.len() + if before.stacks.contains_key(
                    stack,
                ) {
                    before.stacks[stack].off_cpu
                } else {
                    0
                }
            }
            &&& after.total_samples == before.total_samples + rows.len()
        }),
    decreases rows.len(),
{
    let hit = Set::new(|i: int| 0 <= i < rows.len() && rows[i].stack == stack);
    let blocked = Set::new(
        |i: int| 0 <= i < rows.len() && rows[i].stack == stack && rows[i].off_cpu,
    );
    if rows.len() == 0 {
        assert(hit =~= Set::empty());
        assert(blocked =~= Set::empty());
    } else {
        let rest = rows.drop_last();
        let last = rows.len() - 1;
        tallies_grow_by_the_rows_that_hit(before, rest, stack);
        let hit_before = Set::new(|i: int| 0 <= i < rest.len() && rest[i].stack == stack);
        let blocked_before = Set::new(
            |i: int| 0 <= i < rest.len() && rest[i].stack == stack && rest[i].off_cpu,
        );
        assert forall|i: int| 0 <= i < rest.len() implies #[trigger] rest[i] == rows[i] by {}
        assert(rows[last] == rows.last());
        if !before.with_samples(rest).stacks.contains_key(stack) {
            assert forall|i: int| 0 <= i < rest.len() implies (#[trigger] rest[i]).stack
                != stack by {}
            assert(hit_before =~= Set::empty());
            assert(blocked_before =~= Set::empty());
        }
        if rows.last().stack == stack {
            assert(hit =~= hit_before.insert(last));
        } else {
            assert(hit =~= hit_before);
        }
        if rows.last().stack == stack && rows.last().off_cpu {
            assert(blocked =~= blocked_before.insert(last));
        } else {
            assert(blocked =~= blocked_before);
        }
        if exists|i: int| 0 <= i < rows.len() && (#[trigger] rows[i]).stack == stack {
            let i = choose|i: int| 0 <= i < rows.len() && (#[trigger] rows[i]).stack == stack;
            if i < last {
                assert(rest[i].stack == stack);
            }
        }
        if exists|i: int| 0 <= i < rest.len() && (#[trigger] rest[i]).stack == stack {
            let i = choose|i: int| 0 <= i < rest.len() && (#[trigger] rest[i]).stack == stack;
            assert(rows[i].stack == stack);
        }
    }
}

/// Whether samples can be merged: every id has 16 bytes, and the count stays within `u64`.
pub proof fn what_can_be_taken(
    before: crate::accum::AccumView,
    rows: Seq<crate::samples::SampleRow>,
)
    ensures
        before.can_take(rows) <==> before.total_samples + rows.len() <= 0xffff_ffff_ffff_ffff
            && forall|i: int| 0 <= i < rows.len() ==> (#[trigger] rows[i]).stack.len() == 16,
{
}

/// What merging a samples part comes to: nothing changes and an error comes where the file does not
/// open; else all rows up to the first undecodable batch are merged, with an error exactly where
/// there is such a batch; and it is not done at all where the rows cannot be taken.
pub proof fn samples_parts_merge(before: crate::accum::AccumView, data: Seq<u8>)
    ensures
        match crate::columns::parquet_file(data, 4096) {
            None => crate::accum::merged_samples(before, data) matches Some(merged)
                && merged.after == before && merged.fault == Some(crate::accum::Fault::Open),
            Some(file) => {
                let rows = crate::samples::file_samples(file);
                if before.total_samples + rows.len() <= 0xffff_ffff_ffff_ffff && forall|i: int|
                    0 <= i < rows.len() ==> (#[trigger] rows[i]).stack.len() == 16 {
                    &&& crate::accum::merged_samples(before, data) matches Some(merged)
                    &&& merged.after == before.with_samples(rows)
                    &&& merged.fault is None || merged.fault == Some(crate::accum::Fault::Batch)
                    &&& merged.fault is Some <==> exists|i: int|
                        0 <= i < file.len() && (#[trigger] file[i]) is None
                } else {
                    crate::accum::merged_samples(before, data) is None
                }
            },
        },
{
    match crate::columns::parquet_file(data, 4096) {
        None => {},
        Some(file) => {
            a_fault_is_an_undecodable_batch(file);
            what_can_be_taken(before, crate::samples::file_samples(file));
        },
    }
}

/// What merging a dictionary part comes to: nothing changes and an error comes where the file does
/// not open; else all rows up to the first undecodable batch are merged, with an error exactly
/// where there is such a batch.
pub proof fn dict_parts_merge(before: crate::accum::AccumView, data: Seq<u8>)
    ensures
        match crate::columns::parquet_file(data, 4096) {
            None => {
                &&& crate::accum::merged_dict(before, data).after == before
                &&& crate::accum::merged_dict(before, data).fault == Some(
                    crate::accum::Fault::Open,
                )
            },
            Some(file) => {
                let merged = crate::accum::merged_dict(before, data);
                &&& merged.after == before.with_dict(crate::samples::file_dict(file))
                &&& merged.fault is None || merged.fault == Some(crate::accum::Fault::Batch)
                &&& merged.fault is Some <==> exists|i: int|
                    0 <= i < file.len() && (#[trigger] file[i]) is None
            },
        },
{
    match crate::columns::parquet_file(data, 4096) {
        None => {},
        Some(file) => {
            a_fault_is_an_undecodable_batch(file);
        },
    }
}

/// The parts of a file: the samples first, and the dictionary on top of them unless the samples
/// raised an error or could not be taken.
pub proof fn parts_merge_in_turn(
    before: crate::accum::AccumView,
    samples: Seq<u8>,
    dict: Seq<u8>,
)
    ensures
        crate::accum::merged_parts(before, samples, None) == crate::accum::merged_samples(
            before,
            samples,
        ),
        match crate::accum::merged_samples(before, samples) {
            None => crate::accum::merged_parts(before, samples, Some(dict)) is None,
            Some(first) => crate::accum::merged_parts(before, samples, Some(dict)) == Some(
                if first.fault is Some {
                    first
                } else {
                    crate::accum::merged_dict(first.after, dict)
                },
            ),
        },
{
}

/// From the bytes to the dictionary: for a stack that was not known, a dictionary part leaves
/// exactly the list that the first of its rows for the stack holds, frame for frame.
pub proof fn dict_parts_leave_whole_lists(
    before: crate::accum::AccumView,
    data: Seq<u8>,
    columns: Map<Seq<char>, crate::columns::Column>,
    ids: Seq<Seq<u8>>,
    lists: Seq<Option<Seq<Seq<char>>>>,
    r: int,
)
    requires
        crate::columns::parquet_file(data, 4096) == Some(seq![Some(columns)]),
        columns.contains_key("stack_id"@),
        columns["stack_id"@] == crate::columns::Column::Binary(ids),
        columns.contains_key("frames"@),
        columns["frames"@] == crate::columns::Column::Lists(lists),
        0 <= r < ids.len(),
        lists[r] is Some,
        !before.dict.contains_key(ids[r]),
        forall|p: int| 0 <= p < r ==> (#[trigger] ids[p]) != ids[r] || lists[p] is None,
    ensures
        ({
            let after = crate::accum::merged_dict(before, data).after;
            &&& after.dict.contains_key(ids[r])
            &&& after.dict[ids[r]].len() == lists[r]->0.len()
            &&& forall|k: int|
                0 <= k < lists[r]->0.len() ==> (#[trigger] after.dict[ids[r]][k])
                    == lists[r]->0[k]
        }),
{
    let file = seq![Some(columns)];
    files_are_read_batch_by_batch(columns, Seq::empty(), Seq::empty());
    let rows = crate::samples::file_dict(file);
    assert forall|p: int| 0 <= p < ids.len() implies (#[trigger] rows[p]).stack == ids[p]
        && rows[p].frames == lists[p] by {}
    assert forall|p: int| 0 <= p < r implies (#[trigger] rows[p]).stack != rows[r].stack
        || rows[p].frames is None by {
        assert(ids[p] != ids[r] || lists[p] is None);
    }
    crate::merge_laws::first_frames_win(before, rows, r);
}

/// From the bytes to the tallies: a samples part of one batch adds to a stack's total the number of
/// its rows with that id, and to its off-CPU subtotal the number of those whose source is 1.
pub proof fn samples_parts_tally_rows(
    before: crate::accum::AccumView,
    data: Seq<u8>,
    columns: Map<Seq<char>, crate::columns::Column>,
    ids: Seq<Seq<u8>>,
    sources: Seq<u8>,
    stack: Seq<u8>,
)
    requires
        crate::columns::parquet_file(data, 4096) == Some(seq![Some(columns)]),
        columns.contains_key("stack_id"@),
        columns["stack_id"@] == crate::columns::Column::Binary(ids),
        columns.contains_key("source"@),
        columns["source"@] == crate::columns::Column::UInt8(sources),
        forall|i: int| 0 <= i < ids.len() ==> (#[trigger] ids[i]).len() == 16,
        before.total_samples + ids.len() <= 0xffff_ffff_ffff_ffff,
        !before.stacks.contains_key(stack),
        exists|i: int| 0 <= i < ids.len() && (#[trigger] ids[i]) == stack,
    ensures
        crate::accum::merged_samples(before, data) matches Some(merged) && {
            &&& merged.fault is None
            &&& merged.after.stacks.contains_key(stack)
            &&& merged.after.stacks[stack].total == Set::new(
                |i: int| 0 <= i < ids.len() && ids[i] == stack,
            ).len()
            &&& merged.after.stacks[stack].off_cpu == Set::new(
                |i: int| 0 <= i < ids.len() && ids[i] == stack && sources[i] == 1,
            ).len()
            &&& merged.after.total_samples == before.total_samples + ids.len()
        },
{
    let file = seq![Some(columns)];
    files_are_read_batch_by_batch(columns, Seq::empty(), Seq::empty());
    let rows = crate::samples::file_samples(file);
    assert forall|i: int| 0 <= i < ids.len() implies (#[trigger] rows[i]).stack == ids[i]
        && rows[i].off_cpu == (sources[i] == 1) by {
        samples_are_read_row_by_row(columns, ids, i);
    }
    assert forall|i: int| 0 <= i < rows.len() implies (#[trigger] rows[i]).stack.len() == 16 by {
        assert(ids[i].len() == 16);
    }
    samples_parts_merge(before, data);
    tallies_grow_by_the_rows_that_hit(before, rows, stack);
    assert(file[0] is Some);
    let i = choose|i: int| 0 <= i < ids.len() && (#[trigger] ids[i]) == stack;
    assert(rows[i].stack == stack);
    assert(Set::new(|i: int| 0 <= i < rows.len() && rows[i].stack == stack) =~= Set::new(
        |i: int| 0 <= i < ids.len() && ids[i] == stack,
    ));
    assert(Set::new(|i: int| 0 <= i < rows.len() && rows[i].stack == stack && rows[i].off_cpu)
        =~= Set::new(|i: int| 0 <= i < ids.len() && ids[i] == stack && sources[i] == 1));
}

/// The span between two times is their difference, and never less than one; without times it is
/// one.
pub proof fn spans_are_differences(lo: i64, hi: i64)
    ensures
        hi > lo ==> crate::accum::time_span(Some(lo), Some(hi)) == hi - lo,
        hi <= lo ==> crate::accum::time_span(Some(lo), Some(hi)) == 1,
        crate::accum::time_span(None, None) == 1,
        crate::accum::time_span(Some(lo), None) == 1,
        crate::accum::time_span(None, Some(hi)) == 1,
{
}

/// Workers are counted one by one, and never as none.
pub proof fn workers_are_counted(workers: Set<u32>, worker: u32)
    requires
        workers.finite(),
    ensures
        crate::accum::worker_count(Set::empty()) == 1,
        workers.len() > 0 ==> crate::accum::worker_count(workers) == workers.len(),
        workers.len() > 0 && !workers.contains(worker) ==> crate::accum::worker_count(
            workers.insert(worker),
        ) == crate::accum::worker_count(workers) + 1,
{
}

/// A crate is inferred exactly when a frame of some stack in the dictionary is in it and its name
/// begins as no runtime crate's does.
pub proof fn crates_are_inferred_from_frames(
    dict: Map<Seq<u8>, Seq<Seq<char>>>,
    stack: Seq<u8>,
    k: int,
)
    requires
        dict.contains_key(stack),
        0 <= k < dict[stack].len(),
    ensures
        match crate::symbol::identity_of(dict[stack][k]) {
            Some((name, _)) => crate::accum::inferred_app(dict, name)
                == !crate::symbol::known_runtime(name),
            None => true,
        },
{
    match crate::symbol::identity_of(dict[stack][k]) {
        Some((name, _)) => {
            assert(crate::accum::crate_at(dict, stack, k, name));
        },
        None => {},
    }
}

/// Every inferred crate is that of some frame in the dictionary, and no runtime crate.
pub proof fn inferred_crates_have_frames(
    dict: Map<Seq<u8>, Seq<Seq<char>>>,
    name: Seq<char>,
) -> (at: (Seq<u8>, int))
    requires
        crate::accum::inferred_app(dict, name),
    ensures
        dict.contains_key(at.0),
        0 <= at.1 < dict[at.0].len(),
        crate::symbol::identity_of(dict[at.0][at.1]) is Some,
        (crate::symbol::identity_of(dict[at.0][at.1])->0).0 == name,
        !crate::symbol::known_runtime(name),
{
    choose|stack: Seq<u8>, k: int| #[trigger] crate::accum::crate_at(dict, stack, k, name)
}

/// One text comes before another exactly when it is shorter and they agree as far as it goes, or
/// it has the smaller character where they first differ.
pub proof fn texts_are_ordered_by_first_difference(a: Seq<char>, b: Seq<char>, k: int)
    requires
        0 <= k <= a.len(),
        k < b.len(),
        forall|i: int| 0 <= i < k ==> #[trigger] a[i] == b[i],
    ensures
        k == a.len() ==> crate::order::text_before(a, b) && !crate::order::text_before(b, a),
        k < a.len() && a[k] < b[k] ==> crate::order::text_before(a, b)
            && !crate::order::text_before(b, a),
        k < a.len() && a[k] > b[k] ==> crate::order::text_before(b, a)
            && !crate::order::text_before(a, b),
{
    let x = crate::order::char_codes(a);
    let y = crate::order::char_codes(b);
    assert forall|i: int| 0 <= i < k implies #[trigger] x[i] == y[i] by {
        assert(a[i] == b[i]);
    }
    crate::order::precedes_is_strict(x, y);
    crate::order::precedes_is_strict(y, x);
    if k == a.len() || a[k] < b[k] {
        assert(crate::order::smaller_at(x, y, k));
    } else if a[k] > b[k] {
        assert(crate::order::smaller_at(y, x, k));
    }
}

/// One id comes before another exactly when it is shorter and they agree as far as it goes, or it
/// has the smaller byte where they first differ.
pub proof fn ids_are_ordered_by_first_difference(a: Seq<u8>, b: Seq<u8>, k: int)
    requires
        0 <= k <= a.len(),
        k < b.len(),
        forall|i: int| 0 <= i < k ==> #[trigger] a[i] == b[i],
    ensures
        k == a.len() ==> crate::order::bytes_before(a, b) && !crate::order::bytes_before(b, a),
        k < a.len() && a[k] < b[k] ==> crate::order::bytes_before(a, b)
            && !crate::order::bytes_before(b, a),
        k < a.len() && a[k] > b[k] ==> crate::order::bytes_before(b, a)
            && !crate::order::bytes_before(a, b),
{
    let x = crate::order::byte_codes(a);
    let y = crate::order::byte_codes(b);
    assert forall|i: int| 0 <= i < k implies #[trigger] x[i] == y[i] by {
        assert(a[i] == b[i]);
    }
    crate::order::precedes_is_strict(x, y);
    crate::order::precedes_is_strict(y, x);
    if k == a.len() || a[k] < b[k] {
        assert(crate::order::smaller_at(x, y, k));
    } else if a[k] > b[k] {
        assert(crate::order::smaller_at(y, x, k));
    }
}

/// A sorted list holds no text twice, and each text before the ones that come after it.
pub proof fn sorted_lists_ascend(names: Seq<Seq<char>>)
    ensures
        crate::text_set::ascending_texts(names) <==> forall|i: int, j: int|
            #![trigger names[i], names[j]]
            0 <= i < j < names.len() ==> crate::order::text_before(names[i], names[j]),
        crate::text_set::ascending_texts(names) ==> names.no_duplicates(),
{
    if crate::text_set::ascending_texts(names) {
        assert forall|i: int, j: int|
            0 <= i < names.len() && 0 <= j < names.len() && i != j implies names[i]
            != names[j] by {
            crate::order::precedes_is_strict(
                crate::order::char_codes(names[i]),
                crate::order::char_codes(names[j]),
            );
            if i < j {
                assert(crate::order::text_before(names[i], names[j]));
            } else {
                assert(crate::order::text_before(names[j], names[i]));
            }
        }
    }
}

} // verus!
