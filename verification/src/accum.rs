//! The incremental service-graph accumulator.
use std::collections::HashSet;

use vstd::prelude::*;

use crate::columns::footer_is_missing;
use crate::id_map::IdMap;
use crate::samples::{
    decode_dict, decode_samples, DictBatch, MergeError, SampleBatch, SOURCE_SCHED_EVENT,
};
use crate::symbol::{is_known_runtime_crate, module_of};
use crate::text::copy_texts;
use crate::text_set::insert_text;

verus! {

/// The length of a stack id in a samples part, in bytes.
pub const STACK_ID_BYTES: usize = 16;

/// Off-worker samples carry a sentinel worker id, this one or a larger one.
pub const OFF_WORKER_ID: u32 = 255;

/// Per-stack sample tallies: total occurrences and the off-CPU subtotal.
#[derive(Clone, Copy, Debug, PartialEq, Eq)]
pub struct StackTally {
    pub total: u64,
    pub off_cpu: u64,
}

/// The counts of a [`StackTally`].
pub struct Tally {
    pub total: nat,
    pub off_cpu: nat,
}

impl View for StackTally {
    type V = Tally;

    open spec fn view(&self) -> Tally {
        Tally { total: self.total as nat, off_cpu: self.off_cpu as nat }
    }
}

/// What an accumulator holds.
#[verifier::ext_equal]
pub struct AccumView {
    /// Stack id to its tally.
    pub stacks: Map<Seq<u8>, Tally>,
    /// Stack id to its symbolized frames, leaf first.
    pub dict: Map<Seq<u8>, Seq<Seq<char>>>,
    /// The workers that produced samples.
    pub workers: Set<u32>,
    /// The number of samples.
    pub total_samples: nat,
    /// The earliest timestamp.
    pub min_ts: Option<i64>,
    /// The latest timestamp.
    pub max_ts: Option<i64>,
}

/// The smaller of what was there and a new value.
pub open spec fn least(old: Option<i64>, new: i64) -> i64 {
    match old {
        Some(v) => if v <= new { v } else { new },
        None => new,
    }
}

/// The larger of what was there and a new value.
pub open spec fn greatest(old: Option<i64>, new: i64) -> i64 {
    match old {
        Some(v) => if v >= new { v } else { new },
        None => new,
    }
}

impl AccumView {
    /// Nothing merged yet.
    pub open spec fn empty() -> AccumView {
        AccumView {
            stacks: Map::empty(),
            dict: Map::empty(),
            workers: Set::empty(),
            total_samples: 0,
            min_ts: None,
            max_ts: None,
        }
    }

    /// The tally of a stack; zero for one that was never sampled.
    pub open spec fn tally(self, stack: Seq<u8>) -> Tally {
        if self.stacks.contains_key(stack) {
            self.stacks[stack]
        } else {
            Tally { total: 0, off_cpu: 0 }
        }
    }

    /// One sample more.
    pub open spec fn with_sample(self, row: crate::samples::SampleRow) -> AccumView {
        let tally = self.tally(row.stack);
        AccumView {
            stacks: self.stacks.insert(
                row.stack,
                Tally {
                    total: tally.total + 1,
                    off_cpu: tally.off_cpu + if row.off_cpu { 1nat } else { 0nat },
                },
            ),
            dict: self.dict,
            workers: match row.worker {
                Some(worker) => if worker < OFF_WORKER_ID {
                    self.workers.insert(worker)
                } else {
                    self.workers
                },
                None => self.workers,
            },
            total_samples: self.total_samples + 1,
            min_ts: match row.timestamp {
                Some(t) => Some(least(self.min_ts, t)),
                None => self.min_ts,
            },
            max_ts: match row.timestamp {
                Some(t) => Some(greatest(self.max_ts, t)),
                None => self.max_ts,
            },
        }
    }

    /// Several samples more.
    pub open spec fn with_samples(self, rows: Seq<crate::samples::SampleRow>) -> AccumView
        decreases rows.len(),
    {
        if rows.len() == 0 {
            self
        } else {
            self.with_samples(rows.drop_last()).with_sample(rows.last())
        }
    }

    /// One dictionary row more. The first frames given for a stack stay.
    pub open spec fn with_dict_row(self, row: crate::samples::DictRow) -> AccumView {
        match row.frames {
            Some(frames) => if self.dict.contains_key(row.stack) {
                self
            } else {
                AccumView { dict: self.dict.insert(row.stack, frames), ..self }
            },
            None => self,
        }
    }

    /// Several dictionary rows more.
    pub open spec fn with_dict(self, rows: Seq<crate::samples::DictRow>) -> AccumView
        decreases rows.len(),
    {
        if rows.len() == 0 {
            self
        } else {
            self.with_dict(rows.drop_last()).with_dict_row(rows.last())
        }
    }

    /// The tallies add up: they sum to the sample count, no off-CPU subtotal exceeds its total,
    /// every sampled stack was sampled and has a well-formed id, no sentinel counts as a worker,
    /// and the time range is a range.
    pub open spec fn balanced(self) -> bool {
        &&& self.stacks.dom().finite()
        &&& crate::id_map::map_sum(self.stacks, |id: Seq<u8>, t: Tally| t.total)
            == self.total_samples
        &&& forall|id: Seq<u8>| #[trigger]
            self.stacks.contains_key(id) ==> {
                &&& id.len() == STACK_ID_BYTES
                &&& self.stacks[id].total >= 1
                &&& self.stacks[id].off_cpu <= self.stacks[id].total
            }
        &&& forall|worker: u32| #[trigger]
            self.workers.contains(worker) ==> worker < OFF_WORKER_ID
        &&& match (self.min_ts, self.max_ts) {
            (Some(lo), Some(hi)) => lo <= hi,
            (None, None) => true,
            _ => false,
        }
    }

    /// These samples can be merged: their stack ids have the right length, and the sample count
    /// stays within the machine's range.
    pub open spec fn can_take(self, rows: Seq<crate::samples::SampleRow>) -> bool {
        &&& forall|i: int|
            0 <= i < rows.len() ==> (#[trigger] rows[i]).stack.len() == STACK_ID_BYTES
        &&& self.total_samples + rows.len() <= u64::MAX
    }
}

/// A balanced accumulator stays balanced when it takes a sample, and no single tally exceeds the
/// sample count.
pub proof fn sample_keeps_balance(before: AccumView, row: crate::samples::SampleRow)
    requires
        before.balanced(),
        row.stack.len() == STACK_ID_BYTES,
    ensures
        before.with_sample(row).balanced(),
        before.tally(row.stack).total <= before.total_samples,
{
    let f = |id: Seq<u8>, t: Tally| t.total;
    let after = before.with_sample(row);
    crate::id_map::map_sum_after_insert(before.stacks, f, row.stack, after.stacks[row.stack]);
}

/// Merging samples in two goes is merging them in one.
pub proof fn samples_merge_in_goes(
    before: AccumView,
    first: Seq<crate::samples::SampleRow>,
    second: Seq<crate::samples::SampleRow>,
)
    ensures
        before.with_samples(first + second) == before.with_samples(first).with_samples(second),
    decreases second.len(),
{
    if second.len() == 0 {
        assert(first + second =~= first);
    } else {
        assert((first + second).drop_last() =~= first + second.drop_last());
        samples_merge_in_goes(before, first, second.drop_last());
    }
}

/// Merging dictionary rows in two goes is merging them in one.
pub proof fn dict_merges_in_goes(
    before: AccumView,
    first: Seq<crate::samples::DictRow>,
    second: Seq<crate::samples::DictRow>,
)
    ensures
        before.with_dict(first + second) == before.with_dict(first).with_dict(second),
    decreases second.len(),
{
    if second.len() == 0 {
        assert(first + second =~= first);
    } else {
        assert((first + second).drop_last() =~= first + second.drop_last());
        dict_merges_in_goes(before, first, second.drop_last());
    }
}

/// Dictionary rows touch nothing but the dictionary.
pub proof fn dict_leaves_tallies(before: AccumView, rows: Seq<crate::samples::DictRow>)
    ensures
        before.with_dict(rows) == (AccumView { dict: before.with_dict(rows).dict, ..before }),
    decreases rows.len(),
{
    if rows.len() > 0 {
        dict_leaves_tallies(before, rows.drop_last());
    }
}

/// Samples count up one by one.
pub proof fn samples_are_counted(before: AccumView, rows: Seq<crate::samples::SampleRow>)
    ensures
        before.with_samples(rows).total_samples == before.total_samples + rows.len(),
        before.with_samples(rows).dict == before.dict,
    decreases rows.len(),
{
    if rows.len() > 0 {
        samples_are_counted(before, rows.drop_last());
    }
}

/// Some frame in the dictionary belongs to this crate.
pub open spec fn crate_seen(dict: Map<Seq<u8>, Seq<Seq<char>>>, name: Seq<char>) -> bool {
    exists|stack: Seq<u8>, k: int| #[trigger] crate_at(dict, stack, k, name)
}

/// The frame at a position of a stack belongs to this crate.
pub open spec fn crate_at(
    dict: Map<Seq<u8>, Seq<Seq<char>>>,
    stack: Seq<u8>,
    k: int,
    name: Seq<char>,
) -> bool {
    &&& dict.contains_key(stack)
    &&& 0 <= k < dict[stack].len()
    &&& crate::symbol::identity_of(dict[stack][k]) matches Some((crate_name, _))
    &&& crate_name == name
}

/// The application crates that are inferred from the folded frames: every crate that appears and
/// whose name starts with no well-known runtime prefix.
pub open spec fn inferred_app(dict: Map<Seq<u8>, Seq<Seq<char>>>, name: Seq<char>) -> bool {
    crate_seen(dict, name) && !crate::symbol::known_runtime(name)
}

/// The wall-clock span between two timestamps, at least one nanosecond.
pub open spec fn time_span(min_ts: Option<i64>, max_ts: Option<i64>) -> int {
    match (min_ts, max_ts) {
        (Some(lo), Some(hi)) => if hi - lo >= 1 {
            hi - lo
        } else {
            1
        },
        _ => 1,
    }
}

/// The number of distinct workers, at least one.
pub open spec fn worker_count(workers: Set<u32>) -> nat {
    if workers.len() >= 1 {
        workers.len()
    } else {
        1
    }
}

/// The kind of a [`MergeError`].
pub enum Fault {
    /// The file cannot be opened.
    Open,
    /// A batch of the file cannot be decoded.
    Batch,
}

/// What merging a part-file comes to.
pub struct Merged {
    /// What the accumulator holds afterwards.
    pub after: AccumView,
    /// The error, if there was one.
    pub fault: Option<Fault>,
}

/// The kind of error in a result.
pub open spec fn fault_of(result: Result<(), MergeError>) -> Option<Fault> {
    match result {
        Ok(()) => None,
        Err(MergeError::Open(_)) => Some(Fault::Open),
        Err(MergeError::Batch(_)) => Some(Fault::Batch),
    }
}

/// What merging a samples part comes to. A file that cannot be opened changes nothing; an
/// undecodable batch leaves the batches before it merged. `None` when the decoded samples cannot
/// be taken.
pub open spec fn merged_samples(before: AccumView, data: Seq<u8>) -> Option<Merged> {
    match crate::columns::parquet_file(data, crate::samples::BATCH_ROWS) {
        None => Some(Merged { after: before, fault: Some(Fault::Open) }),
        Some(file) => {
            let rows = crate::samples::file_samples(file);
            if before.can_take(rows) {
                Some(
                    Merged {
                        after: before.with_samples(rows),
                        fault: if crate::samples::file_faulty(file) {
                            Some(Fault::Batch)
                        } else {
                            None
                        },
                    },
                )
            } else {
                None
            }
        },
    }
}

/// What merging a dictionary part comes to.
pub open spec fn merged_dict(before: AccumView, data: Seq<u8>) -> Merged {
    match crate::columns::parquet_file(data, crate::samples::BATCH_ROWS) {
        None => Merged { after: before, fault: Some(Fault::Open) },
        Some(file) => Merged {
            after: before.with_dict(crate::samples::file_dict(file)),
            fault: if crate::samples::file_faulty(file) {
                Some(Fault::Batch)
            } else {
                None
            },
        },
    }
}

/// What merging a samples part and its optional dictionary part comes to: the dictionary is read
/// only when the samples raised no error.
pub open spec fn merged_parts(
    before: AccumView,
    samples: Seq<u8>,
    dict: Option<Seq<u8>>,
) -> Option<Merged> {
    match merged_samples(before, samples) {
        None => None,
        Some(merged) => match (merged.fault, dict) {
            (None, Some(data)) => Some(merged_dict(merged.after, data)),
            _ => Some(merged),
        },
    }
}

/// The parts can be decoded, as far as they are read: the samples, and the dictionary when the
/// samples raised no error.
pub open spec fn parts_decode(
    before: AccumView,
    samples: Seq<u8>,
    dict: Option<Seq<u8>>,
) -> bool {
    &&& crate::columns::decodes(samples, crate::samples::BATCH_ROWS)
    &&& match (merged_samples(before, samples), dict) {
        (Some(merged), Some(data)) => merged.fault is None ==> crate::columns::decodes(
            data,
            crate::samples::BATCH_ROWS,
        ),
        _ => true,
    }
}

/// The bytes of an optional dictionary part.
pub open spec fn dict_bytes(dict: Option<Vec<u8>>) -> Option<Seq<u8>> {
    match dict {
        Some(data) => Some(data@),
        None => None,
    }
}

/// Incremental service-graph accumulator. Merges folded part-files one at a time: samples (keyed
/// by stack id, split on/off-CPU via the `source` column) plus the stacks dictionary (stack id to
/// symbolized frames, leaf first). The graph itself is derived per snapshot from these tallies.
pub struct GraphAccum {
    /// Stack id to its sample tallies.
    pub stacks: IdMap<StackTally>,
    /// Stack id to its symbolized frames (leaf first), from the dictionary part-files.
    pub dict: IdMap<Vec<String>>,
    /// The distinct workers that produced samples.
    pub workers: HashSet<u32>,
    /// The number of samples merged.
    pub total_samples: u64,
    /// The earliest timestamp merged.
    pub min_ts: Option<i64>,
    /// The latest timestamp merged.
    pub max_ts: Option<i64>,
}

impl View for GraphAccum {
    type V = AccumView;

    open spec fn view(&self) -> AccumView {
        AccumView {
            stacks: self.stacks@.map_values(|t: StackTally| t@),
            dict: self.dict@.map_values(|frames: Vec<String>| crate::columns::texts(frames@)),
            workers: self.workers@,
            total_samples: self.total_samples as nat,
            min_ts: self.min_ts,
            max_ts: self.max_ts,
        }
    }
}

impl Default for GraphAccum {
    fn default() -> (accum: GraphAccum)
        ensures
            accum.wf(),
            accum@ == AccumView::empty(),
    {
        broadcast use vstd::std_specs::hash::group_hash_axioms;

        let accum = GraphAccum {
            stacks: IdMap::new(),
            dict: IdMap::new(),
            workers: HashSet::new(),
            total_samples: 0,
            min_ts: None,
            max_ts: None,
        };
        assert(accum@ =~= AccumView::empty());
        assert(accum@.balanced());
        accum
    }
}

impl GraphAccum {
    /// The two maps are well formed and the tallies add up.
    pub open spec fn wf(&self) -> bool {
        &&& self.stacks.wf()
        &&& self.dict.wf()
        &&& self@.balanced()
    }

    /// Merges one sample.
    fn add_sample(
        &mut self,
        stack: &Vec<u8>,
        off_cpu: bool,
        timestamp: Option<i64>,
        worker: Option<u32>,
    )
        requires
            old(self).wf(),
            stack@.len() == STACK_ID_BYTES,
            old(self).total_samples < u64::MAX,
        ensures
            final(self).wf(),
            final(self)@ == old(self)@.with_sample(
                (crate::samples::SampleRow { stack: stack@, off_cpu, timestamp, worker }),
            ),
    {
        broadcast use vstd::std_specs::hash::group_hash_axioms;

        let ghost row = crate::samples::SampleRow { stack: stack@, off_cpu, timestamp, worker };
        proof {
            sample_keeps_balance(self@, row);
        }
        let before = match self.stacks.get(stack.as_slice()) {
            Some(tally) => *tally,
            None => StackTally { total: 0, off_cpu: 0 },
        };
        assert(before@ == self@.tally(stack@));
        let after = StackTally {
            total: before.total + 1,
            off_cpu: if off_cpu {
                before.off_cpu + 1
            } else {
                before.off_cpu
            },
        };
        self.stacks.insert(stack.clone(), after);
        self.total_samples = self.total_samples + 1;
        if let Some(t) = timestamp {
            self.min_ts = match self.min_ts {
                Some(m) => Some(if m <= t { m } else { t }),
                None => Some(t),
            };
            self.max_ts = match self.max_ts {
                Some(m) => Some(if m >= t { m } else { t }),
                None => Some(t),
            };
        }
        if let Some(w) = worker {
            if w < OFF_WORKER_ID {
                self.workers.insert(w);
            }
        }
        assert(self@ =~= old(self)@.with_sample(row));
    }

    /// Merges one decoded batch of samples.
    pub fn add_samples(&mut self, batch: &SampleBatch)
        requires
            old(self).wf(),
            batch.wf(),
            old(self)@.can_take(batch.rows()),
        ensures
            final(self).wf(),
            final(self)@ == old(self)@.with_samples(batch.rows()),
    {
        let n = batch.stack_ids.len();
        let ghost rows = batch.rows();
        assert(rows.take(0).len() == 0);
        let mut i: usize = 0;
        while i < n
            invariant
                i <= n,
                n == batch.stack_ids@.len(),
                rows == batch.rows(),
                batch.wf(),
                self.wf(),
                self@ == old(self)@.with_samples(rows.take(i as int)),
                self.total_samples == old(self).total_samples + i,
                old(self)@.can_take(rows),
            decreases n - i,
        {
            assert(rows[i as int].stack.len() == STACK_ID_BYTES);
            let off_cpu = match &batch.sources {
                Some(sources) => sources[i] == SOURCE_SCHED_EVENT,
                None => false,
            };
            let timestamp = match &batch.timestamps {
                Some(timestamps) => Some(timestamps[i]),
                None => None,
            };
            let worker = match &batch.workers {
                Some(workers) => workers[i],
                None => None,
            };
            self.add_sample(&batch.stack_ids[i], off_cpu, timestamp, worker);
            assert(rows.take(i + 1).drop_last() =~= rows.take(i as int));
            i = i + 1;
        }
        assert(rows.take(n as int) =~= rows);
    }

    /// Whether all these samples can be merged: every stack id has the right length, and the
    /// sample count stays within the machine's range.
    pub fn can_take_all(&self, batches: &Vec<SampleBatch>) -> (yes: bool)
        requires
            forall|i: int| 0 <= i < batches@.len() ==> (#[trigger] batches@[i]).wf(),
        ensures
            yes == self@.can_take(crate::samples::all_samples(batches@)),
    {
        let ghost all = crate::samples::all_samples(batches@);
        let mut room: u64 = u64::MAX - self.total_samples;
        let mut k: usize = 0;
        while k < batches.len()
            invariant
                k <= batches@.len(),
                all == crate::samples::all_samples(batches@),
                ({
                    let done = crate::samples::all_samples(batches@.take(k as int));
                    &&& room + self.total_samples + done.len() == u64::MAX
                    &&& forall|i: int|
                        0 <= i < done.len() ==> (#[trigger] done[i]).stack.len() == STACK_ID_BYTES
                }),
            decreases batches@.len() - k,
        {
            let ghost done = crate::samples::all_samples(batches@.take(k as int));
            let ghost rows = batches@[k as int].rows();
            proof {
                samples_of_prefix(batches@, k as int);
                samples_of_prefix_are_prefix(batches@, k + 1);
            }
            let batch = &batches[k];
            let n = batch.stack_ids.len();
            let mut i: usize = 0;
            while i < n
                invariant
                    i <= n,
                    n == rows.len(),
                    rows == batch.rows(),
                    n == batch.stack_ids@.len(),
                    k < batches@.len(),
                    all == crate::samples::all_samples(batches@),
                    crate::samples::all_samples(batches@.take(k + 1)) == done + rows,
                    crate::samples::all_samples(batches@.take(k + 1)).is_prefix_of(all),
                    forall|j: int|
                        0 <= j < i ==> (#[trigger] rows[j]).stack.len() == STACK_ID_BYTES,
                decreases n - i,
            {
                if batch.stack_ids[i].len() != STACK_ID_BYTES {
                    assert((done + rows)[done.len() + i] == rows[i as int]);
                    assert(all[done.len() + i] == (done + rows)[done.len() + i]);
                    return false;
                }
                i = i + 1;
            }
            if n as u64 > room {
                return false;
            }
            room = room - n as u64;
            k = k + 1;
        }
        assert(batches@.take(k as int) =~= batches@);
        true
    }

    /// Merges a samples part.
    ///
    /// `None` when a stack id does not have 16 bytes or the sample count would leave the range
    /// of `u64`; nothing is merged then.
    pub fn read_samples_part(&mut self, data: Vec<u8>) -> (read: Option<Result<(), MergeError>>)
        requires
            old(self).wf(),
            crate::columns::decodes(data@, crate::samples::BATCH_ROWS),
        ensures
            final(self).wf(),
            match read {
                Some(result) => merged_samples(old(self)@, data@) == Some(
                    Merged { after: final(self)@, fault: fault_of(result) },
                ),
                None => merged_samples(old(self)@, data@) is None && final(self)@ == old(self)@,
            },
    {
        match decode_samples(data) {
            Err(e) => Some(Err(e)),
            Ok((batches, fault)) => {
                if !self.can_take_all(&batches) {
                    return None;
                }
                let ghost all = crate::samples::all_samples(batches@);
                let mut k: usize = 0;
                while k < batches.len()
                    invariant
                        k <= batches@.len(),
                        all == crate::samples::all_samples(batches@),
                        forall|i: int| 0 <= i < batches@.len() ==> (#[trigger] batches@[i]).wf(),
                        self.wf(),
                        old(self)@.can_take(all),
                        self@ == old(self)@.with_samples(
                            crate::samples::all_samples(batches@.take(k as int)),
                        ),
                    decreases batches@.len() - k,
                {
                    let ghost done = crate::samples::all_samples(batches@.take(k as int));
                    let ghost rows = batches@[k as int].rows();
                    proof {
                        samples_of_prefix(batches@, k as int);
                        samples_of_prefix_are_prefix(batches@, k + 1);
                        samples_are_counted(old(self)@, done);
                        samples_merge_in_goes(old(self)@, done, rows);
                        assert forall|i: int| 0 <= i < rows.len() implies (
                        #[trigger] rows[i]).stack.len() == STACK_ID_BYTES by {
                            assert((done + rows)[done.len() + i] == rows[i]);
                            assert(all[done.len() + i] == (done + rows)[done.len() + i]);
                        }
                    }
                    self.add_samples(&batches[k]);
                    k = k + 1;
                }
                assert(batches@.take(k as int) =~= batches@);
                match fault {
                    Some(e) => Some(Err(MergeError::Batch(e))),
                    None => Some(Ok(())),
                }
            },
        }
    }

    /// Merges one decoded batch of dictionary rows. Frames already known for a stack stay.
    pub fn add_dict(&mut self, batch: &DictBatch)
        requires
            old(self).wf(),
            batch.wf(),
        ensures
            final(self).wf(),
            final(self)@ == old(self)@.with_dict(batch.rows()),
    {
        let n = batch.stack_ids.len();
        let ghost rows = batch.rows();
        let mut i: usize = 0;
        while i < n
            invariant
                i <= n,
                n == batch.stack_ids@.len(),
                rows == batch.rows(),
                batch.wf(),
                self.wf(),
                self@ == old(self)@.with_dict(rows.take(i as int)),
            decreases n - i,
        {
            let ghost before = self@;
            if let Some(frames) = &batch.frames[i] {
                if !self.dict.contains_key(batch.stack_ids[i].as_slice()) {
                    let copy = copy_texts(frames);
                    self.dict.insert(batch.stack_ids[i].clone(), copy);
                }
            }
            assert(self@ =~= before.with_dict_row(rows[i as int]));
            assert(rows.take(i + 1).drop_last() =~= rows.take(i as int));
            i = i + 1;
        }
        assert(rows.take(n as int) =~= rows);
    }

    /// Merges a dictionary part.
    pub fn read_dict_part(&mut self, data: Vec<u8>) -> (read: Result<(), MergeError>)
        requires
            old(self).wf(),
            crate::columns::decodes(data@, crate::samples::BATCH_ROWS),
        ensures
            final(self).wf(),
            merged_dict(old(self)@, data@) == (Merged {
                after: final(self)@,
                fault: fault_of(read),
            }),
    {
        match decode_dict(data) {
            Err(e) => Err(e),
            Ok((batches, fault)) => {
                let mut k: usize = 0;
                while k < batches.len()
                    invariant
                        k <= batches@.len(),
                        forall|i: int| 0 <= i < batches@.len() ==> (#[trigger] batches@[i]).wf(),
                        self.wf(),
                        self@ == old(self)@.with_dict(
                            crate::samples::all_dict(batches@.take(k as int)),
                        ),
                    decreases batches@.len() - k,
                {
                    proof {
                        assert(batches@.take(k + 1).drop_last() =~= batches@.take(k as int));
                        dict_merges_in_goes(
                            old(self)@,
                            crate::samples::all_dict(batches@.take(k as int)),
                            batches@[k as int].rows(),
                        );
                    }
                    self.add_dict(&batches[k]);
                    k = k + 1;
                }
                assert(batches@.take(k as int) =~= batches@);
                match fault {
                    Some(e) => Err(MergeError::Batch(e)),
                    None => Ok(()),
                }
            },
        }
    }

    /// Merges one folded file's samples part, and its dictionary part if there is one. Both must
    /// be files that the decoder survives.
    ///
    /// `None` when a stack id does not have 16 bytes or the sample count would leave the range
    /// of `u64`; nothing is merged then.
    pub fn merge(&mut self, samples: Vec<u8>, dict: Option<Vec<u8>>) -> (merged: Option<
        Result<(), MergeError>,
    >)
        requires
            old(self).wf(),
            parts_decode(old(self)@, samples@, dict_bytes(dict)),
        ensures
            final(self).wf(),
            match merged {
                Some(result) => merged_parts(old(self)@, samples@, dict_bytes(dict)) == Some(
                    Merged { after: final(self)@, fault: fault_of(result) },
                ),
                None => merged_parts(old(self)@, samples@, dict_bytes(dict)) is None
                    && final(self)@ == old(self)@,
            },
    {
        match self.read_samples_part(samples) {
            None => None,
            Some(Err(e)) => Some(Err(e)),
            Some(Ok(())) => match dict {
                Some(data) => Some(self.read_dict_part(data)),
                None => Some(Ok(())),
            },
        }
    }
}

impl GraphAccum {
    /// Merges one folded file's parts, if it is certain that they can be decoded: if the samples
    /// do not even end as a Parquet file does, so that merging them comes to an error. Of all
    /// other bytes only decoding tells; they are handed back, and nothing is merged.
    pub fn merge_if_certain(&mut self, samples: Vec<u8>, dict: Option<Vec<u8>>) -> (merged: Result<
        Option<Result<(), MergeError>>,
        (Vec<u8>, Option<Vec<u8>>),
    >)
        requires
            old(self).wf(),
        ensures
            final(self).wf(),
            final(self)@ == old(self)@,
            match merged {
                Ok(outcome) => {
                    &&& crate::columns::lacks_footer(samples@)
                    &&& outcome matches Some(Err(MergeError::Open(_)))
                },
                Err(parts) => !crate::columns::lacks_footer(samples@) && parts == (samples, dict),
            },
    {
        if footer_is_missing(&samples) {
            assert(crate::columns::decodes(samples@, crate::samples::BATCH_ROWS));
            assert(crate::columns::parquet_file(samples@, crate::samples::BATCH_ROWS) is None);
            Ok(self.merge(samples, dict))
        } else {
            Err((samples, dict))
        }
    }

    /// The wall-clock span of the merged samples, in nanoseconds; at least one.
    pub fn time_span_ns(&self) -> (span: i64)
        requires
            time_span(self.min_ts, self.max_ts) <= i64::MAX,
        ensures
            span == time_span(self.min_ts, self.max_ts),
    {
        match (self.min_ts, self.max_ts) {
            (Some(lo), Some(hi)) => if hi <= lo {
                1
            } else {
                hi - lo
            },
            _ => 1,
        }
    }

    /// Whether the wall-clock span is within the range of `i64`.
    pub fn span_fits(&self) -> (fits: bool)
        ensures
            fits == (time_span(self.min_ts, self.max_ts) <= i64::MAX),
    {
        match (self.min_ts, self.max_ts) {
            (Some(lo), Some(hi)) => hi <= lo || lo >= 0 || hi <= i64::MAX + lo,
            _ => true,
        }
    }

    /// The number of distinct workers that produced samples; at least one.
    pub fn worker_count(&self) -> (count: u64)
        ensures
            count == worker_count(self@.workers),
    {
        broadcast use vstd::std_specs::hash::group_hash_axioms;

        let n = self.workers.len();
        if n >= 1 {
            n as u64
        } else {
            1
        }
    }

    /// The distinct crates that appear in the dictionary, sorted.
    fn seen_crates(&self) -> (crates: Vec<String>)
        requires
            self.dict.wf(),
        ensures
            crate::text_set::ascending_texts(crate::columns::texts(crates@)),
            forall|name: Seq<char>|
                #![trigger crate::columns::texts(crates@).contains(name)]
                crate::columns::texts(crates@).contains(name) <==> crate_seen(self@.dict, name),
    {
        let mut crates: Vec<String> = Vec::new();
        let ghost dict = self@.dict;
        let ghost rows = self.dict.rows();
        let mut i: usize = 0;
        while i < self.dict.len()
            invariant
                self.dict.wf(),
                rows == self.dict.rows(),
                dict == self@.dict,
                i <= rows.len(),
                crate::text_set::ascending_texts(crate::columns::texts(crates@)),
                forall|name: Seq<char>|
                    #![trigger crate::columns::texts(crates@).contains(name)]
                    crate::columns::texts(crates@).contains(name) <==> exists|a: int, k: int|
                        0 <= a < i && #[trigger] crate_at(dict, rows[a].0, k, name),
            decreases rows.len() - i,
        {
            let frames = self.dict.value_at(i);
            let ghost stack = rows[i as int].0;
            proof {
                crate::id_map::row_is_in_map(rows, i as int);
                assert(dict.contains_key(stack));
                assert(dict[stack] == crate::columns::texts(frames@));
            }
            let mut j: usize = 0;
            while j < frames.len()
                invariant
                    rows == self.dict.rows(),
                    i < rows.len(),
                    stack == rows[i as int].0,
                    dict.contains_key(stack),
                    dict[stack] == crate::columns::texts(frames@),
                    j <= frames@.len(),
                    crate::text_set::ascending_texts(crate::columns::texts(crates@)),
                    forall|name: Seq<char>|
                        #![trigger crate::columns::texts(crates@).contains(name)]
                        crate::columns::texts(crates@).contains(name) <==> exists|a: int, k: int|
                            0 <= a && (a < i || (a == i && k < j)) && #[trigger] crate_at(
                                dict,
                                rows[a].0,
                                k,
                                name,
                            ),
                decreases frames@.len() - j,
            {
                let ghost before = crate::columns::texts(crates@);
                assert(dict[stack][j as int] == frames@[j as int]@);
                match module_of(frames[j].as_str()) {
                    Some((crate_name, _)) => {
                        let ghost found = crate_name@;
                        insert_text(&mut crates, crate_name);
                        assert forall|name: Seq<char>|
                            #![trigger crate::columns::texts(crates@).contains(name)]
                            crate::columns::texts(crates@).contains(name) <==> exists|
                                a: int,
                                k: int,
                            |
                                0 <= a && (a < i || (a == i && k < j + 1))
                                    && #[trigger] crate_at(dict, rows[a].0, k, name) by {
                            if crate::columns::texts(crates@).contains(name) {
                                if before.contains(name) {
                                    let (a, k) = choose|a: int, k: int|
                                        0 <= a && (a < i || (a == i && k < j))
                                            && #[trigger] crate_at(dict, rows[a].0, k, name);
                                    assert(crate_at(dict, rows[a].0, k, name));
                                } else {
                                    assert(crate_at(dict, rows[i as int].0, j as int, name));
                                }
                            }
                            if exists|a: int, k: int|
                                0 <= a && (a < i || (a == i && k < j + 1))
                                    && #[trigger] crate_at(dict, rows[a].0, k, name) {
                                let (a, k) = choose|a: int, k: int|
                                    0 <= a && (a < i || (a == i && k < j + 1))
                                        && #[trigger] crate_at(dict, rows[a].0, k, name);
                                if a == i && k == j {
                                    assert(name == found);
                                } else {
                                    assert(before.contains(name));
                                }
                            }
                        }
                    },
                    None => {
                        assert forall|name: Seq<char>|
                            #![trigger crate::columns::texts(crates@).contains(name)]
                            crate::columns::texts(crates@).contains(name) <==> exists|
                                a: int,
                                k: int,
                            |
                                0 <= a && (a < i || (a == i && k < j + 1))
                                    && #[trigger] crate_at(dict, rows[a].0, k, name) by {
                            if exists|a: int, k: int|
                                0 <= a && (a < i || (a == i && k < j + 1))
                                    && #[trigger] crate_at(dict, rows[a].0, k, name) {
                                let (a, k) = choose|a: int, k: int|
                                    0 <= a && (a < i || (a == i && k < j + 1))
                                        && #[trigger] crate_at(dict, rows[a].0, k, name);
                                assert(!(a == i && k == j));
                            }
                        }
                    },
                }
                j = j + 1;
            }
            i = i + 1;
        }
        proof {
            assert forall|name: Seq<char>|
                #![trigger crate::columns::texts(crates@).contains(name)]
                crate::columns::texts(crates@).contains(name) <==> crate_seen(dict, name) by {
                if crate_seen(dict, name) {
                    let (stack, k) = choose|stack: Seq<u8>, k: int|
                        #[trigger] crate_at(dict, stack, k, name);
                    let a = choose|a: int| 0 <= a < rows.len() && (#[trigger] rows[a]).0 == stack;
                    assert(crate_at(dict, rows[a].0, k, name));
                }
            }
        }
        crates
    }

    /// Infers the application-crate prefix set from the folded frames when the caller supplied
    /// none: every crate that appears and is not an obvious std or runtime crate, sorted. The
    /// names are exact crate names; used as prefixes, each still matches its own frames.
    pub fn infer_app_prefixes(&self) -> (prefixes: Vec<String>)
        requires
            self.dict.wf(),
        ensures
            crate::text_set::ascending_texts(crate::columns::texts(prefixes@)),
            forall|name: Seq<char>|
                #![trigger crate::columns::texts(prefixes@).contains(name)]
                crate::columns::texts(prefixes@).contains(name) <==> inferred_app(
                    self@.dict,
                    name,
                ),
    {
        let crates = self.seen_crates();
        let ghost seen = crate::columns::texts(crates@);
        let mut prefixes: Vec<String> = Vec::new();
        let mut i: usize = 0;
        while i < crates.len()
            invariant
                i <= crates@.len(),
                seen == crate::columns::texts(crates@),
                crate::text_set::ascending_texts(crate::columns::texts(prefixes@)),
                forall|name: Seq<char>|
                    #![trigger crate::columns::texts(prefixes@).contains(name)]
                    crate::columns::texts(prefixes@).contains(name) <==> seen.take(
                        i as int,
                    ).contains(name) && !crate::symbol::known_runtime(name),
            decreases crates@.len() - i,
        {
            let ghost before = crate::columns::texts(prefixes@);
            assert(seen.take(i + 1) =~= seen.take(i as int).push(seen[i as int]));
            proof {
                push_contains(seen.take(i as int), seen[i as int]);
            }
            if !is_known_runtime_crate(crates[i].as_str()) {
                insert_text(&mut prefixes, crates[i].clone());
            }
            i = i + 1;
        }
        assert(seen.take(i as int) =~= seen);
        prefixes
    }
}

proof fn push_contains(names: Seq<Seq<char>>, name: Seq<char>)
    ensures
        forall|t: Seq<char>|
            #![trigger names.push(name).contains(t)]
            names.push(name).contains(t) <==> (names.contains(t) || t == name),
{
    assert forall|t: Seq<char>|
        #![trigger names.push(name).contains(t)]
        names.push(name).contains(t) <==> (names.contains(t) || t == name) by {
        if names.contains(t) {
            let i = choose|i: int| 0 <= i < names.len() && names[i] == t;
            assert(names.push(name)[i] == t);
        }
        assert(names.push(name)[names.len() as int] == name);
    }
}

proof fn samples_of_prefix(batches: Seq<SampleBatch>, k: int)
    requires
        0 <= k < batches.len(),
    ensures
        crate::samples::all_samples(batches.take(k + 1)) == crate::samples::all_samples(
            batches.take(k),
        ) + batches[k].rows(),
{
    assert(batches.take(k + 1).drop_last() =~= batches.take(k));
}

proof fn samples_of_prefix_are_prefix(batches: Seq<SampleBatch>, k: int)
    requires
        0 <= k <= batches.len(),
    ensures
        crate::samples::all_samples(batches.take(k)).is_prefix_of(
            crate::samples::all_samples(batches),
        ),
    decreases batches.len() - k,
{
    let part = crate::samples::all_samples(batches.take(k));
    let all = crate::samples::all_samples(batches);
    if k == batches.len() {
        assert(batches.take(k) =~= batches);
        assert(part.subrange(0, part.len() as int) =~= part);
    } else {
        samples_of_prefix(batches, k);
        samples_of_prefix_are_prefix(batches, k + 1);
        let next = crate::samples::all_samples(batches.take(k + 1));
        assert(part =~= next.subrange(0, part.len() as int));
        assert(all.subrange(0, part.len() as int) =~= all.subrange(
            0,
            next.len() as int,
        ).subrange(0, part.len() as int));
    }
}

} // verus!
