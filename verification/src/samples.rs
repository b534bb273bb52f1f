//! The two part-files of a folded trace file: its samples, and its stacks dictionary.
use vstd::prelude::*;

use arrow::error::ArrowError;
use parquet::errors::ParquetError;

use crate::columns::{
    binary_column, int64_column, list_column, next_batch, open_parquet, uint32_column,
    uint8_column, Batch,
};

verus! {

/// The number of rows decoded at a time.
pub const BATCH_ROWS: usize = 4096;

/// The value of the `source` column for off-CPU (scheduler, context-switch) samples: the sample
/// was taken while the thread was blocked off-CPU.
pub const SOURCE_SCHED_EVENT: u8 = 1;

/// One row of a samples part.
pub struct SampleRow {
    /// The id of the sampled stack.
    pub stack: Seq<u8>,
    /// Whether the sample was taken off-CPU.
    pub off_cpu: bool,
    /// When the sample was taken, if the part says so.
    pub timestamp: Option<i64>,
    /// The worker that was sampled, if the part says so.
    pub worker: Option<u32>,
}

/// One row of a dictionary part.
pub struct DictRow {
    /// The id of the stack.
    pub stack: Seq<u8>,
    /// The symbolized frames, leaf first. `None` when the row does not hold strings.
    pub frames: Option<Seq<Seq<char>>>,
}

/// The samples in one batch of columns. A batch without a binary `stack_id` column has none.
pub open spec fn batch_samples(columns: Map<Seq<char>, crate::columns::Column>) -> Seq<SampleRow> {
    if columns.contains_key("stack_id"@) && columns["stack_id"@] is Binary {
        let ids = columns["stack_id"@]->Binary_0;
        Seq::new(
            ids.len(),
            |i: int|
                SampleRow {
                    stack: ids[i],
                    off_cpu: columns.contains_key("source"@) && columns["source"@] is UInt8
                        && columns["source"@]->UInt8_0[i] == SOURCE_SCHED_EVENT,
                    timestamp: if columns.contains_key("timestamp_ns"@)
                        && columns["timestamp_ns"@] is Int64 {
                        Some(columns["timestamp_ns"@]->Int64_0[i])
                    } else {
                        None
                    },
                    worker: if columns.contains_key("worker_id"@)
                        && columns["worker_id"@] is UInt32 {
                        columns["worker_id"@]->UInt32_0[i]
                    } else {
                        None
                    },
                },
        )
    } else {
        Seq::empty()
    }
}

/// The dictionary rows in one batch of columns. A batch without a binary `stack_id` column and a
/// list column `frames` has none.
pub open spec fn batch_dict(columns: Map<Seq<char>, crate::columns::Column>) -> Seq<DictRow> {
    if columns.contains_key("stack_id"@) && columns["stack_id"@] is Binary && columns.contains_key(
        "frames"@,
    ) && columns["frames"@] is Lists {
        let ids = columns["stack_id"@]->Binary_0;
        let lists = columns["frames"@]->Lists_0;
        Seq::new(ids.len(), |i: int| DictRow { stack: ids[i], frames: lists[i] })
    } else {
        Seq::empty()
    }
}

/// The samples of a file: those of its batches, in order, up to the first undecodable one.
pub open spec fn file_samples(
    batches: Seq<Option<Map<Seq<char>, crate::columns::Column>>>,
) -> Seq<SampleRow>
    decreases batches.len(),
{
    if batches.len() == 0 || batches[0] is None {
        Seq::empty()
    } else {
        batch_samples(batches[0]->0) + file_samples(batches.drop_first())
    }
}

/// The dictionary rows of a file: those of its batches, in order, up to the first undecodable
/// one.
pub open spec fn file_dict(
    batches: Seq<Option<Map<Seq<char>, crate::columns::Column>>>,
) -> Seq<DictRow>
    decreases batches.len(),
{
    if batches.len() == 0 || batches[0] is None {
        Seq::empty()
    } else {
        batch_dict(batches[0]->0) + file_dict(batches.drop_first())
    }
}

/// Some batch of the file cannot be decoded.
pub open spec fn file_faulty(
    batches: Seq<Option<Map<Seq<char>, crate::columns::Column>>>,
) -> bool
    decreases batches.len(),
{
    batches.len() > 0 && (batches[0] is None || file_faulty(batches.drop_first()))
}

/// Why a part-file could not be merged.
#[derive(Debug)]
pub enum MergeError {
    /// The file cannot be opened.
    Open(ParquetError),
    /// A batch of the file cannot be decoded. The batches before it have been merged.
    Batch(ArrowError),
}

/// One batch of samples, as plain columns.
pub struct SampleBatch {
    /// The id of the sampled stack, one per row.
    pub stack_ids: Vec<Vec<u8>>,
    /// When each sample was taken.
    pub timestamps: Option<Vec<i64>>,
    /// The source of each sample.
    pub sources: Option<Vec<u8>>,
    /// The worker of each sample; `None` for a sample that names none.
    pub workers: Option<Vec<Option<u32>>>,
}

impl SampleBatch {
    /// Every column that is there has one value per row.
    pub open spec fn wf(&self) -> bool {
        &&& self.timestamps matches Some(v) ==> v@.len() == self.stack_ids@.len()
        &&& self.sources matches Some(v) ==> v@.len() == self.stack_ids@.len()
        &&& self.workers matches Some(v) ==> v@.len() == self.stack_ids@.len()
    }

    /// The row at a position.
    pub open spec fn row(&self, i: int) -> SampleRow {
        SampleRow {
            stack: self.stack_ids@[i]@,
            off_cpu: self.sources matches Some(v) && v@[i] == SOURCE_SCHED_EVENT,
            timestamp: match self.timestamps {
                Some(v) => Some(v@[i]),
                None => None,
            },
            worker: match self.workers {
                Some(v) => v@[i],
                None => None,
            },
        }
    }

    /// The rows of the batch.
    pub open spec fn rows(&self) -> Seq<SampleRow> {
        Seq::new(self.stack_ids@.len(), |i: int| self.row(i))
    }

    /// Takes the sample columns out of a decoded batch. `None` when it has no stack ids.
    fn read(batch: &Batch) -> (read: Option<SampleBatch>)
        requires
            crate::columns::aligned(crate::columns::batch_columns(*batch)),
        ensures
            match read {
                Some(b) => b.wf() && b.rows() == batch_samples(
                    crate::columns::batch_columns(*batch),
                ),
                None => batch_samples(crate::columns::batch_columns(*batch)).len() == 0,
            },
    {
        let ghost columns = crate::columns::batch_columns(*batch);
        match binary_column(batch, "stack_id") {
            None => None,
            Some(stack_ids) => {
                let timestamps = int64_column(batch, "timestamp_ns");
                let sources = uint8_column(batch, "source");
                let workers = uint32_column(batch, "worker_id");
                let b = SampleBatch { stack_ids, timestamps, sources, workers };
                assert(columns["stack_id"@].rows() == b.stack_ids@.len());
                assert(b.rows() =~= batch_samples(columns));
                Some(b)
            },
        }
    }
}

/// One batch of dictionary rows, as plain columns.
pub struct DictBatch {
    /// The stack ids, one per row.
    pub stack_ids: Vec<Vec<u8>>,
    /// The frames of each stack, leaf first; `None` for a row that does not hold strings.
    pub frames: Vec<Option<Vec<String>>>,
}

impl DictBatch {
    /// Both columns have one value per row.
    pub open spec fn wf(&self) -> bool {
        self.frames@.len() == self.stack_ids@.len()
    }

    /// The row at a position.
    pub open spec fn row(&self, i: int) -> DictRow {
        DictRow {
            stack: self.stack_ids@[i]@,
            frames: match self.frames@[i] {
                Some(strings) => Some(crate::columns::texts(strings@)),
                None => None,
            },
        }
    }

    /// The rows of the batch.
    pub open spec fn rows(&self) -> Seq<DictRow> {
        Seq::new(self.stack_ids@.len(), |i: int| self.row(i))
    }

    /// Takes the dictionary columns out of a decoded batch. `None` when one is missing.
    fn read(batch: &Batch) -> (read: Option<DictBatch>)
        requires
            crate::columns::aligned(crate::columns::batch_columns(*batch)),
        ensures
            match read {
                Some(b) => b.wf() && b.rows() == batch_dict(crate::columns::batch_columns(*batch)),
                None => batch_dict(crate::columns::batch_columns(*batch)).len() == 0,
            },
    {
        let ghost columns = crate::columns::batch_columns(*batch);
        match (binary_column(batch, "stack_id"), list_column(batch, "frames")) {
            (Some(stack_ids), Some(frames)) => {
                let b = DictBatch { stack_ids, frames };
                assert(columns["stack_id"@].rows() == columns["frames"@].rows());
                assert(b.rows() =~= batch_dict(columns));
                Some(b)
            },
            _ => None,
        }
    }
}

/// The rows of a list of sample batches, one batch after the other.
pub open spec fn all_samples(batches: Seq<SampleBatch>) -> Seq<SampleRow>
    decreases batches.len(),
{
    if batches.len() == 0 {
        Seq::empty()
    } else {
        all_samples(batches.drop_last()) + batches.last().rows()
    }
}

/// The rows of a list of dictionary batches, one batch after the other.
pub open spec fn all_dict(batches: Seq<DictBatch>) -> Seq<DictRow>
    decreases batches.len(),
{
    if batches.len() == 0 {
        Seq::empty()
    } else {
        all_dict(batches.drop_last()) + batches.last().rows()
    }
}

/// Decodes a samples part.
///
/// Gives the batches that hold stack ids, up to the first one that cannot be decoded, and the
/// error of that one. Fails when the file cannot be opened.
pub fn decode_samples(data: Vec<u8>) -> (decoded: Result<
    (Vec<SampleBatch>, Option<ArrowError>),
    MergeError,
>)
    requires
        crate::columns::decodes(data@, BATCH_ROWS),
    ensures
        match decoded {
            Ok((batches, fault)) => {
                &&& crate::columns::parquet_file(data@, BATCH_ROWS) matches Some(file)
                &&& all_samples(batches@) == file_samples(file)
                &&& fault is Some == file_faulty(file)
                &&& forall|i: int| 0 <= i < batches@.len() ==> (#[trigger] batches@[i]).wf()
            },
            Err(e) => e is Open && crate::columns::parquet_file(data@, BATCH_ROWS) is None,
        },
{
    match open_parquet(data, BATCH_ROWS) {
        Err(e) => Err(MergeError::Open(e)),
        Ok(opened) => {
            let mut reader = opened;
            let ghost file = crate::columns::pending_batches(reader);
            let mut batches: Vec<SampleBatch> = Vec::new();
            assert(all_samples(batches@) + file_samples(file) =~= file_samples(file));
            loop
                invariant
                    crate::columns::drains(reader),
                    all_samples(batches@) + file_samples(crate::columns::pending_batches(reader))
                        == file_samples(file),
                    file_faulty(crate::columns::pending_batches(reader)) == file_faulty(file),
                    forall|i: int| 0 <= i < batches@.len() ==> (#[trigger] batches@[i]).wf(),
                    crate::columns::parquet_file(data@, BATCH_ROWS) == Some(file),
                decreases crate::columns::pending_batches(reader).len(),
            {
                let ghost pending = crate::columns::pending_batches(reader);
                let ghost done = batches@;
                match next_batch(&mut reader) {
                    None => {
                        assert(all_samples(batches@) =~= file_samples(file));
                        return Ok((batches, None));
                    },
                    Some(Err(e)) => {
                        assert(all_samples(batches@) =~= file_samples(file));
                        return Ok((batches, Some(e)));
                    },
                    Some(Ok(batch)) => {
                        let ghost rest = file_samples(pending.drop_first());
                        match SampleBatch::read(&batch) {
                            Some(b) => {
                                batches.push(b);
                                assert(batches@.drop_last() =~= done);
                                assert(all_samples(batches@) + rest =~= all_samples(done) + (
                                b.rows() + rest));
                            },
                            None => {
                                let ghost none = batch_samples(
                                    crate::columns::batch_columns(batch),
                                );
                                assert(all_samples(done) + rest =~= all_samples(done) + (none
                                    + rest));
                            },
                        }
                    },
                }
            }
        },
    }
}

/// Decodes a dictionary part.
///
/// Gives the batches that hold dictionary columns, up to the first one that cannot be decoded,
/// and the error of that one. Fails when the file cannot be opened.
pub fn decode_dict(data: Vec<u8>) -> (decoded: Result<
    (Vec<DictBatch>, Option<ArrowError>),
    MergeError,
>)
    requires
        crate::columns::decodes(data@, BATCH_ROWS),
    ensures
        match decoded {
            Ok((batches, fault)) => {
                &&& crate::columns::parquet_file(data@, BATCH_ROWS) matches Some(file)
                &&& all_dict(batches@) == file_dict(file)
                &&& fault is Some == file_faulty(file)
                &&& forall|i: int| 0 <= i < batches@.len() ==> (#[trigger] batches@[i]).wf()
            },
            Err(e) => e is Open && crate::columns::parquet_file(data@, BATCH_ROWS) is None,
        },
{
    match open_parquet(data, BATCH_ROWS) {
        Err(e) => Err(MergeError::Open(e)),
        Ok(opened) => {
            let mut reader = opened;
            let ghost file = crate::columns::pending_batches(reader);
            let mut batches: Vec<DictBatch> = Vec::new();
            assert(all_dict(batches@) + file_dict(file) =~= file_dict(file));
            loop
                invariant
                    crate::columns::drains(reader),
                    all_dict(batches@) + file_dict(crate::columns::pending_batches(reader))
                        == file_dict(file),
                    file_faulty(crate::columns::pending_batches(reader)) == file_faulty(file),
                    forall|i: int| 0 <= i < batches@.len() ==> (#[trigger] batches@[i]).wf(),
                    crate::columns::parquet_file(data@, BATCH_ROWS) == Some(file),
                decreases crate::columns::pending_batches(reader).len(),
            {
                let ghost pending = crate::columns::pending_batches(reader);
                let ghost done = batches@;
                match next_batch(&mut reader) {
                    None => {
                        assert(all_dict(batches@) =~= file_dict(file));
                        return Ok((batches, None));
                    },
                    Some(Err(e)) => {
                        assert(all_dict(batches@) =~= file_dict(file));
                        return Ok((batches, Some(e)));
                    },
                    Some(Ok(batch)) => {
                        let ghost rest = file_dict(pending.drop_first());
                        match DictBatch::read(&batch) {
                            Some(b) => {
                                batches.push(b);
                                assert(batches@.drop_last() =~= done);
                                assert(all_dict(batches@) + rest =~= all_dict(done) + (b.rows()
                                    + rest));
                            },
                            None => {
                                let ghost none = batch_dict(crate::columns::batch_columns(batch));
                                assert(all_dict(done) + rest =~= all_dict(done) + (none + rest));
                            },
                        }
                    },
                }
            }
        },
    }
}

} // verus!
