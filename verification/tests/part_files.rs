use std::sync::Arc;

use arrow::array::{
    ArrayRef, FixedSizeBinaryBuilder, Int64Array, Int64Builder, ListBuilder, RecordBatch,
    StringBuilder, UInt32Array, UInt8Array,
};
use parquet::arrow::ArrowWriter;

use dial9_viewer::accum::GraphAccum;
use dial9_viewer::graph::build_module_graph;
use dial9_viewer::samples::{MergeError, SampleBatch};

/// One sample: stack, timestamp, source, worker.
type Sample = (u8, i64, u8, Option<u32>);

fn file(columns: Vec<(&str, ArrayRef)>) -> Vec<u8> {
    let batch = RecordBatch::try_from_iter(columns).unwrap();
    let mut out = Vec::new();
    let mut writer = ArrowWriter::try_new(&mut out, batch.schema(), None).unwrap();
    writer.write(&batch).unwrap();
    writer.close().unwrap();
    out
}

fn ids(width: i32, stacks: &[u8]) -> ArrayRef {
    let mut builder = FixedSizeBinaryBuilder::new(width);
    for s in stacks {
        builder.append_value(vec![*s; width as usize]).unwrap();
    }
    Arc::new(builder.finish())
}

fn samples_file(samples: &[Sample]) -> Vec<u8> {
    let stacks: Vec<u8> = samples.iter().map(|s| s.0).collect();
    let timestamps: Vec<i64> = samples.iter().map(|s| s.1).collect();
    let sources: Vec<u8> = samples.iter().map(|s| s.2).collect();
    let workers: Vec<Option<u32>> = samples.iter().map(|s| s.3).collect();
    // The worker column is nullable in every file, whether or not it holds a null.
    file(vec![
        ("stack_id", ids(16, &stacks)),
        ("timestamp_ns", Arc::new(Int64Array::from(timestamps))),
        ("source", Arc::new(UInt8Array::from(sources))),
        ("worker_id", Arc::new(UInt32Array::from(workers))),
    ])
}

fn frames_column(rows: &[(u8, &[&str])]) -> ArrayRef {
    let mut builder = ListBuilder::new(StringBuilder::new());
    for (_, frames) in rows {
        for frame in *frames {
            builder.values().append_value(frame);
        }
        builder.append(true);
    }
    Arc::new(builder.finish())
}

fn dict_file(rows: &[(u8, &[&str])]) -> Vec<u8> {
    let stacks: Vec<u8> = rows.iter().map(|r| r.0).collect();
    file(vec![
        ("stack_id", ids(16, &stacks)),
        ("frames", frames_column(rows)),
    ])
}

fn tally(accum: &GraphAccum, stack: u8) -> (u64, u64) {
    match accum.stacks.get(&[stack; 16]) {
        Some(t) => (t.total, t.off_cpu),
        None => (0, 0),
    }
}

fn frames(accum: &GraphAccum, stack: u8) -> Vec<String> {
    accum.dict.get(&[stack; 16]).unwrap().clone()
}

fn merged(accum: &mut GraphAccum, samples: Vec<u8>, dict: Option<Vec<u8>>) {
    assert!(matches!(accum.merge(samples, dict), Some(Ok(()))));
}

#[test]
fn samples_are_tallied_by_stack() {
    let mut accum = GraphAccum::default();
    let data = samples_file(&[
        (1, 100, 0, Some(0)),
        (2, 250, 1, Some(3)),
        (1, 90, 1, Some(0)),
        (1, 300, 2, None),
        (2, 120, 0, Some(254)),
        (3, 130, 1, Some(255)),
    ]);
    merged(&mut accum, data, None);
    assert_eq!(tally(&accum, 1), (3, 1));
    assert_eq!(tally(&accum, 2), (2, 1));
    assert_eq!(tally(&accum, 3), (1, 1));
    assert_eq!(tally(&accum, 4), (0, 0));
    assert_eq!(accum.stacks.len(), 3);
    assert_eq!(accum.total_samples, 6);
    assert_eq!(accum.min_ts, Some(90));
    assert_eq!(accum.max_ts, Some(300));
    assert_eq!(accum.time_span_ns(), 210);
    // Null and sentinel workers do not count.
    let mut workers: Vec<u32> = accum.workers.iter().copied().collect();
    workers.sort();
    assert_eq!(workers, vec![0, 3, 254]);
    assert_eq!(accum.worker_count(), 3);
    assert_eq!(accum.dict.len(), 0);
}

#[test]
fn an_empty_accumulator_has_its_defaults() {
    let accum = GraphAccum::default();
    assert_eq!(accum.time_span_ns(), 1);
    assert_eq!(accum.worker_count(), 1);
    assert_eq!(accum.total_samples, 0);
    assert_eq!(accum.min_ts, None);
    assert!(accum.span_fits());
}

#[test]
fn one_instant_spans_one_nanosecond() {
    let mut accum = GraphAccum::default();
    merged(&mut accum, samples_file(&[(1, 42, 0, None), (1, 42, 0, None)]), None);
    assert_eq!(accum.time_span_ns(), 1);
    assert_eq!(accum.worker_count(), 1);
}

#[test]
fn the_widest_time_range_does_not_fit() {
    let mut accum = GraphAccum::default();
    merged(&mut accum, samples_file(&[(1, i64::MIN, 0, None)]), None);
    assert!(accum.span_fits());
    merged(&mut accum, samples_file(&[(1, 0, 0, None)]), None);
    assert!(!accum.span_fits());
    let mut accum = GraphAccum::default();
    merged(&mut accum, samples_file(&[(1, i64::MIN + 1, 0, None), (1, 0, 0, None)]), None);
    assert!(accum.span_fits());
    assert_eq!(accum.time_span_ns(), i64::MAX);
}

#[test]
fn columns_other_than_the_stack_id_may_be_missing() {
    let mut accum = GraphAccum::default();
    merged(&mut accum, file(vec![("stack_id", ids(16, &[5, 5]))]), None);
    assert_eq!(tally(&accum, 5), (2, 0));
    assert_eq!(accum.total_samples, 2);
    assert_eq!(accum.min_ts, None);
    assert!(accum.workers.is_empty());
}

#[test]
fn columns_of_another_type_count_as_missing() {
    let mut accum = GraphAccum::default();
    let columns: Vec<(&str, ArrayRef)> = vec![
        ("stack_id", ids(16, &[5])),
        ("timestamp_ns", Arc::new(UInt32Array::from(vec![9]))),
        ("source", Arc::new(Int64Array::from(vec![1]))),
        ("worker_id", Arc::new(UInt8Array::from(vec![3]))),
    ];
    merged(&mut accum, file(columns), None);
    assert_eq!(tally(&accum, 5), (1, 0));
    assert_eq!(accum.min_ts, None);
    assert!(accum.workers.is_empty());
}

#[test]
fn a_file_without_stack_ids_adds_nothing() {
    let mut accum = GraphAccum::default();
    let columns: Vec<(&str, ArrayRef)> = vec![("timestamp_ns", Arc::new(Int64Array::from(vec![7, 8])))];
    merged(&mut accum, file(columns), None);
    assert_eq!(accum.total_samples, 0);
    assert_eq!(accum.min_ts, None);
}

#[test]
fn a_file_of_many_batches_is_read_in_full() {
    let many: Vec<Sample> = (0..10_000).map(|i| ((i % 7) as u8, i, (i % 2) as u8, Some(1))).collect();
    let mut accum = GraphAccum::default();
    merged(&mut accum, samples_file(&many), None);
    assert_eq!(accum.total_samples, 10_000);
    assert_eq!(accum.stacks.len(), 7);
    let total: u64 = (0..7u8).map(|s| tally(&accum, s).0).sum();
    let off_cpu: u64 = (0..7u8).map(|s| tally(&accum, s).1).sum();
    assert_eq!(total, 10_000);
    assert_eq!(off_cpu, 5_000);
    assert_eq!(accum.max_ts, Some(9_999));
}

#[test]
fn the_first_frames_of_a_stack_stay() {
    let mut accum = GraphAccum::default();
    let dict = dict_file(&[(1, &["svc::api::a"]), (1, &["svc::api::b"]), (2, &[])]);
    assert!(accum.read_dict_part(dict).is_ok());
    assert_eq!(frames(&accum, 1), vec!["svc::api::a".to_string()]);
    assert!(frames(&accum, 2).is_empty());
    let later = dict_file(&[(1, &["svc::api::c"]), (3, &["leaf::mod_a::f", "root::mod_b::g"])]);
    assert!(accum.read_dict_part(later).is_ok());
    assert_eq!(frames(&accum, 1), vec!["svc::api::a".to_string()]);
    assert_eq!(
        frames(&accum, 3),
        vec!["leaf::mod_a::f".to_string(), "root::mod_b::g".to_string()]
    );
    // Only the dictionary changes.
    assert_eq!(accum.total_samples, 0);
    assert_eq!(accum.stacks.len(), 0);
}

#[test]
fn a_dictionary_merges_once() {
    let rows: &[(u8, &[&str])] = &[(1, &["svc::api::a"]), (2, &["svc::db::b"])];
    let mut accum = GraphAccum::default();
    assert!(accum.read_dict_part(dict_file(rows)).is_ok());
    assert!(accum.read_dict_part(dict_file(rows)).is_ok());
    assert_eq!(accum.dict.len(), 2);
    assert_eq!(frames(&accum, 2), vec!["svc::db::b".to_string()]);
}

#[test]
fn dictionary_rows_without_strings_are_skipped() {
    let mut numbers = ListBuilder::new(Int64Builder::new());
    numbers.values().append_value(1);
    numbers.append(true);
    let mut accum = GraphAccum::default();
    let columns: Vec<(&str, ArrayRef)> =
        vec![("stack_id", ids(16, &[1])), ("frames", Arc::new(numbers.finish()))];
    assert!(accum.read_dict_part(file(columns)).is_ok());
    assert_eq!(accum.dict.len(), 0);
    // A dictionary without frames, or without stack ids, adds nothing either.
    assert!(accum.read_dict_part(file(vec![("stack_id", ids(16, &[1]))])).is_ok());
    let rows: &[(u8, &[&str])] = &[(1, &["svc::api::a"])];
    assert!(accum.read_dict_part(file(vec![("frames", frames_column(rows))])).is_ok());
    assert_eq!(accum.dict.len(), 0);
    // Dictionary ids need not have sixteen bytes.
    let short: Vec<(&str, ArrayRef)> = vec![("stack_id", ids(4, &[1])), ("frames", frames_column(rows))];
    assert!(accum.read_dict_part(file(short)).is_ok());
    assert_eq!(accum.dict.get(&[1; 4]).unwrap().len(), 1);
}

#[test]
fn unreadable_files_change_nothing() {
    let mut accum = GraphAccum::default();
    merged(&mut accum, samples_file(&[(1, 5, 0, Some(1))]), None);
    let dict = dict_file(&[(1, &["svc::api::a"])]);
    assert!(matches!(
        accum.merge(b"not a parquet file".to_vec(), Some(dict)),
        Some(Err(MergeError::Open(_)))
    ));
    // The dictionary of a file whose samples cannot be opened is not read.
    assert_eq!(accum.dict.len(), 0);
    assert_eq!(accum.total_samples, 1);
    assert!(matches!(accum.read_dict_part(Vec::new()), Err(MergeError::Open(_))));
    // With readable samples the samples stay, though the dictionary is bad.
    let samples = samples_file(&[(2, 6, 0, Some(1))]);
    assert!(matches!(
        accum.merge(samples, Some(vec![0; 3])),
        Some(Err(MergeError::Open(_)))
    ));
    assert_eq!(accum.total_samples, 2);
}

#[test]
fn bytes_that_are_no_parquet_file_are_certain_to_fail() {
    let mut accum = GraphAccum::default();
    for bytes in [b"".to_vec(), b"PAR1".to_vec(), b"0000PAR2".to_vec(), b"PAR1....".to_vec()] {
        assert!(matches!(
            accum.merge_if_certain(bytes, None),
            Ok(Some(Err(MergeError::Open(_))))
        ));
    }
    for bytes in [b"\0\0\0\0PAR1".to_vec(), b"\0\0\0\0PARE".to_vec(), samples_file(&[(1, 5, 0, None)])] {
        let (samples, dict) = accum.merge_if_certain(bytes.clone(), Some(vec![1])).err().unwrap();
        assert_eq!(samples, bytes);
        assert_eq!(dict, Some(vec![1]));
    }
    assert_eq!(accum.total_samples, 0);
}

#[test]
fn undecodable_pages_are_an_error() {
    let many: Vec<Sample> = (0..6000).map(|i| ((i % 251) as u8, i, 0, Some(1))).collect();
    let mut data = samples_file(&many);
    // The footer stays; the pages behind the magic number are overwritten.
    for byte in data.iter_mut().skip(4).take(64) {
        *byte = 0xff;
    }
    let mut accum = GraphAccum::default();
    assert!(matches!(accum.merge(data, None), Some(Err(MergeError::Batch(_)))));
    assert_eq!(accum.total_samples, 0);
}

#[test]
fn stack_ids_of_another_length_cannot_be_merged() {
    let mut accum = GraphAccum::default();
    assert!(accum.merge(file(vec![("stack_id", ids(8, &[1]))]), None).is_none());
    assert_eq!(accum.total_samples, 0);
    assert_eq!(accum.stacks.len(), 0);
    // Without rows there is no such id.
    assert!(matches!(
        accum.merge(file(vec![("stack_id", ids(8, &[]))]), None),
        Some(Ok(()))
    ));
}

#[test]
fn samples_beyond_the_range_cannot_be_taken() {
    let batch = |stack: Vec<u8>| SampleBatch {
        stack_ids: vec![stack],
        timestamps: None,
        sources: None,
        workers: None,
    };
    let mut accum = GraphAccum::default();
    accum.total_samples = u64::MAX - 1;
    assert!(accum.can_take_all(&Vec::new()));
    assert!(accum.can_take_all(&vec![batch(vec![1; 16])]));
    assert!(!accum.can_take_all(&vec![batch(vec![1; 16]), batch(vec![2; 16])]));
    assert!(!accum.can_take_all(&vec![batch(vec![1; 15])]));
}

#[test]
fn samples_can_be_merged_in_any_order() {
    let mut rows: Vec<Sample> = vec![
        (1, 30, 0, Some(1)),
        (2, 10, 1, Some(2)),
        (1, 20, 1, None),
        (3, 40, 0, Some(255)),
    ];
    let mut one = GraphAccum::default();
    merged(&mut one, samples_file(&rows), None);
    rows.reverse();
    rows.swap(0, 2);
    let mut other = GraphAccum::default();
    merged(&mut other, samples_file(&rows), None);
    for stack in 0..5 {
        assert_eq!(tally(&one, stack), tally(&other, stack));
    }
    assert_eq!(one.workers, other.workers);
    assert_eq!((one.min_ts, one.max_ts), (other.min_ts, other.max_ts));
    assert_eq!(one.total_samples, other.total_samples);
}

#[test]
fn files_can_be_merged_in_either_order() {
    let a = samples_file(&[(1, 10, 0, Some(1)), (2, 40, 1, Some(2))]);
    let b = samples_file(&[(2, 5, 1, Some(2)), (3, 30, 0, Some(7))]);
    let da = dict_file(&[(1, &["svc::api::a"]), (2, &["svc::db::b", "svc::api::a"])]);
    let db = dict_file(&[(3, &["svc::jobs::c"]), (2, &["svc::db::b", "svc::api::a"])]);
    let mut one = GraphAccum::default();
    merged(&mut one, a.clone(), Some(da.clone()));
    merged(&mut one, b.clone(), Some(db.clone()));
    let mut other = GraphAccum::default();
    merged(&mut other, b, Some(db));
    merged(&mut other, a, Some(da));
    for stack in 0..5 {
        assert_eq!(tally(&one, stack), tally(&other, stack));
    }
    assert_eq!(one.total_samples, other.total_samples);
    assert_eq!(one.workers, other.workers);
    assert_eq!((one.min_ts, one.max_ts), (Some(5), Some(40)));
    assert_eq!((other.min_ts, other.max_ts), (Some(5), Some(40)));
    let app = one.infer_app_prefixes();
    assert_eq!(app, other.infer_app_prefixes());
    let (nodes, edges) = build_module_graph(&one, &app);
    let (other_nodes, other_edges) = build_module_graph(&other, &app);
    assert_eq!(
        nodes.iter().map(|n| (&n.id, n.samples, n.off_cpu)).collect::<Vec<_>>(),
        other_nodes.iter().map(|n| (&n.id, n.samples, n.off_cpu)).collect::<Vec<_>>()
    );
    assert_eq!(edges.len(), 1);
    assert_eq!(other_edges.len(), 1);
    assert_eq!(edges[0].count, 2);
}

/// End to end: part-files in, graph out.
#[test]
fn a_graph_from_part_files() {
    let samples = samples_file(&[
        (1, 1_000, 0, Some(0)),
        (1, 2_000, 1, Some(1)),
        (2, 3_000, 0, Some(0)),
        (9, 4_000, 0, Some(0)),
    ]);
    let dict = dict_file(&[
        (1, &["std::sys::futex", "tokio::park::wait", "svc::routes::handle"]),
        (2, &["svc::store::put", "svc::routes::handle", "std::rt::start"]),
    ]);
    let mut accum = GraphAccum::default();
    merged(&mut accum, samples, Some(dict));
    let app = accum.infer_app_prefixes();
    assert_eq!(app, vec!["svc".to_string()]);
    let (nodes, edges) = build_module_graph(&accum, &app);
    let listed: Vec<(&str, u64, u64)> =
        nodes.iter().map(|n| (n.id.as_str(), n.samples, n.off_cpu)).collect();
    assert_eq!(
        listed,
        vec![("runtime", 3, 1), ("svc::routes", 3, 1), ("svc::store", 1, 0)]
    );
    let mut taken: Vec<(&str, &str, u64)> =
        edges.iter().map(|e| (e.source.as_str(), e.target.as_str(), e.count)).collect();
    assert_eq!(taken[0], ("svc::routes", "runtime", 2));
    taken.sort();
    assert_eq!(
        taken,
        vec![
            ("runtime", "svc::routes", 1),
            ("svc::routes", "runtime", 2),
            ("svc::routes", "svc::store", 1),
        ]
    );
}
