use std::sync::Arc;

use arrow::array::{
    ArrayRef, FixedSizeBinaryBuilder, Int64Array, ListBuilder, RecordBatch, StringBuilder,
};
use parquet::arrow::ArrowWriter;

use dial9_viewer::accum::{GraphAccum, StackTally};
use dial9_viewer::request::{
    metric_counts, plan_resolution, require_matches, HttpError, StreamCtx, TraceGraphParams,
};
use dial9_viewer::samples::MergeError;
use dial9_viewer::snapshot::{applied_prefixes, snapshot, time_range, FoldErrors, Progress};
use dial9_viewer::stream::{
    advance, advance_if_certain, Arrival, FoldState, FoldedParts, MergeWarning, Phase, Step,
};

fn file(columns: Vec<(&str, ArrayRef)>) -> Vec<u8> {
    let batch = RecordBatch::try_from_iter(columns).unwrap();
    let mut out = Vec::new();
    let mut writer = ArrowWriter::try_new(&mut out, batch.schema(), None).unwrap();
    writer.write(&batch).unwrap();
    writer.close().unwrap();
    out
}

fn ids(width: i32, stacks: &[u8]) -> ArrayRef {
    let mut builder = FixedSizeBinaryBuilder::new(width);
    for s in stacks {
        builder.append_value(vec![*s; width as usize]).unwrap();
    }
    Arc::new(builder.finish())
}

/// The parts of a file with one sample per stack at these timestamps, all through one frame.
fn parts(stacks: &[u8], timestamps: &[i64], frame: &str) -> FoldedParts {
    let samples = file(vec![
        ("stack_id", ids(16, stacks)),
        ("timestamp_ns", Arc::new(Int64Array::from(timestamps.to_vec()))),
    ]);
    let mut frames = ListBuilder::new(StringBuilder::new());
    for _ in stacks {
        frames.values().append_value(frame);
        frames.append(true);
    }
    let dict = file(vec![
        ("stack_id", ids(16, stacks)),
        ("frames", Arc::new(frames.finish())),
    ]);
    FoldedParts {
        samples,
        dict: Some(dict),
    }
}

fn broken() -> FoldedParts {
    FoldedParts {
        samples: vec![1, 2, 3],
        dict: None,
    }
}

fn strings(texts: &[&str]) -> Vec<String> {
    texts.iter().map(|t| t.to_string()).collect()
}

fn emitted(step: Step) -> (FoldState, Vec<MergeWarning>) {
    match step {
        Step::Emit { state, warnings } => (state, warnings),
        _ => panic!("no snapshot"),
    }
}

fn params() -> TraceGraphParams {
    TraceGraphParams {
        service: Some("checkout".to_string()),
        from: Some("10:00".to_string()),
        to: Some("11:00".to_string()),
        host: strings(&["a", "b"]),
        start_ns: Some(-5),
        end_ns: None,
        max_files: Some(12),
        bucket: None,
        prefix: None,
        app_prefix: strings(&["svc"]),
        requests: Some(40),
    }
}

#[test]
fn a_stream_folds_file_by_file() {
    let seed = vec![parts(&[1], &[10], "svc::api::get"), broken(), parts(&[2], &[30], "svc::db::put")];
    let (state, warnings) = emitted(advance(
        Phase::Start,
        Arrival::Seed { parts: seed, folded: strings(&["b", "a", "b"]) },
    ));
    // A part that cannot be read is reported, and the rest is merged.
    assert_eq!(warnings.len(), 1);
    assert_eq!(warnings[0].message, "trace-graph: seed merge failed");
    assert!(matches!(warnings[0].error, MergeError::Open(_)));
    assert_eq!(state.accum.total_samples, 2);
    assert_eq!(state.accum.dict.len(), 2);
    assert_eq!(state.folded, strings(&["a", "b"]));
    assert_eq!(state.errors.count, 0);
    assert_eq!(state.errors.sample, None);

    let part = Some(parts(&[1, 3], &[5, 50], "svc::jobs::run"));
    let (state, warnings) = emitted(advance(
        Phase::Folding(state),
        Arrival::Folded { part, leaf: "aa".to_string() },
    ));
    assert!(warnings.is_empty());
    assert_eq!(state.accum.total_samples, 4);
    assert_eq!((state.accum.min_ts, state.accum.max_ts), (Some(5), Some(50)));
    assert_eq!(state.folded, strings(&["a", "aa", "b"]));
    // The frames first given for a stack stay.
    assert_eq!(state.accum.dict.get(&[1; 16]).unwrap()[0], "svc::api::get");

    let (state, warnings) = emitted(advance(
        Phase::Folding(state),
        Arrival::Folded { part: Some(broken()), leaf: "c".to_string() },
    ));
    // The file counts as folded all the same.
    assert_eq!(warnings.len(), 1);
    assert_eq!(warnings[0].message, "trace-graph: merge failed");
    assert_eq!(state.accum.total_samples, 4);
    assert_eq!(state.folded, strings(&["a", "aa", "b", "c"]));

    let (state, warnings) = emitted(advance(
        Phase::Folding(state),
        Arrival::Folded { part: None, leaf: "c".to_string() },
    ));
    assert!(warnings.is_empty());
    assert_eq!(state.accum.total_samples, 4);
    assert_eq!(state.folded.len(), 4);

    let errors = FoldErrors { count: 1, sample: Some("d: gone".to_string()) };
    let (state, warnings) = emitted(advance(Phase::Folding(state), Arrival::Failed { errors }));
    assert!(warnings.is_empty());
    assert_eq!(state.errors.count, 1);
    assert_eq!(state.errors.sample.as_deref(), Some("d: gone"));
    assert_eq!(state.accum.total_samples, 4);
    assert_eq!(state.folded.len(), 4);

    assert!(matches!(advance(Phase::Folding(state), Arrival::Exhausted), Step::End));
}

#[test]
fn a_part_that_cannot_be_taken_stops_the_stream() {
    let bad = FoldedParts {
        samples: file(vec![("stack_id", ids(8, &[1]))]),
        dict: None,
    };
    assert!(matches!(
        advance(Phase::Start, Arrival::Seed { parts: vec![bad], folded: Vec::new() }),
        Step::Unmergeable
    ));
    let (state, _) = emitted(advance(
        Phase::Start,
        Arrival::Seed { parts: Vec::new(), folded: Vec::new() },
    ));
    assert_eq!(state.accum.total_samples, 0);
    let bad = FoldedParts {
        samples: file(vec![("stack_id", ids(8, &[1]))]),
        dict: None,
    };
    assert!(matches!(
        advance(
            Phase::Folding(state),
            Arrival::Folded { part: Some(bad), leaf: "x".to_string() }
        ),
        Step::Unmergeable
    ));
}

#[test]
fn only_what_is_certain_to_be_decoded_is_taken() {
    // Bytes without the end of a Parquet file are merged, to an error.
    let step = advance_if_certain(
        Phase::Start,
        Arrival::Seed { parts: vec![broken(), broken()], folded: strings(&["a"]) },
    );
    let (state, warnings) = emitted(step.ok().unwrap());
    assert_eq!(warnings.len(), 2);
    assert_eq!(state.folded, strings(&["a"]));
    let step = advance_if_certain(
        Phase::Folding(state),
        Arrival::Folded { part: Some(broken()), leaf: "b".to_string() },
    );
    let (state, warnings) = emitted(step.ok().unwrap());
    assert_eq!(warnings.len(), 1);
    assert_eq!(state.folded, strings(&["a", "b"]));
    // A Parquet file is handed back with everything else as it came.
    let part = parts(&[1], &[10], "svc::api::get");
    let bytes = part.samples.clone();
    let back = advance_if_certain(
        Phase::Folding(state),
        Arrival::Folded { part: Some(part), leaf: "c".to_string() },
    );
    match back.err().unwrap() {
        (Phase::Folding(state), Arrival::Folded { part: Some(part), leaf }) => {
            assert_eq!(state.folded, strings(&["a", "b"]));
            assert_eq!(part.samples, bytes);
            assert_eq!(leaf, "c");
        }
        _ => panic!("something else came back"),
    }
    let mixed = vec![broken(), parts(&[1], &[10], "svc::api::get")];
    assert!(advance_if_certain(Phase::Start, Arrival::Seed { parts: mixed, folded: Vec::new() }).is_err());
    // Nothing to decode is certain.
    let step = advance_if_certain(Phase::Start, Arrival::Seed { parts: Vec::new(), folded: Vec::new() });
    let (state, _) = emitted(step.ok().unwrap());
    assert!(matches!(advance_if_certain(Phase::Folding(state), Arrival::Exhausted), Ok(Step::End)));
}

#[test]
fn later_snapshots_keep_earlier_nodes() {
    let ctx = StreamCtx::new(&params());
    let progress = Progress { files_matched: 2, files_folded: 1, total_bytes: 9, hosts_matched: 1, hosts_folded: 1 };
    let (state, _) = emitted(advance(
        Phase::Start,
        Arrival::Seed { parts: vec![parts(&[1], &[10], "svc::api::get")], folded: Vec::new() },
    ));
    let first = snapshot(&ctx, &state.accum, &progress, &state.errors).unwrap();
    let (state, _) = emitted(advance(
        Phase::Folding(state),
        Arrival::Folded { part: Some(parts(&[2, 1], &[11, 12], "svc::db::put")), leaf: "x".to_string() },
    ));
    let second = snapshot(&ctx, &state.accum, &progress, &state.errors).unwrap();
    assert_eq!(first.nodes.len(), 1);
    assert_eq!(second.nodes.len(), 2);
    for node in &first.nodes {
        let later = second.nodes.iter().find(|n| n.id == node.id).unwrap();
        assert!(node.samples <= later.samples);
    }
    assert_eq!(second.nodes[0].id, "svc::api");
    assert_eq!(second.nodes[0].samples, 2);
}

#[test]
fn a_snapshot_reports_graph_meta_and_coverage() {
    let ctx = StreamCtx::new(&params());
    let mut accum = GraphAccum::default();
    accum.dict.insert(vec![1; 16], strings(&["std::sys::futex", "svc::api::get"]));
    accum.stacks.insert(vec![1; 16], StackTally { total: 8, off_cpu: 3 });
    accum.total_samples = 8;
    accum.min_ts = Some(100);
    accum.max_ts = Some(350);
    accum.workers.insert(4);
    accum.workers.insert(6);
    let progress = Progress { files_matched: 7, files_folded: 5, total_bytes: 900, hosts_matched: 3, hosts_folded: 2 };
    let errors = FoldErrors { count: 2, sample: Some("key: bad".to_string()) };
    let response = snapshot(&ctx, &accum, &progress, &errors).unwrap();
    assert_eq!(response.nodes.len(), 2);
    assert_eq!(response.nodes[0].id, "runtime");
    assert_eq!(response.nodes[1].off_cpu, 3);
    assert_eq!(response.edges.len(), 1);
    assert_eq!(response.edges[0].source, "svc::api");
    assert_eq!(response.meta.total_samples, 8);
    assert_eq!(response.meta.worker_count, 2);
    assert_eq!(response.meta.time_span_ns, 250);
    assert_eq!(response.meta.requests, 40);
    assert_eq!(response.meta.service.as_deref(), Some("checkout"));
    assert_eq!(response.meta.time_range.as_deref(), Some("10:00\u{2013}11:00"));
    assert_eq!(response.meta.app_prefixes, strings(&["svc"]));
    let coverage = response.coverage.unwrap();
    assert_eq!(coverage.files_matched, 7);
    assert_eq!(coverage.files_folded, 5);
    assert_eq!(coverage.samples_folded, 8);
    assert_eq!(coverage.total_bytes, 900);
    assert_eq!(coverage.hosts_matched, 3);
    assert_eq!(coverage.hosts_folded, 2);
    assert_eq!(coverage.fold_errors, 2);
    assert_eq!(coverage.fold_error_sample.as_deref(), Some("key: bad"));
}

#[test]
fn prefixes_are_inferred_when_none_is_supplied() {
    let mut accum = GraphAccum::default();
    accum.dict.insert(vec![1; 16], strings(&["std::sys::futex", "svc::api::get"]));
    accum.stacks.insert(vec![1; 16], StackTally { total: 1, off_cpu: 0 });
    assert_eq!(applied_prefixes(&Vec::new(), &accum), strings(&["svc"]));
    assert_eq!(applied_prefixes(&strings(&["zz", "aa"]), &accum), strings(&["zz", "aa"]));
    let ctx = StreamCtx::new(&TraceGraphParams { app_prefix: Vec::new(), ..params() });
    let progress = Progress { files_matched: 0, files_folded: 0, total_bytes: 0, hosts_matched: 0, hosts_folded: 0 };
    let errors = FoldErrors { count: 0, sample: None };
    let response = snapshot(&ctx, &accum, &progress, &errors).unwrap();
    assert_eq!(response.meta.app_prefixes, strings(&["svc"]));
    assert!(response.nodes.iter().any(|n| n.id == "svc::api"));
    assert_eq!(response.meta.worker_count, 1);
    assert_eq!(response.meta.time_span_ns, 1);
}

#[test]
fn figures_beyond_the_range_give_no_snapshot() {
    let ctx = StreamCtx::new(&params());
    let progress = Progress { files_matched: 0, files_folded: 0, total_bytes: 0, hosts_matched: 0, hosts_folded: 0 };
    let errors = FoldErrors { count: 0, sample: None };
    let mut accum = GraphAccum::default();
    accum.min_ts = Some(i64::MIN);
    accum.max_ts = Some(i64::MAX);
    assert!(snapshot(&ctx, &accum, &progress, &errors).is_none());
    accum.min_ts = Some(0);
    assert_eq!(
        snapshot(&ctx, &accum, &progress, &errors).unwrap().meta.time_span_ns,
        i64::MAX
    );
    accum.dict.insert(vec![1; 16], strings(&["do_futex"]));
    accum.dict.insert(vec![2; 16], strings(&["do_futex"]));
    accum.stacks.insert(vec![1; 16], StackTally { total: u64::MAX, off_cpu: 0 });
    accum.stacks.insert(vec![2; 16], StackTally { total: 1, off_cpu: 0 });
    assert!(snapshot(&ctx, &accum, &progress, &errors).is_none());
}

#[test]
fn a_time_range_needs_both_ends() {
    let some = |s: &str| Some(s.to_string());
    assert_eq!(time_range(&some("a"), &some("b")).as_deref(), Some("a\u{2013}b"));
    assert_eq!(time_range(&some(""), &some("")).as_deref(), Some("\u{2013}"));
    assert_eq!(time_range(&some("a"), &None), None);
    assert_eq!(time_range(&None, &some("b")), None);
    assert_eq!(time_range(&None, &None), None);
}

#[test]
fn the_request_divisor_is_at_least_one() {
    let divisor = |requests| StreamCtx::new(&TraceGraphParams { requests, ..params() }).requests;
    assert_eq!(divisor(None), 1);
    assert_eq!(divisor(Some(0)), 1);
    assert_eq!(divisor(Some(1)), 1);
    assert_eq!(divisor(Some(u64::MAX)), u64::MAX);
    let ctx = StreamCtx::new(&params());
    assert_eq!(ctx.app_prefixes, strings(&["svc"]));
    assert_eq!(ctx.service.as_deref(), Some("checkout"));
    assert_eq!(ctx.from.as_deref(), Some("10:00"));
    assert_eq!(ctx.to.as_deref(), Some("11:00"));
}

#[test]
fn a_request_asks_for_its_scope() {
    let (context, scope, opts) = plan_resolution(Some("ctx"), &params()).unwrap();
    assert_eq!(context, "ctx");
    assert_eq!(scope.start_ns, Some(-5));
    assert_eq!(scope.end_ns, None);
    assert_eq!(scope.service.as_deref(), Some("checkout"));
    assert_eq!(scope.hosts, strings(&["a", "b"]));
    assert_eq!(opts.max_files, Some(12));
}

#[test]
fn requests_without_a_context_or_files_are_refused() {
    let refused = plan_resolution::<u8>(None, &params()).err().unwrap();
    assert_eq!(
        refused,
        HttpError {
            status: 404,
            message:
                "trace-graph requires demand-driven aggregation (start with --agg or supply a bucket)"
                    .to_string(),
        }
    );
    assert_eq!(require_matches(Some(3)), Ok(3));
    assert_eq!(
        require_matches::<u8>(None),
        Err(HttpError {
            status: 404,
            message: "no source files match this scope".to_string(),
        })
    );
}

#[test]
fn metrics_keep_the_low_bits() {
    assert_eq!(metric_counts(3, 2), (3, 2));
    assert_eq!(metric_counts(0x1_0000_0005, 0xffff_ffff), (5, 0xffff_ffff));
}
