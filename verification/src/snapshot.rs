//! Full-graph snapshots: what each event of a trace-graph stream carries.
use vstd::prelude::*;

use crate::accum::GraphAccum;
use crate::graph::{checked_module_graph, GraphEdge, GraphNode};
use crate::request::StreamCtx;
use crate::text::{copy_opt, copy_texts};

verus! {

/// One snapshot of the graph.
pub struct TraceGraphResponse {
    pub nodes: Vec<GraphNode>,
    pub edges: Vec<GraphEdge>,
    pub meta: GraphMeta,
    pub coverage: Option<Coverage>,
}

/// What the figures of a snapshot are relative to.
pub struct GraphMeta {
    pub total_samples: u64,
    /// Distinct workers that produced samples: the concurrency multiplier in the wall-clock
    /// sample model the client uses to convert samples to ms.
    pub worker_count: u64,
    /// Wall-clock span of the folded samples (ns), for the ms conversion.
    pub time_span_ns: i64,
    /// Request divisor echoed back (1 when none supplied: per-module wall-time).
    pub requests: u64,
    pub service: Option<String>,
    pub time_range: Option<String>,
    /// The application-crate prefixes actually applied (echoed so the UI can show what counted
    /// as "app" vs collapsed runtime).
    pub app_prefixes: Vec<String>,
}

/// How much of the scope a snapshot covers.
pub struct Coverage {
    pub files_matched: usize,
    pub files_folded: usize,
    pub samples_folded: usize,
    pub total_bytes: u64,
    pub hosts_matched: usize,
    pub hosts_folded: usize,
    pub fold_errors: usize,
    pub fold_error_sample: Option<String>,
}

/// How far the folding has come.
#[derive(Clone, Copy)]
pub struct Progress {
    pub files_matched: usize,
    pub files_folded: usize,
    pub total_bytes: u64,
    pub hosts_matched: usize,
    pub hosts_folded: usize,
}

/// The files that failed to fold: how many, and one of the errors.
pub struct FoldErrors {
    pub count: usize,
    pub sample: Option<String>,
}

/// The prefixes are those inferred from the folded frames, sorted.
pub open spec fn are_inferred(
    prefixes: Seq<Seq<char>>,
    dict: Map<Seq<u8>, Seq<Seq<char>>>,
) -> bool {
    &&& crate::text_set::ascending_texts(prefixes)
    &&& forall|name: Seq<char>|
        #![trigger prefixes.contains(name)]
        prefixes.contains(name) <==> crate::accum::inferred_app(dict, name)
}

/// The prefixes that apply: the supplied ones, or the inferred ones when none was supplied.
pub open spec fn are_applied(
    prefixes: Seq<Seq<char>>,
    supplied: Seq<Seq<char>>,
    dict: Map<Seq<u8>, Seq<Seq<char>>>,
) -> bool {
    if supplied.len() == 0 {
        are_inferred(prefixes, dict)
    } else {
        prefixes == supplied
    }
}

/// Which prefixes apply is determined.
pub proof fn applied_prefixes_are_unique(
    a: Seq<Seq<char>>,
    b: Seq<Seq<char>>,
    supplied: Seq<Seq<char>>,
    dict: Map<Seq<u8>, Seq<Seq<char>>>,
)
    requires
        are_applied(a, supplied, dict),
        are_applied(b, supplied, dict),
    ensures
        a == b,
{
    if supplied.len() == 0 {
        assert forall|t: Seq<char>| #![trigger a.contains(t)] a.contains(t) <==> b.contains(t) by {
            assert(b.contains(t) <==> crate::accum::inferred_app(dict, t));
        }
        crate::text_set::sorted_list_is_unique(a, b);
    }
}

/// The two ends of the requested time range, joined by an en dash; none when either is missing.
pub open spec fn range_text(from: Option<Seq<char>>, to: Option<Seq<char>>) -> Option<Seq<char>> {
    match (from, to) {
        (Some(f), Some(t)) => Some(f + seq!['\u{2013}'] + t),
        _ => None,
    }
}

/// All figures of the snapshot are within the machine's range.
pub open spec fn snapshot_fits(accum: crate::accum::AccumView, prefixes: Seq<Seq<char>>) -> bool {
    &&& crate::graph::graph_fits(accum, prefixes)
    &&& crate::accum::time_span(accum.min_ts, accum.max_ts) <= i64::MAX
}

/// The metadata of a snapshot.
pub open spec fn is_meta(
    meta: GraphMeta,
    ctx: StreamCtx,
    accum: crate::accum::AccumView,
) -> bool {
    &&& meta.total_samples == accum.total_samples
    &&& meta.worker_count == crate::accum::worker_count(accum.workers)
    &&& meta.time_span_ns == crate::accum::time_span(accum.min_ts, accum.max_ts)
    &&& meta.requests == ctx.requests
    &&& crate::text::opt_text(meta.service) == crate::text::opt_text(ctx.service)
    &&& crate::text::opt_text(meta.time_range) == range_text(
        crate::text::opt_text(ctx.from),
        crate::text::opt_text(ctx.to),
    )
    &&& are_applied(
        crate::columns::texts(meta.app_prefixes@),
        crate::columns::texts(ctx.app_prefixes@),
        accum.dict,
    )
}

/// The coverage of a snapshot.
pub open spec fn is_coverage(
    coverage: Coverage,
    accum: crate::accum::AccumView,
    progress: Progress,
    errors: FoldErrors,
) -> bool {
    &&& coverage.files_matched == progress.files_matched
    &&& coverage.files_folded == progress.files_folded
    &&& coverage.samples_folded == accum.total_samples as usize
    &&& coverage.total_bytes == progress.total_bytes
    &&& coverage.hosts_matched == progress.hosts_matched
    &&& coverage.hosts_folded == progress.hosts_folded
    &&& coverage.fold_errors == errors.count
    &&& crate::text::opt_text(coverage.fold_error_sample) == crate::text::opt_text(errors.sample)
}

/// What a snapshot holds: the graph under the applied prefixes, with its metadata and coverage.
pub open spec fn is_snapshot(
    response: TraceGraphResponse,
    ctx: StreamCtx,
    accum: crate::accum::AccumView,
    progress: Progress,
    errors: FoldErrors,
) -> bool {
    let prefixes = crate::columns::texts(response.meta.app_prefixes@);
    &&& crate::graph::is_node_list(crate::graph::node_views(response.nodes@), accum, prefixes)
    &&& crate::graph::is_edge_list(crate::graph::edge_views(response.edges@), accum, prefixes)
    &&& is_meta(response.meta, ctx, accum)
    &&& response.coverage matches Some(coverage)
    &&& is_coverage(coverage, accum, progress, errors)
}

/// The two ends of a time range as one text.
pub fn time_range(from: &Option<String>, to: &Option<String>) -> (range: Option<String>)
    ensures
        crate::text::opt_text(range) == range_text(
            crate::text::opt_text(*from),
            crate::text::opt_text(*to),
        ),
{
    match (from, to) {
        (Some(f), Some(t)) => {
            let dash = "\u{2013}";
            proof {
                reveal_strlit("\u{2013}");
                assert(dash@ =~= seq!['\u{2013}']);
            }
            let mut range = f.clone();
            range.append(dash);
            range.append(t.as_str());
            Some(range)
        },
        _ => None,
    }
}

/// The application-crate prefixes that apply: the caller's, or else those inferred from the
/// folded frames, so that the graph is a service graph even without the parameter.
pub fn applied_prefixes(supplied: &Vec<String>, accum: &GraphAccum) -> (prefixes: Vec<String>)
    requires
        accum.dict.wf(),
    ensures
        are_applied(
            crate::columns::texts(prefixes@),
            crate::columns::texts(supplied@),
            accum@.dict,
        ),
{
    if supplied.len() == 0 {
        accum.infer_app_prefixes()
    } else {
        copy_texts(supplied)
    }
}

/// A snapshot of the accumulated graph.
///
/// `None` when a weight of the graph is out of the range of `u64`, or the time span out of that
/// of `i64`.
pub fn snapshot(
    ctx: &StreamCtx,
    accum: &GraphAccum,
    progress: &Progress,
    errors: &FoldErrors,
) -> (response: Option<TraceGraphResponse>)
    requires
        accum.stacks.wf(),
        accum.dict.wf(),
    ensures
        match response {
            Some(response) => {
                &&& is_snapshot(response, *ctx, accum@, *progress, *errors)
                &&& snapshot_fits(accum@, crate::columns::texts(response.meta.app_prefixes@))
            },
            None => exists|prefixes: Seq<Seq<char>>| #[trigger]
                are_applied(prefixes, crate::columns::texts(ctx.app_prefixes@), accum@.dict)
                    && !snapshot_fits(accum@, prefixes),
        },
{
    let app_prefixes = applied_prefixes(&ctx.app_prefixes, accum);
    let (nodes, edges) = match checked_module_graph(accum, app_prefixes.as_slice()) {
        Some(graph) => graph,
        None => {
            return None;
        },
    };
    if !accum.span_fits() {
        return None;
    }
    let coverage = Coverage {
        files_matched: progress.files_matched,
        files_folded: progress.files_folded,
        samples_folded: #[verifier::truncate]
        (accum.total_samples as usize),
        total_bytes: progress.total_bytes,
        hosts_matched: progress.hosts_matched,
        hosts_folded: progress.hosts_folded,
        fold_errors: errors.count,
        fold_error_sample: copy_opt(&errors.sample),
    };
    let meta = GraphMeta {
        total_samples: accum.total_samples,
        worker_count: accum.worker_count(),
        time_span_ns: accum.time_span_ns(),
        requests: ctx.requests,
        service: copy_opt(&ctx.service),
        time_range: time_range(&ctx.from, &ctx.to),
        app_prefixes,
    };
    Some(TraceGraphResponse { nodes, edges, meta, coverage: Some(coverage) })
}

} // verus!
