//! What requests come to: what is asked for, what is answered, and who answers.
use std::sync::Arc;

use vstd::prelude::*;

use crate::credentials::{CredSource, MaybeCreds, TempCredentials};
use crate::request::{HttpError, RefineOpts, Scope, StreamCtx, TraceGraphParams};
use crate::samples::MergeError;
use crate::snapshot::{Coverage, FoldErrors, GraphMeta, Progress, TraceGraphResponse};
use crate::state::{AggContext, AggStep, AppState, Resolution};
use crate::stream::{Arrival, FoldState, FoldedParts, MergeWarning, Phase, Step};

verus! {

/// The window that is resolved is the window that was asked for: an instant is not before the
/// scope's start exactly when it is not before the request's, and before the scope's end exactly
/// when it is before the request's; where the request names no start or no end, nothing is cut off
/// there.
pub proof fn the_window_is_the_requested_one(
    params: TraceGraphParams,
    scope: Scope,
    opts: RefineOpts,
    t: i64,
)
    requires
        crate::request::asks_for(params, scope, opts),
    ensures
        match (params.start_ns, scope.start_ns) {
            (Some(asked), Some(start)) => (start <= t <==> asked <= t) && start == asked,
            (None, None) => true,
            _ => false,
        },
        match (params.end_ns, scope.end_ns) {
            (Some(asked), Some(end)) => (t < end <==> t < asked) && end == asked,
            (None, None) => true,
            _ => false,
        },
{
}

/// The files that are resolved are those of the requested service and hosts, all of them and in
/// their order, up to the requested ceiling.
pub proof fn the_scope_names_the_requested_files(
    params: TraceGraphParams,
    scope: Scope,
    opts: RefineOpts,
)
    requires
        crate::request::asks_for(params, scope, opts),
    ensures
        match (params.service, scope.service) {
            (Some(asked), Some(service)) => service@ == asked@,
            (None, None) => true,
            _ => false,
        },
        scope.hosts@.len() == params.host@.len(),
        forall|i: int|
            0 <= i < params.host@.len() ==> (#[trigger] scope.hosts@[i])@ == params.host@[i]@,
        match (params.max_files, opts.max_files) {
            (Some(asked), Some(ceiling)) => ceiling == asked,
            (None, None) => true,
            _ => false,
        },
{
    crate::part_laws::texts_are_the_strings(scope.hosts@);
    crate::part_laws::texts_are_the_strings(params.host@);
    assert forall|i: int| 0 <= i < params.host@.len() implies (#[trigger] scope.hosts@[i])@
        == params.host@[i]@ by {
        assert(crate::columns::texts(scope.hosts@)[i] == crate::columns::texts(params.host@)[i]);
    }
}

/// A count of requests divides as it is, and anything less than one divides as one.
pub proof fn the_divisor_is_the_count_or_one(n: u64)
    ensures
        n > 0 ==> crate::request::divisor(Some(n)) == n,
        crate::request::divisor(Some(0)) == 1,
        crate::request::divisor(None) == 1,
{
}

/// A refusal says what its status and its body say.
pub proof fn a_refusal_says_its_status_and_body(
    error: HttpError,
    status: u16,
    message: Seq<char>,
)
    ensures
        error.says(status, message) <==> error.status == status && error.message@ == message,
{
}

/// A copy of an optional text is there exactly when the text is, and reads the same.
pub proof fn optional_texts_read_the_same(a: Option<String>, b: Option<String>)
    ensures
        crate::text::opt_text(a) == crate::text::opt_text(b) <==> match (a, b) {
            (Some(x), Some(y)) => x@ == y@,
            (None, None) => true,
            _ => false,
        },
{
}

/// The range text begins with the one end, goes on with one en dash, and ends with the other; and
/// there is none where an end is missing.
pub proof fn a_range_names_both_ends(from: Seq<char>, to: Seq<char>)
    ensures
        crate::snapshot::range_text(Some(from), Some(to)) matches Some(range) && {
            &&& range.len() == from.len() + 1 + to.len()
            &&& forall|i: int| 0 <= i < from.len() ==> #[trigger] range[i] == from[i]
            &&& range[from.len() as int] as u32 == 0x2013
            &&& forall|i: int|
                0 <= i < to.len() ==> range[from.len() + 1 + i] == #[trigger] to[i]
        },
        crate::snapshot::range_text(Some(from), None) is None,
        crate::snapshot::range_text(None, Some(to)) is None,
        crate::snapshot::range_text(None, None) is None,
{
}

/// The metadata of a snapshot: the count, workers and span of what was merged, and the request's
/// divisor, service and range as they came.
pub proof fn metadata_reports_what_was_merged(
    meta: GraphMeta,
    ctx: StreamCtx,
    accum: crate::accum::AccumView,
)
    requires
        crate::snapshot::is_meta(meta, ctx, accum),
        accum.workers.finite(),
    ensures
        meta.total_samples == accum.total_samples,
        accum.workers.len() > 0 ==> meta.worker_count == accum.workers.len(),
        accum.workers.len() == 0 ==> meta.worker_count == 1,
        match (accum.min_ts, accum.max_ts) {
            (Some(lo), Some(hi)) => if hi > lo {
                meta.time_span_ns == hi - lo
            } else {
                meta.time_span_ns == 1
            },
            _ => meta.time_span_ns == 1,
        },
        meta.requests == ctx.requests,
        match (ctx.service, meta.service) {
            (Some(asked), Some(service)) => service@ == asked@,
            (None, None) => true,
            _ => false,
        },
        match (ctx.from, ctx.to, meta.time_range) {
            (Some(from), Some(to), Some(range)) => {
                &&& range@.len() == from@.len() + 1 + to@.len()
                &&& forall|i: int| 0 <= i < from@.len() ==> #[trigger] range@[i] == from@[i]
                &&& forall|i: int|
                    0 <= i < to@.len() ==> range@[from@.len() + 1 + i] == #[trigger] to@[i]
            },
            (Some(_), Some(_), None) => false,
            (_, _, Some(_)) => false,
            _ => true,
        },
{
}

/// The prefixes of a snapshot: the caller's, all and in order, where there are any; else sorted,
/// and exactly the inferred crates.
pub proof fn supplied_prefixes_win(
    applied: Seq<Seq<char>>,
    supplied: Seq<Seq<char>>,
    dict: Map<Seq<u8>, Seq<Seq<char>>>,
    name: Seq<char>,
)
    requires
        crate::snapshot::are_applied(applied, supplied, dict),
    ensures
        supplied.len() > 0 ==> {
            &&& applied.len() == supplied.len()
            &&& forall|i: int| 0 <= i < supplied.len() ==> #[trigger] applied[i] == supplied[i]
        },
        supplied.len() == 0 ==> {
            &&& applied.contains(name) <==> crate::accum::inferred_app(dict, name)
            &&& forall|i: int, j: int|
                #![trigger applied[i], applied[j]]
                0 <= i < j < applied.len() ==> crate::order::text_before(applied[i], applied[j])
        },
{
}

/// The coverage of a snapshot: the progress of the folding, the samples merged, and the errors,
/// each in its place.
pub proof fn coverage_reports_progress(
    coverage: Coverage,
    accum: crate::accum::AccumView,
    progress: Progress,
    errors: FoldErrors,
)
    requires
        crate::snapshot::is_coverage(coverage, accum, progress, errors),
    ensures
        coverage.files_matched == progress.files_matched,
        coverage.files_folded == progress.files_folded,
        accum.total_samples <= usize::MAX ==> coverage.samples_folded == accum.total_samples,
        coverage.total_bytes == progress.total_bytes,
        coverage.hosts_matched == progress.hosts_matched,
        coverage.hosts_folded == progress.hosts_folded,
        coverage.fold_errors == errors.count,
        match (errors.sample, coverage.fold_error_sample) {
            (Some(given), Some(sample)) => sample@ == given@,
            (None, None) => true,
            _ => false,
        },
{
}

/// A snapshot holds the graph of what was merged under the prefixes that it echoes, with metadata
/// and coverage.
pub proof fn a_snapshot_holds_the_graph(
    response: TraceGraphResponse,
    ctx: StreamCtx,
    accum: crate::accum::AccumView,
    progress: Progress,
    errors: FoldErrors,
)
    requires
        crate::snapshot::is_snapshot(response, ctx, accum, progress, errors),
    ensures
        ({
            let prefixes = crate::columns::texts(response.meta.app_prefixes@);
            &&& crate::graph::is_node_list(
                crate::graph::node_views(response.nodes@),
                accum,
                prefixes,
            )
            &&& crate::graph::is_edge_list(
                crate::graph::edge_views(response.edges@),
                accum,
                prefixes,
            )
            &&& crate::snapshot::are_applied(
                prefixes,
                crate::columns::texts(ctx.app_prefixes@),
                accum.dict,
            )
        }),
        crate::snapshot::is_meta(response.meta, ctx, accum),
        response.coverage matches Some(coverage) && crate::snapshot::is_coverage(
            coverage,
            accum,
            progress,
            errors,
        ),
{
}

/// A snapshot is owed exactly where the graph fits and the span is within `i64`.
pub proof fn snapshots_are_owed_within_range(
    accum: crate::accum::AccumView,
    prefixes: Seq<Seq<char>>,
)
    ensures
        crate::snapshot::snapshot_fits(accum, prefixes) <==> crate::graph::graph_fits(
            accum,
            prefixes,
        ) && match (accum.min_ts, accum.max_ts) {
            (Some(lo), Some(hi)) => hi - lo <= 0x7fff_ffff_ffff_ffff,
            _ => true,
        },
{
}

/// The bytes of parts are the bytes of the files.
pub proof fn parts_are_their_bytes(part: FoldedParts)
    ensures
        part@.samples == part.samples@,
        match (part.dict, part@.dict) {
            (Some(data), Some(bytes)) => bytes == data@,
            (None, None) => true,
            _ => false,
        },
{
}

/// Parts are merged one after the other: what comes of two lists is what comes of the second on top
/// of the first, with the errors of both in order; and a single part comes to what merging it comes
/// to.
pub proof fn parts_are_merged_in_order(
    before: crate::accum::AccumView,
    first: Seq<crate::stream::PartBytes>,
    second: Seq<crate::stream::PartBytes>,
    part: crate::stream::PartBytes,
)
    ensures
        crate::stream::merged_all(before, Seq::empty()) matches Some((after, faults)) && after
            == before && faults.len() == 0,
        match crate::accum::merged_parts(before, part.samples, part.dict) {
            None => crate::stream::merged_all(before, seq![part]) is None,
            Some(merged) => crate::stream::merged_all(before, seq![part]) == Some(
                (
                    merged.after,
                    match merged.fault {
                        Some(fault) => seq![fault],
                        None => Seq::empty(),
                    },
                ),
            ),
        },
        match crate::stream::merged_all(before, first) {
            None => crate::stream::merged_all(before, first + second) is None,
            Some((middle, faults)) => match crate::stream::merged_all(middle, second) {
                None => crate::stream::merged_all(before, first + second) is None,
                Some((after, more)) => crate::stream::merged_all(before, first + second) == Some(
                    (after, faults + more),
                ),
            },
        },
    decreases second.len(),
{
    assert(seq![part].drop_last() =~= Seq::empty());
    reveal_with_fuel(crate::stream::merged_all, 2);
    match crate::accum::merged_parts(before, part.samples, part.dict) {
        Some(merged) => match merged.fault {
            Some(fault) => {
                assert(Seq::<crate::accum::Fault>::empty().push(fault) =~= seq![fault]);
            },
            None => {},
        },
        None => {},
    }
    if second.len() == 0 {
        assert(first + second =~= first);
        match crate::stream::merged_all(before, first) {
            Some((middle, faults)) => {
                assert(faults + Seq::<crate::accum::Fault>::empty() =~= faults);
            },
            None => {},
        }
    } else {
        let all = first + second;
        let rest = second.drop_last();
        parts_are_merged_in_order(before, first, rest, part);
        assert(all.drop_last() =~= first + rest);
        assert(all.last() == second.last());
        match crate::stream::merged_all(before, first) {
            None => {},
            Some((middle, faults)) => match crate::stream::merged_all(middle, rest) {
                None => {},
                Some((after, more)) => {
                    match crate::accum::merged_parts(
                        after,
                        second.last().samples,
                        second.last().dict,
                    ) {
                        None => {},
                        Some(merged) => match merged.fault {
                            Some(fault) => {
                                assert((faults + more).push(fault) =~= faults + more.push(fault));
                            },
                            None => {},
                        },
                    }
                },
            },
        }
    }
}

/// A folded file: what merging its parts comes to is what the next snapshot shows; the file counts
/// as folded, with those before it and no others, whether or not it could be read; the errors stay;
/// and there is one warning exactly where merging raised an error, of its kind.
pub proof fn a_folded_file_is_merged_and_counted(
    state: FoldState,
    part: FoldedParts,
    leaf: String,
    step: Step,
    name: Seq<char>,
)
    requires
        crate::stream::is_next(
            Phase::Folding(state),
            Arrival::Folded { part: Some(part), leaf },
            step,
        ),
    ensures
        match crate::accum::merged_parts(
            state.accum@,
            part.samples@,
            match part.dict {
                Some(data) => Some(data@),
                None => None,
            },
        ) {
            None => step is Unmergeable,
            Some(merged) => step matches Step::Emit { state: after, warnings } && {
                &&& after.accum@ == merged.after
                &&& crate::columns::texts(after.folded@).contains(name) <==> name == leaf@
                    || crate::columns::texts(state.folded@).contains(name)
                &&& after.errors == state.errors
                &&& warnings@.len() == if merged.fault is Some {
                    1nat
                } else {
                    0nat
                }
                &&& merged.fault == Some(crate::accum::Fault::Open) ==> warnings@[0].error is Open
                &&& merged.fault == Some(crate::accum::Fault::Batch) ==> warnings@[0].error is Batch
                &&& merged.fault is Some ==> warnings@[0].message@
                    == "trace-graph: merge failed"@
            },
        },
{
    let bytes = part@;
    parts_are_merged_in_order(state.accum@, Seq::empty(), Seq::empty(), bytes);
    assert(crate::stream::fetched(Some(bytes)) =~= seq![bytes]);
    match step {
        Step::Emit { state: after, warnings } => {
            assert(after.has_folded(name) <==> state.has_folded(name) || name == leaf@);
        },
        _ => {},
    }
}

/// A folded file whose parts could not be fetched counts as folded and changes nothing else; a
/// failed one changes the errors alone; and the stream ends where there are no more files.
pub proof fn other_arrivals_merge_nothing(
    state: FoldState,
    leaf: String,
    errors: FoldErrors,
    fetched_none: Step,
    failed: Step,
    exhausted: Step,
    name: Seq<char>,
)
    requires
        crate::stream::is_next(
            Phase::Folding(state),
            Arrival::Folded { part: None, leaf },
            fetched_none,
        ),
        crate::stream::is_next(Phase::Folding(state), Arrival::Failed { errors }, failed),
        crate::stream::is_next(Phase::Folding(state), Arrival::Exhausted, exhausted),
    ensures
        fetched_none matches Step::Emit { state: after, warnings } && {
            &&& after.accum@ == state.accum@
            &&& crate::columns::texts(after.folded@).contains(name) <==> name == leaf@
                || crate::columns::texts(state.folded@).contains(name)
            &&& after.errors == state.errors
            &&& warnings@.len() == 0
        },
        failed matches Step::Emit { state: after, warnings } && {
            &&& after.accum == state.accum
            &&& after.folded == state.folded
            &&& after.errors == errors
            &&& warnings@.len() == 0
        },
        exhausted is End,
{
    match fetched_none {
        Step::Emit { state: after, warnings } => {
            assert(after.has_folded(name) <==> state.has_folded(name) || name == leaf@);
        },
        _ => {},
    }
}

/// The seed: the parts are merged one after the other into nothing; exactly the named files count
/// as folded; no error is on record; and each part that raised an error gives one warning.
pub proof fn the_seed_is_merged_into_nothing(
    parts: Vec<FoldedParts>,
    folded: Vec<String>,
    step: Step,
    name: Seq<char>,
)
    requires
        crate::stream::is_next(Phase::Start, Arrival::Seed { parts, folded }, step),
    ensures
        match crate::stream::merged_all(
            crate::accum::AccumView::empty(),
            Seq::new(parts@.len(), |i: int| parts@[i]@),
        ) {
            None => step is Unmergeable,
            Some((after, faults)) => step matches Step::Emit { state, warnings } && {
                &&& state.accum@ == after
                &&& crate::columns::texts(state.folded@).contains(name) <==> exists|i: int|
                    0 <= i < folded@.len() && (#[trigger] folded@[i])@ == name
                &&& state.errors.count == 0
                &&& state.errors.sample is None
                &&& warnings@.len() == faults.len()
                &&& forall|i: int|
                    0 <= i < faults.len() ==> (#[trigger] warnings@[i]).message@
                        == "trace-graph: seed merge failed"@ && match faults[i] {
                        crate::accum::Fault::Open => warnings@[i].error is Open,
                        crate::accum::Fault::Batch => warnings@[i].error is Batch,
                    }
            },
        },
{
    assert(Seq::new(parts@.len(), |i: int| parts@[i]@) =~= crate::stream::part_bytes(parts@));
    let names = crate::columns::texts(folded@);
    assert(names.contains(name) <==> exists|i: int|
        0 <= i < folded@.len() && (#[trigger] folded@[i])@ == name) by {
        if names.contains(name) {
            let i = choose|i: int| 0 <= i < names.len() && names[i] == name;
            assert(folded@[i]@ == name);
        }
        if exists|i: int| 0 <= i < folded@.len() && (#[trigger] folded@[i])@ == name {
            let i = choose|i: int| 0 <= i < folded@.len() && (#[trigger] folded@[i])@ == name;
            assert(names[i] == name);
        }
    }
    match step {
        Step::Emit { state, warnings } => {
            assert(state.has_folded(name) <==> names.contains(name));
        },
        _ => {},
    }
}

/// Nothing merged yet means nothing held.
pub proof fn nothing_merged_holds_nothing(stack: Seq<u8>, worker: u32)
    ensures
        ({
            let nothing = crate::accum::AccumView::empty();
            &&& !nothing.stacks.contains_key(stack)
            &&& !nothing.dict.contains_key(stack)
            &&& !nothing.workers.contains(worker)
            &&& nothing.total_samples == 0
            &&& nothing.min_ts is None
            &&& nothing.max_ts is None
        }),
{
}

/// A request that brings keys of its own, where it may, is served with those keys as they came:
/// the same secret material, the same access key id, and the same region.
pub proof fn brought_keys_are_used_as_they_came<B, R, E, C>(
    state: AppState<B, R, E>,
    keys: TempCredentials<C>,
    creds: MaybeCreds<C>,
    resolution: Resolution<B, R, C>,
)
    requires
        crate::state::is_resolution(state, creds, resolution),
        creds.0 == Ok::<CredSource<C>, crate::credentials::CredRejection>(
            CredSource::Static(keys),
        ),
        state.allow_byo_creds,
    ensures
        resolution matches Resolution::Ephemeral { temp, via } && {
            &&& temp.credentials == keys.credentials
            &&& temp.access_key_id@ == keys.access_key_id@
            &&& match (keys.region, temp.region) {
                (Some(asked), Some(region)) => region@ == asked@,
                (None, None) => true,
                _ => false,
            }
            &&& via@ == "bring-your-own credentials"@
        },
{
}

/// A request that asks for a role, where it may, is handed to the wired assumer with the role and
/// the region it names; and where none is wired, it is refused with 400.
pub proof fn requested_roles_are_handed_on<B, R, E, C>(
    state: AppState<B, R, E>,
    role_arn: crate::credentials::RoleArn,
    region: Option<String>,
    creds: MaybeCreds<C>,
    resolution: Resolution<B, R, C>,
)
    requires
        crate::state::is_resolution(state, creds, resolution),
        creds.0 == Ok::<CredSource<C>, crate::credentials::CredRejection>(
            CredSource::AssumeRole { role_arn, region },
        ),
        state.allow_byo_creds,
    ensures
        match state.role_assumer {
            Some(wired) => resolution matches Resolution::Assume {
                assumer,
                role_arn: role,
                region: place,
            } && {
                &&& assumer == wired
                &&& role.arn@ == role_arn.arn@
                &&& match (region, place) {
                    (Some(asked), Some(region)) => region@ == asked@,
                    (None, None) => true,
                    _ => false,
                }
            },
            None => resolution matches Resolution::Refused(error) && error.status == 400
                && error.message@ == "this server does not support assume-role credentials"@,
        },
{
}

/// Who serves a request that brings nothing, or may bring nothing: the default backend, and no
/// other. Bad headers are refused with 400 and their own message.
pub proof fn everyone_else_gets_the_default_backend<B, R, E, C>(
    state: AppState<B, R, E>,
    creds: MaybeCreds<C>,
    resolution: Resolution<B, R, C>,
)
    requires
        crate::state::is_resolution(state, creds, resolution),
    ensures
        match creds.0 {
            Ok(source) => (source is Default || !state.allow_byo_creds) ==> (
            resolution matches Resolution::Backend(backend) && backend == state.backend),
            Err(rejection) => resolution matches Resolution::Refused(error) && error.status == 400
                && error.message@ == rejection.message@,
        },
{
}

/// The context for a request's own bucket, field by field: it reads the bucket that was named,
/// through the request's backend, under the prefix that was named, or else the server's, or else
/// everything; it writes under the configured prefix, to the configured bucket and backend when
/// both are there, and else back to where it reads.
pub proof fn a_named_bucket_is_read_and_output_is_routed<B, R, E>(
    state: AppState<B, R, E>,
    bucket: Seq<char>,
    prefix: Option<Seq<char>>,
    backend: Arc<B>,
    context: AggContext<B>,
)
    requires
        crate::state::is_byoc_context(state, bucket, prefix, backend, context),
    ensures
        context.source == backend,
        context.source_bucket@ == bucket,
        !context.source_is_local,
        context.output_prefix@ == state.agg_output_prefix@,
        context.segment_duration_secs == state.agg_segment_secs,
        context.source_prefixes@.len() == 1,
        match (prefix, state.default_prefix) {
            (Some(named), _) => context.source_prefixes@[0]@ == named,
            (None, Some(default)) => context.source_prefixes@[0]@ == default@,
            (None, None) => context.source_prefixes@[0]@.len() == 0,
        },
        state.agg_output_bucket is Some && state.agg_output_backend is Some ==> {
            &&& context.output_bucket@ == state.agg_output_bucket->0@
            &&& context.output == state.agg_output_backend->0
        },
        state.agg_output_bucket is None || state.agg_output_backend is None ==> {
            &&& context.output_bucket@ == bucket
            &&& context.output == backend
        },
{
    crate::part_laws::texts_are_the_strings(context.source_prefixes@);
    let texts = crate::columns::texts(context.source_prefixes@);
    assert(texts[0] == context.source_prefixes@[0]@);
}

/// The server's own context is handed out as it is, field by field.
pub proof fn a_shared_context_is_the_same<B>(a: AggContext<B>, b: AggContext<B>)
    requires
        crate::state::same_context(a, b),
    ensures
        a.source == b.source,
        a.output == b.output,
        a.source_bucket@ == b.source_bucket@,
        a.source_is_local == b.source_is_local,
        a.output_bucket@ == b.output_bucket@,
        a.output_prefix@ == b.output_prefix@,
        a.source_prefixes@.len() == b.source_prefixes@.len(),
        forall|i: int|
            0 <= i < a.source_prefixes@.len() ==> (#[trigger] a.source_prefixes@[i])@
                == b.source_prefixes@[i]@,
        a.segment_duration_secs == b.segment_duration_secs,
{
    crate::part_laws::texts_are_the_strings(a.source_prefixes@);
    crate::part_laws::texts_are_the_strings(b.source_prefixes@);
    assert forall|i: int|
        0 <= i < a.source_prefixes@.len() implies (#[trigger] a.source_prefixes@[i])@
        == b.source_prefixes@[i]@ by {
        assert(crate::columns::texts(a.source_prefixes@)[i] == crate::columns::texts(
            b.source_prefixes@,
        )[i]);
    }
}

/// Which context a request gets. Without a bucket: the server's own. With a bucket: where on-demand
/// aggregation is off, a refusal; where it is on, a context for the bucket with the default backend
/// if the request brings nothing, and else the credentials or the role it brings, to be made into a
/// backend first. Bad headers are refused with 400 and their own message.
pub proof fn a_request_gets_the_context_of_its_bucket<B, R, E, C>(
    state: AppState<B, R, E>,
    bucket: Option<Seq<char>>,
    prefix: Option<Seq<char>>,
    creds: MaybeCreds<C>,
    step: AggStep<B, R, C>,
)
    requires
        crate::state::is_agg_step(state, bucket, prefix, creds, step),
    ensures
        match (bucket, creds.0) {
            (None, _) => match state.agg {
                Some(own) => step matches AggStep::Context(Some(context))
                    && crate::state::same_context(context, own),
                None => step matches AggStep::Context(None),
            },
            (Some(_), Err(rejection)) => step matches AggStep::Refused(error) && error.status
                == 400 && error.message@ == rejection.message@,
            (Some(bucket), Ok(source)) => if !state.allow_byo_creds {
                step matches AggStep::Refused(error) && error.status == 400 && error.message@
                    == "this server does not support on-demand aggregation"@
            } else {
                match source {
                    CredSource::Default => step matches AggStep::Context(Some(context))
                        && crate::state::is_byoc_context(
                        state,
                        bucket,
                        prefix,
                        state.backend,
                        context,
                    ),
                    CredSource::Static(keys) => step matches AggStep::Unresolved(resolution) && {
                        &&& resolution matches Resolution::Ephemeral { temp, .. }
                        &&& temp == keys
                    },
                    CredSource::AssumeRole { role_arn, region } => match state.role_assumer {
                        Some(wired) => step matches AggStep::Unresolved(resolution) && {
                            &&& resolution matches Resolution::Assume {
                                assumer,
                                role_arn: role,
                                region: place,
                            }
                            &&& assumer == wired
                            &&& role == role_arn
                            &&& place == region
                        },
                        None => step matches AggStep::Refused(error) && error.status == 400
                            && error.message@
                            == "this server does not support assume-role credentials"@,
                    },
                }
            },
        },
{
}

/// What is logged of an access key id: its first characters, in order, eight at most and all of
/// them where there are no more.
pub proof fn at_most_eight_characters_are_logged(akid: Seq<char>)
    ensures
        crate::credentials::first_chars(akid, crate::credentials::AKID_PREFIX_CHARS as nat).len()
            == if akid.len() < 8 {
            akid.len()
        } else {
            8
        },
        forall|i: int|
            0 <= i < akid.len() && i < 8 ==> (#[trigger] crate::credentials::first_chars(
                akid,
                crate::credentials::AKID_PREFIX_CHARS as nat,
            )[i]) == akid[i],
{
}

/// However many slashes come first, a request path names the asset behind them; and slashes alone,
/// or nothing, name `index.html`.
pub proof fn slashes_in_front_do_not_matter(slashes: Seq<char>, name: Seq<char>)
    requires
        forall|i: int| 0 <= i < slashes.len() ==> #[trigger] slashes[i] == '/',
        name.len() > 0 ==> name[0] != '/',
    ensures
        name.len() > 0 ==> crate::assets::asset_named(slashes + name) == name,
        name.len() == 0 ==> crate::assets::asset_named(slashes + name) == seq![
            'i',
            'n',
            'd',
            'e',
            'x',
            '.',
            'h',
            't',
            'm',
            'l',
        ],
{
    let path = slashes + name;
    slashes_are_counted(slashes, name);
    assert(path.skip(slashes.len() as int) =~= name);
    reveal_strlit("index.html");
    assert(crate::assets::INDEX_PATH@ =~= seq!['i', 'n', 'd', 'e', 'x', '.', 'h', 't', 'm', 'l']);
}

proof fn slashes_are_counted(slashes: Seq<char>, name: Seq<char>)
    requires
        forall|i: int| 0 <= i < slashes.len() ==> #[trigger] slashes[i] == '/',
        name.len() > 0 ==> name[0] != '/',
    ensures
        crate::assets::leading_slashes(slashes + name) == slashes.len(),
    decreases slashes.len(),
{
    let path = slashes + name;
    if slashes.len() > 0 {
        let fewer = slashes.drop_first();
        assert forall|i: int| 0 <= i < fewer.len() implies #[trigger] fewer[i] == '/' by {
            assert(fewer[i] == slashes[i + 1]);
        }
        slashes_are_counted(fewer, name);
        assert(path[0] == slashes[0]);
        assert(path.drop_first() =~= fewer + name);
    } else {
        assert(path =~= name);
    }
}

/// Bytes lack a footer exactly when they are fewer than eight or do not end in `PAR1` or `PARE`.
pub proof fn footers_end_in_their_magic(data: Seq<u8>)
    ensures
        data.len() < 8 ==> crate::columns::lacks_footer(data),
        data.len() >= 8 ==> {
            let n = data.len() as int;
            !crate::columns::lacks_footer(data) <==> data[n - 4] == 0x50 && data[n - 3] == 0x41
                && data[n - 2] == 0x52 && (data[n - 1] == 0x31 || data[n - 1] == 0x45)
        },
{
    if data.len() >= 8 {
        let n = data.len() as int;
        let magic = data.skip(n - 4);
        assert(magic[0] == data[n - 4] && magic[1] == data[n - 3] && magic[2] == data[n - 2]
            && magic[3] == data[n - 1]);
        if data[n - 4] == 0x50 && data[n - 3] == 0x41 && data[n - 2] == 0x52 && data[n - 1]
            == 0x31 {
            assert(magic =~= seq![80u8, 65u8, 82u8, 49u8]);
        }
        if data[n - 4] == 0x50 && data[n - 3] == 0x41 && data[n - 2] == 0x52 && data[n - 1]
            == 0x45 {
            assert(magic =~= seq![80u8, 65u8, 82u8, 69u8]);
        }
    }
}

/// The kind of a merge error, and of a warning's, is the error's own.
pub proof fn faults_tell_the_errors_apart(error: MergeError, warning: MergeWarning)
    ensures
        crate::accum::fault_of(Ok(())) is None,
        crate::accum::fault_of(Err(error)) matches Some(fault) && (fault is Open <==> error is Open)
            && (fault is Batch <==> error is Batch),
        crate::stream::warning_fault(warning) is Open <==> warning.error is Open,
        crate::stream::warning_fault(warning) is Batch <==> warning.error is Batch,
{
}

/// A stream carries what its request named: every prefix in its order, the divisor, the service and
/// the two ends of the range.
pub proof fn a_stream_carries_its_request(params: TraceGraphParams, ctx: StreamCtx)
    requires
        crate::request::is_context_of(params, ctx),
    ensures
        ctx.app_prefixes@.len() == params.app_prefix@.len(),
        forall|i: int|
            0 <= i < params.app_prefix@.len() ==> (#[trigger] ctx.app_prefixes@[i])@
                == params.app_prefix@[i]@,
        match params.requests {
            Some(n) if n > 0 => ctx.requests == n,
            _ => ctx.requests == 1,
        },
        match (params.service, ctx.service) {
            (Some(asked), Some(service)) => service@ == asked@,
            (None, None) => true,
            _ => false,
        },
        match (params.from, ctx.from) {
            (Some(asked), Some(from)) => from@ == asked@,
            (None, None) => true,
            _ => false,
        },
        match (params.to, ctx.to) {
            (Some(asked), Some(to)) => to@ == asked@,
            (None, None) => true,
            _ => false,
        },
{
    crate::part_laws::texts_are_the_strings(ctx.app_prefixes@);
    crate::part_laws::texts_are_the_strings(params.app_prefix@);
    assert forall|i: int|
        0 <= i < params.app_prefix@.len() implies (#[trigger] ctx.app_prefixes@[i])@
        == params.app_prefix@[i]@ by {
        assert(crate::columns::texts(ctx.app_prefixes@)[i] == crate::columns::texts(
            params.app_prefix@,
        )[i]);
    }
}

/// A request goes on with the very context and the very files that were found for it, and is
/// refused with 404 exactly where there are none.
pub proof fn requests_go_on_with_what_was_found<A, R>(
    params: TraceGraphParams,
    agg: Option<A>,
    plan: Result<(A, Scope, RefineOpts), HttpError>,
    resolved: Option<R>,
    matched: Result<R, HttpError>,
)
    requires
        crate::request::is_plan(agg, params, plan),
        crate::request::is_match(resolved, matched),
    ensures
        match agg {
            Some(context) => plan matches Ok((kept, scope, opts)) && kept == context
                && crate::request::asks_for(params, scope, opts),
            None => plan matches Err(error) && error.status == 404,
        },
        match resolved {
            Some(found) => matched matches Ok(kept) && kept == found,
            None => matched matches Err(error) && error.status == 404,
        },
{
}

/// What is logged of an identity: at most the first eight characters of its access key id, its
/// region or that it is the default, and whose it is; never anything of the secret material.
pub proof fn identities_are_logged_by_prefix<C>(
    temp: TempCredentials<C>,
    via: Seq<char>,
    log: crate::credentials::IdentityLog,
)
    requires
        crate::credentials::is_identity_log(temp, via, log),
    ensures
        log.akid_prefix@.len() == if temp.access_key_id@.len() < 8 {
            temp.access_key_id@.len()
        } else {
            8
        },
        forall|i: int|
            0 <= i < log.akid_prefix@.len() ==> (#[trigger] log.akid_prefix@[i])
                == temp.access_key_id@[i],
        match temp.region {
            Some(region) => log.region@ == region@,
            None => log.region@ == "(default)"@,
        },
        log.message@.len() == "using "@.len() + via.len() + " for request"@.len(),
        forall|i: int|
            0 <= i < via.len() ==> log.message@["using "@.len() + i] == #[trigger] via[i],
{
    at_most_eight_characters_are_logged(temp.access_key_id@);
    let prefix = crate::credentials::first_chars(
        temp.access_key_id@,
        crate::credentials::AKID_PREFIX_CHARS as nat,
    );
    assert forall|i: int| 0 <= i < log.akid_prefix@.len() implies (#[trigger] log.akid_prefix@[i])
        == temp.access_key_id@[i] by {
        assert(prefix[i] == temp.access_key_id@[i]);
    }
}

/// An asset is sent byte for byte where there is one, with the type guessed from its name, and 404
/// is answered exactly where there is none.
pub proof fn assets_are_sent_as_they_are(
    name: Seq<char>,
    file: Option<Vec<u8>>,
    answer: Result<crate::assets::Asset, HttpError>,
)
    requires
        crate::assets::is_answer(name, file, answer),
    ensures
        match file {
            Some(data) => answer matches Ok(asset) && {
                &&& asset.body@ == data@
                &&& (forall|i: int|
                    0 <= i < name.len() ==> (#[trigger] name[i]) != ':' && name[i] != '\\') && (
                name.len() == 0 || name[0] != '/') ==> asset.content_type@
                    == crate::assets::guessed_mime(name)
            },
            None => answer matches Err(error) && error.status == 404 && error.message@
                == "not found"@,
        },
{
}

/// A fresh server serves its one backend, keeps its default bucket and prefix, and has everything
/// that must be asked for off.
pub proof fn a_fresh_server_has_everything_off<B, R, E, C>(
    state: AppState<B, R, E>,
    backend: Arc<B>,
    default_bucket: Option<String>,
    default_prefix: Option<String>,
    creds: MaybeCreds<C>,
    resolution: Resolution<B, R, C>,
)
    requires
        crate::state::is_fresh(state, backend, default_bucket, default_prefix),
        crate::state::is_resolution(state, creds, resolution),
    ensures
        state.backend == backend,
        state.default_bucket == default_bucket,
        state.default_prefix == default_prefix,
        state.dev_ui_dir is None,
        state.agg is None,
        state.uploads is None,
        state.ephemeral_s3 is None,
        state.agg_output_prefix@ == "flamegraph-data"@,
        state.agg_output_bucket is None,
        state.agg_output_backend is None,
        creds.0 is Ok ==> (resolution matches Resolution::Backend(served) && served == backend),
{
}

/// Minted credentials are used as they came, region and all; a failed attempt is refused with 401
/// and a body that is the same whatever the cause.
pub proof fn minted_credentials_are_used_as_they_came<B, R, C, X, Y>(
    keys: TempCredentials<C>,
    kept: Result<TempCredentials<C>, HttpError>,
    used: Resolution<B, R, C>,
    cause: X,
    other_cause: Y,
    refused: Result<TempCredentials<C>, HttpError>,
    other_refused: Resolution<B, R, C>,
)
    requires
        crate::state::is_assumed(Ok::<TempCredentials<C>, X>(keys), kept),
        crate::state::is_resolution_after(Ok::<TempCredentials<C>, X>(keys), used),
        crate::state::is_assumed(Err::<TempCredentials<C>, X>(cause), refused),
        crate::state::is_resolution_after(Err::<TempCredentials<C>, Y>(other_cause), other_refused),
    ensures
        kept == Ok::<TempCredentials<C>, HttpError>(keys),
        used matches Resolution::Ephemeral { temp, via } && {
            &&& temp.credentials == keys.credentials
            &&& temp.access_key_id@ == keys.access_key_id@
            &&& temp.region == keys.region
            &&& via@ == "assumed-role credentials"@
        },
        refused matches Err(error) && {
            &&& error.status == 401
            &&& other_refused matches Resolution::Refused(other)
            &&& other.status == 401
            &&& other.message@ == error.message@
            &&& error.message@ == "could not assume the requested role"@
        },
{
}

/// Uploads are limited by the store's cap where there is a store, and by the fallback only where
/// there is none.
pub proof fn uploads_are_limited_by_their_store(
    store: Arc<crate::state::UploadStore>,
    fallback: usize,
)
    ensures
        crate::state::body_limit(Some(store), fallback) == store.limits.max_upload_bytes,
        crate::state::body_limit(None, fallback) == fallback,
{
}

/// What is certain to be decoded cleanly: arrivals of which no samples end in `PAR1` or `PARE`
/// behind four more bytes.
pub proof fn certainty_is_the_lack_of_footers(
    parts: Vec<FoldedParts>,
    folded: Vec<String>,
    part: FoldedParts,
    leaf: String,
    errors: FoldErrors,
)
    ensures
        crate::stream::brings_no_parquet(Arrival::Seed { parts, folded }) <==> forall|i: int|
            0 <= i < parts@.len() ==> crate::columns::lacks_footer((#[trigger] parts@[i]).samples@),
        crate::stream::brings_no_parquet(Arrival::Folded { part: Some(part), leaf })
            <==> crate::columns::lacks_footer(part.samples@),
        crate::stream::brings_no_parquet(Arrival::Folded { part: None, leaf }),
        crate::stream::brings_no_parquet(Arrival::Failed { errors }),
        crate::stream::brings_no_parquet(Arrival::Exhausted),
{
}

} // verus!
