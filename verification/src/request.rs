//! The `GET /api/trace-graph` request: what it asks for, and how it is refused.
use vstd::prelude::*;

use crate::text::{copy_opt, copy_texts};

verus! {

/// The query parameters of a trace-graph request.
pub struct TraceGraphParams {
    pub service: Option<String>,
    pub from: Option<String>,
    pub to: Option<String>,
    /// Host filter. Repeatable (`host=a&host=b`). Empty = all hosts.
    pub host: Vec<String>,
    pub start_ns: Option<i64>,
    pub end_ns: Option<i64>,
    /// "Fetch more": raise the sampling-cap ceiling for this scope.
    pub max_files: Option<usize>,
    /// S3 bucket override (bring-your-own-credentials).
    pub bucket: Option<String>,
    /// S3 key prefix for source segment listing.
    pub prefix: Option<String>,
    /// Application-crate prefixes: a frame whose crate starts with one of these is kept as its
    /// own node; every other crate collapses into the single `runtime` node. Repeatable
    /// (`app_prefix=foo_&app_prefix=bar_`). When absent, the set is inferred from the folded
    /// frames.
    pub app_prefix: Vec<String>,
    /// Optional request count to divide per-node wall time by, giving per-request latency. When
    /// absent or at most 1, per-node figures are total wall-time over the folded window.
    pub requests: Option<u64>,
}

/// Which source files a request is about.
pub struct Scope {
    pub start_ns: Option<i64>,
    pub end_ns: Option<i64>,
    pub service: Option<String>,
    pub hosts: Vec<String>,
}

/// How far the sampling may go.
pub struct RefineOpts {
    pub max_files: Option<usize>,
}

/// A refusal: the HTTP status and the response body.
#[derive(Debug, PartialEq, Eq)]
pub struct HttpError {
    pub status: u16,
    pub message: String,
}

pub const BAD_REQUEST: u16 = 400;

pub const UNAUTHORIZED: u16 = 401;

pub const NOT_FOUND: u16 = 404;

pub const NO_AGGREGATION: &'static str =
    "trace-graph requires demand-driven aggregation (start with --agg or supply a bucket)";

pub const NO_SOURCE_FILES: &'static str = "no source files match this scope";

impl HttpError {
    /// The refusal has this status and this body.
    pub open spec fn says(self, status: u16, message: Seq<char>) -> bool {
        self.status == status && self.message@ == message
    }

    /// A refusal with a fixed body.
    pub fn new(status: u16, message: &str) -> (error: HttpError)
        ensures
            error.says(status, message@),
    {
        HttpError { status, message: message.to_owned() }
    }
}

/// What a request asks to be resolved: the scope and the options are the parameters', one for
/// one.
pub open spec fn asks_for(params: TraceGraphParams, scope: Scope, opts: RefineOpts) -> bool {
    &&& scope.start_ns == params.start_ns
    &&& scope.end_ns == params.end_ns
    &&& crate::text::opt_text(scope.service) == crate::text::opt_text(params.service)
    &&& crate::columns::texts(scope.hosts@) == crate::columns::texts(params.host@)
    &&& opts.max_files == params.max_files
}

/// What comes of a request once its aggregation context is known: what to resolve in it, or 404
/// when there is none.
pub open spec fn is_plan<A>(
    agg: Option<A>,
    params: TraceGraphParams,
    plan: Result<(A, Scope, RefineOpts), HttpError>,
) -> bool {
    match (agg, plan) {
        (Some(context), Ok((kept, scope, opts))) => kept == context && asks_for(
            params,
            scope,
            opts,
        ),
        (None, Err(error)) => error.says(NOT_FOUND, NO_AGGREGATION@),
        _ => false,
    }
}

/// What comes of a request once its scope is resolved: the files, or 404 when there are none.
pub open spec fn is_match<R>(resolved: Option<R>, matched: Result<R, HttpError>) -> bool {
    match (resolved, matched) {
        (Some(found), Ok(kept)) => kept == found,
        (None, Err(error)) => error.says(NOT_FOUND, NO_SOURCE_FILES@),
        _ => false,
    }
}

/// Goes on once the aggregation context is known: what to resolve in it, or 404 when there is
/// none.
pub fn plan_resolution<A>(agg: Option<A>, params: &TraceGraphParams) -> (plan: Result<
    (A, Scope, RefineOpts),
    HttpError,
>)
    ensures
        is_plan(agg, *params, plan),
{
    match agg {
        Some(context) => {
            let scope = Scope {
                start_ns: params.start_ns,
                end_ns: params.end_ns,
                service: copy_opt(&params.service),
                hosts: copy_texts(&params.host),
            };
            Ok((context, scope, RefineOpts { max_files: params.max_files }))
        },
        None => Err(HttpError::new(NOT_FOUND, NO_AGGREGATION)),
    }
}

/// Goes on once the scope is resolved: 404 when no source file matches it.
pub fn require_matches<R>(resolved: Option<R>) -> (matched: Result<R, HttpError>)
    ensures
        is_match(resolved, matched),
{
    match resolved {
        Some(found) => Ok(found),
        None => Err(HttpError::new(NOT_FOUND, NO_SOURCE_FILES)),
    }
}

/// The file counts as the request metrics report them: the low 32 bits.
pub fn metric_counts(files_matched: usize, files_folded: usize) -> (counts: (u32, u32))
    ensures
        counts.0 as int == files_matched as int % 0x1_0000_0000,
        counts.1 as int == files_folded as int % 0x1_0000_0000,
{
    let matched: u64 = files_matched as u64;
    let folded: u64 = files_folded as u64;
    assert(matched as u32 == matched % 0x1_0000_0000) by (bit_vector);
    assert(folded as u32 == folded % 0x1_0000_0000) by (bit_vector);
    (
        #[verifier::truncate]
        (matched as u32),
        #[verifier::truncate]
        (folded as u32),
    )
}

/// What of a request stays the same through its stream.
pub struct StreamCtx {
    pub app_prefixes: Vec<String>,
    pub requests: u64,
    pub service: Option<String>,
    pub from: Option<String>,
    pub to: Option<String>,
}

/// The request divisor: the one supplied, or 1 when there is none or it is 0.
pub open spec fn divisor(requests: Option<u64>) -> u64 {
    match requests {
        Some(n) => if n >= 1 {
            n
        } else {
            1
        },
        None => 1,
    }
}

/// What of a request stays the same through its stream.
pub open spec fn is_context_of(params: TraceGraphParams, ctx: StreamCtx) -> bool {
    &&& crate::columns::texts(ctx.app_prefixes@) == crate::columns::texts(params.app_prefix@)
    &&& ctx.requests == divisor(params.requests)
    &&& crate::text::opt_text(ctx.service) == crate::text::opt_text(params.service)
    &&& crate::text::opt_text(ctx.from) == crate::text::opt_text(params.from)
    &&& crate::text::opt_text(ctx.to) == crate::text::opt_text(params.to)
}

impl StreamCtx {
    /// The context of a request.
    pub fn new(params: &TraceGraphParams) -> (ctx: StreamCtx)
        ensures
            is_context_of(*params, ctx),
    {
        let requests: u64 = match params.requests {
            Some(n) => if n >= 1 {
                n
            } else {
                1
            },
            None => 1,
        };
        StreamCtx {
            app_prefixes: copy_texts(&params.app_prefix),
            requests,
            service: copy_opt(&params.service),
            from: copy_opt(&params.from),
            to: copy_opt(&params.to),
        }
    }
}

} // verus!
