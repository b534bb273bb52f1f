//! The server's configuration, and what it decides about a request: which identity serves it and
//! which buckets it works on.
use std::path::PathBuf;
use std::sync::Arc;

use vstd::prelude::*;

use crate::credentials::{CredSource, MaybeCreds, RoleArn, TempCredentials};
use crate::request::{HttpError, BAD_REQUEST, UNAUTHORIZED};
use crate::text::copy_texts;

verus! {

/// `std`'s `PathBuf`. It is carried, never looked into.
#[verifier::external_type_specification]
#[verifier::external_body]
pub struct ExPathBuf(PathBuf);

/// `Arc::clone`.
///
/// Trusted: the new handle points to the same value.
#[verifier::external_body]
pub(crate) fn share<T>(handle: &Arc<T>) -> (same: Arc<T>)
    ensures
        same == *handle,
{
    Arc::clone(handle)
}

pub const DEFAULT_OUTPUT_PREFIX: &'static str = "flamegraph-data";

/// How long a source segment is taken to be, in seconds, unless configured otherwise.
pub const DEFAULT_SEGMENT_DURATION_SECS: i64 = 60;

pub const NO_ROLE_ASSUMER: &'static str = "this server does not support assume-role credentials";

pub const ROLE_NOT_ASSUMED: &'static str = "could not assume the requested role";

pub const NO_ON_DEMAND_AGGREGATION: &'static str =
    "this server does not support on-demand aggregation";

pub const VIA_STATIC: &'static str = "bring-your-own credentials";

pub const VIA_ROLE: &'static str = "assumed-role credentials";

/// The caps on temporary, POSTed traces.
#[derive(Clone, Copy, Debug)]
pub struct UploadLimits {
    pub max_upload_bytes: usize,
}

/// The caps that temporary, POSTed traces are held to once the feature is on.
#[derive(Debug)]
pub struct UploadStore {
    pub limits: UploadLimits,
}

impl UploadStore {
    /// A store with these caps.
    pub fn new(limits: UploadLimits) -> (store: UploadStore)
        ensures
            store.limits == limits,
    {
        UploadStore { limits }
    }

    /// The largest upload accepted, in bytes.
    pub fn max_upload_bytes(&self) -> (bytes: usize)
        ensures
            bytes == self.limits.max_upload_bytes,
    {
        self.limits.max_upload_bytes
    }
}

/// Where demand-driven aggregation reads and writes. `B` is the storage backend.
#[derive(Clone)]
pub struct AggContext<B> {
    pub source: Arc<B>,
    pub output: Arc<B>,
    pub source_bucket: String,
    pub source_is_local: bool,
    pub output_bucket: String,
    pub output_prefix: String,
    pub source_prefixes: Vec<String>,
    pub segment_duration_secs: i64,
}

/// Two contexts read and write in the same places.
pub open spec fn same_context<B>(a: AggContext<B>, b: AggContext<B>) -> bool {
    &&& a.source == b.source
    &&& a.output == b.output
    &&& a.source_bucket@ == b.source_bucket@
    &&& a.source_is_local == b.source_is_local
    &&& a.output_bucket@ == b.output_bucket@
    &&& a.output_prefix@ == b.output_prefix@
    &&& crate::columns::texts(a.source_prefixes@) == crate::columns::texts(b.source_prefixes@)
    &&& a.segment_duration_secs == b.segment_duration_secs
}

impl<B> AggContext<B> {
    /// A second handle to the same context.
    pub fn share(&self) -> (same: AggContext<B>)
        ensures
            same_context(same, *self),
    {
        AggContext {
            source: share(&self.source),
            output: share(&self.output),
            source_bucket: self.source_bucket.clone(),
            source_is_local: self.source_is_local,
            output_bucket: self.output_bucket.clone(),
            output_prefix: self.output_prefix.clone(),
            source_prefixes: copy_texts(&self.source_prefixes),
            segment_duration_secs: self.segment_duration_secs,
        }
    }
}

/// The server's configuration. `B` is the storage backend, `R` mints credentials for a role, and
/// `E` holds the plumbing for ephemeral S3 clients.
#[derive(Clone)]
#[non_exhaustive]
pub struct AppState<B, R, E> {
    pub backend: Arc<B>,
    pub default_bucket: Option<String>,
    pub default_prefix: Option<String>,
    /// When set, serve UI files from disk instead of embedded assets.
    pub dev_ui_dir: Option<PathBuf>,
    /// When set, requests without a bucket of their own run the demand-driven refinement loop
    /// in this context.
    pub agg: Option<AggContext<B>>,
    /// The temporary-trace feature. `None` (the default) means that it is disabled.
    pub uploads: Option<Arc<UploadStore>>,
    /// Whether requests may bring their own credentials. True for S3 backends, false for a local
    /// directory. The same flag also gates on-demand aggregation: any S3 bucket can run the
    /// refinement loop, but a local-directory source cannot.
    pub allow_byo_creds: bool,
    /// Optional plumbing for ephemeral S3 client construction.
    pub ephemeral_s3: Option<E>,
    /// Mints credentials for the assume-role path. When `None`, role-arn requests are refused.
    pub role_assumer: Option<Arc<R>>,
    /// Output prefix for aggregation of a request's own bucket.
    pub agg_output_prefix: String,
    /// Output bucket for aggregation of a request's own bucket. `None` means to write the
    /// aggregated part-files back into the source bucket.
    pub agg_output_bucket: Option<String>,
    /// Backend for [`Self::agg_output_bucket`].
    pub agg_output_backend: Option<Arc<B>>,
    /// Segment duration (seconds) for scope padding.
    pub agg_segment_secs: i64,
}

/// Who serves a request, or what has to be done outside to find out.
pub enum Resolution<B, R, C> {
    /// The server's default backend.
    Backend(Arc<B>),
    /// A backend built from these credentials for this request; `via` says whose they are.
    Ephemeral { temp: TempCredentials<C>, via: &'static str },
    /// Assume the role first, with the server's own identity; see [`after_assuming`].
    Assume { assumer: Arc<R>, role_arn: RoleArn, region: Option<String> },
    /// The request is refused.
    Refused(HttpError),
}

/// Where a request's aggregation context comes from.
pub enum AggStep<B, R, C> {
    /// The context, or none when the request names no bucket and the server has none either.
    Context(Option<AggContext<B>>),
    /// The request names a bucket, but its backend is still to be made; see
    /// [`AppState::byoc_context`].
    Unresolved(Resolution<B, R, C>),
    /// The request is refused.
    Refused(HttpError),
}

/// Which identity serves a request.
///
/// Bad credential headers are refused with 400. Where requests may bring credentials, theirs are
/// used: their keys directly, or a role if there is an assumer (400 if there is none). Everything
/// else is served by the default backend.
pub open spec fn is_resolution<B, R, E, C>(
    state: AppState<B, R, E>,
    creds: MaybeCreds<C>,
    resolution: Resolution<B, R, C>,
) -> bool {
    match creds.0 {
        Err(rejection) => resolution matches Resolution::Refused(error) && error.says(
            BAD_REQUEST,
            rejection.message@,
        ),
        Ok(CredSource::Default) => resolution == Resolution::<B, R, C>::Backend(state.backend),
        Ok(CredSource::Static(keys)) => if state.allow_byo_creds {
            resolution matches Resolution::Ephemeral { temp, via } && temp == keys && via@
                == VIA_STATIC@
        } else {
            resolution == Resolution::<B, R, C>::Backend(state.backend)
        },
        Ok(CredSource::AssumeRole { role_arn, region }) => if state.allow_byo_creds {
            match state.role_assumer {
                Some(assumer) => resolution == (Resolution::<B, R, C>::Assume {
                    assumer,
                    role_arn,
                    region,
                }),
                None => resolution matches Resolution::Refused(error) && error.says(
                    BAD_REQUEST,
                    NO_ROLE_ASSUMER@,
                ),
            }
        } else {
            resolution == Resolution::<B, R, C>::Backend(state.backend)
        },
    }
}

/// The source prefix of a request's own bucket: the one it names, or the server's default, or
/// none at all.
pub open spec fn source_prefix_of(
    requested: Option<Seq<char>>,
    default_prefix: Option<Seq<char>>,
) -> Seq<char> {
    match (requested, default_prefix) {
        (Some(prefix), _) => prefix,
        (None, Some(prefix)) => prefix,
        (None, None) => Seq::empty(),
    }
}

/// The context for a request's own bucket. The output goes to the configured output bucket
/// through its own backend when both are configured, and else back into the source bucket.
pub open spec fn is_byoc_context<B, R, E>(
    state: AppState<B, R, E>,
    bucket: Seq<char>,
    prefix: Option<Seq<char>>,
    backend: Arc<B>,
    context: AggContext<B>,
) -> bool {
    &&& context.source == backend
    &&& context.source_bucket@ == bucket
    &&& !context.source_is_local
    &&& context.output_prefix@ == state.agg_output_prefix@
    &&& crate::columns::texts(context.source_prefixes@) == seq![
        source_prefix_of(prefix, crate::text::opt_text(state.default_prefix)),
    ]
    &&& context.segment_duration_secs == state.agg_segment_secs
    &&& match (state.agg_output_bucket, state.agg_output_backend) {
        (Some(out_bucket), Some(out_backend)) => context.output_bucket@ == out_bucket@
            && context.output == out_backend,
        _ => context.output_bucket@ == bucket && context.output == backend,
    }
}

/// The text in an optional borrowed string.
pub open spec fn opt_str(text: Option<&str>) -> Option<Seq<char>> {
    match text {
        Some(s) => Some(s@),
        None => None,
    }
}

/// A server on one backend, with everything else off.
pub open spec fn is_fresh<B, R, E>(
    state: AppState<B, R, E>,
    backend: Arc<B>,
    default_bucket: Option<String>,
    default_prefix: Option<String>,
) -> bool {
    &&& state.backend == backend
    &&& state.default_bucket == default_bucket
    &&& state.default_prefix == default_prefix
    &&& state.dev_ui_dir is None
    &&& state.agg is None
    &&& state.uploads is None
    &&& !state.allow_byo_creds
    &&& state.ephemeral_s3 is None
    &&& state.role_assumer is None
    &&& state.agg_output_prefix@ == DEFAULT_OUTPUT_PREFIX@
    &&& state.agg_output_bucket is None
    &&& state.agg_output_backend is None
    &&& state.agg_segment_secs == DEFAULT_SEGMENT_DURATION_SECS
}

/// What the attempt to assume a role comes to: the minted credentials, or 401.
pub open spec fn is_assumed<C, X>(
    minted: Result<TempCredentials<C>, X>,
    result: Result<TempCredentials<C>, HttpError>,
) -> bool {
    match (minted, result) {
        (Ok(temp), Ok(kept)) => kept == temp,
        (Err(_), Err(error)) => error.says(UNAUTHORIZED, ROLE_NOT_ASSUMED@),
        _ => false,
    }
}

/// Who serves a request once the attempt to assume a role is over.
pub open spec fn is_resolution_after<B, R, C, X>(
    minted: Result<TempCredentials<C>, X>,
    resolution: Resolution<B, R, C>,
) -> bool {
    match (minted, resolution) {
        (Ok(keys), Resolution::Ephemeral { temp, via }) => temp == keys && via@ == VIA_ROLE@,
        (Err(_), Resolution::Refused(error)) => error.says(UNAUTHORIZED, ROLE_NOT_ASSUMED@),
        _ => false,
    }
}

/// The body limit of the upload route.
pub open spec fn body_limit(uploads: Option<Arc<UploadStore>>, fallback: usize) -> usize {
    match uploads {
        Some(store) => store.limits.max_upload_bytes,
        None => fallback,
    }
}

/// Where a request's aggregation context comes from.
///
/// Without a bucket, the server's own context serves, if there is one. With a bucket, bad
/// credential headers are refused as ever, everything else is refused where on-demand aggregation
/// is off, and the identity that serves the request gets a context for the bucket where it is on.
pub open spec fn is_agg_step<B, R, E, C>(
    state: AppState<B, R, E>,
    bucket: Option<Seq<char>>,
    prefix: Option<Seq<char>>,
    creds: MaybeCreds<C>,
    step: AggStep<B, R, C>,
) -> bool {
    match bucket {
        None => match (state.agg, step) {
            (Some(own), AggStep::Context(Some(context))) => same_context(context, own),
            (None, AggStep::Context(None)) => true,
            _ => false,
        },
        Some(bucket) => if creds.0 is Ok && !state.allow_byo_creds {
            step matches AggStep::Refused(error) && error.says(
                BAD_REQUEST,
                NO_ON_DEMAND_AGGREGATION@,
            )
        } else {
            match step {
                AggStep::Context(Some(context)) => {
                    &&& is_resolution(
                        state,
                        creds,
                        Resolution::<B, R, C>::Backend(state.backend),
                    )
                    &&& is_byoc_context(state, bucket, prefix, state.backend, context)
                },
                AggStep::Context(None) => false,
                AggStep::Unresolved(resolution) => {
                    &&& is_resolution(state, creds, resolution)
                    &&& resolution is Ephemeral || resolution is Assume
                },
                AggStep::Refused(error) => is_resolution(
                    state,
                    creds,
                    Resolution::<B, R, C>::Refused(error),
                ),
            }
        },
    }
}

impl<B, R, E> AppState<B, R, E> {
    /// A server on one backend, with everything else off.
    pub fn new(
        backend: Arc<B>,
        default_bucket: Option<String>,
        default_prefix: Option<String>,
    ) -> (state: Self)
        ensures
            is_fresh(state, backend, default_bucket, default_prefix),
    {
        AppState {
            backend,
            default_bucket,
            default_prefix,
            dev_ui_dir: None,
            agg: None,
            uploads: None,
            allow_byo_creds: false,
            ephemeral_s3: None,
            role_assumer: None,
            agg_output_prefix: DEFAULT_OUTPUT_PREFIX.to_owned(),
            agg_output_bucket: None,
            agg_output_backend: None,
            agg_segment_secs: DEFAULT_SEGMENT_DURATION_SECS,
        }
    }

    /// Serves UI files from disk.
    pub fn with_dev_ui_dir(self, dir: PathBuf) -> (state: Self)
        ensures
            state == (AppState { dev_ui_dir: Some(dir), ..self }),
    {
        AppState { dev_ui_dir: Some(dir), ..self }
    }

    /// Runs the demand-driven refinement loop in this context.
    pub fn with_agg(self, agg: AggContext<B>) -> (state: Self)
        ensures
            state == (AppState { agg: Some(agg), ..self }),
    {
        AppState { agg: Some(agg), ..self }
    }

    /// Enables the temporary trace-upload feature with the given caps.
    pub fn with_uploads(self, limits: UploadLimits) -> (state: Self)
        ensures
            state.uploads matches Some(store) && store.limits == limits,
            state == (AppState { uploads: state.uploads, ..self }),
    {
        AppState { uploads: Some(Arc::new(UploadStore::new(limits))), ..self }
    }

    /// Enables the bring-your-own-credentials path (S3 backends only). This also enables on-demand
    /// aggregation; leave it off (the default) for local-directory sources, where credentials are
    /// meaningless and aggregation is local.
    pub fn with_byo_creds(self, allow: bool) -> (state: Self)
        ensures
            state == (AppState { allow_byo_creds: allow, ..self }),
    {
        AppState { allow_byo_creds: allow, ..self }
    }

    /// Injects ephemeral-S3 plumbing.
    pub fn with_ephemeral_s3(self, cfg: E) -> (state: Self)
        ensures
            state == (AppState { ephemeral_s3: Some(cfg), ..self }),
    {
        AppState { ephemeral_s3: Some(cfg), ..self }
    }

    /// Enables the assume-role credential path with the given assumer.
    pub fn with_role_assumer(self, assumer: Arc<R>) -> (state: Self)
        ensures
            state == (AppState { role_assumer: Some(assumer), ..self }),
    {
        AppState { role_assumer: Some(assumer), ..self }
    }

    /// Sets the output prefix for aggregation of a request's own bucket.
    pub fn with_agg_output_prefix(self, prefix: String) -> (state: Self)
        ensures
            state == (AppState { agg_output_prefix: prefix, ..self }),
    {
        AppState { agg_output_prefix: prefix, ..self }
    }

    /// Sets the output bucket for aggregation of a request's own bucket, paired with the backend
    /// that writes to it. Pass `None` to keep the default of writing back into the source bucket
    /// through the request's own backend.
    pub fn with_agg_output_bucket(self, bucket: Option<String>, backend: Option<Arc<B>>) -> (state:
        Self)
        ensures
            state == (AppState { agg_output_bucket: bucket, agg_output_backend: backend, ..self }),
    {
        AppState { agg_output_bucket: bucket, agg_output_backend: backend, ..self }
    }

    /// Sets the segment duration (seconds) for scope padding.
    pub fn with_agg_segment_secs(self, secs: i64) -> (state: Self)
        ensures
            state == (AppState { agg_segment_secs: secs, ..self }),
    {
        AppState { agg_segment_secs: secs, ..self }
    }

    /// The assumer for role-arn requests; 400 when there is none. Such a request never falls back
    /// to the ambient identity, which would read the wrong account.
    pub fn wired_assumer(&self) -> (assumer: Result<Arc<R>, HttpError>)
        ensures
            match (self.role_assumer, assumer) {
                (Some(wired), Ok(handle)) => handle == wired,
                (None, Err(error)) => error.says(BAD_REQUEST, NO_ROLE_ASSUMER@),
                _ => false,
            },
    {
        match &self.role_assumer {
            Some(assumer) => Ok(share(assumer)),
            None => Err(HttpError::new(BAD_REQUEST, NO_ROLE_ASSUMER)),
        }
    }

    /// Picks the identity that serves a request, given its credential headers.
    pub fn resolve<C>(&self, creds: MaybeCreds<C>) -> (resolution: Resolution<B, R, C>)
        ensures
            is_resolution(*self, creds, resolution),
    {
        match creds.0 {
            Err(rejection) => Resolution::Refused(
                HttpError { status: BAD_REQUEST, message: rejection.message },
            ),
            Ok(CredSource::Default) => Resolution::Backend(share(&self.backend)),
            Ok(CredSource::Static(temp)) => {
                if self.allow_byo_creds {
                    Resolution::Ephemeral { temp, via: VIA_STATIC }
                } else {
                    Resolution::Backend(share(&self.backend))
                }
            },
            Ok(CredSource::AssumeRole { role_arn, region }) => {
                if self.allow_byo_creds {
                    match self.wired_assumer() {
                        Ok(assumer) => Resolution::Assume { assumer, role_arn, region },
                        Err(error) => Resolution::Refused(error),
                    }
                } else {
                    Resolution::Backend(share(&self.backend))
                }
            },
        }
    }

    /// The context for a request's own bucket, once its backend is there.
    pub fn byoc_context(&self, bucket: &str, prefix: Option<&str>, backend: Arc<B>) -> (context:
        AggContext<B>)
        ensures
            is_byoc_context(*self, bucket@, opt_str(prefix), backend, context),
    {
        let source_prefix = match prefix {
            Some(prefix) => prefix.to_owned(),
            None => match &self.default_prefix {
                Some(prefix) => prefix.clone(),
                None => String::new(),
            },
        };
        let (output_bucket, output) = match (&self.agg_output_bucket, &self.agg_output_backend) {
            (Some(out_bucket), Some(out_backend)) => (out_bucket.clone(), share(out_backend)),
            _ => (bucket.to_owned(), share(&backend)),
        };
        let mut source_prefixes: Vec<String> = Vec::new();
        source_prefixes.push(source_prefix);
        assert(crate::columns::texts(source_prefixes@) =~= seq![
            source_prefix_of(opt_str(prefix), crate::text::opt_text(self.default_prefix)),
        ]);
        AggContext {
            source: backend,
            output,
            source_bucket: bucket.to_owned(),
            source_is_local: false,
            output_bucket,
            output_prefix: self.agg_output_prefix.clone(),
            source_prefixes,
            segment_duration_secs: self.agg_segment_secs,
        }
    }

    /// The aggregation context of a request: for the bucket it names, with whatever identity
    /// serves it, or else the server's own.
    ///
    /// A request that names a bucket asks for on-demand aggregation, and is refused with 400 where
    /// that is off. There is no context only when the request names no bucket and the server has
    /// no context of its own.
    pub fn agg_context_for<C>(
        &self,
        bucket: Option<&str>,
        prefix: Option<&str>,
        creds: MaybeCreds<C>,
    ) -> (step: AggStep<B, R, C>)
        ensures
            is_agg_step(*self, opt_str(bucket), opt_str(prefix), creds, step),
    {
        match bucket {
            None => match &self.agg {
                Some(agg) => AggStep::Context(Some(agg.share())),
                None => AggStep::Context(None),
            },
            Some(bucket) => match self.resolve(creds) {
                Resolution::Refused(error) => AggStep::Refused(error),
                resolution => {
                    if !self.allow_byo_creds {
                        return AggStep::Refused(
                            HttpError::new(BAD_REQUEST, NO_ON_DEMAND_AGGREGATION),
                        );
                    }
                    match resolution {
                        Resolution::Backend(backend) => AggStep::Context(
                            Some(self.byoc_context(bucket, prefix, backend)),
                        ),
                        resolution => AggStep::Unresolved(resolution),
                    }
                },
            },
        }
    }

    /// The body limit of the upload route: the store's cap, or the fallback when uploads are
    /// disabled.
    pub fn upload_body_limit(&self, fallback: usize) -> (bytes: usize)
        ensures
            bytes == body_limit(self.uploads, fallback),
    {
        match &self.uploads {
            Some(store) => store.max_upload_bytes(),
            None => fallback,
        }
    }
}

/// What the attempt to assume a role comes to: the minted credentials, or 401 with a generic
/// body. The cause, which can name the role or the account, is never reflected.
pub fn assumed<C, X>(minted: Result<TempCredentials<C>, X>) -> (result: Result<
    TempCredentials<C>,
    HttpError,
>)
    ensures
        is_assumed(minted, result),
{
    match minted {
        Ok(temp) => Ok(temp),
        Err(_) => Err(HttpError::new(UNAUTHORIZED, ROLE_NOT_ASSUMED)),
    }
}

/// Goes on once the attempt to assume a role is over: the minted credentials serve the request,
/// or it is refused.
pub fn after_assuming<B, R, C, X>(minted: Result<TempCredentials<C>, X>) -> (resolution: Resolution<
    B,
    R,
    C,
>)
    ensures
        is_resolution_after(minted, resolution),
{
    match assumed(minted) {
        Ok(temp) => Resolution::Ephemeral { temp, via: VIA_ROLE },
        Err(error) => Resolution::Refused(error),
    }
}

/// Where requests may bring credentials, one that does is never served with the server's own
/// identity in their place.
pub proof fn brought_credentials_are_used_or_refused<B, R, E, C>(
    state: AppState<B, R, E>,
    creds: MaybeCreds<C>,
    resolution: Resolution<B, R, C>,
)
    requires
        is_resolution(state, creds, resolution),
        state.allow_byo_creds,
        !(creds.0 matches Ok(CredSource::Default)),
    ensures
        !(resolution is Backend),
{
}

/// Where requests may not bring credentials, well-formed ones are ignored.
pub proof fn unwanted_credentials_are_ignored<B, R, E, C>(
    state: AppState<B, R, E>,
    creds: MaybeCreds<C>,
    resolution: Resolution<B, R, C>,
)
    requires
        is_resolution(state, creds, resolution),
        !state.allow_byo_creds,
        creds.0 is Ok,
    ensures
        resolution == Resolution::<B, R, C>::Backend(state.backend),
{
}

/// Bad credential headers are refused with 400 and their own message, whatever the server allows.
pub proof fn bad_credentials_are_refused<B, R, E, C>(
    state: AppState<B, R, E>,
    creds: MaybeCreds<C>,
    resolution: Resolution<B, R, C>,
)
    requires
        is_resolution(state, creds, resolution),
        creds.0 is Err,
    ensures
        resolution matches Resolution::Refused(error) && error.says(
            BAD_REQUEST,
            creds.0->Err_0.message@,
        ),
{
}

/// Where on-demand aggregation is off, no request gets a context for a bucket it names.
pub proof fn aggregation_is_gated<B, R, E, C>(
    state: AppState<B, R, E>,
    bucket: Option<Seq<char>>,
    prefix: Option<Seq<char>>,
    creds: MaybeCreds<C>,
    step: AggStep<B, R, C>,
)
    requires
        is_agg_step(state, bucket, prefix, creds, step),
        !state.allow_byo_creds,
        bucket is Some,
    ensures
        step is Refused,
{
}

/// There is no context only when the request names no bucket and the server has none.
pub proof fn no_context_without_bucket_and_server_context<B, R, E, C>(
    state: AppState<B, R, E>,
    bucket: Option<Seq<char>>,
    prefix: Option<Seq<char>>,
    creds: MaybeCreds<C>,
    step: AggStep<B, R, C>,
)
    requires
        is_agg_step(state, bucket, prefix, creds, step),
    ensures
        (step matches AggStep::Context(None)) <==> bucket is None && state.agg is None,
{
}

/// A read-only source bucket is never written to once an output bucket and its backend are
/// configured.
pub proof fn output_goes_where_configured<B, R, E>(
    state: AppState<B, R, E>,
    bucket: Seq<char>,
    prefix: Option<Seq<char>>,
    backend: Arc<B>,
    context: AggContext<B>,
)
    requires
        is_byoc_context(state, bucket, prefix, backend, context),
        state.agg_output_bucket is Some,
        state.agg_output_backend is Some,
    ensures
        context.output_bucket@ == state.agg_output_bucket->0@,
        context.output == state.agg_output_backend->0,
        context.source_bucket@ == bucket,
        context.source == backend,
{
}

} // verus!
