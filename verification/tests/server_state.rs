use std::path::PathBuf;
use std::sync::Arc;

use dial9_viewer::assets::{asset_path, serve_asset};
use dial9_viewer::credentials::{
    chosen_identity, CredError, CredRejection, CredSource, MaybeCreds, RoleArn, TempCredentials,
};
use dial9_viewer::request::HttpError;
use dial9_viewer::state::{
    after_assuming, assumed, AggContext, AggStep, AppState, Resolution, UploadLimits,
    DEFAULT_SEGMENT_DURATION_SECS,
};

type State = AppState<&'static str, &'static str, u8>;

fn state() -> State {
    AppState::new(Arc::new("default"), Some("bkt".to_string()), Some("pre".to_string()))
}

fn keys(akid: &str, region: Option<&str>) -> TempCredentials<u32> {
    TempCredentials {
        credentials: 7,
        access_key_id: akid.to_string(),
        region: region.map(|r| r.to_string()),
    }
}

fn byo() -> MaybeCreds<u32> {
    MaybeCreds(Ok(CredSource::Static(keys("AKIA", None))))
}

fn role() -> MaybeCreds<u32> {
    MaybeCreds(Ok(CredSource::AssumeRole {
        role_arn: RoleArn { arn: "arn:aws:iam::1:role/r".to_string() },
        region: Some("eu-west-1".to_string()),
    }))
}

fn none() -> MaybeCreds<u32> {
    MaybeCreds(Ok(CredSource::Default))
}

fn rejected(error: CredError, message: &str) -> MaybeCreds<u32> {
    MaybeCreds(Err(CredRejection { error, message: message.to_string() }))
}

fn server_context() -> AggContext<&'static str> {
    AggContext {
        source: Arc::new("src"),
        output: Arc::new("out"),
        source_bucket: "sb".to_string(),
        source_is_local: true,
        output_bucket: "ob".to_string(),
        output_prefix: "op".to_string(),
        source_prefixes: vec!["p1".to_string(), "p2".to_string()],
        segment_duration_secs: 30,
    }
}

fn refusal<B, R, C>(resolution: Resolution<B, R, C>) -> HttpError {
    match resolution {
        Resolution::Refused(error) => error,
        _ => panic!("not refused"),
    }
}

fn context<B, R, C>(step: AggStep<B, R, C>) -> Option<AggContext<B>> {
    match step {
        AggStep::Context(context) => context,
        _ => panic!("no context"),
    }
}

#[test]
fn a_new_state_has_everything_off() {
    let s = state();
    assert_eq!(*s.backend, "default");
    assert_eq!(s.default_bucket.as_deref(), Some("bkt"));
    assert_eq!(s.default_prefix.as_deref(), Some("pre"));
    assert!(s.dev_ui_dir.is_none());
    assert!(s.agg.is_none());
    assert!(s.uploads.is_none());
    assert!(!s.allow_byo_creds);
    assert!(s.ephemeral_s3.is_none());
    assert!(s.role_assumer.is_none());
    assert_eq!(s.agg_output_prefix, "flamegraph-data");
    assert!(s.agg_output_bucket.is_none());
    assert!(s.agg_output_backend.is_none());
    assert_eq!(s.agg_segment_secs, DEFAULT_SEGMENT_DURATION_SECS);
    assert_eq!(s.upload_body_limit(77), 77);
}

#[test]
fn builders_set_one_thing_each() {
    let s = state()
        .with_dev_ui_dir(PathBuf::from("/ui"))
        .with_agg(server_context())
        .with_uploads(UploadLimits { max_upload_bytes: 5_000 })
        .with_byo_creds(true)
        .with_ephemeral_s3(9)
        .with_role_assumer(Arc::new("sts"))
        .with_agg_output_prefix("elsewhere".to_string())
        .with_agg_output_bucket(Some("wb".to_string()), Some(Arc::new("writer")))
        .with_agg_segment_secs(-3);
    assert_eq!(s.dev_ui_dir, Some(PathBuf::from("/ui")));
    assert_eq!(s.agg.as_ref().unwrap().source_bucket, "sb");
    assert_eq!(s.uploads.as_ref().unwrap().max_upload_bytes(), 5_000);
    assert_eq!(s.upload_body_limit(77), 5_000);
    assert!(s.allow_byo_creds);
    assert_eq!(s.ephemeral_s3, Some(9));
    assert_eq!(**s.role_assumer.as_ref().unwrap(), "sts");
    assert_eq!(s.agg_output_prefix, "elsewhere");
    assert_eq!(s.agg_output_bucket.as_deref(), Some("wb"));
    assert_eq!(**s.agg_output_backend.as_ref().unwrap(), "writer");
    assert_eq!(s.agg_segment_secs, -3);
    assert_eq!(*s.backend, "default");
    assert_eq!(s.default_bucket.as_deref(), Some("bkt"));
    let copy = s.clone();
    assert!(Arc::ptr_eq(&copy.backend, &s.backend));
    assert_eq!(copy.agg_output_bucket.as_deref(), Some("wb"));
    assert!(!s.with_byo_creds(false).allow_byo_creds);
}

#[test]
fn bad_credential_headers_are_refused() {
    let errors = [
        CredError::Incomplete,
        CredError::Malformed,
        CredError::InvalidRegion,
        CredError::ConflictingCredentials,
        CredError::InvalidRoleArn,
    ];
    for error in errors {
        for allow in [false, true] {
            let s = state().with_byo_creds(allow);
            assert_eq!(
                refusal(s.resolve(rejected(error, "no good"))),
                HttpError { status: 400, message: "no good".to_string() }
            );
        }
    }
}

#[test]
fn brought_keys_are_used_where_allowed() {
    let s = state().with_byo_creds(true);
    match s.resolve(byo()) {
        Resolution::Ephemeral { temp, via } => {
            assert_eq!(temp.access_key_id, "AKIA");
            assert_eq!(temp.credentials, 7);
            assert_eq!(via, "bring-your-own credentials");
        }
        _ => panic!("the keys were not used"),
    }
    assert!(matches!(s.resolve(none()), Resolution::Backend(b) if Arc::ptr_eq(&b, &s.backend)));
}

#[test]
fn brought_credentials_are_ignored_where_not_allowed() {
    let s = state().with_role_assumer(Arc::new("sts"));
    for creds in [byo(), role(), none()] {
        assert!(matches!(s.resolve(creds), Resolution::Backend(b) if Arc::ptr_eq(&b, &s.backend)));
    }
}

#[test]
fn a_role_is_assumed_where_an_assumer_is_wired() {
    let s = state().with_byo_creds(true);
    let unsupported = HttpError {
        status: 400,
        message: "this server does not support assume-role credentials".to_string(),
    };
    assert_eq!(refusal(s.resolve(role())), unsupported);
    assert_eq!(s.wired_assumer().err(), Some(unsupported));
    let s = s.with_role_assumer(Arc::new("sts"));
    match s.resolve(role()) {
        Resolution::Assume { assumer, role_arn, region } => {
            assert_eq!(*assumer, "sts");
            assert_eq!(role_arn.arn, "arn:aws:iam::1:role/r");
            assert_eq!(region.as_deref(), Some("eu-west-1"));
        }
        _ => panic!("the role was not assumed"),
    }
    assert_eq!(*s.wired_assumer().unwrap(), "sts");
}

#[test]
fn a_failed_assumption_says_nothing_of_its_cause() {
    let failed: Result<TempCredentials<u32>, &str> = Err("role r of account 1 denied");
    assert_eq!(
        assumed(failed).err(),
        Some(HttpError {
            status: 401,
            message: "could not assume the requested role".to_string(),
        })
    );
    let minted: Result<TempCredentials<u32>, &str> = Ok(keys("ASIA", None));
    assert_eq!(assumed(minted).unwrap().access_key_id, "ASIA");
}

#[test]
fn minted_credentials_serve_the_request() {
    let minted: Result<TempCredentials<u32>, &str> = Ok(keys("ASIA", None));
    match after_assuming::<u8, u8, u32, &str>(minted) {
        Resolution::Ephemeral { temp, via } => {
            assert_eq!(temp.access_key_id, "ASIA");
            assert_eq!(via, "assumed-role credentials");
        }
        _ => panic!("the minted credentials were not used"),
    }
    let failed: Result<TempCredentials<u32>, &str> = Err("denied");
    assert_eq!(refusal(after_assuming::<u8, u8, u32, &str>(failed)).status, 401);
}

#[test]
fn the_logged_identity_is_a_prefix() {
    let log = chosen_identity(&keys("ABCDEFGHIJKL", Some("us-east-2")), "assumed-role credentials");
    assert_eq!(log.akid_prefix, "ABCDEFGH");
    assert_eq!(log.region, "us-east-2");
    assert_eq!(log.message, "using assumed-role credentials for request");
    let log = chosen_identity(&keys("short", None), "x");
    assert_eq!(log.akid_prefix, "short");
    assert_eq!(log.region, "(default)");
    assert_eq!(chosen_identity(&keys("12345678", None), "x").akid_prefix, "12345678");
    assert_eq!(
        chosen_identity(&keys("\u{e9}\u{e9}345678\u{e9}", None), "x").akid_prefix,
        "\u{e9}\u{e9}345678"
    );
}

#[test]
fn without_a_bucket_the_server_context_serves() {
    assert!(context(state().agg_context_for(None, Some("p"), byo())).is_none());
    // Bad headers do not matter then.
    let s = state().with_agg(server_context());
    let ctx = context(s.agg_context_for(None, None, rejected(CredError::Malformed, "m"))).unwrap();
    assert_eq!(*ctx.source, "src");
    assert_eq!(*ctx.output, "out");
    assert_eq!(ctx.source_bucket, "sb");
    assert!(ctx.source_is_local);
    assert_eq!(ctx.output_bucket, "ob");
    assert_eq!(ctx.output_prefix, "op");
    assert_eq!(ctx.source_prefixes, vec!["p1".to_string(), "p2".to_string()]);
    assert_eq!(ctx.segment_duration_secs, 30);
}

#[test]
fn a_bucket_of_its_own_gets_its_own_context() {
    let s = state().with_byo_creds(true).with_agg(server_context()).with_agg_segment_secs(15);
    let ctx = context(s.agg_context_for(Some("mine"), Some("logs/"), none())).unwrap();
    assert_eq!(*ctx.source, "default");
    assert_eq!(ctx.source_bucket, "mine");
    assert!(!ctx.source_is_local);
    assert_eq!(ctx.output_bucket, "mine");
    assert_eq!(*ctx.output, "default");
    assert_eq!(ctx.output_prefix, "flamegraph-data");
    assert_eq!(ctx.source_prefixes, vec!["logs/".to_string()]);
    assert_eq!(ctx.segment_duration_secs, 15);
    // The prefix falls back to the server's, and then to the empty one.
    let ctx = context(s.agg_context_for(Some("mine"), None, none())).unwrap();
    assert_eq!(ctx.source_prefixes, vec!["pre".to_string()]);
    let bare: State = AppState::new(Arc::new("default"), None, None).with_byo_creds(true);
    let ctx = context(bare.agg_context_for(Some("mine"), None, none())).unwrap();
    assert_eq!(ctx.source_prefixes, vec!["".to_string()]);
}

#[test]
fn on_demand_aggregation_is_off_with_the_flag() {
    for s in [state(), state().with_agg(server_context())] {
        for creds in [none(), byo(), role()] {
            match s.agg_context_for(Some("mine"), None, creds) {
                AggStep::Refused(error) => assert_eq!(
                    error,
                    HttpError {
                        status: 400,
                        message: "this server does not support on-demand aggregation".to_string(),
                    }
                ),
                _ => panic!("not refused"),
            }
        }
        // Bad headers keep their own message.
        match s.agg_context_for(Some("mine"), None, rejected(CredError::Malformed, "bad")) {
            AggStep::Refused(error) => assert_eq!(error.message, "bad"),
            _ => panic!("not refused"),
        }
    }
}

#[test]
fn output_goes_to_the_configured_bucket() {
    let writer = Arc::new("writer");
    let s = state().with_agg_output_bucket(Some("wb".to_string()), Some(writer.clone()));
    let ctx = s.byoc_context("mine", None, Arc::new("eph"));
    assert_eq!(ctx.output_bucket, "wb");
    assert!(Arc::ptr_eq(&ctx.output, &writer));
    assert_eq!(*ctx.source, "eph");
    assert_eq!(ctx.source_bucket, "mine");
    // Only one half of the pair does not count.
    let s = state().with_agg_output_bucket(Some("wb".to_string()), None);
    assert_eq!(s.byoc_context("mine", None, Arc::new("eph")).output_bucket, "mine");
    let s = state().with_agg_output_bucket(None, Some(Arc::new("writer")));
    assert_eq!(*s.byoc_context("mine", None, Arc::new("eph")).output, "eph");
}

#[test]
fn a_bucket_may_need_a_backend_first() {
    let s = state().with_byo_creds(true).with_role_assumer(Arc::new("sts"));
    assert!(matches!(
        s.agg_context_for(Some("mine"), None, byo()),
        AggStep::Unresolved(Resolution::Ephemeral { .. })
    ));
    assert!(matches!(
        s.agg_context_for(Some("mine"), None, role()),
        AggStep::Unresolved(Resolution::Assume { .. })
    ));
    match s.agg_context_for(Some("mine"), None, rejected(CredError::Incomplete, "half")) {
        AggStep::Refused(error) => {
            assert_eq!(error, HttpError { status: 400, message: "half".to_string() })
        }
        _ => panic!("not refused"),
    }
}

#[test]
fn request_paths_name_assets() {
    assert_eq!(asset_path("/"), "index.html");
    assert_eq!(asset_path(""), "index.html");
    assert_eq!(asset_path("///"), "index.html");
    assert_eq!(asset_path("/app.js"), "app.js");
    assert_eq!(asset_path("//css/site.css"), "css/site.css");
    assert_eq!(asset_path("css//site.css/"), "css//site.css/");
}

#[test]
fn assets_are_served_with_their_type() {
    let served = |name: &str| serve_asset(name, Some(vec![1, 2])).unwrap();
    assert_eq!(served("index.html").content_type, "text/html");
    assert_eq!(served("index.html").body, vec![1, 2]);
    assert_eq!(served("css/site.css").content_type, "text/css");
    assert_eq!(served("data.json").content_type, "application/json");
    assert_eq!(served("demo-trace.bin").content_type, "application/octet-stream");
    assert_eq!(served("README").content_type, "application/octet-stream");
    assert_eq!(
        serve_asset("gone.js", None).err(),
        Some(HttpError { status: 404, message: "not found".to_string() })
    );
}
