//! The credentials a request may carry.
use vstd::prelude::*;

verus! {

/// Why the credential headers of a request are no good.
#[derive(Clone, Copy, Debug, PartialEq, Eq, Structural)]
pub enum CredError {
    Incomplete,
    Malformed,
    InvalidRegion,
    ConflictingCredentials,
    InvalidRoleArn,
}

/// Rejected credential headers, with the message for the client.
#[derive(Debug)]
pub struct CredRejection {
    pub error: CredError,
    pub message: String,
}

/// The ARN of a role to assume.
#[derive(Debug)]
pub struct RoleArn {
    pub arn: String,
}

/// Temporary credentials. `C` is what an S3 client is built from; of it only the access key id
/// is looked at.
#[derive(Debug)]
pub struct TempCredentials<C> {
    pub credentials: C,
    pub access_key_id: String,
    pub region: Option<String>,
}

/// Where the credentials of a request come from.
#[derive(Debug)]
pub enum CredSource<C> {
    /// The request carries keys of its own.
    Static(TempCredentials<C>),
    /// The request asks the server to assume a role.
    AssumeRole { role_arn: RoleArn, region: Option<String> },
    /// The request carries none.
    Default,
}

/// What was read from the credential headers of a request.
#[derive(Debug)]
pub struct MaybeCreds<C>(pub Result<CredSource<C>, CredRejection>);

/// Which identity serves a request, as it is logged.
#[derive(Debug)]
pub struct IdentityLog {
    pub akid_prefix: String,
    pub region: String,
    pub message: String,
}

/// How much of an access key id is logged, in characters.
pub const AKID_PREFIX_CHARS: usize = 8;

pub const DEFAULT_REGION_LABEL: &'static str = "(default)";

/// The first characters of a text, at most so many.
pub open spec fn first_chars(text: Seq<char>, n: nat) -> Seq<char> {
    if text.len() <= n {
        text
    } else {
        text.take(n as int)
    }
}

/// What is logged of the identity that serves a request.
pub open spec fn is_identity_log<C>(
    temp: TempCredentials<C>,
    via: Seq<char>,
    log: IdentityLog,
) -> bool {
    &&& log.akid_prefix@ == first_chars(temp.access_key_id@, AKID_PREFIX_CHARS as nat)
    &&& log.region@ == match temp.region {
        Some(region) => region@,
        None => DEFAULT_REGION_LABEL@,
    }
    &&& log.message@ == "using "@ + via + " for request"@
}

/// Which identity serves the request, so that it is unambiguous in the logs whose keys made the
/// S3 call: the access-key-id prefix only, never the secret or the token.
pub fn chosen_identity<C>(temp: &TempCredentials<C>, via: &str) -> (log: IdentityLog)
    ensures
        is_identity_log(*temp, via@, log),
{
    let akid = temp.access_key_id.as_str();
    let n = akid.unicode_len();
    let akid_prefix = if n <= AKID_PREFIX_CHARS {
        akid.to_owned()
    } else {
        akid.substring_char(0, AKID_PREFIX_CHARS).to_owned()
    };
    let region = match &temp.region {
        Some(region) => region.clone(),
        None => DEFAULT_REGION_LABEL.to_owned(),
    };
    let mut message = "using ".to_owned();
    message.append(via);
    message.append(" for request");
    IdentityLog { akid_prefix, region, message }
}

} // verus!
