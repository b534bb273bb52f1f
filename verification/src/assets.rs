//! The embedded UI files.
use vstd::prelude::*;

use crate::request::{HttpError, NOT_FOUND};

verus! {

pub const INDEX_PATH: &'static str = "index.html";

pub const ASSET_NOT_FOUND: &'static str = "not found";

/// A UI file as it is sent.
#[derive(Debug)]
pub struct Asset {
    pub content_type: String,
    pub body: Vec<u8>,
}

/// What `mime_guess` says of a path.
pub uninterp spec fn guessed_mime(path: Seq<char>) -> Seq<char>;

/// A path that every platform splits into the same parts.
pub open spec fn portable_path(path: Seq<char>) -> bool {
    &&& forall|i: int| 0 <= i < path.len() ==> (#[trigger] path[i]) != '\\' && path[i] != ':'
    &&& path.len() > 0 ==> path[0] != '/'
}

/// `mime_guess::from_path` and `MimeGuess::first_or_octet_stream`, with the type written out.
///
/// Trusted: on a path that every platform splits alike the type depends on the path alone. Of
/// other paths nothing is said, since their extension depends on the platform.
#[verifier::external_body]
pub(crate) fn guess_mime(path: &str) -> (mime: String)
    ensures
        portable_path(path@) ==> mime@ == guessed_mime(path@),
{
    mime_guess::from_path(path).first_or_octet_stream().as_ref().to_owned()
}

/// The number of slashes a path begins with.
pub open spec fn leading_slashes(path: Seq<char>) -> nat
    decreases path.len(),
{
    if path.len() > 0 && path[0] == '/' {
        1 + leading_slashes(path.drop_first())
    } else {
        0
    }
}

/// The asset that a request path names: without its leading slashes, and the index for an empty
/// one.
pub open spec fn asset_named(path: Seq<char>) -> Seq<char> {
    let name = path.skip(leading_slashes(path) as int);
    if name.len() == 0 {
        INDEX_PATH@
    } else {
        name
    }
}

/// There are no more leading slashes than characters, and none is left behind them.
proof fn leading_slashes_are_all(path: Seq<char>)
    ensures
        leading_slashes(path) <= path.len(),
        forall|i: int| 0 <= i < leading_slashes(path) ==> #[trigger] path[i] == '/',
        leading_slashes(path) < path.len() ==> path[leading_slashes(path) as int] != '/',
    decreases path.len(),
{
    if path.len() > 0 && path[0] == '/' {
        let rest = path.drop_first();
        leading_slashes_are_all(rest);
        assert forall|i: int| 0 <= i < leading_slashes(path) implies #[trigger] path[i]
            == '/' by {
            if i > 0 {
                assert(rest[i - 1] == path[i]);
            }
        }
        if leading_slashes(path) < path.len() {
            assert(rest[leading_slashes(rest) as int] == path[leading_slashes(path) as int]);
        }
    }
}

/// An asset name is never empty, and never begins with a slash.
pub proof fn asset_names_are_relative(path: Seq<char>)
    ensures
        asset_named(path).len() > 0,
        asset_named(path)[0] != '/',
{
    leading_slashes_are_all(path);
    reveal_strlit("index.html");
    assert(INDEX_PATH@[0] == 'i');
}

proof fn slashes_end_here(path: Seq<char>, n: nat)
    requires
        n <= path.len(),
        forall|i: int| 0 <= i < n ==> #[trigger] path[i] == '/',
        n < path.len() ==> path[n as int] != '/',
    ensures
        leading_slashes(path) == n,
    decreases n,
{
    if n > 0 {
        let rest = path.drop_first();
        assert(path[0] == '/');
        assert forall|i: int| 0 <= i < n - 1 implies #[trigger] rest[i] == '/' by {
            assert(path[i + 1] == rest[i]);
        }
        slashes_end_here(rest, (n - 1) as nat);
    }
}

/// The asset that a request path names.
pub fn asset_path(path: &str) -> (name: String)
    ensures
        name@ == asset_named(path@),
{
    let total = path.unicode_len();
    let mut n: usize = 0;
    while n < total && path.get_char(n) == '/'
        invariant
            n <= total,
            total == path@.len(),
            forall|i: int| 0 <= i < n ==> #[trigger] path@[i] == '/',
        decreases total - n,
    {
        n = n + 1;
    }
    proof {
        slashes_end_here(path@, n as nat);
    }
    if n == total {
        INDEX_PATH.to_owned()
    } else {
        assert(path@.subrange(n as int, total as int) =~= path@.skip(n as int));
        path.substring_char(n, total).to_owned()
    }
}

/// What is answered to a request for an asset: the file with its guessed type, or 404.
pub open spec fn is_answer(
    name: Seq<char>,
    file: Option<Vec<u8>>,
    answer: Result<Asset, HttpError>,
) -> bool {
    match (file, answer) {
        (Some(data), Ok(asset)) => {
            &&& asset.body == data
            &&& portable_path(name) ==> asset.content_type@ == guessed_mime(name)
        },
        (None, Err(error)) => error.says(NOT_FOUND, ASSET_NOT_FOUND@),
        _ => false,
    }
}

/// The answer to a request for an asset, given what the embedded files hold under its name: the
/// file with its guessed type, or 404.
pub fn serve_asset(name: &str, file: Option<Vec<u8>>) -> (answer: Result<Asset, HttpError>)
    ensures
        is_answer(name@, file, answer),
{
    match file {
        Some(body) => Ok(Asset { content_type: guess_mime(name), body }),
        None => Err(HttpError::new(NOT_FOUND, ASSET_NOT_FOUND)),
    }
}

} // verus!
