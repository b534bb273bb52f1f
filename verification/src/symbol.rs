//! Module identity of symbolized stack frames.
use vstd::prelude::*;

use crate::order::text_chars;

verus! {

/// The single node that all non-application (runtime, std, third-party) frames collapse into,
/// so that runtime plumbing reads as one gap instead of exploding the graph.
pub const RUNTIME_ID: &'static str = "runtime";

/// A character that may begin a path segment.
pub open spec fn starts_segment(c: char) -> bool {
    c == '_' || 'a' <= c <= 'z'
}

/// A character that may continue a path segment.
pub open spec fn continues_segment(c: char) -> bool {
    starts_segment(c) || '0' <= c <= '9'
}

/// A character that may occur in an identifier.
pub open spec fn in_identifier(c: char) -> bool {
    continues_segment(c) || 'A' <= c <= 'Z'
}

/// `sym[from..to]` is a lowercase path segment: at least two characters, as long as it can be.
pub open spec fn is_segment(sym: Seq<char>, from: int, to: int) -> bool {
    &&& 0 <= from
    &&& from + 2 <= to <= sym.len()
    &&& starts_segment(sym[from])
    &&& forall|k: int| from < k < to ==> continues_segment(#[trigger] sym[k])
    &&& (to == sym.len() || !continues_segment(sym[to]))
}

/// No identifier character stands right before position `i`.
pub open spec fn at_boundary(sym: Seq<char>, i: int) -> bool {
    i == 0 || !in_identifier(sym[i - 1])
}

/// A path starts at the word boundary `i`: a segment up to `mid`, `::`, and another segment up
/// to `end`.
pub open spec fn path_at(sym: Seq<char>, i: int, mid: int, end: int) -> bool {
    &&& is_segment(sym, i, mid)
    &&& at_boundary(sym, i)
    &&& mid + 2 <= sym.len()
    &&& sym[mid] == ':'
    &&& sym[mid + 1] == ':'
    &&& is_segment(sym, mid + 2, end)
}

/// The path at `i` is the first one in the symbol.
pub open spec fn first_path(sym: Seq<char>, i: int, mid: int, end: int) -> bool {
    &&& path_at(sym, i, mid, end)
    &&& forall|j: int, m: int, e: int| #[trigger] path_at(sym, j, m, e) ==> i <= j
}

/// The `(crate, module)` identity of a symbol: the first two segments of its first path.
pub open spec fn identity_of(sym: Seq<char>) -> Option<(Seq<char>, Seq<char>)> {
    if exists|i: int, mid: int, end: int| first_path(sym, i, mid, end) {
        let (i, mid, end) = choose|i: int, mid: int, end: int| first_path(sym, i, mid, end);
        Some((sym.subrange(i, mid), sym.subrange(mid + 2, end)))
    } else {
        None
    }
}

/// A crate is an application crate when its name starts with one of the prefixes.
pub open spec fn is_app(crate_name: Seq<char>, prefixes: Seq<Seq<char>>) -> bool {
    exists|k: int| 0 <= k < prefixes.len() && #[trigger] prefixes[k].is_prefix_of(crate_name)
}

/// The identity of a graph node.
pub struct NodeKey {
    /// `crate::module`, or `runtime`.
    pub id: Seq<char>,
    /// The top-level crate.
    pub crate_name: Seq<char>,
    /// The module within the crate.
    pub module: Seq<char>,
}

/// The node that stands for everything that is not application code.
pub open spec fn runtime_key() -> NodeKey {
    NodeKey { id: RUNTIME_ID@, crate_name: RUNTIME_ID@, module: RUNTIME_ID@ }
}

/// The node of one module of a crate.
pub open spec fn module_key(crate_name: Seq<char>, module: Seq<char>) -> NodeKey {
    NodeKey { id: crate_name + seq![':', ':'] + module, crate_name, module }
}

/// The node that a frame belongs to: its own module for an application crate, else `runtime`.
pub open spec fn node_of(sym: Seq<char>, prefixes: Seq<Seq<char>>) -> NodeKey {
    match identity_of(sym) {
        Some((crate_name, module)) => if is_app(crate_name, prefixes) {
            module_key(crate_name, module)
        } else {
            runtime_key()
        },
        None => runtime_key(),
    }
}

/// A segment that starts at `from` ends at one place only.
pub proof fn segment_end_is_unique(sym: Seq<char>, from: int, a: int, b: int)
    requires
        is_segment(sym, from, a),
        is_segment(sym, from, b),
    ensures
        a == b,
{
    if a < b {
        assert(continues_segment(sym[a]));
    } else if b < a {
        assert(continues_segment(sym[b]));
    }
}

/// The first path of a symbol, wherever it is found, gives the symbol's identity.
pub proof fn identity_from_first_path(sym: Seq<char>, i: int, mid: int, end: int)
    requires
        first_path(sym, i, mid, end),
    ensures
        identity_of(sym) == Some((sym.subrange(i, mid), sym.subrange(mid + 2, end))),
{
    let (j, m, e) = choose|j: int, m: int, e: int| first_path(sym, j, m, e);
    assert(path_at(sym, i, mid, end));
    assert(path_at(sym, j, m, e));
    segment_end_is_unique(sym, i, mid, m);
    segment_end_is_unique(sym, mid + 2, end, e);
}

/// A symbol without a path has no identity.
pub proof fn identity_without_path(sym: Seq<char>)
    requires
        forall|i: int, mid: int, end: int| !#[trigger] path_at(sym, i, mid, end),
    ensures
        identity_of(sym) is None,
{
}

fn segment_start(c: char) -> (yes: bool)
    ensures
        yes == starts_segment(c),
{
    c == '_' || ('a' <= c && c <= 'z')
}

fn segment_continue(c: char) -> (yes: bool)
    ensures
        yes == continues_segment(c),
{
    segment_start(c) || ('0' <= c && c <= '9')
}

fn identifier_char(c: char) -> (yes: bool)
    ensures
        yes == in_identifier(c),
{
    segment_continue(c) || ('A' <= c && c <= 'Z')
}

/// The end of the segment that starts at `from`, if one does.
fn segment_end(chars: &Vec<char>, from: usize) -> (end: Option<usize>)
    requires
        from <= chars@.len(),
    ensures
        match end {
            Some(to) => is_segment(chars@, from as int, to as int),
            None => forall|to: int| !#[trigger] is_segment(chars@, from as int, to),
        },
{
    if from == chars.len() || !segment_start(chars[from]) {
        return None;
    }
    let mut to: usize = from + 1;
    while to < chars.len() && segment_continue(chars[to])
        invariant
            from < to <= chars@.len(),
            forall|k: int| from < k < to ==> continues_segment(#[trigger] chars@[k]),
        decreases chars@.len() - to,
    {
        to = to + 1;
    }
    if to - from < 2 {
        assert forall|other: int| !#[trigger] is_segment(chars@, from as int, other) by {
            if is_segment(chars@, from as int, other) {
                assert(continues_segment(chars@[to as int]));
            }
        }
        None
    } else {
        Some(to)
    }
}

/// The ends of the two segments of the path that starts at `i`, if one does.
fn path_ends(chars: &Vec<char>, i: usize) -> (ends: Option<(usize, usize)>)
    requires
        i < chars@.len(),
    ensures
        match ends {
            Some((mid, end)) => path_at(chars@, i as int, mid as int, end as int),
            None => forall|mid: int, end: int| !#[trigger] path_at(chars@, i as int, mid, end),
        },
{
    if i > 0 && identifier_char(chars[i - 1]) {
        return None;
    }
    match segment_end(chars, i) {
        None => {
            assert forall|mid: int, end: int| !#[trigger] path_at(chars@, i as int, mid, end) by {
                assert(!is_segment(chars@, i as int, mid));
            }
            None
        },
        Some(mid) => {
            assert forall|m: int, end: int|
                #[trigger] path_at(chars@, i as int, m, end) implies m == mid by {
                segment_end_is_unique(chars@, i as int, m, mid as int);
            }
            if mid >= chars.len() || chars.len() - mid < 2 || chars[mid] != ':' || chars[mid + 1]
                != ':' {
                return None;
            }
            match segment_end(chars, mid + 2) {
                None => {
                    assert forall|m: int, end: int|
                        !#[trigger] path_at(chars@, i as int, m, end) by {
                        assert(!is_segment(chars@, mid + 2, end));
                    }
                    None
                },
                Some(end) => Some((mid, end)),
            }
        },
    }
}

/// Extracts the `(crate, module)` identity from a symbolized frame string.
///
/// Finds the first `ident(::ident)+` run: the concrete crate path of the frame's function, past
/// any `<T as Trait>` generic wrapper. Each identifier must be a real lowercase Rust path segment
/// (`[a-z_][a-z0-9_]+`, two characters or more), so single-letter generic parameters never match,
/// and the run must begin at a word boundary, so the lowercase tail of a CamelCase word never
/// passes for a crate. Returns `None` for a symbol with no such path (a bare `syscall`,
/// `__memcpy`, or hex address); the caller treats those as runtime.
pub fn module_of(sym: &str) -> (found: Option<(String, String)>)
    ensures
        match found {
            Some((crate_name, module)) => identity_of(sym@) == Some((crate_name@, module@)),
            None => identity_of(sym@) is None,
        },
{
    let chars = text_chars(sym);
    let mut i: usize = 0;
    while i < chars.len()
        invariant
            chars@ == sym@,
            i <= chars@.len(),
            forall|j: int, mid: int, end: int| #[trigger] path_at(sym@, j, mid, end) ==> i <= j,
        decreases chars@.len() - i,
    {
        match path_ends(&chars, i) {
            Some((mid, end)) => {
                proof {
                    identity_from_first_path(sym@, i as int, mid as int, end as int);
                }
                let crate_name = sym.substring_char(i, mid).to_owned();
                let module = sym.substring_char(mid + 2, end).to_owned();
                return Some((crate_name, module));
            },
            None => {
                assert forall|j: int, mid: int, end: int|
                    #[trigger] path_at(sym@, j, mid, end) implies i + 1 <= j by {
                    assert(path_at(sym@, j, mid, end));
                }
                i = i + 1;
            },
        }
    }
    proof {
        assert forall|j: int, mid: int, end: int| !#[trigger] path_at(sym@, j, mid, end) by {
            if path_at(sym@, j, mid, end) {
                assert(i <= j);
            }
        }
        identity_without_path(sym@);
    }
    None
}

/// Crate-name prefixes that are unmistakably std, toolchain or ubiquitous runtime: a crate whose
/// name starts with one of them is a runtime crate. They are used only to infer the application
/// crates when the caller supplies none; the authoritative decision is the caller's prefix set.
pub open spec fn known_runtime(crate_name: Seq<char>) -> bool {
    ||| "std"@.is_prefix_of(crate_name)
    ||| "core"@.is_prefix_of(crate_name)
    ||| "alloc"@.is_prefix_of(crate_name)
    ||| "tokio"@.is_prefix_of(crate_name)
    ||| "hyper"@.is_prefix_of(crate_name)
    ||| "h2"@.is_prefix_of(crate_name)
    ||| "mio"@.is_prefix_of(crate_name)
    ||| "futures"@.is_prefix_of(crate_name)
    ||| "futures_util"@.is_prefix_of(crate_name)
    ||| "futures_core"@.is_prefix_of(crate_name)
    ||| "futures_task"@.is_prefix_of(crate_name)
    ||| "serde"@.is_prefix_of(crate_name)
    ||| "serde_json"@.is_prefix_of(crate_name)
    ||| "tracing"@.is_prefix_of(crate_name)
    ||| "tracing_core"@.is_prefix_of(crate_name)
    ||| "tracing_subscriber"@.is_prefix_of(crate_name)
    ||| "bytes"@.is_prefix_of(crate_name)
    ||| "http"@.is_prefix_of(crate_name)
    ||| "tower"@.is_prefix_of(crate_name)
    ||| "tower_http"@.is_prefix_of(crate_name)
    ||| "rustls"@.is_prefix_of(crate_name)
    ||| "tokio_util"@.is_prefix_of(crate_name)
    ||| "pin_project"@.is_prefix_of(crate_name)
    ||| "pin_project_lite"@.is_prefix_of(crate_name)
    ||| "backtrace"@.is_prefix_of(crate_name)
    ||| "gimli"@.is_prefix_of(crate_name)
    ||| "libc"@.is_prefix_of(crate_name)
    ||| "parking_lot"@.is_prefix_of(crate_name)
    ||| "parking_lot_core"@.is_prefix_of(crate_name)
    ||| "crossbeam"@.is_prefix_of(crate_name)
    ||| "crossbeam_utils"@.is_prefix_of(crate_name)
    ||| "crossbeam_channel"@.is_prefix_of(crate_name)
    ||| "once_cell"@.is_prefix_of(crate_name)
    ||| "smallvec"@.is_prefix_of(crate_name)
    ||| "hashbrown"@.is_prefix_of(crate_name)
    ||| "aws_smithy_runtime"@.is_prefix_of(crate_name)
    ||| "aws_smithy_runtime_api"@.is_prefix_of(crate_name)
    ||| "aws_smithy_async"@.is_prefix_of(crate_name)
    ||| "aws_smithy_types"@.is_prefix_of(crate_name)
    ||| "aws_config"@.is_prefix_of(crate_name)
    ||| "aws_sigv4"@.is_prefix_of(crate_name)
    ||| "aws_runtime"@.is_prefix_of(crate_name)
    ||| "matchit"@.is_prefix_of(crate_name)
    ||| "num_cpus"@.is_prefix_of(crate_name)
    ||| "slab"@.is_prefix_of(crate_name)
    ||| "socket2"@.is_prefix_of(crate_name)
    ||| "want"@.is_prefix_of(crate_name)
    ||| "tokio_rustls"@.is_prefix_of(crate_name)
}

/// Whether a crate name starts with one of the well-known runtime prefixes.
pub fn is_known_runtime_crate(crate_name: &str) -> (known: bool)
    ensures
        known == known_runtime(crate_name@),
{
    let name = text_chars(crate_name);
    begins(&name, "std")
        || begins(&name, "core")
        || begins(&name, "alloc")
        || begins(&name, "tokio")
        || begins(&name, "hyper")
        || begins(&name, "h2")
        || begins(&name, "mio")
        || begins(&name, "futures")
        || begins(&name, "futures_util")
        || begins(&name, "futures_core")
        || begins(&name, "futures_task")
        || begins(&name, "serde")
        || begins(&name, "serde_json")
        || begins(&name, "tracing")
        || begins(&name, "tracing_core")
        || begins(&name, "tracing_subscriber")
        || begins(&name, "bytes")
        || begins(&name, "http")
        || begins(&name, "tower")
        || begins(&name, "tower_http")
        || begins(&name, "rustls")
        || begins(&name, "tokio_util")
        || begins(&name, "pin_project")
        || begins(&name, "pin_project_lite")
        || begins(&name, "backtrace")
        || begins(&name, "gimli")
        || begins(&name, "libc")
        || begins(&name, "parking_lot")
        || begins(&name, "parking_lot_core")
        || begins(&name, "crossbeam")
        || begins(&name, "crossbeam_utils")
        || begins(&name, "crossbeam_channel")
        || begins(&name, "once_cell")
        || begins(&name, "smallvec")
        || begins(&name, "hashbrown")
        || begins(&name, "aws_smithy_runtime")
        || begins(&name, "aws_smithy_runtime_api")
        || begins(&name, "aws_smithy_async")
        || begins(&name, "aws_smithy_types")
        || begins(&name, "aws_config")
        || begins(&name, "aws_sigv4")
        || begins(&name, "aws_runtime")
        || begins(&name, "matchit")
        || begins(&name, "num_cpus")
        || begins(&name, "slab")
        || begins(&name, "socket2")
        || begins(&name, "want")
        || begins(&name, "tokio_rustls")
}

/// Whether `text` starts with `prefix`.
fn starts_with(text: &Vec<char>, prefix: &Vec<char>) -> (yes: bool)
    ensures
        yes == prefix@.is_prefix_of(text@),
{
    if prefix.len() > text.len() {
        return false;
    }
    let mut k: usize = 0;
    while k < prefix.len()
        invariant
            k <= prefix@.len() <= text@.len(),
            forall|i: int| 0 <= i < k ==> prefix@[i] == text@[i],
        decreases prefix@.len() - k,
    {
        if prefix[k] != text[k] {
            assert(text@.subrange(0, prefix@.len() as int)[k as int] != prefix@[k as int]);
            return false;
        }
        k = k + 1;
    }
    assert(prefix@ =~= text@.subrange(0, prefix@.len() as int));
    true
}

/// Whether `text` starts with `prefix`.
fn begins(text: &Vec<char>, prefix: &str) -> (yes: bool)
    ensures
        yes == prefix@.is_prefix_of(text@),
{
    starts_with(text, &text_chars(prefix))
}

/// Whether a crate is an application crate (kept as its own node) given the active prefix set.
/// With an empty set nothing is application code, and the whole graph collapses to `runtime`;
/// the caller avoids that by inferring a set first.
pub fn is_app_crate(crate_name: &str, app_prefixes: &[String]) -> (yes: bool)
    ensures
        yes == is_app(crate_name@, crate::columns::texts(app_prefixes@)),
{
    let name = text_chars(crate_name);
    let mut k: usize = 0;
    while k < app_prefixes.len()
        invariant
            name@ == crate_name@,
            k <= app_prefixes@.len(),
            forall|i: int|
                0 <= i < k ==> !#[trigger] crate::columns::texts(app_prefixes@)[i].is_prefix_of(crate_name@),
        decreases app_prefixes@.len() - k,
    {
        let prefix = text_chars(app_prefixes[k].as_str());
        if starts_with(&name, &prefix) {
            assert(crate::columns::texts(app_prefixes@)[k as int].is_prefix_of(crate_name@));
            return true;
        }
        k = k + 1;
    }
    false
}

/// Node identity for a frame: `(id, crate, module)`. Application frames get their own
/// `crate::module` node; everything else collapses to `runtime`.
pub fn node_id_for(sym: &str, app_prefixes: &[String]) -> (node: (String, String, String))
    ensures
        node_of(sym@, crate::columns::texts(app_prefixes@)) == (NodeKey {
            id: node.0@,
            crate_name: node.1@,
            module: node.2@,
        }),
{
    match module_of(sym) {
        Some((crate_name, module)) => {
            if is_app_crate(crate_name.as_str(), app_prefixes) {
                let separator = "::";
                proof {
                    reveal_strlit("::");
                    assert(separator@ =~= seq![':', ':']);
                }
                let mut id = crate_name.clone();
                id.append(separator);
                id.append(module.as_str());
                return (id, crate_name, module);
            }
        },
        None => {},
    }
    (RUNTIME_ID.to_owned(), RUNTIME_ID.to_owned(), RUNTIME_ID.to_owned())
}

/// The two parts of an identity are path segments, and stand in the symbol as `crate::module`.
pub proof fn identity_is_two_segments(sym: Seq<char>)
    requires
        identity_of(sym) is Some,
    ensures
        ({
            let (crate_name, module) = identity_of(sym)->0;
            &&& is_segment(crate_name, 0, crate_name.len() as int)
            &&& is_segment(module, 0, module.len() as int)
            &&& exists|i: int, end: int|
                0 <= i <= end <= sym.len() && #[trigger] sym.subrange(i, end) == crate_name + seq![
                    ':',
                    ':',
                ] + module
        }),
{
    let (i, mid, end) = choose|i: int, mid: int, end: int| first_path(sym, i, mid, end);
    let crate_name = sym.subrange(i, mid);
    let module = sym.subrange(mid + 2, end);
    assert forall|k: int| 0 < k < crate_name.len() implies continues_segment(
        #[trigger] crate_name[k],
    ) by {
        assert(continues_segment(sym[i + k]));
    }
    assert forall|k: int| 0 < k < module.len() implies continues_segment(#[trigger] module[k]) by {
        assert(continues_segment(sym[mid + 2 + k]));
    }
    assert(sym.subrange(i, end) =~= crate_name + seq![':', ':'] + module);
}

/// With no prefixes, every frame belongs to `runtime`.
pub proof fn no_prefixes_collapse_everything(sym: Seq<char>)
    ensures
        node_of(sym, Seq::empty()) == runtime_key(),
{
}

/// A crate name given as a prefix keeps the frames of that crate as their own nodes.
pub proof fn crate_name_keeps_its_own_frames(sym: Seq<char>, prefixes: Seq<Seq<char>>)
    requires
        identity_of(sym) matches Some((crate_name, _)) && prefixes.contains(crate_name),
    ensures
        node_of(sym, prefixes) == module_key((identity_of(sym)->0).0, (identity_of(sym)->0).1),
{
    let crate_name = (identity_of(sym)->0).0;
    let k = choose|k: int| 0 <= k < prefixes.len() && prefixes[k] == crate_name;
    assert(crate_name.subrange(0, crate_name.len() as int) =~= crate_name);
    assert(prefixes[k].is_prefix_of(crate_name));
}

/// The id alone tells nodes apart: two frames with the same node id have the same node, under
/// whatever prefixes each was looked at.
pub proof fn node_id_determines_node(
    a: Seq<char>,
    a_prefixes: Seq<Seq<char>>,
    b: Seq<char>,
    b_prefixes: Seq<Seq<char>>,
)
    requires
        node_of(a, a_prefixes).id == node_of(b, b_prefixes).id,
    ensures
        node_of(a, a_prefixes) == node_of(b, b_prefixes),
{
    let x = node_of(a, a_prefixes);
    let y = node_of(b, b_prefixes);
    reveal_strlit("runtime");
    assert(RUNTIME_ID@ =~= seq!['r', 'u', 'n', 't', 'i', 'm', 'e']);
    assert(forall|k: int| 0 <= k < RUNTIME_ID@.len() ==> RUNTIME_ID@[k] != ':');
    if x != runtime_key() {
        identity_is_two_segments(a);
        assert(x.id[x.crate_name.len() as int] == ':');
    }
    if y != runtime_key() {
        identity_is_two_segments(b);
        assert(y.id[y.crate_name.len() as int] == ':');
    }
    if x != runtime_key() && y != runtime_key() {
        let m = x.crate_name.len() as int;
        let n = y.crate_name.len() as int;
        if m < n {
            assert(y.id[m] == y.crate_name[m]);
        } else if n < m {
            assert(x.id[n] == x.crate_name[n]);
        }
        assert(x.crate_name =~= x.id.subrange(0, m));
        assert(y.crate_name =~= y.id.subrange(0, n));
        assert(x.module =~= x.id.subrange(m + 2, x.id.len() as int));
        assert(y.module =~= y.id.subrange(n + 2, y.id.len() as int));
    }
}

} // verus!
