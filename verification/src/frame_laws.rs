//! What frames come to, in terms of their characters, and what stacks come to, in terms of their
//! frames.
use vstd::prelude::*;

verus! {

/// A path in the middle of any text is found, or one before it: for two lowercase segments of two
/// characters or more, joined by `::`, with no letter, digit or underscore before them and no
/// lowercase letter, digit or underscore right behind them, the symbol has an identity, and it is
/// such a path that starts there or earlier.
pub proof fn a_path_or_an_earlier_one_is_found(sym: Seq<char>, j: int, m: int, e: int) -> (at: (
    int,
    int,
    int,
))
    requires
        0 <= j,
        j + 2 <= m,
        m + 4 <= e,
        e <= sym.len(),
        sym[j] == '_' || ('a' <= sym[j] && sym[j] <= 'z'),
        sym[m] == ':',
        sym[m + 1] == ':',
        sym[m + 2] == '_' || ('a' <= sym[m + 2] && sym[m + 2] <= 'z'),
        forall|k: int|
            j < k < m || m + 2 < k < e ==> (#[trigger] sym[k]) == '_' || ('a' <= sym[k] && sym[k]
                <= 'z') || ('0' <= sym[k] && sym[k] <= '9'),
        j == 0 || !(sym[j - 1] == '_' || ('a' <= sym[j - 1] && sym[j - 1] <= 'z') || ('A' <= sym[j
            - 1] && sym[j - 1] <= 'Z') || ('0' <= sym[j - 1] && sym[j - 1] <= '9')),
        e == sym.len() || !(sym[e] == '_' || ('a' <= sym[e] && sym[e] <= 'z') || ('0' <= sym[e]
            && sym[e] <= '9')),
    ensures
        0 <= at.0 <= j,
        at.0 + 2 <= at.1,
        at.1 + 4 <= at.2,
        at.2 <= sym.len(),
        crate::symbol::identity_of(sym) == Some(
            (sym.subrange(at.0, at.1), sym.subrange(at.1 + 2, at.2)),
        ),
        sym[at.1] == ':',
        sym[at.1 + 1] == ':',
        at.0 == j ==> at == (j, m, e),
{
    assert(crate::symbol::continues_segment(sym[m]) == false);
    assert forall|k: int| j < k < m implies crate::symbol::continues_segment(
        #[trigger] sym[k],
    ) by {}
    assert forall|k: int| m + 2 < k < e implies crate::symbol::continues_segment(
        #[trigger] sym[k],
    ) by {}
    assert(crate::symbol::path_at(sym, j, m, e));
    let (i, mid, end) = earliest_path(sym, j, m, e);
    crate::symbol::identity_from_first_path(sym, i, mid, end);
    assert(crate::symbol::path_at(sym, i, mid, end));
    if i == j {
        crate::symbol::segment_end_is_unique(sym, i, mid, m);
        crate::symbol::segment_end_is_unique(sym, m + 2, end, e);
    }
    (i, mid, end)
}

proof fn earliest_path(sym: Seq<char>, j: int, m: int, e: int) -> (at: (int, int, int))
    requires
        crate::symbol::path_at(sym, j, m, e),
    ensures
        crate::symbol::first_path(sym, at.0, at.1, at.2),
        at.0 <= j,
    decreases j,
{
    if exists|a: int, b: int, c: int| #[trigger] crate::symbol::path_at(sym, a, b, c) && a < j {
        let (a, b, c) = choose|a: int, b: int, c: int|
            #[trigger] crate::symbol::path_at(sym, a, b, c) && a < j;
        earliest_path(sym, a, b, c)
    } else {
        (j, m, e)
    }
}

/// Every identity stands in the symbol as a path: two lowercase segments of two characters or
/// more, joined by `::`, with no letter, digit or underscore before the first, and neither of them
/// cut short.
pub proof fn an_identity_is_a_path(sym: Seq<char>) -> (at: (int, int, int))
    requires
        crate::symbol::identity_of(sym) is Some,
    ensures
        crate::symbol::identity_of(sym) == Some(
            (sym.subrange(at.0, at.1), sym.subrange(at.1 + 2, at.2)),
        ),
        0 <= at.0,
        at.0 + 2 <= at.1,
        at.1 + 4 <= at.2,
        at.2 <= sym.len(),
        sym[at.0] == '_' || ('a' <= sym[at.0] && sym[at.0] <= 'z'),
        sym[at.1] == ':',
        sym[at.1 + 1] == ':',
        sym[at.1 + 2] == '_' || ('a' <= sym[at.1 + 2] && sym[at.1 + 2] <= 'z'),
        forall|k: int|
            at.0 < k < at.1 || at.1 + 2 < k < at.2 ==> (#[trigger] sym[k]) == '_' || ('a' <= sym[k]
                && sym[k] <= 'z') || ('0' <= sym[k] && sym[k] <= '9'),
        at.0 == 0 || !(sym[at.0 - 1] == '_' || ('a' <= sym[at.0 - 1] && sym[at.0 - 1] <= 'z') || (
        'A' <= sym[at.0 - 1] && sym[at.0 - 1] <= 'Z') || ('0' <= sym[at.0 - 1] && sym[at.0 - 1]
            <= '9')),
        at.2 == sym.len() || !(sym[at.2] == '_' || ('a' <= sym[at.2] && sym[at.2] <= 'z') || ('0'
            <= sym[at.2] && sym[at.2] <= '9')),
{
    let (i, mid, end) = choose|i: int, mid: int, end: int|
        crate::symbol::first_path(sym, i, mid, end);
    assert(crate::symbol::path_at(sym, i, mid, end));
    assert forall|k: int| i < k < mid || mid + 2 < k < end implies (#[trigger] sym[k]) == '_' || (
    'a' <= sym[k] && sym[k] <= 'z') || ('0' <= sym[k] && sym[k] <= '9') by {
        assert(crate::symbol::continues_segment(sym[k]));
    }
    (i, mid, end)
}

/// Whatever stands before a path, as long as it holds no colon and ends in no letter, digit or
/// underscore (such as `<` or `&mut `), and whatever stands behind it, as long as the module name
/// ends there: the path gives the identity.
pub proof fn a_path_behind_any_separator_is_the_identity(
    before: Seq<char>,
    crate_name: Seq<char>,
    module: Seq<char>,
    rest: Seq<char>,
)
    requires
        forall|k: int| 0 <= k < before.len() ==> #[trigger] before[k] != ':',
        before.len() > 0 ==> {
            let c = before.last();
            !(c == '_' || ('a' <= c && c <= 'z') || ('A' <= c && c <= 'Z') || ('0' <= c && c
                <= '9'))
        },
        crate_name.len() >= 2,
        crate_name[0] == '_' || ('a' <= crate_name[0] && crate_name[0] <= 'z'),
        forall|k: int|
            0 < k < crate_name.len() ==> (#[trigger] crate_name[k]) == '_' || ('a' <= crate_name[k]
                && crate_name[k] <= 'z') || ('0' <= crate_name[k] && crate_name[k] <= '9'),
        module.len() >= 2,
        module[0] == '_' || ('a' <= module[0] && module[0] <= 'z'),
        forall|k: int|
            0 < k < module.len() ==> (#[trigger] module[k]) == '_' || ('a' <= module[k]
                && module[k] <= 'z') || ('0' <= module[k] && module[k] <= '9'),
        rest.len() > 0 ==> !(rest[0] == '_' || ('a' <= rest[0] && rest[0] <= 'z') || ('0'
            <= rest[0] && rest[0] <= '9')),
    ensures
        crate::symbol::identity_of(before + crate_name + seq![':', ':'] + module + rest) == Some(
            (crate_name, module),
        ),
{
    let sym = before + crate_name + seq![':', ':'] + module + rest;
    let j = before.len() as int;
    let m = j + crate_name.len();
    let e = m + 2 + module.len();
    assert forall|k: int| 0 <= k < j implies #[trigger] sym[k] == before[k] by {}
    assert forall|k: int| j <= k < m implies #[trigger] sym[k] == crate_name[k - j] by {}
    assert(sym[m] == ':' && sym[m + 1] == ':');
    assert forall|k: int| m + 2 <= k < e implies #[trigger] sym[k] == module[k - m - 2] by {}
    assert(e < sym.len() ==> sym[e] == rest[0]);
    assert(crate::symbol::is_segment(sym, j, m)) by {
        assert forall|k: int| j < k < m implies crate::symbol::continues_segment(
            #[trigger] sym[k],
        ) by {
            assert(sym[k] == crate_name[k - j]);
        }
    }
    assert(crate::symbol::is_segment(sym, m + 2, e)) by {
        assert forall|k: int| m + 2 < k < e implies crate::symbol::continues_segment(
            #[trigger] sym[k],
        ) by {
            assert(sym[k] == module[k - m - 2]);
        }
    }
    assert(j > 0 ==> sym[j - 1] == before.last());
    assert forall|k: int| 0 <= k < m implies #[trigger] sym[k] != ':' by {
        if k < j {
            assert(before[k] != ':');
        } else {
            assert(sym[k] == crate_name[k - j]);
        }
    }
    early_path_would_cross(sym, j, m, e);
    assert(sym.subrange(j, m) =~= crate_name);
    assert(sym.subrange(m + 2, e) =~= module);
}

proof fn early_path_would_cross(sym: Seq<char>, j: int, m: int, e: int)
    requires
        crate::symbol::path_at(sym, j, m, e),
        forall|k: int| 0 <= k < m ==> #[trigger] sym[k] != ':',
    ensures
        crate::symbol::identity_of(sym) == Some((sym.subrange(j, m), sym.subrange(m + 2, e))),
{
    assert forall|a: int, b: int, c: int| #[trigger] crate::symbol::path_at(
        sym,
        a,
        b,
        c,
    ) implies j <= a by {
        if a < j {
            assert(b >= m) by {
                if b < m {
                    assert(sym[b] == ':');
                }
            }
            assert(crate::symbol::continues_segment(sym[j - 1])) by {
                if a < j - 1 {
                    assert(crate::symbol::continues_segment(sym[j - 1]));
                }
            }
        }
    }
    assert(crate::symbol::first_path(sym, j, m, e));
    crate::symbol::identity_from_first_path(sym, j, m, e);
}

/// Text in which no path is found makes no difference to what follows it behind a separator, and
/// a path once found makes what follows behind a separator irrelevant.
pub proof fn the_first_path_counts(front: Seq<char>, separator: char, back: Seq<char>)
    requires
        !(separator == '_' || ('a' <= separator && separator <= 'z') || ('A' <= separator
            && separator <= 'Z') || ('0' <= separator && separator <= '9') || separator == ':'),
    ensures
        crate::symbol::identity_of(front) is None ==> crate::symbol::identity_of(
            front.push(separator) + back,
        ) == crate::symbol::identity_of(back),
        crate::symbol::identity_of(front) is Some ==> crate::symbol::identity_of(
            front.push(separator) + back,
        ) == crate::symbol::identity_of(front),
{
    let sym = front.push(separator) + back;
    let n = front.len() as int;
    joined_text(front, separator, back);
    if crate::symbol::identity_of(front) is Some {
        let (i, mid, end) = choose|i: int, mid: int, end: int|
            crate::symbol::first_path(front, i, mid, end);
        path_in_front(front, sym, i, mid, end);
        assert forall|a: int, b: int, c: int| #[trigger] crate::symbol::path_at(
            sym,
            a,
            b,
            c,
        ) implies i <= a by {
            if a <= n {
                path_of_front(front, sym, a, b, c);
            }
        }
        assert(crate::symbol::first_path(sym, i, mid, end));
        crate::symbol::identity_from_first_path(sym, i, mid, end);
        crate::symbol::identity_from_first_path(front, i, mid, end);
        assert(sym.subrange(i, mid) =~= front.subrange(i, mid));
        assert(sym.subrange(mid + 2, end) =~= front.subrange(mid + 2, end));
    } else {
        nothing_in_front(front, sym, back);
    }
}

proof fn joined_text(front: Seq<char>, separator: char, back: Seq<char>)
    ensures
        ({
            let sym = front.push(separator) + back;
            let n = front.len() as int;
            &&& sym.len() == n + 1 + back.len()
            &&& forall|k: int| 0 <= k < n ==> #[trigger] sym[k] == front[k]
            &&& sym[n] == separator
            &&& forall|k: int| 0 <= k < back.len() ==> #[trigger] back[k] == sym[k + n + 1]
        }),
{
}

proof fn path_in_front(front: Seq<char>, sym: Seq<char>, i: int, mid: int, end: int)
    requires
        front.len() < sym.len(),
        forall|k: int| 0 <= k < front.len() ==> #[trigger] sym[k] == front[k],
        !crate::symbol::continues_segment(sym[front.len() as int]),
        crate::symbol::path_at(front, i, mid, end),
    ensures
        crate::symbol::path_at(sym, i, mid, end),
{
    segment_in_longer_text(front, sym, i, mid);
    segment_in_longer_text(front, sym, mid + 2, end);
}

proof fn path_of_front(front: Seq<char>, sym: Seq<char>, i: int, mid: int, end: int)
    requires
        front.len() < sym.len(),
        forall|k: int| 0 <= k < front.len() ==> #[trigger] sym[k] == front[k],
        !crate::symbol::continues_segment(sym[front.len() as int]),
        sym[front.len() as int] != ':',
        crate::symbol::path_at(sym, i, mid, end),
        i <= front.len(),
    ensures
        crate::symbol::path_at(front, i, mid, end),
{
    let n = front.len() as int;
    segment_stays_before(sym, n, i, mid);
    assert(mid != n);
    assert(mid + 1 != n);
    segment_stays_before(sym, n, mid + 2, end);
    segment_in_shorter_text(front, sym, i, mid);
    segment_in_shorter_text(front, sym, mid + 2, end);
    assert(sym[mid] == front[mid]);
    assert(sym[mid + 1] == front[mid + 1]);
    if i > 0 {
        assert(sym[i - 1] == front[i - 1]);
    }
}

proof fn path_in_back(back: Seq<char>, sym: Seq<char>, s: int, i: int, mid: int, end: int)
    requires
        s > 0,
        sym.len() == s + back.len(),
        forall|k: int| 0 <= k < back.len() ==> #[trigger] back[k] == sym[k + s],
        !crate::symbol::in_identifier(sym[s - 1]),
        crate::symbol::path_at(back, i, mid, end),
    ensures
        crate::symbol::path_at(sym, i + s, mid + s, end + s),
{
    shifted_segment(back, sym, s, i, mid);
    shifted_segment(back, sym, s, mid + 2, end);
    assert(back[mid] == sym[mid + s]);
    assert(back[mid + 1] == sym[mid + 1 + s]);
    if i > 0 {
        assert(back[i - 1] == sym[i - 1 + s]);
    }
}

proof fn path_of_back(back: Seq<char>, sym: Seq<char>, s: int, i: int, mid: int, end: int)
    requires
        s > 0,
        sym.len() == s + back.len(),
        forall|k: int| 0 <= k < back.len() ==> #[trigger] back[k] == sym[k + s],
        crate::symbol::path_at(sym, i, mid, end),
        i >= s,
    ensures
        crate::symbol::path_at(back, i - s, mid - s, end - s),
{
    shifted_back_segment(back, sym, s, i, mid);
    shifted_back_segment(back, sym, s, mid + 2, end);
    assert(back[mid - s] == sym[mid]);
    assert(back[mid + 1 - s] == sym[mid + 1]);
    if i > s {
        assert(back[i - 1 - s] == sym[i - 1]);
    }
}

proof fn nothing_in_front(front: Seq<char>, sym: Seq<char>, back: Seq<char>)
    requires
        crate::symbol::identity_of(front) is None,
        sym.len() == front.len() + 1 + back.len(),
        forall|k: int| 0 <= k < front.len() ==> #[trigger] sym[k] == front[k],
        forall|k: int| 0 <= k < back.len() ==> #[trigger] back[k] == sym[k + front.len() + 1],
        !crate::symbol::in_identifier(sym[front.len() as int]),
        sym[front.len() as int] != ':',
    ensures
        crate::symbol::identity_of(sym) == crate::symbol::identity_of(back),
{
    let n = front.len() as int;
    let s = n + 1;
    assert forall|a: int, b: int, c: int| #[trigger] crate::symbol::path_at(
        sym,
        a,
        b,
        c,
    ) implies a >= s by {
        if a <= n {
            path_of_front(front, sym, a, b, c);
            let at = earliest_path(front, a, b, c);
        }
    }
    if crate::symbol::identity_of(back) is Some {
        let (i, mid, end) = choose|i: int, mid: int, end: int|
            crate::symbol::first_path(back, i, mid, end);
        path_in_back(back, sym, s, i, mid, end);
        assert forall|a: int, b: int, c: int| #[trigger] crate::symbol::path_at(
            sym,
            a,
            b,
            c,
        ) implies i + s <= a by {
            path_of_back(back, sym, s, a, b, c);
        }
        assert(crate::symbol::first_path(sym, i + s, mid + s, end + s));
        crate::symbol::identity_from_first_path(sym, i + s, mid + s, end + s);
        crate::symbol::identity_from_first_path(back, i, mid, end);
        assert(sym.subrange(i + s, mid + s) =~= back.subrange(i, mid));
        assert(sym.subrange(mid + s + 2, end + s) =~= back.subrange(mid + 2, end));
    } else {
        assert forall|a: int, b: int, c: int| !#[trigger] crate::symbol::path_at(
            sym,
            a,
            b,
            c,
        ) by {
            if crate::symbol::path_at(sym, a, b, c) {
                path_of_back(back, sym, s, a, b, c);
                let at = earliest_path(back, a - s, b - s, c - s);
            }
        }
        crate::symbol::identity_without_path(sym);
    }
}

proof fn segment_in_longer_text(short: Seq<char>, long: Seq<char>, from: int, to: int)
    requires
        short.len() < long.len(),
        forall|k: int| 0 <= k < short.len() ==> #[trigger] long[k] == short[k],
        !crate::symbol::continues_segment(long[short.len() as int]),
        crate::symbol::is_segment(short, from, to),
    ensures
        crate::symbol::is_segment(long, from, to),
{
    assert forall|k: int| from < k < to implies crate::symbol::continues_segment(
        #[trigger] long[k],
    ) by {
        assert(crate::symbol::continues_segment(short[k]));
    }
}

proof fn segment_in_shorter_text(short: Seq<char>, long: Seq<char>, from: int, to: int)
    requires
        short.len() < long.len(),
        forall|k: int| 0 <= k < short.len() ==> #[trigger] long[k] == short[k],
        crate::symbol::is_segment(long, from, to),
        to <= short.len(),
    ensures
        crate::symbol::is_segment(short, from, to),
{
    assert forall|k: int| from < k < to implies crate::symbol::continues_segment(
        #[trigger] short[k],
    ) by {
        assert(crate::symbol::continues_segment(long[k]));
    }
}

proof fn segment_stays_before(sym: Seq<char>, n: int, from: int, to: int)
    requires
        0 <= from <= n < sym.len(),
        !crate::symbol::continues_segment(sym[n]),
        crate::symbol::is_segment(sym, from, to),
    ensures
        to <= n,
{
    if to > n {
        if from < n {
            assert(crate::symbol::continues_segment(sym[n]));
        }
    }
}

proof fn shifted_segment(back: Seq<char>, sym: Seq<char>, s: int, from: int, to: int)
    requires
        sym.len() == back.len() + s,
        s >= 0,
        forall|k: int| 0 <= k < back.len() ==> #[trigger] back[k] == sym[k + s],
        crate::symbol::is_segment(back, from, to),
    ensures
        crate::symbol::is_segment(sym, from + s, to + s),
{
    assert forall|k: int| from + s < k < to + s implies crate::symbol::continues_segment(
        #[trigger] sym[k],
    ) by {
        assert(crate::symbol::continues_segment(back[k - s]));
    }
    assert(back[from] == sym[from + s]);
    if to < back.len() {
        assert(back[to] == sym[to + s]);
    }
}

proof fn shifted_back_segment(back: Seq<char>, sym: Seq<char>, s: int, from: int, to: int)
    requires
        sym.len() == back.len() + s,
        s >= 0,
        from >= s,
        forall|k: int| 0 <= k < back.len() ==> #[trigger] back[k] == sym[k + s],
        crate::symbol::is_segment(sym, from, to),
    ensures
        crate::symbol::is_segment(back, from - s, to - s),
{
    assert forall|k: int| from - s < k < to - s implies crate::symbol::continues_segment(
        #[trigger] back[k],
    ) by {
        assert(crate::symbol::continues_segment(sym[k + s]));
    }
    assert(back[from - s] == sym[from]);
    if to < sym.len() {
        assert(back[to - s] == sym[to]);
    }
}

/// A symbol without `::` has no identity.
pub proof fn without_double_colon_no_identity(sym: Seq<char>)
    requires
        forall|k: int| 0 <= k < sym.len() - 1 ==> !((#[trigger] sym[k]) == ':' && sym[k + 1]
            == ':'),
    ensures
        crate::symbol::identity_of(sym) is None,
{
    if crate::symbol::identity_of(sym) is Some {
        let at = an_identity_is_a_path(sym);
        assert(sym[at.1] == ':');
    }
}

/// The node of a frame: its own module, with the id `crate::module`, when the crate's name begins
/// with one of the prefixes, character by character; `runtime` throughout otherwise.
pub proof fn a_frame_has_its_own_node_or_runtime(sym: Seq<char>, prefixes: Seq<Seq<char>>)
    ensures
        ({
            let node = crate::symbol::node_of(sym, prefixes);
            let runtime = seq!['r', 'u', 'n', 't', 'i', 'm', 'e'];
            match crate::symbol::identity_of(sym) {
                Some((crate_name, module)) => {
                    &&& forall|p: int|
                        0 <= p < prefixes.len() && (#[trigger] prefixes[p]).len()
                            <= crate_name.len() && (forall|k: int|
                            0 <= k < prefixes[p].len() ==> prefixes[p][k] == crate_name[k]) ==> {
                            &&& node.crate_name == crate_name
                            &&& node.module == module
                            &&& node.id == crate_name + seq![':', ':'] + module
                        }
                    &&& (forall|p: int|
                        0 <= p < prefixes.len() ==> (#[trigger] prefixes[p]).len()
                            > crate_name.len() || exists|k: int|
                            0 <= k < prefixes[p].len() && prefixes[p][k] != crate_name[k]) ==> {
                        &&& node.id == runtime
                        &&& node.crate_name == runtime
                        &&& node.module == runtime
                    }
                },
                None => {
                    &&& node.id == runtime
                    &&& node.crate_name == runtime
                    &&& node.module == runtime
                },
            }
        }),
{
    reveal_strlit("runtime");
    assert(crate::symbol::RUNTIME_ID@ =~= seq!['r', 'u', 'n', 't', 'i', 'm', 'e']);
    match crate::symbol::identity_of(sym) {
        Some((crate_name, module)) => {
            assert forall|p: int|
                0 <= p < prefixes.len() && (#[trigger] prefixes[p]).len() <= crate_name.len() && (
                forall|k: int|
                    0 <= k < prefixes[p].len() ==> prefixes[p][k]
                        == crate_name[k]) implies crate::symbol::is_app(crate_name, prefixes) by {
                assert(prefixes[p] =~= crate_name.subrange(0, prefixes[p].len() as int));
                assert(prefixes[p].is_prefix_of(crate_name));
            }
            if crate::symbol::is_app(crate_name, prefixes) {
                let p = choose|p: int|
                    0 <= p < prefixes.len() && #[trigger] prefixes[p].is_prefix_of(crate_name);
                assert forall|k: int| 0 <= k < prefixes[p].len() implies prefixes[p][k]
                    == crate_name[k] by {
                    assert(crate_name.subrange(0, prefixes[p].len() as int)[k] == crate_name[k]);
                }
            }
        },
        None => {},
    }
}

/// A name that begins as a runtime crate's does is a runtime crate's, however it goes on.
pub proof fn runtime_names_go_on(name: Seq<char>, more: Seq<char>)
    requires
        crate::symbol::known_runtime(name),
    ensures
        crate::symbol::known_runtime(name + more),
{
    let longer = name + more;
    assert forall|p: Seq<char>| #[trigger] p.is_prefix_of(name) implies p.is_prefix_of(
        longer,
    ) by {
        assert(longer.subrange(0, p.len() as int) =~= name.subrange(0, p.len() as int));
    }
}

/// The listed names, and whatever begins with them, are runtime crates, and no other names are.
pub proof fn runtime_names_are_the_listed_ones(name: Seq<char>)
    ensures
        crate::symbol::known_runtime(name) <==> exists|p: Seq<char>|
            #![trigger name.subrange(0, p.len() as int)]
            p.len() <= name.len() && name.subrange(0, p.len() as int) == p && seq![
                "std"@, "core"@, "alloc"@, "tokio"@, "hyper"@, "h2"@, "mio"@, "futures"@,
                "futures_util"@, "futures_core"@, "futures_task"@, "serde"@, "serde_json"@,
                "tracing"@, "tracing_core"@, "tracing_subscriber"@, "bytes"@, "http"@, "tower"@,
                "tower_http"@, "rustls"@, "tokio_util"@, "pin_project"@, "pin_project_lite"@,
                "backtrace"@, "gimli"@, "libc"@, "parking_lot"@, "parking_lot_core"@,
                "crossbeam"@, "crossbeam_utils"@, "crossbeam_channel"@, "once_cell"@, "smallvec"@,
                "hashbrown"@, "aws_smithy_runtime"@, "aws_smithy_runtime_api"@,
                "aws_smithy_async"@, "aws_smithy_types"@, "aws_config"@, "aws_sigv4"@,
                "aws_runtime"@, "matchit"@, "num_cpus"@, "slab"@, "socket2"@, "want"@,
                "tokio_rustls"@,
            ].contains(p),
{
    let list = seq![
        "std"@, "core"@, "alloc"@, "tokio"@, "hyper"@, "h2"@, "mio"@, "futures"@,
        "futures_util"@, "futures_core"@, "futures_task"@, "serde"@, "serde_json"@,
        "tracing"@, "tracing_core"@, "tracing_subscriber"@, "bytes"@, "http"@, "tower"@,
        "tower_http"@, "rustls"@, "tokio_util"@, "pin_project"@, "pin_project_lite"@,
        "backtrace"@, "gimli"@, "libc"@, "parking_lot"@, "parking_lot_core"@,
        "crossbeam"@, "crossbeam_utils"@, "crossbeam_channel"@, "once_cell"@, "smallvec"@,
        "hashbrown"@, "aws_smithy_runtime"@, "aws_smithy_runtime_api"@,
        "aws_smithy_async"@, "aws_smithy_types"@, "aws_config"@, "aws_sigv4"@,
        "aws_runtime"@, "matchit"@, "num_cpus"@, "slab"@, "socket2"@, "want"@,
        "tokio_rustls"@,
    ];
    assert(list.len() == 48);
    assert(crate::symbol::known_runtime(name) <==> exists|k: int|
        0 <= k < 48 && (#[trigger] list[k]).is_prefix_of(name)) by {
        if crate::symbol::known_runtime(name) {
            assert(list[0].is_prefix_of(name) || list[1].is_prefix_of(name)
                || list[2].is_prefix_of(name) || list[3].is_prefix_of(name)
                || list[4].is_prefix_of(name) || list[5].is_prefix_of(name)
                || list[6].is_prefix_of(name) || list[7].is_prefix_of(name)
                || list[8].is_prefix_of(name) || list[9].is_prefix_of(name)
                || list[10].is_prefix_of(name) || list[11].is_prefix_of(name)
                || list[12].is_prefix_of(name) || list[13].is_prefix_of(name)
                || list[14].is_prefix_of(name) || list[15].is_prefix_of(name)
                || list[16].is_prefix_of(name) || list[17].is_prefix_of(name)
                || list[18].is_prefix_of(name) || list[19].is_prefix_of(name)
                || list[20].is_prefix_of(name) || list[21].is_prefix_of(name)
                || list[22].is_prefix_of(name) || list[23].is_prefix_of(name)
                || list[24].is_prefix_of(name) || list[25].is_prefix_of(name)
                || list[26].is_prefix_of(name) || list[27].is_prefix_of(name)
                || list[28].is_prefix_of(name) || list[29].is_prefix_of(name)
                || list[30].is_prefix_of(name) || list[31].is_prefix_of(name)
                || list[32].is_prefix_of(name) || list[33].is_prefix_of(name)
                || list[34].is_prefix_of(name) || list[35].is_prefix_of(name)
                || list[36].is_prefix_of(name) || list[37].is_prefix_of(name)
                || list[38].is_prefix_of(name) || list[39].is_prefix_of(name)
                || list[40].is_prefix_of(name) || list[41].is_prefix_of(name)
                || list[42].is_prefix_of(name) || list[43].is_prefix_of(name)
                || list[44].is_prefix_of(name) || list[45].is_prefix_of(name)
                || list[46].is_prefix_of(name) || list[47].is_prefix_of(name));
        }
    }
    if crate::symbol::known_runtime(name) {
        let k = choose|k: int| 0 <= k < 48 && (#[trigger] list[k]).is_prefix_of(name);
        assert(list.contains(list[k]));
        assert(name.subrange(0, list[k].len() as int) == list[k]);
    }
    if exists|p: Seq<char>|
        #![trigger name.subrange(0, p.len() as int)]
        p.len() <= name.len() && name.subrange(0, p.len() as int) == p && list.contains(p) {
        let p = choose|p: Seq<char>|
            #![trigger name.subrange(0, p.len() as int)]
            p.len() <= name.len() && name.subrange(0, p.len() as int) == p && list.contains(p);
        let k = choose|k: int| 0 <= k < list.len() && list[k] == p;
        assert(list[k].is_prefix_of(name));
    }
}

/// The chain of a stack by index over its frames, which are stored leaf first. Every frame has its
/// place in the chain, and its node stands there. The root frame has place 0; a frame whose node is
/// that of its caller shares the caller's place, and every other frame has the next place. The
/// chain ends with the leaf frame.
pub proof fn a_chain_collapses_runs_alone(
    frames: Seq<Seq<char>>,
    prefixes: Seq<Seq<char>>,
) -> (places: Seq<int>)
    ensures
        places.len() == frames.len(),
        frames.len() == 0 ==> crate::chain::chain(frames, prefixes).len() == 0,
        frames.len() > 0 ==> places[frames.len() - 1] == 0,
        frames.len() > 0 ==> crate::chain::chain(frames, prefixes).len() == places[0] + 1,
        forall|k: int|
            0 <= k < frames.len() ==> 0 <= (#[trigger] places[k]) < crate::chain::chain(
                frames,
                prefixes,
            ).len() && crate::chain::chain(frames, prefixes)[places[k]] == crate::symbol::node_of(
                frames[k],
                prefixes,
            ),
        forall|k: int|
            0 <= k < frames.len() - 1 ==> (#[trigger] places[k]) == places[k + 1] + if
                crate::symbol::node_of(frames[k], prefixes) == crate::symbol::node_of(
                frames[k + 1],
                prefixes,
            ) {
                0int
            } else {
                1int
            },
    decreases frames.len(),
{
    if frames.len() == 0 {
        Seq::empty()
    } else {
        let tail = frames.drop_first();
        let rest = a_chain_collapses_runs_alone(tail, prefixes);
        let callers = crate::chain::chain(tail, prefixes);
        let whole = crate::chain::chain(frames, prefixes);
        let own = crate::symbol::node_of(frames[0], prefixes);
        if tail.len() == 0 {
            seq![0int]
        } else {
            let near = crate::symbol::node_of(tail[0], prefixes);
            assert(callers[rest[0]] == near);
            assert(callers.last() == near);
            if near.id == own.id {
                crate::symbol::node_id_determines_node(tail[0], prefixes, frames[0], prefixes);
            }
            let first = rest[0] + if own == near {
                0int
            } else {
                1int
            };
            let places = seq![first] + rest;
            assert forall|k: int| 0 <= k < frames.len() implies 0 <= (#[trigger] places[k])
                < whole.len() && whole[places[k]] == crate::symbol::node_of(
                frames[k],
                prefixes,
            ) by {
                if k > 0 {
                    assert(places[k] == rest[k - 1]);
                    assert(frames[k] == tail[k - 1]);
                }
            }
            assert forall|k: int| 0 <= k < frames.len() - 1 implies (#[trigger] places[k])
                == places[k + 1] + if crate::symbol::node_of(frames[k], prefixes)
                == crate::symbol::node_of(frames[k + 1], prefixes) {
                0int
            } else {
                1int
            } by {
                assert(places[k + 1] == rest[k]);
                assert(frames[k + 1] == tail[k]);
                if k > 0 {
                    assert(places[k] == rest[k - 1]);
                    assert(frames[k] == tail[k - 1]);
                }
            }
            assert(places[frames.len() - 1] == rest[tail.len() - 1]);
            places
        }
    }
}

/// The chain goes straight from a caller's node to its callee's, wherever the two differ.
pub proof fn every_call_between_nodes_is_a_transition(
    frames: Seq<Seq<char>>,
    prefixes: Seq<Seq<char>>,
    k: int,
) -> (at: int)
    requires
        0 <= k < frames.len() - 1,
        crate::symbol::node_of(frames[k], prefixes) != crate::symbol::node_of(
            frames[k + 1],
            prefixes,
        ),
    ensures
        0 < at < crate::chain::chain(frames, prefixes).len(),
        crate::chain::chain(frames, prefixes)[at - 1] == crate::symbol::node_of(
            frames[k + 1],
            prefixes,
        ),
        crate::chain::chain(frames, prefixes)[at] == crate::symbol::node_of(frames[k], prefixes),
{
    let places = a_chain_collapses_runs_alone(frames, prefixes);
    assert(places[k] == places[k + 1] + 1);
    places[k]
}

/// Every transition of a chain is a call from one frame to the next.
pub proof fn every_transition_is_a_call_between_nodes(
    frames: Seq<Seq<char>>,
    prefixes: Seq<Seq<char>>,
    at: int,
) -> (k: int)
    requires
        0 < at < crate::chain::chain(frames, prefixes).len(),
    ensures
        0 <= k < frames.len() - 1,
        crate::chain::chain(frames, prefixes)[at - 1] == crate::symbol::node_of(
            frames[k + 1],
            prefixes,
        ),
        crate::chain::chain(frames, prefixes)[at] == crate::symbol::node_of(frames[k], prefixes),
        crate::symbol::node_of(frames[k], prefixes) != crate::symbol::node_of(
            frames[k + 1],
            prefixes,
        ),
{
    let places = a_chain_collapses_runs_alone(frames, prefixes);
    let k = first_place(frames, prefixes, places, at, (frames.len() - 1) as int);
    k
}

/// Walking up from the leaf, the last frame at a place is called from the place before.
proof fn first_place(
    frames: Seq<Seq<char>>,
    prefixes: Seq<Seq<char>>,
    places: Seq<int>,
    at: int,
    top: int,
) -> (k: int)
    requires
        places.len() == frames.len(),
        0 <= top < frames.len(),
        places[top] < at <= places[0],
        forall|k: int|
            0 <= k < frames.len() - 1 ==> (#[trigger] places[k]) == places[k + 1] + if
                crate::symbol::node_of(frames[k], prefixes) == crate::symbol::node_of(
                frames[k + 1],
                prefixes,
            ) {
                0int
            } else {
                1int
            },
    ensures
        0 <= k < frames.len() - 1,
        places[k] == at,
        places[k + 1] == at - 1,
        crate::symbol::node_of(frames[k], prefixes) != crate::symbol::node_of(
            frames[k + 1],
            prefixes,
        ),
    decreases top,
{
    let below = top - 1;
    assert(places[below] == places[top] + if crate::symbol::node_of(frames[below], prefixes)
        == crate::symbol::node_of(frames[below + 1], prefixes) {
        0int
    } else {
        1int
    });
    if places[below] == at {
        below
    } else {
        first_place(frames, prefixes, places, at, below)
    }
}

/// One more callee at the leaf makes the chain one longer exactly where its node is not its
/// caller's, and changes nothing before it.
pub proof fn one_more_callee(frame: Seq<char>, frames: Seq<Seq<char>>, prefixes: Seq<Seq<char>>)
    requires
        frames.len() > 0,
    ensures
        crate::chain::chain(seq![frame] + frames, prefixes) == if crate::symbol::node_of(
            frame,
            prefixes,
        ) == crate::symbol::node_of(frames[0], prefixes) {
            crate::chain::chain(frames, prefixes)
        } else {
            crate::chain::chain(frames, prefixes).push(crate::symbol::node_of(frame, prefixes))
        },
{
    let all = seq![frame] + frames;
    assert(all.drop_first() =~= frames);
    let places = a_chain_collapses_runs_alone(frames, prefixes);
    let callers = crate::chain::chain(frames, prefixes);
    assert(callers[places[0]] == crate::symbol::node_of(frames[0], prefixes));
    assert(callers.last() == crate::symbol::node_of(frames[0], prefixes));
    if callers.last().id == crate::symbol::node_of(frame, prefixes).id {
        crate::symbol::node_id_determines_node(frames[0], prefixes, frame, prefixes);
    }
}

/// The hops of a chain are said to be what their texts say.
pub proof fn hops_are_their_texts(hops: Seq<crate::chain::Hop>, i: int)
    requires
        0 <= i < hops.len(),
    ensures
        crate::chain::hop_nodes(hops).len() == hops.len(),
        crate::chain::hop_nodes(hops)[i].id == hops[i].id@,
        crate::chain::hop_nodes(hops)[i].crate_name == hops[i].crate_name@,
        crate::chain::hop_nodes(hops)[i].module == hops[i].module@,
{
}

} // verus!
