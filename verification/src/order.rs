//! The lexicographic order of byte strings and of text.
use vstd::prelude::*;

verus! {

/// Where one value stands relative to another.
#[derive(Clone, Copy, Debug, PartialEq, Eq, Structural)]
pub enum Place {
    Before,
    Same,
    After,
}

/// `a` and `b` agree on their first `k` numbers.
pub open spec fn agree(a: Seq<int>, b: Seq<int>, k: int) -> bool {
    forall|i: int| 0 <= i < k ==> #[trigger] a[i] == b[i]
}

/// `a` differs from `b` for the first time at `k`, and is the smaller one there: either it ends,
/// or its number is smaller.
pub open spec fn smaller_at(a: Seq<int>, b: Seq<int>, k: int) -> bool {
    &&& 0 <= k <= a.len()
    &&& k < b.len()
    &&& agree(a, b, k)
    &&& (k == a.len() || a[k] < b[k])
}

/// `a` comes strictly before `b` in the lexicographic order of number sequences.
pub open spec fn precedes(a: Seq<int>, b: Seq<int>) -> bool {
    exists|k: int| smaller_at(a, b, k)
}

/// The numbers that order a byte string.
pub open spec fn byte_codes(s: Seq<u8>) -> Seq<int> {
    s.map_values(|b: u8| b as int)
}

/// The numbers that order a text: its code points.
pub open spec fn char_codes(s: Seq<char>) -> Seq<int> {
    s.map_values(|c: char| c as int)
}

/// `a` comes strictly before `b` as a byte string.
pub open spec fn bytes_before(a: Seq<u8>, b: Seq<u8>) -> bool {
    precedes(byte_codes(a), byte_codes(b))
}

/// `a` comes strictly before `b` as text, by code points. This is the order of `str`.
pub open spec fn text_before(a: Seq<char>, b: Seq<char>) -> bool {
    precedes(char_codes(a), char_codes(b))
}

/// The order is strict: nothing precedes itself, and no two sequences precede each other.
pub proof fn precedes_is_strict(a: Seq<int>, b: Seq<int>)
    ensures
        !precedes(a, a),
        precedes(a, b) ==> !precedes(b, a),
{
    if precedes(a, b) && precedes(b, a) {
        let j = choose|j: int| smaller_at(a, b, j);
        let k = choose|k: int| smaller_at(b, a, k);
        if j < k {
            assert(b[j] == a[j]);
        } else if k < j {
            assert(a[k] == b[k]);
        }
    }
}

/// The order is transitive.
pub proof fn precedes_is_transitive(a: Seq<int>, b: Seq<int>, c: Seq<int>)
    requires
        precedes(a, b),
        precedes(b, c),
    ensures
        precedes(a, c),
{
    let j = choose|j: int| smaller_at(a, b, j);
    let k = choose|k: int| smaller_at(b, c, k);
    let m = if j < k { j } else { k };
    assert forall|i: int| 0 <= i < m implies #[trigger] a[i] == c[i] by {
        assert(a[i] == b[i]);
        assert(b[i] == c[i]);
    }
    if j < k {
        assert(b[j] == c[j]);
    } else if k < j {
        assert(a[k] == b[k]);
    }
    assert(smaller_at(a, c, m));
}

/// The order is total: of two different sequences one precedes the other.
pub proof fn precedes_is_total(a: Seq<int>, b: Seq<int>)
    ensures
        precedes(a, b) || precedes(b, a) || a == b,
{
    first_difference(a, b, 0);
}

proof fn first_difference(a: Seq<int>, b: Seq<int>, k: int)
    requires
        0 <= k <= a.len(),
        k <= b.len(),
        agree(a, b, k),
    ensures
        precedes(a, b) || precedes(b, a) || a == b,
    decreases a.len() - k,
{
    if k < a.len() && k < b.len() {
        if a[k] == b[k] {
            assert(agree(a, b, k + 1));
            first_difference(a, b, k + 1);
        } else if a[k] < b[k] {
            assert(smaller_at(a, b, k));
        } else {
            assert(smaller_at(b, a, k));
        }
    } else if k < b.len() {
        assert(smaller_at(a, b, k));
    } else if k < a.len() {
        assert(smaller_at(b, a, k));
    } else {
        assert(a =~= b);
    }
}

proof fn char_codes_pointwise(s: Seq<char>)
    ensures
        char_codes(s).len() == s.len(),
        forall|i: int| 0 <= i < s.len() ==> char_codes(s)[i] == #[trigger] s[i] as int,
{
}

/// Two texts with the same code points are the same.
pub proof fn char_codes_injective(a: Seq<char>, b: Seq<char>)
    requires
        char_codes(a) == char_codes(b),
    ensures
        a == b,
{
    char_codes_pointwise(a);
    char_codes_pointwise(b);
    assert(a =~= b);
}

/// Compares two byte strings.
pub fn place_bytes(a: &[u8], b: &[u8]) -> (place: Place)
    ensures
        match place {
            Place::Before => bytes_before(a@, b@),
            Place::Same => a@ == b@,
            Place::After => bytes_before(b@, a@),
        },
{
    let mut k: usize = 0;
    while k < a.len() && k < b.len()
        invariant
            k <= a@.len(),
            k <= b@.len(),
            forall|i: int| 0 <= i < k ==> a@[i] == b@[i],
        decreases a@.len() - k,
    {
        if a[k] < b[k] {
            assert(smaller_at(byte_codes(a@), byte_codes(b@), k as int));
            return Place::Before;
        }
        if b[k] < a[k] {
            assert(smaller_at(byte_codes(b@), byte_codes(a@), k as int));
            return Place::After;
        }
        k = k + 1;
    }
    if k < b.len() {
        assert(smaller_at(byte_codes(a@), byte_codes(b@), k as int));
        Place::Before
    } else if k < a.len() {
        assert(smaller_at(byte_codes(b@), byte_codes(a@), k as int));
        Place::After
    } else {
        assert(a@ =~= b@);
        Place::Same
    }
}

/// The characters of a text.
pub fn text_chars(s: &str) -> (chars: Vec<char>)
    ensures
        chars@ == s@,
{
    let mut chars: Vec<char> = Vec::new();
    for c in iter: s.chars()
        invariant
            iter.seq() == s@,
            chars@ == s@.take(iter.index() as int),
    {
        chars.push(c);
    }
    assert(s@.take(s@.len() as int) =~= s@);
    chars
}

/// Compares two texts.
pub fn place_text(a: &str, b: &str) -> (place: Place)
    ensures
        match place {
            Place::Before => text_before(a@, b@),
            Place::Same => a@ == b@,
            Place::After => text_before(b@, a@),
        },
{
    let x = text_chars(a);
    let y = text_chars(b);
    let mut k: usize = 0;
    while k < x.len() && k < y.len()
        invariant
            x@ == a@,
            y@ == b@,
            k <= x@.len(),
            k <= y@.len(),
            forall|i: int| 0 <= i < k ==> x@[i] == y@[i],
        decreases x@.len() - k,
    {
        if x[k] < y[k] {
            assert(smaller_at(char_codes(a@), char_codes(b@), k as int));
            return Place::Before;
        }
        if y[k] < x[k] {
            assert(smaller_at(char_codes(b@), char_codes(a@), k as int));
            return Place::After;
        }
        k = k + 1;
    }
    if k < y.len() {
        assert(smaller_at(char_codes(a@), char_codes(b@), k as int));
        Place::Before
    } else if k < x.len() {
        assert(smaller_at(char_codes(b@), char_codes(a@), k as int));
        Place::After
    } else {
        assert(a@ =~= b@);
        Place::Same
    }
}

/// Whether two texts are the same.
pub fn same_text(a: &str, b: &str) -> (same: bool)
    ensures
        same == (a@ == b@),
{
    let place = place_text(a, b);
    proof {
        precedes_is_strict(char_codes(a@), char_codes(b@));
    }
    match place {
        Place::Same => true,
        _ => false,
    }
}

} // verus!
