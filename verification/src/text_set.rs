//! Sets of texts, kept as sorted lists.
use vstd::prelude::*;

use crate::order::{place_text, Place};

verus! {

/// The texts are strictly ascending, so none occurs twice.
pub open spec fn ascending_texts(names: Seq<Seq<char>>) -> bool {
    forall|i: int, j: int|
        #![trigger names[i], names[j]]
        0 <= i < j < names.len() ==> crate::order::text_before(names[i], names[j])
}

/// Adds a text to a sorted list, unless it is there already.
pub fn insert_text(names: &mut Vec<String>, name: String)
    requires
        ascending_texts(crate::columns::texts(old(names)@)),
    ensures
        ascending_texts(crate::columns::texts(final(names)@)),
        forall|t: Seq<char>|
            #![trigger crate::columns::texts(final(names)@).contains(t)]
            crate::columns::texts(final(names)@).contains(t) <==> (crate::columns::texts(
                old(names)@,
            ).contains(t) || t == name@),
{
    let ghost before = crate::columns::texts(names@);
    let mut pos: usize = 0;
    while pos < names.len()
        invariant
            pos <= names@.len(),
            names@ == old(names)@,
            before == crate::columns::texts(names@),
            forall|i: int|
                0 <= i < pos ==> crate::order::text_before(#[trigger] before[i], name@),
            ascending_texts(before),
        ensures
            pos <= names@.len(),
            names@ == old(names)@,
            forall|i: int|
                0 <= i < pos ==> crate::order::text_before(#[trigger] before[i], name@),
            pos < names@.len() ==> crate::order::text_before(name@, before[pos as int]),
        decreases names@.len() - pos,
    {
        assert(before[pos as int] == names@[pos as int]@);
        match place_text(names[pos].as_str(), name.as_str()) {
            Place::Before => {
                pos = pos + 1;
            },
            Place::Same => {
                assert(before[pos as int] == name@);
                return;
            },
            Place::After => {
                break;
            },
        }
    }
    names.insert(pos, name);
    proof {
        let after = crate::columns::texts(names@);
        let p = pos as int;
        assert(after =~= before.insert(p, name@));
        assert forall|i: int| p <= i < before.len() implies crate::order::text_before(
            name@,
            #[trigger] before[i],
        ) by {
            if p < i {
                crate::order::precedes_is_transitive(
                    crate::order::char_codes(name@),
                    crate::order::char_codes(before[p]),
                    crate::order::char_codes(before[i]),
                );
            }
        }
        assert forall|i: int, j: int|
            #![trigger after[i], after[j]]
            0 <= i < j < after.len() implies crate::order::text_before(after[i], after[j]) by {
            let a = if i < p { i } else { i - 1 };
            let b = if j < p { j } else { j - 1 };
            if i != p {
                assert(after[i] == before[a]);
            }
            if j != p {
                assert(after[j] == before[b]);
            }
        }
        assert forall|t: Seq<char>| #[trigger] after.contains(t) <==> (before.contains(t) || t
            == name@) by {
            if after.contains(t) {
                let i = choose|i: int| 0 <= i < after.len() && after[i] == t;
                if i != p {
                    let a = if i < p { i } else { i - 1 };
                    assert(after[i] == before[a]);
                }
            }
            if before.contains(t) {
                let a = choose|a: int| 0 <= a < before.len() && before[a] == t;
                let i = if a < p { a } else { a + 1 };
                assert(after[i] == before[a]);
            }
            if t == name@ {
                assert(after[p] == t);
            }
        }
    }
}

/// Two sorted lists of the same texts are the same list.
pub proof fn sorted_list_is_unique(a: Seq<Seq<char>>, b: Seq<Seq<char>>)
    requires
        ascending_texts(a),
        ascending_texts(b),
        forall|t: Seq<char>| #![trigger a.contains(t)] a.contains(t) <==> b.contains(t),
    ensures
        a == b,
    decreases a.len(),
{
    if a.len() == 0 {
        if b.len() > 0 {
            assert(b.contains(b[0]));
            assert(a.contains(b[0]));
        }
        assert(a =~= b);
    } else {
        assert(a.contains(a.last()));
        let j = choose|j: int| 0 <= j < b.len() && b[j] == a.last();
        assert(b.contains(b.last()));
        assert(a.contains(b.last()));
        let i = choose|i: int| 0 <= i < a.len() && a[i] == b.last();
        crate::order::precedes_is_strict(
            crate::order::char_codes(a.last()),
            crate::order::char_codes(b.last()),
        );
        assert(a.last() == b.last()) by {
            if j < b.len() - 1 && i < a.len() - 1 {
                assert(crate::order::text_before(b[j], b[b.len() - 1]));
                assert(crate::order::text_before(a[i], a[a.len() - 1]));
            }
        }
        let x = a.drop_last();
        let y = b.drop_last();
        assert forall|m: int, n: int| #![trigger x[m], x[n]]
            0 <= m < n < x.len() implies crate::order::text_before(x[m], x[n]) by {
            assert(x[m] == a[m] && x[n] == a[n]);
        }
        assert forall|m: int, n: int| #![trigger y[m], y[n]]
            0 <= m < n < y.len() implies crate::order::text_before(y[m], y[n]) by {
            assert(y[m] == b[m] && y[n] == b[n]);
        }
        assert forall|t: Seq<char>| #![trigger x.contains(t)] x.contains(t) <==> y.contains(t) by {
            crate::order::precedes_is_strict(
                crate::order::char_codes(t),
                crate::order::char_codes(a.last()),
            );
            if x.contains(t) {
                let m = choose|m: int| 0 <= m < x.len() && x[m] == t;
                assert(crate::order::text_before(a[m], a[a.len() - 1]));
                assert(a.contains(t));
                let n = choose|n: int| 0 <= n < b.len() && b[n] == t;
                assert(n != b.len() - 1);
                assert(y[n] == t);
            }
            if y.contains(t) {
                let n = choose|n: int| 0 <= n < y.len() && y[n] == t;
                assert(crate::order::text_before(b[n], b[b.len() - 1]));
                assert(b[n] == t);
                assert(b.contains(t));
                assert(a.contains(t));
                let m = choose|m: int| 0 <= m < a.len() && a[m] == t;
                assert(m != a.len() - 1);
                assert(x[m] == t);
            }
        }
        sorted_list_is_unique(x, y);
        assert(a =~= x.push(a.last()));
        assert(b =~= y.push(b.last()));
    }
}

} // verus!
