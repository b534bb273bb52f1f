//! A map keyed by byte-string ids, kept as a vector sorted by id.
use vstd::prelude::*;

use crate::order::{place_bytes, Place};

verus! {

/// The rows are strictly ascending by id, so no id occurs twice.
pub open spec fn ascending<V>(rows: Seq<(Seq<u8>, V)>) -> bool {
    forall|i: int, j: int|
        #![trigger rows[i], rows[j]]
        0 <= i < j < rows.len() ==> crate::order::bytes_before(rows[i].0, rows[j].0)
}

/// Some row has this id.
pub open spec fn has_row<V>(rows: Seq<(Seq<u8>, V)>, id: Seq<u8>) -> bool {
    exists|i: int| 0 <= i < rows.len() && (#[trigger] rows[i]).0 == id
}

/// The map from the rows' ids to their values.
pub open spec fn rows_map<V>(rows: Seq<(Seq<u8>, V)>) -> Map<Seq<u8>, V> {
    Map::new(
        |id: Seq<u8>| has_row(rows, id),
        |id: Seq<u8>| rows[choose|i: int| 0 <= i < rows.len() && (#[trigger] rows[i]).0 == id].1,
    )
}

/// Ids in ascending rows are pairwise different.
pub proof fn ascending_ids_differ<V>(rows: Seq<(Seq<u8>, V)>, i: int, j: int)
    requires
        ascending(rows),
        0 <= i < rows.len(),
        0 <= j < rows.len(),
        rows[i].0 == rows[j].0,
    ensures
        i == j,
{
    crate::order::precedes_is_strict(
        crate::order::byte_codes(rows[i].0),
        crate::order::byte_codes(rows[j].0),
    );
}

/// Each row is found in the map under its id.
pub proof fn row_is_in_map<V>(rows: Seq<(Seq<u8>, V)>, i: int)
    requires
        ascending(rows),
        0 <= i < rows.len(),
    ensures
        rows_map(rows).contains_key(rows[i].0),
        rows_map(rows)[rows[i].0] == rows[i].1,
{
    let id = rows[i].0;
    assert(has_row(rows, id));
    let j = choose|j: int| 0 <= j < rows.len() && (#[trigger] rows[j]).0 == id;
    ascending_ids_differ(rows, i, j);
}

/// The map of finitely many rows is finite.
pub proof fn rows_map_is_finite<V>(rows: Seq<(Seq<u8>, V)>)
    ensures
        rows_map(rows).dom().finite(),
    decreases rows.len(),
{
    if rows.len() == 0 {
        assert(rows_map(rows).dom() =~= Set::empty());
    } else {
        let rest = rows.drop_last();
        rows_map_is_finite(rest);
        assert forall|id: Seq<u8>| #[trigger] rows_map(rows).dom().contains(id) implies rows_map(
            rest,
        ).dom().insert(rows.last().0).contains(id) by {
            let i = choose|i: int| 0 <= i < rows.len() && (#[trigger] rows[i]).0 == id;
            if i < rest.len() {
                assert(rest[i].0 == id);
            }
        }
        assert(rows_map(rows).dom().subset_of(rows_map(rest).dom().insert(rows.last().0)));
        vstd::set_lib::lemma_set_subset_finite(
            rows_map(rest).dom().insert(rows.last().0),
            rows_map(rows).dom(),
        );
    }
}

proof fn insert_row<V>(rows: Seq<(Seq<u8>, V)>, pos: int, id: Seq<u8>, value: V)
    requires
        ascending(rows),
        0 <= pos <= rows.len(),
        forall|i: int| 0 <= i < pos ==> crate::order::bytes_before((#[trigger] rows[i]).0, id),
        forall|i: int|
            pos <= i < rows.len() ==> crate::order::bytes_before(id, (#[trigger] rows[i]).0),
    ensures
        ascending(rows.insert(pos, (id, value))),
        rows_map(rows.insert(pos, (id, value))) == rows_map(rows).insert(id, value),
{
    let after = rows.insert(pos, (id, value));
    assert forall|i: int, j: int|
        #![trigger after[i], after[j]]
        0 <= i < j < after.len() implies crate::order::bytes_before(after[i].0, after[j].0) by {
        let a = if i < pos { i } else { i - 1 };
        let b = if j < pos { j } else { j - 1 };
        if i != pos {
            assert(after[i] == rows[a]);
        }
        if j != pos {
            assert(after[j] == rows[b]);
        }
    }
    assert forall|k: Seq<u8>| #[trigger] rows_map(after).contains_key(k) implies rows_map(
        rows,
    ).insert(id, value).contains_key(k) && rows_map(after)[k] == rows_map(rows).insert(
        id,
        value,
    )[k] by {
        let i = choose|i: int| 0 <= i < after.len() && (#[trigger] after[i]).0 == k;
        row_is_in_map(after, i);
        if i != pos {
            let a = if i < pos { i } else { i - 1 };
            assert(after[i] == rows[a]);
            row_is_in_map(rows, a);
            assert(after[pos].0 == id);
            if k == id {
                ascending_ids_differ(after, i, pos);
            }
        }
    }
    assert forall|k: Seq<u8>| #[trigger]
        rows_map(rows).insert(id, value).contains_key(k) implies rows_map(after).contains_key(
        k,
    ) by {
        if k == id {
            assert(after[pos].0 == k);
        } else {
            let a = choose|a: int| 0 <= a < rows.len() && (#[trigger] rows[a]).0 == k;
            let i = if a < pos { a } else { a + 1 };
            assert(after[i] == rows[a]);
        }
    }
    assert(rows_map(after) =~= rows_map(rows).insert(id, value));
}

proof fn replace_row<V>(rows: Seq<(Seq<u8>, V)>, pos: int, value: V)
    requires
        ascending(rows),
        0 <= pos < rows.len(),
    ensures
        ascending(rows.update(pos, (rows[pos].0, value))),
        rows_map(rows.update(pos, (rows[pos].0, value))) == rows_map(rows).insert(
            rows[pos].0,
            value,
        ),
{
    let id = rows[pos].0;
    let after = rows.update(pos, (id, value));
    assert forall|i: int| 0 <= i < rows.len() implies (#[trigger] after[i]).0 == rows[i].0 by {}
    assert forall|k: Seq<u8>| #[trigger] rows_map(after).contains_key(k) implies rows_map(
        rows,
    ).insert(id, value).contains_key(k) && rows_map(after)[k] == rows_map(rows).insert(
        id,
        value,
    )[k] by {
        let i = choose|i: int| 0 <= i < after.len() && (#[trigger] after[i]).0 == k;
        row_is_in_map(after, i);
        row_is_in_map(rows, i);
        if k == id {
            ascending_ids_differ(rows, i, pos);
        }
    }
    assert forall|k: Seq<u8>| #[trigger]
        rows_map(rows).insert(id, value).contains_key(k) implies rows_map(after).contains_key(
        k,
    ) by {
        if k == id {
            assert(after[pos].0 == k);
        } else {
            let a = choose|a: int| 0 <= a < rows.len() && (#[trigger] rows[a]).0 == k;
            assert(after[a].0 == k);
        }
    }
    assert(rows_map(after) =~= rows_map(rows).insert(id, value));
}

/// The sum of `f` over the entries of a finite map.
pub open spec fn map_sum<V>(map: Map<Seq<u8>, V>, f: spec_fn(Seq<u8>, V) -> nat) -> nat
    decreases map.dom().len(),
{
    if !map.dom().finite() || map.dom().len() == 0 {
        0
    } else {
        let id = map.dom().choose();
        f(id, map[id]) + map_sum(map.remove(id), f)
    }
}

/// Any entry can be taken out of a sum.
pub proof fn map_sum_takes_out<V>(
    map: Map<Seq<u8>, V>,
    f: spec_fn(Seq<u8>, V) -> nat,
    id: Seq<u8>,
)
    requires
        map.dom().finite(),
        map.contains_key(id),
    ensures
        map_sum(map, f) == f(id, map[id]) + map_sum(map.remove(id), f),
    decreases map.dom().len(),
{
    let first = map.dom().choose();
    assert(map.dom().contains(first));
    if first != id {
        map_sum_takes_out(map.remove(first), f, id);
        map_sum_takes_out(map.remove(id), f, first);
        assert(map.remove(first).remove(id) =~= map.remove(id).remove(first));
    }
}

/// Storing a value changes a sum by the difference at that id.
pub proof fn map_sum_after_insert<V>(
    map: Map<Seq<u8>, V>,
    f: spec_fn(Seq<u8>, V) -> nat,
    id: Seq<u8>,
    value: V,
)
    requires
        map.dom().finite(),
    ensures
        map_sum(map.insert(id, value), f) == f(id, value) + map_sum(map.remove(id), f),
        map.contains_key(id) ==> map_sum(map, f) == f(id, map[id]) + map_sum(map.remove(id), f),
        !map.contains_key(id) ==> map_sum(map, f) == map_sum(map.remove(id), f),
{
    let after = map.insert(id, value);
    map_sum_takes_out(after, f, id);
    assert(after.remove(id) =~= map.remove(id));
    if map.contains_key(id) {
        map_sum_takes_out(map, f, id);
    } else {
        assert(map.remove(id) =~= map);
    }
}

/// The sum of `f` over rows.
pub open spec fn rows_sum<V>(rows: Seq<(Seq<u8>, V)>, f: spec_fn(Seq<u8>, V) -> nat) -> nat
    decreases rows.len(),
{
    if rows.len() == 0 {
        0
    } else {
        rows_sum(rows.drop_last(), f) + f(rows.last().0, rows.last().1)
    }
}

/// Rows that weigh nothing sum to nothing.
pub proof fn rows_sum_of_nothing<V>(rows: Seq<(Seq<u8>, V)>, f: spec_fn(Seq<u8>, V) -> nat)
    requires
        forall|r: int| 0 <= r < rows.len() ==> f((#[trigger] rows[r]).0, rows[r].1) == 0,
    ensures
        rows_sum(rows, f) == 0,
    decreases rows.len(),
{
    if rows.len() > 0 {
        let rest = rows.drop_last();
        assert forall|r: int| 0 <= r < rest.len() implies f((#[trigger] rest[r]).0, rest[r].1)
            == 0 by {
            assert(rest[r] == rows[r]);
        }
        rows_sum_of_nothing(rest, f);
        assert(rows[rows.len() - 1] == rows.last());
    }
}

/// Summing over the rows is summing over their map.
pub proof fn rows_sum_is_map_sum<V>(rows: Seq<(Seq<u8>, V)>, f: spec_fn(Seq<u8>, V) -> nat)
    requires
        ascending(rows),
    ensures
        rows_sum(rows, f) == map_sum(rows_map(rows), f),
    decreases rows.len(),
{
    rows_map_is_finite(rows);
    if rows.len() == 0 {
        assert(rows_map(rows).dom() =~= Set::empty());
    } else {
        let rest = rows.drop_last();
        let (id, value) = rows.last();
        assert forall|i: int, j: int|
            #![trigger rest[i], rest[j]]
            0 <= i < j < rest.len() implies crate::order::bytes_before(rest[i].0, rest[j].0) by {
            assert(rest[i] == rows[i] && rest[j] == rows[j]);
        }
        rows_sum_is_map_sum(rest, f);
        row_is_in_map(rows, rows.len() - 1);
        assert forall|k: Seq<u8>| #[trigger] rows_map(rest).contains_key(k) implies rows_map(
            rows,
        ).remove(id).contains_key(k) && rows_map(rest)[k] == rows_map(rows)[k] by {
            let i = choose|i: int| 0 <= i < rest.len() && (#[trigger] rest[i]).0 == k;
            assert(rest[i] == rows[i]);
            row_is_in_map(rest, i);
            row_is_in_map(rows, i);
            if k == id {
                ascending_ids_differ(rows, i, rows.len() - 1);
            }
        }
        assert forall|k: Seq<u8>| #[trigger]
            rows_map(rows).remove(id).contains_key(k) implies rows_map(rest).contains_key(k) by {
            let i = choose|i: int| 0 <= i < rows.len() && (#[trigger] rows[i]).0 == k;
            assert(rest[i] == rows[i]);
        }
        assert(rows_map(rows).remove(id) =~= rows_map(rest));
        map_sum_takes_out(rows_map(rows), f, id);
    }
}

/// A map from byte-string ids to values.
pub struct IdMap<V> {
    entries: Vec<(Vec<u8>, V)>,
}

impl<V> View for IdMap<V> {
    type V = Map<Seq<u8>, V>;

    open spec fn view(&self) -> Map<Seq<u8>, V> {
        rows_map(self.rows())
    }
}

impl<V> IdMap<V> {
    /// The entries in the order they are kept.
    pub closed spec fn rows(&self) -> Seq<(Seq<u8>, V)> {
        self.entries@.map_values(|entry: (Vec<u8>, V)| (entry.0@, entry.1))
    }

    /// The entries are sorted by id, and no id occurs twice.
    pub open spec fn wf(&self) -> bool {
        ascending(self.rows())
    }

    /// The empty map.
    pub fn new() -> (map: Self)
        ensures
            map.wf(),
            map.rows().len() == 0,
            map@ == Map::<Seq<u8>, V>::empty(),
    {
        let map = IdMap { entries: Vec::new() };
        assert(map@ =~= Map::<Seq<u8>, V>::empty());
        map
    }

    /// The number of entries.
    pub fn len(&self) -> (n: usize)
        ensures
            n == self.rows().len(),
    {
        self.entries.len()
    }

    /// The id of the entry at a position.
    pub fn id_at(&self, i: usize) -> (id: &Vec<u8>)
        requires
            i < self.rows().len(),
        ensures
            id@ == self.rows()[i as int].0,
    {
        &self.entries[i].0
    }

    /// The value of the entry at a position.
    pub fn value_at(&self, i: usize) -> (value: &V)
        requires
            i < self.rows().len(),
        ensures
            *value == self.rows()[i as int].1,
    {
        &self.entries[i].1
    }

    /// Where an id stands, or where it would have to be inserted.
    fn find(&self, id: &[u8]) -> (found: (bool, usize))
        requires
            self.wf(),
        ensures
            found.1 <= self.rows().len(),
            found.0 ==> found.1 < self.rows().len() && self.rows()[found.1 as int].0 == id@,
            !found.0 ==> {
                &&& forall|i: int|
                    0 <= i < found.1 ==> crate::order::bytes_before(
                        (#[trigger] self.rows()[i]).0,
                        id@,
                    )
                &&& forall|i: int|
                    found.1 <= i < self.rows().len() ==> crate::order::bytes_before(
                        id@,
                        (#[trigger] self.rows()[i]).0,
                    )
            },
    {
        let mut lo: usize = 0;
        let mut hi: usize = self.entries.len();
        let ghost rows = self.rows();
        while lo < hi
            invariant
                rows == self.rows(),
                rows.len() == self.entries@.len(),
                ascending(rows),
                lo <= hi <= rows.len(),
                forall|i: int|
                    0 <= i < lo ==> crate::order::bytes_before((#[trigger] rows[i]).0, id@),
                forall|i: int|
                    hi <= i < rows.len() ==> crate::order::bytes_before(
                        id@,
                        (#[trigger] rows[i]).0,
                    ),
            decreases hi - lo,
        {
            let mid: usize = lo + (hi - lo) / 2;
            assert(rows[mid as int].0 == self.entries@[mid as int].0@);
            match place_bytes(self.entries[mid].0.as_slice(), id) {
                Place::Same => {
                    return (true, mid);
                },
                Place::Before => {
                    assert forall|i: int| 0 <= i < mid + 1 implies crate::order::bytes_before(
                        (#[trigger] rows[i]).0,
                        id@,
                    ) by {
                        if i < mid {
                            crate::order::precedes_is_transitive(
                                crate::order::byte_codes(rows[i].0),
                                crate::order::byte_codes(rows[mid as int].0),
                                crate::order::byte_codes(id@),
                            );
                        }
                    }
                    lo = mid + 1;
                },
                Place::After => {
                    assert forall|i: int|
                        mid <= i < rows.len() implies crate::order::bytes_before(
                        id@,
                        (#[trigger] rows[i]).0,
                    ) by {
                        if mid < i {
                            crate::order::precedes_is_transitive(
                                crate::order::byte_codes(id@),
                                crate::order::byte_codes(rows[mid as int].0),
                                crate::order::byte_codes(rows[i].0),
                            );
                        }
                    }
                    hi = mid;
                },
            }
        }
        (false, lo)
    }

    /// The value stored under an id.
    pub fn get(&self, id: &[u8]) -> (value: Option<&V>)
        requires
            self.wf(),
        ensures
            match value {
                Some(v) => self@.contains_key(id@) && *v == self@[id@],
                None => !self@.contains_key(id@),
            },
    {
        let (present, pos) = self.find(id);
        if present {
            proof {
                row_is_in_map(self.rows(), pos as int);
            }
            Some(&self.entries[pos].1)
        } else {
            assert forall|i: int| 0 <= i < self.rows().len() implies (#[trigger] self.rows()[i]).0
                != id@ by {
                crate::order::precedes_is_strict(
                    crate::order::byte_codes(self.rows()[i].0),
                    crate::order::byte_codes(id@),
                );
            }
            None
        }
    }

    /// Whether an id is present.
    pub fn contains_key(&self, id: &[u8]) -> (present: bool)
        requires
            self.wf(),
        ensures
            present == self@.contains_key(id@),
    {
        match self.get(id) {
            Some(_) => true,
            None => false,
        }
    }

    /// Stores a value under an id, replacing what was there.
    pub fn insert(&mut self, id: Vec<u8>, value: V)
        requires
            old(self).wf(),
        ensures
            final(self).wf(),
            final(self)@ == old(self)@.insert(id@, value),
    {
        let ghost before = self.rows();
        let (present, pos) = self.find(id.as_slice());
        if present {
            proof {
                replace_row(before, pos as int, value);
            }
            self.entries[pos] = (id, value);
            assert(self.rows() =~= before.update(pos as int, (before[pos as int].0, value)));
        } else {
            proof {
                insert_row(before, pos as int, id@, value);
            }
            self.entries.insert(pos, (id, value));
            assert(self.rows() =~= before.insert(pos as int, (id@, value)));
        }
    }
}

} // verus!
