//! The fold state machine behind a trace-graph stream.
//!
//! A stream starts with the parts that are already folded and emits a snapshot; from then on it
//! emits a fresh snapshot as each file lands, until there are no more files.
use vstd::prelude::*;

use crate::accum::GraphAccum;
use crate::columns::footer_is_missing;
use crate::samples::MergeError;
use crate::snapshot::FoldErrors;
use crate::text_set::insert_text;

verus! {

pub const SEED_MERGE_FAILED: &'static str = "trace-graph: seed merge failed";

pub const MERGE_FAILED: &'static str = "trace-graph: merge failed";

/// The part-files of one folded source file.
pub struct FoldedParts {
    pub samples: Vec<u8>,
    pub dict: Option<Vec<u8>>,
}

/// The bytes of [`FoldedParts`].
pub struct PartBytes {
    pub samples: Seq<u8>,
    pub dict: Option<Seq<u8>>,
}

impl View for FoldedParts {
    type V = PartBytes;

    open spec fn view(&self) -> PartBytes {
        PartBytes {
            samples: self.samples@,
            dict: crate::accum::dict_bytes(self.dict),
        }
    }
}

/// A part-file that could not be merged in full; the stream goes on.
pub struct MergeWarning {
    pub message: &'static str,
    pub error: MergeError,
}

/// What the stream has folded so far.
pub struct FoldState {
    pub accum: GraphAccum,
    /// The leaf names of the folded files, sorted.
    pub folded: Vec<String>,
    pub errors: FoldErrors,
}

/// Where a stream stands.
pub enum Phase {
    /// Nothing was emitted yet.
    Start,
    /// A first snapshot was emitted.
    Folding(FoldState),
}

/// What has come in from outside.
pub enum Arrival {
    /// The parts that were folded before the stream began, and the leaf names of their files.
    Seed { parts: Vec<FoldedParts>, folded: Vec<String> },
    /// A file was folded; its parts, if they could be fetched, and its leaf name.
    Folded { part: Option<FoldedParts>, leaf: String },
    /// A file failed to fold; the errors up to and including this one.
    Failed { errors: FoldErrors },
    /// There are no more files.
    Exhausted,
}

/// What is to be done next.
pub enum Step {
    /// Report the warnings, emit a snapshot of this state, and go on from it.
    Emit { state: FoldState, warnings: Vec<MergeWarning> },
    /// End the stream.
    End,
    /// A part holds samples that no accumulator can take.
    Unmergeable,
}

impl FoldState {
    /// The accumulator is well formed, and the leaf names are sorted.
    pub open spec fn wf(&self) -> bool {
        &&& self.accum.wf()
        &&& crate::text_set::ascending_texts(crate::columns::texts(self.folded@))
    }

    /// This file counts as folded.
    pub open spec fn has_folded(&self, leaf: Seq<char>) -> bool {
        crate::columns::texts(self.folded@).contains(leaf)
    }
}

/// What merging part-files one after the other comes to: what the accumulator holds, and the
/// errors on the way. An error keeps no later part from being merged. `None` when a part holds
/// samples that cannot be taken.
pub open spec fn merged_all(
    before: crate::accum::AccumView,
    parts: Seq<PartBytes>,
) -> Option<(crate::accum::AccumView, Seq<crate::accum::Fault>)>
    decreases parts.len(),
{
    if parts.len() == 0 {
        Some((before, Seq::empty()))
    } else {
        match merged_all(before, parts.drop_last()) {
            None => None,
            Some((middle, faults)) => match crate::accum::merged_parts(
                middle,
                parts.last().samples,
                parts.last().dict,
            ) {
                None => None,
                Some(merged) => Some(
                    (
                        merged.after,
                        match merged.fault {
                            Some(fault) => faults.push(fault),
                            None => faults,
                        },
                    ),
                ),
            },
        }
    }
}

/// Once a part cannot be taken, no more parts help.
proof fn unmergeable_stays(before: crate::accum::AccumView, parts: Seq<PartBytes>, n: int)
    requires
        0 <= n <= parts.len(),
        merged_all(before, parts.take(n)) is None,
    ensures
        merged_all(before, parts) is None,
    decreases parts.len() - n,
{
    if n == parts.len() {
        assert(parts.take(n) =~= parts);
    } else {
        assert(parts.take(n + 1).drop_last() =~= parts.take(n));
        unmergeable_stays(before, parts, n + 1);
    }
}

/// All parts can be decoded, as far as they are read.
pub open spec fn all_decode(before: crate::accum::AccumView, parts: Seq<PartBytes>) -> bool
    decreases parts.len(),
{
    parts.len() == 0 || {
        &&& all_decode(before, parts.drop_last())
        &&& match merged_all(before, parts.drop_last()) {
            Some((middle, _)) => crate::accum::parts_decode(
                middle,
                parts.last().samples,
                parts.last().dict,
            ),
            None => true,
        }
    }
}

proof fn fewer_parts_decode(before: crate::accum::AccumView, parts: Seq<PartBytes>, n: int)
    requires
        0 <= n <= parts.len(),
        all_decode(before, parts),
    ensures
        all_decode(before, parts.take(n)),
    decreases parts.len() - n,
{
    if n == parts.len() {
        assert(parts.take(n) =~= parts);
    } else {
        fewer_parts_decode(before, parts, n + 1);
        assert(parts.take(n + 1).drop_last() =~= parts.take(n));
    }
}

/// The bytes of a list of parts.
pub open spec fn part_bytes(parts: Seq<FoldedParts>) -> Seq<PartBytes> {
    parts.map_values(|part: FoldedParts| part@)
}

/// The kind of error in a warning.
pub open spec fn warning_fault(warning: MergeWarning) -> crate::accum::Fault {
    match warning.error {
        MergeError::Open(_) => crate::accum::Fault::Open,
        MergeError::Batch(_) => crate::accum::Fault::Batch,
    }
}

/// The warnings report these errors, in this order, with this message.
pub open spec fn warns_of(
    warnings: Seq<MergeWarning>,
    faults: Seq<crate::accum::Fault>,
    message: Seq<char>,
) -> bool {
    &&& warnings.len() == faults.len()
    &&& forall|i: int|
        #![trigger warnings[i]]
        0 <= i < warnings.len() ==> warnings[i].message@ == message && warning_fault(warnings[i])
            == faults[i]
}

/// The texts of a list, as a sorted list without repetitions.
fn sorted_texts(names: Vec<String>) -> (sorted: Vec<String>)
    ensures
        crate::text_set::ascending_texts(crate::columns::texts(sorted@)),
        forall|t: Seq<char>|
            #![trigger crate::columns::texts(sorted@).contains(t)]
            crate::columns::texts(sorted@).contains(t) <==> crate::columns::texts(
                names@,
            ).contains(t),
{
    let ghost all = crate::columns::texts(names@);
    let mut sorted: Vec<String> = Vec::new();
    let mut i: usize = 0;
    while i < names.len()
        invariant
            i <= names@.len(),
            all == crate::columns::texts(names@),
            crate::text_set::ascending_texts(crate::columns::texts(sorted@)),
            forall|t: Seq<char>|
                #![trigger crate::columns::texts(sorted@).contains(t)]
                crate::columns::texts(sorted@).contains(t) <==> exists|k: int|
                    0 <= k < i && #[trigger] all[k] == t,
        decreases names@.len() - i,
    {
        let ghost before = crate::columns::texts(sorted@);
        assert(all[i as int] == names@[i as int]@);
        insert_text(&mut sorted, names[i].clone());
        assert forall|t: Seq<char>|
            #![trigger crate::columns::texts(sorted@).contains(t)]
            crate::columns::texts(sorted@).contains(t) <==> exists|k: int|
                0 <= k < i + 1 && #[trigger] all[k] == t by {
            if before.contains(t) {
                let k = choose|k: int| 0 <= k < i && #[trigger] all[k] == t;
                assert(all[k] == t);
            }
            if exists|k: int| 0 <= k < i + 1 && #[trigger] all[k] == t {
                let k = choose|k: int| 0 <= k < i + 1 && #[trigger] all[k] == t;
                if k < i {
                    assert(before.contains(t));
                }
            }
        }
        i = i + 1;
    }
    sorted
}

/// What the seed comes to.
pub open spec fn is_seeded(
    step: Step,
    parts: Seq<PartBytes>,
    folded: Seq<Seq<char>>,
) -> bool {
    match (step, merged_all(crate::accum::AccumView::empty(), parts)) {
        (Step::Emit { state, warnings }, Some((after, faults))) => {
            &&& state.wf()
            &&& state.accum@ == after
            &&& forall|leaf: Seq<char>| #[trigger]
                state.has_folded(leaf) <==> folded.contains(leaf)
            &&& state.errors.count == 0
            &&& state.errors.sample is None
            &&& warns_of(warnings@, faults, SEED_MERGE_FAILED@)
        },
        (Step::Unmergeable, None) => true,
        _ => false,
    }
}

/// The parts of one file, as a list.
pub open spec fn fetched(part: Option<PartBytes>) -> Seq<PartBytes> {
    match part {
        Some(bytes) => seq![bytes],
        None => Seq::empty(),
    }
}

/// The bytes of optional parts.
pub open spec fn bytes_of(part: Option<FoldedParts>) -> Option<PartBytes> {
    match part {
        Some(part) => Some(part@),
        None => None,
    }
}

/// What a folded file comes to.
pub open spec fn is_folded(
    step: Step,
    before: FoldState,
    parts: Option<PartBytes>,
    leaf: Seq<char>,
) -> bool {
    match (step, merged_all(before.accum@, fetched(parts))) {
        (Step::Emit { state, warnings }, Some((after, faults))) => {
            &&& state.wf()
            &&& state.accum@ == after
            &&& forall|name: Seq<char>| #[trigger]
                state.has_folded(name) <==> before.has_folded(name) || name == leaf
            &&& state.errors == before.errors
            &&& warns_of(warnings@, faults, MERGE_FAILED@)
        },
        (Step::Unmergeable, None) => true,
        _ => false,
    }
}

/// Merges the seed into an empty accumulator.
fn seed(parts: Vec<FoldedParts>, folded: Vec<String>) -> (step: Step)
    requires
        all_decode(crate::accum::AccumView::empty(), part_bytes(parts@)),
    ensures
        is_seeded(step, part_bytes(parts@), crate::columns::texts(folded@)),
{
    let ghost all = part_bytes(parts@);
    let ghost empty = crate::accum::AccumView::empty();
    let mut accum: GraphAccum = Default::default();
    let mut warnings: Vec<MergeWarning> = Vec::new();
    let mut rest: Vec<FoldedParts> = parts;
    let mut i: usize = 0;
    let ghost mut faults: Seq<crate::accum::Fault> = Seq::empty();
    let n = rest.len();
    assert(all.take(0).len() == 0);
    while i < n
        invariant
            i <= n,
            n == all.len(),
            all == part_bytes(parts@),
            rest@.len() == n - i,
            forall|k: int| 0 <= k < rest@.len() ==> (#[trigger] rest@[k])@ == all[i + k],
            empty == crate::accum::AccumView::empty(),
            all_decode(empty, all),
            accum.wf(),
            merged_all(empty, all.take(i as int)) == Some((accum@, faults)),
            warns_of(warnings@, faults, SEED_MERGE_FAILED@),
        decreases n - i,
    {
        assert(rest@[0]@ == all[i as int]);
        let part = rest.remove(0);
        assert(part@ == all[i as int]);
        assert(all.take(i + 1).drop_last() =~= all.take(i as int));
        proof {
            fewer_parts_decode(empty, all, i + 1);
        }
        match accum.merge(part.samples, part.dict) {
            None => {
                proof {
                    unmergeable_stays(empty, all, i + 1);
                }
                return Step::Unmergeable;
            },
            Some(Ok(())) => {},
            Some(Err(error)) => {
                let warning = MergeWarning { message: SEED_MERGE_FAILED, error };
                proof {
                    faults = faults.push(warning_fault(warning));
                }
                warnings.push(warning);
            },
        }
        i = i + 1;
    }
    assert(all.take(i as int) =~= all);
    let state = FoldState {
        accum,
        folded: sorted_texts(folded),
        errors: FoldErrors { count: 0, sample: None },
    };
    Step::Emit { state, warnings }
}

/// Merges the parts of one folded file, and counts the file as folded.
fn fold(state: FoldState, parts: Option<FoldedParts>, leaf: String) -> (step: Step)
    requires
        state.wf(),
        all_decode(state.accum@, fetched(bytes_of(parts))),
    ensures
        is_folded(step, state, bytes_of(parts), leaf@),
{
    let ghost before = state;
    let FoldState { accum, folded, errors } = state;
    let mut accum = accum;
    let mut folded = folded;
    let mut warnings: Vec<MergeWarning> = Vec::new();
    match parts {
        None => {},
        Some(part) => {
            assert(seq![part@].drop_last() =~= Seq::empty());
            proof {
                reveal_with_fuel(merged_all, 2);
                reveal_with_fuel(all_decode, 2);
            }
            match accum.merge(part.samples, part.dict) {
                None => {
                    return Step::Unmergeable;
                },
                Some(Ok(())) => {},
                Some(Err(error)) => {
                    warnings.push(MergeWarning { message: MERGE_FAILED, error });
                },
            }
        },
    }
    insert_text(&mut folded, leaf);
    Step::Emit { state: FoldState { accum, folded, errors }, warnings }
}

/// What comes in fits where the stream stands: the seed comes in at the start, and only there.
pub open spec fn fits_phase(phase: Phase, arrival: Arrival) -> bool {
    &&& phase is Start <==> arrival is Seed
    &&& phase matches Phase::Folding(state) ==> state.wf()
}

/// The parts that have come in can be decoded, as far as they are read.
pub open spec fn arrival_decodes(phase: Phase, arrival: Arrival) -> bool {
    match (phase, arrival) {
        (Phase::Start, Arrival::Seed { parts, .. }) => all_decode(
            crate::accum::AccumView::empty(),
            part_bytes(parts@),
        ),
        (Phase::Folding(state), Arrival::Folded { part, .. }) => all_decode(
            state.accum@,
            fetched(bytes_of(part)),
        ),
        _ => true,
    }
}

/// What is to be done next.
pub open spec fn is_next(phase: Phase, arrival: Arrival, step: Step) -> bool {
    match (phase, arrival) {
        (Phase::Start, Arrival::Seed { parts, folded }) => is_seeded(
            step,
            part_bytes(parts@),
            crate::columns::texts(folded@),
        ),
        (Phase::Folding(state), Arrival::Folded { part, leaf }) => is_folded(
            step,
            state,
            bytes_of(part),
            leaf@,
        ),
        (Phase::Folding(state), Arrival::Failed { errors }) => {
            &&& step matches Step::Emit { state: after, warnings }
            &&& after == (FoldState { errors, ..state })
            &&& warnings@.len() == 0
        },
        (Phase::Folding(_), Arrival::Exhausted) => step is End,
        _ => false,
    }
}

/// What is to be done next, given where the stream stands and what has come in.
pub fn advance(phase: Phase, arrival: Arrival) -> (step: Step)
    requires
        fits_phase(phase, arrival),
        arrival_decodes(phase, arrival),
    ensures
        is_next(phase, arrival, step),
{
    match (phase, arrival) {
        (Phase::Start, Arrival::Seed { parts, folded }) => seed(parts, folded),
        (Phase::Folding(state), Arrival::Folded { part, leaf }) => fold(state, part, leaf),
        (Phase::Folding(state), Arrival::Failed { errors }) => {
            let FoldState { accum, folded, errors: _ } = state;
            Step::Emit { state: FoldState { accum, folded, errors }, warnings: Vec::new() }
        },
        _ => Step::End,
    }
}

/// No samples that have come in end as a Parquet file does.
pub open spec fn brings_no_parquet(arrival: Arrival) -> bool {
    match arrival {
        Arrival::Seed { parts, .. } => forall|i: int|
            0 <= i < parts@.len() ==> crate::columns::lacks_footer((#[trigger] parts@[i]).samples@),
        Arrival::Folded { part: Some(part), .. } => crate::columns::lacks_footer(part.samples@),
        _ => true,
    }
}

/// Parts whose samples cannot be opened can be decoded, as far as they are read.
proof fn unopened_parts_decode(before: crate::accum::AccumView, parts: Seq<PartBytes>)
    requires
        forall|i: int|
            #![trigger parts[i]]
            0 <= i < parts.len() ==> {
                &&& crate::columns::decodes(parts[i].samples, crate::samples::BATCH_ROWS)
                &&& crate::columns::parquet_file(parts[i].samples, crate::samples::BATCH_ROWS) is None
            },
    ensures
        all_decode(before, parts),
    decreases parts.len(),
{
    if parts.len() > 0 {
        let rest = parts.drop_last();
        assert forall|i: int|
            #![trigger rest[i]]
            0 <= i < rest.len() implies {
            &&& crate::columns::decodes(rest[i].samples, crate::samples::BATCH_ROWS)
            &&& crate::columns::parquet_file(rest[i].samples, crate::samples::BATCH_ROWS) is None
        } by {
            assert(rest[i] == parts[i]);
        }
        unopened_parts_decode(before, rest);
        assert(parts[parts.len() - 1] == parts.last());
    }
}

/// Whether the samples of all these parts lack the footer of a Parquet file.
fn footers_are_missing(parts: &Vec<FoldedParts>) -> (missing: bool)
    ensures
        missing == forall|i: int|
            0 <= i < parts@.len() ==> crate::columns::lacks_footer((#[trigger] parts@[i]).samples@),
        missing ==> forall|before: crate::accum::AccumView| #[trigger]
            all_decode(before, part_bytes(parts@)),
{
    let ghost bytes = part_bytes(parts@);
    let mut i: usize = 0;
    while i < parts.len()
        invariant
            i <= parts@.len(),
            bytes == part_bytes(parts@),
            forall|k: int|
                0 <= k < i ==> crate::columns::lacks_footer((#[trigger] parts@[k]).samples@),
            forall|k: int|
                #![trigger bytes[k]]
                0 <= k < i ==> {
                    &&& crate::columns::decodes(bytes[k].samples, crate::samples::BATCH_ROWS)
                    &&& crate::columns::parquet_file(
                        bytes[k].samples,
                        crate::samples::BATCH_ROWS,
                    ) is None
                },
        decreases parts@.len() - i,
    {
        assert(bytes[i as int] == parts@[i as int]@);
        if !footer_is_missing(&parts[i].samples) {
            return false;
        }
        assert(crate::columns::decodes(bytes[i as int].samples, crate::samples::BATCH_ROWS));
        assert(crate::columns::parquet_file(
            bytes[i as int].samples,
            crate::samples::BATCH_ROWS,
        ) is None);
        i = i + 1;
    }
    proof {
        assert forall|before: crate::accum::AccumView| #[trigger] all_decode(before, bytes) by {
            unopened_parts_decode(before, bytes);
        }
    }
    true
}

/// What is to be done next, if it is certain that what has come in can be decoded: if none of its
/// samples even end as a Parquet file does. Of all other bytes only decoding tells; then
/// everything is handed back as it came.
pub fn advance_if_certain(phase: Phase, arrival: Arrival) -> (step: Result<Step, (Phase, Arrival)>)
    requires
        fits_phase(phase, arrival),
    ensures
        match step {
            Ok(step) => brings_no_parquet(arrival) && is_next(phase, arrival, step),
            Err(back) => !brings_no_parquet(arrival) && back == (phase, arrival),
        },
{
    let certain = match &arrival {
        Arrival::Seed { parts, .. } => footers_are_missing(parts),
        Arrival::Folded { part: Some(part), .. } => {
            let missing = footer_is_missing(&part.samples);
            proof {
                if missing {
                    let bytes = seq![part@];
                    assert(crate::columns::decodes(
                        bytes[0].samples,
                        crate::samples::BATCH_ROWS,
                    ));
                    assert(crate::columns::parquet_file(
                        bytes[0].samples,
                        crate::samples::BATCH_ROWS,
                    ) is None);
                    assert forall|before: crate::accum::AccumView| #[trigger]
                        all_decode(before, bytes) by {
                        unopened_parts_decode(before, bytes);
                    }
                }
            }
            missing
        },
        _ => true,
    };
    if certain {
        Ok(advance(phase, arrival))
    } else {
        Err((phase, arrival))
    }
}

/// Merging the part-files of one file only adds, whether or not they can be read in full.
pub proof fn part_files_extend(
    before: crate::accum::AccumView,
    samples: Seq<u8>,
    dict: Option<Seq<u8>>,
)
    requires
        before.stacks.dom().finite(),
    ensures
        crate::accum::merged_parts(before, samples, dict) matches Some(merged)
            ==> crate::graph_laws::extends(merged.after, before),
{
    match crate::columns::parquet_file(samples, crate::samples::BATCH_ROWS) {
        None => {},
        Some(file) => {
            let rows = crate::samples::file_samples(file);
            crate::graph_laws::merging_extends(before, rows, Seq::empty());
            match dict {
                None => {},
                Some(data) => {
                    match crate::columns::parquet_file(data, crate::samples::BATCH_ROWS) {
                        None => {},
                        Some(dict_file) => {
                            let dict_rows = crate::samples::file_dict(dict_file);
                            crate::graph_laws::merging_extends(before, rows, dict_rows);
                        },
                    }
                },
            }
        },
    }
}

/// As files fold, the accumulator only grows, whatever arrives.
pub proof fn folding_extends(before: crate::accum::AccumView, parts: Seq<PartBytes>)
    requires
        before.stacks.dom().finite(),
    ensures
        merged_all(before, parts) matches Some((after, _)) ==> crate::graph_laws::extends(
            after,
            before,
        ),
    decreases parts.len(),
{
    if parts.len() > 0 {
        folding_extends(before, parts.drop_last());
        match merged_all(before, parts.drop_last()) {
            None => {},
            Some((middle, _)) => {
                part_files_extend(middle, parts.last().samples, parts.last().dict);
                match crate::accum::merged_parts(
                    middle,
                    parts.last().samples,
                    parts.last().dict,
                ) {
                    None => {},
                    Some(merged) => {
                        assert forall|stack: Seq<u8>| #[trigger]
                            before.stacks.contains_key(stack) implies {
                            &&& merged.after.stacks.contains_key(stack)
                            &&& before.stacks[stack].total <= merged.after.stacks[stack].total
                            &&& before.stacks[stack].off_cpu <= merged.after.stacks[stack].off_cpu
                        } by {
                            assert(middle.stacks.contains_key(stack));
                        }
                        assert forall|stack: Seq<u8>| #[trigger]
                            before.dict.contains_key(stack) implies {
                            &&& merged.after.dict.contains_key(stack)
                            &&& before.dict[stack] == merged.after.dict[stack]
                        } by {
                            assert(middle.dict.contains_key(stack));
                        }
                    },
                }
            },
        }
    }
}

/// Under the same prefixes no later snapshot loses a node or an edge of an earlier one.
pub proof fn snapshots_only_grow(
    before: crate::accum::AccumView,
    parts: Seq<PartBytes>,
    prefixes: Seq<Seq<char>>,
)
    requires
        before.stacks.dom().finite(),
    ensures
        merged_all(before, parts) matches Some((after, _)) ==> {
            &&& forall|key: crate::symbol::NodeKey| #[trigger]
                crate::graph::node_seen(before, prefixes, key) ==> crate::graph::node_seen(
                    after,
                    prefixes,
                    key,
                )
            &&& forall|source: Seq<char>, target: Seq<char>| #[trigger]
                crate::graph::edge_seen(before, prefixes, source, target)
                    ==> crate::graph::edge_seen(after, prefixes, source, target)
        },
{
    folding_extends(before, parts);
    match merged_all(before, parts) {
        None => {},
        Some((after, _)) => {
            crate::graph_laws::graph_only_grows(before, after, prefixes);
        },
    }
}

} // verus!
