//! What becomes of a row when several writers use the store at once.
//!
//! The table offers two conditional writes: one that creates a row unless it is there, and one
//! that replaces a watermark if its version is still the expected one. Everything a store does to
//! a row goes through these two.
use crate::kvstore::store::{
    committer_step, committer_view, init_step, init_view, pruner_step, reader_step, reader_view,
    visible, wait_ms, CommitterWatermark, Found, InitStep, NoWatermark, ReaderWatermark, WriteStep,
};
use crate::kvstore::watermarks::{legacy_of, Watermark, WatermarkV2};
use vstd::prelude::*;

verus! {

/// What a row holds, in the new and in the legacy format.
pub ghost struct TableRow {
    pub new: Found,
    pub legacy: Option<Watermark>,
}

/// The row after the cells for `watermark` at `version` were written: the legacy cell is
/// overwritten if there is a checkpoint to write there, and stays otherwise.
pub open spec fn written(row: TableRow, watermark: WatermarkV2, version: u64) -> TableRow {
    TableRow {
        new: Some((watermark, version)),
        legacy: match legacy_of(watermark) {
            Some(legacy) => Some(legacy),
            None => row.legacy,
        },
    }
}

/// The row after it was to be created with `watermark` unless it was there.
pub open spec fn after_create(row: TableRow, watermark: WatermarkV2) -> TableRow {
    match row.new {
        Some(_) => row,
        None => written(row, watermark, 0),
    }
}

/// Whether a write that expects this version finds it.
pub open spec fn version_is(row: TableRow, expected: u64) -> bool {
    row.new matches Some((_, version)) && version == expected
}

/// The row after `watermark` was to be written over the version `expected`.
pub open spec fn after_compare_and_set(
    row: TableRow,
    watermark: WatermarkV2,
    expected: u64,
) -> TableRow {
    if version_is(row, expected) {
        written(row, watermark, (expected + 1) as u64)
    } else {
        row
    }
}

/// The row after an initialization that nobody interfered with.
pub open spec fn after_init(row: TableRow, checkpoint_hi_inclusive: Option<u64>) -> TableRow {
    match init_step(row.new, row.legacy, checkpoint_hi_inclusive) {
        InitStep::Return(_) => row,
        InitStep::CreateIfAbsent(watermark) => after_create(row, watermark),
    }
}

/// The three updates of a row.
pub ghost enum Update {
    Committer(CommitterWatermark),
    Reader(u64),
    Pruner(u64),
}

/// What an update does, given what was read.
pub open spec fn update_step(found: Found, update: Update) -> Result<WriteStep, NoWatermark> {
    match update {
        Update::Committer(by) => committer_step(found, by),
        Update::Reader(reader_lo) => reader_step(found, reader_lo),
        Update::Pruner(pruner_hi) => pruner_step(found, pruner_hi),
    }
}

/// An update that was decided on when the row was `read` asks for this write.
pub open spec fn asks_for(
    read: TableRow,
    update: Update,
    watermark: WatermarkV2,
    expected_version: u64,
) -> bool {
    update_step(read.new, update) == Ok::<WriteStep, NoWatermark>(
        WriteStep::CompareAndSet { watermark, expected_version },
    )
}

/// The row came about by creating it.
pub open spec fn is_creation(before: TableRow, after: TableRow) -> bool {
    exists|watermark: WatermarkV2| after == #[trigger] after_create(before, watermark)
}

/// The row came about by an update that was decided on when the row was `read`, and that is not
/// the last of all versions.
pub open spec fn is_update_of(read: TableRow, before: TableRow, after: TableRow) -> bool {
    exists|update: Update, watermark: WatermarkV2, expected: u64|
        expected < u64::MAX && #[trigger] asks_for(read, update, watermark, expected) && after
            == #[trigger] after_compare_and_set(before, watermark, expected)
}

/// The states of a row, each from the one before by one writer. A writer decides by what it read,
/// which may be any earlier state.
pub open spec fn is_run(run: Seq<TableRow>) -> bool {
    forall|k: int|
        0 < k < run.len() ==> is_creation(run[k - 1], #[trigger] run[k]) || exists|j: int|
            0 <= j < k && #[trigger] is_update_of(run[j], run[k - 1], run[k])
}

/// Nothing a later reader finds is behind what an earlier one found: what is there stays there,
/// versions and checkpoints never go down, and one version is one watermark.
pub open spec fn not_behind(earlier: Found, later: Found) -> bool {
    match earlier {
        Some((w1, v1)) => later matches Some((w2, v2)) && v1 <= v2 && (v1 == v2 ==> w1 == w2) && (
        w1.checkpoint_hi_inclusive matches Some(c1) ==> w2.checkpoint_hi_inclusive matches Some(
            c2,
        ) && c1 <= c2),
        None => true,
    }
}

/// However writers interleave, no state of a row is behind an earlier one.
pub proof fn lemma_row_never_goes_back(run: Seq<TableRow>, i: int, k: int)
    requires
        is_run(run),
        0 <= i <= k < run.len(),
    ensures
        not_behind(run[i].new, run[k].new),
    decreases k,
{
    if i < k {
        lemma_row_never_goes_back(run, i, k - 1);
        if !is_creation(run[k - 1], run[k]) {
            let j = choose|j: int| 0 <= j < k && #[trigger] is_update_of(run[j], run[k - 1], run[k]);
            lemma_row_never_goes_back(run, j, k - 1);
        }
    }
}

/// No update is lost: a write that finds the version it expects says what the update would have
/// said had it been decided on at that very moment, however long ago it was.
pub proof fn lemma_no_update_is_lost(
    run: Seq<TableRow>,
    j: int,
    k: int,
    update: Update,
    watermark: WatermarkV2,
    expected: u64,
)
    requires
        is_run(run),
        0 <= j <= k < run.len(),
        asks_for(run[j], update, watermark, expected),
        version_is(run[k], expected),
    ensures
        asks_for(run[k], update, watermark, expected),
{
    lemma_row_never_goes_back(run, j, k);
}

/// Of two updates that were decided on by the same version, the second to be written fails, and
/// leaves the row as the first has made it.
pub proof fn lemma_second_writer_loses(
    row: TableRow,
    first: Update,
    second: Update,
    watermark1: WatermarkV2,
    watermark2: WatermarkV2,
    expected: u64,
)
    requires
        expected < u64::MAX,
        asks_for(row, first, watermark1, expected),
        asks_for(row, second, watermark2, expected),
    ensures
        ({
            let after = after_compare_and_set(row, watermark1, expected);
            &&& version_is(row, expected)
            &&& after.new == Some((watermark1, (expected + 1) as u64))
            &&& !version_is(after, expected)
            &&& after_compare_and_set(after, watermark2, expected) == after
        }),
{
}

/// A row exists after an initialization, and its values are what the initialization returns; a
/// second initialization, with whatever checkpoint, returns the same and writes nothing.
pub proof fn lemma_init_is_idempotent(row: TableRow, first: Option<u64>, second: Option<u64>)
    ensures
        ({
            let after = after_init(row, first);
            &&& after.new matches Some((watermark, _)) && init_step(
                after.new,
                after.legacy,
                second,
            ) == InitStep::Return(init_view(watermark))
            &&& after_init(after, second) == after
            &&& row.new is Some ==> after == row
            &&& row.new is None ==> after.new->Some_0.1 == 0
        }),
{
}

/// An initialization from a legacy row takes over what the committer has recorded there, puts
/// readers and pruner right behind it and leaves the legacy watermark as it is; what the framework
/// says does not matter.
pub proof fn lemma_init_keeps_legacy(
    row: TableRow,
    legacy: Watermark,
    checkpoint_hi_inclusive: Option<u64>,
)
    requires
        row.new is None,
        row.legacy == Some(legacy),
        legacy.checkpoint_hi_inclusive < u64::MAX,
    ensures
        ({
            let after = after_init(row, checkpoint_hi_inclusive);
            &&& after.legacy == row.legacy
            &&& after.new matches Some((watermark, version)) && version == 0 && legacy_of(watermark)
                == Some(legacy) && watermark.reader_lo == legacy.checkpoint_hi_inclusive + 1
                && watermark.pruner_hi == watermark.reader_lo
        }),
{
}

/// Whoever initializes a fresh row, it is hidden from readers until something is committed; the
/// legacy cell is there from the start if and only if the framework gives a checkpoint.
pub proof fn lemma_fresh_row_is_hidden(checkpoint_hi_inclusive: Option<u64>)
    requires
        checkpoint_hi_inclusive matches Some(checkpoint) ==> checkpoint < u64::MAX,
    ensures
        ({
            let after = after_init(TableRow { new: None, legacy: None }, checkpoint_hi_inclusive);
            &&& visible(after.new) is None
            &&& after.legacy is Some <==> checkpoint_hi_inclusive is Some
        }),
{
}

/// The legacy watermark says what the new one says, where that has a checkpoint.
pub open spec fn in_step(row: TableRow) -> bool {
    row.new matches Some((watermark, _)) ==> (legacy_of(watermark) matches Some(legacy)
        ==> row.legacy == Some(legacy))
}

/// No write takes the two formats out of step.
pub proof fn lemma_legacy_stays_in_step(row: TableRow, watermark: WatermarkV2, expected: u64)
    requires
        in_step(row),
    ensures
        in_step(after_create(row, watermark)),
        in_step(after_compare_and_set(row, watermark, expected)),
{
}

/// What the committer records is what readers get back, if it is not below what they may ask
/// for.
pub proof fn lemma_committer_reads_back(
    row: TableRow,
    by: CommitterWatermark,
    watermark: WatermarkV2,
    expected: u64,
)
    requires
        asks_for(row, Update::Committer(by), watermark, expected),
        watermark.reader_lo <= by.checkpoint_hi_inclusive,
    ensures
        ({
            let after = after_compare_and_set(row, watermark, expected);
            &&& committer_view(after.new) == Some(by)
            &&& reader_view(after.new) == Some(
                ReaderWatermark {
                    checkpoint_hi_inclusive: by.checkpoint_hi_inclusive,
                    reader_lo: row.new->Some_0.0.reader_lo,
                },
            )
            &&& after.legacy == legacy_of(watermark)
        }),
{
}

/// The committer only goes forward: an update is refused if and only if the row has a checkpoint
/// that is not below the new one.
pub proof fn lemma_committer_goes_forward(current: WatermarkV2, version: u64, by: CommitterWatermark)
    ensures
        committer_step(Some((current, version)), by) == Ok::<WriteStep, NoWatermark>(
            WriteStep::Refuse,
        ) <==> (current.checkpoint_hi_inclusive matches Some(checkpoint) && checkpoint
            >= by.checkpoint_hi_inclusive),
{
}

/// An update of the readers or of the pruner touches nothing that the committer has recorded, nor
/// the legacy watermark: without a checkpoint there is none before and after.
pub proof fn lemma_reader_and_pruner_keep_the_rest(
    row: TableRow,
    update: Update,
    watermark: WatermarkV2,
    expected: u64,
)
    requires
        in_step(row),
        update !is Committer,
        asks_for(row, update, watermark, expected),
    ensures
        ({
            let current = row.new->Some_0.0;
            let after = after_compare_and_set(row, watermark, expected);
            &&& after.legacy == row.legacy
            &&& legacy_of(watermark) == legacy_of(current)
            &&& watermark.checkpoint_hi_inclusive == current.checkpoint_hi_inclusive
            &&& watermark.epoch_hi_inclusive == current.epoch_hi_inclusive
            &&& watermark.tx_hi == current.tx_hi
            &&& watermark.timestamp_ms_hi_inclusive == current.timestamp_ms_hi_inclusive
            &&& update is Reader ==> watermark.reader_lo == update->Reader_0 && watermark.pruner_hi
                == current.pruner_hi
            &&& update is Pruner ==> watermark.pruner_hi == update->Pruner_0 && watermark.reader_lo
                == current.reader_lo
        }),
{
}

/// Raising `reader_lo` past the checkpoint hides a row; with `reader_lo` up to the checkpoint it
/// is seen.
pub proof fn lemma_reader_lo_hides(
    row: TableRow,
    reader_lo: u64,
    watermark: WatermarkV2,
    expected: u64,
)
    requires
        asks_for(row, Update::Reader(reader_lo), watermark, expected),
    ensures
        visible(after_compare_and_set(row, watermark, expected).new) is Some <==> (
        row.new->Some_0.0.checkpoint_hi_inclusive matches Some(checkpoint) && checkpoint
            >= reader_lo),
{
}

/// The pruner never waits for a negative time, waits for none if and only if the delay has passed,
/// and has that much less to wait for as time goes by.
pub proof fn lemma_pruner_wait(watermark: WatermarkV2, delay_ms: u128, now_ms: u128, later_ms: u128)
    requires
        now_ms <= later_ms,
    ensures
        wait_ms(watermark, delay_ms, now_ms) >= 0,
        wait_ms(watermark, delay_ms, now_ms) == 0 <==> watermark.pruner_timestamp_ms + delay_ms
            <= now_ms,
        wait_ms(watermark, delay_ms, later_ms) == (if wait_ms(watermark, delay_ms, now_ms) >= later_ms
            - now_ms {
            wait_ms(watermark, delay_ms, now_ms) - (later_ms - now_ms)
        } else {
            0
        }),
{
}

} // verus!
