//! What the calls of a connection and of the codec answer, field by field, and how they relate.
//!
//! Each law speaks of every answer `r` that a call can give.
use crate::big_endian::{
    be_value, lemma_be_bytes_len, lemma_be_value_bound, lemma_pow256_values,
    lemma_value_of_bytes,
};
use crate::kvstore::cells::bytes_contents;
use crate::kvstore::col;
use crate::kvstore::laws::{
    column_contents, lemma_fields, lemma_first_of_column, lemma_last_of_column,
    lemma_legacy_bytes_injective,
};
use crate::kvstore::store::{
    BigTableConnection, BigTableStore, CommitterWatermark, Found, InitStep, InitWatermark,
    NoWatermark, PrunerWatermark, ReaderWatermark, WaitTooLong, WriteStep,
};
use crate::kvstore::watermarks::{
    cell_contents, cells_for_write, decode_legacy, decode_new, encode_for_write, encode_key,
    encode_legacy, find_new, join_version, joined, last_cell, lemma_columns_differ, written_cells,
    BcsError, DecodeError, EncodeError, Watermark, WatermarkV2, LEGACY_CONTEXT, NAME,
};
use crate::text::{decimal, lemma_decimal_is_read_back, number_of};
use bytes::Bytes;
use vstd::prelude::*;
use vstd::string::StringSliceAdditionalSpecFns;
use vstd::utf8::encode_utf8;

verus! {

/// A row in the new format is answered with its own values, whatever its legacy cell and the
/// framework say, and nothing is written.
pub proof fn lemma_init_answers_the_row<'a, C>(
    conn: &BigTableConnection<'a, C>,
    current: WatermarkV2,
    version: u64,
    legacy: Option<Watermark>,
    checkpoint: Option<u64>,
    r: InitStep,
)
    requires
        call_ensures(
            BigTableConnection::<'a, C>::init_watermark,
            (conn, Some((current, version)), legacy, checkpoint),
            r,
        ),
    ensures
        r matches InitStep::Return(init) && init.checkpoint_hi_inclusive
            == current.checkpoint_hi_inclusive && init.reader_lo == Some(current.reader_lo),
{
}

/// Once the row was created, by whomever, the answer is its own values; without a row there is
/// none.
pub proof fn lemma_created_row_is_answered<'a, C>(
    conn: &BigTableConnection<'a, C>,
    found: Found,
    r: Option<InitWatermark>,
)
    requires
        call_ensures(BigTableConnection::<'a, C>::init_watermark_created, (conn, found), r),
    ensures
        found is None ==> r is None,
        found matches Some((current, version)) ==> (r matches Some(init)
            && init.checkpoint_hi_inclusive == current.checkpoint_hi_inclusive && init.reader_lo
            == Some(current.reader_lo)),
{
}

/// A row in the legacy format alone is taken over: every field that it has is kept, readers and
/// pruner go on right behind its checkpoint, and what the framework says does not matter.
pub proof fn lemma_init_takes_over_legacy<'a, C>(
    conn: &BigTableConnection<'a, C>,
    legacy: Watermark,
    checkpoint: Option<u64>,
    r: InitStep,
)
    requires
        legacy.checkpoint_hi_inclusive < u64::MAX,
        call_ensures(
            BigTableConnection::<'a, C>::init_watermark,
            (conn, None, Some(legacy), checkpoint),
            r,
        ),
    ensures
        r matches InitStep::CreateIfAbsent(w) && {
            &&& w.epoch_hi_inclusive == legacy.epoch_hi_inclusive
            &&& w.checkpoint_hi_inclusive == Some(legacy.checkpoint_hi_inclusive)
            &&& w.tx_hi == legacy.tx_hi
            &&& w.timestamp_ms_hi_inclusive == legacy.timestamp_ms_hi_inclusive
            &&& w.reader_lo == legacy.checkpoint_hi_inclusive + 1
            &&& w.pruner_hi == legacy.checkpoint_hi_inclusive + 1
            &&& w.pruner_timestamp_ms == 0
        },
{
}

/// A fresh row has the checkpoint of the framework and nothing else: readers and pruner start
/// right behind it, or at the beginning.
pub proof fn lemma_init_of_nothing<'a, C>(
    conn: &BigTableConnection<'a, C>,
    checkpoint: Option<u64>,
    r: InitStep,
)
    requires
        checkpoint matches Some(c) ==> c < u64::MAX,
        call_ensures(
            BigTableConnection::<'a, C>::init_watermark,
            (conn, None, None, checkpoint),
            r,
        ),
    ensures
        r matches InitStep::CreateIfAbsent(w) && {
            &&& w.checkpoint_hi_inclusive == checkpoint
            &&& checkpoint is None ==> w.reader_lo == 0
            &&& checkpoint matches Some(c) ==> w.reader_lo == c + 1
            &&& w.pruner_hi == w.reader_lo
            &&& w.epoch_hi_inclusive == 0
            &&& w.tx_hi == 0
            &&& w.timestamp_ms_hi_inclusive == 0
            &&& w.pruner_timestamp_ms == 0
        },
{
}

/// What an initialization writes is what a later one answers.
pub proof fn lemma_init_is_answered_later<'a, C>(
    conn: &BigTableConnection<'a, C>,
    legacy: Option<Watermark>,
    checkpoint: Option<u64>,
    created: WatermarkV2,
    version: u64,
    later_legacy: Option<Watermark>,
    later_checkpoint: Option<u64>,
    r: InitStep,
)
    requires
        legacy matches Some(l) ==> l.checkpoint_hi_inclusive < u64::MAX,
        checkpoint matches Some(c) ==> c < u64::MAX,
        call_ensures(
            BigTableConnection::<'a, C>::init_watermark,
            (conn, None, legacy, checkpoint),
            InitStep::CreateIfAbsent(created),
        ),
        call_ensures(
            BigTableConnection::<'a, C>::init_watermark,
            (conn, Some((created, version)), later_legacy, later_checkpoint),
            r,
        ),
    ensures
        r matches InitStep::Return(init) && init.checkpoint_hi_inclusive == (match legacy {
            Some(l) => Some(l.checkpoint_hi_inclusive),
            None => checkpoint,
        }) && (init.reader_lo matches Some(lo) && match init.checkpoint_hi_inclusive {
            Some(c) => lo == c + 1,
            None => lo == 0,
        }),
{
}

/// An update of the committer is refused exactly if the row has a checkpoint that is not below the
/// new one. Otherwise the four fields of the committer are written at the version that was read,
/// and the other three are kept.
pub proof fn lemma_committer_update<'a, C>(
    conn: &BigTableConnection<'a, C>,
    current: WatermarkV2,
    version: u64,
    by: CommitterWatermark,
    r: Result<WriteStep, NoWatermark>,
)
    requires
        call_ensures(
            BigTableConnection::<'a, C>::set_committer_watermark,
            (conn, Some((current, version)), by),
            r,
        ),
    ensures
        r is Ok,
        r->Ok_0 is Refuse <==> (current.checkpoint_hi_inclusive matches Some(c) && c
            >= by.checkpoint_hi_inclusive),
        r->Ok_0 matches WriteStep::CompareAndSet { watermark: w, expected_version } ==> {
            &&& expected_version == version
            &&& w.epoch_hi_inclusive == by.epoch_hi_inclusive
            &&& w.checkpoint_hi_inclusive == Some(by.checkpoint_hi_inclusive)
            &&& w.tx_hi == by.tx_hi
            &&& w.timestamp_ms_hi_inclusive == by.timestamp_ms_hi_inclusive
            &&& w.reader_lo == current.reader_lo
            &&& w.pruner_hi == current.pruner_hi
            &&& w.pruner_timestamp_ms == current.pruner_timestamp_ms
        },
{
}

/// An update of `reader_lo` is never refused where there is a row: it is written at the version
/// that was read, be it more or less than before, and every other field is kept.
pub proof fn lemma_reader_update<'a, C>(
    conn: &BigTableConnection<'a, C>,
    current: WatermarkV2,
    version: u64,
    reader_lo: u64,
    r: Result<WriteStep, NoWatermark>,
)
    requires
        call_ensures(
            BigTableConnection::<'a, C>::set_reader_watermark,
            (conn, Some((current, version)), reader_lo),
            r,
        ),
    ensures
        r matches Ok(WriteStep::CompareAndSet { watermark: w, expected_version }) && {
            &&& expected_version == version
            &&& w.reader_lo == reader_lo
            &&& w.epoch_hi_inclusive == current.epoch_hi_inclusive
            &&& w.checkpoint_hi_inclusive == current.checkpoint_hi_inclusive
            &&& w.tx_hi == current.tx_hi
            &&& w.timestamp_ms_hi_inclusive == current.timestamp_ms_hi_inclusive
            &&& w.pruner_hi == current.pruner_hi
            &&& w.pruner_timestamp_ms == current.pruner_timestamp_ms
        },
{
}

/// An update of `pruner_hi` is never refused where there is a row: it is written at the version
/// that was read, be it more or less than before, and every other field is kept.
pub proof fn lemma_pruner_update<'a, C>(
    conn: &BigTableConnection<'a, C>,
    current: WatermarkV2,
    version: u64,
    pruner_hi: u64,
    r: Result<WriteStep, NoWatermark>,
)
    requires
        call_ensures(
            BigTableConnection::<'a, C>::set_pruner_watermark,
            (conn, Some((current, version)), pruner_hi),
            r,
        ),
    ensures
        r matches Ok(WriteStep::CompareAndSet { watermark: w, expected_version }) && {
            &&& expected_version == version
            &&& w.pruner_hi == pruner_hi
            &&& w.epoch_hi_inclusive == current.epoch_hi_inclusive
            &&& w.checkpoint_hi_inclusive == current.checkpoint_hi_inclusive
            &&& w.tx_hi == current.tx_hi
            &&& w.timestamp_ms_hi_inclusive == current.timestamp_ms_hi_inclusive
            &&& w.reader_lo == current.reader_lo
            &&& w.pruner_timestamp_ms == current.pruner_timestamp_ms
        },
{
}

/// Without a row there is nothing to update, and updates alone fail: reading finds nothing.
pub proof fn lemma_no_row<'a, C>(
    conn: &BigTableConnection<'a, C>,
    by: CommitterWatermark,
    n: u64,
    delay_ms: u128,
    now_ms: u128,
    w: Result<WriteStep, NoWatermark>,
    g: Result<(WatermarkV2, u64), NoWatermark>,
    c: Option<CommitterWatermark>,
    rd: Option<ReaderWatermark>,
    p: Result<Option<PrunerWatermark>, WaitTooLong>,
)
    ensures
        call_ensures(
            BigTableConnection::<'a, C>::set_committer_watermark,
            (conn, None, by),
            w,
        ) ==> w is Err,
        call_ensures(BigTableConnection::<'a, C>::set_reader_watermark, (conn, None, n), w)
            ==> w is Err,
        call_ensures(BigTableConnection::<'a, C>::set_pruner_watermark, (conn, None, n), w)
            ==> w is Err,
        call_ensures(BigTableConnection::<'a, C>::get_watermark_for_write, (conn, None), g)
            ==> g is Err,
        call_ensures(BigTableConnection::<'a, C>::committer_watermark, (conn, None), c)
            ==> c is None,
        call_ensures(BigTableConnection::<'a, C>::reader_watermark, (conn, None), rd)
            ==> rd is None,
        call_ensures(
            BigTableConnection::<'a, C>::pruner_watermark,
            (conn, None, delay_ms, now_ms),
            p,
        ) ==> p is Ok && p->Ok_0 is None,
{
}

/// Those who write get every row as it is; those who read get it exactly if it has a checkpoint
/// that is not below `reader_lo`, with that checkpoint.
pub proof fn lemma_rows_for_reading_and_writing<'a, C>(
    conn: &BigTableConnection<'a, C>,
    current: WatermarkV2,
    version: u64,
    w: Result<(WatermarkV2, u64), NoWatermark>,
    r: Option<(WatermarkV2, u64)>,
)
    requires
        call_ensures(
            BigTableConnection::<'a, C>::get_watermark_for_write,
            (conn, Some((current, version))),
            w,
        ),
        call_ensures(
            BigTableConnection::<'a, C>::get_watermark_for_read,
            (conn, Some((current, version))),
            r,
        ),
    ensures
        w matches Ok(row) && row.0 == current && row.1 == version,
        r is Some <==> (current.checkpoint_hi_inclusive matches Some(c) && c >= current.reader_lo),
        r matches Some(row) ==> row.0 == current && current.checkpoint_hi_inclusive == Some(row.1),
{
}

/// What the committer recorded is read field by field, if the row is visible, and only then.
pub proof fn lemma_committer_read<'a, C>(
    conn: &BigTableConnection<'a, C>,
    current: WatermarkV2,
    version: u64,
    r: Option<CommitterWatermark>,
)
    requires
        call_ensures(
            BigTableConnection::<'a, C>::committer_watermark,
            (conn, Some((current, version))),
            r,
        ),
    ensures
        r is Some <==> (current.checkpoint_hi_inclusive matches Some(c) && c >= current.reader_lo),
        r matches Some(c) ==> {
            &&& c.epoch_hi_inclusive == current.epoch_hi_inclusive
            &&& Some(c.checkpoint_hi_inclusive) == current.checkpoint_hi_inclusive
            &&& c.tx_hi == current.tx_hi
            &&& c.timestamp_ms_hi_inclusive == current.timestamp_ms_hi_inclusive
        },
{
}

/// What readers may ask for is read field by field, if the row is visible, and only then.
pub proof fn lemma_reader_read<'a, C>(
    conn: &BigTableConnection<'a, C>,
    current: WatermarkV2,
    version: u64,
    r: Option<ReaderWatermark>,
)
    requires
        call_ensures(
            BigTableConnection::<'a, C>::reader_watermark,
            (conn, Some((current, version))),
            r,
        ),
    ensures
        r is Some <==> (current.checkpoint_hi_inclusive matches Some(c) && c >= current.reader_lo),
        r matches Some(read) ==> Some(read.checkpoint_hi_inclusive)
            == current.checkpoint_hi_inclusive && read.reader_lo == current.reader_lo,
{
}

/// What may be pruned is read field by field, if the row is visible. The wait ends when the delay
/// has passed since the pruner last ran: it is over exactly then, it reaches from now until then
/// before, and it is an error only where it is too long for the answer.
pub proof fn lemma_pruner_read<'a, C>(
    conn: &BigTableConnection<'a, C>,
    current: WatermarkV2,
    version: u64,
    delay_ms: u128,
    now_ms: u128,
    r: Result<Option<PrunerWatermark>, WaitTooLong>,
)
    requires
        delay_ms <= u128::MAX - u64::MAX,
        call_ensures(
            BigTableConnection::<'a, C>::pruner_watermark,
            (conn, Some((current, version)), delay_ms, now_ms),
            r,
        ),
    ensures
        r matches Ok(None) <==> !(current.checkpoint_hi_inclusive matches Some(c) && c
            >= current.reader_lo),
        r is Err <==> (current.checkpoint_hi_inclusive matches Some(c) && c >= current.reader_lo)
            && current.pruner_timestamp_ms + delay_ms - now_ms > i64::MAX,
        r matches Ok(Some(p)) ==> {
            &&& p.reader_lo == current.reader_lo
            &&& p.pruner_hi == current.pruner_hi
            &&& p.wait_for_ms >= 0
            &&& p.wait_for_ms > 0 ==> now_ms + p.wait_for_ms == current.pruner_timestamp_ms
                + delay_ms
            &&& p.wait_for_ms == 0 ==> now_ms >= current.pruner_timestamp_ms + delay_ms
        },
{
}

/// What an update of the committer writes is what is read back, all four fields of it, unless it
/// is below what readers may ask for.
pub proof fn lemma_committer_update_is_read<'a, C>(
    conn: &BigTableConnection<'a, C>,
    current: WatermarkV2,
    version: u64,
    by: CommitterWatermark,
    watermark: WatermarkV2,
    later: u64,
    r: Option<CommitterWatermark>,
)
    requires
        call_ensures(
            BigTableConnection::<'a, C>::set_committer_watermark,
            (conn, Some((current, version)), by),
            Ok(WriteStep::CompareAndSet { watermark, expected_version: version }),
        ),
        call_ensures(
            BigTableConnection::<'a, C>::committer_watermark,
            (conn, Some((watermark, later))),
            r,
        ),
    ensures
        by.checkpoint_hi_inclusive >= current.reader_lo ==> r == Some(by),
        by.checkpoint_hi_inclusive < current.reader_lo ==> r is None,
{
}

/// What an update of `reader_lo` writes is what is read back, unless it hides the row.
pub proof fn lemma_reader_update_is_read<'a, C>(
    conn: &BigTableConnection<'a, C>,
    current: WatermarkV2,
    version: u64,
    reader_lo: u64,
    watermark: WatermarkV2,
    later: u64,
    r: Option<ReaderWatermark>,
)
    requires
        call_ensures(
            BigTableConnection::<'a, C>::set_reader_watermark,
            (conn, Some((current, version)), reader_lo),
            Ok(WriteStep::CompareAndSet { watermark, expected_version: version }),
        ),
        call_ensures(
            BigTableConnection::<'a, C>::reader_watermark,
            (conn, Some((watermark, later))),
            r,
        ),
    ensures
        r is Some <==> (current.checkpoint_hi_inclusive matches Some(c) && c >= reader_lo),
        r matches Some(read) ==> read.reader_lo == reader_lo && Some(read.checkpoint_hi_inclusive)
            == current.checkpoint_hi_inclusive,
{
}

/// What an update of `pruner_hi` writes is what is read back, and neither the wait nor what is
/// visible changes.
pub proof fn lemma_pruner_update_is_read<'a, C>(
    conn: &BigTableConnection<'a, C>,
    current: WatermarkV2,
    version: u64,
    pruner_hi: u64,
    watermark: WatermarkV2,
    later: u64,
    delay_ms: u128,
    now_ms: u128,
    before: Option<PrunerWatermark>,
    after: Option<PrunerWatermark>,
)
    requires
        delay_ms <= u128::MAX - u64::MAX,
        call_ensures(
            BigTableConnection::<'a, C>::set_pruner_watermark,
            (conn, Some((current, version)), pruner_hi),
            Ok(WriteStep::CompareAndSet { watermark, expected_version: version }),
        ),
        call_ensures(
            BigTableConnection::<'a, C>::pruner_watermark,
            (conn, Some((current, version)), delay_ms, now_ms),
            Ok(before),
        ),
        call_ensures(
            BigTableConnection::<'a, C>::pruner_watermark,
            (conn, Some((watermark, later)), delay_ms, now_ms),
            Ok(after),
        ),
    ensures
        after is Some <==> before is Some,
        after matches Some(p) ==> p.pruner_hi == pruner_hi && p.wait_for_ms == before->0.wait_for_ms
            && p.reader_lo == before->0.reader_lo,
{
}

/// Every chain is accepted.
pub proof fn lemma_any_chain<'a, C>(
    conn: &BigTableConnection<'a, C>,
    chain_id: [u8; 32],
    r: bool,
)
    requires
        call_ensures(BigTableConnection::<'a, C>::accepts_chain_id, (conn, chain_id), r),
    ensures
        r,
{
}

/// A connection has a clone of the client that the store was made with.
pub proof fn lemma_connections_share_the_client<'c, C: Clone>(
    client: C,
    store: &'c BigTableStore<C>,
    conn: BigTableConnection<'c, C>,
)
    requires
        call_ensures(BigTableStore::<C>::new, (client,), *store),
        call_ensures(BigTableStore::<C>::connect, (store,), conn),
    ensures
        cloned(client, conn.spec_client()),
{
}

/// The client that a connection hands out is its own, and what is done to it is done to that.
pub proof fn lemma_client_is_handed_out<'a, 'b, C>(
    conn: &'b mut BigTableConnection<'a, C>,
    r: &'b mut C,
)
    requires
        call_ensures(BigTableConnection::<'a, C>::client, (conn,), r),
    ensures
        *old(r) == old(conn).spec_client(),
        final(conn).spec_client() == *final(r),
{
}

/// What is missing is said of the pipeline that was asked for.
pub proof fn lemma_missing_watermark_is_named(pipeline: &str, r: String)
    requires
        call_ensures(NoWatermark::message, (&NoWatermark, pipeline), r),
    ensures
        r@.len() == "no watermark for pipeline "@.len() + pipeline@.len(),
        r@.take("no watermark for pipeline "@.len() as int) == "no watermark for pipeline "@,
        r@.skip("no watermark for pipeline "@.len() as int) == pipeline@,
{
    assert(r@.take("no watermark for pipeline "@.len() as int) =~= "no watermark for pipeline "@);
    assert(r@.skip("no watermark for pipeline "@.len() as int) =~= pipeline@);
}

/// A row key is the UTF-8 of the name, so that different pipelines have different rows.
pub proof fn lemma_row_key(pipeline: &str, r: Vec<u8>)
    requires
        call_ensures(encode_key, (pipeline,), r),
    ensures
        r@ == encode_utf8(pipeline@),
{
}

/// The bytes hold the four fields of a legacy watermark, eight bytes each with the least
/// significant first.
pub open spec fn holds_fields(bytes: Seq<u8>, legacy: Watermark) -> bool {
    &&& bytes.len() == 32
    &&& be_value(bytes.subrange(0, 8).reverse()) == legacy.epoch_hi_inclusive
    &&& be_value(bytes.subrange(8, 16).reverse()) == legacy.checkpoint_hi_inclusive
    &&& be_value(bytes.subrange(16, 24).reverse()) == legacy.tx_hi
    &&& be_value(bytes.subrange(24, 32).reverse()) == legacy.timestamp_ms_hi_inclusive
}

/// A legacy cell holds the fields of the watermark, one after the other.
pub proof fn lemma_legacy_cell(legacy: Watermark, r: Result<(&'static str, Bytes), BcsError>)
    requires
        call_ensures(encode_legacy, (&legacy,), r),
    ensures
        r matches Ok(cell) && cell.0@ == "w"@ && holds_fields(bytes_contents(cell.1), legacy),
{
    lemma_fields(legacy);
}

/// A legacy cell is read back as the watermark that it was made of, in whatever row it is the
/// first of its column.
pub proof fn lemma_legacy_cell_is_read(
    legacy: Watermark,
    cell: (&'static str, Bytes),
    row: &[(Bytes, Bytes)],
    r: Result<Option<Watermark>, BcsError>,
)
    requires
        call_ensures(encode_legacy, (&legacy,), Ok(cell)),
        column_contents(row@, "w".spec_bytes()).len() > 0,
        column_contents(row@, "w".spec_bytes())[0] == bytes_contents(cell.1),
        call_ensures(decode_legacy, (row,), r),
    ensures
        r matches Ok(Some(read)) && read == legacy,
{
    lemma_fields(legacy);
    lemma_first_of_column(row@, col::WATERMARK.spec_bytes());
    if let Ok(Some(read)) = r {
        lemma_legacy_bytes_injective(read, legacy);
    }
}

/// The legacy watermark is read from the first cell of its column: there is none exactly without
/// a cell, an error exactly where the cell has not 32 bytes, and else the fields that it holds.
pub proof fn lemma_legacy_read(
    row: &[(Bytes, Bytes)],
    r: Result<Option<Watermark>, BcsError>,
)
    requires
        call_ensures(decode_legacy, (row,), r),
    ensures
        r matches Ok(None) <==> column_contents(row@, "w".spec_bytes()).len() == 0,
        r is Err <==> column_contents(row@, "w".spec_bytes()).len() > 0 && column_contents(
            row@,
            "w".spec_bytes(),
        )[0].len() != 32,
        r matches Ok(Some(read)) ==> holds_fields(
            column_contents(row@, "w".spec_bytes())[0],
            read,
        ),
{
    lemma_first_of_column(row@, col::WATERMARK.spec_bytes());
    if let Ok(Some(read)) = r {
        lemma_fields(read);
    }
}

/// The cells of a write are the JSON, the version in eight bytes with the most significant first,
/// and the fields of the legacy format exactly where there is a checkpoint.
pub proof fn lemma_cells_of_a_write(
    watermark: WatermarkV2,
    json: Vec<u8>,
    version: u64,
    r: Result<Vec<(&'static str, Bytes)>, BcsError>,
)
    requires
        call_ensures(cells_for_write, (&watermark, json, version), r),
    ensures
        r is Ok,
        is_write_of(r->Ok_0@, watermark, json@, version),
{
    if let Ok(cells) = r {
        lemma_cells_written(cells@, watermark, json@, version);
    }
}

/// These are the cells that record a watermark at a version, with this JSON.
pub open spec fn is_write_of(
    cells: Seq<(&'static str, Bytes)>,
    watermark: WatermarkV2,
    json: Seq<u8>,
    version: u64,
) -> bool {
    &&& cells.len() == if watermark.checkpoint_hi_inclusive is Some {
        3
    } else {
        2int
    }
    &&& cells[0].0@ == "w2"@
    &&& bytes_contents(cells[0].1) == json
    &&& cells[1].0@ == "v"@
    &&& bytes_contents(cells[1].1).len() == 8
    &&& be_value(bytes_contents(cells[1].1)) == version
    &&& watermark.checkpoint_hi_inclusive matches Some(checkpoint) ==> cells[2].0@ == "w"@
        && holds_fields(
        bytes_contents(cells[2].1),
        Watermark {
            epoch_hi_inclusive: watermark.epoch_hi_inclusive,
            checkpoint_hi_inclusive: checkpoint,
            tx_hi: watermark.tx_hi,
            timestamp_ms_hi_inclusive: watermark.timestamp_ms_hi_inclusive,
        },
    )
}

proof fn lemma_cells_written(
    cells: Seq<(&'static str, Bytes)>,
    watermark: WatermarkV2,
    json: Seq<u8>,
    version: u64,
)
    requires
        cell_contents(cells) == written_cells(watermark, json, version),
    ensures
        is_write_of(cells, watermark, json, version),
{
    let all = cell_contents(cells);
    assert(all.len() == cells.len());
    assert(all[0] == (cells[0].0@, bytes_contents(cells[0].1)));
    assert(all[1] == (cells[1].0@, bytes_contents(cells[1].1)));
    lemma_pow256_values();
    lemma_be_bytes_len(version as nat, 8);
    lemma_value_of_bytes(version as nat, 8);
    if let Some(checkpoint) = watermark.checkpoint_hi_inclusive {
        assert(all[2] == (cells[2].0@, bytes_contents(cells[2].1)));
        lemma_fields(
            Watermark {
                epoch_hi_inclusive: watermark.epoch_hi_inclusive,
                checkpoint_hi_inclusive: checkpoint,
                tx_hi: watermark.tx_hi,
                timestamp_ms_hi_inclusive: watermark.timestamp_ms_hi_inclusive,
            },
        );
    }
}

/// A write has the JSON that the codec made of this very watermark, and fails only where the codec
/// does, with its error.
pub proof fn lemma_write_takes_the_json<S, E>(
    watermark: WatermarkV2,
    version: u64,
    to_json: S,
    r: Result<Vec<(&'static str, Bytes)>, EncodeError<E>>,
) where S: Fn(&WatermarkV2) -> Result<Vec<u8>, E>
    requires
        call_ensures(encode_for_write::<S, E>, (&watermark, version, to_json), r),
    ensures
        r matches Ok(cells) ==> exists|json: Vec<u8>| #[trigger]
            call_ensures(to_json, (&watermark,), Ok(json)) && is_write_of(
                cells@,
                watermark,
                json@,
                version,
            ),
        r matches Err(e) ==> (e matches EncodeError::Json(e) && call_ensures(
            to_json,
            (&watermark,),
            Err(e),
        )),
{
    if let Ok(cells) = r {
        let json = choose|json: Vec<u8>| #[trigger]
            call_ensures(to_json, (&watermark,), Ok(json)) && cell_contents(cells@)
                == written_cells(watermark, json@, version);
        lemma_cells_written(cells@, watermark, json@, version);
    }
}

/// A parsed watermark is joined with the version as it is: an error of the parser comes first, then
/// one for a version that has not eight bytes, with the bytes that it has.
pub proof fn lemma_version_is_joined<E>(
    parsed: Result<WatermarkV2, E>,
    v: Bytes,
    r: Result<(WatermarkV2, u64), DecodeError<E>>,
)
    requires
        bytes_contents(v).len() <= usize::MAX,
        call_ensures(join_version::<E>, (parsed, &v), r),
    ensures
        parsed matches Err(e) ==> r is Err && r->Err_0 == DecodeError::Json(e),
        parsed matches Ok(w) ==> (bytes_contents(v).len() != 8 ==> (r matches Err(
            DecodeError::VersionLength(len),
        ) && len == bytes_contents(v).len())),
        parsed matches Ok(w) ==> (bytes_contents(v).len() == 8 ==> (r matches Ok(found) && found.0
            == w && found.1 == be_value(bytes_contents(v)))),
{
    lemma_be_value_bound(bytes_contents(v));
    lemma_pow256_values();
}

/// The cells of the new format are found exactly where there are both, and are the last of their
/// columns.
pub proof fn lemma_new_cells_found<'a>(
    row: &'a [(Bytes, Bytes)],
    r: Option<(&'a Bytes, &'a Bytes)>,
)
    requires
        call_ensures(find_new, (row,), r),
    ensures
        r is Some <==> column_contents(row@, "w2".spec_bytes()).len() > 0 && column_contents(
            row@,
            "v".spec_bytes(),
        ).len() > 0,
        r matches Some((w2, v)) ==> bytes_contents(*w2) == column_contents(
            row@,
            "w2".spec_bytes(),
        ).last() && bytes_contents(*v) == column_contents(row@, "v".spec_bytes()).last(),
{
    lemma_last_of_column(row@, col::WATERMARK_V2.spec_bytes());
    lemma_last_of_column(row@, col::VERSION.spec_bytes());
}

/// The parser can make this of a cell that holds what the last `w2` cell of the row holds.
pub open spec fn last_is_parsed_to<P, E>(
    row: Seq<(Bytes, Bytes)>,
    parse: P,
    parsed: Result<WatermarkV2, E>,
) -> bool where P: Fn(&Bytes) -> Result<WatermarkV2, E> {
    exists|w2: Bytes|
        bytes_contents(w2) == column_contents(row, "w2".spec_bytes()).last() && #[trigger]
            call_ensures(parse, (&w2,), parsed)
}

/// A row is read as none exactly without a `w2` or without a `v` cell. Otherwise the answer is what
/// the parser makes of the last `w2` cell, with the value of the last `v` cell.
pub proof fn lemma_new_read<P, E>(
    row: &[(Bytes, Bytes)],
    parse: P,
    r: Result<Option<(WatermarkV2, u64)>, DecodeError<E>>,
) where P: Fn(&Bytes) -> Result<WatermarkV2, E>
    requires
        call_ensures(decode_new::<P, E>, (row, parse), r),
    ensures
        r matches Ok(None) <==> column_contents(row@, "w2".spec_bytes()).len() == 0
            || column_contents(row@, "v".spec_bytes()).len() == 0,
        r matches Ok(Some((watermark, version))) ==> {
            &&& last_is_parsed_to(row@, parse, Ok(watermark))
            &&& column_contents(row@, "v".spec_bytes()).last().len() == 8
            &&& version == be_value(column_contents(row@, "v".spec_bytes()).last())
        },
        r matches Err(DecodeError::Json(e)) ==> last_is_parsed_to(row@, parse, Err(e)),
        r matches Err(DecodeError::VersionLength(_)) ==> column_contents(
            row@,
            "v".spec_bytes(),
        ).last().len() != 8,
{
    lemma_last_of_column(row@, col::WATERMARK_V2.spec_bytes());
    lemma_last_of_column(row@, col::VERSION.spec_bytes());
    if column_contents(row@, "v".spec_bytes()).len() > 0 {
        lemma_be_value_bound(column_contents(row@, "v".spec_bytes()).last());
    }
    lemma_pow256_values();
    if let (Some(w2), Some(v)) = (
        last_cell(row@, col::WATERMARK_V2.spec_bytes()),
        last_cell(row@, col::VERSION.spec_bytes()),
    ) {
        let parsed = choose|parsed: Result<WatermarkV2, E>| #[trigger]
            call_ensures(parse, (&w2,), parsed) && match joined(parsed, bytes_contents(v)) {
                Ok(found) => r is Ok && r->Ok_0 == Some(found),
                Err(e) => r is Err && r->Err_0 == e,
            };
        assert(last_is_parsed_to(row@, parse, parsed));
    }
}

/// A version of a wrong length is reported with that length, in digits that read as it.
pub proof fn lemma_version_length_is_reported<E>(len: usize, r: String) -> (digits: Seq<char>)
    requires
        call_ensures(DecodeError::<E>::message, (&DecodeError::VersionLength(len),), r),
    ensures
        number_of(digits) == len,
        r@ == "`v` column has unexpected length "@ + digits + " (expected 8)"@,
{
    lemma_decimal_is_read_back(len as nat);
    decimal(len as nat)
}

/// JSON that cannot be read is reported as that, whatever the parser says.
pub proof fn lemma_broken_json_is_reported<E>(e: E, r: String)
    requires
        call_ensures(DecodeError::<E>::message, (&DecodeError::Json(e),), r),
    ensures
        r@ == "failed to deserialize JSON watermark from `w2` column"@,
{
}

/// How the table and its columns are called; no two columns have the same name.
pub proof fn lemma_column_names()
    ensures
        NAME@ == "watermark_alt"@,
        col::WATERMARK@ == "w"@,
        col::WATERMARK_V2@ == "w2"@,
        col::VERSION@ == "v"@,
        "w".spec_bytes() != "w2".spec_bytes(),
        "w".spec_bytes() != "v".spec_bytes(),
        "w2".spec_bytes() != "v".spec_bytes(),
{
    lemma_columns_differ();
}

/// What is reported where a legacy cell cannot be read.
pub proof fn lemma_broken_legacy_is_reported()
    ensures
        LEGACY_CONTEXT@ == "failed to deserialize BCS legacy watermark from `w` column"@,
{
}

/// A pipeline can be initialized whatever its row holds, unless it would have to start after the
/// last of all checkpoints.
pub proof fn lemma_init_may_be_asked<'a, C>(
    conn: &BigTableConnection<'a, C>,
    found: Found,
    legacy: Option<Watermark>,
    checkpoint: Option<u64>,
)
    requires
        found is Some || (legacy matches Some(l) && l.checkpoint_hi_inclusive != u64::MAX) || (
        legacy is None && checkpoint != Some(u64::MAX)),
    ensures
        call_requires(
            BigTableConnection::<'a, C>::init_watermark,
            (conn, found, legacy, checkpoint),
        ),
{
}

/// The pruner may ask at any time, with any delay of at most so many milliseconds as a `u64` holds.
pub proof fn lemma_pruner_may_ask<'a, C>(
    conn: &BigTableConnection<'a, C>,
    found: Found,
    delay_ms: u128,
    now_ms: u128,
)
    requires
        delay_ms <= u64::MAX,
    ensures
        call_requires(
            BigTableConnection::<'a, C>::pruner_watermark,
            (conn, found, delay_ms, now_ms),
        ),
{
}

} // verus!
