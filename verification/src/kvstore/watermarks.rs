//! The watermark table: one row for each pipeline, keyed by the name of the pipeline.
//!
//! A row has up to three columns:
//! - `w` (legacy): BCS of a `Watermark`, kept in step with the others for those who still read it;
//! - `w2`: JSON of a `WatermarkV2`;
//! - `v`: a big-endian `u64`, incremented by every write of `w2`.
use crate::big_endian::{be_bytes, be_value, read_be, write_be};
use crate::kvstore::cells::{
    bcs_from_u64x4, bcs_to_u64x4, bcs_u64x4, bytes_as_slice, bytes_contents, bytes_copy_from_slice,
    bytes_from_vec, same_bytes,
};
use crate::kvstore::col;
use crate::text::{around_number, decimal};
use bytes::Bytes;
use vstd::prelude::*;
use vstd::slice::slice_to_vec;
use vstd::string::StringSliceAdditionalSpecFns;

verus! {

/// The name of the table.
pub const NAME: &'static str = "watermark_alt";

/// How far a pipeline has come, in the legacy format.
#[derive(Clone, Copy, Debug, PartialEq, Eq, Structural)]
pub struct Watermark {
    pub epoch_hi_inclusive: u64,
    pub checkpoint_hi_inclusive: u64,
    pub tx_hi: u64,
    pub timestamp_ms_hi_inclusive: u64,
}

/// How far a pipeline has come, and what its readers and its pruner may rely on.
#[derive(Clone, Copy, Debug, PartialEq, Eq, Structural)]
pub struct WatermarkV2 {
    pub epoch_hi_inclusive: u64,
    /// `None` until the first checkpoint is committed.
    pub checkpoint_hi_inclusive: Option<u64>,
    pub tx_hi: u64,
    pub timestamp_ms_hi_inclusive: u64,
    pub reader_lo: u64,
    pub pruner_hi: u64,
    pub pruner_timestamp_ms: u64,
}

/// BCS failed, for the reason that the `bcs` crate gives.
#[derive(Debug)]
pub struct BcsError {
    pub source: bcs::Error,
}

/// Why a watermark cannot be written. `E` is the error of the JSON codec.
#[derive(Debug)]
pub enum EncodeError<E> {
    Json(E),
    Bcs(BcsError),
}

/// Why the watermark of a row cannot be read. `E` is the error of the JSON codec.
#[derive(Debug)]
pub enum DecodeError<E> {
    /// The `w2` column does not hold a watermark.
    Json(E),
    /// The `v` column does not hold eight bytes, but so many.
    VersionLength(usize),
}

/// Reported where the `w2` column does not hold a watermark.
pub const JSON_CONTEXT: &'static str = "failed to deserialize JSON watermark from `w2` column";

/// Reported where the `w` column does not hold a legacy watermark.
pub const LEGACY_CONTEXT: &'static str =
    "failed to deserialize BCS legacy watermark from `w` column";

impl<E> DecodeError<E> {
    /// What is reported.
    pub open spec fn spec_message(&self) -> Seq<char> {
        match self {
            DecodeError::Json(_) => JSON_CONTEXT@,
            DecodeError::VersionLength(len) => "`v` column has unexpected length "@ + decimal(
                *len as nat,
            ) + " (expected 8)"@,
        }
    }

    /// What to report.
    pub fn message(&self) -> (r: String)
        ensures
            r@ == self.spec_message(),
    {
        match self {
            DecodeError::Json(_) => JSON_CONTEXT.to_string(),
            DecodeError::VersionLength(len) => around_number(
                "`v` column has unexpected length ",
                *len as u64,
                " (expected 8)",
            ),
        }
    }
}

/// The legacy watermark in BCS.
pub open spec fn legacy_bytes(legacy: Watermark) -> Seq<u8> {
    bcs_u64x4(
        legacy.epoch_hi_inclusive,
        legacy.checkpoint_hi_inclusive,
        legacy.tx_hi,
        legacy.timestamp_ms_hi_inclusive,
    )
}

/// The legacy watermark that says the same, if there is a checkpoint to speak of.
pub open spec fn legacy_of(watermark: WatermarkV2) -> Option<Watermark> {
    match watermark.checkpoint_hi_inclusive {
        Some(checkpoint) => Some(
            Watermark {
                epoch_hi_inclusive: watermark.epoch_hi_inclusive,
                checkpoint_hi_inclusive: checkpoint,
                tx_hi: watermark.tx_hi,
                timestamp_ms_hi_inclusive: watermark.timestamp_ms_hi_inclusive,
            },
        ),
        None => None,
    }
}

/// Column names with the bytes of their cells.
pub open spec fn cell_contents(cells: Seq<(&'static str, Bytes)>) -> Seq<(Seq<char>, Seq<u8>)> {
    cells.map_values(|c: (&'static str, Bytes)| (c.0@, bytes_contents(c.1)))
}

/// The cells that record a watermark: `w2` and `v`, and `w` where there is a checkpoint.
pub open spec fn written_cells(watermark: WatermarkV2, json: Seq<u8>, version: u64) -> Seq<
    (Seq<char>, Seq<u8>),
> {
    let new = seq![
        (col::WATERMARK_V2@, json),
        (col::VERSION@, be_bytes(version as nat, 8)),
    ];
    match legacy_of(watermark) {
        Some(legacy) => new.push((col::WATERMARK@, legacy_bytes(legacy))),
        None => new,
    }
}

/// The last cell of a column in a row.
pub open spec fn last_cell(row: Seq<(Bytes, Bytes)>, column: Seq<u8>) -> Option<Bytes>
    decreases row.len(),
{
    if row.len() == 0 {
        None
    } else if bytes_contents(row.last().0) == column {
        Some(row.last().1)
    } else {
        last_cell(row.drop_last(), column)
    }
}

/// The first cell of a column in a row.
pub open spec fn first_cell(row: Seq<(Bytes, Bytes)>, column: Seq<u8>) -> Option<Bytes>
    decreases row.len(),
{
    if row.len() == 0 {
        None
    } else if bytes_contents(row.first().0) == column {
        Some(row.first().1)
    } else {
        first_cell(row.drop_first(), column)
    }
}

/// The row key of a pipeline: the bytes of its name.
pub fn encode_key(pipeline: &str) -> (r: Vec<u8>)
    ensures
        r@ == pipeline.spec_bytes(),
{
    slice_to_vec(pipeline.as_bytes())
}

/// The cell of a legacy watermark.
pub fn encode_legacy(legacy: &Watermark) -> (r: Result<(&'static str, Bytes), BcsError>)
    ensures
        r matches Ok(cell) && cell.0@ == col::WATERMARK@ && bytes_contents(cell.1) == legacy_bytes(
            *legacy,
        ),
{
    match bcs_from_u64x4(
        legacy.epoch_hi_inclusive,
        legacy.checkpoint_hi_inclusive,
        legacy.tx_hi,
        legacy.timestamp_ms_hi_inclusive,
    ) {
        Ok(bytes) => Ok((col::WATERMARK, bytes_from_vec(bytes))),
        Err(source) => Err(BcsError { source }),
    }
}

/// The cells to write for `watermark` at `version`, given its JSON: always `w2` and `v`, and `w`
/// when the watermark has a real checkpoint.
pub fn cells_for_write(watermark: &WatermarkV2, json: Vec<u8>, version: u64) -> (r: Result<
    Vec<(&'static str, Bytes)>,
    BcsError,
>)
    ensures
        r matches Ok(cells) && cell_contents(cells@) == written_cells(*watermark, json@, version),
{
    let version_bytes = write_be(version as u128, 8);
    let mut cells: Vec<(&'static str, Bytes)> = Vec::new();
    cells.push((col::WATERMARK_V2, bytes_from_vec(json)));
    cells.push((col::VERSION, bytes_copy_from_slice(version_bytes.as_slice())));
    if let Some(checkpoint) = watermark.checkpoint_hi_inclusive {
        let legacy = Watermark {
            epoch_hi_inclusive: watermark.epoch_hi_inclusive,
            checkpoint_hi_inclusive: checkpoint,
            tx_hi: watermark.tx_hi,
            timestamp_ms_hi_inclusive: watermark.timestamp_ms_hi_inclusive,
        };
        match encode_legacy(&legacy) {
            Ok(cell) => {
                cells.push(cell);
            },
            Err(e) => {
                return Err(e);
            },
        }
    }
    assert(cell_contents(cells@) =~= written_cells(*watermark, json@, version));
    Ok(cells)
}

/// The cells to write for `watermark` at `version`, with the JSON that `to_json` makes of it.
pub fn encode_for_write<S, E>(watermark: &WatermarkV2, version: u64, to_json: S) -> (r: Result<
    Vec<(&'static str, Bytes)>,
    EncodeError<E>,
>) where S: Fn(&WatermarkV2) -> Result<Vec<u8>, E>
    requires
        call_requires(to_json, (watermark,)),
    ensures
        match r {
            Ok(cells) => exists|json: Vec<u8>| #[trigger]
                call_ensures(to_json, (watermark,), Ok(json)) && cell_contents(cells@)
                    == written_cells(*watermark, json@, version),
            Err(EncodeError::Json(e)) => call_ensures(to_json, (watermark,), Err(e)),
            Err(_) => false,
        },
{
    match to_json(watermark) {
        Ok(json) => match cells_for_write(watermark, json, version) {
            Ok(cells) => Ok(cells),
            Err(e) => Err(EncodeError::Bcs(e)),
        },
        Err(e) => Err(EncodeError::Json(e)),
    }
}

/// What the `w2` and `v` cells of a row amount to, given what the JSON of the former was parsed
/// to.
pub open spec fn joined<E>(parsed: Result<WatermarkV2, E>, v: Seq<u8>) -> Result<
    (WatermarkV2, u64),
    DecodeError<E>,
> {
    match parsed {
        Ok(watermark) => if v.len() == 8 {
            Ok((watermark, be_value(v) as u64))
        } else {
            Err(DecodeError::VersionLength(v.len() as usize))
        },
        Err(e) => Err(DecodeError::Json(e)),
    }
}

/// Puts a parsed watermark together with its version.
pub fn join_version<E>(parsed: Result<WatermarkV2, E>, v: &Bytes) -> (r: Result<
    (WatermarkV2, u64),
    DecodeError<E>,
>)
    ensures
        r == joined(parsed, bytes_contents(*v)),
{
    match parsed {
        Ok(watermark) => {
            let bytes = bytes_as_slice(v);
            if bytes.len() != 8 {
                return Err(DecodeError::VersionLength(bytes.len()));
            }
            assert(bytes@.subrange(0, 8) =~= bytes@);
            proof {
                crate::big_endian::lemma_be_value_bound(bytes@);
                crate::big_endian::lemma_pow256_values();
            }
            Ok((watermark, read_be(bytes, 0, 8) as u64))
        },
        Err(e) => Err(DecodeError::Json(e)),
    }
}

/// The `w2` and `v` cells of a row, if it has both; where a column occurs more than once, the
/// last cell counts.
pub fn find_new<'a>(row: &'a [(Bytes, Bytes)]) -> (r: Option<(&'a Bytes, &'a Bytes)>)
    ensures
        match (
            last_cell(row@, col::WATERMARK_V2.spec_bytes()),
            last_cell(row@, col::VERSION.spec_bytes()),
        ) {
            (Some(w2), Some(v)) => r == Some((&w2, &v)),
            _ => r is None,
        },
{
    let mut w2: Option<&Bytes> = None;
    let mut v: Option<&Bytes> = None;
    let mut i: usize = 0;
    assert(row@.take(0) =~= Seq::<(Bytes, Bytes)>::empty());
    proof {
        lemma_columns_differ();
    }
    while i < row.len()
        invariant
            i <= row@.len(),
            col::WATERMARK_V2.spec_bytes() != col::VERSION.spec_bytes(),
            match last_cell(row@.take(i as int), col::WATERMARK_V2.spec_bytes()) {
                Some(b) => w2 == Some(&b),
                None => w2 is None,
            },
            match last_cell(row@.take(i as int), col::VERSION.spec_bytes()) {
                Some(b) => v == Some(&b),
                None => v is None,
            },
        decreases row@.len() - i,
    {
        assert(row@.take(i + 1).drop_last() =~= row@.take(i as int));
        let cell = &row[i];
        let column = bytes_as_slice(&cell.0);
        if same_bytes(column, col::WATERMARK_V2.as_bytes()) {
            w2 = Some(&cell.1);
        } else if same_bytes(column, col::VERSION.as_bytes()) {
            v = Some(&cell.1);
        }
        i = i + 1;
    }
    assert(row@.take(i as int) =~= row@);
    match (w2, v) {
        (Some(w2), Some(v)) => Some((w2, v)),
        _ => None,
    }
}

/// Reads the watermark and its version, with `parse` for the JSON. `None` if either column is
/// absent: a legacy row counts for nothing here.
pub fn decode_new<P, E>(row: &[(Bytes, Bytes)], parse: P) -> (r: Result<
    Option<(WatermarkV2, u64)>,
    DecodeError<E>,
>) where P: Fn(&Bytes) -> Result<WatermarkV2, E>
    requires
        last_cell(row@, col::WATERMARK_V2.spec_bytes()) matches Some(w2) ==> call_requires(
            parse,
            (&w2,),
        ),
    ensures
        match (
            last_cell(row@, col::WATERMARK_V2.spec_bytes()),
            last_cell(row@, col::VERSION.spec_bytes()),
        ) {
            (Some(w2), Some(v)) => exists|parsed: Result<WatermarkV2, E>| #[trigger]
                call_ensures(parse, (&w2,), parsed) && match joined(parsed, bytes_contents(v)) {
                    Ok(found) => r is Ok && r->Ok_0 == Some(found),
                    Err(e) => r is Err && r->Err_0 == e,
                },
            _ => r is Ok && r->Ok_0 is None,
        },
{
    match find_new(row) {
        Some((w2, v)) => match join_version(parse(w2), v) {
            Ok(found) => Ok(Some(found)),
            Err(e) => Err(e),
        },
        None => Ok(None),
    }
}

/// Reads only the legacy watermark, from the first `w` cell. `None` if there is none.
pub fn decode_legacy(row: &[(Bytes, Bytes)]) -> (r: Result<Option<Watermark>, BcsError>)
    ensures
        match first_cell(row@, col::WATERMARK.spec_bytes()) {
            Some(w) => {
                &&& r is Ok <==> bytes_contents(w).len() == 32
                &&& r matches Ok(found) ==> found matches Some(legacy) && legacy_bytes(legacy)
                    == bytes_contents(w)
            },
            None => r is Ok && r->Ok_0 is None,
        },
{
    let mut i: usize = 0;
    assert(row@.skip(0) =~= row@);
    while i < row.len()
        invariant
            i <= row@.len(),
            first_cell(row@.skip(i as int), col::WATERMARK.spec_bytes()) == first_cell(
                row@,
                col::WATERMARK.spec_bytes(),
            ),
        decreases row@.len() - i,
    {
        assert(row@.skip(i as int).drop_first() =~= row@.skip(i + 1));
        let cell = &row[i];
        if same_bytes(bytes_as_slice(&cell.0), col::WATERMARK.as_bytes()) {
            return match bcs_to_u64x4(bytes_as_slice(&cell.1)) {
                Ok((epoch, checkpoint, tx, timestamp_ms)) => Ok(
                    Some(
                        Watermark {
                            epoch_hi_inclusive: epoch,
                            checkpoint_hi_inclusive: checkpoint,
                            tx_hi: tx,
                            timestamp_ms_hi_inclusive: timestamp_ms,
                        },
                    ),
                ),
                Err(source) => Err(BcsError { source }),
            };
        }
        i = i + 1;
    }
    Ok(None)
}

/// No two columns have the same name.
pub proof fn lemma_columns_differ()
    ensures
        col::WATERMARK.spec_bytes() != col::WATERMARK_V2.spec_bytes(),
        col::WATERMARK.spec_bytes() != col::VERSION.spec_bytes(),
        col::WATERMARK_V2.spec_bytes() != col::VERSION.spec_bytes(),
{
    reveal_strlit("w");
    reveal_strlit("w2");
    reveal_strlit("v");
    vstd::string::is_ascii_spec_bytes("w");
    vstd::string::is_ascii_spec_bytes("w2");
    vstd::string::is_ascii_spec_bytes("v");
    assert("w".spec_bytes()[0] == 119);
    assert("v".spec_bytes()[0] == 118);
    assert("w2".spec_bytes()[0] == 119);
}

} // verus!
