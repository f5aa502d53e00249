//! What holds of watermarks and of the rows that record them.
use crate::big_endian::{
    be_bytes, be_value, lemma_be_bytes_len, lemma_pow256_values, lemma_value_of_bytes,
};
use crate::kvstore::cells::{bcs_u64, bytes_contents};
use crate::kvstore::col;
use crate::kvstore::protocol::{written, TableRow};
use crate::kvstore::watermarks::{
    first_cell, joined, last_cell, legacy_bytes, legacy_of, lemma_columns_differ, written_cells,
    DecodeError, Watermark, WatermarkV2,
};
use bytes::Bytes;
use vstd::prelude::*;
use vstd::string::StringSliceAdditionalSpecFns;
use vstd::utf8::encode_utf8;

verus! {

/// A legacy watermark can be told from its bytes: reading gives back what was written.
pub proof fn lemma_legacy_bytes_injective(a: Watermark, b: Watermark)
    requires
        legacy_bytes(a) == legacy_bytes(b),
    ensures
        a == b,
{
    lemma_fields(a);
    lemma_fields(b);
}

/// A legacy watermark takes 32 bytes, so that it is always readable.
pub proof fn lemma_legacy_bytes_len(legacy: Watermark)
    ensures
        legacy_bytes(legacy).len() == 32,
{
    lemma_fields(legacy);
}

proof fn lemma_bcs_u64(x: u64)
    ensures
        bcs_u64(x).len() == 8,
        be_value(bcs_u64(x).reverse()) == x,
{
    lemma_pow256_values();
    lemma_be_bytes_len(x as nat, 8);
    lemma_value_of_bytes(x as nat, 8);
    assert(bcs_u64(x).reverse() =~= be_bytes(x as nat, 8));
}

/// The fields stand one after the other, each in eight bytes with the least significant first.
pub proof fn lemma_fields(w: Watermark)
    ensures
        legacy_bytes(w).len() == 32,
        be_value(legacy_bytes(w).subrange(0, 8).reverse()) == w.epoch_hi_inclusive,
        be_value(legacy_bytes(w).subrange(8, 16).reverse()) == w.checkpoint_hi_inclusive,
        be_value(legacy_bytes(w).subrange(16, 24).reverse()) == w.tx_hi,
        be_value(legacy_bytes(w).subrange(24, 32).reverse()) == w.timestamp_ms_hi_inclusive,
{
    lemma_bcs_u64(w.epoch_hi_inclusive);
    lemma_bcs_u64(w.checkpoint_hi_inclusive);
    lemma_bcs_u64(w.tx_hi);
    lemma_bcs_u64(w.timestamp_ms_hi_inclusive);
    let s = legacy_bytes(w);
    assert(s.subrange(0, 8) =~= bcs_u64(w.epoch_hi_inclusive));
    assert(s.subrange(8, 16) =~= bcs_u64(w.checkpoint_hi_inclusive));
    assert(s.subrange(16, 24) =~= bcs_u64(w.tx_hi));
    assert(s.subrange(24, 32) =~= bcs_u64(w.timestamp_ms_hi_inclusive));
}

/// What the cells of a column hold, in the order of the row.
pub open spec fn column_contents(row: Seq<(Bytes, Bytes)>, column: Seq<u8>) -> Seq<Seq<u8>> {
    row.filter(|cell: (Bytes, Bytes)| bytes_contents(cell.0) == column).map_values(
        |cell: (Bytes, Bytes)| bytes_contents(cell.1),
    )
}

/// The row has exactly one cell in this column, and it holds this.
pub open spec fn only_cell(row: Seq<(Bytes, Bytes)>, column: Seq<u8>, contents: Seq<u8>) -> bool {
    column_contents(row, column) == seq![contents]
}

/// Reading gives back what was written: a row with one `w2` cell and one `v` cell of a write gives
/// the JSON and the version of that write, whatever its other columns hold. Where it also has the
/// `w` cell of the write, and no other, it gives the legacy watermark that goes with it.
pub proof fn lemma_write_is_read_back<E>(
    row: Seq<(Bytes, Bytes)>,
    watermark: WatermarkV2,
    json: Seq<u8>,
    version: u64,
    parsed: Result<WatermarkV2, E>,
)
    requires
        only_cell(row, col::WATERMARK_V2.spec_bytes(), json),
        only_cell(row, col::VERSION.spec_bytes(), be_bytes(version as nat, 8)),
    ensures
        last_cell(row, col::WATERMARK_V2.spec_bytes()) matches Some(w2) && bytes_contents(w2)
            == json,
        last_cell(row, col::VERSION.spec_bytes()) matches Some(v) && joined(
            parsed,
            bytes_contents(v),
        ) == match parsed {
            Ok(read) => Ok::<(WatermarkV2, u64), DecodeError<E>>((read, version)),
            Err(e) => Err(DecodeError::Json(e)),
        },
        legacy_of(watermark) matches Some(legacy) ==> (only_cell(
            row,
            col::WATERMARK.spec_bytes(),
            legacy_bytes(legacy),
        ) ==> (first_cell(row, col::WATERMARK.spec_bytes()) matches Some(w) && bytes_contents(w)
            == legacy_bytes(legacy))),
{
    lemma_last_of_column(row, col::WATERMARK_V2.spec_bytes());
    lemma_last_of_column(row, col::VERSION.spec_bytes());
    lemma_first_of_column(row, col::WATERMARK.spec_bytes());
    lemma_pow256_values();
    lemma_be_bytes_len(version as nat, 8);
    lemma_value_of_bytes(version as nat, 8);
}

/// The last cell of a column is the last of its contents.
pub proof fn lemma_last_of_column(row: Seq<(Bytes, Bytes)>, column: Seq<u8>)
    ensures
        match last_cell(row, column) {
            Some(b) => column_contents(row, column).len() > 0 && column_contents(row, column).last()
                == bytes_contents(b),
            None => column_contents(row, column).len() == 0,
        },
    decreases row.len(),
{
    reveal(Seq::filter);
    if row.len() > 0 {
        lemma_last_of_column(row.drop_last(), column);
    }
}

/// The first cell of a column is the first of its contents.
pub proof fn lemma_first_of_column(row: Seq<(Bytes, Bytes)>, column: Seq<u8>)
    ensures
        match first_cell(row, column) {
            Some(b) => column_contents(row, column).len() > 0 && column_contents(row, column)[0]
                == bytes_contents(b),
            None => column_contents(row, column).len() == 0,
        },
    decreases row.len(),
{
    reveal_with_fuel(Seq::filter, 2);
    if row.len() > 0 {
        let head = seq![row[0]];
        let rest = row.drop_first();
        let p = |cell: (Bytes, Bytes)| bytes_contents(cell.0) == column;
        lemma_first_of_column(rest, column);
        assert(row =~= head + rest);
        Seq::filter_distributes_over_add(head, rest, p);
        assert(head.drop_last() =~= Seq::<(Bytes, Bytes)>::empty());
        assert(head.filter(p) =~= if p(row[0]) {
            head
        } else {
            Seq::empty()
        });
    }
}

/// The cells of a row say what `t` says, where `read` tells which watermark the JSON of a `w2`
/// cell stands for.
pub open spec fn shows(
    row: Seq<(Bytes, Bytes)>,
    read: spec_fn(Seq<u8>) -> Option<WatermarkV2>,
    t: TableRow,
) -> bool {
    &&& match (
        last_cell(row, col::WATERMARK_V2.spec_bytes()),
        last_cell(row, col::VERSION.spec_bytes()),
    ) {
        (Some(w2), Some(v)) => t.new matches Some((watermark, version)) && read(bytes_contents(w2))
            == Some(watermark) && bytes_contents(v) == be_bytes(version as nat, 8),
        _ => t.new is None,
    }
    &&& match first_cell(row, col::WATERMARK.spec_bytes()) {
        Some(w) => t.legacy matches Some(legacy) && bytes_contents(w) == legacy_bytes(legacy),
        None => t.legacy is None,
    }
}

/// `after` is `before` with these cells written over it: it has them alone in their columns, and
/// in all other columns what was there.
pub open spec fn overwritten(
    before: Seq<(Bytes, Bytes)>,
    cells: Seq<(Seq<char>, Seq<u8>)>,
    after: Seq<(Bytes, Bytes)>,
) -> bool {
    &&& forall|k: int|
        #![trigger cells[k]]
        0 <= k < cells.len() ==> only_cell(after, encode_utf8(cells[k].0), cells[k].1)
    &&& forall|column: Seq<u8>|
        (forall|k: int| 0 <= k < cells.len() ==> encode_utf8((#[trigger] cells[k]).0) != column)
            ==> #[trigger] column_contents(after, column) == column_contents(before, column)
}

/// Writing the cells of a watermark over a row does to the row what `written` says, be it new, in
/// the legacy format or in the current one, and however often its columns occur.
pub proof fn lemma_cells_are_written(
    before: Seq<(Bytes, Bytes)>,
    after: Seq<(Bytes, Bytes)>,
    read: spec_fn(Seq<u8>) -> Option<WatermarkV2>,
    t: TableRow,
    watermark: WatermarkV2,
    json: Seq<u8>,
    version: u64,
)
    requires
        shows(before, read, t),
        read(json) == Some(watermark),
        overwritten(before, written_cells(watermark, json, version), after),
    ensures
        shows(after, read, written(t, watermark, version)),
{
    let cells = written_cells(watermark, json, version);
    let w = col::WATERMARK.spec_bytes();
    assert(cells[0] == (col::WATERMARK_V2@, json));
    assert(cells[1] == (col::VERSION@, be_bytes(version as nat, 8)));
    lemma_last_of_column(after, col::WATERMARK_V2.spec_bytes());
    lemma_last_of_column(after, col::VERSION.spec_bytes());
    lemma_first_of_column(before, w);
    lemma_first_of_column(after, w);
    match legacy_of(watermark) {
        Some(legacy) => {
            assert(cells[2] == (col::WATERMARK@, legacy_bytes(legacy)));
        },
        None => {
            lemma_columns_differ();
            assert(column_contents(after, w) == column_contents(before, w));
        },
    }
}

/// A column without cells is read as none. So a row that lacks `w2` or `v` is none for those who
/// read the new format, whatever its legacy cell says.
pub proof fn lemma_absent_column(row: Seq<(Bytes, Bytes)>, column: Seq<u8>)
    ensures
        last_cell(row, column) is None <==> column_contents(row, column).len() == 0,
        first_cell(row, column) is None <==> column_contents(row, column).len() == 0,
{
    lemma_last_of_column(row, column);
    lemma_first_of_column(row, column);
}

} // verus!
