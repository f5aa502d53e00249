use bytes::Bytes;
use std::cell::RefCell;
use std::collections::HashMap;
use std::rc::Rc;
use std::time::{SystemTime, UNIX_EPOCH};
use sui_services::kvstore::col;
use sui_services::kvstore::store::{
    BigTableConnection, BigTableStore, CommitterWatermark, Found, InitStep, InitWatermark,
    NoWatermark, PrunerWatermark, ReaderWatermark, WaitTooLong, WriteStep,
};
use sui_services::kvstore::watermarks::{
    cells_for_write, decode_legacy, decode_new, encode_for_write, encode_key, encode_legacy,
    find_new, join_version, DecodeError, EncodeError, Watermark, WatermarkV2, JSON_CONTEXT,
    LEGACY_CONTEXT, NAME,
};

const PIPELINE: &str = "test_pipeline";

const EPOCH_HI: u64 = 7;
const CHECKPOINT_HI: u64 = 200;
const TX_HI: u64 = 42;
const TIMESTAMP_MS_HI: u64 = 99;
const READER_LO: u64 = 123;
const PRUNER_HI: u64 = 77;

fn to_json(w: &WatermarkV2) -> Result<Vec<u8>, serde_json::Error> {
    let checkpoint = match w.checkpoint_hi_inclusive {
        Some(checkpoint) => serde_json::Value::from(checkpoint),
        None => serde_json::Value::Null,
    };
    let mut fields = serde_json::Map::new();
    fields.insert("epoch_hi_inclusive".to_string(), w.epoch_hi_inclusive.into());
    fields.insert("checkpoint_hi_inclusive".to_string(), checkpoint);
    fields.insert("tx_hi".to_string(), w.tx_hi.into());
    fields.insert(
        "timestamp_ms_hi_inclusive".to_string(),
        w.timestamp_ms_hi_inclusive.into(),
    );
    fields.insert("reader_lo".to_string(), w.reader_lo.into());
    fields.insert("pruner_hi".to_string(), w.pruner_hi.into());
    fields.insert("pruner_timestamp_ms".to_string(), w.pruner_timestamp_ms.into());
    serde_json::to_vec(&serde_json::Value::Object(fields))
}

fn parse(bytes: &Bytes) -> Result<WatermarkV2, String> {
    let value: serde_json::Value = serde_json::from_slice(bytes).map_err(|e| e.to_string())?;
    let field = |name: &str| {
        value
            .get(name)
            .and_then(|v| v.as_u64())
            .ok_or(format!("missing {name}"))
    };
    Ok(WatermarkV2 {
        epoch_hi_inclusive: field("epoch_hi_inclusive")?,
        checkpoint_hi_inclusive: field("checkpoint_hi_inclusive").ok(),
        tx_hi: field("tx_hi")?,
        timestamp_ms_hi_inclusive: field("timestamp_ms_hi_inclusive")?,
        reader_lo: field("reader_lo")?,
        pruner_hi: field("pruner_hi")?,
        pruner_timestamp_ms: field("pruner_timestamp_ms")?,
    })
}

/// A table in memory that keeps the last cell of each column.
#[derive(Clone)]
struct Client {
    rows: Rc<RefCell<HashMap<Vec<u8>, Vec<(Bytes, Bytes)>>>>,
}

impl Client {
    fn new() -> Self {
        Client { rows: Rc::new(RefCell::new(HashMap::new())) }
    }

    fn row(&self, pipeline: &str) -> Vec<(Bytes, Bytes)> {
        self.rows.borrow().get(&encode_key(pipeline)).cloned().unwrap_or_default()
    }

    fn write(&self, pipeline: &str, cells: Vec<(&'static str, Bytes)>) {
        let mut rows = self.rows.borrow_mut();
        let row = rows.entry(encode_key(pipeline)).or_default();
        for (column, value) in cells {
            row.retain(|(c, _)| c.as_ref() != column.as_bytes());
            row.push((Bytes::from(column), value));
        }
    }

    fn get_pipeline_watermark(&self, pipeline: &str) -> (Found, Option<Watermark>) {
        let row = self.row(pipeline);
        (decode_new(&row, parse).unwrap(), decode_legacy(&row).unwrap())
    }

    fn create_pipeline_watermark_if_absent(&self, pipeline: &str, watermark: &WatermarkV2) -> bool {
        if self.get_pipeline_watermark(pipeline).0.is_some() {
            return false;
        }
        self.write(pipeline, encode_for_write(watermark, 0, to_json).unwrap());
        true
    }

    fn cas_pipeline_watermark(&self, pipeline: &str, watermark: &WatermarkV2, expected: u64) -> bool {
        match self.get_pipeline_watermark(pipeline).0 {
            Some((_, version)) if version == expected => {
                self.write(pipeline, encode_for_write(watermark, expected + 1, to_json).unwrap());
                true
            }
            _ => false,
        }
    }

    /// The `w` and `w2` cells and the version.
    fn cells(&self, pipeline: &str) -> (Option<Bytes>, Option<Bytes>, Option<u64>) {
        let row = self.row(pipeline);
        let cell = |name: &str| {
            row.iter()
                .find(|(c, _)| c.as_ref() == name.as_bytes())
                .map(|(_, value)| value.clone())
        };
        let version = cell("v").map(|v| {
            let mut buf = [0u8; 8];
            buf.copy_from_slice(&v);
            u64::from_be_bytes(buf)
        });
        (cell("w"), cell("w2"), version)
    }
}

type Connection<'a> = BigTableConnection<'a, Client>;

fn found(conn: &mut Connection<'_>, pipeline: &str) -> Found {
    conn.client().get_pipeline_watermark(pipeline).0
}

fn init_watermark(
    conn: &mut Connection<'_>,
    pipeline: &str,
    checkpoint: Option<u64>,
) -> Option<InitWatermark> {
    let (new, legacy) = conn.client().get_pipeline_watermark(pipeline);
    match conn.init_watermark(new, legacy, checkpoint) {
        InitStep::Return(init) => Some(init),
        InitStep::CreateIfAbsent(initial) => {
            conn.client().create_pipeline_watermark_if_absent(pipeline, &initial);
            let new = found(conn, pipeline);
            conn.init_watermark_created(new)
        }
    }
}

fn perform(conn: &mut Connection<'_>, pipeline: &str, step: WriteStep) -> bool {
    match step {
        WriteStep::Refuse => false,
        WriteStep::CompareAndSet { watermark, expected_version } => {
            conn.client().cas_pipeline_watermark(pipeline, &watermark, expected_version)
        }
    }
}

fn set_committer(conn: &mut Connection<'_>, pipeline: &str, watermark: CommitterWatermark) -> bool {
    let new = found(conn, pipeline);
    let step = conn.set_committer_watermark(new, watermark).unwrap();
    perform(conn, pipeline, step)
}

fn set_reader(conn: &mut Connection<'_>, pipeline: &str, reader_lo: u64) -> bool {
    let new = found(conn, pipeline);
    let step = conn.set_reader_watermark(new, reader_lo).unwrap();
    perform(conn, pipeline, step)
}

fn set_pruner(conn: &mut Connection<'_>, pipeline: &str, pruner_hi: u64) -> bool {
    let new = found(conn, pipeline);
    let step = conn.set_pruner_watermark(new, pruner_hi).unwrap();
    perform(conn, pipeline, step)
}

fn committer(conn: &mut Connection<'_>, pipeline: &str) -> Option<CommitterWatermark> {
    let new = found(conn, pipeline);
    conn.committer_watermark(new)
}

fn now_ms() -> u128 {
    SystemTime::now().duration_since(UNIX_EPOCH).unwrap().as_millis()
}

fn pruner(conn: &mut Connection<'_>, pipeline: &str, delay_ms: u128) -> Option<PrunerWatermark> {
    let new = found(conn, pipeline);
    conn.pruner_watermark(new, delay_ms, now_ms()).unwrap()
}

fn bootstrap_with_committed_checkpoint(client: &Client, pipeline: &str, checkpoint: u64) {
    let store = BigTableStore::new(client.clone());
    let mut conn = store.connect();
    init_watermark(&mut conn, pipeline, None);
    set_committer(
        &mut conn,
        pipeline,
        CommitterWatermark {
            epoch_hi_inclusive: 0,
            checkpoint_hi_inclusive: checkpoint,
            tx_hi: 0,
            timestamp_ms_hi_inclusive: 0,
        },
    );
}

fn legacy() -> Watermark {
    Watermark {
        epoch_hi_inclusive: EPOCH_HI,
        checkpoint_hi_inclusive: CHECKPOINT_HI,
        tx_hi: TX_HI,
        timestamp_ms_hi_inclusive: TIMESTAMP_MS_HI,
    }
}

fn watermark() -> WatermarkV2 {
    WatermarkV2 {
        epoch_hi_inclusive: EPOCH_HI,
        checkpoint_hi_inclusive: Some(CHECKPOINT_HI),
        tx_hi: TX_HI,
        timestamp_ms_hi_inclusive: TIMESTAMP_MS_HI,
        reader_lo: READER_LO,
        pruner_hi: PRUNER_HI,
        pruner_timestamp_ms: 1_000,
    }
}

#[test]
fn test_init_watermark_fresh_none() {
    let client = Client::new();
    let store = BigTableStore::new(client.clone());
    let mut conn = store.connect();
    let init = init_watermark(&mut conn, PIPELINE, None).unwrap();
    assert_eq!(init.checkpoint_hi_inclusive, None);
    assert_eq!(init.reader_lo, Some(0));

    let (w, w2, v) = client.cells(PIPELINE);
    assert!(w.is_none(), "fresh init(None) must not write the `w` cell");
    assert!(w2.is_some(), "fresh init(None) must write the `w2` cell");
    assert_eq!(v, Some(0));
}

#[test]
fn test_init_watermark_fresh_some() {
    let client = Client::new();
    let store = BigTableStore::new(client.clone());
    let mut conn = store.connect();
    let init = init_watermark(&mut conn, PIPELINE, Some(CHECKPOINT_HI)).unwrap();
    assert_eq!(init.checkpoint_hi_inclusive, Some(CHECKPOINT_HI));
    assert_eq!(init.reader_lo, Some(CHECKPOINT_HI + 1));

    let (w, w2, v) = client.cells(PIPELINE);
    assert!(w.is_some(), "fresh init(Some) must write the `w` cell");
    assert!(w2.is_some());
    assert_eq!(v, Some(0));

    // Calling init again should return the existing values without rewriting.
    let init2 = init_watermark(&mut conn, PIPELINE, Some(0)).unwrap();
    assert_eq!(init2.checkpoint_hi_inclusive, Some(CHECKPOINT_HI));
    assert_eq!(init2.reader_lo, Some(CHECKPOINT_HI + 1));
    let (_, _, v2) = client.cells(PIPELINE);
    assert_eq!(v2, Some(0), "second init must not bump the version");
}

#[test]
fn test_init_watermark_legacy_bootstrap() {
    let client = Client::new();
    client.write(PIPELINE, vec![encode_legacy(&legacy()).unwrap()]);
    let (before, _, _) = client.cells(PIPELINE);

    let store = BigTableStore::new(client.clone());
    let mut conn = store.connect();
    let init = init_watermark(&mut conn, PIPELINE, Some(0)).unwrap();
    assert_eq!(init.checkpoint_hi_inclusive, Some(CHECKPOINT_HI));
    assert_eq!(init.reader_lo, Some(CHECKPOINT_HI + 1));

    let (w, w2, v) = client.cells(PIPELINE);
    assert!(w.is_some(), "legacy `w` cell must be preserved");
    assert!(w2.is_some(), "new `w2` cell must be written");
    assert_eq!(v, Some(0));
    assert_eq!(w, before);
}

#[test]
fn test_committer_watermark_roundtrip_and_regression() {
    let client = Client::new();
    let store = BigTableStore::new(client.clone());
    let mut conn = store.connect();
    init_watermark(&mut conn, PIPELINE, None);

    // First commit creates the legacy `w` cell.
    let initial = CommitterWatermark {
        epoch_hi_inclusive: EPOCH_HI / 2,
        checkpoint_hi_inclusive: CHECKPOINT_HI / 2,
        tx_hi: TX_HI / 2,
        timestamp_ms_hi_inclusive: TIMESTAMP_MS_HI / 2,
    };
    assert!(set_committer(&mut conn, PIPELINE, initial));

    let read = committer(&mut conn, PIPELINE).unwrap();
    assert_eq!(read.checkpoint_hi_inclusive, CHECKPOINT_HI / 2);
    assert_eq!(read, initial);
    let (w, w2, v) = client.cells(PIPELINE);
    assert!(w.is_some(), "set_committer_watermark must write `w`");
    assert!(w2.is_some());
    assert_eq!(v, Some(1));

    // Advance.
    let updated = CommitterWatermark {
        epoch_hi_inclusive: EPOCH_HI,
        checkpoint_hi_inclusive: CHECKPOINT_HI,
        tx_hi: TX_HI,
        timestamp_ms_hi_inclusive: TIMESTAMP_MS_HI,
    };
    assert!(set_committer(&mut conn, PIPELINE, updated));
    let read = committer(&mut conn, PIPELINE).unwrap();
    assert_eq!(read.checkpoint_hi_inclusive, CHECKPOINT_HI);

    // Regression must be rejected.
    let regressed = CommitterWatermark {
        epoch_hi_inclusive: EPOCH_HI,
        checkpoint_hi_inclusive: CHECKPOINT_HI / 2 + 1,
        tx_hi: TX_HI,
        timestamp_ms_hi_inclusive: TIMESTAMP_MS_HI,
    };
    assert!(!set_committer(&mut conn, PIPELINE, regressed));
    let read = committer(&mut conn, PIPELINE).unwrap();
    assert_eq!(read.checkpoint_hi_inclusive, CHECKPOINT_HI);
    assert_eq!(client.get_pipeline_watermark(PIPELINE).1, Some(legacy()));
}

#[test]
fn test_set_reader_watermark_after_init_none_skips_legacy() {
    let client = Client::new();
    let store = BigTableStore::new(client.clone());
    let mut conn = store.connect();
    init_watermark(&mut conn, PIPELINE, None);

    assert!(set_reader(&mut conn, PIPELINE, READER_LO));

    let (w, w2, v) = client.cells(PIPELINE);
    assert!(
        w.is_none(),
        "set_reader_watermark must not introduce `w` when checkpoint is still None"
    );
    assert!(w2.is_some());
    assert_eq!(v, Some(1));
}

#[test]
fn test_reader_watermark_roundtrip_with_committed_checkpoint() {
    let client = Client::new();
    bootstrap_with_committed_checkpoint(&client, PIPELINE, CHECKPOINT_HI);
    let store = BigTableStore::new(client.clone());
    let mut conn = store.connect();

    let new = found(&mut conn, PIPELINE);
    let reader = conn.reader_watermark(new).unwrap();
    assert_eq!(reader.checkpoint_hi_inclusive, CHECKPOINT_HI);
    assert_eq!(reader.reader_lo, 0);

    assert!(set_reader(&mut conn, PIPELINE, READER_LO));
    // The legacy `w` cell must still be present after a reader-only update.
    let (w, _, _) = client.cells(PIPELINE);
    assert!(w.is_some(), "legacy `w` cell must survive reader updates");
}

#[test]
fn test_pruner_watermark_saturates_when_ready() {
    let client = Client::new();
    bootstrap_with_committed_checkpoint(&client, PIPELINE, CHECKPOINT_HI);
    let store = BigTableStore::new(client.clone());
    let mut conn = store.connect();

    let pruner = pruner(&mut conn, PIPELINE, 0).unwrap();
    assert_eq!(pruner.wait_for_ms, 0);
}

#[test]
fn test_set_pruner_watermark_roundtrip() {
    let client = Client::new();
    bootstrap_with_committed_checkpoint(&client, PIPELINE, CHECKPOINT_HI);
    let store = BigTableStore::new(client.clone());
    let mut conn = store.connect();

    assert!(set_pruner(&mut conn, PIPELINE, PRUNER_HI));
    let pruner = pruner(&mut conn, PIPELINE, 0).unwrap();
    assert_eq!(pruner.pruner_hi, PRUNER_HI);
}

#[test]
fn test_cas_contention() {
    let client = Client::new();
    let store = BigTableStore::new(client.clone());
    {
        let mut conn = store.connect();
        init_watermark(&mut conn, PIPELINE, Some(0));
    }

    let mut conn_a = store.connect();
    let mut conn_b = store.connect();

    let advance = CommitterWatermark {
        epoch_hi_inclusive: 1,
        checkpoint_hi_inclusive: 5,
        tx_hi: 1,
        timestamp_ms_hi_inclusive: 1,
    };
    let a = set_committer(&mut conn_a, PIPELINE, advance);
    let b = set_committer(&mut conn_b, PIPELINE, advance);
    assert!(a, "first writer must succeed");
    assert!(!b, "second writer must lose the CAS race");
}

#[test]
fn test_get_watermark_for_pipelines_hides_init_none() {
    let client = Client::new();
    let store = BigTableStore::new(client.clone());
    let mut conn = store.connect();
    init_watermark(&mut conn, PIPELINE, None);
    let new = found(&mut conn, PIPELINE);
    let wm = conn.get_watermark_for_read(new);
    assert!(
        wm.is_none(),
        "init(None) row must be hidden by the read API"
    );
}

#[test]
fn test_get_watermark_for_pipelines_hides_below_reader_lo() {
    let client = Client::new();
    bootstrap_with_committed_checkpoint(&client, PIPELINE, CHECKPOINT_HI);
    let store = BigTableStore::new(client.clone());
    let mut conn = store.connect();

    let new = found(&mut conn, PIPELINE);
    let visible = conn.get_watermark_for_read(new);
    assert!(
        visible.is_some(),
        "row with checkpoint >= reader_lo must be visible"
    );

    set_reader(&mut conn, PIPELINE, CHECKPOINT_HI + 1);
    let new = found(&mut conn, PIPELINE);
    let hidden = conn.get_watermark_for_read(new);
    assert!(
        hidden.is_none(),
        "row with checkpoint < reader_lo must be hidden"
    );
}

#[test]
fn test_get_watermark_for_pipelines_ignores_legacy_only() {
    let client = Client::new();
    client.write(PIPELINE, vec![encode_legacy(&legacy()).unwrap()]);
    let store = BigTableStore::new(client.clone());
    let mut conn = store.connect();
    let new = found(&mut conn, PIPELINE);
    let wm = conn.get_watermark_for_read(new);
    assert!(
        wm.is_none(),
        "legacy-only rows must be hidden by the new read path"
    );
}

#[test]
fn updates_by_one_version_exclude_each_other() {
    let client = Client::new();
    bootstrap_with_committed_checkpoint(&client, PIPELINE, 10);
    let store = BigTableStore::new(client.clone());
    let mut conn = store.connect();
    let read = found(&mut conn, PIPELINE);
    let by_reader = conn.set_reader_watermark(read, 3).unwrap();
    let by_pruner = conn.set_pruner_watermark(read, 2).unwrap();
    assert!(perform(&mut conn, PIPELINE, by_reader));
    assert!(!perform(&mut conn, PIPELINE, by_pruner));
    let (watermark, version) = found(&mut conn, PIPELINE).unwrap();
    assert_eq!((watermark.reader_lo, watermark.pruner_hi, version), (3, 0, 2));
    // Decided on anew, the update goes through and keeps the other one.
    assert!(set_pruner(&mut conn, PIPELINE, 2));
    let (watermark, version) = found(&mut conn, PIPELINE).unwrap();
    assert_eq!((watermark.reader_lo, watermark.pruner_hi, version), (3, 2, 3));
}

#[test]
fn initialization_yields_to_another_writer() {
    let client = Client::new();
    let store = BigTableStore::new(client.clone());
    let mut conn = store.connect();
    let step = conn.init_watermark(None, None, Some(4));
    // Somebody else creates the row in between.
    init_watermark(&mut store.connect(), PIPELINE, Some(8));
    match step {
        InitStep::CreateIfAbsent(initial) => {
            assert!(!conn.client().create_pipeline_watermark_if_absent(PIPELINE, &initial))
        }
        InitStep::Return(_) => panic!("there was no row"),
    }
    let new = found(&mut conn, PIPELINE);
    assert_eq!(
        conn.init_watermark_created(new),
        Some(InitWatermark { checkpoint_hi_inclusive: Some(8), reader_lo: Some(9) })
    );
    assert_eq!(conn.init_watermark_created(None), None);
}

#[test]
fn initial_watermarks_have_every_field() {
    let store = BigTableStore::new(());
    let conn = store.connect();
    assert_eq!(
        conn.init_watermark(None, Some(legacy()), Some(1)),
        InitStep::CreateIfAbsent(WatermarkV2 {
            epoch_hi_inclusive: EPOCH_HI,
            checkpoint_hi_inclusive: Some(CHECKPOINT_HI),
            tx_hi: TX_HI,
            timestamp_ms_hi_inclusive: TIMESTAMP_MS_HI,
            reader_lo: CHECKPOINT_HI + 1,
            pruner_hi: CHECKPOINT_HI + 1,
            pruner_timestamp_ms: 0,
        })
    );
    assert_eq!(
        conn.init_watermark(None, None, Some(4)),
        InitStep::CreateIfAbsent(WatermarkV2 {
            epoch_hi_inclusive: 0,
            checkpoint_hi_inclusive: Some(4),
            tx_hi: 0,
            timestamp_ms_hi_inclusive: 0,
            reader_lo: 5,
            pruner_hi: 5,
            pruner_timestamp_ms: 0,
        })
    );
    assert_eq!(
        conn.init_watermark(Some((watermark(), 6)), Some(legacy()), None),
        InitStep::Return(InitWatermark {
            checkpoint_hi_inclusive: Some(CHECKPOINT_HI),
            reader_lo: Some(READER_LO),
        })
    );
}

#[test]
fn updates_need_a_watermark() {
    let store = BigTableStore::new(());
    let conn = store.connect();
    let by = CommitterWatermark {
        epoch_hi_inclusive: 1,
        checkpoint_hi_inclusive: 2,
        tx_hi: 3,
        timestamp_ms_hi_inclusive: 4,
    };
    assert_eq!(conn.get_watermark_for_write(None), Err(NoWatermark));
    assert_eq!(conn.set_committer_watermark(None, by), Err(NoWatermark));
    assert_eq!(conn.set_reader_watermark(None, 1), Err(NoWatermark));
    assert_eq!(conn.set_pruner_watermark(None, 1), Err(NoWatermark));
    assert_eq!(
        NoWatermark.message(PIPELINE),
        "no watermark for pipeline test_pipeline"
    );
    assert_eq!(
        conn.get_watermark_for_write(Some((watermark(), 3))),
        Ok((watermark(), 3))
    );
}

#[test]
fn committer_update_keeps_readers_and_pruner() {
    let store = BigTableStore::new(());
    let conn = store.connect();
    let by = CommitterWatermark {
        epoch_hi_inclusive: 8,
        checkpoint_hi_inclusive: CHECKPOINT_HI + 1,
        tx_hi: 50,
        timestamp_ms_hi_inclusive: 100,
    };
    assert_eq!(
        conn.set_committer_watermark(Some((watermark(), 5)), by),
        Ok(WriteStep::CompareAndSet {
            watermark: WatermarkV2 {
                epoch_hi_inclusive: 8,
                checkpoint_hi_inclusive: Some(CHECKPOINT_HI + 1),
                tx_hi: 50,
                timestamp_ms_hi_inclusive: 100,
                ..watermark()
            },
            expected_version: 5,
        })
    );
    let same = CommitterWatermark { checkpoint_hi_inclusive: CHECKPOINT_HI, ..by };
    assert_eq!(
        conn.set_committer_watermark(Some((watermark(), 5)), same),
        Ok(WriteStep::Refuse)
    );
    // Without a checkpoint, any will do.
    let fresh = WatermarkV2 { checkpoint_hi_inclusive: None, ..watermark() };
    let zero = CommitterWatermark { checkpoint_hi_inclusive: 0, ..by };
    assert!(matches!(
        conn.set_committer_watermark(Some((fresh, 0)), zero),
        Ok(WriteStep::CompareAndSet { .. })
    ));
}

#[test]
fn row_at_reader_lo_is_visible() {
    let store = BigTableStore::new(());
    let conn = store.connect();
    let at = WatermarkV2 { reader_lo: CHECKPOINT_HI, ..watermark() };
    let above = WatermarkV2 { reader_lo: CHECKPOINT_HI + 1, ..watermark() };
    assert_eq!(
        conn.reader_watermark(Some((at, 0))),
        Some(ReaderWatermark { checkpoint_hi_inclusive: CHECKPOINT_HI, reader_lo: CHECKPOINT_HI })
    );
    assert_eq!(conn.reader_watermark(Some((above, 0))), None);
    assert_eq!(conn.committer_watermark(Some((above, 0))), None);
    assert_eq!(conn.pruner_watermark(Some((above, 0)), u64::MAX as u128, 0), Ok(None));
    assert_eq!(conn.get_watermark_for_read(None), None);
}

#[test]
fn pruner_waits_for_what_is_left() {
    let store = BigTableStore::new(());
    let conn = store.connect();
    let row = Some((watermark(), 0));
    let wait = |delay_ms: u128, now_ms: u128| {
        conn.pruner_watermark(row, delay_ms, now_ms)
            .map(|p| p.map(|p| (p.wait_for_ms, p.reader_lo, p.pruner_hi)))
    };
    assert_eq!(wait(500, 1_200), Ok(Some((300, READER_LO, PRUNER_HI))));
    assert_eq!(wait(500, 1_500), Ok(Some((0, READER_LO, PRUNER_HI))));
    assert_eq!(wait(500, 9_999), Ok(Some((0, READER_LO, PRUNER_HI))));
    let most = i64::MAX as u128;
    assert_eq!(wait(most, 1_000), Ok(Some((i64::MAX, READER_LO, PRUNER_HI))));
    assert_eq!(wait(most + 1, 1_000), Err(WaitTooLong));
}

#[test]
fn any_chain_is_accepted() {
    let store = BigTableStore::new(());
    assert!(store.connect().accepts_chain_id([7; 32]));
}

#[test]
fn client_of_a_connection_can_be_changed() {
    let store = BigTableStore::new(vec![1u64]);
    let mut conn = store.connect();
    conn.client().push(2);
    assert_eq!(*conn.client(), vec![1, 2]);
    assert_eq!(*store.connect().client(), vec![1]);
}

#[test]
fn keys_and_names() {
    assert_eq!(encode_key("ab\u{e9}"), vec![0x61, 0x62, 0xc3, 0xa9]);
    assert_eq!(encode_key(""), Vec::<u8>::new());
    assert_eq!(NAME, "watermark_alt");
    assert_eq!((col::WATERMARK, col::WATERMARK_V2, col::VERSION), ("w", "w2", "v"));
}

#[test]
fn legacy_cell_is_little_endian_fields_in_order() {
    let (column, cell) = encode_legacy(&Watermark {
        epoch_hi_inclusive: 1,
        checkpoint_hi_inclusive: 0x0102,
        tx_hi: u64::MAX,
        timestamp_ms_hi_inclusive: 4,
    })
    .unwrap();
    assert_eq!(column, "w");
    let mut expected = vec![0u8; 32];
    expected[0] = 1;
    expected[8] = 2;
    expected[9] = 1;
    for byte in &mut expected[16..24] {
        *byte = 0xff;
    }
    expected[24] = 4;
    assert_eq!(cell.as_ref(), expected.as_slice());
}

#[test]
fn cells_for_a_watermark() {
    let cells = cells_for_write(&watermark(), vec![1, 2, 3], 0x0102).unwrap();
    assert_eq!(cells.len(), 3);
    assert_eq!(cells[0], ("w2", Bytes::from(vec![1u8, 2, 3])));
    assert_eq!(cells[1], ("v", Bytes::from(vec![0u8, 0, 0, 0, 0, 0, 1, 2])));
    assert_eq!(cells[2], encode_legacy(&legacy()).unwrap());
    let fresh = WatermarkV2 { checkpoint_hi_inclusive: None, ..watermark() };
    assert_eq!(cells_for_write(&fresh, vec![], 0).unwrap().len(), 2);
}

#[test]
fn json_that_cannot_be_written() {
    let failing = |_: &WatermarkV2| -> Result<Vec<u8>, &'static str> { Err("no") };
    assert!(matches!(
        encode_for_write(&watermark(), 0, failing),
        Err(EncodeError::Json("no"))
    ));
}

fn cell(column: &str, value: &[u8]) -> (Bytes, Bytes) {
    (Bytes::copy_from_slice(column.as_bytes()), Bytes::copy_from_slice(value))
}

#[test]
fn a_write_is_read_back() {
    for w in [watermark(), WatermarkV2 { checkpoint_hi_inclusive: None, ..watermark() }] {
        let row: Vec<(Bytes, Bytes)> = encode_for_write(&w, u64::MAX, to_json)
            .unwrap()
            .into_iter()
            .map(|(column, value)| (Bytes::from(column), value))
            .collect();
        assert_eq!(decode_new(&row, parse).unwrap(), Some((w, u64::MAX)));
        assert_eq!(
            decode_legacy(&row).unwrap(),
            w.checkpoint_hi_inclusive.map(|_| legacy())
        );
    }
}

#[test]
fn both_columns_are_needed() {
    let json = to_json(&watermark()).unwrap();
    let version = 3u64.to_be_bytes();
    assert_eq!(decode_new(&[cell("w2", &json)], parse).unwrap(), None);
    assert_eq!(decode_new(&[cell("v", &version)], parse).unwrap(), None);
    assert_eq!(decode_new(&[], parse).unwrap(), None);
    assert_eq!(
        decode_new(&[cell("v", &version), cell("x", b""), cell("w2", &json)], parse).unwrap(),
        Some((watermark(), 3))
    );
}

#[test]
fn last_cell_of_the_new_format_counts_and_first_of_the_legacy() {
    let row = vec![
        cell("w2", b"a"),
        cell("v", &[1]),
        cell("w2", b"b"),
        cell("v", &[2]),
    ];
    let (w2, v) = find_new(&row).unwrap();
    assert_eq!((w2.as_ref(), v.as_ref()), (b"b".as_slice(), [2u8].as_slice()));

    let first = encode_legacy(&legacy()).unwrap().1;
    let second = encode_legacy(&Watermark { tx_hi: 0, ..legacy() }).unwrap().1;
    let row = vec![cell("w", &first), cell("w", &second)];
    assert_eq!(decode_legacy(&row).unwrap(), Some(legacy()));
}

#[test]
fn broken_cells_are_reported() {
    let json = to_json(&watermark()).unwrap();
    let row = vec![cell("w2", &json), cell("v", &[0; 7])];
    let e = decode_new(&row, parse).unwrap_err();
    assert!(matches!(e, DecodeError::VersionLength(7)));
    assert_eq!(e.message(), "`v` column has unexpected length 7 (expected 8)");

    // The JSON is looked at first.
    let row = vec![cell("w2", b"{"), cell("v", &[0; 7])];
    let e = decode_new(&row, parse).unwrap_err();
    assert!(matches!(e, DecodeError::Json(_)));
    assert_eq!(
        e.message(),
        "failed to deserialize JSON watermark from `w2` column"
    );
    assert_eq!(e.message(), JSON_CONTEXT);

    assert!(decode_legacy(&[cell("w", &[0; 31])]).is_err());
    assert!(decode_legacy(&[cell("w", &[0; 33])]).is_err());
    assert_eq!(decode_legacy(&[cell("w2", &[0; 31])]).unwrap(), None);
    assert_eq!(
        LEGACY_CONTEXT,
        "failed to deserialize BCS legacy watermark from `w` column"
    );
}

#[test]
fn version_is_big_endian() {
    let v = Bytes::from(vec![0u8, 0, 0, 0, 0, 0, 1, 2]);
    assert_eq!(
        join_version(Ok::<WatermarkV2, ()>(watermark()), &v).unwrap(),
        (watermark(), 258)
    );
}

#[test]
fn legacy_watermarks_differ_in_their_bytes() {
    let a = encode_legacy(&legacy()).unwrap().1;
    let b = encode_legacy(&Watermark { tx_hi: TIMESTAMP_MS_HI, timestamp_ms_hi_inclusive: TX_HI, ..legacy() })
        .unwrap()
        .1;
    assert_ne!(a, b);
    assert_eq!(a.len(), 32);
}

#[test]
fn other_columns_do_not_matter() {
    let json = to_json(&watermark()).unwrap();
    let row = vec![
        cell("x", b"1"),
        cell("v", &9u64.to_be_bytes()),
        cell("x", b"2"),
        cell("w", b"broken"),
        cell("w", b"again"),
        cell("w2", &json),
    ];
    assert_eq!(decode_new(&row, parse).unwrap(), Some((watermark(), 9)));
}
