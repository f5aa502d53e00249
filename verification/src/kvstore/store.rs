//! A store of watermarks over a table client.
//!
//! The client reads and writes rows; what to write, and what a row means, is decided here.
use crate::kvstore::watermarks::{Watermark, WatermarkV2};
use std::marker::PhantomData;
use vstd::prelude::*;
use vstd::string::StringExecFns;

verus! {

/// How far the committer of a pipeline has come.
#[derive(Clone, Copy, Debug, PartialEq, Eq, Structural)]
pub struct CommitterWatermark {
    pub epoch_hi_inclusive: u64,
    pub checkpoint_hi_inclusive: u64,
    pub tx_hi: u64,
    pub timestamp_ms_hi_inclusive: u64,
}

/// Where a pipeline starts from.
#[derive(Clone, Copy, Debug, PartialEq, Eq, Structural)]
pub struct InitWatermark {
    pub checkpoint_hi_inclusive: Option<u64>,
    pub reader_lo: Option<u64>,
}

/// The checkpoints that readers may ask for.
#[derive(Clone, Copy, Debug, PartialEq, Eq, Structural)]
pub struct ReaderWatermark {
    pub checkpoint_hi_inclusive: u64,
    pub reader_lo: u64,
}

/// The checkpoints that may be pruned, and how long to wait before.
#[derive(Clone, Copy, Debug, PartialEq, Eq, Structural)]
pub struct PrunerWatermark {
    pub wait_for_ms: i64,
    pub reader_lo: u64,
    pub pruner_hi: u64,
}

/// What a row holds: the watermark with its version, if it is in the new format.
pub type Found = Option<(WatermarkV2, u64)>;

/// There is no watermark to update.
#[derive(Clone, Copy, Debug, PartialEq, Eq, Structural)]
pub struct NoWatermark;

/// The pruner would have to wait for longer than can be said.
#[derive(Clone, Copy, Debug, PartialEq, Eq, Structural)]
pub struct WaitTooLong;

impl NoWatermark {
    /// What to report for a pipeline.
    pub fn message(&self, pipeline: &str) -> (r: String)
        ensures
            r@ == "no watermark for pipeline "@ + pipeline@,
    {
        let mut r = "no watermark for pipeline ".to_string();
        r.append(pipeline);
        r
    }
}

/// How an initialization goes on once the row was read.
#[derive(Clone, Copy, Debug, PartialEq, Eq, Structural)]
pub enum InitStep {
    /// The row is in the new format: this is the answer, and nothing is written.
    Return(InitWatermark),
    /// Create the row with this watermark unless somebody else does first, then read again.
    CreateIfAbsent(WatermarkV2),
}

/// How an update goes on once the row was read.
#[derive(Clone, Copy, Debug, PartialEq, Eq, Structural)]
pub enum WriteStep {
    /// The update would set the pipeline back: nothing is written, and the answer is `false`.
    Refuse,
    /// Write the watermark if the version is still the one that was read; whether it was is the
    /// answer.
    CompareAndSet { watermark: WatermarkV2, expected_version: u64 },
}

/// A watermark that readers can see, with its checkpoint: there is one, and it is not below what
/// readers may ask for.
pub open spec fn visible(found: Found) -> Option<(WatermarkV2, u64)> {
    match found {
        Some((watermark, _)) => match watermark.checkpoint_hi_inclusive {
            Some(checkpoint) => if checkpoint >= watermark.reader_lo {
                Some((watermark, checkpoint))
            } else {
                None
            },
            None => None,
        },
        None => None,
    }
}

/// What the committer of a pipeline has recorded, if readers can see it.
pub open spec fn committer_view(found: Found) -> Option<CommitterWatermark> {
    match visible(found) {
        Some((watermark, checkpoint_hi_inclusive)) => Some(
            CommitterWatermark {
                epoch_hi_inclusive: watermark.epoch_hi_inclusive,
                checkpoint_hi_inclusive,
                tx_hi: watermark.tx_hi,
                timestamp_ms_hi_inclusive: watermark.timestamp_ms_hi_inclusive,
            },
        ),
        None => None,
    }
}

/// What readers may rely on, if they can see anything.
pub open spec fn reader_view(found: Found) -> Option<ReaderWatermark> {
    match visible(found) {
        Some((watermark, checkpoint_hi_inclusive)) => Some(
            ReaderWatermark { checkpoint_hi_inclusive, reader_lo: watermark.reader_lo },
        ),
        None => None,
    }
}

/// The milliseconds left from `now_ms` until `delay_ms` after the pruner last ran; none if that
/// has passed.
pub open spec fn wait_ms(watermark: WatermarkV2, delay_ms: u128, now_ms: u128) -> int {
    let ready_ms = watermark.pruner_timestamp_ms + delay_ms;
    if ready_ms > now_ms {
        ready_ms - now_ms
    } else {
        0
    }
}

/// The answer to an initialization.
pub open spec fn init_view(watermark: WatermarkV2) -> InitWatermark {
    InitWatermark {
        checkpoint_hi_inclusive: watermark.checkpoint_hi_inclusive,
        reader_lo: Some(watermark.reader_lo),
    }
}

/// A watermark with nothing but what the committer knows: readers and pruner start right after
/// the checkpoint.
pub open spec fn initial(
    epoch_hi_inclusive: u64,
    checkpoint_hi_inclusive: Option<u64>,
    tx_hi: u64,
    timestamp_ms_hi_inclusive: u64,
) -> WatermarkV2 {
    let reader_lo = match checkpoint_hi_inclusive {
        Some(checkpoint) => (checkpoint + 1) as u64,
        None => 0,
    };
    WatermarkV2 {
        epoch_hi_inclusive,
        checkpoint_hi_inclusive,
        tx_hi,
        timestamp_ms_hi_inclusive,
        reader_lo,
        pruner_hi: reader_lo,
        pruner_timestamp_ms: 0,
    }
}

/// What an initialization does with a row: nothing if it is in the new format, else it starts
/// from the legacy watermark, else from what the framework says.
pub open spec fn init_step(
    found: Found,
    legacy: Option<Watermark>,
    checkpoint_hi_inclusive: Option<u64>,
) -> InitStep {
    match found {
        Some((watermark, _)) => InitStep::Return(init_view(watermark)),
        None => InitStep::CreateIfAbsent(
            match legacy {
                Some(legacy) => initial(
                    legacy.epoch_hi_inclusive,
                    Some(legacy.checkpoint_hi_inclusive),
                    legacy.tx_hi,
                    legacy.timestamp_ms_hi_inclusive,
                ),
                None => initial(0, checkpoint_hi_inclusive, 0, 0),
            },
        ),
    }
}

/// `current` with the fields of the committer replaced.
pub open spec fn committed(current: WatermarkV2, by: CommitterWatermark) -> WatermarkV2 {
    WatermarkV2 {
        epoch_hi_inclusive: by.epoch_hi_inclusive,
        checkpoint_hi_inclusive: Some(by.checkpoint_hi_inclusive),
        tx_hi: by.tx_hi,
        timestamp_ms_hi_inclusive: by.timestamp_ms_hi_inclusive,
        ..current
    }
}

/// What an update of the committer does: it only ever goes forward.
pub open spec fn committer_step(found: Found, by: CommitterWatermark) -> Result<
    WriteStep,
    NoWatermark,
> {
    match found {
        Some((current, version)) => Ok(
            match current.checkpoint_hi_inclusive {
                Some(checkpoint) if checkpoint >= by.checkpoint_hi_inclusive => WriteStep::Refuse,
                _ => WriteStep::CompareAndSet {
                    watermark: committed(current, by),
                    expected_version: version,
                },
            },
        ),
        None => Err(NoWatermark),
    }
}

/// What an update of `reader_lo` does.
pub open spec fn reader_step(found: Found, reader_lo: u64) -> Result<WriteStep, NoWatermark> {
    match found {
        Some((current, version)) => Ok(
            WriteStep::CompareAndSet {
                watermark: WatermarkV2 { reader_lo, ..current },
                expected_version: version,
            },
        ),
        None => Err(NoWatermark),
    }
}

/// What an update of `pruner_hi` does.
pub open spec fn pruner_step(found: Found, pruner_hi: u64) -> Result<WriteStep, NoWatermark> {
    match found {
        Some((current, version)) => Ok(
            WriteStep::CompareAndSet {
                watermark: WatermarkV2 { pruner_hi, ..current },
                expected_version: version,
            },
        ),
        None => Err(NoWatermark),
    }
}

/// A store whose connections use copies of one client.
pub struct BigTableStore<C> {
    client: C,
}

/// A connection to the store, for watermarks and for writing data.
pub struct BigTableConnection<'a, C> {
    client: C,
    _marker: PhantomData<&'a ()>,
}

impl<C> BigTableStore<C> {
    /// The client that every connection starts from.
    pub closed spec fn spec_client(&self) -> C {
        self.client
    }

    /// A store over this client.
    pub fn new(client: C) -> (r: Self)
        ensures
            r.spec_client() == client,
    {
        BigTableStore { client }
    }

    /// A connection with a clone of the client.
    pub fn connect<'c>(&'c self) -> (r: BigTableConnection<'c, C>) where C: Clone
        ensures
            cloned(self.spec_client(), r.spec_client()),
    {
        BigTableConnection { client: self.client.clone(), _marker: PhantomData }
    }
}

impl<'a, C> BigTableConnection<'a, C> {
    /// The client of this connection.
    pub closed spec fn spec_client(&self) -> C {
        self.client
    }

    /// The underlying client, to be used and changed through the reference.
    pub fn client(&mut self) -> (r: &mut C)
        ensures
            *r == old(self).spec_client(),
            final(self).spec_client() == *final(r),
    {
        &mut self.client
    }

    /// What those who read may see of a row, with the checkpoint unwrapped: nothing if there is
    /// no checkpoint, or one below `reader_lo`.
    pub fn get_watermark_for_read(&self, found: Found) -> (r: Option<(WatermarkV2, u64)>)
        ensures
            r == visible(found),
    {
        match found {
            Some((watermark, _)) => match watermark.checkpoint_hi_inclusive {
                Some(checkpoint) => {
                    if checkpoint >= watermark.reader_lo {
                        Some((watermark, checkpoint))
                    } else {
                        None
                    }
                },
                None => None,
            },
            None => None,
        }
    }

    /// What those who update start from: the watermark and its version, whether visible or not.
    pub fn get_watermark_for_write(&self, found: Found) -> (r: Result<
        (WatermarkV2, u64),
        NoWatermark,
    >)
        ensures
            r == match found {
                Some(current) => Ok(current),
                None => Err(NoWatermark),
            },
    {
        match found {
            Some(current) => Ok(current),
            None => Err(NoWatermark),
        }
    }

    /// How to initialize a pipeline, given what its row holds in the new and in the legacy
    /// format, and the checkpoint that the framework starts a fresh pipeline from.
    pub fn init_watermark(
        &self,
        found: Found,
        legacy: Option<Watermark>,
        checkpoint_hi_inclusive: Option<u64>,
    ) -> (r: InitStep)
        requires
            found is None ==> match legacy {
                Some(legacy) => legacy.checkpoint_hi_inclusive < u64::MAX,
                None => checkpoint_hi_inclusive matches Some(checkpoint) ==> checkpoint < u64::MAX,
            },
        ensures
            r == init_step(found, legacy, checkpoint_hi_inclusive),
    {
        if let Some((watermark, _version)) = found {
            return InitStep::Return(
                InitWatermark {
                    checkpoint_hi_inclusive: watermark.checkpoint_hi_inclusive,
                    reader_lo: Some(watermark.reader_lo),
                },
            );
        }
        let initial = if let Some(legacy) = legacy {
            let reader_lo: u64 = legacy.checkpoint_hi_inclusive + 1;
            WatermarkV2 {
                epoch_hi_inclusive: legacy.epoch_hi_inclusive,
                checkpoint_hi_inclusive: Some(legacy.checkpoint_hi_inclusive),
                tx_hi: legacy.tx_hi,
                timestamp_ms_hi_inclusive: legacy.timestamp_ms_hi_inclusive,
                reader_lo,
                pruner_hi: reader_lo,
                pruner_timestamp_ms: 0,
            }
        } else {
            let reader_lo: u64 = match checkpoint_hi_inclusive {
                Some(checkpoint) => checkpoint + 1,
                None => 0,
            };
            WatermarkV2 {
                epoch_hi_inclusive: 0,
                checkpoint_hi_inclusive,
                tx_hi: 0,
                timestamp_ms_hi_inclusive: 0,
                reader_lo,
                pruner_hi: reader_lo,
                pruner_timestamp_ms: 0,
            }
        };
        InitStep::CreateIfAbsent(initial)
    }

    /// The answer to an initialization that had to create the row, given what the row holds
    /// afterwards, whoever created it.
    pub fn init_watermark_created(&self, found: Found) -> (r: Option<InitWatermark>)
        ensures
            r == match found {
                Some((watermark, _)) => Some(init_view(watermark)),
                None => None,
            },
    {
        match found {
            Some((watermark, _version)) => Some(
                InitWatermark {
                    checkpoint_hi_inclusive: watermark.checkpoint_hi_inclusive,
                    reader_lo: Some(watermark.reader_lo),
                },
            ),
            None => None,
        }
    }

    /// Whether the store may be used for a chain: chain ids are not recorded, so any will do.
    pub fn accepts_chain_id(&self, _chain_id: [u8; 32]) -> (r: bool)
        ensures
            r,
    {
        true
    }

    /// How far the committer has come.
    pub fn committer_watermark(&self, found: Found) -> (r: Option<CommitterWatermark>)
        ensures
            r == committer_view(found),
    {
        match self.get_watermark_for_read(found) {
            Some((watermark, checkpoint_hi_inclusive)) => Some(
                CommitterWatermark {
                    epoch_hi_inclusive: watermark.epoch_hi_inclusive,
                    checkpoint_hi_inclusive,
                    tx_hi: watermark.tx_hi,
                    timestamp_ms_hi_inclusive: watermark.timestamp_ms_hi_inclusive,
                },
            ),
            None => None,
        }
    }

    /// How to record that the committer has come so far.
    pub fn set_committer_watermark(&self, found: Found, watermark: CommitterWatermark) -> (r:
        Result<WriteStep, NoWatermark>)
        ensures
            r == committer_step(found, watermark),
    {
        match self.get_watermark_for_write(found) {
            Ok((current, version)) => {
                if let Some(checkpoint) = current.checkpoint_hi_inclusive {
                    if checkpoint >= watermark.checkpoint_hi_inclusive {
                        return Ok(WriteStep::Refuse);
                    }
                }
                let new = WatermarkV2 {
                    epoch_hi_inclusive: watermark.epoch_hi_inclusive,
                    checkpoint_hi_inclusive: Some(watermark.checkpoint_hi_inclusive),
                    tx_hi: watermark.tx_hi,
                    timestamp_ms_hi_inclusive: watermark.timestamp_ms_hi_inclusive,
                    ..current
                };
                Ok(WriteStep::CompareAndSet { watermark: new, expected_version: version })
            },
            Err(e) => Err(e),
        }
    }

    /// What readers may ask for.
    pub fn reader_watermark(&self, found: Found) -> (r: Option<ReaderWatermark>)
        ensures
            r == reader_view(found),
    {
        match self.get_watermark_for_read(found) {
            Some((watermark, checkpoint_hi_inclusive)) => Some(
                ReaderWatermark { checkpoint_hi_inclusive, reader_lo: watermark.reader_lo },
            ),
            None => None,
        }
    }

    /// What may be pruned and when, if the pruner waits for `delay_ms` and it is `now_ms`, both
    /// in milliseconds.
    pub fn pruner_watermark(&self, found: Found, delay_ms: u128, now_ms: u128) -> (r: Result<
        Option<PrunerWatermark>,
        WaitTooLong,
    >)
        requires
            delay_ms <= u128::MAX - u64::MAX,
        ensures
            match visible(found) {
                Some((watermark, _)) => {
                    let wait = wait_ms(watermark, delay_ms, now_ms);
                    if wait <= i64::MAX {
                        r is Ok && r->Ok_0 == Some(
                            PrunerWatermark {
                                wait_for_ms: wait as i64,
                                reader_lo: watermark.reader_lo,
                                pruner_hi: watermark.pruner_hi,
                            },
                        )
                    } else {
                        r is Err
                    }
                },
                None => r is Ok && r->Ok_0 is None,
            },
    {
        match self.get_watermark_for_read(found) {
            Some((watermark, _)) => {
                let pruner_ready_ms: u128 = (watermark.pruner_timestamp_ms as u128) + delay_ms;
                let wait: u128 = pruner_ready_ms.saturating_sub(now_ms);
                if wait > i64::MAX as u128 {
                    return Err(WaitTooLong);
                }
                Ok(
                    Some(
                        PrunerWatermark {
                            wait_for_ms: wait as i64,
                            reader_lo: watermark.reader_lo,
                            pruner_hi: watermark.pruner_hi,
                        },
                    ),
                )
            },
            None => Ok(None),
        }
    }

    /// How to record the first checkpoint that readers may ask for.
    pub fn set_reader_watermark(&self, found: Found, reader_lo: u64) -> (r: Result<
        WriteStep,
        NoWatermark,
    >)
        ensures
            r == reader_step(found, reader_lo),
    {
        match self.get_watermark_for_write(found) {
            Ok((current, version)) => Ok(
                WriteStep::CompareAndSet {
                    watermark: WatermarkV2 { reader_lo, ..current },
                    expected_version: version,
                },
            ),
            Err(e) => Err(e),
        }
    }

    /// How to record the first checkpoint that is not pruned.
    pub fn set_pruner_watermark(&self, found: Found, pruner_hi: u64) -> (r: Result<
        WriteStep,
        NoWatermark,
    >)
        ensures
            r == pruner_step(found, pruner_hi),
    {
        match self.get_watermark_for_write(found) {
            Ok((current, version)) => Ok(
                WriteStep::CompareAndSet {
                    watermark: WatermarkV2 { pruner_hi, ..current },
                    expected_version: version,
                },
            ),
            Err(e) => Err(e),
        }
    }
}

} // verus!
