//! The columns of the watermark table.
use vstd::prelude::*;

verus! {

/// The legacy watermark, in BCS.
pub const WATERMARK: &'static str = "w";

/// The watermark, in JSON.
pub const WATERMARK_V2: &'static str = "w2";

/// The version that gates writes of `w2`, a big-endian `u64`.
pub const VERSION: &'static str = "v";

} // verus!
