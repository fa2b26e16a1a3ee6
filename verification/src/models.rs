//! Row types of the relational sink, as the scoring core sees them.

use crate::vector::Score;
use vstd::prelude::*;

verus! {

/// A persisted message: its sink-assigned id, the name of the file (the
/// group) it came from, and its text.
pub struct Message {
    pub id: i32,
    pub filename: String,
    pub message: String,
}

/// A persisted summary score: how representative the referenced message is
/// of its group, for one language.
pub struct SummaryProb {
    pub id: i32,
    pub message_id: i32,
    pub lang: String,
    pub prob: Score,
}

/// One summary-score row as it is handed to the sink for insertion; the
/// sink assigns the row its id.
pub struct ScoreRecord {
    pub message_id: i32,
    pub lang: String,
    pub prob: Score,
}

} // verus!
