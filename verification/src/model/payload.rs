//! What a publisher sends.

use vstd::prelude::*;
use std::collections::BTreeMap;
use std::path::PathBuf;
use crate::model::time::UtcTimestamp;

verus! {

/// How a payload profile produces message bodies.
#[derive(Debug, Clone)]
pub enum PayloadKind {
    FixedBytes { size: usize, with_timestamp: bool },
    JsonTemplate { template: String, vars: BTreeMap<String, String> },
    CsvReplay { path: PathBuf, column: String, loop_when_done: bool },
    Counter { width: usize },
}

impl Default for PayloadKind {
    fn default() -> (r: Self)
        ensures
            r matches PayloadKind::FixedBytes { size, with_timestamp } && size == 256
                && with_timestamp,
    {
        PayloadKind::FixedBytes { size: 256, with_timestamp: true }
    }
}

/// A saved recipe for message bodies.
#[derive(Debug, Clone)]
pub struct PayloadProfile {
    pub id: String,
    pub name: String,
    pub kind: PayloadKind,
    pub created_at: UtcTimestamp,
    pub updated_at: UtcTimestamp,
}

} // verus!
