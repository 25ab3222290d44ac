//! Incremental accumulation of chunk results and the knobs that drive
//! chunked runs.

use vstd::prelude::*;
use crate::types::{DiffResult, DatasetMetadata, AddedRow, RemovedRow, ModifiedRow, UnchangedRow};

verus! {

/// A diff result gathered chunk by chunk, with progress bookkeeping.
pub struct StreamingDiffResult {
    pub added: Vec<AddedRow>,
    pub removed: Vec<RemovedRow>,
    pub modified: Vec<ModifiedRow>,
    pub unchanged: Vec<UnchangedRow>,
    pub total_processed: usize,
    pub total_source_rows: usize,
    pub total_target_rows: usize,
}

impl StreamingDiffResult {
    /// An empty accumulator over the given row counts.
    pub fn new(total_source: usize, total_target: usize) -> (r: Self)
        ensures
            r.added@.len() == 0,
            r.removed@.len() == 0,
            r.modified@.len() == 0,
            r.unchanged@.len() == 0,
            r.total_processed == 0,
            r.total_source_rows == total_source,
            r.total_target_rows == total_target,
    {
        StreamingDiffResult {
            added: Vec::new(),
            removed: Vec::new(),
            modified: Vec::new(),
            unchanged: Vec::new(),
            total_processed: 0,
            total_source_rows: total_source,
            total_target_rows: total_target,
        }
    }

    /// Folds another chunk's rows and progress into this result.
    pub fn merge(&mut self, other: StreamingDiffResult)
        requires
            old(self).total_processed + other.total_processed <= usize::MAX,
        ensures
            final(self).added@ == old(self).added@ + other.added@,
            final(self).removed@ == old(self).removed@ + other.removed@,
            final(self).modified@ == old(self).modified@ + other.modified@,
            final(self).unchanged@ == old(self).unchanged@ + other.unchanged@,
            final(self).total_processed == old(self).total_processed + other.total_processed,
            final(self).total_source_rows == old(self).total_source_rows,
            final(self).total_target_rows == old(self).total_target_rows,
    {
        let mut o = other;
        self.added.append(&mut o.added);
        self.removed.append(&mut o.removed);
        self.modified.append(&mut o.modified);
        self.unchanged.append(&mut o.unchanged);
        self.total_processed = self.total_processed + o.total_processed;
    }

    /// Seals the accumulator into a result; chunked runs carry no full row
    /// snapshots.
    pub fn to_diff_result(self, source_headers: Vec<String>, target_headers: Vec<String>,
        key_columns: Vec<String>, excluded_columns: Vec<String>, mode: String) -> (r: DiffResult)
        ensures
            r.added@ == self.added@,
            r.removed@ == self.removed@,
            r.modified@ == self.modified@,
            r.unchanged@ == self.unchanged@,
            r.source.headers@ == source_headers@,
            r.target.headers@ == target_headers@,
            r.source.rows@.len() == 0,
            r.target.rows@.len() == 0,
            r.key_columns@ == key_columns@,
            r.excluded_columns@ == excluded_columns@,
            r.mode@ == mode@,
    {
        DiffResult {
            added: self.added,
            removed: self.removed,
            modified: self.modified,
            unchanged: self.unchanged,
            source: DatasetMetadata { headers: source_headers, rows: Vec::new() },
            target: DatasetMetadata { headers: target_headers, rows: Vec::new() },
            key_columns,
            excluded_columns,
            mode,
        }
    }
}

/// How a chunked run is driven: slice size and progress cadence.
pub struct StreamingConfig {
    pub chunk_size: usize,
    pub enable_progress_updates: bool,
    pub progress_update_interval: usize,
}

impl Default for StreamingConfig {
    /// Five-thousand-row chunks with progress every ten chunks.
    fn default() -> (r: Self)
        ensures
            r.chunk_size == 5000,
            r.enable_progress_updates == true,
            r.progress_update_interval == 10,
    {
        StreamingConfig {
            chunk_size: 5000,
            enable_progress_updates: true,
            progress_update_interval: 10,
        }
    }
}

impl StreamingConfig {
    /// The default configuration with a custom chunk size.
    pub fn new(chunk_size: usize) -> (r: Self)
        ensures
            r.chunk_size == chunk_size,
            r.enable_progress_updates == true,
            r.progress_update_interval == 10,
    {
        StreamingConfig { chunk_size, enable_progress_updates: true, progress_update_interval: 10 }
    }

    /// The same configuration with another progress cadence.
    pub fn with_progress_interval(self, interval: usize) -> (r: Self)
        ensures
            r.chunk_size == self.chunk_size,
            r.enable_progress_updates == self.enable_progress_updates,
            r.progress_update_interval == interval,
    {
        StreamingConfig {
            chunk_size: self.chunk_size,
            enable_progress_updates: self.enable_progress_updates,
            progress_update_interval: interval,
        }
    }
}

} // verus!
