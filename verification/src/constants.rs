//! Capacities and buffer sizes.
use vstd::prelude::*;

verus! {

/// The hash map used for model-keyed data.
pub type FastHashMap<K, V> = ahash::AHashMap<K, V>;

/// Expected number of AI models per conversation session.
pub const MODELS_PER_SESSION: usize = 3;

/// Expected number of unique dates in usage tracking.
pub const DATES_IN_USAGE: usize = 30;

/// Expected number of unique models in batch analysis.
pub const MODEL_COMBINATIONS: usize = 20;

/// Expected number of session files per directory.
pub const SESSION_FILES: usize = 50;

/// Maximum number of parsed files kept in the file cache.
pub const FILE_CACHE_SIZE: usize = 5;

/// Expected number of token fields per usage entry.
pub const TOKEN_FIELDS: usize = 8;

/// File read buffer size in bytes.
pub const FILE_READ_BUFFER: usize = 131072;

/// Estimated average size of a line in JSONL files.
pub const AVG_JSONL_LINE_SIZE: usize = 500;

} // verus!
