//! Game settings grouped by subsystem; the chunk system's settings.
use vstd::prelude::*;

verus! {

/// Settings of the chunk system: chunk size, chunk budget, load and unload
/// distances (in chunks), and worker thread counts.
pub struct ChunkSysConfig {
    pub chunk_size: u32,
    pub max_chunks: usize,
    pub load_distance: u32,
    pub unload_distance: u32,
    pub generation_threads: usize,
    pub io_threads: usize,
}

impl Default for ChunkSysConfig {
    /// Chunks of 32, at most 1000 loaded, loaded within 8 and unloaded beyond
    /// 12 chunks, with 4 generation threads and 2 I/O threads.
    fn default() -> (r: Self)
        ensures
            r.chunk_size == 32,
            r.max_chunks == 1000,
            r.load_distance == 8,
            r.unload_distance == 12,
            r.generation_threads == 4,
            r.io_threads == 2,
    {
        ChunkSysConfig {
            chunk_size: 32,
            max_chunks: 1000,
            load_distance: 8,
            unload_distance: 12,
            generation_threads: 4,
            io_threads: 2,
        }
    }
}

} // verus!
