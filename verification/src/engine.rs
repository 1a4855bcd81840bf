//! Statistics of the engine.
use vstd::prelude::*;

verus! {

/// Engine statistics: frames, loaded chunks, rendering, memory and threads.
#[derive(Debug)]
pub struct EngineStats {
    frame_count: u64,
    active_chunks: usize,
    render_stats: RenderStats,
    memory_usage: usize,
    thread_stats: ThreadPoolStats,
}

/// Rendering statistics of a frame.
#[derive(Debug)]
pub struct RenderStats {
    draw_calls: usize,
    vertices_rendered: usize,
    triangles_rendered: usize,
}

/// Statistics of the worker threads.
#[derive(Debug)]
pub struct ThreadPoolStats {
    active_threads: usize,
    queued_tasks: usize,
}

impl EngineStats {
    pub closed spec fn counts(&self) -> (u64, usize, usize, usize) {
        (self.frame_count, self.active_chunks, self.memory_usage, self.render_stats.draw_calls)
    }

    pub closed spec fn render(&self) -> RenderStats {
        self.render_stats
    }

    pub closed spec fn threads(&self) -> ThreadPoolStats {
        self.thread_stats
    }
}

impl RenderStats {
    pub closed spec fn counts(&self) -> (usize, usize, usize) {
        (self.draw_calls, self.vertices_rendered, self.triangles_rendered)
    }
}

impl ThreadPoolStats {
    pub closed spec fn counts(&self) -> (usize, usize) {
        (self.active_threads, self.queued_tasks)
    }
}

impl Default for RenderStats {
    /// No draw call, vertex or triangle.
    fn default() -> (r: Self)
        ensures
            r.counts() == (0usize, 0usize, 0usize),
    {
        RenderStats { draw_calls: 0, vertices_rendered: 0, triangles_rendered: 0 }
    }
}

impl Default for ThreadPoolStats {
    /// No active thread, no queued task.
    fn default() -> (r: Self)
        ensures
            r.counts() == (0usize, 0usize),
    {
        ThreadPoolStats { active_threads: 0, queued_tasks: 0 }
    }
}

impl Default for EngineStats {
    /// Every count zero.
    fn default() -> (r: Self)
        ensures
            r.counts() == (0u64, 0usize, 0usize, 0usize),
            r.render().counts() == (0usize, 0usize, 0usize),
            r.threads().counts() == (0usize, 0usize),
    {
        EngineStats {
            frame_count: 0,
            active_chunks: 0,
            render_stats: RenderStats::default(),
            memory_usage: 0,
            thread_stats: ThreadPoolStats::default(),
        }
    }
}

/// The statistics read from the engine's counters: frames drawn, chunks
/// loaded, the renderer's draw calls, vertices and triangles, the worker
/// threads, and the chunks queued for loading and for unloading, which
/// together are the queued tasks. Memory use is not tracked and reads 0.
pub fn get_stats(
    frame_count: u64,
    active_chunks: usize,
    draw_calls: usize,
    vertices_rendered: usize,
    triangles_rendered: usize,
    active_threads: usize,
    load_queued: usize,
    unload_queued: usize,
) -> (r: EngineStats)
    requires
        load_queued + unload_queued <= usize::MAX,
    ensures
        r.counts() == (frame_count, active_chunks, 0usize, draw_calls),
        r.render().counts() == (draw_calls, vertices_rendered, triangles_rendered),
        r.threads().counts() == (active_threads, (load_queued + unload_queued) as usize),
{
    EngineStats {
        frame_count,
        active_chunks,
        render_stats: RenderStats { draw_calls, vertices_rendered, triangles_rendered },
        memory_usage: 0,
        thread_stats: ThreadPoolStats { active_threads, queued_tasks: load_queued + unload_queued },
    }
}

} // verus!
