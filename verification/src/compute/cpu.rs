//! The CPU compute backend: buffers held in memory, pipelines recorded by
//! entry point, dispatch checked and left to the domain code.

use vstd::prelude::*;
use std::collections::HashMap;
use crate::compute::backend::{
    initial_contents, BackendPreference, BackendType, BufferId, ComputeBackend, ComputeError,
    PipelineId,
};
use crate::text::to_string;

verus! {

broadcast use vstd::std_specs::hash::group_hash_axioms;

/// The first buffer identifier a [`BufferIdSource`] hands out.
pub const FIRST_BUFFER_ID: u64 = 1000;

/// A counter of buffer identifiers that backends share. Create one for the
/// whole process and give it to every backend: each draw returns the
/// counter's value and advances it, so backends that share a source never
/// hand out the same identifier (until the counter wraps around).
#[derive(Clone)]
pub struct BufferIdSource {
    counter: std::sync::Arc<std::sync::atomic::AtomicU64>,
}

impl BufferIdSource {
    /// A source whose first identifier is [`FIRST_BUFFER_ID`].
    pub fn new() -> (r: Self) {
        BufferIdSource {
            counter: std::sync::Arc::new(std::sync::atomic::AtomicU64::new(FIRST_BUFFER_ID)),
        }
    }

    /// Draws the next identifier. Its value depends on every draw made
    /// through any copy of this source, so nothing is stated of it.
    pub fn next_id(&self) -> (r: u64) {
        self.counter.fetch_add(1, std::sync::atomic::Ordering::Relaxed)
    }
}

/// A compute backend that keeps its buffers in host memory.
///
/// Buffer identifiers are drawn from the [`BufferIdSource`] it was built
/// with.
pub struct CpuBackend {
    buffers: HashMap<u64, Vec<u8>>,
    pipelines: HashMap<u64, String>,
    ids: BufferIdSource,
}

/// A buffer after `data` is written at its start: grown to fit `data`
/// when shorter, its tail kept when longer.
pub open spec fn overwrite(old: Seq<u8>, data: Seq<u8>) -> Seq<u8> {
    if data.len() < old.len() {
        data + old.skip(data.len() as int)
    } else {
        data
    }
}

/// An output area after a download from a buffer holding `contents`: its
/// first `min(len, contents.len())` bytes replaced by those of `contents`.
pub open spec fn download_into(out: Seq<u8>, contents: Seq<u8>) -> Seq<u8> {
    let n = if out.len() < contents.len() {
        out.len()
    } else {
        contents.len()
    };
    contents.take(n as int) + out.skip(n as int)
}

impl CpuBackend {
    /// The buffers' contents, by identifier.
    pub closed spec fn contents(&self) -> Map<u64, Seq<u8>> {
        self.buffers@.map_values(|v: Vec<u8>| v@)
    }

    /// The entry point of each pipeline, by identifier.
    pub closed spec fn entry_points(&self) -> Map<u64, Seq<char>> {
        self.pipelines@.map_values(|s: String| s@)
    }

    /// A backend with no buffers and no pipelines, drawing buffer
    /// identifiers from `ids`.
    pub fn new(ids: &BufferIdSource) -> (r: Self)
        ensures
            r.contents() == Map::<u64, Seq<u8>>::empty(),
            r.entry_points() == Map::<u64, Seq<char>>::empty(),
    {
        let r = CpuBackend { buffers: HashMap::new(), pipelines: HashMap::new(), ids: ids.clone() };
        assert(r.contents() =~= Map::<u64, Seq<u8>>::empty());
        assert(r.entry_points() =~= Map::<u64, Seq<char>>::empty());
        r
    }

    /// Allocates a buffer under identifier `id`: `data` copied, or
    /// `size_bytes` zero bytes. `BufferAllocation` exactly when this backend
    /// already holds a buffer of that identifier, which a source shared by
    /// all backends does not hand out twice.
    pub fn allocate_with_id(&mut self, id: u64, size_bytes: usize, data: Option<&[u8]>) -> (r:
        Result<BufferId, ComputeError>)
        ensures
            final(self).entry_points() == old(self).entry_points(),
            final(self).pipeline_ids() == old(self).pipeline_ids(),
            old(self).contents().contains_key(id) ==> final(self).contents() == old(self).contents(),
            old(self).contents().contains_key(id) ==> (r matches Err(e) && e is BufferAllocation),
            !old(self).contents().contains_key(id) ==> r == Ok::<BufferId, ComputeError>(BufferId(id))
                && final(self).contents() == old(self).contents().insert(
                id,
                initial_contents(size_bytes, data),
            ),
    {
        if self.buffers.contains_key(&id) {
            return Err(ComputeError::BufferAllocation(to_string("buffer identifier already in use")));
        }
        let buf = match data {
            Some(d) => copy_slice(d),
            None => zeros(size_bytes),
        };
        let mut bufs: HashMap<u64, Vec<u8>> = HashMap::new();
        std::mem::swap(&mut bufs, &mut self.buffers);
        bufs.insert(id, buf);
        self.buffers = bufs;
        assert(self.contents() =~= old(self).contents().insert(id, initial_contents(size_bytes, data)));
        Ok(BufferId(id))
    }
}

fn zeros(n: usize) -> (r: Vec<u8>)
    ensures
        r@ == Seq::new(n as nat, |i: int| 0u8),
{
    let mut v: Vec<u8> = Vec::new();
    let mut i: usize = 0;
    while i < n
        invariant
            i <= n,
            v@ == Seq::new(i as nat, |j: int| 0u8),
        decreases n - i,
    {
        v.push(0u8);
        i += 1;
        assert(v@ =~= Seq::new(i as nat, |j: int| 0u8));
    }
    v
}

fn copy_slice(d: &[u8]) -> (r: Vec<u8>)
    ensures
        r@ == d@,
{
    let mut v: Vec<u8> = Vec::new();
    let mut i: usize = 0;
    while i < d.len()
        invariant
            i <= d.len(),
            v@ == d@.take(i as int),
        decreases d.len() - i,
    {
        v.push(d[i]);
        i += 1;
        assert(v@ =~= d@.take(i as int));
    }
    assert(d@.take(d.len() as int) =~= d@);
    v
}

fn write_prefix(entry: &mut Vec<u8>, data: &[u8])
    ensures
        final(entry)@ == overwrite(old(entry)@, data@),
{
    let ghost e0 = entry@;
    let mut i: usize = 0;
    while i < data.len()
        invariant
            i <= data.len(),
            entry@ == data@.take(i as int) + (if i < e0.len() {
                e0.skip(i as int)
            } else {
                Seq::empty()
            }),
        decreases data.len() - i,
    {
        if i < entry.len() {
            assert(i < e0.len());
            entry.set(i, data[i]);
        } else {
            entry.push(data[i]);
        }
        i += 1;
        assert(entry@ =~= data@.take(i as int) + (if i < e0.len() {
            e0.skip(i as int)
        } else {
            Seq::empty()
        }));
    }
    assert(data@.take(data.len() as int) =~= data@);
    assert(entry@ =~= overwrite(e0, data@));
}

impl ComputeBackend for CpuBackend {
    closed spec fn buffer_contents(&self) -> Map<u64, Seq<u8>> {
        self.contents()
    }

    closed spec fn pipeline_ids(&self) -> Set<u64> {
        self.pipelines@.dom()
    }

    fn backend_type(&self) -> (r: BackendType)
        ensures
            r == BackendType::Cpu,
    {
        BackendType::Cpu
    }

    fn name(&self) -> (r: &str)
        ensures
            r@ == "CPU (Rayon multithreaded)"@,
    {
        "CPU (Rayon multithreaded)"
    }

    fn supports_compute(&self) -> (r: bool)
        ensures
            r,
    {
        true
    }

    /// Allocates a buffer under the next identifier of the backend's
    /// [`BufferIdSource`] (see [`CpuBackend::allocate_with_id`]).
    fn allocate_buffer_raw(&mut self, size_bytes: usize, data: Option<&[u8]>) -> (r: Result<
        BufferId,
        ComputeError,
    >)
        ensures
            final(self).entry_points() == old(self).entry_points(),
            r matches Err(e) ==> e is BufferAllocation,
    {
        let id = self.ids.next_id();
        self.allocate_with_id(id, size_bytes, data)
    }

    /// `BufferNotFound` exactly when there is no such buffer.
    fn upload_raw(&mut self, buffer: BufferId, data: &[u8]) -> (r: Result<(), ComputeError>)
        ensures
            final(self).entry_points() == old(self).entry_points(),
            match r {
                Ok(()) => old(self).contents().contains_key(buffer.0) && final(self).contents()
                    == old(self).contents().insert(
                    buffer.0,
                    overwrite(old(self).contents()[buffer.0], data@),
                ),
                Err(e) => !old(self).contents().contains_key(buffer.0) && final(self).contents()
                    == old(self).contents() && e == ComputeError::BufferNotFound(buffer),
            },
    {
        let mut bufs: HashMap<u64, Vec<u8>> = HashMap::new();
        std::mem::swap(&mut bufs, &mut self.buffers);
        match bufs.remove(&buffer.0) {
            None => {
                self.buffers = bufs;
                assert(self.contents() =~= old(self).contents());
                Err(ComputeError::BufferNotFound(buffer))
            },
            Some(entry) => {
                let mut entry = entry;
                write_prefix(&mut entry, data);
                bufs.insert(buffer.0, entry);
                self.buffers = bufs;
                assert(self.contents() =~= old(self).contents().insert(
                    buffer.0,
                    overwrite(old(self).contents()[buffer.0], data@),
                ));
                Ok(())
            },
        }
    }

    /// `BufferNotFound` exactly when there is no such buffer.
    fn download_raw(&mut self, buffer: BufferId, out_bytes: &mut [u8]) -> (r: Result<(), ComputeError>)
        ensures
            final(self).entry_points() == old(self).entry_points(),
            match r {
                Ok(()) => old(self).contents().contains_key(buffer.0) && final(out_bytes)@
                    == download_into(old(out_bytes)@, old(self).contents()[buffer.0]),
                Err(e) => !old(self).contents().contains_key(buffer.0) && final(out_bytes)@ == old(
                    out_bytes,
                )@ && e == ComputeError::BufferNotFound(buffer),
            },
    {
        match self.buffers.get(&buffer.0) {
            None => Err(ComputeError::BufferNotFound(buffer)),
            Some(entry) => {
                let ghost o0 = out_bytes@;
                let ghost c = entry@;
                assert(c == old(self).contents()[buffer.0]);
                let n = if out_bytes.len() < entry.len() {
                    out_bytes.len()
                } else {
                    entry.len()
                };
                let mut i: usize = 0;
                while i < n
                    invariant
                        i <= n,
                        n <= out_bytes@.len(),
                        n <= c.len(),
                        c == entry@,
                        out_bytes@.len() == o0.len(),
                        out_bytes@ == c.take(i as int) + o0.skip(i as int),
                    decreases n - i,
                {
                    out_bytes[i] = entry[i];
                    i += 1;
                    assert(out_bytes@ =~= c.take(i as int) + o0.skip(i as int));
                }
                Ok(())
            },
        }
    }

    /// Always succeeds; records the entry point.
    fn create_compute_pipeline(&mut self, id: PipelineId, shader_source: &str, entry_point: &str) -> (r:
        Result<(), ComputeError>)
        ensures
            r is Ok,
            final(self).entry_points() == old(self).entry_points().insert(id.0, entry_point@),
    {
        let mut pipes: HashMap<u64, String> = HashMap::new();
        std::mem::swap(&mut pipes, &mut self.pipelines);
        pipes.insert(id.0, to_string(entry_point));
        self.pipelines = pipes;
        assert(self.entry_points() =~= old(self).entry_points().insert(id.0, entry_point@));
        Ok(())
    }

    /// `PipelineNotFound` exactly when no pipeline has that identifier;
    /// the work itself is done by the domain code.
    fn dispatch(&mut self, pipeline: PipelineId, workgroups: [u32; 3], bindings: &[BufferId]) -> (r:
        Result<(), ComputeError>)
        ensures
            final(self).contents() == old(self).contents(),
            final(self).entry_points() == old(self).entry_points(),
            match r {
                Ok(()) => old(self).entry_points().contains_key(pipeline.0),
                Err(e) => !old(self).entry_points().contains_key(pipeline.0) && e
                    == ComputeError::PipelineNotFound(pipeline),
            },
    {
        if !self.pipelines.contains_key(&pipeline.0) {
            return Err(ComputeError::PipelineNotFound(pipeline));
        }
        Ok(())
    }

    /// Always succeeds: CPU work is done when dispatch returns.
    fn synchronize(&mut self) -> (r: Result<(), ComputeError>)
        ensures
            r is Ok,
            final(self).contents() == old(self).contents(),
            final(self).entry_points() == old(self).entry_points(),
    {
        Ok(())
    }
}

/// Creates the backend for a preference. This build carries the CPU
/// backend only, which every preference falls back to.
pub fn create_backend(preference: BackendPreference, ids: &BufferIdSource) -> (r: CpuBackend)
    ensures
        r.contents() == Map::<u64, Seq<u8>>::empty(),
        r.entry_points() == Map::<u64, Seq<char>>::empty(),
{
    match preference {
        BackendPreference::Auto => CpuBackend::new(ids),
        BackendPreference::Wgpu => CpuBackend::new(ids),
        BackendPreference::Cuda => CpuBackend::new(ids),
        BackendPreference::Cpu => CpuBackend::new(ids),
    }
}

/// Reading back a buffer right after writing it gives what was written
/// (as far as the output area reaches), whatever the buffer held before.
pub proof fn law_download_after_upload(old_contents: Seq<u8>, data: Seq<u8>, out: Seq<u8>)
    requires
        out.len() == data.len(),
    ensures
        download_into(out, overwrite(old_contents, data)) == data,
{
    let c = overwrite(old_contents, data);
    assert(c.take(data.len() as int) =~= data);
    assert(out.skip(data.len() as int) =~= Seq::<u8>::empty());
    assert(download_into(out, c) =~= data);
}

/// A freshly allocated buffer reads back as its initial contents.
pub proof fn law_download_after_allocate(size_bytes: usize, data: Option<&[u8]>, out: Seq<u8>)
    requires
        out.len() == initial_contents(size_bytes, data).len(),
    ensures
        download_into(out, initial_contents(size_bytes, data)) == initial_contents(size_bytes, data),
{
    let c = initial_contents(size_bytes, data);
    assert(c.take(c.len() as int) =~= c);
    assert(out.skip(c.len() as int) =~= Seq::<u8>::empty());
    assert(download_into(out, c) =~= c);
}

/// The pipeline map after a history of pipeline creations `(id, entry
/// point)`, applied in order to `start`.
pub open spec fn pipelines_after_creates(
    start: Map<u64, Seq<char>>,
    creates: Seq<(u64, Seq<char>)>,
) -> Map<u64, Seq<char>>
    decreases creates.len(),
{
    if creates.len() == 0 {
        start
    } else {
        pipelines_after_creates(start, creates.drop_last()).insert(
            creates.last().0,
            creates.last().1,
        )
    }
}

/// On a fresh backend, after a history of pipeline creations, a pipeline
/// identifier is known (so `dispatch` on it succeeds) exactly when some
/// creation used it.
pub proof fn law_dispatch_after_creates(creates: Seq<(u64, Seq<char>)>, pipeline: u64)
    ensures
        pipelines_after_creates(Map::empty(), creates).contains_key(pipeline) <==> exists|i: int|
            0 <= i < creates.len() && (#[trigger] creates[i]).0 == pipeline,
    decreases creates.len(),
{
    if creates.len() > 0 {
        let prefix = creates.drop_last();
        law_dispatch_after_creates(prefix, pipeline);
        if pipelines_after_creates(Map::empty(), creates).contains_key(pipeline) {
            if creates.last().0 != pipeline {
                let i = choose|i: int| 0 <= i < prefix.len() && (#[trigger] prefix[i]).0 == pipeline;
                assert(creates[i] == prefix[i]);
            } else {
                assert(creates[creates.len() - 1].0 == pipeline);
            }
        }
        if exists|i: int| 0 <= i < creates.len() && (#[trigger] creates[i]).0 == pipeline {
            let i = choose|i: int| 0 <= i < creates.len() && (#[trigger] creates[i]).0 == pipeline;
            if i < creates.len() - 1 {
                assert(prefix[i] == creates[i]);
            }
        }
    }
}

/// Writing `data` at the start of a buffer replaces its first
/// `data.len()` bytes; a shorter write keeps the buffer's length and
/// every byte after the written ones, a longer one leaves exactly `data`.
pub proof fn law_overwrite_keeps_tail(old: Seq<u8>, data: Seq<u8>)
    ensures
        data.len() <= old.len() ==> overwrite(old, data).len() == old.len(),
        data.len() > old.len() ==> overwrite(old, data) == data,
        forall|i: int| 0 <= i < data.len() ==> #[trigger] overwrite(old, data)[i] == data[i],
        forall|i: int|
            data.len() <= i < old.len() ==> #[trigger] overwrite(old, data)[i] == old[i],
{
}

/// Reading a whole buffer back after a shorter write gives the written
/// bytes followed by the buffer's old tail.
pub proof fn law_download_after_partial_upload(old: Seq<u8>, data: Seq<u8>, out: Seq<u8>)
    requires
        data.len() <= old.len(),
        out.len() == old.len(),
    ensures
        download_into(out, overwrite(old, data)) == data + old.skip(data.len() as int),
{
    let c = overwrite(old, data);
    assert(c.len() == old.len());
    assert(c.take(c.len() as int) =~= c);
    assert(out.skip(c.len() as int) =~= Seq::<u8>::empty());
    assert(download_into(out, c) =~= data + old.skip(data.len() as int));
}

/// A download keeps the output area's length, copies the buffer's bytes
/// into as much of it as both cover, and leaves the rest as it was.
pub proof fn law_download_copies_prefix(out: Seq<u8>, contents: Seq<u8>)
    ensures
        download_into(out, contents).len() == out.len(),
        forall|i: int|
            0 <= i < out.len() && i < contents.len() ==> #[trigger] download_into(out, contents)[i]
                == contents[i],
        forall|i: int|
            contents.len() <= i < out.len() ==> #[trigger] download_into(out, contents)[i] == out[i],
{
}

/// A new buffer holds the given bytes, or else `size_bytes` zeros.
pub proof fn law_new_buffer_contents(size_bytes: usize, data: Option<&[u8]>)
    ensures
        data matches Some(d) ==> initial_contents(size_bytes, data) == d@,
        data is None ==> initial_contents(size_bytes, data).len() == size_bytes,
        data is None ==> forall|i: int|
            0 <= i < size_bytes ==> #[trigger] initial_contents(size_bytes, data)[i] == 0u8,
{
}

} // verus!
