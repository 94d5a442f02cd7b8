//! The compute backend abstraction: buffers, pipelines and dispatch.

use vstd::prelude::*;
use crate::text::{concat, dec_chars, spec_dec, string_from, to_string};

verus! {

/// Identifier of a device buffer.
#[derive(Debug, Clone, Copy, PartialEq, Eq, Hash, Structural)]
pub struct BufferId(pub u64);

/// Identifier of a compute pipeline.
#[derive(Debug, Clone, Copy, PartialEq, Eq, Hash, Structural)]
pub struct PipelineId(pub u64);

/// The kind of a backend.
#[derive(Debug, Clone, Copy, PartialEq, Eq, Structural)]
pub enum BackendType {
    Wgpu,
    Cuda,
    Cpu,
}

/// Which backend a caller asks for.
#[derive(Debug, Clone, Copy, PartialEq, Eq, Structural)]
pub enum BackendPreference {
    Auto,
    Wgpu,
    Cuda,
    Cpu,
}

/// Why a compute operation failed.
#[derive(Debug)]
pub enum ComputeError {
    NoGpuAdapter,
    DeviceCreation(String),
    BufferAllocation(String),
    BufferNotFound(BufferId),
    PipelineNotFound(PipelineId),
    PipelineCreation(String),
    DispatchFailed(String),
    Synchronization(String),
    CudaError(String),
}

/// How an identifier is shown: its type name and number.
pub open spec fn id_text(kind_name: Seq<char>, n: u64) -> Seq<char> {
    kind_name + "("@ + spec_dec(n as nat) + ")"@
}

fn id_text_exec(kind_name: &str, n: u64) -> (r: String)
    ensures
        r@ == id_text(kind_name@, n),
{
    let digits = string_from(&dec_chars(n));
    let a = concat(kind_name, "(");
    let b = concat(a.as_str(), digits.as_str());
    concat(b.as_str(), ")")
}

impl ComputeError {
    /// The human-readable description of the error.
    pub fn message(&self) -> (r: String)
        ensures
            r@ == match self {
                ComputeError::NoGpuAdapter => "No compatible GPU adapter found"@,
                ComputeError::DeviceCreation(m) => "GPU device creation failed: "@ + m@,
                ComputeError::BufferAllocation(m) => "Buffer allocation error: "@ + m@,
                ComputeError::BufferNotFound(id) => "Buffer not found: "@ + id_text("BufferId"@, id.0),
                ComputeError::PipelineNotFound(id) => "Pipeline not found: "@ + id_text(
                    "PipelineId"@,
                    id.0,
                ),
                ComputeError::PipelineCreation(m) => "Pipeline creation error: "@ + m@,
                ComputeError::DispatchFailed(m) => "Dispatch failed: "@ + m@,
                ComputeError::Synchronization(m) => "Synchronization failed: "@ + m@,
                ComputeError::CudaError(m) => "CUDA error: "@ + m@,
            },
    {
        match self {
            ComputeError::NoGpuAdapter => to_string("No compatible GPU adapter found"),
            ComputeError::DeviceCreation(m) => concat("GPU device creation failed: ", m.as_str()),
            ComputeError::BufferAllocation(m) => concat("Buffer allocation error: ", m.as_str()),
            ComputeError::BufferNotFound(id) => {
                let t = id_text_exec("BufferId", id.0);
                concat("Buffer not found: ", t.as_str())
            },
            ComputeError::PipelineNotFound(id) => {
                let t = id_text_exec("PipelineId", id.0);
                concat("Pipeline not found: ", t.as_str())
            },
            ComputeError::PipelineCreation(m) => concat("Pipeline creation error: ", m.as_str()),
            ComputeError::DispatchFailed(m) => concat("Dispatch failed: ", m.as_str()),
            ComputeError::Synchronization(m) => concat("Synchronization failed: ", m.as_str()),
            ComputeError::CudaError(m) => concat("CUDA error: ", m.as_str()),
        }
    }
}

/// The contents a new buffer starts with: the given bytes, else
/// `size_bytes` zero bytes.
pub open spec fn initial_contents(size_bytes: usize, data: Option<&[u8]>) -> Seq<u8> {
    match data {
        Some(d) => d@,
        None => Seq::new(size_bytes as nat, |i: int| 0u8),
    }
}

/// A compute backend: it owns buffers, identified by number, and
/// pipelines that dispatches run.
pub trait ComputeBackend: Send + Sync {
    /// The contents of the live buffers, by identifier.
    spec fn buffer_contents(&self) -> Map<u64, Seq<u8>>;

    /// The identifiers of the pipelines created so far.
    spec fn pipeline_ids(&self) -> Set<u64>;

    fn backend_type(&self) -> BackendType;

    fn name(&self) -> &str;

    fn supports_compute(&self) -> bool;

    /// Allocates a buffer holding `data`, else `size_bytes` zero bytes,
    /// under an identifier not in use.
    fn allocate_buffer_raw(&mut self, size_bytes: usize, data: Option<&[u8]>) -> (r: Result<
        BufferId,
        ComputeError,
    >)
        ensures
            final(self).pipeline_ids() == old(self).pipeline_ids(),
            match r {
                Ok(id) => !old(self).buffer_contents().contains_key(id.0)
                    && final(self).buffer_contents()
                    == old(self).buffer_contents().insert(id.0, initial_contents(size_bytes, data)),
                Err(_) => final(self).buffer_contents() == old(self).buffer_contents(),
            },
    ;

    /// Writes `data` at the start of a buffer.
    fn upload_raw(&mut self, buffer: BufferId, data: &[u8]) -> (r: Result<(), ComputeError>)
        ensures
            final(self).pipeline_ids() == old(self).pipeline_ids(),
            final(self).buffer_contents().dom() == old(self).buffer_contents().dom(),
            r is Ok ==> old(self).buffer_contents().contains_key(buffer.0),
    ;

    /// Reads the start of a buffer into `out_bytes`.
    fn download_raw(&mut self, buffer: BufferId, out_bytes: &mut [u8]) -> (r: Result<(), ComputeError>)
        ensures
            final(self).pipeline_ids() == old(self).pipeline_ids(),
            final(self).buffer_contents() == old(self).buffer_contents(),
            final(out_bytes)@.len() == old(out_bytes)@.len(),
            r is Ok ==> old(self).buffer_contents().contains_key(buffer.0),
    ;

    /// Creates a pipeline under `id`.
    fn create_compute_pipeline(&mut self, id: PipelineId, shader_source: &str, entry_point: &str) -> (r:
        Result<(), ComputeError>)
        ensures
            final(self).buffer_contents() == old(self).buffer_contents(),
            match r {
                Ok(()) => final(self).pipeline_ids() == old(self).pipeline_ids().insert(id.0),
                Err(_) => final(self).pipeline_ids() == old(self).pipeline_ids(),
            },
    ;

    /// Runs a pipeline over `workgroups` with the bound buffers.
    fn dispatch(&mut self, pipeline: PipelineId, workgroups: [u32; 3], bindings: &[BufferId]) -> (r:
        Result<(), ComputeError>)
        ensures
            final(self).pipeline_ids() == old(self).pipeline_ids(),
            final(self).buffer_contents().dom() == old(self).buffer_contents().dom(),
            r is Ok ==> old(self).pipeline_ids().contains(pipeline.0),
    ;

    /// Waits for submitted work to finish.
    fn synchronize(&mut self) -> (r: Result<(), ComputeError>)
        ensures
            final(self).pipeline_ids() == old(self).pipeline_ids(),
            final(self).buffer_contents().dom() == old(self).buffer_contents().dom(),
    ;
}

} // verus!
