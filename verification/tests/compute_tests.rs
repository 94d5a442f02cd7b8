use oxide_eda::compute::backend::{BackendPreference, BackendType, BufferId, ComputeBackend, ComputeError, PipelineId};
use oxide_eda::compute::cpu::{create_backend, BufferIdSource, CpuBackend};

#[test]
fn test_auto_backend_factory() {
    let backend = create_backend(BackendPreference::Auto, &BufferIdSource::new());
    assert!(backend.supports_compute());
}

#[test]
fn cpu_buffers_round_trip() {
    let mut b = CpuBackend::new(&BufferIdSource::new());
    assert_eq!(b.backend_type(), BackendType::Cpu);
    assert_eq!(b.name(), "CPU (Rayon multithreaded)");
    let id = b.allocate_buffer_raw(4, None).unwrap();
    assert_eq!(id, BufferId(1000));
    let mut out = [9u8; 4];
    b.download_raw(id, &mut out).unwrap();
    assert_eq!(out, [0, 0, 0, 0]);
    b.upload_raw(id, &[1, 2]).unwrap();
    b.download_raw(id, &mut out).unwrap();
    assert_eq!(out, [1, 2, 0, 0]);
    b.upload_raw(id, &[7, 7, 7, 7, 7, 7]).unwrap();
    let mut big = [0u8; 8];
    b.download_raw(id, &mut big).unwrap();
    assert_eq!(big, [7, 7, 7, 7, 7, 7, 0, 0]);
    let id2 = b.allocate_buffer_raw(0, Some(&[5, 6])).unwrap();
    assert_eq!(id2, BufferId(1001));
    let mut two = [0u8; 2];
    b.download_raw(id2, &mut two).unwrap();
    assert_eq!(two, [5, 6]);
}

#[test]
fn cpu_reports_missing_buffers_and_pipelines() {
    let mut b = CpuBackend::new(&BufferIdSource::new());
    assert!(matches!(b.upload_raw(BufferId(5), &[1]), Err(ComputeError::BufferNotFound(BufferId(5)))));
    let mut out = [3u8; 1];
    assert!(matches!(b.download_raw(BufferId(5), &mut out), Err(ComputeError::BufferNotFound(BufferId(5)))));
    assert_eq!(out, [3]);
    assert!(matches!(b.dispatch(PipelineId(1), [1, 1, 1], &[]), Err(ComputeError::PipelineNotFound(PipelineId(1)))));
    b.create_compute_pipeline(PipelineId(1), "// shader", "main").unwrap();
    assert!(b.dispatch(PipelineId(1), [1, 1, 1], &[]).is_ok());
    assert!(b.synchronize().is_ok());
}

#[test]
fn compute_error_messages() {
    assert_eq!(ComputeError::BufferNotFound(BufferId(5)).message(), "Buffer not found: BufferId(5)");
    assert_eq!(ComputeError::PipelineNotFound(PipelineId(101)).message(), "Pipeline not found: PipelineId(101)");
    assert_eq!(ComputeError::NoGpuAdapter.message(), "No compatible GPU adapter found");
    assert_eq!(ComputeError::DispatchFailed("x".to_string()).message(), "Dispatch failed: x");
}

#[test]
fn dispatch_succeeds_exactly_for_created_pipelines() {
    let mut b = CpuBackend::new(&BufferIdSource::new());
    b.create_compute_pipeline(PipelineId(3), "// a", "main").unwrap();
    let id = b.allocate_buffer_raw(2, None).unwrap();
    b.create_compute_pipeline(PipelineId(7), "// b", "other").unwrap();
    b.upload_raw(id, &[1]).unwrap();
    assert!(b.dispatch(PipelineId(3), [1, 1, 1], &[id]).is_ok());
    assert!(b.dispatch(PipelineId(7), [2, 1, 1], &[]).is_ok());
    assert!(matches!(b.dispatch(PipelineId(5), [1, 1, 1], &[]), Err(ComputeError::PipelineNotFound(PipelineId(5)))));
}

#[test]
fn buffer_ids_never_repeat_within_a_backend() {
    let mut b = CpuBackend::new(&BufferIdSource::new());
    let mut seen = Vec::new();
    for k in 0..5u8 {
        let id = b.allocate_buffer_raw(1, Some(&[k])).unwrap();
        assert!(!seen.contains(&id));
        seen.push(id);
    }
    for (k, id) in seen.iter().enumerate() {
        let mut out = [0u8; 1];
        b.download_raw(*id, &mut out).unwrap();
        assert_eq!(out, [k as u8]);
    }
}

#[test]
fn backends_sharing_a_source_never_repeat_an_id() {
    let ids = BufferIdSource::new();
    let mut a = CpuBackend::new(&ids);
    let mut b = create_backend(BackendPreference::Cpu, &ids);
    let a1 = a.allocate_buffer_raw(1, None).unwrap();
    let b1 = b.allocate_buffer_raw(1, None).unwrap();
    let a2 = a.allocate_buffer_raw(1, None).unwrap();
    assert_eq!(a1, BufferId(1000));
    assert_eq!(b1, BufferId(1001));
    assert_eq!(a2, BufferId(1002));
    let mut out = [9u8; 1];
    assert!(matches!(a.download_raw(b1, &mut out), Err(ComputeError::BufferNotFound(_))));
}

#[test]
fn allocating_a_taken_id_is_refused() {
    let mut b = CpuBackend::new(&BufferIdSource::new());
    assert_eq!(b.allocate_with_id(7, 2, None).unwrap(), BufferId(7));
    b.upload_raw(BufferId(7), &[4, 5]).unwrap();
    assert!(matches!(b.allocate_with_id(7, 1, Some(&[1])), Err(ComputeError::BufferAllocation(_))));
    let mut out = [0u8; 2];
    b.download_raw(BufferId(7), &mut out).unwrap();
    assert_eq!(out, [4, 5]);
}
