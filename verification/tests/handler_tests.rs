use certus::handler::{
    BlockDeviceHandler, Command, Completion, DeviceOutcome, DeviceRequest, Generation, OpHandle, PendingOp, SyncKind,
};
use certus::nvme::{NvmeBlockError, NvmeNamespaceInfo};
use certus::qpair::QueuePairPool;
use certus::tsc::TscClock;

fn clock() -> TscClock {
    // 1000 ticks per millisecond.
    TscClock::new(1_000_000, 1_000)
}

fn handler_of(generation: Generation) -> BlockDeviceHandler {
    let ns = vec![NvmeNamespaceInfo { ns_id: 1, num_sectors: 1000, sector_size: 512 }];
    BlockDeviceHandler::new(ns, QueuePairPool::from_detached(&[4, 16, 64]), clock(), 0, generation)
}

fn handler() -> BlockDeviceHandler {
    handler_of(Generation::V2)
}

#[test]
fn actor_pending_op_fields() {
    let tsc = clock();
    let op = PendingOp { handle: 42, deadline: tsc.deadline_from_ms(5, 5000), qpair_idx: 0, buf: 0 };
    assert_eq!(op.handle, 42);
    assert_eq!(op.qpair_idx, 0);
    assert_eq!(op.deadline, 5_000_005);
}

#[test]
fn async_read_round_trip() {
    let mut h = handler();
    h.connect_client(7);
    h.submit_command(7, Command::ReadAsync { ns_id: 1, lba: 8, buf: 99, buf_len: Some(4096), timeout_ms: 10 });
    let r = h.step(100);
    assert!(r.sends.is_empty());
    match r.request {
        Some(DeviceRequest::SubmitAsync { client_id, handle, is_read, lba, num_blocks, buf, qpair_idx, .. }) => {
            assert_eq!((client_id, handle, is_read, lba, num_blocks, buf, qpair_idx), (7, 1, true, 8, 8, 99, 0));
        }
        _ => panic!("expected an async submission"),
    }
    let r = h.resume(DeviceOutcome::Submitted { rc: 0 });
    assert!(r.sends.is_empty() && r.request.is_none());
    let out = h.complete_async(7, 1, true, 0, 0).unwrap();
    assert_eq!(out.client_id, 7);
    assert!(matches!(out.completion, Completion::ReadDone { handle: OpHandle(1), result: Ok(()) }));
    // A second completion of the same handle is dropped.
    assert!(h.complete_async(7, 1, true, 0, 0).is_none());
}

#[test]
fn aborted_operation_completion_is_dropped() {
    let mut h = handler();
    h.connect_client(1);
    h.submit_command(1, Command::WriteAsync { ns_id: 1, lba: 0, buf: 5, buf_len: 512, timeout_ms: 10 });
    let _ = h.step(0);
    let _ = h.resume(DeviceOutcome::Submitted { rc: 0 });
    h.submit_command(1, Command::AbortOp { handle: OpHandle(1) });
    let r = h.step(0);
    assert!(matches!(r.sends[0].completion, Completion::AbortAck { handle: OpHandle(1) }));
    assert!(h.complete_async(1, 1, false, 0, 0).is_none());
}

#[test]
fn expired_operation_times_out() {
    let mut h = handler();
    h.connect_client(1);
    h.submit_command(1, Command::ReadAsync { ns_id: 1, lba: 0, buf: 5, buf_len: Some(512), timeout_ms: 2 });
    let _ = h.step(100);
    let _ = h.resume(DeviceOutcome::Submitted { rc: 0 });
    assert!(h.check_timeouts(2099).is_empty());
    let sends = h.check_timeouts(2100);
    assert_eq!(sends.len(), 1);
    assert!(matches!(sends[0].completion, Completion::Timeout { handle: OpHandle(1) }));
    assert!(h.complete_async(1, 1, true, 0, 0).is_none());
}

#[test]
fn invalid_namespace_answered_at_once() {
    let mut h = handler();
    h.connect_client(3);
    h.submit_command(3, Command::ReadSync { ns_id: 9, lba: 0, buf: 0, buf_len: Some(512) });
    let r = h.step(0);
    assert!(r.request.is_none());
    match &r.sends[0].completion {
        Completion::ReadDone { handle: OpHandle(1), result: Err(NvmeBlockError::InvalidNamespace(m)) } => {
            assert_eq!(m, "namespace 9 not found \u{2014} use NsProbe to discover available namespaces");
        }
        _ => panic!("expected an invalid namespace error"),
    }
}

#[test]
fn sync_write_reports_device_status() {
    let mut h = handler();
    h.connect_client(3);
    h.submit_command(3, Command::WriteSync { ns_id: 1, lba: 10, buf: 4, buf_len: 1024 });
    let r = h.step(0);
    assert!(matches!(
        r.request,
        Some(DeviceRequest::SyncIo { kind: SyncKind::Write, ns_id: 1, lba: 10, num_blocks: 2, buf: 4, qpair_idx: 0 })
    ));
    let r = h.resume(DeviceOutcome::SyncIo { rc: 0, sct: 0, sc: 2, reaped: 1 });
    match &r.sends[0].completion {
        Completion::WriteDone { handle: OpHandle(1), result: Err(e) } => {
            assert!(matches!(e, NvmeBlockError::BlockDevice(_)));
        }
        _ => panic!("expected a failed write"),
    }
}

#[test]
fn controller_reset_cancels_every_client() {
    let mut h = handler();
    h.connect_client(1);
    h.connect_client(2);
    h.submit_command(1, Command::ReadAsync { ns_id: 1, lba: 0, buf: 1, buf_len: Some(512), timeout_ms: 10 });
    let _ = h.step(0);
    let _ = h.resume(DeviceOutcome::Submitted { rc: 0 });
    h.submit_command(2, Command::ControllerReset);
    let r = h.step(0);
    assert_eq!(r.sends.len(), 1);
    assert_eq!(r.sends[0].client_id, 1);
    match &r.sends[0].completion {
        Completion::Error { handle: Some(OpHandle(1)), error: NvmeBlockError::Aborted(m) } => {
            assert_eq!(m, "cancelled due to controller reset");
        }
        _ => panic!("expected a cancellation"),
    }
    assert!(matches!(r.request, Some(DeviceRequest::ResetController)));
    let r = h.resume(DeviceOutcome::Status { rc: 0 });
    assert!(matches!(r.request, Some(DeviceRequest::RefreshNamespaces)));
    let ns = vec![NvmeNamespaceInfo { ns_id: 1, num_sectors: 2000, sector_size: 512 }];
    let r = h.resume(DeviceOutcome::Namespaces { list: ns });
    assert_eq!(r.sends[0].client_id, 2);
    assert!(matches!(r.sends[0].completion, Completion::ResetDone { result: Ok(()) }));
    assert_eq!(h.namespaces()[0].num_sectors, 2000);
}

#[test]
fn batch_runs_in_order_on_one_queue() {
    let mut h = handler();
    h.connect_client(1);
    let ops = vec![
        Command::ReadAsync { ns_id: 1, lba: 0, buf: 1, buf_len: Some(512), timeout_ms: 10 },
        Command::ReadAsync { ns_id: 1, lba: 1, buf: 2, buf_len: Some(512), timeout_ms: 10 },
    ];
    h.submit_command(1, Command::BatchSubmit { ops });
    let r = h.step(0);
    assert!(r.sends.is_empty() && r.request.is_none());
    let r = h.step(0);
    assert!(matches!(r.request, Some(DeviceRequest::SubmitAsync { handle: 1, lba: 0, qpair_idx: 0, .. })));
    let _ = h.resume(DeviceOutcome::Submitted { rc: 0 });
    let r = h.step(0);
    assert!(matches!(r.request, Some(DeviceRequest::SubmitAsync { handle: 2, lba: 1, qpair_idx: 0, .. })));
    let _ = h.resume(DeviceOutcome::Submitted { rc: 0 });
    assert!(!h.has_work());
}

#[test]
fn shutdown_aborts_in_flight_operations() {
    let mut h = handler();
    h.connect_client(4);
    h.submit_command(4, Command::WriteAsync { ns_id: 1, lba: 0, buf: 1, buf_len: 512, timeout_ms: 10 });
    let _ = h.step(0);
    let _ = h.resume(DeviceOutcome::Submitted { rc: 0 });
    let sends = h.shutdown();
    assert_eq!(sends.len(), 1);
    match &sends[0].completion {
        Completion::Error { handle: Some(OpHandle(1)), error: NvmeBlockError::Aborted(m) } => {
            assert_eq!(m, "actor shutting down");
        }
        _ => panic!("expected an abort"),
    }
    assert_eq!(h.client_count(), 0);
}

#[test]
fn idle_timeout_check_is_throttled() {
    let mut h = handler();
    assert!(!h.timeout_check_due(999));
    assert!(h.timeout_check_due(1000));
    assert!(h.idle_timeouts(500).is_empty());
}

#[test]
fn v1_reset_cancels_only_requester() {
    let mut h = handler_of(Generation::V1);
    h.connect_client(1);
    h.connect_client(2);
    h.submit_command(1, Command::ReadAsync { ns_id: 1, lba: 0, buf: 1, buf_len: Some(512), timeout_ms: 10 });
    let _ = h.step(0);
    let _ = h.resume(DeviceOutcome::Submitted { rc: 0 });
    h.submit_command(2, Command::ControllerReset);
    let r = h.step(0);
    assert!(r.sends.is_empty());
    assert!(matches!(r.request, Some(DeviceRequest::ResetController)));
    let r = h.resume(DeviceOutcome::Status { rc: -5 });
    assert_eq!(r.sends[0].client_id, 2);
    match &r.sends[0].completion {
        Completion::ResetDone { result: Err(NvmeBlockError::BlockDevice(_)) } => {}
        _ => panic!("expected a failed reset"),
    }
    // Client 1's read is still in flight and completes normally.
    let out = h.complete_async(1, 1, true, 0, 0).unwrap();
    assert!(matches!(out.completion, Completion::ReadDone { handle: OpHandle(1), result: Ok(()) }));
}

#[test]
fn v1_batch_operations_choose_their_own_queue() {
    let mut h = handler_of(Generation::V1);
    h.connect_client(1);
    let ops = vec![
        Command::ReadAsync { ns_id: 1, lba: 0, buf: 1, buf_len: Some(512), timeout_ms: 10 },
        Command::ReadAsync { ns_id: 1, lba: 1, buf: 2, buf_len: Some(512), timeout_ms: 10 },
        Command::ReadAsync { ns_id: 1, lba: 2, buf: 3, buf_len: Some(512), timeout_ms: 10 },
        Command::ReadAsync { ns_id: 1, lba: 3, buf: 4, buf_len: Some(512), timeout_ms: 10 },
        Command::ReadAsync { ns_id: 1, lba: 4, buf: 5, buf_len: Some(512), timeout_ms: 10 },
        Command::ControllerReset,
    ];
    h.submit_command(1, Command::BatchSubmit { ops });
    let _ = h.step(0);
    let mut queues = Vec::new();
    for _ in 0..5 {
        let r = h.step(0);
        match r.request {
            Some(DeviceRequest::SubmitAsync { qpair_idx, .. }) => queues.push(qpair_idx),
            _ => panic!("expected an async submission"),
        }
        let _ = h.resume(DeviceOutcome::Submitted { rc: 0 });
    }
    // Each operation asks for room for the client's operations in flight
    // plus itself: the third no longer fits the four-deep queue pair.
    assert_eq!(queues, vec![0, 0, 1, 1, 1]);
    let r = h.step(0);
    assert_eq!(r.sends.len(), 5);
    assert!(matches!(r.request, Some(DeviceRequest::ResetController)));
}

#[test]
fn commands_dispatched_in_order_received() {
    let mut h = handler();
    h.connect_client(3);
    h.submit_command(3, Command::ReadSync { ns_id: 9, lba: 0, buf: 0, buf_len: Some(512) });
    h.submit_command(3, Command::NsProbe);
    let r = h.step(0);
    assert!(matches!(r.sends[0].completion, Completion::ReadDone { handle: OpHandle(1), result: Err(_) }));
    let r = h.step(0);
    assert!(matches!(r.sends[0].completion, Completion::NsProbeResult { .. }));
    assert!(!h.has_work());
}

#[test]
fn batch_goes_ahead_of_nothing_queued_before_it() {
    let mut h = handler();
    h.connect_client(1);
    h.submit_command(1, Command::NsProbe);
    let ops = vec![Command::ReadAsync { ns_id: 1, lba: 5, buf: 1, buf_len: Some(512), timeout_ms: 10 }];
    h.submit_command(1, Command::BatchSubmit { ops });
    let r = h.step(0);
    assert!(matches!(r.sends[0].completion, Completion::NsProbeResult { .. }));
    let r = h.step(0);
    assert!(r.sends.is_empty() && r.request.is_none());
    let r = h.step(0);
    assert!(matches!(r.request, Some(DeviceRequest::SubmitAsync { lba: 5, .. })));
}
