use certus::dispatcher::{
    check_outcome, lookup_outcome, remove_outcome, staging_error, Dispatcher, DispatcherError, LookupKind, StagingError,
};
use certus::examples::architecture_name;
use certus::ipc::{ack_frame, check_payload_len, decode_len, error_frame};
use certus::multidev::cpus::plan_cpu_assignment;
use certus::multidev::config::{IoMode, OpType, Pattern};
use certus::multidev::worker::{Outcome, RunStats, WorkerCore};
use certus::pci::{parse_pci_addr, PciAddress};
use certus::stats::{compute_stats, summarize, ThreadResult};

#[test]
fn component_creation() {
    let d = Dispatcher::new();
    assert!(matches!(d.ensure_initialized(), Err(DispatcherError::NotInitialized(_))));
}

#[test]
fn dispatcher_lifecycle_and_populate() {
    let mut d = Dispatcher::new();
    assert!(matches!(d.populate_blocks(4096, true), Err(DispatcherError::NotInitialized(_))));
    assert!(matches!(d.initialize(false, 1), Err(DispatcherError::NotInitialized(_))));
    assert!(matches!(d.initialize(true, 0), Err(DispatcherError::InvalidParameter(_))));
    assert!(d.initialize(true, 2).is_ok());
    assert!(matches!(d.populate_blocks(0, true), Err(DispatcherError::InvalidParameter(_))));
    assert_eq!(d.populate_blocks(4096, true).unwrap(), 1);
    assert_eq!(d.populate_blocks(4097, true).unwrap(), 2);
    d.shutdown();
    assert!(d.ensure_initialized().is_err());
    assert!(matches!(staging_error(StagingError::AlreadyExists(3)), DispatcherError::AlreadyExists(3)));
    assert!(!check_outcome(None));
    assert!(!check_outcome(Some(LookupKind::NotExist)));
    assert!(check_outcome(Some(LookupKind::Staging)));
    assert!(matches!(lookup_outcome(5, false, None, true), Err(DispatcherError::KeyNotFound(5))));
    assert!(lookup_outcome(5, true, Some(LookupKind::BlockDevice { offset: 9 }), true).is_ok());
}

#[test]
fn architecture_names() {
    assert_eq!(architecture_name(7, 0), "Volta");
    assert_eq!(architecture_name(8, 6), "Ampere (GA10x)");
    assert_eq!(architecture_name(9, 0), "Hopper");
    assert_eq!(architecture_name(6, 1), "Unknown");
}

#[test]
fn pci_addresses() {
    assert_eq!(parse_pci_addr("0000:03:00.0"), Some(PciAddress { domain: 0, bus: 3, dev: 0, func: 0 }));
    assert_eq!(parse_pci_addr("ABCD:ff:1f.7"), Some(PciAddress { domain: 0xabcd, bus: 0xff, dev: 0x1f, func: 7 }));
    assert_eq!(parse_pci_addr("+1:+2:+3.+4"), Some(PciAddress { domain: 1, bus: 2, dev: 3, func: 4 }));
    assert_eq!(parse_pci_addr("0000:03:00"), None);
    assert_eq!(parse_pci_addr("0000:100:00.0"), None);
    assert_eq!(parse_pci_addr("0000:03:00.0.1"), None);
    assert_eq!(parse_pci_addr(":03:00.0"), None);
    assert_eq!(parse_pci_addr("g:03:00.0"), None);
    assert_eq!(parse_pci_addr(""), None);
}

#[test]
fn ipc_frames() {
    assert_eq!(decode_len(&[0x10, 0x01, 0, 0]), 272);
    assert_eq!(check_payload_len(272).unwrap(), 272);
    assert_eq!(check_payload_len(0).unwrap_err(), "Invalid payload length: 0");
    assert_eq!(check_payload_len(1025).unwrap_err(), "Invalid payload length: 1025");
    assert_eq!(ack_frame(), vec![1]);
    assert_eq!(error_frame("bad"), vec![0, 3, 0, 0, 0, b'b', b'a', b'd']);
}

#[test]
fn cpu_plan() {
    let plan = plan_cpu_assignment(2, 5, &vec![vec![3, 1], vec![2, 3]]);
    assert_eq!(plan.available, vec![1, 2, 3]);
    assert_eq!(plan.actor_cpus, vec![1, 2]);
    assert_eq!(plan.worker_cpus, vec![3, 3, 3, 3, 3]);
    let plan = plan_cpu_assignment(4, 2, &vec![vec![0, 1]]);
    assert_eq!(plan.actor_cpus, vec![0, 1]);
    assert!(plan.worker_cpus.is_empty());
    let plan = plan_cpu_assignment(1, 2, &vec![]);
    assert!(plan.actor_cpus.is_empty() && plan.worker_cpus.is_empty());
}

#[test]
fn latency_stats() {
    let mut samples = vec![50, 10, 40, 20, 30];
    let s = compute_stats(&mut samples);
    assert_eq!(samples, vec![10, 20, 30, 40, 50]);
    assert_eq!((s.count, s.min, s.max, s.mean, s.p50, s.p99), (5, 10, 50, 30, 30, 50));
}

#[test]
fn thread_results_summarized() {
    let results = vec![
        ThreadResult { read_ops: 3, write_ops: 1, errors: 0, latencies_ns: vec![30, 10] },
        ThreadResult { read_ops: 2, write_ops: 0, errors: 1, latencies_ns: vec![20] },
    ];
    let t = summarize(&results);
    assert_eq!((t.total_read_ops, t.total_write_ops, t.total_errors), (5, 1, 1));
    assert_eq!(t.latencies, vec![10, 20, 30]);
    assert_eq!(t.latency_sum, 60);
}

#[test]
fn worker_accounts_completions() {
    let mut w = WorkerCore::new(OpType::Read, IoMode::Async, Pattern::Sequential, vec![4096], 4, 2, 1, 1000, 512, 0, 1);
    assert_eq!(w.next_batch_len(), 2);
    assert!(w.choose_is_read());
    let io = w.build(100, w.pick_size_index(), true);
    assert_eq!((io.lba, io.slot, io.block_size, io.sync), (0, 0, 4096, false));
    w.record_submitted(1);
    let io = w.build(150, 0, true);
    assert_eq!((io.lba, io.slot), (8, 1));
    w.record_submitted(1);
    let mut stats = RunStats::new();
    w.complete(Outcome::ReadDone { ok: true }, 300, &mut stats);
    w.complete(Outcome::Timeout, 400, &mut stats);
    assert_eq!((stats.read_ops, stats.errors, stats.total_bytes), (1, 1, 4096));
    assert_eq!(stats.latencies_ns, vec![200]);
    assert_eq!(w.in_flight_count(), 0);
}

#[test]
fn latency_mean_is_total_over_count() {
    let mut samples = vec![666_666_667, 666_666_667, 666_666_667];
    let s = compute_stats(&mut samples);
    assert_eq!(s.mean, 666_666_667);
    assert!(s.min <= s.mean && s.mean <= s.max);
    let mut samples = vec![1_000_000_000, 1, 1];
    assert_eq!(compute_stats(&mut samples).mean, 333_333_334);
    let mut samples = vec![3_000_000_000, 1_500_000_000];
    assert_eq!(compute_stats(&mut samples).mean, 2_250_000_000);
}

#[test]
fn initialize_without_receptacles_fails() {
    let mut d = Dispatcher::new();
    assert!(matches!(d.initialize(false, 1), Err(DispatcherError::NotInitialized(_))));
}

#[test]
fn initialize_with_empty_pci_addrs_fails() {
    let mut d = Dispatcher::new();
    assert!(d.initialize(false, 0).is_err());
    assert!(matches!(d.initialize(true, 0), Err(DispatcherError::InvalidParameter(_))));
}

#[test]
fn lookup_before_initialize_fails() {
    let d = Dispatcher::new();
    assert!(matches!(d.ensure_initialized(), Err(DispatcherError::NotInitialized(_))));
}

#[test]
fn check_before_initialize_fails() {
    let d = Dispatcher::new();
    assert!(matches!(d.ensure_initialized(), Err(DispatcherError::NotInitialized(_))));
}

#[test]
fn remove_before_initialize_fails() {
    let d = Dispatcher::new();
    assert!(matches!(d.ensure_initialized(), Err(DispatcherError::NotInitialized(_))));
}

#[test]
fn populate_before_initialize_fails() {
    let d = Dispatcher::new();
    assert!(matches!(d.populate_blocks(4096, false), Err(DispatcherError::NotInitialized(_))));
}

#[test]
fn populate_with_zero_size_fails() {
    let d = Dispatcher::new();
    assert!(d.populate_blocks(0, false).is_err());
}

#[test]
fn shutdown_without_initialize_succeeds() {
    let mut d = Dispatcher::new();
    d.shutdown();
    assert!(d.ensure_initialized().is_err());
}

#[test]
fn double_shutdown_succeeds() {
    let mut d = Dispatcher::new();
    assert!(d.initialize(true, 1).is_ok());
    d.shutdown();
    d.shutdown();
    assert!(d.ensure_initialized().is_err());
}

#[test]
fn remove_outcomes() {
    assert!(matches!(remove_outcome(7, false, false), (Err(DispatcherError::KeyNotFound(7)), false)));
    assert!(matches!(remove_outcome(7, true, true), (Ok(()), false)));
    assert!(matches!(remove_outcome(7, true, false), (Err(DispatcherError::KeyNotFound(7)), true)));
}

#[test]
fn last_thread_may_take_an_io_longer_than_a_region() {
    // 100 sectors over 3 threads: regions of 33. The largest IO only has
    // to fit the last thread's reach, the end of the namespace; the last
    // thread starts at its region's start.
    let mut w = WorkerCore::new(OpType::Write, IoMode::Sync, Pattern::Sequential, vec![40 * 512], 4, 1, 1, 100, 512, 2, 3);
    let io = w.build(0, 0, false);
    assert_eq!(io.lba, 66);
}
