use certus::multidev::select::{has_duplicate_address, select_devices, SelectError};
use certus::pci::PciAddress;
use certus::multidev::plan::{distribution_text, thread_distribution};
use certus::extent::{compute_key_ranges, validate_config, BenchmarkConfig};
use certus::multidev::config::{BenchConfig, Driver, IoMode, OpType, Pattern};
use certus::multidev::plan::{thread_slots, ThreadSlot};
use certus::nvme::NamespaceInfo;
use certus::singledev::config::BenchConfig as SingleConfig;

fn sample_ns_list() -> Vec<NamespaceInfo> {
    vec![NamespaceInfo { ns_id: 1, num_sectors: 1_000_000, sector_size: 512 }]
}

fn md_config() -> BenchConfig {
    BenchConfig {
        op: OpType::Read,
        block_sizes: vec![4096],
        batch_size: 1,
        queue_depth: 32,
        threads: 1,
        duration: 10,
        num_devices: 1,
        pci_addrs: vec![],
        ns_ids: vec![1],
        pattern: Pattern::Random,
        io_mode: IoMode::Async,
        quiet: false,
        driver: Driver::V1,
    }
}

fn single_config() -> SingleConfig {
    SingleConfig {
        op: OpType::Read,
        block_size: 4096,
        queue_depth: 32,
        threads: 1,
        duration: 10,
        ns_id: 1,
        pci_addr: None,
        pattern: Pattern::Random,
        quiet: false,
    }
}

#[test]
fn config_valid_config_passes() {
    let config = md_config();
    assert!(config.validate(512, 256, &sample_ns_list(), 1).is_ok());
}

#[test]
fn config_block_size_not_multiple_of_sector_size() {
    let mut config = md_config();
    config.block_sizes = vec![1000];
    let err = config.validate(512, 256, &sample_ns_list(), 1).unwrap_err();
    assert!(err.contains("not a multiple of device sector size"));
    assert_eq!(err, "block-size 1000 is not a multiple of device sector size 512");
}

#[test]
fn config_invalid_namespace_fails() {
    let mut config = md_config();
    config.ns_ids = vec![5];
    let err = config.validate(512, 256, &sample_ns_list(), 5).unwrap_err();
    assert!(err.contains("namespace 5 not found"));
    assert_eq!(err, "namespace 5 not found (available: [1])");
}

#[test]
fn config_queue_depth_clamping() {
    let mut config = md_config();
    config.queue_depth = 512;
    assert!(config.clamp_queue_depth(256));
    assert_eq!(config.queue_depth, 256);
}

#[test]
fn batch_size_exceeds_queue_depth() {
    let mut config = md_config();
    config.batch_size = 64;
    let err = config.validate(512, 256, &sample_ns_list(), 1).unwrap_err();
    assert!(err.contains("batch-size 64 exceeds queue-depth 32"));
}

#[test]
fn ns_id_for_device_extends_last() {
    let mut config = md_config();
    config.threads = 4;
    config.num_devices = 4;
    config.ns_ids = vec![1, 2];
    assert_eq!(config.ns_id_for_device(0), 1);
    assert_eq!(config.ns_id_for_device(1), 2);
    assert_eq!(config.ns_id_for_device(2), 2);
    assert_eq!(config.ns_id_for_device(3), 2);
}

#[test]
fn resolve_num_devices_from_pci_addrs() {
    let mut config = md_config();
    config.pci_addrs = vec!["0000:03:00.0".into(), "0000:04:00.0".into()];
    config.resolve_num_devices();
    assert_eq!(config.num_devices, 2);
}

#[test]
fn resolve_num_devices_keeps_explicit_count() {
    let mut config = md_config();
    config.num_devices = 3;
    config.pci_addrs = vec!["0000:03:00.0".into()];
    config.resolve_num_devices();
    assert_eq!(config.num_devices, 3);
}

#[test]
fn md_validation_errors_in_order() {
    let mut config = md_config();
    config.block_sizes = vec![];
    assert_eq!(
        config.validate(512, 256, &sample_ns_list(), 1).unwrap_err(),
        "block-size must specify at least one size"
    );
    config.block_sizes = vec![4096, 0];
    assert_eq!(config.validate(512, 256, &sample_ns_list(), 1).unwrap_err(), "block-size must be > 0");
    config.block_sizes = vec![4096];
    config.threads = 0;
    assert_eq!(config.validate(512, 256, &sample_ns_list(), 1).unwrap_err(), "threads must be >= 1");
    config.threads = 1;
    config.duration = 0;
    assert_eq!(config.validate(512, 256, &sample_ns_list(), 1).unwrap_err(), "duration must be >= 1");
    config.duration = 1;
    config.queue_depth = 0;
    assert_eq!(config.validate(512, 256, &sample_ns_list(), 1).unwrap_err(), "queue-depth must be >= 1");
    config.queue_depth = 1;
    config.batch_size = 0;
    assert_eq!(config.validate(512, 256, &sample_ns_list(), 1).unwrap_err(), "batch-size must be >= 1");
}

#[test]
fn md_namespace_list_text() {
    let config = md_config();
    let list = vec![
        NamespaceInfo { ns_id: 1, num_sectors: 10, sector_size: 512 },
        NamespaceInfo { ns_id: 2, num_sectors: 10, sector_size: 512 },
    ];
    assert_eq!(config.validate(512, 256, &list, 7).unwrap_err(), "namespace 7 not found (available: [1, 2])");
    assert_eq!(config.validate(512, 256, &[], 7).unwrap_err(), "namespace 7 not found (available: [])");
}

#[test]
fn max_block_size_is_largest() {
    let mut config = md_config();
    config.block_sizes = vec![4096, 16384, 8192];
    assert_eq!(config.max_block_size(), 16384);
}

#[test]
fn single_valid_config_passes() {
    let config = single_config();
    assert!(config.validate(512, 256, &sample_ns_list()).is_ok());
}

#[test]
fn single_block_size_not_multiple_of_sector_size() {
    let mut config = single_config();
    config.block_size = 1000;
    let err = config.validate(512, 256, &sample_ns_list()).unwrap_err();
    assert!(err.contains("not a multiple of device sector size"));
}

#[test]
fn single_invalid_namespace_fails() {
    let mut config = single_config();
    config.ns_id = 5;
    let err = config.validate(512, 256, &sample_ns_list()).unwrap_err();
    assert!(err.contains("namespace 5 not found"));
}

#[test]
fn single_queue_depth_clamping() {
    let mut config = single_config();
    config.queue_depth = 512;
    config.clamp_queue_depth(256);
    assert_eq!(config.queue_depth, 256);
}

#[test]
fn queue_depth_no_clamp_when_within_limit() {
    let mut config = single_config();
    config.queue_depth = 64;
    assert!(!config.clamp_queue_depth(256));
    assert_eq!(config.queue_depth, 64);
}

#[test]
fn op_type_display() {
    assert_eq!(OpType::Read.to_string(), "read");
    assert_eq!(OpType::Write.to_string(), "write");
    assert_eq!(OpType::ReadWrite.to_string(), "readwrite");
}

#[test]
fn pattern_display() {
    assert_eq!(Pattern::Random.to_string(), "random");
    assert_eq!(Pattern::Sequential.to_string(), "sequential");
}

#[test]
fn mode_and_driver_display() {
    assert_eq!(IoMode::Sync.to_string(), "sync");
    assert_eq!(IoMode::Async.to_string(), "async");
    assert_eq!(Driver::V1.to_string(), "v1");
    assert_eq!(Driver::V2.to_string(), "v2");
}

fn extent_config() -> BenchmarkConfig {
    BenchmarkConfig {
        device: "0000:03:00.0".to_string(),
        ns_id: 1,
        threads: 1,
        count: 10000,
        size_class: 131072,
        slab_size: 1073741824,
        total_size: None,
    }
}

#[test]
fn extent_config_errors() {
    assert!(validate_config(&extent_config()).is_ok());
    let mut c = extent_config();
    c.size_class = 4096;
    assert_eq!(
        validate_config(&c).unwrap_err(),
        "size-class must be between 131072 (128 KiB) and 5242880 (5 MiB), got 4096"
    );
    c.size_class = 131072 + 1;
    assert_eq!(validate_config(&c).unwrap_err(), "size-class must be a multiple of 4096, got 131073");
    c.size_class = 131072;
    c.slab_size = 4096;
    assert_eq!(validate_config(&c).unwrap_err(), "slab-size must be at least 8192 (8 KiB), got 4096");
    c.slab_size = 8193;
    assert_eq!(validate_config(&c).unwrap_err(), "slab-size must be a multiple of 4096, got 8193");
    c.slab_size = 8192;
    c.total_size = Some(8192);
    assert_eq!(validate_config(&c).unwrap_err(), "total-size (8192) must be greater than slab-size (8192)");
    c.total_size = None;
    c.threads = 0;
    assert_eq!(validate_config(&c).unwrap_err(), "threads must be >= 1");
    c.threads = 1;
    c.count = 0;
    assert_eq!(validate_config(&c).unwrap_err(), "count must be >= 1");
}

#[test]
fn key_ranges_partition_keys() {
    let r = compute_key_ranges(10, 3);
    assert_eq!(r, vec![(0, 4), (4, 3), (7, 3)]);
    let r = compute_key_ranges(2, 4);
    assert_eq!(r, vec![(0, 1), (1, 1), (2, 0), (2, 0)]);
}

#[test]
fn thread_slots_round_robin() {
    let slots = thread_slots(5, 2);
    assert_eq!(slots.len(), 5);
    assert_eq!(slots[0], ThreadSlot { device: 0, index_on_device: 0, threads_on_device: 3 });
    assert_eq!(slots[1], ThreadSlot { device: 1, index_on_device: 0, threads_on_device: 2 });
    assert_eq!(slots[4], ThreadSlot { device: 0, index_on_device: 2, threads_on_device: 3 });
    for s in &slots {
        assert!(s.index_on_device < s.threads_on_device);
    }
}

#[test]
fn scale_threads_raises_to_device_count() {
    let mut c = md_config();
    c.num_devices = 4;
    c.threads = 2;
    assert!(c.scale_threads());
    assert_eq!(c.threads, 4);
    assert!(!c.scale_threads());
    assert_eq!(c.threads, 4);
}

#[test]
fn check_address_count_mismatch() {
    let mut c = md_config();
    c.num_devices = 2;
    assert!(c.check_address_count().is_ok());
    c.pci_addrs = vec!["0000:01:00.0".to_string()];
    assert_eq!(
        c.check_address_count(),
        Err("--pci-addrs specifies 1 addresses but --num-devices is 2".to_string())
    );
    c.pci_addrs.push("0000:02:00.0".to_string());
    assert!(c.check_address_count().is_ok());
}

#[test]
fn devices_selected_by_count_or_address() {
    let a = PciAddress { domain: 0, bus: 3, dev: 0, func: 0 };
    let b = PciAddress { domain: 0, bus: 4, dev: 0, func: 0 };
    let found = vec![a, b];
    assert_eq!(select_devices(&found, 2, &vec![]), Ok(vec![0, 1]));
    assert_eq!(select_devices(&found, 3, &vec![]), Err(SelectError::TooFew { requested: 3, available: 2 }));
    assert_eq!(select_devices(&vec![], 1, &vec![]), Err(SelectError::NoDevices));
    assert_eq!(
        select_devices(&found, 1, &vec!["0000:04:00.0".to_string(), "0000:03:00.0".to_string()]),
        Ok(vec![1, 0])
    );
    assert_eq!(
        select_devices(&found, 1, &vec!["0000:04:00.0".to_string(), "bogus".to_string()]),
        Err(SelectError::InvalidAddress(1))
    );
    assert_eq!(
        select_devices(&found, 1, &vec!["0000:05:00.0".to_string(), "bogus".to_string()]),
        Err(SelectError::NotFound(0))
    );
    assert!(!has_duplicate_address(&found));
    assert!(has_duplicate_address(&vec![a, b, a]));
}

#[test]
fn thread_distribution_text() {
    let counts = thread_distribution(5, 2);
    assert_eq!(counts, vec![3, 2]);
    assert_eq!(distribution_text(&counts), "D0:3, D1:2");
    assert_eq!(distribution_text(&vec![]), "");
    assert_eq!(thread_distribution(1, 3), vec![1, 0, 0]);
}
