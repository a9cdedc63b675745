use certus::device::{check_env_connected, BlockDeviceState};
use certus::nvme::{
    to_namespace_info, to_namespace_info_list, validate_lba_range, validate_ns_id, ControllerSnapshot,
    NvmeBlockError, NvmeNamespaceInfo, NvmeVersion,
};

fn sample_namespaces() -> Vec<NvmeNamespaceInfo> {
    vec![
        NvmeNamespaceInfo { ns_id: 1, num_sectors: 1_000_000, sector_size: 512 },
        NvmeNamespaceInfo { ns_id: 2, num_sectors: 500_000, sector_size: 4096 },
    ]
}

#[test]
fn nvme_version_display() {
    let v = NvmeVersion { major: 1, minor: 4, tertiary: 0 };
    assert_eq!(v.to_string(), "1.4.0");
}

#[test]
fn nvme_version_equality() {
    let v1 = NvmeVersion { major: 1, minor: 4, tertiary: 0 };
    let v2 = NvmeVersion { major: 1, minor: 4, tertiary: 0 };
    assert_eq!(v1, v2);
}

#[test]
fn namespace_info_capacity() {
    let ns = NvmeNamespaceInfo { ns_id: 1, num_sectors: 1000, sector_size: 512 };
    assert_eq!(ns.capacity_bytes(), 512_000);
}

#[test]
fn namespace_info_clone() {
    let ns = NvmeNamespaceInfo { ns_id: 1, num_sectors: 2048, sector_size: 4096 };
    let ns2 = ns.clone();
    assert_eq!(ns2.ns_id, 1);
    assert_eq!(ns2.capacity_bytes(), 2048 * 4096);
}

#[test]
fn controller_snapshot_struct() {
    let snap = ControllerSnapshot {
        sector_size: 4096,
        num_sectors: 1_000_000,
        max_queue_depth: 256,
        num_io_queues: 4,
        max_transfer_size: 131072,
        block_size: 4096,
        numa_node: 0,
        nvme_version: NvmeVersion { major: 1, minor: 4, tertiary: 0 },
    };
    let snap2 = snap.clone();
    assert_eq!(snap2.sector_size, 4096);
    assert_eq!(snap2.numa_node, 0);
}

#[test]
fn controller_snapshot_not_initialized() {
    let dev = BlockDeviceState::new();
    let err = dev.controller_snapshot().unwrap_err();
    assert!(matches!(err, NvmeBlockError::NotInitialized(_)));
}

#[test]
fn connect_client_not_initialized() {
    let mut dev = BlockDeviceState::new();
    let err = dev.connect_client().unwrap_err();
    assert!(matches!(err, NvmeBlockError::NotInitialized(_)));
}

#[test]
fn device_info_defaults_when_not_initialized() {
    let dev = BlockDeviceState::new();
    assert_eq!(dev.max_queue_depth(), 0);
    assert_eq!(dev.num_io_queues(), 0);
    assert_eq!(dev.max_transfer_size(), 0);
    assert_eq!(dev.block_size(), 512);
    assert_eq!(dev.numa_node(), -1);
    assert_eq!(dev.nvme_version(), "unknown");
}

#[test]
fn device_info_after_snapshot() {
    let mut dev = BlockDeviceState::new();
    dev.set_snapshot(ControllerSnapshot {
        sector_size: 512,
        num_sectors: 2000,
        max_queue_depth: 128,
        num_io_queues: 8,
        max_transfer_size: 131072,
        block_size: 512,
        numa_node: 1,
        nvme_version: NvmeVersion { major: 1, minor: 3, tertiary: 2 },
    });
    assert_eq!(dev.sector_size(1).unwrap(), 512);
    assert_eq!(dev.num_sectors(1).unwrap(), 2000);
    assert_eq!(dev.max_queue_depth(), 128);
    assert_eq!(dev.nvme_version(), "1.3.2");
    assert_eq!(dev.connect_client().unwrap(), 0);
    assert_eq!(dev.connect_client().unwrap(), 1);
}

#[test]
fn validate_ns_id_found() {
    let namespaces = sample_namespaces();
    let ns = validate_ns_id(&namespaces, 1).unwrap();
    assert_eq!(ns.ns_id, 1);
    assert_eq!(ns.num_sectors, 1_000_000);
}

#[test]
fn validate_ns_id_not_found() {
    let namespaces = sample_namespaces();
    let err = validate_ns_id(&namespaces, 99).unwrap_err();
    assert!(matches!(err, NvmeBlockError::InvalidNamespace(_)));
    match err {
        NvmeBlockError::InvalidNamespace(m) => {
            assert_eq!(m, "namespace 99 not found \u{2014} use NsProbe to discover available namespaces")
        }
        _ => unreachable!(),
    }
}

#[test]
fn validate_lba_range_ok() {
    let ns = NvmeNamespaceInfo { ns_id: 1, num_sectors: 1000, sector_size: 512 };
    assert!(validate_lba_range(&ns, 0, 1000).is_ok());
    assert!(validate_lba_range(&ns, 500, 500).is_ok());
    assert!(validate_lba_range(&ns, 0, 1).is_ok());
}

#[test]
fn validate_lba_range_out_of_bounds() {
    let ns = NvmeNamespaceInfo { ns_id: 1, num_sectors: 1000, sector_size: 512 };
    let err = validate_lba_range(&ns, 999, 2).unwrap_err();
    assert!(matches!(err, NvmeBlockError::LbaOutOfRange(_)));
    match err {
        NvmeBlockError::LbaOutOfRange(m) => {
            assert_eq!(m, "lba=999 + num_blocks=2 = 1001 exceeds namespace 1's sector count 1000")
        }
        _ => unreachable!(),
    }
}

#[test]
fn validate_lba_range_zero_blocks() {
    let ns = NvmeNamespaceInfo { ns_id: 1, num_sectors: 1000, sector_size: 512 };
    assert!(validate_lba_range(&ns, 999, 0).is_ok());
}

#[test]
fn to_namespace_info_conversion() {
    let internal = NvmeNamespaceInfo { ns_id: 1, num_sectors: 2048, sector_size: 4096 };
    let client_info = to_namespace_info(&internal);
    assert_eq!(client_info.ns_id, 1);
    assert_eq!(client_info.num_sectors, 2048);
    assert_eq!(client_info.sector_size, 4096);
}

#[test]
fn to_namespace_info_list_conversion() {
    let internals = sample_namespaces();
    let client_infos = to_namespace_info_list(&internals);
    assert_eq!(client_infos.len(), 2);
    assert_eq!(client_infos[0].ns_id, 1);
    assert_eq!(client_infos[1].ns_id, 2);
}

#[test]
fn device_info_before_initialize() {
    let dev = BlockDeviceState::new();
    assert_eq!(dev.max_queue_depth(), 0);
    assert_eq!(dev.num_io_queues(), 0);
    assert_eq!(dev.max_transfer_size(), 0);
    assert_eq!(dev.block_size(), 512);
    assert_eq!(dev.numa_node(), -1);
    assert_eq!(dev.nvme_version(), "unknown");
}

#[test]
fn connect_client_before_initialize_returns_error() {
    let mut dev = BlockDeviceState::new();
    assert!(dev.connect_client().is_err(), "connect_client should fail before initialize");
}

#[test]
fn sector_size_before_initialize_returns_error() {
    let dev = BlockDeviceState::new();
    assert!(dev.sector_size(1).is_err(), "sector_size should fail before initialize");
}

#[test]
fn initialize_needs_the_environment_wired() {
    assert!(check_env_connected(true).is_ok());
    match check_env_connected(false) {
        Err(NvmeBlockError::NotInitialized(m)) => {
            assert_eq!(m, "spdk_env receptacle not connected \u{2014} wire ISPDKEnv before calling initialize()")
        }
        other => panic!("unexpected {:?}", other),
    }
}
