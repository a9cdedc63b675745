use certus::segment::{segment_io, IoSegment};

#[test]
fn single_segment_within_limit() {
    let segs = segment_io(0, 4096, 131072, 4096);
    assert_eq!(segs.len(), 1);
    assert_eq!(segs[0], IoSegment { buffer_offset: 0, lba: 0, length: 4096 });
}

#[test]
fn exact_mdts_boundary() {
    let segs = segment_io(0, 131072, 131072, 4096);
    assert_eq!(segs.len(), 1);
    assert_eq!(segs[0].length, 131072);
}

#[test]
fn splits_across_mdts() {
    let segs = segment_io(0, 256 * 1024, 131072, 4096);
    assert_eq!(segs.len(), 2);
    assert_eq!(segs[0].length, 131072);
    assert_eq!(segs[0].buffer_offset, 0);
    assert_eq!(segs[0].lba, 0);
    assert_eq!(segs[1].length, 131072);
    assert_eq!(segs[1].buffer_offset, 131072);
    assert_eq!(segs[1].lba, 32);
}

#[test]
fn uneven_split() {
    let segs = segment_io(10, 200 * 1024, 131072, 4096);
    assert_eq!(segs.len(), 2);
    assert_eq!(segs[0].length, 131072);
    assert_eq!(segs[0].lba, 10);
    assert_eq!(segs[1].length, 200 * 1024 - 131072);
    assert_eq!(segs[1].lba, 10 + 32);
}

#[test]
fn zero_bytes_returns_empty() {
    let segs = segment_io(0, 0, 131072, 4096);
    assert!(segs.is_empty());
}

#[test]
fn many_segments() {
    let segs = segment_io(0, 1024 * 1024, 131072, 4096);
    assert_eq!(segs.len(), 8);
    for (i, seg) in segs.iter().enumerate() {
        assert_eq!(seg.buffer_offset, i * 131072);
        assert_eq!(seg.lba, (i * 32) as u64);
        assert_eq!(seg.length, 131072);
    }
}

#[test]
fn non_zero_start_lba() {
    let segs = segment_io(100, 4096, 131072, 4096);
    assert_eq!(segs.len(), 1);
    assert_eq!(segs[0].lba, 100);
}

#[test]
fn segments_tile_the_buffer() {
    let segs = segment_io(7, 1000, 300, 100);
    let lens: Vec<usize> = segs.iter().map(|s| s.length).collect();
    assert_eq!(lens, vec![300, 300, 300, 100]);
    let lbas: Vec<u64> = segs.iter().map(|s| s.lba).collect();
    assert_eq!(lbas, vec![7, 10, 13, 16]);
}

#[test]
fn segments_near_the_top_block_address() {
    let segs = segment_io(u64::MAX - 1, 4, 3, 2);
    assert_eq!(
        segs,
        vec![
            IoSegment { buffer_offset: 0, lba: u64::MAX - 1, length: 3 },
            IoSegment { buffer_offset: 3, lba: u64::MAX, length: 1 },
        ]
    );
}
