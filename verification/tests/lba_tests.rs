use certus::multidev::lba::{LbaGenerator, RandomLba, SequentialLba};

#[test]
fn random_lba_in_range() {
    let mut gen = RandomLba::new(1_000_000, 8);
    for _ in 0..1000 {
        let lba = gen.next_lba(8);
        assert!(lba < 1_000_000 - 8);
    }
}

#[test]
fn sequential_lba_contiguous() {
    let mut gen = SequentialLba::new(0, 1, 1000, 8);
    let first = gen.next_lba(8);
    let second = gen.next_lba(8);
    assert_eq!(first, 0);
    assert_eq!(second, 8);
}

#[test]
fn sequential_lba_wraps() {
    let mut gen = SequentialLba::new(0, 1, 100, 8);
    let mut last = 0;
    for _ in 0..20 {
        let lba = gen.next_lba(8);
        if lba < last {
            assert_eq!(lba, 0);
            return;
        }
        last = lba;
    }
    panic!("sequential LBA did not wrap within expected iterations");
}

#[test]
fn sequential_lba_non_overlapping_threads() {
    let total_sectors = 10000;
    let blocks_per_io = 8;
    let num_threads = 4;

    let mut generators: Vec<SequentialLba> =
        (0..num_threads).map(|i| SequentialLba::new(i, num_threads, total_sectors, blocks_per_io)).collect();

    let lbas: Vec<u64> = generators.iter_mut().map(|g| g.next_lba(blocks_per_io)).collect();

    let region_size = total_sectors / num_threads as u64;
    for (i, &lba) in lbas.iter().enumerate() {
        assert_eq!(lba, i as u64 * region_size);
    }

    let lbas2: Vec<u64> = generators.iter_mut().map(|g| g.next_lba(blocks_per_io)).collect();
    for (i, &lba) in lbas2.iter().enumerate() {
        let region_start = i as u64 * region_size;
        let region_end = if i as u32 == num_threads - 1 {
            total_sectors - blocks_per_io
        } else {
            region_start + region_size - blocks_per_io
        };
        assert!(
            lba >= region_start && lba <= region_end,
            "thread {} lba {} outside region {}..{}",
            i,
            lba,
            region_start,
            region_end
        );
    }
}

#[test]
fn sequential_lba_returns_to_region_start() {
    // Region of thread 1 of 2 over 100 sectors: 50..=92 for 8-sector IOs.
    let mut gen = SequentialLba::new(1, 2, 100, 8);
    let got: Vec<u64> = (0..7).map(|_| gen.next_lba(8)).collect();
    assert_eq!(got, vec![50, 58, 66, 74, 82, 90, 50]);
}

#[test]
fn sequential_calls_stay_in_region() {
    let mut g = SequentialLba::new(1, 2, 100, 8);
    let mut seen = Vec::new();
    for _ in 0..12 {
        seen.push(g.next_lba(8));
    }
    assert_eq!(seen, vec![50, 58, 66, 74, 82, 90, 50, 58, 66, 74, 82, 90]);
    for a in seen {
        assert!(a >= 50 && a + 8 <= 100);
    }
}
