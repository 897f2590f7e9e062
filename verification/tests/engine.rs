//! Whole-scan behaviour on the in-memory device model.

use scrub::errors::ScanError;
use scrub::sim::{run_scan, DeviceEvent, SectorHealth, SimDevice};

fn device(n: usize, bad: &[u64], max_io: u16, writable: bool) -> SimDevice {
    let mut media = Vec::new();
    for _ in 0..n {
        media.push(SectorHealth::Readable);
    }
    for &b in bad {
        media[b as usize] = SectorHealth::Unreadable;
    }
    SimDevice::new(media, 512, max_io, writable).unwrap()
}

fn write_count(dev: &SimDevice) -> usize {
    dev.log
        .iter()
        .filter(|e| matches!(e, DeviceEvent::Write(_)))
        .count()
}

#[test]
fn sixteen_chunk_steps_no_faults() {
    // 1000 sectors of 512 bytes, 64 sectors per batch, no faults.
    let mut dev = device(1000, &[], 64, true);
    let report = run_scan(&mut dev);
    assert_eq!(report.chunks.len(), 16);
    for (k, c) in report.chunks.iter().enumerate() {
        assert_eq!(c.index, k as u64 * 64);
        assert!(c.valid);
    }
    let last = report.chunks.last().unwrap();
    assert_eq!(last.index, 960);
    assert_eq!(last.count, 40);
    assert_eq!(report.total, 1000);
    assert_eq!(report.errors, 0);
    assert!(report.bad.is_empty());
    assert_eq!(write_count(&dev), 0);
    assert_eq!(dev.log, vec![DeviceEvent::Sync]);
}

#[test]
fn single_bad_sector_isolated_and_repaired() {
    // Sector 500 unreadable: chunk 7 (sectors 448..512) is reported faulty,
    // the fallback flags only sector 500, the repair zero-writes it, and the
    // flush covers the chunk's full range.
    let mut dev = device(1000, &[500], 64, true);
    let report = run_scan(&mut dev);
    assert_eq!(report.chunks.len(), 16);
    assert!(!report.chunks[7].valid);
    assert_eq!(report.chunks[7].index, 448);
    assert_eq!(report.chunks[7].count, 64);
    for (k, c) in report.chunks.iter().enumerate() {
        assert_eq!(c.valid, k != 7);
    }
    assert_eq!(report.errors, 1);
    assert_eq!(report.bad, vec![500]);
    assert_eq!(report.total, 1000);
    assert_eq!(dev.media[500], SectorHealth::Zeroed);
    let w = dev
        .log
        .iter()
        .position(|e| *e == DeviceEvent::Write(500))
        .unwrap();
    let f = dev
        .log
        .iter()
        .position(|e| *e == DeviceEvent::Flush(448, 64))
        .unwrap();
    assert!(w < f);
    assert_eq!(write_count(&dev), 1);
    assert_eq!(*dev.log.last().unwrap(), DeviceEvent::Sync);
}

#[test]
fn dry_run_detects_without_writing() {
    // Dry run of the single-bad-sector device: the sector is reported and
    // enumerated, zero writes are performed, and nothing is issued at all.
    let mut dev = device(1000, &[500], 64, false);
    let report = run_scan(&mut dev);
    assert_eq!(report.errors, 1);
    assert_eq!(report.bad, vec![500]);
    assert_eq!(write_count(&dev), 0);
    assert!(dev.log.is_empty());
    assert_eq!(dev.media[500], SectorHealth::Unreadable);
}

#[test]
fn dry_run_is_stable_across_passes() {
    let mut dev = device(300, &[5, 17, 200], 64, false);
    let first = run_scan(&mut dev);
    let second = run_scan(&mut dev);
    assert_eq!(first.errors, 3);
    assert_eq!(second.errors, 3);
    assert_eq!(first.bad, vec![5, 17, 200]);
    assert_eq!(second.bad, vec![5, 17, 200]);
    assert_eq!(write_count(&dev), 0);
    assert!(dev.log.is_empty());
}

#[test]
fn short_final_read_is_valid() {
    // 100 sectors with 64-sector batches: the second probe returns only 36
    // sectors — end-of-device truncation, not corruption.
    let mut dev = device(100, &[], 64, true);
    let report = run_scan(&mut dev);
    assert_eq!(report.chunks.len(), 2);
    assert_eq!(report.chunks[0].index, 0);
    assert_eq!(report.chunks[0].count, 64);
    assert!(report.chunks[0].valid);
    assert_eq!(report.chunks[1].index, 64);
    assert_eq!(report.chunks[1].count, 36);
    assert!(report.chunks[1].valid);
    assert_eq!(report.total, 100);
    assert_eq!(report.errors, 0);
}

#[test]
fn fault_free_scan_twice_writes_nothing() {
    let mut dev = device(1000, &[], 64, true);
    let first = run_scan(&mut dev);
    let second = run_scan(&mut dev);
    assert_eq!(first.errors, 0);
    assert_eq!(second.errors, 0);
    assert_eq!(write_count(&dev), 0);
    assert_eq!(dev.log, vec![DeviceEvent::Sync, DeviceEvent::Sync]);
}

#[test]
fn repair_converges_on_second_pass() {
    let mut dev = device(1000, &[10, 700], 64, true);
    let first = run_scan(&mut dev);
    assert_eq!(first.errors, 2);
    assert_eq!(first.bad, vec![10, 700]);
    assert_eq!(write_count(&dev), 2);
    assert_eq!(dev.media[10], SectorHealth::Zeroed);
    assert_eq!(dev.media[700], SectorHealth::Zeroed);
    let writes_after_first = write_count(&dev);
    let second = run_scan(&mut dev);
    assert_eq!(second.errors, 0);
    assert!(second.bad.is_empty());
    assert!(second.chunks.iter().all(|c| c.valid));
    assert_eq!(write_count(&dev), writes_after_first);
}

#[test]
fn faulty_final_chunk_pads_the_total() {
    // A fault in the truncated final chunk: the chunk is accounted at its
    // nominal width, so the total overshoots the device end by one batch.
    let mut dev = device(100, &[99], 64, true);
    let report = run_scan(&mut dev);
    assert_eq!(report.chunks.len(), 2);
    assert!(!report.chunks[1].valid);
    assert_eq!(report.chunks[1].count, 64);
    assert_eq!(report.total, 128);
    assert_eq!(report.bad, vec![99]);
    assert_eq!(dev.media[99], SectorHealth::Zeroed);
    let f = dev
        .log
        .iter()
        .position(|e| *e == DeviceEvent::Flush(64, 64))
        .unwrap();
    let w = dev
        .log
        .iter()
        .position(|e| *e == DeviceEvent::Write(99))
        .unwrap();
    assert!(w < f);
}

#[test]
fn adjacent_bad_sectors_written_in_order() {
    let mut dev = device(10, &[4, 5], 4, true);
    let report = run_scan(&mut dev);
    assert_eq!(report.errors, 2);
    assert_eq!(report.bad, vec![4, 5]);
    let writes: Vec<u64> = dev
        .log
        .iter()
        .filter_map(|e| match e {
            DeviceEvent::Write(s) => Some(*s),
            _ => None,
        })
        .collect();
    assert_eq!(writes, vec![4, 5]);
}

#[test]
fn every_sector_bad_is_fully_repaired() {
    let mut dev = device(4, &[0, 1, 2, 3], 2, true);
    let report = run_scan(&mut dev);
    assert_eq!(report.chunks.len(), 2);
    assert_eq!(report.errors, 4);
    assert_eq!(report.bad, vec![0, 1, 2, 3]);
    assert_eq!(report.total, 4);
    assert!(dev.media.iter().all(|h| *h == SectorHealth::Zeroed));
    let second = run_scan(&mut dev);
    assert_eq!(second.errors, 0);
}

#[test]
fn exact_multiple_needs_no_short_chunk() {
    let mut dev = device(128, &[], 64, true);
    let report = run_scan(&mut dev);
    assert_eq!(report.chunks.len(), 2);
    assert_eq!(report.chunks[1].count, 64);
    assert_eq!(report.total, 128);
}

#[test]
fn single_sector_device() {
    let mut dev = device(1, &[0], 64, true);
    let report = run_scan(&mut dev);
    assert_eq!(report.chunks.len(), 1);
    assert!(!report.chunks[0].valid);
    assert_eq!(report.errors, 1);
    assert_eq!(report.bad, vec![0]);
    assert_eq!(dev.media[0], SectorHealth::Zeroed);
}

#[test]
fn chunk_count_matches_scan_steps() {
    for n in [1usize, 63, 64, 65, 100, 128, 1000] {
        let mut dev = device(n, &[], 64, false);
        let g = dev.geometry;
        let report = run_scan(&mut dev);
        assert_eq!(report.chunks.len() as u64, g.chunks());
    }
}

#[test]
fn model_device_rejects_bad_geometry() {
    assert!(matches!(
        SimDevice::new(Vec::new(), 512, 64, true),
        Err(ScanError::GeometryQueryFailure)
    ));
    let media = vec![SectorHealth::Readable; 4];
    assert!(matches!(
        SimDevice::new(media.clone(), 0, 64, true),
        Err(ScanError::GeometryQueryFailure)
    ));
    assert!(matches!(
        SimDevice::new(media, 512, 0, true),
        Err(ScanError::GeometryQueryFailure)
    ));
}
