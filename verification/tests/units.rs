//! Unit behaviour of the geometry, the cursors, the progress counters and
//! the error taxonomy.

use scrub::errors::ScanError;
use scrub::geometry::Geometry;
use scrub::progress::{rate, Progress};
use scrub::scan::{Chunk, ChunkCursor, ProbeOutcome, SectorCursor};

fn geometry_1000() -> Geometry {
    Geometry::from_queries(512_000, 512, 64).unwrap()
}

#[test]
fn geometry_from_queries() {
    let g = geometry_1000();
    assert_eq!(g.sectors, 1000);
    assert_eq!(g.sector_size, 512);
    assert_eq!(g.max_io_sectors, 64);
    assert_eq!(g.chunks(), 16);
}

#[test]
fn geometry_rejects_non_positive_queries() {
    assert_eq!(
        Geometry::from_queries(0, 512, 64).unwrap_err(),
        ScanError::GeometryQueryFailure
    );
    assert_eq!(
        Geometry::from_queries(512_000, 0, 64).unwrap_err(),
        ScanError::GeometryQueryFailure
    );
    assert_eq!(
        Geometry::from_queries(512_000, 512, 0).unwrap_err(),
        ScanError::GeometryQueryFailure
    );
}

#[test]
fn chunk_count_rounds_up() {
    let g = Geometry::from_queries(100 * 512, 512, 64).unwrap();
    assert_eq!(g.chunks(), 2);
    let exact = Geometry::from_queries(128 * 512, 512, 64).unwrap();
    assert_eq!(exact.chunks(), 2);
    let one = Geometry::from_queries(512, 512, 64).unwrap();
    assert_eq!(one.chunks(), 1);
}

#[test]
fn sectors_of_len_checks_alignment() {
    let g = geometry_1000();
    assert_eq!(g.sectors_of_len(1024).unwrap(), 2);
    assert_eq!(g.sectors_of_len(0).unwrap(), 0);
    assert_eq!(
        g.sectors_of_len(1000).unwrap_err(),
        ScanError::InvariantViolation
    );
}

#[test]
fn byte_range_scales_by_sector_size() {
    let g = geometry_1000();
    assert_eq!(g.byte_range(448, 64), (448 * 512, 64 * 512));
    assert_eq!(g.byte_range(0, 1), (0, 512));
}

#[test]
fn block_size_consistency() {
    let g = geometry_1000();
    assert!(!g.block_size_needs_update(512));
    assert!(g.block_size_needs_update(4096));
    assert!(g.confirm_block_size(512).is_ok());
    assert_eq!(
        g.confirm_block_size(4096).unwrap_err(),
        ScanError::InvariantViolation
    );
}

#[test]
fn only_medium_errors_are_recoverable() {
    assert!(!ScanError::MediumError.is_fatal());
    assert!(ScanError::NotABlockDevice.is_fatal());
    assert!(ScanError::GeometryQueryFailure.is_fatal());
    assert!(ScanError::OtherIoFailure.is_fatal());
    assert!(ScanError::InvariantViolation.is_fatal());
    assert!(!ScanError::MediumError.describe().is_empty());
}

#[test]
fn chunk_cursor_classifies_probes() {
    let g = geometry_1000();
    let mut cur = ChunkCursor::new();
    assert_eq!(cur.next, 0);
    assert_eq!(cur.remaining(&g), 16);

    let c = cur.step(&g, ProbeOutcome::Data(64)).unwrap();
    assert_eq!(
        c,
        Chunk {
            index: 0,
            count: 64,
            valid: true
        }
    );
    assert_eq!(cur.next, 64);

    let c = cur.step(&g, ProbeOutcome::MediumError).unwrap();
    assert_eq!(
        c,
        Chunk {
            index: 64,
            count: 64,
            valid: false
        }
    );
    assert_eq!(cur.next, 128);

    assert!(cur.step(&g, ProbeOutcome::Data(0)).is_none());
    assert_eq!(cur.next, 128);
}

#[test]
fn short_read_emits_a_valid_chunk() {
    let g = Geometry::from_queries(100 * 512, 512, 64).unwrap();
    let mut cur = ChunkCursor::new();
    cur.step(&g, ProbeOutcome::Data(64)).unwrap();
    let c = cur.step(&g, ProbeOutcome::Data(36)).unwrap();
    assert!(c.valid);
    assert_eq!(c.index, 64);
    assert_eq!(c.count, 36);
    assert_eq!(cur.next, 100);
    assert_eq!(cur.remaining(&g), 0);
}

#[test]
fn sector_cursor_isolates_faults() {
    let g = geometry_1000();
    let chunk = Chunk {
        index: 448,
        count: 64,
        valid: false,
    };
    let mut cur = SectorCursor::new(chunk);
    assert!(!cur.exhausted());
    assert_eq!(cur.absolute(&g), 448);
    assert_eq!(cur.remaining(&g), 64);

    let s = cur.step(&g, ProbeOutcome::Data(1)).unwrap();
    assert!(s.valid);
    assert_eq!(s.index, 448);

    let s = cur.step(&g, ProbeOutcome::MediumError).unwrap();
    assert!(!s.valid);
    assert_eq!(s.index, 449);
    assert_eq!(cur.absolute(&g), 450);

    assert!(cur.step(&g, ProbeOutcome::Data(0)).is_none());
}

#[test]
fn sector_cursor_clips_against_device_end() {
    let g = Geometry::from_queries(100 * 512, 512, 64).unwrap();
    let chunk = Chunk {
        index: 64,
        count: 64,
        valid: false,
    };
    let cur = SectorCursor::new(chunk);
    // only 36 of the 64 nominal sectors exist
    assert_eq!(cur.remaining(&g), 36);
}

#[test]
fn progress_counters_accumulate() {
    let mut p = Progress::new();
    assert_eq!(p.total, 0);
    assert_eq!(p.error, 0);
    p.add_chunk(64);
    p.add_chunk(36);
    p.add_error();
    assert_eq!(p.total, 100);
    assert_eq!(p.error, 1);
}

#[test]
fn render_debounce() {
    let mut p = Progress::new();
    assert!(p.should_render(0));
    p.mark_rendered(100);
    assert!(!p.should_render(100));
    assert!(!p.should_render(149));
    assert!(p.should_render(150));
    assert!(p.should_render(10_000));
}

#[test]
fn rate_is_bytes_per_second_since_start() {
    assert_eq!(rate(512_000, 2000), 256_000);
    assert_eq!(rate(512_000, 1000), 512_000);
    // a zero elapsed time is read as one millisecond
    assert_eq!(rate(1000, 0), 1_000_000);
    assert_eq!(rate(0, 5000), 0);
}

#[test]
fn display_stats_quantities() {
    let g = geometry_1000();
    let mut p = Progress::new();
    p.add_chunk(64);
    p.add_chunk(64);
    for _ in 0..3 {
        p.add_error();
    }
    // 128 of 1000 sectors after one second
    let s = p.display_stats(&g, 0, 1000);
    assert_eq!(s.percent, 12);
    assert_eq!(s.bytes_done, 128 * 512);
    assert_eq!(s.bytes_total, 512_000);
    assert_eq!(s.rate, 128 * 512);
    assert_eq!(s.errors, 3);
}
