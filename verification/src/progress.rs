//! Progress accounting: the counters the driver mutates as it consumes
//! chunks and sectors, the derived display quantities, and the render
//! debounce. Clock readings reach the library as milliseconds; rendering
//! itself (line formatting, terminal control) is the caller's business.

use vstd::prelude::*;
use crate::geometry::Geometry;

verus! {

/// Minimum quiet time between two progress renders, in milliseconds.
pub const RENDER_INTERVAL_MILLIS: u64 = 50;

/// Throughput as an average since scan start: bytes scaled to one second,
/// with a zero elapsed time read as one millisecond.
pub open spec fn rate_of(bytes: int, elapsed_millis: int) -> int {
    bytes * 1000 / (if elapsed_millis <= 0 { 1int } else { elapsed_millis })
}

/// Scan counters. Mutated only by the driver as it consumes chunks and
/// sectors; `total` accumulates every emitted chunk's count and `error`
/// every invalid sector.
pub struct Progress {
    /// Sectors accounted so far.
    pub total: u64,
    /// Invalid sectors found so far.
    pub error: u64,
    /// Time of the previous render, in milliseconds, if one happened.
    pub last: Option<u64>,
}

/// The quantities one progress line displays.
pub struct DisplayStats {
    /// Whole percent of the device accounted: `floor(total * 100 / sectors)`.
    pub percent: u64,
    /// Bytes accounted so far.
    pub bytes_done: u64,
    /// Total bytes of the device.
    pub bytes_total: u64,
    /// Average throughput since scan start, in bytes per second.
    pub rate: u64,
    /// Invalid sectors found so far.
    pub errors: u64,
}

impl Progress {
    /// Fresh counters at scan start.
    pub fn new() -> (p: Self)
        ensures
            p.total == 0,
            p.error == 0,
            p.last is None,
    {
        Progress { total: 0, error: 0, last: None }
    }

    /// Account one emitted chunk.
    pub fn add_chunk(&mut self, count: u16)
        requires
            old(self).total + count <= u64::MAX,
        ensures
            final(self).total == old(self).total + count,
            final(self).error == old(self).error,
            final(self).last == old(self).last,
    {
        self.total = self.total + count as u64;
    }

    /// Account one invalid sector.
    pub fn add_error(&mut self)
        requires
            old(self).error + 1 <= u64::MAX,
        ensures
            final(self).error == old(self).error + 1,
            final(self).total == old(self).total,
            final(self).last == old(self).last,
    {
        self.error = self.error + 1;
    }

    /// Whether to render now: unconditionally on the first observation,
    /// afterwards only once the debounce interval has elapsed since the
    /// previous render. The clock is monotonic, so a recorded render never
    /// lies in the future.
    pub fn should_render(&self, now_millis: u64) -> (r: bool)
        requires
            self.last matches Some(l) ==> l <= now_millis,
        ensures
            r == match self.last {
                Option::None => true,
                Option::Some(l) => now_millis - l >= RENDER_INTERVAL_MILLIS,
            },
    {
        match self.last {
            Option::None => true,
            Option::Some(l) => now_millis - l >= RENDER_INTERVAL_MILLIS,
        }
    }

    /// Record that a render happened now.
    pub fn mark_rendered(&mut self, now_millis: u64)
        ensures
            final(self).last == Some(now_millis),
            final(self).total == old(self).total,
            final(self).error == old(self).error,
    {
        self.last = Some(now_millis);
    }

    /// The displayed quantities, per the rendering rules: whole percent of
    /// sectors accounted, bytes so far against total bytes, and the average
    /// throughput since scan start. `total` never exceeds the device by more
    /// than one nominal batch (the overshoot of a faulty final chunk), and
    /// the byte total and the rate must fit the displayed word size.
    pub fn display_stats(&self, g: &Geometry, start_millis: u64, now_millis: u64)
        -> (s: DisplayStats)
        requires
            g.wf(),
            self.total <= g.sectors + g.max_io_sectors,
            self.total * g.sector_size <= u64::MAX,
            start_millis <= now_millis,
            rate_of(self.total * g.sector_size, now_millis - start_millis) <= u64::MAX,
        ensures
            s.percent == self.total as int * 100 / g.sectors as int,
            s.bytes_done == self.total * g.sector_size,
            s.bytes_total == g.sectors * g.sector_size,
            s.rate == rate_of(self.total * g.sector_size, now_millis - start_millis),
            s.errors == self.error,
    {
        proof {
            lemma_percent_bounded(self.total as int, g.sectors as int,
                g.max_io_sectors as int);
        }
        let percent128 = self.total as u128 * 100 / g.sectors as u128;
        let bytes_done = self.total * g.sector_size;
        let elapsed = now_millis - start_millis;
        DisplayStats {
            percent: percent128 as u64,
            bytes_done,
            bytes_total: g.sectors * g.sector_size,
            rate: rate(bytes_done, elapsed),
            errors: self.error,
        }
    }
}

/// Throughput for display: `bytes` scaled to one second over the elapsed
/// milliseconds since scan start, an average-since-start rate.
pub fn rate(bytes: u64, elapsed_millis: u64) -> (r: u64)
    requires
        rate_of(bytes as int, elapsed_millis as int) <= u64::MAX,
    ensures
        r == rate_of(bytes as int, elapsed_millis as int),
{
    let denom: u128 = if elapsed_millis == 0 { 1 } else { elapsed_millis as u128 };
    let r128: u128 = bytes as u128 * 1000 / denom;
    proof {
        vstd::arithmetic::div_mod::lemma_div_pos_is_pos(
            bytes as int * 1000, denom as int);
    }
    r128 as u64
}

/// With the accounted total at most one batch past the device end, the
/// displayed percentage fits comfortably in a machine word.
proof fn lemma_percent_bounded(total: int, sectors: int, max_io: int)
    requires
        sectors >= 1,
        1 <= max_io <= u16::MAX,
        0 <= total <= sectors + max_io,
    ensures
        0 <= total * 100 / sectors <= u64::MAX,
{
    vstd::arithmetic::div_mod::lemma_div_pos_is_pos(total * 100, sectors);
    vstd::arithmetic::mul::lemma_mul_inequality(total, sectors + max_io, 100);
    vstd::arithmetic::mul::lemma_mul_is_distributive_add_other_way(
        100, sectors, max_io);
    vstd::arithmetic::div_mod::lemma_div_is_ordered(
        total * 100, sectors * 100 + max_io * 100, sectors);
    vstd::arithmetic::div_mod::lemma_hoist_over_denominator(
        max_io * 100, 100, sectors as nat);
    vstd::arithmetic::div_mod::lemma_div_is_ordered_by_denominator(
        max_io * 100, 1, sectors);
    vstd::arithmetic::div_mod::lemma_div_basics_2(max_io * 100);
}

} // verus!
