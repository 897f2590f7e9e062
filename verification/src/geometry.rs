//! Device geometry: validated sector counts and the chunk arithmetic that
//! drives the scan.

use vstd::prelude::*;
use vstd::arithmetic::div_mod::{lemma_div_plus_one, lemma_basic_div, lemma_div_pos_is_pos};
use crate::errors::ScanError;

verus! {

/// The validated geometry of an open block device.
///
/// `sectors * sector_size` is the true device byte size, queried from the
/// device itself rather than from file metadata. `max_io_sectors` is the
/// largest single I/O the controller accepts.
#[derive(Clone, Copy, Debug, PartialEq, Eq, Structural)]
pub struct Geometry {
    /// Total number of logical sectors.
    pub sectors: u64,
    /// Bytes per logical sector.
    pub sector_size: u64,
    /// Largest single I/O, in sectors.
    pub max_io_sectors: u16,
}

impl Geometry {
    /// Well-formedness: every queried quantity is positive, the byte size
    /// fits the machine word, and a chunk cursor can overshoot the device end
    /// by one batch without overflowing.
    pub open spec fn wf(&self) -> bool {
        &&& self.sectors >= 1
        &&& self.sector_size >= 1
        &&& self.max_io_sectors >= 1
        &&& self.sectors * self.sector_size <= u64::MAX
        &&& self.max_io_sectors * self.sector_size <= u64::MAX
        &&& self.sectors + self.max_io_sectors <= u64::MAX
    }

    /// Build a geometry from the raw values of the four device-control
    /// queries. Every query must have returned a positive value and the byte
    /// size must fit the cursor arithmetic, otherwise the open fails with
    /// `GeometryQueryFailure`. A byte size that is not a whole multiple of
    /// the sector size is a fatal precondition violation, so the caller must
    /// rule it out before calling.
    pub fn from_queries(size_bytes: u64, sector_size: u64, max_io_sectors: u16)
        -> (r: Result<Geometry, ScanError>)
        requires
            sector_size > 0 ==> size_bytes % sector_size == 0,
        ensures
            r is Ok <==> {
                &&& size_bytes > 0
                &&& sector_size > 0
                &&& max_io_sectors > 0
                &&& size_bytes / sector_size + max_io_sectors <= u64::MAX
                &&& max_io_sectors * sector_size <= u64::MAX
            },
            r matches Ok(g) ==> {
                &&& g.sectors == size_bytes / sector_size
                &&& g.sector_size == sector_size
                &&& g.max_io_sectors == max_io_sectors
                &&& g.wf()
            },
            r matches Err(e) ==> e == ScanError::GeometryQueryFailure,
    {
        if size_bytes == 0 || sector_size == 0 || max_io_sectors == 0 {
            return Err(ScanError::GeometryQueryFailure);
        }
        let sectors = size_bytes / sector_size;
        if sectors > u64::MAX - max_io_sectors as u64 {
            return Err(ScanError::GeometryQueryFailure);
        }
        let cap = u64::MAX / max_io_sectors as u64;
        proof {
            let mio = max_io_sectors as int;
            vstd::arithmetic::div_mod::lemma_fundamental_div_mod(u64::MAX as int, mio);
            vstd::arithmetic::div_mod::lemma_mod_division_less_than_divisor(
                u64::MAX as int, mio);
            if sector_size as int > cap as int {
                vstd::arithmetic::mul::lemma_mul_inequality(
                    cap as int + 1, sector_size as int, mio);
                vstd::arithmetic::mul::lemma_mul_is_distributive_add_other_way(
                    mio, cap as int, 1);
            } else {
                vstd::arithmetic::mul::lemma_mul_inequality(
                    sector_size as int, cap as int, mio);
            }
        }
        if sector_size > cap {
            return Err(ScanError::GeometryQueryFailure);
        }
        proof {
            lemma_div_pos_is_pos(size_bytes as int, sector_size as int);
            vstd::arithmetic::div_mod::lemma_fundamental_div_mod(
                size_bytes as int, sector_size as int);
            assert(size_bytes as int == sector_size as int * (sectors as int));
            vstd::arithmetic::mul::lemma_mul_is_commutative(
                sector_size as int, sectors as int);
            vstd::arithmetic::mul::lemma_mul_is_commutative(
                max_io_sectors as int, sector_size as int);
            if sectors == 0 {
                vstd::arithmetic::mul::lemma_mul_by_zero_is_zero(sector_size as int);
            }
        }
        Ok(Geometry { sectors, sector_size, max_io_sectors })
    }

    /// Number of chunk steps a scan of this device takes.
    pub fn chunks(&self) -> (r: u64)
        requires
            self.wf(),
        ensures
            r == chunk_count(self.sectors as int, self.max_io_sectors as int),
    {
        let m = self.max_io_sectors as u64;
        let r = (self.sectors + (m - 1)) / m;
        proof {
            lemma_chunk_count_is_div_ceil(self.sectors as int, m as int);
        }
        r
    }

    /// The byte range of a run of `count` sectors starting at `offset`,
    /// for a range-scoped durability request. The whole run must lie inside
    /// the cursor's reach and the start must fit a signed byte offset, since
    /// the flush system call takes one.
    pub fn byte_range(&self, offset: u64, count: u16) -> (r: (u64, u64))
        requires
            self.wf(),
            offset <= self.sectors,
            count <= self.max_io_sectors,
            offset * self.sector_size <= i64::MAX,
        ensures
            r.0 == offset * self.sector_size,
            r.1 == count * self.sector_size,
            r.1 <= u64::MAX,
    {
        proof {
            vstd::arithmetic::mul::lemma_mul_inequality(
                offset as int, self.sectors as int, self.sector_size as int);
            vstd::arithmetic::mul::lemma_mul_inequality(
                count as int, self.max_io_sectors as int, self.sector_size as int);
        }
        (offset * self.sector_size, count as u64 * self.sector_size)
    }

    /// How many whole sectors a read of `len` bytes covered. A length that
    /// is not a whole multiple of the sector size indicates a device or
    /// transport bug and is surfaced as an invariant violation.
    pub fn sectors_of_len(&self, len: u64) -> (r: Result<u16, ScanError>)
        requires
            self.wf(),
            len <= self.max_io_sectors * self.sector_size,
        ensures
            r is Ok <==> len % self.sector_size == 0,
            r matches Ok(n) ==> n == len / self.sector_size,
            r matches Err(e) ==> e == ScanError::InvariantViolation,
    {
        if len % self.sector_size != 0 {
            return Err(ScanError::InvariantViolation);
        }
        let n = len / self.sector_size;
        proof {
            vstd::arithmetic::div_mod::lemma_div_is_ordered(
                len as int, self.max_io_sectors * self.sector_size, self.sector_size as int);
            vstd::arithmetic::div_mod::lemma_div_by_multiple(
                self.max_io_sectors as int, self.sector_size as int);
        }
        Ok(n as u16)
    }

    /// Whether the physical block size must be updated to match the logical
    /// sector size before scanning (avoids read-modify-write penalties).
    pub fn block_size_needs_update(&self, physical: u64) -> (r: bool)
        ensures
            r == (physical != self.sector_size),
    {
        physical != self.sector_size
    }

    /// Check that a handle observes the expected physical block size after
    /// an update. A handle that does not is a fatal consistency failure.
    pub fn confirm_block_size(&self, observed: u64) -> (r: Result<(), ScanError>)
        ensures
            r is Ok <==> observed == self.sector_size,
            r matches Err(e) ==> e == ScanError::InvariantViolation,
    {
        if observed == self.sector_size {
            Ok(())
        } else {
            Err(ScanError::InvariantViolation)
        }
    }
}

/// The number of maximal batches of `m` sectors needed to cover `n` sectors:
/// the ceiling of `n / m`.
pub open spec fn chunk_count(n: int, m: int) -> int
    recommends
        m >= 1,
    decreases n when m >= 1
{
    if m < 1 || n <= 0 {
        0
    } else if n <= m {
        1
    } else {
        1 + chunk_count(n - m, m)
    }
}

/// `chunk_count` computes the rounded-up quotient.
pub proof fn lemma_chunk_count_is_div_ceil(n: int, m: int)
    requires
        n >= 0,
        m >= 1,
    ensures
        chunk_count(n, m) == (n + m - 1) / m,
    decreases n,
{
    if n == 0 {
        lemma_basic_div(m - 1, m);
    } else if n <= m {
        lemma_div_plus_one(n - 1, m);
        lemma_basic_div(n - 1, m);
    } else {
        lemma_chunk_count_is_div_ceil(n - m, m);
        lemma_div_plus_one(n - m + m - 1, m);
    }
}

/// A chunk count is never negative.
pub proof fn lemma_chunk_count_nonneg(n: int, m: int)
    requires
        m >= 1,
    ensures
        chunk_count(n, m) >= 0,
    decreases (if n <= 0 { 0int } else { n }),
{
    if n > m {
        lemma_chunk_count_nonneg(n - m, m);
    }
}

/// A positive device needs at least one chunk.
pub proof fn lemma_chunk_count_pos(n: int, m: int)
    requires
        n >= 1,
        m >= 1,
    ensures
        chunk_count(n, m) >= 1,
{
    if n > m {
        lemma_chunk_count_nonneg(n - m, m);
    }
}

/// `k` batches that reach the device end need no further chunk.
pub proof fn lemma_chunk_count_le(n: int, m: int, k: int)
    requires
        m >= 1,
        k >= 0,
        k * m >= n,
    ensures
        chunk_count(n, m) <= k,
    decreases (if n <= 0 { 0int } else { n }),
{
    if n <= 0 {
    } else if n <= m {
        if k == 0 {
            assert(0 * m == 0) by (nonlinear_arith);
            assert(false);
        }
    } else {
        if k == 0 {
            assert(0 * m == 0) by (nonlinear_arith);
            assert(false);
        }
        assert((k - 1) * m == k * m - m) by (nonlinear_arith);
        lemma_chunk_count_le(n - m, m, k - 1);
    }
}

/// `k` batches that fall short of the device end leave another chunk to scan.
pub proof fn lemma_chunk_count_gt(n: int, m: int, k: int)
    requires
        m >= 1,
        k >= 0,
        k * m < n,
    ensures
        chunk_count(n, m) >= k + 1,
    decreases k,
{
    if k == 0 {
        lemma_chunk_count_pos(n, m);
    } else {
        assert((k - 1) * m == k * m - m) by (nonlinear_arith);
        lemma_chunk_count_gt(n - m, m, k - 1);
    }
}

/// The whole scan overshoots the device end by less than one batch.
pub proof fn lemma_chunk_count_mul_bound(n: int, m: int)
    requires
        n >= 1,
        m >= 1,
    ensures
        n <= chunk_count(n, m) * m <= n + m - 1,
    decreases n,
{
    if n <= m {
        assert(1 * m == m) by (nonlinear_arith);
    } else {
        lemma_chunk_count_mul_bound(n - m, m);
        let cc = chunk_count(n - m, m);
        assert((1 + cc) * m == m + cc * m) by (nonlinear_arith);
    }
}

} // verus!
