//! An in-memory device model and the scan engine verified against it.
//!
//! The model holds one health state per sector and a log of the write,
//! flush and sync actions issued to it. The engine below walks the model
//! with the same cursors the real driver uses, so the whole-scan guarantees
//! — step counts, exact bad-sector enumeration, repair convergence, flush
//! ordering — are proved here once and hold for any device that honours the
//! probe contract.

use vstd::prelude::*;
use crate::errors::ScanError;
use crate::geometry::Geometry;
use crate::scan::ProbeOutcome;

verus! {

/// The health of one modelled sector.
#[derive(Clone, Copy, Debug, PartialEq, Eq, Structural)]
pub enum SectorHealth {
    /// Reads succeed; contents arbitrary.
    Readable,
    /// Reads fail with a medium error.
    Unreadable,
    /// Reads succeed and the sector holds all-zero bytes (a repaired sector).
    Zeroed,
}

/// One durability-relevant action issued to the device.
#[derive(Clone, Copy, Debug, PartialEq, Eq, Structural)]
pub enum DeviceEvent {
    /// One sector of zero bytes written at this absolute index.
    Write(u64),
    /// Durability requested for exactly this sector range.
    Flush(u64, u16),
    /// All outstanding writes forced durable.
    Sync,
}

/// `x` clipped from above to `n`.
pub open spec fn clip(x: int, n: int) -> int {
    if x <= n {
        x
    } else {
        n
    }
}

/// Whether the range `[lo, hi)` holds an unreadable sector.
pub open spec fn has_bad(m: Seq<SectorHealth>, lo: int, hi: int) -> bool {
    exists|i: int| lo <= i < hi && m[i] is Unreadable
}

/// The unreadable sector indices in `[lo, hi)`, in increasing order.
pub open spec fn bad_indices(m: Seq<SectorHealth>, lo: int, hi: int) -> Seq<u64>
    decreases hi - lo,
{
    if lo < 0 || lo >= hi {
        Seq::empty()
    } else if m[lo] is Unreadable {
        seq![lo as u64] + bad_indices(m, lo + 1, hi)
    } else {
        bad_indices(m, lo + 1, hi)
    }
}

/// `m` with every unreadable sector of `[lo, hi)` replaced by a zero-filled,
/// readable one: the effect of a repair pass over that range.
pub open spec fn repaired_between(m: Seq<SectorHealth>, lo: int, hi: int) -> Seq<SectorHealth> {
    Seq::new(m.len(), |i: int| if lo <= i < hi && m[i] is Unreadable {
        SectorHealth::Zeroed
    } else {
        m[i]
    })
}

/// Two media that agree on a range hold a bad sector there together.
pub proof fn lemma_has_bad_agree(m1: Seq<SectorHealth>, m2: Seq<SectorHealth>, lo: int, hi: int)
    requires
        forall|i: int| lo <= i < hi ==> m1[i] == m2[i],
    ensures
        has_bad(m1, lo, hi) == has_bad(m2, lo, hi),
{
    if has_bad(m1, lo, hi) {
        let i = choose|i: int| lo <= i < hi && m1[i] is Unreadable;
        assert(m2[i] is Unreadable);
    }
    if has_bad(m2, lo, hi) {
        let i = choose|i: int| lo <= i < hi && m2[i] is Unreadable;
        assert(m1[i] is Unreadable);
    }
}

/// Splitting a range splits its bad-sector enumeration.
pub proof fn lemma_bad_indices_split(m: Seq<SectorHealth>, lo: int, mid: int, hi: int)
    requires
        0 <= lo <= mid <= hi,
    ensures
        bad_indices(m, lo, hi) == bad_indices(m, lo, mid) + bad_indices(m, mid, hi),
    decreases mid - lo,
{
    if lo == mid {
        assert(bad_indices(m, lo, mid) == Seq::<u64>::empty());
        assert(bad_indices(m, lo, mid) + bad_indices(m, mid, hi)
            =~= bad_indices(m, lo, hi));
    } else {
        lemma_bad_indices_split(m, lo + 1, mid, hi);
        if m[lo] is Unreadable {
            assert(seq![lo as u64] + (bad_indices(m, lo + 1, mid) + bad_indices(m, mid, hi))
                =~= (seq![lo as u64] + bad_indices(m, lo + 1, mid)) + bad_indices(m, mid, hi));
        }
    }
}

/// A range without bad sectors enumerates none.
pub proof fn lemma_bad_indices_empty(m: Seq<SectorHealth>, lo: int, hi: int)
    requires
        !has_bad(m, lo, hi),
    ensures
        bad_indices(m, lo, hi) == Seq::<u64>::empty(),
    decreases hi - lo,
{
    if 0 <= lo < hi {
        assert(!(m[lo] is Unreadable));
        assert(!has_bad(m, lo + 1, hi));
        lemma_bad_indices_empty(m, lo + 1, hi);
    }
}

/// A range of `hi - lo` sectors enumerates at most that many bad ones.
pub proof fn lemma_bad_indices_len(m: Seq<SectorHealth>, lo: int, hi: int)
    ensures
        bad_indices(m, lo, hi).len() <= (if hi >= lo { hi - lo } else { 0int }),
    decreases hi - lo,
{
    if 0 <= lo < hi {
        lemma_bad_indices_len(m, lo + 1, hi);
    }
}

/// The bad-sector enumeration depends only on the sectors of the range.
pub proof fn lemma_bad_indices_agree(m1: Seq<SectorHealth>, m2: Seq<SectorHealth>, lo: int, hi: int)
    requires
        forall|i: int| lo <= i < hi ==> m1[i] == m2[i],
    ensures
        bad_indices(m1, lo, hi) == bad_indices(m2, lo, hi),
    decreases hi - lo,
{
    if 0 <= lo < hi {
        lemma_bad_indices_agree(m1, m2, lo + 1, hi);
    }
}

/// Every enumerated index lies in the range and is unreadable there.
pub proof fn lemma_bad_indices_elements(m: Seq<SectorHealth>, lo: int, hi: int)
    requires
        hi <= u64::MAX,
    ensures
        forall|j: int| 0 <= j < bad_indices(m, lo, hi).len() ==> {
            let s = #[trigger] bad_indices(m, lo, hi)[j];
            &&& lo <= s < hi
            &&& m[s as int] is Unreadable
        },
    decreases hi - lo,
{
    if 0 <= lo < hi {
        lemma_bad_indices_elements(m, lo + 1, hi);
        let b = bad_indices(m, lo, hi);
        let t = bad_indices(m, lo + 1, hi);
        if m[lo] is Unreadable {
            assert(b == seq![lo as u64] + t);
            assert(b.len() == 1 + t.len());
            assert forall|j: int| 0 <= j < b.len() implies
                lo <= #[trigger] b[j] < hi && m[b[j] as int] is Unreadable by {
                if j == 0 {
                    assert(b[j] == (seq![lo as u64] + t)[0]);
                    assert(b[j] == lo as u64);
                } else {
                    assert(b[j] == (seq![lo as u64] + t)[j]);
                    assert(b[j] == t[j - 1]);
                    assert(lo + 1 <= t[j - 1] < hi && m[t[j - 1] as int] is Unreadable);
                }
            }
        }
    }
}

/// The zero-write actions for an enumeration of bad sectors, in order.
pub open spec fn write_events_of(bad: Seq<u64>) -> Seq<DeviceEvent> {
    bad.map_values(|s: u64| DeviceEvent::Write(s))
}

/// The first sector of chunk `k`.
pub open spec fn chunk_lo(mm: int, k: int) -> int {
    k * mm
}

/// One past the last in-device sector of chunk `k`.
pub open spec fn chunk_hi(m: Seq<SectorHealth>, mm: int, k: int) -> int {
    clip(k * mm + mm, m.len() as int)
}

/// Whether the in-device range of chunk `k` holds an unreadable sector —
/// exactly when its whole-batch probe reports a medium error.
pub open spec fn chunk_bad(m: Seq<SectorHealth>, mm: int, k: int) -> bool {
    has_bad(m, chunk_lo(mm, k), chunk_hi(m, mm, k))
}

/// The chunk the scan emits at step `k`: it starts at `k` batches, covers
/// the sectors actually read when healthy and the full nominal batch width
/// when faulty.
pub open spec fn chunk_record(m: Seq<SectorHealth>, mm: int, k: int) -> crate::scan::Chunk {
    crate::scan::Chunk {
        index: chunk_lo(mm, k) as u64,
        count: if chunk_bad(m, mm, k) {
            mm as u16
        } else {
            (chunk_hi(m, mm, k) - chunk_lo(mm, k)) as u16
        },
        valid: !chunk_bad(m, mm, k),
    }
}

/// The durability-relevant actions one chunk step issues: nothing for a
/// healthy chunk or on a device without a write handle; for a faulty chunk,
/// one zero-write per unreadable sector of its in-device range followed by
/// one flush of the full nominal range.
pub open spec fn chunk_events(m: Seq<SectorHealth>, mm: int, k: int, writable: bool)
    -> Seq<DeviceEvent> {
    if writable && chunk_bad(m, mm, k) {
        write_events_of(bad_indices(m, chunk_lo(mm, k), chunk_hi(m, mm, k)))
            + seq![DeviceEvent::Flush(chunk_lo(mm, k) as u64, mm as u16)]
    } else {
        Seq::empty()
    }
}

/// The actions of the first `k` chunk steps, in order.
pub open spec fn events_upto(m: Seq<SectorHealth>, mm: int, k: int, writable: bool)
    -> Seq<DeviceEvent>
    decreases k,
{
    if k <= 0 {
        Seq::empty()
    } else {
        events_upto(m, mm, k - 1, writable) + chunk_events(m, mm, k - 1, writable)
    }
}

/// Every action a whole scan issues, in order: the per-chunk writes and
/// flushes, then one final whole-device sync.
pub open spec fn scan_events(m: Seq<SectorHealth>, mm: int, writable: bool) -> Seq<DeviceEvent> {
    events_upto(m, mm, crate::geometry::chunk_count(m.len() as int, mm), writable)
        + (if writable {
            seq![DeviceEvent::Sync]
        } else {
            Seq::empty()
        })
}

/// The sectors a whole scan accounts: the device length, padded to a whole
/// batch when the final chunk is faulty (a faulty batch is accounted at its
/// nominal width even past the device end).
pub open spec fn scan_total(m: Seq<SectorHealth>, mm: int) -> int {
    let cc = crate::geometry::chunk_count(m.len() as int, mm);
    if cc > 0 && chunk_bad(m, mm, cc - 1) {
        cc * mm
    } else {
        m.len() as int
    }
}

/// What a probe of `count` sectors at `offset` returns on this media: zero
/// sectors at or past the end, a medium error if the in-range window holds
/// an unreadable sector, and otherwise every requested sector that exists.
pub open spec fn probe_spec(m: Seq<SectorHealth>, offset: int, count: int) -> ProbeOutcome {
    let n = m.len() as int;
    if offset >= n {
        ProbeOutcome::Data(0u16)
    } else if has_bad(m, offset, clip(offset + count, n)) {
        ProbeOutcome::MediumError
    } else {
        ProbeOutcome::Data((clip(offset + count, n) - offset) as u16)
    }
}

/// The model's probe outcome honours the probe contract the cursors rely on.
pub proof fn lemma_probe_conforms(m: Seq<SectorHealth>, offset: int, count: int)
    requires
        0 <= offset,
        1 <= count <= u16::MAX,
    ensures
        crate::scan::probe_conforms(m.len() as int, offset, count,
            probe_spec(m, offset, count)),
{
}

/// An in-memory block device: a geometry, one health state per sector, and
/// a log of the durability-relevant actions issued to it. A device opened
/// without a write handle (a dry run) absorbs zero-writes, flushes and syncs
/// without effect, exactly as the real device layer does.
pub struct SimDevice {
    /// The device geometry; `geometry.sectors` equals the media length.
    pub geometry: Geometry,
    /// Whether a write handle exists (false for a dry run).
    pub writable: bool,
    /// Per-sector health.
    pub media: Vec<SectorHealth>,
    /// Write, flush and sync actions issued so far, in order.
    pub log: Vec<DeviceEvent>,
}

impl SimDevice {
    /// Well-formedness: the geometry is valid and counts exactly the
    /// modelled sectors.
    pub open spec fn wf(&self) -> bool {
        &&& self.geometry.wf()
        &&& self.media@.len() == self.geometry.sectors
    }

    /// Open a model device over the given media. Fails like a real open
    /// would when a geometry quantity is non-positive or the byte size
    /// cannot be represented.
    pub fn new(media: Vec<SectorHealth>, sector_size: u64, max_io_sectors: u16, writable: bool)
        -> (r: Result<SimDevice, ScanError>)
        ensures
            r is Ok <==> (Geometry {
                sectors: media@.len() as u64,
                sector_size,
                max_io_sectors,
            }).wf(),
            r matches Ok(d) ==> {
                &&& d.wf()
                &&& d.media@ == media@
                &&& d.log@ == Seq::<DeviceEvent>::empty()
                &&& d.writable == writable
                &&& d.geometry.sectors == media@.len()
                &&& d.geometry.sector_size == sector_size
                &&& d.geometry.max_io_sectors == max_io_sectors
            },
            r matches Err(e) ==> e == ScanError::GeometryQueryFailure,
    {
        let sectors = media.len() as u64;
        if sectors == 0 || sector_size == 0 || max_io_sectors == 0 {
            return Err(ScanError::GeometryQueryFailure);
        }
        proof {
            vstd::arithmetic::mul::lemma_mul_upper_bound(
                sectors as int, u64::MAX as int, sector_size as int, u64::MAX as int);
            vstd::arithmetic::mul::lemma_mul_upper_bound(
                max_io_sectors as int, u64::MAX as int, sector_size as int,
                u64::MAX as int);
        }
        if !(sectors as u128 * sector_size as u128 <= u64::MAX as u128) {
            return Err(ScanError::GeometryQueryFailure);
        }
        if !(max_io_sectors as u128 * sector_size as u128 <= u64::MAX as u128) {
            return Err(ScanError::GeometryQueryFailure);
        }
        if sectors > u64::MAX - max_io_sectors as u64 {
            return Err(ScanError::GeometryQueryFailure);
        }
        let geometry = Geometry { sectors, sector_size, max_io_sectors };
        Ok(SimDevice { geometry, writable, media, log: Vec::new() })
    }

    /// Probe-read `count` sectors at `offset`, discarding the data: only
    /// success or failure matters. Mirrors the direct-read primitive: a
    /// short read only at end-of-device, zero sectors at or past the end,
    /// and a medium error exactly when the window holds an unreadable
    /// sector.
    pub fn probe(&self, offset: u64, count: u16) -> (r: ProbeOutcome)
        requires
            self.wf(),
            1 <= count <= self.geometry.max_io_sectors,
        ensures
            r == probe_spec(self.media@, offset as int, count as int),
    {
        if offset >= self.geometry.sectors {
            return ProbeOutcome::Data(0);
        }
        let end: u64 = if offset + count as u64 <= self.geometry.sectors {
            offset + count as u64
        } else {
            self.geometry.sectors
        };
        let n_us: usize = self.media.len();
        let mut s: u64 = offset;
        while s < end
            invariant
                self.wf(),
                offset <= s <= end,
                end == clip(offset + count as int, self.media@.len() as int),
                offset < self.media@.len(),
                count >= 1,
                n_us == self.media@.len(),
                !has_bad(self.media@, offset as int, s as int),
            decreases end - s,
        {
            proof {
                assert(s < n_us);
            }
            let idx: usize = s as usize;
            if self.media[idx] == SectorHealth::Unreadable {
                proof {
                    assert(self.media@[s as int] is Unreadable);
                }
                return ProbeOutcome::MediumError;
            }
            proof {
                assert(!(self.media@[s as int] is Unreadable));
                assert forall|i: int| offset <= i < s + 1 implies
                    !(self.media@[i] is Unreadable) by {
                    assert(!has_bad(self.media@, offset as int, s as int));
                    if i < s {
                        assert(!(self.media@[i] is Unreadable));
                    }
                }
            }
            s = s + 1;
        }
        ProbeOutcome::Data((end - offset) as u16)
    }

    /// Write one sector of zero bytes at `offset` through the write handle.
    /// The sector becomes readable, all-zero.
    pub fn zero(&mut self, offset: u64)
        requires
            old(self).wf(),
            old(self).writable,
            offset < old(self).geometry.sectors,
        ensures
            final(self).wf(),
            final(self).media@ == old(self).media@.update(offset as int, SectorHealth::Zeroed),
            final(self).log@ == old(self).log@.push(DeviceEvent::Write(offset)),
            final(self).geometry == old(self).geometry,
            final(self).writable == old(self).writable,
    {
        let n_us: usize = self.media.len();
        proof {
            assert(offset < n_us);
        }
        self.media[offset as usize] = SectorHealth::Zeroed;
        self.log.push(DeviceEvent::Write(offset));
    }

    /// Request durability of exactly the given sector range. Without a
    /// write handle there is nothing to make durable and nothing is issued.
    pub fn flush(&mut self, offset: u64, count: u16)
        requires
            old(self).wf(),
        ensures
            final(self).wf(),
            final(self).media@ == old(self).media@,
            final(self).geometry == old(self).geometry,
            final(self).writable == old(self).writable,
            final(self).log@ == old(self).log@ + (if old(self).writable {
                seq![DeviceEvent::Flush(offset, count)]
            } else {
                Seq::<DeviceEvent>::empty()
            }),
    {
        if self.writable {
            self.log.push(DeviceEvent::Flush(offset, count));
            proof {
                assert(self.log@ =~= old(self).log@
                    + seq![DeviceEvent::Flush(offset, count)]);
            }
        } else {
            proof {
                assert(self.log@ =~= old(self).log@ + Seq::<DeviceEvent>::empty());
            }
        }
    }

    /// Isolate and repair one faulty chunk: probe each of its sectors
    /// individually, enumerate and count the unreadable ones, zero-fill
    /// each when a write handle exists, and finally flush the chunk's full
    /// nominal range — once per faulty chunk, whether or not anything was
    /// written. A faulty chunk degrades to exactly its own nominal sector
    /// range clipped to the true device end: never wider, never narrower,
    /// never skipped.
    pub fn walk_faulty_chunk(&mut self, chunk: crate::scan::Chunk, bad: &mut Vec<u64>,
        errors: &mut u64)
        requires
            old(self).wf(),
            !chunk.valid,
            chunk.wf(old(self).geometry),
            *old(errors) + chunk.count <= u64::MAX,
        ensures
            final(self).wf(),
            final(self).geometry == old(self).geometry,
            final(self).writable == old(self).writable,
            ({
                let m0 = old(self).media@;
                let lo = chunk.index as int;
                let hi = clip(chunk.index + chunk.count, m0.len() as int);
                &&& final(self).media@ == (if old(self).writable {
                    repaired_between(m0, lo, hi)
                } else {
                    m0
                })
                &&& final(self).log@ == old(self).log@ + (if old(self).writable {
                    write_events_of(bad_indices(m0, lo, hi))
                        + seq![DeviceEvent::Flush(chunk.index, chunk.count)]
                } else {
                    Seq::<DeviceEvent>::empty()
                })
                &&& final(bad)@ == old(bad)@ + bad_indices(m0, lo, hi)
                &&& *final(errors) == *old(errors) + bad_indices(m0, lo, hi).len()
            }),
    {
        let g = self.geometry;
        let ghost m0 = self.media@;
        let ghost log0 = self.log@;
        let ghost bad0 = bad@;
        let ghost err0 = *errors;
        let ghost w0 = self.writable;
        let ghost lo = chunk.index as int;
        let ghost hi = clip(chunk.index + chunk.count as int, m0.len() as int);
        let mut cursor = crate::scan::SectorCursor::new(chunk);
        loop
            invariant
                self.wf(),
                self.geometry == g,
                self.writable == w0,
                g.wf(),
                chunk.wf(g),
                !chunk.valid,
                m0.len() == g.sectors,
                lo == chunk.index as int,
                hi == clip(lo + chunk.count as int, m0.len() as int),
                err0 + chunk.count <= u64::MAX,
                cursor.chunk == chunk,
                cursor.offset <= chunk.count,
                ({
                    let p = clip(lo + cursor.offset as int, m0.len() as int);
                    &&& self.media@ == (if w0 {
                        repaired_between(m0, lo, p)
                    } else {
                        m0
                    })
                    &&& self.log@ == log0 + (if w0 {
                        write_events_of(bad_indices(m0, lo, p))
                    } else {
                        Seq::<DeviceEvent>::empty()
                    })
                    &&& bad@ == bad0 + bad_indices(m0, lo, p)
                    &&& *errors == err0 + bad_indices(m0, lo, p).len()
                }),
            ensures
                self.wf(),
                self.geometry == g,
                self.writable == w0,
                self.media@ == (if w0 {
                    repaired_between(m0, lo, hi)
                } else {
                    m0
                }),
                self.log@ == log0 + (if w0 {
                    write_events_of(bad_indices(m0, lo, hi))
                } else {
                    Seq::<DeviceEvent>::empty()
                }),
                bad@ == bad0 + bad_indices(m0, lo, hi),
                *errors == err0 + bad_indices(m0, lo, hi).len(),
            decreases chunk.count - cursor.offset,
        {
            if cursor.exhausted() {
                break;
            }
            let ghost off0 = cursor.offset;
            let abs = cursor.absolute(&g);
            let ghost mnow = self.media@;
            let outcome = self.probe(abs, 1);
            proof {
                lemma_probe_conforms(mnow, abs as int, 1);
            }
            match cursor.step(&g, outcome) {
                None => {
                    proof {
                        assert(lo + off0 >= m0.len());
                        assert(clip(lo + off0 as int, m0.len() as int) == m0.len() as int);
                        assert(hi == m0.len() as int);
                    }
                    break;
                },
                Some(rec) => {
                    proof {
                        assert(abs < g.sectors);
                        assert(clip(lo + off0 as int, m0.len() as int) == abs as int);
                        assert(mnow[abs as int] == m0[abs as int]);
                        lemma_bad_indices_split(m0, lo, abs as int, abs + 1);
                    }
                    if !rec.valid {
                        proof {
                            assert(has_bad(mnow, abs as int, clip(abs + 1, m0.len() as int)));
                            assert(m0[abs as int] is Unreadable);
                            reveal_with_fuel(bad_indices, 2);
                            assert(bad_indices(m0, abs as int, abs + 1)
                                =~= seq![abs]);
                            assert(bad_indices(m0, lo, abs + 1)
                                =~= bad_indices(m0, lo, abs as int) + seq![abs]);
                            lemma_bad_indices_len(m0, lo, abs as int);
                        }
                        *errors = *errors + 1;
                        bad.push(rec.index);
                        proof {
                            assert(bad@ =~= bad0 + bad_indices(m0, lo, abs + 1));
                        }
                        if self.writable {
                            self.zero(rec.index);
                            proof {
                                assert(self.media@ =~= repaired_between(m0, lo, abs + 1));
                                assert(write_events_of(bad_indices(m0, lo, abs + 1))
                                    =~= write_events_of(bad_indices(m0, lo, abs as int))
                                        + seq![DeviceEvent::Write(abs)]);
                                assert(self.log@ =~= log0
                                    + write_events_of(bad_indices(m0, lo, abs + 1)));
                            }
                        }
                    } else {
                        proof {
                            assert(!has_bad(mnow, abs as int, clip(abs + 1, m0.len() as int)));
                            assert(!(mnow[abs as int] is Unreadable)) by {
                                if mnow[abs as int] is Unreadable {
                                    assert(has_bad(mnow, abs as int,
                                        clip(abs + 1, m0.len() as int)));
                                }
                            }
                            assert(!(m0[abs as int] is Unreadable));
                            reveal_with_fuel(bad_indices, 2);
                            assert(bad_indices(m0, abs as int, abs + 1)
                                =~= Seq::<u64>::empty());
                            assert(bad_indices(m0, lo, abs + 1)
                                =~= bad_indices(m0, lo, abs as int));
                            if w0 {
                                assert(repaired_between(m0, lo, abs + 1)
                                    =~= repaired_between(m0, lo, abs as int));
                            }
                        }
                    }
                },
            }
        }
        self.flush(chunk.index, chunk.count);
        proof {
            if w0 {
                assert(self.log@ =~= log0 + (write_events_of(bad_indices(m0, lo, hi))
                    + seq![DeviceEvent::Flush(chunk.index, chunk.count)]));
            } else {
                assert(self.log@ =~= log0 + Seq::<DeviceEvent>::empty());
            }
        }
    }

    /// Force all outstanding writes durable. Without a write handle there
    /// is nothing to sync and nothing is issued.
    pub fn sync(&mut self)
        requires
            old(self).wf(),
        ensures
            final(self).wf(),
            final(self).media@ == old(self).media@,
            final(self).geometry == old(self).geometry,
            final(self).writable == old(self).writable,
            final(self).log@ == old(self).log@ + (if old(self).writable {
                seq![DeviceEvent::Sync]
            } else {
                Seq::<DeviceEvent>::empty()
            }),
    {
        if self.writable {
            self.log.push(DeviceEvent::Sync);
            proof {
                assert(self.log@ =~= old(self).log@ + seq![DeviceEvent::Sync]);
            }
        } else {
            proof {
                assert(self.log@ =~= old(self).log@ + Seq::<DeviceEvent>::empty());
            }
        }
    }
}

/// The cursor position after `k` chunk steps: `k` whole batches, clipped to
/// the device end unless the latest chunk was faulty (a faulty chunk
/// advances the cursor by its full nominal width, even past the end).
pub open spec fn cursor_after(m: Seq<SectorHealth>, mm: int, k: int) -> int {
    if k >= 1 && chunk_bad(m, mm, k - 1) {
        k * mm
    } else {
        clip(k * mm, m.len() as int)
    }
}

/// What one whole scan pass found and did.
#[derive(Debug)]
pub struct ScanReport {
    /// Sectors accounted: the device length, padded to a whole batch when
    /// the final chunk was faulty.
    pub total: u64,
    /// Number of unreadable sectors found.
    pub errors: u64,
    /// The unreadable sector indices, in increasing order.
    pub bad: Vec<u64>,
    /// Every chunk emitted, in order.
    pub chunks: Vec<crate::scan::Chunk>,
}

/// Scan the whole device: walk it in maximal batches, isolate the bad
/// sectors of each faulty batch individually, zero-fill them when a write
/// handle exists with a flush after each faulty chunk, and sync once at the
/// end. Exactly the driver loop the real tool runs, against the model.
pub fn run_scan(dev: &mut SimDevice) -> (r: ScanReport)
    requires
        old(dev).wf(),
    ensures
        final(dev).wf(),
        final(dev).geometry == old(dev).geometry,
        final(dev).writable == old(dev).writable,
        ({
            let m = old(dev).media@;
            let mm = old(dev).geometry.max_io_sectors as int;
            let w = old(dev).writable;
            let n = m.len() as int;
            &&& r.chunks@.len() == crate::geometry::chunk_count(n, mm)
            &&& forall|k: int| 0 <= k < r.chunks@.len()
                ==> r.chunks@[k] == chunk_record(m, mm, k)
            &&& r.bad@ == bad_indices(m, 0, n)
            &&& r.errors == bad_indices(m, 0, n).len()
            &&& r.total == scan_total(m, mm)
            &&& final(dev).media@ == (if w {
                repaired_between(m, 0, n)
            } else {
                m
            })
            &&& final(dev).log@ == old(dev).log@ + scan_events(m, mm, w)
        }),
{
    let g = dev.geometry;
    let ghost m = dev.media@;
    let ghost mm = g.max_io_sectors as int;
    let ghost w = dev.writable;
    let ghost log0 = dev.log@;
    let ghost n = m.len() as int;
    let ghost cc = crate::geometry::chunk_count(n, mm);
    proof {
        crate::geometry::lemma_chunk_count_pos(n, mm);
        crate::geometry::lemma_chunk_count_mul_bound(n, mm);
    }
    let mut cursor = crate::scan::ChunkCursor::new();
    let mut chunks: Vec<crate::scan::Chunk> = Vec::new();
    let mut bad: Vec<u64> = Vec::new();
    let mut errors: u64 = 0;
    let mut total: u64 = 0;
    loop
        invariant
            dev.wf(),
            dev.geometry == g,
            dev.writable == w,
            g.wf(),
            m.len() == g.sectors,
            mm == g.max_io_sectors as int,
            n == m.len() as int,
            cc == crate::geometry::chunk_count(n, mm),
            1 <= n,
            1 <= mm <= u16::MAX,
            n + mm <= u64::MAX,
            1 <= cc,
            n <= cc * mm <= n + mm - 1,
            chunks@.len() <= cc,
            forall|j: int| 0 <= j < chunks@.len() ==> chunks@[j] == chunk_record(m, mm, j),
            cursor.next == cursor_after(m, mm, chunks@.len() as int),
            total == cursor.next,
            dev.media@ == (if w {
                repaired_between(m, 0, cursor.next as int)
            } else {
                m
            }),
            dev.log@ == log0 + events_upto(m, mm, chunks@.len() as int, w),
            bad@ == bad_indices(m, 0, clip(cursor.next as int, n)),
            errors == bad_indices(m, 0, clip(cursor.next as int, n)).len(),
        ensures
            dev.wf(),
            dev.geometry == g,
            dev.writable == w,
            cursor.next >= n,
            chunks@.len() == cc,
            forall|j: int| 0 <= j < chunks@.len() ==> chunks@[j] == chunk_record(m, mm, j),
            cursor.next == cursor_after(m, mm, cc),
            total == cursor.next,
            dev.media@ == (if w {
                repaired_between(m, 0, cursor.next as int)
            } else {
                m
            }),
            dev.log@ == log0 + events_upto(m, mm, cc, w),
            bad@ == bad_indices(m, 0, n),
            errors == bad_indices(m, 0, n).len(),
        decreases n + mm - cursor.next,
    {
        let ghost k = chunks@.len() as int;
        let ghost cur0 = cursor.next as int;
        let ghost mnow = dev.media@;
        let ghost window_hi = clip(cur0 + mm, n);
        let outcome = dev.probe(cursor.next, g.max_io_sectors);
        proof {
            lemma_probe_conforms(mnow, cur0, mm);
            if cur0 < n {
                if w {
                    assert forall|i: int| cur0 <= i < window_hi implies mnow[i] == m[i] by {
                        assert(repaired_between(m, 0, cur0)[i] == m[i]);
                    }
                }
                lemma_has_bad_agree(mnow, m, cur0, window_hi);
            }
        }
        match cursor.step(&g, outcome) {
            None => {
                proof {
                    assert(cur0 >= n);
                    if k >= 1 && chunk_bad(m, mm, k - 1) {
                        crate::geometry::lemma_chunk_count_le(n, mm, k);
                    } else {
                        assert(clip(k * mm, n) >= n);
                        assert(k * mm >= n);
                        crate::geometry::lemma_chunk_count_le(n, mm, k);
                    }
                    assert(k == cc);
                    assert(clip(cur0, n) == n);
                }
                break;
            },
            Some(chunk) => {
                proof {
                    assert(cur0 < n) by {
                        if cur0 >= n {
                            assert(outcome matches ProbeOutcome::Data(got) && got == 0);
                        }
                    }
                    assert(cur0 == k * mm) by {
                        if !(k >= 1 && chunk_bad(m, mm, k - 1)) {
                            assert(cursor_after(m, mm, k) == clip(k * mm, n));
                        }
                    }
                    crate::geometry::lemma_chunk_count_gt(n, mm, k);
                    assert(k + 1 <= cc);
                    assert((k + 1) * mm == k * mm + mm) by (nonlinear_arith);
                    vstd::arithmetic::mul::lemma_mul_inequality(k + 1, cc, mm);
                    assert(chunk.index == cur0);
                    assert(chunk_lo(mm, k) == cur0);
                    assert(chunk_hi(m, mm, k) == window_hi);
                }
                total = total + chunk.count as u64;
                if !chunk.valid {
                    proof {
                        assert(chunk_bad(m, mm, k));
                        assert(chunk == chunk_record(m, mm, k));
                        assert(chunk.count == g.max_io_sectors);
                        lemma_bad_indices_len(m, 0, cur0);
                        assert(errors + chunk.count <= u64::MAX);
                    }
                    dev.walk_faulty_chunk(chunk, &mut bad, &mut errors);
                    proof {
                        let hi = clip(cur0 + mm, n);
                        assert(cursor.next == cur0 + mm);
                        assert(cursor.next == (k + 1) * mm);
                        assert(cursor_after(m, mm, k + 1) == (k + 1) * mm);
                        // media
                        if w {
                            assert(dev.media@ == repaired_between(mnow, cur0, hi));
                            assert(dev.media@ =~= repaired_between(m, 0, cursor.next as int));
                        }
                        // enumeration
                        lemma_bad_indices_agree(mnow, m, cur0, hi);
                        lemma_bad_indices_split(m, 0, cur0, hi);
                        assert(clip(cursor.next as int, n) == hi);
                        assert(bad@ =~= bad_indices(m, 0, hi));
                        // log
                        if w {
                            assert(write_events_of(bad_indices(mnow, cur0, hi))
                                == write_events_of(bad_indices(m, cur0, hi)));
                            assert(chunk_events(m, mm, k, w)
                                == write_events_of(bad_indices(m, cur0, hi))
                                    + seq![DeviceEvent::Flush(chunk.index, chunk.count)]);
                            assert(dev.log@ =~= log0 + events_upto(m, mm, k + 1, w));
                        } else {
                            assert(chunk_events(m, mm, k, w) == Seq::<DeviceEvent>::empty());
                            assert(dev.log@ =~= log0 + events_upto(m, mm, k + 1, w));
                        }
                    }
                } else {
                    proof {
                        let hi = clip(cur0 + mm, n);
                        assert(!chunk_bad(m, mm, k));
                        assert(chunk.count == hi - cur0);
                        assert(chunk == chunk_record(m, mm, k));
                        assert(cursor.next == hi);
                        assert(cursor_after(m, mm, k + 1) == clip((k + 1) * mm, n));
                        assert(cursor.next == cursor_after(m, mm, k + 1));
                        assert(!has_bad(m, cur0, hi));
                        // media unchanged and already repaired up to the new cursor
                        if w {
                            assert forall|i: int| 0 <= i < m.len() implies
                                repaired_between(m, 0, cur0)[i]
                                    == repaired_between(m, 0, hi)[i] by {
                                if cur0 <= i < hi {
                                    assert(!(m[i] is Unreadable));
                                }
                            }
                            assert(repaired_between(m, 0, cur0)
                                =~= repaired_between(m, 0, hi));
                        }
                        // no new bad sectors
                        lemma_bad_indices_split(m, 0, cur0, hi);
                        lemma_bad_indices_empty(m, cur0, hi);
                        assert(bad_indices(m, 0, hi) =~= bad_indices(m, 0, cur0));
                        assert(clip(cursor.next as int, n) == hi);
                        // no new events
                        assert(chunk_events(m, mm, k, w) == Seq::<DeviceEvent>::empty());
                        assert(events_upto(m, mm, k + 1, w)
                            =~= events_upto(m, mm, k, w));
                    }
                }
                chunks.push(chunk);
            },
        }
    }
    dev.sync();
    proof {
        assert(dev.media@ == (if w {
            repaired_between(m, 0, cursor.next as int)
        } else {
            m
        }));
        if w {
            assert(repaired_between(m, 0, cursor.next as int)
                =~= repaired_between(m, 0, n));
            assert(dev.log@ =~= log0 + scan_events(m, mm, w));
        } else {
            assert(dev.log@ =~= log0 + scan_events(m, mm, w));
        }
        // the accounted total
        if chunk_bad(m, mm, cc - 1) {
            assert(total == cc * mm);
            assert(total == scan_total(m, mm));
        } else {
            assert(total == clip(cc * mm, n));
            assert(total == n);
            assert(total == scan_total(m, mm));
        }
    }
    ScanReport { total, errors, bad, chunks }
}

} // verus!
