//! The two-tier fault-isolation state machines: a chunk cursor that walks
//! the device in maximal batches, and a sector cursor that isolates the bad
//! sectors of a faulty batch one probe at a time.
//!
//! The cursors make the decisions; the probes themselves (direct reads
//! against the real device, or reads of the in-memory model) are performed
//! by the caller, which hands each outcome back to the cursor.

use vstd::prelude::*;
use crate::geometry::Geometry;

verus! {

/// The outcome of one probe read that the engine can act on.
///
/// `Data(n)` is a successful read of `n` sectors; `n` can fall short of the
/// requested count only at the end of the device, and is zero exactly when
/// the probe started at or past the end. `MediumError` is a read that failed
/// because the medium is unreadable somewhere in the probed range — the
/// recoverable bad-sector signal. Every other I/O failure is fatal and never
/// reaches a cursor.
#[derive(Clone, Copy, Debug, PartialEq, Eq, Structural)]
pub enum ProbeOutcome {
    /// The read succeeded and covered this many sectors.
    Data(u16),
    /// The read failed with a medium/data error.
    MediumError,
}

/// What a conforming device guarantees about the outcome of a probe of
/// `count` sectors at `offset`, on a device of `total` sectors: a short read
/// happens only at the end of the device, a zero read exactly at or past the
/// end, and a medium error only inside the device.
pub open spec fn probe_conforms(total: int, offset: int, count: int, outcome: ProbeOutcome) -> bool {
    match outcome {
        ProbeOutcome::Data(got) => {
            &&& got <= count
            &&& offset < total ==> 1 <= got && offset + got <= total
                && (got < count ==> offset + got == total)
            &&& offset >= total ==> got == 0
        },
        ProbeOutcome::MediumError => offset < total,
    }
}

/// One contiguous run of sectors classified by a single batched probe:
/// `[index, index + count)`, `valid` when the whole batch read successfully.
#[derive(Clone, Copy, Debug, PartialEq, Eq, Structural)]
pub struct Chunk {
    /// Absolute index of the first sector of the run.
    pub index: u64,
    /// Number of sectors in the run.
    pub count: u16,
    /// Whether the whole-batch read succeeded.
    pub valid: bool,
}

impl Chunk {
    /// A chunk the cursor can emit: it starts inside the device and is no
    /// wider than one maximal batch.
    pub open spec fn wf(&self, g: Geometry) -> bool {
        &&& self.index < g.sectors
        &&& 1 <= self.count <= g.max_io_sectors
    }
}

/// The batch-level scan state: the next sector index to probe. It starts at
/// zero and advances monotonically, by the sectors actually read for a
/// healthy batch and by the full nominal batch width for a faulty one.
pub struct ChunkCursor {
    /// The next sector index to probe.
    pub next: u64,
}

impl ChunkCursor {
    /// A fresh cursor at the start of the device.
    pub fn new() -> (c: Self)
        ensures
            c.next == 0,
    {
        ChunkCursor { next: 0 }
    }

    /// Consume the outcome of a probe of one maximal batch at `self.next`.
    ///
    /// Returns `None` at the end of the device (a zero-sector read) and the
    /// classified chunk otherwise. A successful read emits a valid chunk of
    /// exactly the sectors read — a short read still counts valid, it only
    /// signals end-of-device truncation. A medium error emits an invalid
    /// chunk of the full nominal width and advances the cursor by that
    /// width, even past the true device end; the sector-level fallback
    /// re-truncates against the true total.
    pub fn step(&mut self, g: &Geometry, outcome: ProbeOutcome) -> (r: Option<Chunk>)
        requires
            g.wf(),
            probe_conforms(g.sectors as int, old(self).next as int,
                g.max_io_sectors as int, outcome),
        ensures
            r is None <==> outcome == ProbeOutcome::Data(0u16),
            r is None ==> final(self).next == old(self).next
                && old(self).next >= g.sectors,
            r matches Some(c) ==> {
                &&& c.index == old(self).next
                &&& c.wf(*g)
                &&& final(self).next == c.index + c.count
                &&& match outcome {
                    ProbeOutcome::Data(got) => c.count == got && c.valid,
                    ProbeOutcome::MediumError =>
                        c.count == g.max_io_sectors && !c.valid,
                }
            },
    {
        match outcome {
            ProbeOutcome::Data(got) => {
                if got == 0 {
                    None
                } else {
                    let chunk = Chunk { index: self.next, count: got, valid: true };
                    self.next = self.next + got as u64;
                    Some(chunk)
                }
            },
            ProbeOutcome::MediumError => {
                let chunk = Chunk {
                    index: self.next,
                    count: g.max_io_sectors,
                    valid: false,
                };
                self.next = self.next + g.max_io_sectors as u64;
                Some(chunk)
            },
        }
    }

    /// How many chunk steps are still ahead of the cursor on a fault-free
    /// device.
    pub fn remaining(&self, g: &Geometry) -> (r: u64)
        requires
            g.wf(),
        ensures
            r == crate::geometry::chunk_count(
                if self.next < g.sectors { g.sectors - self.next } else { 0int },
                g.max_io_sectors as int),
    {
        if self.next >= g.sectors {
            return 0;
        }
        let m = g.max_io_sectors as u64;
        let rem = g.sectors - self.next;
        let r = (rem + (m - 1)) / m;
        proof {
            crate::geometry::lemma_chunk_count_is_div_ceil(rem as int, m as int);
        }
        r
    }
}

/// One sector of a faulty chunk, classified by an individual probe.
#[derive(Clone, Copy, Debug, PartialEq, Eq, Structural)]
pub struct SectorRecord {
    /// Absolute sector index.
    pub index: u64,
    /// Whether the single-sector read succeeded.
    pub valid: bool,
}

/// The sector-level fallback state over one faulty chunk: the next offset
/// within the chunk to probe. It terminates either when the chunk is
/// exhausted or the instant a probe reports the true end of the device,
/// which re-truncates a final, partially out-of-range chunk.
pub struct SectorCursor {
    /// The faulty chunk being isolated.
    pub chunk: Chunk,
    /// The next offset within the chunk to probe.
    pub offset: u16,
}

impl SectorCursor {
    /// Start the fallback walk over a faulty chunk.
    pub fn new(chunk: Chunk) -> (c: Self)
        requires
            !chunk.valid,
        ensures
            c.chunk == chunk,
            c.offset == 0,
    {
        SectorCursor { chunk, offset: 0 }
    }

    /// The absolute index of the next sector to probe.
    pub fn absolute(&self, g: &Geometry) -> (r: u64)
        requires
            g.wf(),
            self.chunk.wf(*g),
            self.offset <= self.chunk.count,
        ensures
            r == self.chunk.index + self.offset,
    {
        self.chunk.index + self.offset as u64
    }

    /// Whether every offset of the chunk has been probed.
    pub fn exhausted(&self) -> (r: bool)
        ensures
            r == (self.offset >= self.chunk.count),
    {
        self.offset >= self.chunk.count
    }

    /// Consume the outcome of a single-sector probe at `self.absolute()`.
    ///
    /// Returns `None` when the probe read zero sectors: the true end of the
    /// device was reached mid-chunk. Otherwise emits the probed sector,
    /// valid exactly when the read succeeded, and advances by one.
    pub fn step(&mut self, g: &Geometry, outcome: ProbeOutcome) -> (r: Option<SectorRecord>)
        requires
            g.wf(),
            old(self).chunk.wf(*g),
            old(self).offset < old(self).chunk.count,
            probe_conforms(g.sectors as int,
                old(self).chunk.index + old(self).offset, 1, outcome),
        ensures
            final(self).chunk == old(self).chunk,
            r is None <==> outcome == ProbeOutcome::Data(0u16),
            r is None ==> final(self).offset == old(self).offset
                && old(self).chunk.index + old(self).offset >= g.sectors,
            r matches Some(s) ==> {
                &&& s.index == old(self).chunk.index + old(self).offset
                &&& s.index < g.sectors
                &&& final(self).offset == old(self).offset + 1
                &&& match outcome {
                    ProbeOutcome::Data(got) => got == 1 && s.valid,
                    ProbeOutcome::MediumError => !s.valid,
                }
            },
    {
        match outcome {
            ProbeOutcome::Data(got) => {
                if got == 0 {
                    None
                } else {
                    let rec = SectorRecord {
                        index: self.chunk.index + self.offset as u64,
                        valid: true,
                    };
                    self.offset = self.offset + 1;
                    Some(rec)
                }
            },
            ProbeOutcome::MediumError => {
                let rec = SectorRecord {
                    index: self.chunk.index + self.offset as u64,
                    valid: false,
                };
                self.offset = self.offset + 1;
                Some(rec)
            },
        }
    }

    /// How many sector probes are still ahead: the sectors of the chunk not
    /// yet probed, clipped against the true end of the device.
    pub fn remaining(&self, g: &Geometry) -> (r: u64)
        requires
            g.wf(),
            self.chunk.wf(*g),
            self.offset <= self.chunk.count,
        ensures
            r == vstd::math::min(
                (self.chunk.count - self.offset) as int,
                if self.chunk.index + self.offset < g.sectors {
                    g.sectors - (self.chunk.index + self.offset)
                } else {
                    0int
                }),
    {
        let from_chunk = (self.chunk.count - self.offset) as u64;
        let abs = self.chunk.index + self.offset as u64;
        let from_device = if abs < g.sectors { g.sectors - abs } else { 0 };
        if from_chunk <= from_device {
            from_chunk
        } else {
            from_device
        }
    }
}

} // verus!
