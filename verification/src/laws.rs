//! The whole-scan guarantees, stated and proved over the scan's
//! specification functions: coverage and partitioning of the device,
//! idempotence on a fault-free device, repair convergence, dry-run
//! stability, and flush ordering.

use vstd::prelude::*;
use crate::geometry::chunk_count;
use crate::sim::{
    SectorHealth, DeviceEvent, has_bad, bad_indices, repaired_between, chunk_lo, chunk_hi,
    chunk_bad, chunk_record, chunk_events, events_upto, scan_events, write_events_of,
    lemma_bad_indices_empty, lemma_bad_indices_elements,
};

verus! {

/// Whether this event is a targeted flush whose range covers sector `s`.
pub open spec fn covering_flush(e: DeviceEvent, s: u64) -> bool {
    match e {
        DeviceEvent::Flush(lo, cnt) => lo <= s < lo + cnt,
        _ => false,
    }
}

/// Whether every zero-write in `ev` is followed, before position `before`,
/// by a targeted flush that covers the written sector.
pub open spec fn writes_flush_covered(ev: Seq<DeviceEvent>, before: int) -> bool {
    forall|i: int| 0 <= i < ev.len() && (#[trigger] ev[i]) is Write
        ==> exists|j: int| i < j < before && covering_flush(#[trigger] ev[j], ev[i]->Write_0)
}

/// Every sector of the device is visited in exactly one chunk step: step
/// `s / mm` and no other. The step's range contains `s` whether the chunk
/// is healthy (the sectors actually read) or faulty (the nominal batch,
/// whose sectors are then probed individually).
pub proof fn lemma_sector_in_exactly_one_chunk(m: Seq<SectorHealth>, mm: int, s: int)
    requires
        1 <= mm <= u16::MAX,
        0 <= s < m.len(),
        m.len() <= u64::MAX,
    ensures
        ({
            let k = s / mm;
            &&& 0 <= k < chunk_count(m.len() as int, mm)
            &&& chunk_lo(mm, k) <= s < chunk_lo(mm, k) + chunk_record(m, mm, k).count
            &&& forall|j: int| 0 <= j < chunk_count(m.len() as int, mm) && j != k
                ==> !(#[trigger] chunk_lo(mm, j) <= s < chunk_lo(mm, j) + mm)
        }),
{
    let n = m.len() as int;
    let k = s / mm;
    vstd::arithmetic::div_mod::lemma_fundamental_div_mod(s, mm);
    vstd::arithmetic::div_mod::lemma_mod_division_less_than_divisor(s, mm);
    vstd::arithmetic::div_mod::lemma_div_pos_is_pos(s, mm);
    assert(mm * k <= s < mm * k + mm);
    vstd::arithmetic::mul::lemma_mul_is_commutative(mm, k);
    crate::geometry::lemma_chunk_count_gt(n, mm, k);
    assert(chunk_lo(mm, k) <= s < chunk_lo(mm, k) + mm);
    if !chunk_bad(m, mm, k) {
        assert(chunk_hi(m, mm, k) > s);
        assert(chunk_record(m, mm, k).count == chunk_hi(m, mm, k) - chunk_lo(mm, k));
    }
    assert forall|j: int| 0 <= j < chunk_count(n, mm) && j != k implies
        !(#[trigger] chunk_lo(mm, j) <= s < chunk_lo(mm, j) + mm) by {
        if chunk_lo(mm, j) <= s < chunk_lo(mm, j) + mm {
            vstd::arithmetic::div_mod::lemma_fundamental_div_mod_converse(
                s, mm, j, s - j * mm);
            assert(j == k);
        }
    }
}

/// The scan of a fault-free stretch of chunks issues nothing.
proof fn lemma_events_upto_no_bad(m: Seq<SectorHealth>, mm: int, k: int, writable: bool)
    requires
        mm >= 1,
        k >= 0,
        !has_bad(m, 0, m.len() as int),
    ensures
        events_upto(m, mm, k, writable) == Seq::<DeviceEvent>::empty(),
    decreases k,
{
    if k > 0 {
        lemma_events_upto_no_bad(m, mm, k - 1, writable);
        if chunk_bad(m, mm, k - 1) {
            let i = choose|i: int| chunk_lo(mm, k - 1) <= i < chunk_hi(m, mm, k - 1)
                && m[i] is Unreadable;
            vstd::arithmetic::mul::lemma_mul_nonnegative(k - 1, mm);
            assert(0 <= i < m.len());
            assert(has_bad(m, 0, m.len() as int));
        }
        assert(events_upto(m, mm, k, writable)
            =~= Seq::<DeviceEvent>::empty());
    }
}

/// Fault-free idempotence: a device without bad sectors is scanned with
/// zero errors reported, zero writes performed, and the media unchanged —
/// so a second pass finds exactly the same fault-free device and reports
/// zero errors and zero writes again.
pub proof fn lemma_fault_free_idempotent(m: Seq<SectorHealth>, mm: int)
    requires
        mm >= 1,
        !has_bad(m, 0, m.len() as int),
    ensures
        bad_indices(m, 0, m.len() as int) == Seq::<u64>::empty(),
        repaired_between(m, 0, m.len() as int) == m,
        scan_events(m, mm, true) == seq![DeviceEvent::Sync],
        scan_events(m, mm, false) == Seq::<DeviceEvent>::empty(),
{
    let n = m.len() as int;
    crate::geometry::lemma_chunk_count_nonneg(n, mm);
    lemma_bad_indices_empty(m, 0, n);
    assert forall|i: int| 0 <= i < n implies !(m[i] is Unreadable) by {
        if m[i] is Unreadable {
            assert(has_bad(m, 0, n));
        }
    }
    assert(repaired_between(m, 0, n) =~= m);
    lemma_events_upto_no_bad(m, mm, chunk_count(n, mm), true);
    lemma_events_upto_no_bad(m, mm, chunk_count(n, mm), false);
    assert(scan_events(m, mm, true) =~= seq![DeviceEvent::Sync]);
    assert(scan_events(m, mm, false) =~= Seq::<DeviceEvent>::empty());
}

/// Repair convergence: after a repair pass, every sector that was flagged
/// unreadable is now readable and holds all-zero bytes, the device has no
/// unreadable sector left, and a subsequent pass flags nothing.
pub proof fn lemma_repair_convergence(m: Seq<SectorHealth>)
    ensures
        forall|s: int| 0 <= s < m.len() && m[s] is Unreadable
            ==> repaired_between(m, 0, m.len() as int)[s] is Zeroed,
        !has_bad(repaired_between(m, 0, m.len() as int), 0, m.len() as int),
        bad_indices(repaired_between(m, 0, m.len() as int), 0, m.len() as int)
            == Seq::<u64>::empty(),
{
    let n = m.len() as int;
    let rep = repaired_between(m, 0, n);
    assert forall|i: int| !(0 <= i < n && rep[i] is Unreadable) by {
        if 0 <= i < n {
            if m[i] is Unreadable {
                assert(rep[i] is Zeroed);
            } else {
                assert(rep[i] == m[i]);
            }
        }
    }
    assert(!has_bad(rep, 0, n));
    lemma_bad_indices_empty(rep, 0, n);
}

/// The scan of any stretch of chunks on a device without a write handle
/// issues nothing.
proof fn lemma_events_upto_dry(m: Seq<SectorHealth>, mm: int, k: int)
    requires
        k >= 0,
    ensures
        events_upto(m, mm, k, false) == Seq::<DeviceEvent>::empty(),
    decreases k,
{
    if k > 0 {
        lemma_events_upto_dry(m, mm, k - 1);
        assert(events_upto(m, mm, k, false) =~= Seq::<DeviceEvent>::empty());
    }
}

/// Dry-run stability: a pass without a write handle performs zero writes
/// and issues nothing at all, so it leaves the media untouched — two
/// consecutive dry runs over a device with `K` bad sectors each report
/// exactly `K` invalid sectors and perform zero writes.
pub proof fn lemma_dry_run_stable(m: Seq<SectorHealth>, mm: int)
    requires
        mm >= 1,
    ensures
        scan_events(m, mm, false) == Seq::<DeviceEvent>::empty(),
{
    crate::geometry::lemma_chunk_count_nonneg(m.len() as int, mm);
    lemma_events_upto_dry(m, mm, chunk_count(m.len() as int, mm));
    assert(scan_events(m, mm, false) =~= Seq::<DeviceEvent>::empty());
}

/// Within the first `k` chunk steps of a repair pass, every zero-write is
/// followed by a targeted flush that covers its sector.
proof fn lemma_events_upto_flush_covered(m: Seq<SectorHealth>, mm: int, k: int)
    requires
        1 <= mm <= u16::MAX,
        0 <= k,
        k * mm <= u64::MAX,
        m.len() <= u64::MAX,
    ensures
        writes_flush_covered(events_upto(m, mm, k, true),
            events_upto(m, mm, k, true).len() as int),
    decreases k,
{
    if k > 0 {
        assert((k - 1) * mm <= k * mm) by (nonlinear_arith)
            requires
                1 <= mm && 1 <= k,
        ;
        lemma_events_upto_flush_covered(m, mm, k - 1);
        let prefix = events_upto(m, mm, k - 1, true);
        let ck = chunk_events(m, mm, k - 1, true);
        let ev = events_upto(m, mm, k, true);
        assert(ev == prefix + ck);
        assert forall|i: int| 0 <= i < ev.len() && (#[trigger] ev[i]) is Write
            implies exists|j: int| i < j < ev.len()
                && covering_flush(#[trigger] ev[j], ev[i]->Write_0) by {
            let s = ev[i]->Write_0;
            if i < prefix.len() {
                assert(prefix[i] == ev[i]);
                assert(prefix[i] is Write && prefix[i]->Write_0 == s);
                assert(writes_flush_covered(prefix, prefix.len() as int));
                let j = choose|j: int| i < j < prefix.len()
                    && covering_flush(#[trigger] prefix[j], prefix[i]->Write_0);
                assert(ev[j] == prefix[j]);
                assert(covering_flush(ev[j], s));
            } else {
                // the write sits in chunk `k - 1`; its flush ends that
                // chunk's events
                assert(chunk_bad(m, mm, k - 1));
                let lo = chunk_lo(mm, k - 1);
                let hi = chunk_hi(m, mm, k - 1);
                let bads = bad_indices(m, lo, hi);
                let jf = ev.len() - 1;
                assert(ck[ck.len() - 1] == DeviceEvent::Flush(lo as u64, mm as u16));
                assert(ev[jf] == DeviceEvent::Flush(lo as u64, mm as u16));
                let ci = i - prefix.len();
                assert(ck[ci] == DeviceEvent::Write(s));
                assert(ci < ck.len() - 1);
                assert(write_events_of(bads)[ci] == DeviceEvent::Write(s));
                assert(bads[ci] == s);
                vstd::arithmetic::mul::lemma_mul_nonnegative(k - 1, mm);
                lemma_bad_indices_elements(m, lo, hi);
                assert(lo <= s < hi);
                assert(hi <= lo + mm);
                assert(covering_flush(ev[jf], s));
                assert(i < jf < ev.len());
            }
        }
    }
}

/// Flush ordering: a repair pass ends with the one whole-device sync, and
/// every zero-write it issues is followed, before that sync, by the
/// targeted flush of the faulty chunk that contains the written sector. No
/// write is made durable by the final sync without its chunk's flush having
/// been issued first.
pub proof fn lemma_flush_ordering(m: Seq<SectorHealth>, mm: int)
    requires
        1 <= mm <= u16::MAX,
        1 <= m.len(),
        m.len() + mm <= u64::MAX,
    ensures
        ({
            let ev = scan_events(m, mm, true);
            &&& ev.len() >= 1
            &&& ev.last() == DeviceEvent::Sync
            &&& writes_flush_covered(ev, ev.len() - 1)
        }),
{
    let n = m.len() as int;
    let cc = chunk_count(n, mm);
    let upto = events_upto(m, mm, cc, true);
    let ev = scan_events(m, mm, true);
    crate::geometry::lemma_chunk_count_pos(n, mm);
    crate::geometry::lemma_chunk_count_mul_bound(n, mm);
    lemma_events_upto_flush_covered(m, mm, cc);
    assert(ev == upto + seq![DeviceEvent::Sync]);
    assert(ev.last() == DeviceEvent::Sync);
    assert forall|i: int| 0 <= i < ev.len() && (#[trigger] ev[i]) is Write
        implies exists|j: int| i < j < ev.len() - 1
            && covering_flush(#[trigger] ev[j], ev[i]->Write_0) by {
        let s = ev[i]->Write_0;
        assert(i < upto.len());
        assert(upto[i] == ev[i]);
        assert(upto[i] is Write && upto[i]->Write_0 == s);
        assert(writes_flush_covered(upto, upto.len() as int));
        let j = choose|j: int| i < j < upto.len()
            && covering_flush(#[trigger] upto[j], upto[i]->Write_0);
        assert(ev[j] == upto[j]);
        assert(j < ev.len() - 1);
        assert(covering_flush(ev[j], s));
    }
    assert(writes_flush_covered(ev, ev.len() - 1));
}

/// End-of-device truncation is not an error: when the device length is not
/// a whole number of batches and the final chunk is fully readable, that
/// chunk is emitted valid, shorter than the nominal batch, covering exactly
/// the sectors that remain.
pub proof fn lemma_truncated_final_chunk(m: Seq<SectorHealth>, mm: int)
    requires
        1 <= mm <= u16::MAX,
        m.len() >= 1,
        m.len() <= u64::MAX,
        m.len() as int % mm != 0,
        !chunk_bad(m, mm, chunk_count(m.len() as int, mm) - 1),
    ensures
        ({
            let rec = chunk_record(m, mm, chunk_count(m.len() as int, mm) - 1);
            &&& rec.valid
            &&& rec.count == m.len() - chunk_lo(mm, chunk_count(m.len() as int, mm) - 1)
            &&& rec.count < mm
        }),
{
    let n = m.len() as int;
    let cc = chunk_count(n, mm);
    crate::geometry::lemma_chunk_count_pos(n, mm);
    crate::geometry::lemma_chunk_count_mul_bound(n, mm);
    assert((cc - 1) * mm < n) by {
        if (cc - 1) * mm >= n {
            crate::geometry::lemma_chunk_count_le(n, mm, cc - 1);
        }
    }
    assert(n < cc * mm) by {
        if n == cc * mm {
            vstd::arithmetic::div_mod::lemma_mod_multiples_basic(cc, mm);
        }
    }
    assert((cc - 1) * mm + mm == cc * mm) by (nonlinear_arith);
    assert(chunk_hi(m, mm, cc - 1) == n);
}

} // verus!
