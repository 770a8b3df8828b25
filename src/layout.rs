use vstd::prelude::*;

verus! {

/// Number of epochs whose records the sysvar retains.
pub const MAX_ENTRIES: usize = 512;

/// Size in bytes of one serialized `(epoch, entry)` record.
pub const RECORD_SIZE: u64 = 32;

/// Size in bytes of the record count that precedes the records.
pub const COUNT_PREFIX_SIZE: u64 = 8;

/// Upper bound on the serialized size of the whole sysvar.
pub const TOTAL_SIZE: u64 = COUNT_PREFIX_SIZE + (MAX_ENTRIES as u64) * RECORD_SIZE;

/// The oldest epoch that can still have a record when `current` is the
/// current epoch.
pub open spec fn oldest_epoch(current: u64) -> int {
    if current >= MAX_ENTRIES {
        current - MAX_ENTRIES
    } else {
        0
    }
}

/// `target` is an epoch before `current` that has not aged out of history.
pub open spec fn in_window(current: u64, target: u64) -> bool {
    &&& current > 0
    &&& oldest_epoch(current) <= target
    &&& target < current
}

/// Byte offset of the record of `target`: records follow the count prefix,
/// newest (`current - 1`) first.
pub open spec fn record_offset(current: u64, target: u64) -> int {
    (current - 1 - target) * RECORD_SIZE + COUNT_PREFIX_SIZE
}

/// The byte range `(offset, length)` that holds the record of `target`,
/// or `None` when no record of it can exist.
pub open spec fn range_for(current: u64, target: u64) -> Option<(u64, u64)> {
    if in_window(current, target) {
        Some((record_offset(current, target) as u64, RECORD_SIZE))
    } else {
        None
    }
}

/// Computes the byte range of the record of `target_epoch` in the sysvar
/// as seen in `current_epoch`.
pub fn compute_range(current_epoch: u64, target_epoch: u64) -> (r: Option<(u64, u64)>)
    ensures
        r == range_for(current_epoch, target_epoch),
        r matches Some((offset, _)) ==> offset == record_offset(current_epoch, target_epoch),
{
    if current_epoch == 0 {
        return None;
    }
    let newest: u64 = current_epoch - 1;
    let oldest: u64 = current_epoch.saturating_sub(MAX_ENTRIES as u64);
    if target_epoch < oldest {
        return None;
    }
    if target_epoch > newest {
        return None;
    }
    let delta: u64 = newest - target_epoch;
    let scaled = match delta.checked_mul(RECORD_SIZE) {
        Some(v) => v,
        None => return None,
    };
    match scaled.checked_add(COUNT_PREFIX_SIZE) {
        Some(offset) => Some((offset, RECORD_SIZE)),
        None => None,
    }
}

/// Aggregate stake state of one epoch.
#[derive(Debug, Default, PartialEq, Eq, Structural, Clone, Copy)]
pub struct StakeHistoryEntry {
    /// Stake already in effect.
    pub effective: u64,
    /// Stake that is warming up.
    pub activating: u64,
    /// Stake that is cooling down.
    pub deactivating: u64,
}

/// The epoch stored in a record differs from the one it was read for: the
/// history skipped an epoch or its layout is not the one expected.
#[derive(Debug, PartialEq, Eq, Structural, Clone, Copy)]
pub struct EpochMismatch {
    /// The epoch whose record was requested.
    pub requested: u64,
    /// The epoch found in the record.
    pub recorded: u64,
}

/// The little-endian unsigned integer in the eight bytes of `b` from `at` on.
pub open spec fn le_u64_at(b: Seq<u8>, at: int) -> int {
    b[at] + b[at + 1] * 0x100 + b[at + 2] * 0x1_0000 + b[at + 3] * 0x100_0000
        + b[at + 4] * 0x1_0000_0000 + b[at + 5] * 0x100_0000_0000
        + b[at + 6] * 0x1_0000_0000_0000 + b[at + 7] * 0x100_0000_0000_0000
}

/// The epoch field of a record.
pub open spec fn record_epoch(b: Seq<u8>) -> u64 {
    le_u64_at(b, 0) as u64
}

/// The entry fields of a record.
pub open spec fn record_entry(b: Seq<u8>) -> StakeHistoryEntry {
    StakeHistoryEntry {
        effective: le_u64_at(b, 8) as u64,
        activating: le_u64_at(b, 16) as u64,
        deactivating: le_u64_at(b, 24) as u64,
    }
}

/// What decoding the record `b`, read for epoch `requested`, gives.
pub open spec fn decoded(b: Seq<u8>, requested: u64) -> Result<StakeHistoryEntry, EpochMismatch> {
    if record_epoch(b) == requested {
        Ok(record_entry(b))
    } else {
        Err(EpochMismatch { requested, recorded: record_epoch(b) })
    }
}

proof fn lemma_le_u64_bounds(b: Seq<u8>, at: int)
    requires
        0 <= at,
        at + 8 <= b.len(),
    ensures
        0 <= le_u64_at(b, at) <= u64::MAX,
{
}

/// Reads the little-endian `u64` in `buf[at..at + 8]`.
fn read_le_u64(buf: &[u8; 32], at: usize) -> (r: u64)
    requires
        at + 8 <= 32,
    ensures
        r == le_u64_at(buf@, at as int),
{
    proof {
        lemma_le_u64_bounds(buf@, at as int);
    }
    let b0 = buf[at] as u64;
    let b1 = buf[at + 1] as u64;
    let b2 = buf[at + 2] as u64;
    let b3 = buf[at + 3] as u64;
    let b4 = buf[at + 4] as u64;
    let b5 = buf[at + 5] as u64;
    let b6 = buf[at + 6] as u64;
    let b7 = buf[at + 7] as u64;
    b0 + b1 * 0x100 + b2 * 0x1_0000 + b3 * 0x100_0000 + b4 * 0x1_0000_0000
        + b5 * 0x100_0000_0000 + b6 * 0x1_0000_0000_0000 + b7 * 0x100_0000_0000_0000
}

/// Decodes a record read for epoch `requested`; fails when the record holds
/// another epoch.
pub fn decode_record(buf: &[u8; 32], requested: u64) -> (r: Result<StakeHistoryEntry, EpochMismatch>)
    ensures
        r == decoded(buf@, requested),
{
    let recorded = read_le_u64(buf, 0);
    let effective = read_le_u64(buf, 8);
    let activating = read_le_u64(buf, 16);
    let deactivating = read_le_u64(buf, 24);
    if recorded != requested {
        return Err(EpochMismatch { requested, recorded });
    }
    Ok(StakeHistoryEntry { effective, activating, deactivating })
}

/// The eight little-endian bytes of `v`.
pub open spec fn le_bytes(v: u64) -> Seq<u8> {
    seq![
        (v & 0xff) as u8,
        ((v >> 8u64) & 0xff) as u8,
        ((v >> 16u64) & 0xff) as u8,
        ((v >> 24u64) & 0xff) as u8,
        ((v >> 32u64) & 0xff) as u8,
        ((v >> 40u64) & 0xff) as u8,
        ((v >> 48u64) & 0xff) as u8,
        ((v >> 56u64) & 0xff) as u8,
    ]
}

/// The serialized record of `entry` for `epoch`.
pub open spec fn record_bytes(epoch: u64, entry: StakeHistoryEntry) -> Seq<u8> {
    le_bytes(epoch) + le_bytes(entry.effective) + le_bytes(entry.activating) + le_bytes(
        entry.deactivating,
    )
}

/// Reading back the bytes of a `u64` written little-endian gives that `u64`.
pub proof fn lemma_le_bytes_round_trip(v: u64)
    ensures
        le_bytes(v).len() == 8,
        le_u64_at(le_bytes(v), 0) == v,
{
    assert((v & 0xff) < 0x100 && ((v >> 8u64) & 0xff) < 0x100 && ((v >> 16u64) & 0xff) < 0x100
        && ((v >> 24u64) & 0xff) < 0x100 && ((v >> 32u64) & 0xff) < 0x100 && ((v >> 40u64)
        & 0xff) < 0x100 && ((v >> 48u64) & 0xff) < 0x100 && ((v >> 56u64) & 0xff) < 0x100)
        by (bit_vector);
    assert(v == (v & 0xff) + ((v >> 8u64) & 0xff) * 0x100 + ((v >> 16u64) & 0xff) * 0x1_0000 + ((v
        >> 24u64) & 0xff) * 0x100_0000 + ((v >> 32u64) & 0xff) * 0x1_0000_0000 + ((v >> 40u64)
        & 0xff) * 0x100_0000_0000 + ((v >> 48u64) & 0xff) * 0x1_0000_0000_0000 + ((v >> 56u64)
        & 0xff) * 0x100_0000_0000_0000) by (bit_vector);
}

/// A record written for `epoch` decodes, when read for `epoch`, to the entry
/// that was written.
pub proof fn lemma_record_round_trip(epoch: u64, entry: StakeHistoryEntry)
    ensures
        record_bytes(epoch, entry).len() == RECORD_SIZE,
        decoded(record_bytes(epoch, entry), epoch) == Ok::<StakeHistoryEntry, EpochMismatch>(entry),
{
    let b = record_bytes(epoch, entry);
    lemma_le_bytes_round_trip(epoch);
    lemma_le_bytes_round_trip(entry.effective);
    lemma_le_bytes_round_trip(entry.activating);
    lemma_le_bytes_round_trip(entry.deactivating);
    assert forall|i: int| 0 <= i < 8 implies b[i] == le_bytes(epoch)[i] && b[8 + i] == le_bytes(
        entry.effective,
    )[i] && b[16 + i] == le_bytes(entry.activating)[i] && b[24 + i] == le_bytes(
        entry.deactivating,
    )[i] by {}
    assert(le_u64_at(b, 0) == le_u64_at(le_bytes(epoch), 0));
    assert(le_u64_at(b, 8) == le_u64_at(le_bytes(entry.effective), 0));
    assert(le_u64_at(b, 16) == le_u64_at(le_bytes(entry.activating), 0));
    assert(le_u64_at(b, 24) == le_u64_at(le_bytes(entry.deactivating), 0));
}

/// An offset handed out is exact and never wrapped: it is the count prefix
/// plus one record per epoch between the newest and `target`, and the
/// record it starts lies within the largest sysvar.
pub proof fn lemma_offset_never_wraps(current: u64, target: u64)
    ensures
        range_for(current, target) matches Some((offset, len)) ==> {
            &&& offset == (current - 1 - target) * RECORD_SIZE + COUNT_PREFIX_SIZE
            &&& len == RECORD_SIZE
            &&& offset + len <= TOTAL_SIZE
        },
{
}

/// With `current` past the retention capacity, the epoch `MAX_ENTRIES + 1`
/// back has aged out while the one `MAX_ENTRIES` back is the oldest with a
/// record, which is the last in the sysvar.
pub proof fn lemma_retention_boundary(current: u64)
    requires
        current > MAX_ENTRIES,
    ensures
        range_for(current, (current - MAX_ENTRIES - 1) as u64) is None,
        range_for(current, (current - MAX_ENTRIES) as u64) == Some::<(u64, u64)>(
            ((TOTAL_SIZE - RECORD_SIZE) as u64, RECORD_SIZE),
        ),
{
}

} // verus!
