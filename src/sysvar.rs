use crate::layout::{
    compute_range, decode_record, decoded, in_window, lemma_record_round_trip, oldest_epoch,
    range_for, record_bytes, record_epoch, EpochMismatch, StakeHistoryEntry, COUNT_PREFIX_SIZE,
    RECORD_SIZE,
};
use pinocchio::program_error::ProgramError;
use vstd::prelude::*;

verus! {

#[verifier::external_type_specification]
#[verifier::external_body]
pub struct ExProgramError(ProgramError);

/// The address of the stake history sysvar,
/// `SysvarS1otHistory11111111111111111111111111`, as bytes.
pub open spec fn stake_history_id() -> Seq<u8> {
    seq![
        6u8, 167u8, 213u8, 23u8, 25u8, 47u8, 10u8, 175u8, 200u8, 117u8, 226u8, 225u8, 132u8,
        87u8, 124u8, 80u8, 105u8, 207u8, 200u8, 70u8, 73u8, 227u8, 235u8, 146u8, 120u8, 47u8,
        149u8, 141u8, 72u8, 0u8, 0u8, 0u8,
    ]
}

/// Returns the address of the stake history sysvar.
pub fn id() -> (r: [u8; 32])
    ensures
        r@ == stake_history_id(),
{
    let r: [u8; 32] = [
        6, 167, 213, 23, 25, 47, 10, 175, 200, 117, 226, 225, 132, 87, 124, 80, 105, 207, 200,
        70, 73, 227, 235, 146, 120, 47, 149, 141, 72, 0, 0, 0,
    ];
    assert(r@ =~= stake_history_id());
    r
}

/// Tells whether `key` is the address of the stake history sysvar.
pub fn check_id(key: &[u8; 32]) -> (r: bool)
    ensures
        r == (key@ == stake_history_id()),
{
    let expected = id();
    let mut i: usize = 0;
    while i < 32
        invariant
            0 <= i <= 32,
            expected@ == stake_history_id(),
            forall|j: int| 0 <= j < i ==> key@[j] == expected@[j],
        decreases 32 - i,
    {
        if key[i] != expected[i] {
            return false;
        }
        i = i + 1;
    }
    assert(key@ =~= stake_history_id());
    true
}

/// Relies on `pinocchio::sysvars::get_sysvar`: asks the runtime to copy
/// `dst.len()` bytes of the sysvar at address `key`, from byte `offset` on,
/// into `dst`. What lands in `dst`, and whether the call succeeds, depends
/// on the runtime.
#[verifier::external_body]
fn read_sysvar(dst: &mut [u8; 32], key: &[u8; 32], offset: usize) -> (r: Result<(), ProgramError>) {
    pinocchio::sysvars::get_sysvar(dst, key, offset)
}

/// What a lookup of `target` gives once its record was read: nothing when
/// the read failed (`None`), else the decoded record.
pub open spec fn after_read(target: u64, read: Option<Seq<u8>>) -> Result<
    Option<StakeHistoryEntry>,
    EpochMismatch,
> {
    match read {
        None => Ok(None),
        Some(b) => match decoded(b, target) {
            Ok(entry) => Ok(Some(entry)),
            Err(e) => Err(e),
        },
    }
}

/// What a lookup of `target` in epoch `current` gives, when reading its
/// record yields `read`.
pub open spec fn lookup(current: u64, target: u64, read: Option<Seq<u8>>) -> Result<
    Option<StakeHistoryEntry>,
    EpochMismatch,
> {
    match range_for(current, target) {
        None => Ok(None),
        Some(_) => after_read(target, read),
    }
}

/// Turns the outcome of reading the record of `target` into the lookup's
/// result: `read_ok` tells whether the read succeeded, `buf` holds what it
/// copied.
pub fn entry_from_read(target: u64, read_ok: bool, buf: &[u8; 32]) -> (r: Result<
    Option<StakeHistoryEntry>,
    EpochMismatch,
>)
    ensures
        r == after_read(target, if read_ok { Some(buf@) } else { None }),
{
    if !read_ok {
        return Ok(None);
    }
    match decode_record(buf, target) {
        Ok(entry) => Ok(Some(entry)),
        Err(e) => Err(e),
    }
}

/// Access to the stake history sysvar as of the current epoch it holds.
#[derive(Debug, PartialEq, Eq, Structural, Clone)]
pub struct StakeHistorySysvar(pub u64);

impl StakeHistorySysvar {
    /// Looks up the record of `target_epoch`. Gives `Ok(None)` where no record
    /// can exist or the runtime cannot read it, and `Err` where the record
    /// read holds another epoch, which breaks the sysvar's layout.
    pub fn get_entry(&self, target_epoch: u64) -> (r: Result<
        Option<StakeHistoryEntry>,
        EpochMismatch,
    >)
        ensures
            exists|read: Option<Seq<u8>>|
                {
                    &&& (read matches Some(b) ==> b.len() == 32)
                    &&& r == lookup(self.0, target_epoch, read)
                },
    {
        let (offset, _len) = match compute_range(self.0, target_epoch) {
            Some(range) => range,
            None => {
                assert(lookup(self.0, target_epoch, None) == Ok::<
                    Option<StakeHistoryEntry>,
                    EpochMismatch,
                >(None));
                return Ok(None);
            },
        };
        let mut buf = [0u8; 32];
        let key = id();
        let read = read_sysvar(&mut buf, &key, offset as usize);
        let read_ok = match read {
            Ok(()) => true,
            Err(_) => false,
        };
        let r = entry_from_read(target_epoch, read_ok, &buf);
        let ghost read_bytes: Option<Seq<u8>> = if read_ok {
            Some(buf@)
        } else {
            None
        };
        assert(r == lookup(self.0, target_epoch, read_bytes));
        r
    }
}

/// Before the first epoch has ended there is no history: every lookup gives
/// nothing, whatever a read would return.
pub proof fn lemma_nothing_at_epoch_zero(target: u64, read: Option<Seq<u8>>)
    ensures
        lookup(0, target, read) == Ok::<Option<StakeHistoryEntry>, EpochMismatch>(None),
{
}

/// The current epoch and later ones have no record yet: looking one up gives
/// nothing.
pub proof fn lemma_nothing_for_current_or_future(current: u64, target: u64, read: Option<Seq<u8>>)
    requires
        target >= current,
    ensures
        lookup(current, target, read) == Ok::<Option<StakeHistoryEntry>, EpochMismatch>(None),
{
}

/// An epoch older than the retention window has aged out: looking it up gives
/// nothing.
pub proof fn lemma_nothing_once_aged_out(current: u64, target: u64, read: Option<Seq<u8>>)
    requires
        target < oldest_epoch(current),
    ensures
        lookup(current, target, read) == Ok::<Option<StakeHistoryEntry>, EpochMismatch>(None),
{
}

/// The record of the epoch just ended lies right after the count prefix, and
/// reading back what was written there for it gives the entry written.
pub proof fn lemma_last_epoch_round_trip(epoch: u64, entry: StakeHistoryEntry)
    requires
        epoch < u64::MAX,
    ensures
        range_for((epoch + 1) as u64, epoch) == Some::<(u64, u64)>((COUNT_PREFIX_SIZE, RECORD_SIZE)),
        lookup((epoch + 1) as u64, epoch, Some(record_bytes(epoch, entry))) == Ok::<
            Option<StakeHistoryEntry>,
            EpochMismatch,
        >(Some(entry)),
{
    lemma_record_round_trip(epoch, entry);
}

/// For any epoch within the window, reading back the record written for it
/// gives the entry written.
pub proof fn lemma_window_round_trip(current: u64, target: u64, entry: StakeHistoryEntry)
    requires
        in_window(current, target),
    ensures
        lookup(current, target, Some(record_bytes(target, entry))) == Ok::<
            Option<StakeHistoryEntry>,
            EpochMismatch,
        >(Some(entry)),
{
    lemma_record_round_trip(target, entry);
}

/// A record read for an epoch within the window that holds another epoch is
/// reported as a mismatch, never as an entry or as nothing.
pub proof fn lemma_mismatch_is_reported(current: u64, target: u64, b: Seq<u8>)
    requires
        in_window(current, target),
        b.len() == RECORD_SIZE,
        record_epoch(b) != target,
    ensures
        lookup(current, target, Some(b)) == Err::<Option<StakeHistoryEntry>, EpochMismatch>(
            EpochMismatch { requested: target, recorded: record_epoch(b) },
        ),
{
}

} // verus!
