use stake_history::layout::{EpochMismatch, StakeHistoryEntry};
use stake_history::sysvar::{check_id, entry_from_read, id, StakeHistorySysvar};

fn record(epoch: u64, entry: &StakeHistoryEntry) -> [u8; 32] {
    let mut b = [0u8; 32];
    b[0..8].copy_from_slice(&epoch.to_le_bytes());
    b[8..16].copy_from_slice(&entry.effective.to_le_bytes());
    b[16..24].copy_from_slice(&entry.activating.to_le_bytes());
    b[24..32].copy_from_slice(&entry.deactivating.to_le_bytes());
    b
}

#[test]
fn id_matches_base58_address() {
    assert_eq!(id(), pinocchio_pubkey::from_str("SysvarS1otHistory11111111111111111111111111"));
}

#[test]
fn check_id_accepts_only_the_address() {
    assert!(check_id(&id()));
    let mut other = id();
    other[31] = 1;
    assert!(!check_id(&other));
    assert!(!check_id(&[0u8; 32]));
}

#[test]
fn get_entry_at_epoch_zero_is_none() {
    let sysvar = StakeHistorySysvar(0);
    assert_eq!(sysvar.get_entry(0), Ok(None));
    assert_eq!(sysvar.get_entry(1), Ok(None));
    assert_eq!(sysvar.get_entry(u64::MAX), Ok(None));
}

#[test]
fn get_entry_current_or_future_is_none() {
    let sysvar = StakeHistorySysvar(514);
    assert_eq!(sysvar.get_entry(514), Ok(None));
    assert_eq!(sysvar.get_entry(515), Ok(None));
}

#[test]
fn get_entry_aged_out_is_none() {
    let sysvar = StakeHistorySysvar(514);
    assert_eq!(sysvar.get_entry(0), Ok(None));
    assert_eq!(sysvar.get_entry(1), Ok(None));
    let sysvar = StakeHistorySysvar(600);
    assert_eq!(sysvar.get_entry(87), Ok(None));
}

// Outside the Solana runtime the read succeeds and leaves the buffer zeroed,
// which is the record of epoch zero with an empty entry.
#[test]
fn get_entry_off_chain_reads_zeroed_record() {
    let sysvar = StakeHistorySysvar(1);
    assert_eq!(sysvar.get_entry(0), Ok(Some(StakeHistoryEntry::default())));
    let sysvar = StakeHistorySysvar(600);
    assert_eq!(sysvar.get_entry(88), Err(EpochMismatch { requested: 88, recorded: 0 }));
}

#[test]
fn failed_read_gives_none() {
    let entry = StakeHistoryEntry { effective: 9, activating: 8, deactivating: 7 };
    assert_eq!(entry_from_read(5, false, &record(5, &entry)), Ok(None));
}

#[test]
fn read_record_round_trip() {
    let entry = StakeHistoryEntry { effective: 10, activating: 4, deactivating: 6 };
    assert_eq!(entry_from_read(999, true, &record(999, &entry)), Ok(Some(entry)));
}

#[test]
fn read_record_of_other_epoch_is_fault() {
    let entry = StakeHistoryEntry { effective: 10, activating: 4, deactivating: 6 };
    assert_eq!(
        entry_from_read(999, true, &record(998, &entry)),
        Err(EpochMismatch { requested: 999, recorded: 998 })
    );
}
