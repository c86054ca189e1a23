use beacon_core::error::EpochProcessingError;
use beacon_core::altair;
use beacon_core::base;
use beacon_core::state::{BeaconState, ChainSpec, Checkpoint, IndexedDepositData};

const FAR_FUTURE: u64 = u64::MAX;

fn spec_params(max_deposits: u64, slots_per_epoch: u64) -> ChainSpec {
    ChainSpec {
        effective_balance_increment: 1_000_000_000,
        max_effective_balance: 32_000_000_000,
        far_future_epoch: FAR_FUTURE,
        max_deposits,
        slots_per_epoch,
    }
}

fn deposit(tag: u8, amount: u64, index: u64, epoch: u64) -> IndexedDepositData {
    IndexedDepositData {
        pubkey: vec![tag; 48],
        withdrawal_credentials: vec![tag; 32],
        amount,
        index,
        epoch,
    }
}

fn altair_state(deposits: Vec<IndexedDepositData>, finalized: u64) -> BeaconState {
    BeaconState {
        validators: Vec::new(),
        balances: Vec::new(),
        pending_deposits: deposits,
        eth1_deposit_index: 0,
        finalized_checkpoint: Checkpoint { epoch: finalized },
        previous_epoch_participation: Some(Vec::new()),
        current_epoch_participation: Some(Vec::new()),
        inactivity_scores: Some(Vec::new()),
    }
}

fn base_state(deposits: Vec<IndexedDepositData>, finalized: u64) -> BeaconState {
    BeaconState {
        validators: Vec::new(),
        balances: Vec::new(),
        pending_deposits: deposits,
        eth1_deposit_index: 0,
        finalized_checkpoint: Checkpoint { epoch: finalized },
        previous_epoch_participation: None,
        current_epoch_participation: None,
        inactivity_scores: None,
    }
}

#[test]
fn effective_balance_is_floored_to_increment() {
    let cs = spec_params(16, 32);
    let d = deposit(1, 16_300_000_000, 0, 1);
    let v = altair::get_validator_from_indexed_deposit_data(&d, &cs).unwrap();
    assert_eq!(v.effective_balance, 16_000_000_000);
    assert!(!v.slashed);
    assert_eq!(v.activation_epoch, FAR_FUTURE);
    assert_eq!(v.activation_eligibility_epoch, FAR_FUTURE);
    assert_eq!(v.exit_epoch, FAR_FUTURE);
    assert_eq!(v.withdrawable_epoch, FAR_FUTURE);
    assert_eq!(v.pubkey, vec![1u8; 48]);
}

#[test]
fn effective_balance_is_capped_at_maximum() {
    let cs = spec_params(16, 32);
    let d = deposit(2, 32_500_000_000, 0, 1);
    let v = altair::get_validator_from_indexed_deposit_data(&d, &cs).unwrap();
    assert_eq!(v.effective_balance, 32_000_000_000);
    let vb = base::get_validator_from_indexed_deposit_data(&d, &cs);
    assert_eq!(vb.effective_balance, 32_000_000_000);
}

#[test]
fn zero_increment_is_a_configuration_error() {
    let mut cs = spec_params(16, 32);
    cs.effective_balance_increment = 0;
    let d = deposit(3, 1_000, 0, 1);
    let r = altair::get_validator_from_indexed_deposit_data(&d, &cs);
    assert_eq!(r.unwrap_err(), EpochProcessingError::ConfigurationError);
}

#[test]
fn sequential_application_applies_whole_queue_under_cap() {
    let cs = spec_params(16, 32);
    let deposits = vec![
        deposit(1, 32_000_000_000, 0, 1),
        deposit(2, 31_000_000_000, 1, 1),
        deposit(3, 30_000_000_000, 2, 2),
    ];
    let mut state = altair_state(deposits, 5);
    altair::process_pending_deposits(&mut state, &cs).unwrap();
    assert_eq!(state.validators.len(), 3);
    assert_eq!(state.balances.len(), 3);
    assert_eq!(state.eth1_deposit_index, 3);
    assert_eq!(state.pending_deposits.len(), 0);
    assert_eq!(state.balances, vec![32_000_000_000, 31_000_000_000, 30_000_000_000]);
}

#[test]
fn cap_enforcement_applies_two_of_five() {
    let cs = spec_params(2, 1);
    let deposits = vec![
        deposit(1, 1_000_000_000, 0, 1),
        deposit(2, 1_000_000_000, 1, 1),
        deposit(3, 1_000_000_000, 2, 1),
        deposit(4, 1_000_000_000, 3, 1),
        deposit(5, 1_000_000_000, 4, 1),
    ];
    let mut state = altair_state(deposits, 5);
    altair::process_pending_deposits(&mut state, &cs).unwrap();
    assert_eq!(state.validators.len(), 2);
    assert_eq!(state.eth1_deposit_index, 2);
    assert_eq!(state.pending_deposits.len(), 3);
    assert_eq!(state.pending_deposits[0].pubkey, vec![3u8; 48]);
}

#[test]
fn finality_gating_halts_at_unfinalized_epoch() {
    let cs = spec_params(16, 32);
    let deposits = vec![
        deposit(1, 1_000_000_000, 0, 3),
        deposit(2, 1_000_000_000, 1, 3),
        deposit(3, 1_000_000_000, 2, 5),
    ];
    let mut state = altair_state(deposits, 4);
    altair::process_pending_deposits(&mut state, &cs).unwrap();
    assert_eq!(state.validators.len(), 2);
    assert_eq!(state.eth1_deposit_index, 2);
    assert_eq!(state.pending_deposits.len(), 1);
    assert_eq!(state.pending_deposits[0].epoch, 5);
}

#[test]
fn duplicate_pubkey_increases_balance_exactly_once() {
    let cs = spec_params(16, 32);
    let deposits = vec![
        deposit(7, 10_000_000_000, 0, 1),
        deposit(7, 5_000_000_000, 1, 1),
    ];
    let mut state = altair_state(deposits, 4);
    altair::process_pending_deposits(&mut state, &cs).unwrap();
    assert_eq!(state.validators.len(), 1);
    assert_eq!(state.balances, vec![15_000_000_000]);
    assert_eq!(state.eth1_deposit_index, 2);
}

#[test]
fn already_applied_deposit_consumes_slot_without_effect() {
    let cs = spec_params(16, 32);
    let mut state = altair_state(vec![deposit(8, 1_000_000_000, 0, 1)], 4);
    state.eth1_deposit_index = 5;
    altair::process_pending_deposits(&mut state, &cs).unwrap();
    assert_eq!(state.validators.len(), 0);
    assert_eq!(state.eth1_deposit_index, 5);
    assert_eq!(state.pending_deposits.len(), 0);
}

#[test]
fn registry_balance_and_auxiliary_lists_stay_parallel() {
    let cs = spec_params(16, 32);
    let deposits = vec![
        deposit(1, 1_000_000_000, 0, 1),
        deposit(2, 2_000_000_000, 1, 1),
        deposit(1, 3_000_000_000, 2, 2),
        deposit(3, 4_000_000_000, 3, 2),
    ];
    let mut state = altair_state(deposits, 4);
    altair::process_pending_deposits(&mut state, &cs).unwrap();
    let n = state.validators.len();
    assert_eq!(n, 3);
    assert_eq!(state.balances.len(), n);
    assert_eq!(state.previous_epoch_participation.as_ref().unwrap().len(), n);
    assert_eq!(state.current_epoch_participation.as_ref().unwrap().len(), n);
    assert_eq!(state.inactivity_scores.as_ref().unwrap().len(), n);
}

#[test]
fn balance_overflow_aborts_processing() {
    let cs = spec_params(16, 32);
    let deposits = vec![
        deposit(9, u64::MAX - 5, 0, 1),
        deposit(9, 100, 1, 1),
    ];
    let mut state = altair_state(deposits, 4);
    let err = altair::process_pending_deposits(&mut state, &cs).unwrap_err();
    assert_eq!(err, EpochProcessingError::ArithmeticOverflow);
}

#[test]
fn increase_balance_checks_for_overflow() {
    let cs = spec_params(16, 32);
    let mut state = altair_state(vec![deposit(1, 1_000_000_000, 0, 1)], 4);
    altair::process_pending_deposits(&mut state, &cs).unwrap();
    state.increase_balance(0, 7).unwrap();
    assert_eq!(state.balances[0], 1_000_000_007);
    let err = state.increase_balance(0, u64::MAX).unwrap_err();
    assert_eq!(err, EpochProcessingError::ArithmeticOverflow);
    assert_eq!(state.balances[0], 1_000_000_007);
}

#[test]
fn base_processing_matches_altair_without_auxiliary_lists() {
    let cs = spec_params(16, 32);
    let deposits = vec![
        deposit(1, 32_000_000_000, 0, 1),
        deposit(1, 1_000_000_000, 1, 1),
        deposit(2, 2_000_000_000, 2, 1),
    ];
    let mut state = base_state(deposits, 4);
    base::process_pending_deposits(&mut state, &cs).unwrap();
    assert_eq!(state.validators.len(), 2);
    assert_eq!(state.balances, vec![33_000_000_000, 2_000_000_000]);
    assert_eq!(state.eth1_deposit_index, 3);
    assert!(state.previous_epoch_participation.is_none());
    assert!(state.inactivity_scores.is_none());
}

#[test]
fn base_apply_registers_and_tops_up() {
    let cs = spec_params(16, 32);
    let mut state = base_state(Vec::new(), 4);
    base::apply_indexed_deposit_data(&mut state, &deposit(4, 5_000_000_000, 0, 1), &cs).unwrap();
    assert_eq!(state.validators.len(), 1);
    assert_eq!(state.validators[0].effective_balance, 5_000_000_000);
    base::apply_indexed_deposit_data(&mut state, &deposit(4, 1_500_000_000, 1, 1), &cs).unwrap();
    assert_eq!(state.validators.len(), 1);
    assert_eq!(state.balances, vec![6_500_000_000]);
}

#[test]
fn hex_decoding_reads_digit_pairs() {
    assert_eq!(beacon_core::hex::decode_hex(b"0aFf10"), Some(vec![0x0a, 0xff, 0x10]));
    assert_eq!(beacon_core::hex::decode_hex(b""), Some(Vec::new()));
    assert_eq!(beacon_core::hex::decode_hex(b"abc"), None);
    assert_eq!(beacon_core::hex::decode_hex(b"zz"), None);
}
