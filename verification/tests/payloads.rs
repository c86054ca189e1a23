use beacon_core::error::PayloadError;
use beacon_core::fork::ForkName;
use beacon_core::payload::{
    DepositReceipt, ExecutionPayload, ExecutionPayloadCapella, ExecutionPayloadDeneb,
    ExecutionPayloadEip6110, ExecutionPayloadMerge, PayloadBounds, PayloadCommon, Withdrawal,
};

fn bounds() -> PayloadBounds {
    PayloadBounds {
        bytes_per_logs_bloom: 256,
        max_extra_data_bytes: 32,
        max_bytes_per_transaction: 100,
        max_transactions_per_payload: 10,
        max_withdrawals_per_payload: 4,
        max_deposit_receipts_per_payload: 2,
    }
}

fn common() -> PayloadCommon {
    PayloadCommon {
        parent_hash: vec![0x11; 32],
        fee_recipient: vec![0x22; 20],
        state_root: vec![0x33; 32],
        receipts_root: vec![0x44; 32],
        logs_bloom: vec![0x55; 256],
        prev_randao: vec![0x66; 32],
        block_number: 12_345,
        gas_limit: 30_000_000,
        gas_used: 21_000,
        timestamp: 1_700_000_000,
        extra_data: vec![0xAA, 0xBB, 0xCC],
        base_fee_per_gas: vec![0x07; 32],
        block_hash: vec![0x88; 32],
        transactions: vec![vec![0x01, 0x02, 0x03], Vec::new(), vec![0xFF; 100]],
    }
}

fn withdrawals() -> Vec<Withdrawal> {
    vec![
        Withdrawal { index: 1, validator_index: 9, address: vec![0x99; 20], amount: 64 },
        Withdrawal { index: 2, validator_index: 10, address: vec![0x9A; 20], amount: 128 },
    ]
}

fn receipts() -> Vec<DepositReceipt> {
    vec![DepositReceipt {
        pubkey: vec![0xAB; 48],
        withdrawal_credentials: vec![0xCD; 32],
        amount: 32_000_000_000,
        signature: vec![0xEF; 96],
        index: 7,
    }]
}

#[test]
fn merge_round_trip() {
    let p = ExecutionPayload::Merge(ExecutionPayloadMerge { common: common() });
    let bytes = p.as_ssz_bytes();
    let q = ExecutionPayload::from_ssz_bytes(&bytes, ForkName::Merge, &bounds()).unwrap();
    assert_eq!(q.as_ssz_bytes(), bytes);
    assert_eq!(q.fork_name(), ForkName::Merge);
    assert_eq!(q.block_number(), 12_345);
    assert_eq!(q.gas_limit(), 30_000_000);
    assert_eq!(q.gas_used(), 21_000);
    assert_eq!(q.timestamp(), 1_700_000_000);
    assert_eq!(q.common().extra_data, vec![0xAA, 0xBB, 0xCC]);
    assert_eq!(q.common().transactions.len(), 3);
    assert_eq!(q.common().transactions[0], vec![0x01, 0x02, 0x03]);
    assert_eq!(q.common().transactions[1], Vec::<u8>::new());
}

#[test]
fn capella_round_trip() {
    let p = ExecutionPayload::Capella(ExecutionPayloadCapella {
        common: common(),
        withdrawals: withdrawals(),
    });
    let bytes = p.as_ssz_bytes();
    let q = ExecutionPayload::from_ssz_bytes(&bytes, ForkName::Capella, &bounds()).unwrap();
    assert_eq!(q.as_ssz_bytes(), bytes);
    assert_eq!(q.fork_name(), ForkName::Capella);
    let ws = q.withdrawals().unwrap();
    assert_eq!(ws.len(), 2);
    assert_eq!(ws[1].amount, 128);
    assert_eq!(ws[0].address, vec![0x99; 20]);
}

#[test]
fn deneb_round_trip() {
    let p = ExecutionPayload::Deneb(ExecutionPayloadDeneb {
        common: common(),
        withdrawals: withdrawals(),
        excess_data_gas: vec![0x0D; 32],
    });
    let bytes = p.as_ssz_bytes();
    let q = ExecutionPayload::from_ssz_bytes(&bytes, ForkName::Deneb, &bounds()).unwrap();
    assert_eq!(q.as_ssz_bytes(), bytes);
    assert_eq!(q.fork_name(), ForkName::Deneb);
    assert_eq!(q.excess_data_gas().unwrap(), &vec![0x0D; 32]);
}

#[test]
fn eip6110_round_trip() {
    let p = ExecutionPayload::Eip6110(ExecutionPayloadEip6110 {
        common: common(),
        withdrawals: withdrawals(),
        excess_data_gas: vec![0x0E; 32],
        deposit_receipts: receipts(),
    });
    let bytes = p.as_ssz_bytes();
    let q = ExecutionPayload::from_ssz_bytes(&bytes, ForkName::Eip6110, &bounds()).unwrap();
    assert_eq!(q.as_ssz_bytes(), bytes);
    assert_eq!(q.fork_name(), ForkName::Eip6110);
    let rs = q.deposit_receipts().unwrap();
    assert_eq!(rs.len(), 1);
    assert_eq!(rs[0].amount, 32_000_000_000);
    assert_eq!(rs[0].signature, vec![0xEF; 96]);
}

#[test]
fn empty_lists_round_trip() {
    let mut c = common();
    c.extra_data = Vec::new();
    c.transactions = Vec::new();
    let p = ExecutionPayload::Capella(ExecutionPayloadCapella {
        common: c,
        withdrawals: Vec::new(),
    });
    let bytes = p.as_ssz_bytes();
    assert_eq!(bytes.len(), 512);
    let q = ExecutionPayload::from_ssz_bytes(&bytes, ForkName::Capella, &bounds()).unwrap();
    assert_eq!(q.as_ssz_bytes(), bytes);
    assert_eq!(q.withdrawals().unwrap().len(), 0);
}

#[test]
fn pre_payload_forks_are_unsupported() {
    let p = ExecutionPayload::Merge(ExecutionPayloadMerge { common: common() });
    let bytes = p.as_ssz_bytes();
    let e = ExecutionPayload::from_ssz_bytes(&bytes, ForkName::Base, &bounds()).unwrap_err();
    assert_eq!(e, PayloadError::UnsupportedFork);
    let e = ExecutionPayload::from_ssz_bytes(&bytes, ForkName::Altair, &bounds()).unwrap_err();
    assert_eq!(e, PayloadError::UnsupportedFork);
}

#[test]
fn truncated_bytes_are_a_decode_error() {
    let p = ExecutionPayload::Merge(ExecutionPayloadMerge { common: common() });
    let bytes = p.as_ssz_bytes();
    let e = ExecutionPayload::from_ssz_bytes(&bytes[..100], ForkName::Merge, &bounds())
        .unwrap_err();
    assert_eq!(e, PayloadError::DecodeError);
    let e = ExecutionPayload::from_ssz_bytes(&[], ForkName::Merge, &bounds()).unwrap_err();
    assert_eq!(e, PayloadError::DecodeError);
}

#[test]
fn over_length_fields_are_rejected() {
    let mut c = common();
    c.extra_data = vec![0x01; 33];
    let p = ExecutionPayload::Merge(ExecutionPayloadMerge { common: c });
    let bytes = p.as_ssz_bytes();
    let e = ExecutionPayload::from_ssz_bytes(&bytes, ForkName::Merge, &bounds()).unwrap_err();
    assert_eq!(e, PayloadError::DecodeError);
}

#[test]
fn wrong_variant_field_access_is_rejected() {
    let merge = ExecutionPayload::Merge(ExecutionPayloadMerge { common: common() });
    assert_eq!(merge.withdrawals().unwrap_err(), PayloadError::IncorrectVariant);
    assert_eq!(merge.excess_data_gas().unwrap_err(), PayloadError::IncorrectVariant);
    assert_eq!(merge.deposit_receipts().unwrap_err(), PayloadError::IncorrectVariant);
    let capella = ExecutionPayload::Capella(ExecutionPayloadCapella {
        common: common(),
        withdrawals: withdrawals(),
    });
    assert_eq!(capella.excess_data_gas().unwrap_err(), PayloadError::IncorrectVariant);
    let deneb = ExecutionPayload::Deneb(ExecutionPayloadDeneb {
        common: common(),
        withdrawals: withdrawals(),
        excess_data_gas: vec![0x0D; 32],
    });
    assert_eq!(deneb.deposit_receipts().unwrap_err(), PayloadError::IncorrectVariant);
}

#[test]
fn clone_from_ref_copies_the_payload() {
    let p = ExecutionPayload::Eip6110(ExecutionPayloadEip6110 {
        common: common(),
        withdrawals: withdrawals(),
        excess_data_gas: vec![0x0E; 32],
        deposit_receipts: receipts(),
    });
    let q = p.clone_from_ref();
    assert_eq!(q.as_ssz_bytes(), p.as_ssz_bytes());
    assert_eq!(q.fork_name(), ForkName::Eip6110);
}

#[test]
fn max_payload_sizes_match_their_formulas() {
    let b = bounds();
    let merge = ExecutionPayload::max_execution_payload_merge_size(&b);
    let capella = ExecutionPayload::max_execution_payload_capella_size(&b);
    let deneb = ExecutionPayload::max_execution_payload_deneb_size(&b);
    let eip6110 = ExecutionPayload::max_execution_payload_eip6110_size(&b);
    // fixed part + extra data + transactions, each at its bound
    assert_eq!(merge, 252 + 256 + 32 + 10 * (4 + 100));
    assert_eq!(capella, 256 + 256 + 32 + 10 * (4 + 100) + 4 * 44);
    assert_eq!(deneb, 288 + 256 + 32 + 10 * (4 + 100) + 4 * 44);
    assert_eq!(eip6110, 292 + 256 + 32 + 10 * (4 + 100) + 4 * 44 + 2 * 192);
    assert!(merge <= capella && capella <= deneb && deneb <= eip6110);
}

#[test]
fn encoded_payload_never_exceeds_its_maximum_size() {
    let b = bounds();
    let p = ExecutionPayload::Eip6110(ExecutionPayloadEip6110 {
        common: common(),
        withdrawals: withdrawals(),
        excess_data_gas: vec![0x0E; 32],
        deposit_receipts: receipts(),
    });
    let bytes = p.as_ssz_bytes();
    assert!(bytes.len() <= ExecutionPayload::max_execution_payload_eip6110_size(&b));
}
