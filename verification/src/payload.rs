//! The fork-versioned execution payload: one sum type spanning four
//! successive protocol upgrades, sharing a common field prefix, identified by
//! an externally supplied fork tag and never self-describing.

use vstd::prelude::*;

use crate::error::PayloadError;
use crate::fork::ForkName;

verus! {

/// Per-payload element-count and element-size bounds, supplied by the chain
/// configuration and passed explicitly.
#[derive(Clone, Copy, Debug)]
pub struct PayloadBounds {
    pub bytes_per_logs_bloom: usize,
    pub max_extra_data_bytes: usize,
    pub max_bytes_per_transaction: usize,
    pub max_transactions_per_payload: usize,
    pub max_withdrawals_per_payload: usize,
    pub max_deposit_receipts_per_payload: usize,
}

/// A withdrawal from the validator set to an execution-layer address.
#[derive(Debug)]
pub struct Withdrawal {
    pub index: u64,
    pub validator_index: u64,
    pub address: Vec<u8>,
    pub amount: u64,
}

#[verifier::ext_equal]
pub struct WithdrawalModel {
    pub index: u64,
    pub validator_index: u64,
    pub address: Seq<u8>,
    pub amount: u64,
}

impl View for Withdrawal {
    type V = WithdrawalModel;

    open spec fn view(&self) -> WithdrawalModel {
        WithdrawalModel {
            index: self.index,
            validator_index: self.validator_index,
            address: self.address@,
            amount: self.amount,
        }
    }
}

/// A deposit surfaced by the execution layer, present only in the fourth
/// upgrade's payload.
#[derive(Debug)]
pub struct DepositReceipt {
    pub pubkey: Vec<u8>,
    pub withdrawal_credentials: Vec<u8>,
    pub amount: u64,
    pub signature: Vec<u8>,
    pub index: u64,
}

#[verifier::ext_equal]
pub struct DepositReceiptModel {
    pub pubkey: Seq<u8>,
    pub withdrawal_credentials: Seq<u8>,
    pub amount: u64,
    pub signature: Seq<u8>,
    pub index: u64,
}

impl View for DepositReceipt {
    type V = DepositReceiptModel;

    open spec fn view(&self) -> DepositReceiptModel {
        DepositReceiptModel {
            pubkey: self.pubkey@,
            withdrawal_credentials: self.withdrawal_credentials@,
            amount: self.amount,
            signature: self.signature@,
            index: self.index,
        }
    }
}

/// The shared field prefix of every payload variant, in wire order.
#[derive(Debug)]
pub struct PayloadCommon {
    pub parent_hash: Vec<u8>,
    pub fee_recipient: Vec<u8>,
    pub state_root: Vec<u8>,
    pub receipts_root: Vec<u8>,
    pub logs_bloom: Vec<u8>,
    pub prev_randao: Vec<u8>,
    pub block_number: u64,
    pub gas_limit: u64,
    pub gas_used: u64,
    pub timestamp: u64,
    pub extra_data: Vec<u8>,
    pub base_fee_per_gas: Vec<u8>,
    pub block_hash: Vec<u8>,
    pub transactions: Vec<Vec<u8>>,
}

#[verifier::ext_equal]
pub struct PayloadCommonModel {
    pub parent_hash: Seq<u8>,
    pub fee_recipient: Seq<u8>,
    pub state_root: Seq<u8>,
    pub receipts_root: Seq<u8>,
    pub logs_bloom: Seq<u8>,
    pub prev_randao: Seq<u8>,
    pub block_number: u64,
    pub gas_limit: u64,
    pub gas_used: u64,
    pub timestamp: u64,
    pub extra_data: Seq<u8>,
    pub base_fee_per_gas: Seq<u8>,
    pub block_hash: Seq<u8>,
    pub transactions: Seq<Seq<u8>>,
}

impl View for PayloadCommon {
    type V = PayloadCommonModel;

    open spec fn view(&self) -> PayloadCommonModel {
        PayloadCommonModel {
            parent_hash: self.parent_hash@,
            fee_recipient: self.fee_recipient@,
            state_root: self.state_root@,
            receipts_root: self.receipts_root@,
            prev_randao: self.prev_randao@,
            logs_bloom: self.logs_bloom@,
            block_number: self.block_number,
            gas_limit: self.gas_limit,
            gas_used: self.gas_used,
            timestamp: self.timestamp,
            extra_data: self.extra_data@,
            base_fee_per_gas: self.base_fee_per_gas@,
            block_hash: self.block_hash@,
            transactions: self.transactions@.map_values(|t: Vec<u8>| t@),
        }
    }
}

#[derive(Debug)]
pub struct ExecutionPayloadMerge {
    pub common: PayloadCommon,
}

#[derive(Debug)]
pub struct ExecutionPayloadCapella {
    pub common: PayloadCommon,
    pub withdrawals: Vec<Withdrawal>,
}

#[derive(Debug)]
pub struct ExecutionPayloadDeneb {
    pub common: PayloadCommon,
    pub withdrawals: Vec<Withdrawal>,
    pub excess_data_gas: Vec<u8>,
}

#[derive(Debug)]
pub struct ExecutionPayloadEip6110 {
    pub common: PayloadCommon,
    pub withdrawals: Vec<Withdrawal>,
    pub excess_data_gas: Vec<u8>,
    pub deposit_receipts: Vec<DepositReceipt>,
}

/// A block's execution payload, in the schema of one of four successive
/// protocol upgrades.
#[derive(Debug)]
pub enum ExecutionPayload {
    Merge(ExecutionPayloadMerge),
    Capella(ExecutionPayloadCapella),
    Deneb(ExecutionPayloadDeneb),
    Eip6110(ExecutionPayloadEip6110),
}

#[verifier::ext_equal]
pub enum PayloadModel {
    Merge { common: PayloadCommonModel },
    Capella { common: PayloadCommonModel, withdrawals: Seq<WithdrawalModel> },
    Deneb {
        common: PayloadCommonModel,
        withdrawals: Seq<WithdrawalModel>,
        excess_data_gas: Seq<u8>,
    },
    Eip6110 {
        common: PayloadCommonModel,
        withdrawals: Seq<WithdrawalModel>,
        excess_data_gas: Seq<u8>,
        deposit_receipts: Seq<DepositReceiptModel>,
    },
}

impl View for ExecutionPayload {
    type V = PayloadModel;

    open spec fn view(&self) -> PayloadModel {
        match self {
            ExecutionPayload::Merge(p) => PayloadModel::Merge { common: p.common@ },
            ExecutionPayload::Capella(p) => PayloadModel::Capella {
                common: p.common@,
                withdrawals: p.withdrawals@.map_values(|w: Withdrawal| w@),
            },
            ExecutionPayload::Deneb(p) => PayloadModel::Deneb {
                common: p.common@,
                withdrawals: p.withdrawals@.map_values(|w: Withdrawal| w@),
                excess_data_gas: p.excess_data_gas@,
            },
            ExecutionPayload::Eip6110(p) => PayloadModel::Eip6110 {
                common: p.common@,
                withdrawals: p.withdrawals@.map_values(|w: Withdrawal| w@),
                excess_data_gas: p.excess_data_gas@,
                deposit_receipts: p.deposit_receipts@.map_values(|r: DepositReceipt| r@),
            },
        }
    }
}

/// The common prefix of the payload's model, whichever variant is active.
pub open spec fn model_common(p: PayloadModel) -> PayloadCommonModel {
    match p {
        PayloadModel::Merge { common } => common,
        PayloadModel::Capella { common, .. } => common,
        PayloadModel::Deneb { common, .. } => common,
        PayloadModel::Eip6110 { common, .. } => common,
    }
}

impl ExecutionPayload {
    /// The fork tag of the active variant.
    pub fn fork_name(&self) -> (f: ForkName)
        ensures
            f == match self@ {
                PayloadModel::Merge { .. } => ForkName::Merge,
                PayloadModel::Capella { .. } => ForkName::Capella,
                PayloadModel::Deneb { .. } => ForkName::Deneb,
                PayloadModel::Eip6110 { .. } => ForkName::Eip6110,
            },
    {
        match self {
            ExecutionPayload::Merge(_) => ForkName::Merge,
            ExecutionPayload::Capella(_) => ForkName::Capella,
            ExecutionPayload::Deneb(_) => ForkName::Deneb,
            ExecutionPayload::Eip6110(_) => ForkName::Eip6110,
        }
    }

    /// The shared field prefix, readable whichever variant is active.
    pub fn common(&self) -> (c: &PayloadCommon)
        ensures
            c@ == model_common(self@),
    {
        match self {
            ExecutionPayload::Merge(p) => &p.common,
            ExecutionPayload::Capella(p) => &p.common,
            ExecutionPayload::Deneb(p) => &p.common,
            ExecutionPayload::Eip6110(p) => &p.common,
        }
    }

    /// Block number of the payload, whichever variant is active.
    pub fn block_number(&self) -> (n: u64)
        ensures
            n == model_common(self@).block_number,
    {
        self.common().block_number
    }

    /// Gas limit of the payload, whichever variant is active.
    pub fn gas_limit(&self) -> (n: u64)
        ensures
            n == model_common(self@).gas_limit,
    {
        self.common().gas_limit
    }

    /// Gas used by the payload, whichever variant is active.
    pub fn gas_used(&self) -> (n: u64)
        ensures
            n == model_common(self@).gas_used,
    {
        self.common().gas_used
    }

    /// Timestamp of the payload, whichever variant is active.
    pub fn timestamp(&self) -> (n: u64)
        ensures
            n == model_common(self@).timestamp,
    {
        self.common().timestamp
    }

    /// Withdrawals list, present from the second upgrade onward; reading it
    /// on the first upgrade's variant is an `IncorrectVariant` error.
    pub fn withdrawals(&self) -> (r: Result<&Vec<Withdrawal>, PayloadError>)
        ensures
            match r {
                Ok(ws) => match self@ {
                    PayloadModel::Merge { .. } => false,
                    PayloadModel::Capella { withdrawals, .. } => ws@.map_values(
                        |w: Withdrawal| w@,
                    ) == withdrawals,
                    PayloadModel::Deneb { withdrawals, .. } => ws@.map_values(|w: Withdrawal| w@)
                        == withdrawals,
                    PayloadModel::Eip6110 { withdrawals, .. } => ws@.map_values(
                        |w: Withdrawal| w@,
                    ) == withdrawals,
                },
                Err(e) => e == PayloadError::IncorrectVariant && self@ is Merge,
            },
    {
        match self {
            ExecutionPayload::Merge(_) => Err(PayloadError::IncorrectVariant),
            ExecutionPayload::Capella(p) => Ok(&p.withdrawals),
            ExecutionPayload::Deneb(p) => Ok(&p.withdrawals),
            ExecutionPayload::Eip6110(p) => Ok(&p.withdrawals),
        }
    }

    /// Excess-data-gas quantity, present from the third upgrade onward;
    /// anything earlier is an `IncorrectVariant` error.
    pub fn excess_data_gas(&self) -> (r: Result<&Vec<u8>, PayloadError>)
        ensures
            match r {
                Ok(x) => match self@ {
                    PayloadModel::Deneb { excess_data_gas, .. } => x@ == excess_data_gas,
                    PayloadModel::Eip6110 { excess_data_gas, .. } => x@ == excess_data_gas,
                    _ => false,
                },
                Err(e) => e == PayloadError::IncorrectVariant && (self@ is Merge || self@
                    is Capella),
            },
    {
        match self {
            ExecutionPayload::Merge(_) => Err(PayloadError::IncorrectVariant),
            ExecutionPayload::Capella(_) => Err(PayloadError::IncorrectVariant),
            ExecutionPayload::Deneb(p) => Ok(&p.excess_data_gas),
            ExecutionPayload::Eip6110(p) => Ok(&p.excess_data_gas),
        }
    }

    /// Deposit-receipts list, present only in the fourth upgrade's variant;
    /// anything earlier is an `IncorrectVariant` error.
    pub fn deposit_receipts(&self) -> (r: Result<&Vec<DepositReceipt>, PayloadError>)
        ensures
            match r {
                Ok(rs) => match self@ {
                    PayloadModel::Eip6110 { deposit_receipts, .. } => rs@.map_values(
                        |x: DepositReceipt| x@,
                    ) == deposit_receipts,
                    _ => false,
                },
                Err(e) => e == PayloadError::IncorrectVariant && !(self@ is Eip6110),
            },
    {
        match self {
            ExecutionPayload::Eip6110(p) => Ok(&p.deposit_receipts),
            _ => Err(PayloadError::IncorrectVariant),
        }
    }
}


/// Copies a byte list.
fn copy_bytes_list(src: &Vec<Vec<u8>>) -> (r: Vec<Vec<u8>>)
    ensures
        r@.map_values(|t: Vec<u8>| t@) == src@.map_values(|t: Vec<u8>| t@),
{
    let mut out: Vec<Vec<u8>> = Vec::new();
    let n = src.len();
    let mut i: usize = 0;
    while i < n
        invariant
            n == src@.len(),
            0 <= i <= n,
            out@.len() == i,
            forall|j: int| 0 <= j < i ==> out@[j]@ == src@[j]@,
        decreases n - i,
    {
        out.push(crate::altair::copy_bytes(&src[i]));
        i = i + 1;
    }
    assert(out@.map_values(|t: Vec<u8>| t@) =~= src@.map_values(|t: Vec<u8>| t@));
    out
}

/// Copies a withdrawal list.
fn copy_withdrawals(src: &Vec<Withdrawal>) -> (r: Vec<Withdrawal>)
    ensures
        r@.map_values(|w: Withdrawal| w@) == src@.map_values(|w: Withdrawal| w@),
{
    let mut out: Vec<Withdrawal> = Vec::new();
    let n = src.len();
    let mut i: usize = 0;
    while i < n
        invariant
            n == src@.len(),
            0 <= i <= n,
            out@.len() == i,
            forall|j: int| 0 <= j < i ==> out@[j]@ == src@[j]@,
        decreases n - i,
    {
        let w = &src[i];
        out.push(
            Withdrawal {
                index: w.index,
                validator_index: w.validator_index,
                address: crate::altair::copy_bytes(&w.address),
                amount: w.amount,
            },
        );
        i = i + 1;
    }
    assert(out@.map_values(|w: Withdrawal| w@) =~= src@.map_values(|w: Withdrawal| w@));
    out
}

/// Copies a deposit-receipt list.
fn copy_receipts(src: &Vec<DepositReceipt>) -> (r: Vec<DepositReceipt>)
    ensures
        r@.map_values(|x: DepositReceipt| x@) == src@.map_values(|x: DepositReceipt| x@),
{
    let mut out: Vec<DepositReceipt> = Vec::new();
    let n = src.len();
    let mut i: usize = 0;
    while i < n
        invariant
            n == src@.len(),
            0 <= i <= n,
            out@.len() == i,
            forall|j: int| 0 <= j < i ==> out@[j]@ == src@[j]@,
        decreases n - i,
    {
        let x = &src[i];
        out.push(
            DepositReceipt {
                pubkey: crate::altair::copy_bytes(&x.pubkey),
                withdrawal_credentials: crate::altair::copy_bytes(&x.withdrawal_credentials),
                amount: x.amount,
                signature: crate::altair::copy_bytes(&x.signature),
                index: x.index,
            },
        );
        i = i + 1;
    }
    assert(out@.map_values(|x: DepositReceipt| x@) =~= src@.map_values(|x: DepositReceipt| x@));
    out
}

impl PayloadCommon {
    /// Copies the shared field prefix.
    pub fn clone_from_ref(&self) -> (r: PayloadCommon)
        ensures
            r@ == self@,
    {
        PayloadCommon {
            parent_hash: crate::altair::copy_bytes(&self.parent_hash),
            fee_recipient: crate::altair::copy_bytes(&self.fee_recipient),
            state_root: crate::altair::copy_bytes(&self.state_root),
            receipts_root: crate::altair::copy_bytes(&self.receipts_root),
            logs_bloom: crate::altair::copy_bytes(&self.logs_bloom),
            prev_randao: crate::altair::copy_bytes(&self.prev_randao),
            block_number: self.block_number,
            gas_limit: self.gas_limit,
            gas_used: self.gas_used,
            timestamp: self.timestamp,
            extra_data: crate::altair::copy_bytes(&self.extra_data),
            base_fee_per_gas: crate::altair::copy_bytes(&self.base_fee_per_gas),
            block_hash: crate::altair::copy_bytes(&self.block_hash),
            transactions: copy_bytes_list(&self.transactions),
        }
    }
}

impl ExecutionPayload {
    /// Copies the payload behind a shared reference, whichever variant is
    /// active; the copy's model equals the original's.
    pub fn clone_from_ref(&self) -> (r: ExecutionPayload)
        ensures
            r@ == self@,
    {
        match self {
            ExecutionPayload::Merge(p) => ExecutionPayload::Merge(
                ExecutionPayloadMerge { common: p.common.clone_from_ref() },
            ),
            ExecutionPayload::Capella(p) => ExecutionPayload::Capella(
                ExecutionPayloadCapella {
                    common: p.common.clone_from_ref(),
                    withdrawals: copy_withdrawals(&p.withdrawals),
                },
            ),
            ExecutionPayload::Deneb(p) => ExecutionPayload::Deneb(
                ExecutionPayloadDeneb {
                    common: p.common.clone_from_ref(),
                    withdrawals: copy_withdrawals(&p.withdrawals),
                    excess_data_gas: crate::altair::copy_bytes(&p.excess_data_gas),
                },
            ),
            ExecutionPayload::Eip6110(p) => ExecutionPayload::Eip6110(
                ExecutionPayloadEip6110 {
                    common: p.common.clone_from_ref(),
                    withdrawals: copy_withdrawals(&p.withdrawals),
                    excess_data_gas: crate::altair::copy_bytes(&p.excess_data_gas),
                    deposit_receipts: copy_receipts(&p.deposit_receipts),
                },
            ),
        }
    }
}

/// Largest possible wire size of a first-upgrade payload: the fixed part at
/// full logs-bloom width, plus each variable-length field at its element
/// bound, offset overhead included.
pub open spec fn max_merge_size(b: PayloadBounds) -> int {
    252 + b.bytes_per_logs_bloom + b.max_extra_data_bytes + b.max_transactions_per_payload * (4
        + b.max_bytes_per_transaction)
}

/// Largest possible wire size of a second-upgrade payload.
pub open spec fn max_capella_size(b: PayloadBounds) -> int {
    256 + b.bytes_per_logs_bloom + b.max_extra_data_bytes + b.max_transactions_per_payload * (4
        + b.max_bytes_per_transaction) + b.max_withdrawals_per_payload * 44
}

/// Largest possible wire size of a third-upgrade payload.
pub open spec fn max_deneb_size(b: PayloadBounds) -> int {
    288 + b.bytes_per_logs_bloom + b.max_extra_data_bytes + b.max_transactions_per_payload * (4
        + b.max_bytes_per_transaction) + b.max_withdrawals_per_payload * 44
}

/// Largest possible wire size of a fourth-upgrade payload.
pub open spec fn max_eip6110_size(b: PayloadBounds) -> int {
    292 + b.bytes_per_logs_bloom + b.max_extra_data_bytes + b.max_transactions_per_payload * (4
        + b.max_bytes_per_transaction) + b.max_withdrawals_per_payload * 44
        + b.max_deposit_receipts_per_payload * 192
}

/// A later variant's bound covers every field of an earlier one and more:
/// the four maximum sizes never decrease across successive upgrades, for the
/// same bound parameters.
pub proof fn lemma_max_size_monotonic(b: PayloadBounds)
    ensures
        max_merge_size(b) <= max_capella_size(b),
        max_capella_size(b) <= max_deneb_size(b),
        max_deneb_size(b) <= max_eip6110_size(b),
{
    assert(b.max_withdrawals_per_payload * 44 >= 0) by (nonlinear_arith);
    assert(b.max_deposit_receipts_per_payload * 192 >= 0) by (nonlinear_arith);
}

impl ExecutionPayload {
    /// Returns the maximum size of a first-upgrade execution payload.
    pub fn max_execution_payload_merge_size(b: &PayloadBounds) -> (r: usize)
        requires
            max_merge_size(*b) <= usize::MAX,
        ensures
            r == max_merge_size(*b),
    {
        proof {
            let t = b.max_transactions_per_payload as int;
            let m = b.max_bytes_per_transaction as int;
            assert(t * 4 + t * m == t * (4 + m)) by (nonlinear_arith);
            assert(t * 4 >= 0 && t * m >= 0) by (nonlinear_arith)
                requires
                    t >= 0 && m >= 0,
            ;
        }
        252 + b.bytes_per_logs_bloom + b.max_extra_data_bytes + b.max_transactions_per_payload
            * 4 + b.max_transactions_per_payload * b.max_bytes_per_transaction
    }

    /// Returns the maximum size of a second-upgrade execution payload.
    pub fn max_execution_payload_capella_size(b: &PayloadBounds) -> (r: usize)
        requires
            max_capella_size(*b) <= usize::MAX,
        ensures
            r == max_capella_size(*b),
    {
        proof {
            let t = b.max_transactions_per_payload as int;
            let m = b.max_bytes_per_transaction as int;
            assert(t * 4 + t * m == t * (4 + m)) by (nonlinear_arith);
            assert(t * 4 >= 0 && t * m >= 0) by (nonlinear_arith)
                requires
                    t >= 0 && m >= 0,
            ;
            assert(b.max_withdrawals_per_payload * 44 >= 0) by (nonlinear_arith);
        }
        256 + b.bytes_per_logs_bloom + b.max_extra_data_bytes + b.max_transactions_per_payload
            * 4 + b.max_transactions_per_payload * b.max_bytes_per_transaction
            + b.max_withdrawals_per_payload * 44
    }

    /// Returns the maximum size of a third-upgrade execution payload.
    pub fn max_execution_payload_deneb_size(b: &PayloadBounds) -> (r: usize)
        requires
            max_deneb_size(*b) <= usize::MAX,
        ensures
            r == max_deneb_size(*b),
    {
        proof {
            let t = b.max_transactions_per_payload as int;
            let m = b.max_bytes_per_transaction as int;
            assert(t * 4 + t * m == t * (4 + m)) by (nonlinear_arith);
            assert(t * 4 >= 0 && t * m >= 0) by (nonlinear_arith)
                requires
                    t >= 0 && m >= 0,
            ;
            assert(b.max_withdrawals_per_payload * 44 >= 0) by (nonlinear_arith);
        }
        288 + b.bytes_per_logs_bloom + b.max_extra_data_bytes + b.max_transactions_per_payload
            * 4 + b.max_transactions_per_payload * b.max_bytes_per_transaction
            + b.max_withdrawals_per_payload * 44
    }

    /// Returns the maximum size of a fourth-upgrade execution payload.
    pub fn max_execution_payload_eip6110_size(b: &PayloadBounds) -> (r: usize)
        requires
            max_eip6110_size(*b) <= usize::MAX,
        ensures
            r == max_eip6110_size(*b),
    {
        proof {
            let t = b.max_transactions_per_payload as int;
            let m = b.max_bytes_per_transaction as int;
            assert(t * 4 + t * m == t * (4 + m)) by (nonlinear_arith);
            assert(t * 4 >= 0 && t * m >= 0) by (nonlinear_arith)
                requires
                    t >= 0 && m >= 0,
            ;
            assert(b.max_withdrawals_per_payload * 44 >= 0) by (nonlinear_arith);
            assert(b.max_deposit_receipts_per_payload * 192 >= 0) by (nonlinear_arith);
        }
        292 + b.bytes_per_logs_bloom + b.max_extra_data_bytes + b.max_transactions_per_payload
            * 4 + b.max_transactions_per_payload * b.max_bytes_per_transaction
            + b.max_withdrawals_per_payload * 44 + b.max_deposit_receipts_per_payload * 192
    }
}

} // verus!
