//! The mutable state acted on by deposit processing: validator registry,
//! balance ledger, pending-deposit queue and the per-validator auxiliary
//! lists that exist from the altair fork onward.

use vstd::prelude::*;

use crate::error::EpochProcessingError;

verus! {

/// Spec parameters, passed explicitly to every call; never read from
/// process-wide state.
#[derive(Clone, Copy, Debug)]
pub struct ChainSpec {
    /// Granularity to which a deposited amount is floored.
    pub effective_balance_increment: u64,
    /// Cap on a validator's effective balance.
    pub max_effective_balance: u64,
    /// Sentinel epoch for lifecycle markers that are not yet scheduled.
    pub far_future_epoch: u64,
    /// Deposits admitted per block.
    pub max_deposits: u64,
    /// Slots in one epoch.
    pub slots_per_epoch: u64,
}

/// A deposit waiting in the pending queue: immutable once enqueued.
#[derive(Debug)]
pub struct IndexedDepositData {
    pub pubkey: Vec<u8>,
    pub withdrawal_credentials: Vec<u8>,
    pub amount: u64,
    pub index: u64,
    pub epoch: u64,
}

/// Mathematical model of a pending deposit.
#[verifier::ext_equal]
pub struct DepositModel {
    pub pubkey: Seq<u8>,
    pub withdrawal_credentials: Seq<u8>,
    pub amount: u64,
    pub index: u64,
    pub epoch: u64,
}

impl View for IndexedDepositData {
    type V = DepositModel;

    open spec fn view(&self) -> DepositModel {
        DepositModel {
            pubkey: self.pubkey@,
            withdrawal_credentials: self.withdrawal_credentials@,
            amount: self.amount,
            index: self.index,
            epoch: self.epoch,
        }
    }
}

/// A validator record; created once per distinct pubkey, never deleted.
#[derive(Debug)]
pub struct Validator {
    pub pubkey: Vec<u8>,
    pub withdrawal_credentials: Vec<u8>,
    pub effective_balance: u64,
    pub slashed: bool,
    pub activation_eligibility_epoch: u64,
    pub activation_epoch: u64,
    pub exit_epoch: u64,
    pub withdrawable_epoch: u64,
}

/// Mathematical model of a validator record.
#[verifier::ext_equal]
pub struct ValidatorModel {
    pub pubkey: Seq<u8>,
    pub withdrawal_credentials: Seq<u8>,
    pub effective_balance: u64,
    pub slashed: bool,
    pub activation_eligibility_epoch: u64,
    pub activation_epoch: u64,
    pub exit_epoch: u64,
    pub withdrawable_epoch: u64,
}

impl View for Validator {
    type V = ValidatorModel;

    open spec fn view(&self) -> ValidatorModel {
        ValidatorModel {
            pubkey: self.pubkey@,
            withdrawal_credentials: self.withdrawal_credentials@,
            effective_balance: self.effective_balance,
            slashed: self.slashed,
            activation_eligibility_epoch: self.activation_eligibility_epoch,
            activation_epoch: self.activation_epoch,
            exit_epoch: self.exit_epoch,
            withdrawable_epoch: self.withdrawable_epoch,
        }
    }
}

/// The most recent epoch boundary the network has irreversibly agreed on.
#[derive(Clone, Copy, Debug)]
pub struct Checkpoint {
    pub epoch: u64,
}

/// Everything deposit application may write: registry, ledger, the deposit
/// counter and the auxiliary per-validator lists. The pending queue and the
/// finalized checkpoint stand beside it in `BeaconStateModel`.
#[verifier::ext_equal]
pub struct RegistryModel {
    pub validators: Seq<ValidatorModel>,
    pub balances: Seq<u64>,
    pub eth1_deposit_index: u64,
    pub previous_epoch_participation: Option<Seq<u8>>,
    pub current_epoch_participation: Option<Seq<u8>>,
    pub inactivity_scores: Option<Seq<u64>>,
}

/// Mathematical model of the full state.
#[verifier::ext_equal]
pub struct BeaconStateModel {
    pub registry: RegistryModel,
    pub pending: Seq<DepositModel>,
    pub finalized_epoch: u64,
}

/// The in-memory state record. The auxiliary lists are present only from the
/// altair fork onward; a base-fork state holds `None` in each.
#[derive(Debug)]
pub struct BeaconState {
    pub validators: Vec<Validator>,
    pub balances: Vec<u64>,
    pub pending_deposits: Vec<IndexedDepositData>,
    pub eth1_deposit_index: u64,
    pub finalized_checkpoint: Checkpoint,
    pub previous_epoch_participation: Option<Vec<u8>>,
    pub current_epoch_participation: Option<Vec<u8>>,
    pub inactivity_scores: Option<Vec<u64>>,
}

pub open spec fn view_opt_seq<T>(v: Option<Vec<T>>) -> Option<Seq<T>> {
    match v {
        Some(inner) => Some(inner@),
        None => None,
    }
}

impl View for BeaconState {
    type V = BeaconStateModel;

    open spec fn view(&self) -> BeaconStateModel {
        BeaconStateModel {
            registry: RegistryModel {
                validators: self.validators@.map_values(|v: Validator| v@),
                balances: self.balances@,
                eth1_deposit_index: self.eth1_deposit_index,
                previous_epoch_participation: view_opt_seq(self.previous_epoch_participation),
                current_epoch_participation: view_opt_seq(self.current_epoch_participation),
                inactivity_scores: view_opt_seq(self.inactivity_scores),
            },
            pending: self.pending_deposits@.map_values(|d: IndexedDepositData| d@),
            finalized_epoch: self.finalized_checkpoint.epoch,
        }
    }
}

/// All per-validator parallel lists share one length: the ledger always, each
/// auxiliary list whenever it is present.
pub open spec fn registry_wf(r: RegistryModel) -> bool {
    &&& r.balances.len() == r.validators.len()
    &&& match r.previous_epoch_participation {
        Some(l) => l.len() == r.validators.len(),
        None => true,
    }
    &&& match r.current_epoch_participation {
        Some(l) => l.len() == r.validators.len(),
        None => true,
    }
    &&& match r.inactivity_scores {
        Some(l) => l.len() == r.validators.len(),
        None => true,
    }
}

/// First position in the registry holding the given pubkey, if any.
pub open spec fn find_validator(vs: Seq<ValidatorModel>, pubkey: Seq<u8>) -> Option<int>
    decreases vs.len(),
{
    if vs.len() == 0 {
        None
    } else if vs[0].pubkey == pubkey {
        Some(0)
    } else {
        match find_validator(vs.drop_first(), pubkey) {
            Some(i) => Some(i + 1),
            None => None,
        }
    }
}

/// The validator record a deposit creates: effective balance floored to the
/// increment and capped, every lifecycle marker at the far-future sentinel,
/// not slashed.
pub open spec fn validator_from_deposit(d: DepositModel, cs: ChainSpec) -> ValidatorModel
    recommends
        cs.effective_balance_increment > 0,
{
    ValidatorModel {
        pubkey: d.pubkey,
        withdrawal_credentials: d.withdrawal_credentials,
        effective_balance: crate::effective_balance(
            d.amount,
            cs.effective_balance_increment,
            cs.max_effective_balance,
        ) as u64,
        slashed: false,
        activation_eligibility_epoch: cs.far_future_epoch,
        activation_epoch: cs.far_future_epoch,
        exit_epoch: cs.far_future_epoch,
        withdrawable_epoch: cs.far_future_epoch,
    }
}

pub open spec fn push_default_flags(l: Option<Seq<u8>>) -> Option<Seq<u8>> {
    match l {
        Some(s) => Some(s.push(0u8)),
        None => None,
    }
}

pub open spec fn push_default_score(l: Option<Seq<u64>>) -> Option<Seq<u64>> {
    match l {
        Some(s) => Some(s.push(0u64)),
        None => None,
    }
}

/// One deposit applied to the registry. An unknown pubkey registers a new
/// validator and extends every parallel list by one entry; a known pubkey
/// increases its balance once. A zero increment is a configuration error; a
/// balance sum beyond `u64` is an arithmetic error.
pub open spec fn apply_deposit(r: RegistryModel, d: DepositModel, cs: ChainSpec) -> Result<
    RegistryModel,
    EpochProcessingError,
> {
    match find_validator(r.validators, d.pubkey) {
        None => if cs.effective_balance_increment == 0 {
            Err(EpochProcessingError::ConfigurationError)
        } else {
            Ok(
                RegistryModel {
                    validators: r.validators.push(validator_from_deposit(d, cs)),
                    balances: r.balances.push(d.amount),
                    eth1_deposit_index: r.eth1_deposit_index,
                    previous_epoch_participation: push_default_flags(
                        r.previous_epoch_participation,
                    ),
                    current_epoch_participation: push_default_flags(r.current_epoch_participation),
                    inactivity_scores: push_default_score(r.inactivity_scores),
                },
            )
        },
        Some(i) => if r.balances[i] + d.amount > u64::MAX {
            Err(EpochProcessingError::ArithmeticOverflow)
        } else {
            Ok(
                RegistryModel {
                    balances: r.balances.update(i, (r.balances[i] + d.amount) as u64),
                    ..r
                },
            )
        },
    }
}

/// One traversal step of the queue: an entry whose index has not yet been
/// applied is applied and advances the deposit counter by one; an
/// already-applied entry leaves the registry unchanged.
pub open spec fn process_step(r: RegistryModel, d: DepositModel, cs: ChainSpec) -> Result<
    RegistryModel,
    EpochProcessingError,
> {
    if d.index >= r.eth1_deposit_index {
        match apply_deposit(r, d, cs) {
            Ok(r2) => if r2.eth1_deposit_index == u64::MAX {
                Err(EpochProcessingError::ArithmeticOverflow)
            } else {
                Ok(RegistryModel { eth1_deposit_index: (r2.eth1_deposit_index + 1) as u64, ..r2 })
            },
            Err(e) => Err(e),
        }
    } else {
        Ok(r)
    }
}

/// Deposits processable in one epoch.
pub open spec fn deposit_cap(cs: ChainSpec) -> int {
    cs.max_deposits * cs.slots_per_epoch
}

/// The whole traversal, from cursor `i`: stops at the cap, at the end of the
/// queue, or at the first entry not yet finalized, and returns the registry
/// together with the number of entries examined.
pub open spec fn process_run(
    r: RegistryModel,
    q: Seq<DepositModel>,
    finalized_epoch: u64,
    i: int,
    cap: int,
    cs: ChainSpec,
) -> Result<(RegistryModel, int), EpochProcessingError>
    decreases q.len() - i,
{
    if i < 0 || i >= q.len() || i >= cap || q[i].epoch >= finalized_epoch {
        Ok((r, i))
    } else {
        match process_step(r, q[i], cs) {
            Ok(r2) => process_run(r2, q, finalized_epoch, i + 1, cap, cs),
            Err(e) => Err(e),
        }
    }
}

/// What `find_validator` returns: the first match, or nothing when no record
/// holds the pubkey.
pub proof fn lemma_find_validator(vs: Seq<ValidatorModel>, pubkey: Seq<u8>)
    ensures
        match find_validator(vs, pubkey) {
            Some(i) => {
                &&& 0 <= i < vs.len()
                &&& vs[i].pubkey == pubkey
                &&& forall|j: int| 0 <= j < i ==> vs[j].pubkey != pubkey
            },
            None => forall|j: int| 0 <= j < vs.len() ==> vs[j].pubkey != pubkey,
        },
    decreases vs.len(),
{
    if vs.len() > 0 && vs[0].pubkey != pubkey {
        lemma_find_validator(vs.drop_first(), pubkey);
        assert forall|j: int| 0 <= j < vs.len() && j >= 1 implies vs.drop_first()[j - 1]
            == vs[j] by {}
    }
}

/// Applying a deposit keeps every per-validator parallel list — the balance
/// ledger and each present auxiliary list — at the registry's length.
pub proof fn lemma_apply_deposit_preserves_wf(r: RegistryModel, d: DepositModel, cs: ChainSpec)
    requires
        registry_wf(r),
    ensures
        match apply_deposit(r, d, cs) {
            Ok(m) => registry_wf(m),
            Err(_) => true,
        },
{
    lemma_find_validator(r.validators, d.pubkey);
}

/// A whole traversal of the queue keeps the registry well-formed.
pub proof fn lemma_process_run_preserves_wf(
    r: RegistryModel,
    q: Seq<DepositModel>,
    finalized_epoch: u64,
    i: int,
    cap: int,
    cs: ChainSpec,
)
    requires
        registry_wf(r),
    ensures
        match process_run(r, q, finalized_epoch, i, cap, cs) {
            Ok((m, _)) => registry_wf(m),
            Err(_) => true,
        },
    decreases q.len() - i,
{
    if !(i < 0 || i >= q.len() || i >= cap || q[i].epoch >= finalized_epoch) {
        lemma_apply_deposit_preserves_wf(r, q[i], cs);
        match process_step(r, q[i], cs) {
            Ok(r2) => {
                lemma_process_run_preserves_wf(r2, q, finalized_epoch, i + 1, cap, cs);
            },
            Err(_) => {},
        }
    }
}

/// Byte-wise equality of two byte strings.
pub fn bytes_eq(a: &Vec<u8>, b: &Vec<u8>) -> (r: bool)
    ensures
        r <==> a@ == b@,
{
    if a.len() != b.len() {
        assert(a@.len() != b@.len());
        return false;
    }
    let n = a.len();
    let mut i: usize = 0;
    while i < n
        invariant
            n == a@.len() == b@.len(),
            0 <= i <= n,
            forall|j: int| 0 <= j < i ==> a@[j] == b@[j],
        decreases n - i,
    {
        if a[i] != b[i] {
            return false;
        }
        i = i + 1;
    }
    assert(a@ =~= b@);
    true
}

/// First registry position holding the given pubkey, if any.
pub fn find_validator_index(validators: &Vec<Validator>, pubkey: &Vec<u8>) -> (r: Option<usize>)
    ensures
        match r {
            Some(i) => find_validator(validators@.map_values(|v: Validator| v@), pubkey@) == Some(
                i as int,
            ),
            None => find_validator(validators@.map_values(|v: Validator| v@), pubkey@) is None,
        },
{
    let ghost vs = validators@.map_values(|v: Validator| v@);
    let n = validators.len();
    let mut i: usize = 0;
    while i < n
        invariant
            n == vs.len() == validators@.len(),
            0 <= i <= n,
            vs == validators@.map_values(|v: Validator| v@),
            forall|j: int| 0 <= j < i ==> vs[j].pubkey != pubkey@,
        decreases n - i,
    {
        if bytes_eq(&validators[i].pubkey, pubkey) {
            proof {
                assert(vs[i as int] == validators@[i as int]@);
                lemma_find_validator(vs, pubkey@);
            }
            return Some(i);
        }
        assert(vs[i as int] == validators@[i as int]@);
        i = i + 1;
    }
    proof {
        lemma_find_validator(vs, pubkey@);
    }
    None
}

impl BeaconState {
    /// Adds `amount` to the balance at `index`; fails with
    /// `ArithmeticOverflow` when the sum leaves the representable range, and
    /// then changes nothing.
    pub fn increase_balance(&mut self, index: usize, amount: u64) -> (r: Result<
        (),
        EpochProcessingError,
    >)
        requires
            index < old(self).balances@.len(),
        ensures
            match r {
                Ok(()) => {
                    &&& old(self)@.registry.balances[index as int] + amount <= u64::MAX
                    &&& final(self)@ == (BeaconStateModel {
                        registry: RegistryModel {
                            balances: old(self)@.registry.balances.update(
                                index as int,
                                (old(self)@.registry.balances[index as int] + amount) as u64,
                            ),
                            ..old(self)@.registry
                        },
                        ..old(self)@
                    })
                },
                Err(e) => {
                    &&& e == EpochProcessingError::ArithmeticOverflow
                    &&& old(self)@.registry.balances[index as int] + amount > u64::MAX
                    &&& final(self)@ == old(self)@
                },
            },
    {
        let b = self.balances[index];
        match b.checked_add(amount) {
            Some(sum) => {
                self.balances.set(index, sum);
                assert(self@ =~= (BeaconStateModel {
                    registry: RegistryModel {
                        balances: old(self)@.registry.balances.update(
                            index as int,
                            (old(self)@.registry.balances[index as int] + amount) as u64,
                        ),
                        ..old(self)@.registry
                    },
                    ..old(self)@
                }));
                Ok(())
            },
            None => Err(EpochProcessingError::ArithmeticOverflow),
        }
    }
}

} // verus!
