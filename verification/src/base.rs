//! Per-epoch pending-deposit processing for the base fork, before the
//! auxiliary per-validator lists exist: a base-fork state holds `None` in
//! each auxiliary slot and the registry and ledger alone grow in lockstep.

use vstd::prelude::*;

use crate::error::EpochProcessingError;
use crate::state::{
    apply_deposit, deposit_cap, find_validator_index, lemma_apply_deposit_preserves_wf,
    lemma_find_validator, process_run, process_step, registry_wf, validator_from_deposit,
    BeaconState, BeaconStateModel, ChainSpec, IndexedDepositData, RegistryModel, Validator,
};

verus! {

/// No auxiliary per-validator list is present: the shape of a base-fork
/// state.
pub open spec fn base_state(r: RegistryModel) -> bool {
    &&& r.previous_epoch_participation is None
    &&& r.current_epoch_participation is None
    &&& r.inactivity_scores is None
}

/// Builds the validator record a deposit registers. The spec parameters must
/// be well formed: a zero effective-balance increment is a fatal
/// configuration error, ruled out up front.
pub fn get_validator_from_indexed_deposit_data(
    indexed_deposit_data: &IndexedDepositData,
    chain_spec: &ChainSpec,
) -> (v: Validator)
    requires
        chain_spec.effective_balance_increment > 0,
    ensures
        v@ == validator_from_deposit(indexed_deposit_data@, *chain_spec),
{
    let amount = indexed_deposit_data.amount;
    proof {
        let a = amount as int;
        let b = chain_spec.effective_balance_increment as int;
        assert(a % b <= a) by (nonlinear_arith)
            requires
                a >= 0,
                b > 0,
        ;
    }
    let floored = amount - amount % chain_spec.effective_balance_increment;
    let effective_balance = if floored <= chain_spec.max_effective_balance {
        floored
    } else {
        chain_spec.max_effective_balance
    };
    Validator {
        pubkey: crate::altair::copy_bytes(&indexed_deposit_data.pubkey),
        withdrawal_credentials: crate::altair::copy_bytes(
            &indexed_deposit_data.withdrawal_credentials,
        ),
        effective_balance,
        slashed: false,
        activation_eligibility_epoch: chain_spec.far_future_epoch,
        activation_epoch: chain_spec.far_future_epoch,
        exit_epoch: chain_spec.far_future_epoch,
        withdrawable_epoch: chain_spec.far_future_epoch,
    }
}

/// Applies one deposit to a base-fork state: registers an unknown pubkey or
/// increases the balance of a known one exactly once. On an error the state
/// is unchanged.
pub fn apply_indexed_deposit_data(
    state: &mut BeaconState,
    indexed_deposit_data: &IndexedDepositData,
    chain_spec: &ChainSpec,
) -> (r: Result<(), EpochProcessingError>)
    requires
        registry_wf(old(state)@.registry),
        base_state(old(state)@.registry),
        chain_spec.effective_balance_increment > 0,
    ensures
        match apply_deposit(old(state)@.registry, indexed_deposit_data@, *chain_spec) {
            Ok(m) => r == Ok::<(), EpochProcessingError>(()) && final(state)@ == (BeaconStateModel {
                registry: m,
                ..old(state)@
            }),
            Err(e) => r == Err::<(), EpochProcessingError>(e) && final(state)@ == old(state)@,
        },
{
    match find_validator_index(&state.validators, &indexed_deposit_data.pubkey) {
        None => {
            let validator = get_validator_from_indexed_deposit_data(
                indexed_deposit_data,
                chain_spec,
            );
            state.validators.push(validator);
            state.balances.push(indexed_deposit_data.amount);
            proof {
                let m = apply_deposit(old(state)@.registry, indexed_deposit_data@, *chain_spec);
                assert(state@.registry.validators =~= old(state)@.registry.validators.push(
                    validator_from_deposit(indexed_deposit_data@, *chain_spec),
                ));
                assert(state@ =~~= (BeaconStateModel { registry: m->Ok_0, ..old(state)@ }));
            }
            Ok(())
        },
        Some(index) => {
            proof {
                lemma_find_validator(
                    old(state)@.registry.validators,
                    indexed_deposit_data@.pubkey,
                );
            }
            state.increase_balance(index, indexed_deposit_data.amount)?;
            Ok(())
        },
    }
}

/// Drains the pending-deposit queue of a base-fork state once per epoch, in
/// order, under the per-epoch cap and the finality gate, and removes every
/// examined entry. On an error the caller discards the state.
pub fn process_pending_deposits(state: &mut BeaconState, chain_spec: &ChainSpec) -> (r: Result<
    (),
    EpochProcessingError,
>)
    requires
        registry_wf(old(state)@.registry),
        base_state(old(state)@.registry),
        chain_spec.effective_balance_increment > 0,
        chain_spec.max_deposits * chain_spec.slots_per_epoch <= u64::MAX,
    ensures
        match process_run(
            old(state)@.registry,
            old(state)@.pending,
            old(state)@.finalized_epoch,
            0,
            deposit_cap(*chain_spec),
            *chain_spec,
        ) {
            Ok((m, n)) => r == Ok::<(), EpochProcessingError>(()) && final(state)@
                == (BeaconStateModel {
                registry: m,
                pending: old(state)@.pending.skip(n),
                finalized_epoch: old(state)@.finalized_epoch,
            }),
            Err(e) => r == Err::<(), EpochProcessingError>(e),
        },
{
    let ghost q = state@.pending;
    let ghost fin = state@.finalized_epoch;
    let ghost cap = deposit_cap(*chain_spec);
    let ghost r0 = state@.registry;
    let cap_u64: u64 = chain_spec.max_deposits * chain_spec.slots_per_epoch;
    let mut processed: u64 = 0;
    loop
        invariant
            chain_spec.max_deposits * chain_spec.slots_per_epoch <= u64::MAX,
            chain_spec.effective_balance_increment > 0,
            cap_u64 == cap,
            cap == deposit_cap(*chain_spec),
            r0 == old(state)@.registry,
            q == old(state)@.pending,
            fin == old(state)@.finalized_epoch,
            0 <= processed <= q.len(),
            processed <= cap,
            registry_wf(state@.registry),
            base_state(state@.registry),
            state@.pending =~= q.skip(processed as int),
            state@.finalized_epoch == fin,
            process_run(r0, q, fin, 0, cap, *chain_spec) == process_run(
                state@.registry,
                q,
                fin,
                processed as int,
                cap,
                *chain_spec,
            ),
        ensures
            0 <= processed <= q.len(),
            process_run(r0, q, fin, 0, cap, *chain_spec) == Ok::<
                (RegistryModel, int),
                EpochProcessingError,
            >((state@.registry, processed as int)),
            state@.pending =~= q.skip(processed as int),
            state@.finalized_epoch == fin,
        decreases q.len() - processed,
    {
        if processed >= cap_u64 {
            break ;
        }
        if state.pending_deposits.len() == 0 {
            proof {
                assert(state@.pending.len() == state.pending_deposits@.len());
                assert(q.skip(processed as int).len() == q.len() - processed);
            }
            break ;
        }
        proof {
            assert(state@.pending.len() == state.pending_deposits@.len());
            assert(q.skip(processed as int).len() == q.len() - processed);
            assert(processed < q.len());
            assert(q.skip(processed as int)[0] == q[processed as int]);
        }
        assert(state@.pending[0] == q[processed as int]);
        if state.pending_deposits[0].epoch >= state.finalized_checkpoint.epoch {
            assert(q[processed as int].epoch >= fin);
            break ;
        }
        let ghost pend_before = state@.pending;
        let ghost vec_before = state.pending_deposits@;
        let deposit = state.pending_deposits.remove(0);
        assert(deposit@ == pend_before[0]);
        proof {
            assert(state@.pending.len() == state.pending_deposits@.len());
            assert(vec_before.len() == pend_before.len());
            assert(pend_before.len() == q.len() - processed);
            assert(state@.pending.len() == q.len() - processed - 1);
            assert forall|j: int| 0 <= j < state@.pending.len() implies state@.pending[j]
                == q.skip(processed + 1)[j] by {
                assert(state@.pending[j] == state.pending_deposits@[j]@);
                assert(state.pending_deposits@[j] == vec_before[j + 1]);
                assert(pend_before[j + 1] == vec_before[j + 1]@);
                assert(q.skip(processed as int)[j + 1] == q[processed + j + 1]);
                assert(q.skip(processed + 1)[j] == q[processed + 1 + j]);
                assert(pend_before[j + 1] == q[processed + 1 + j]);
            }
            assert(state@.pending.len() == q.skip(processed + 1).len());
            assert(state@.pending =~= q.skip(processed + 1));
        }
        let ghost r_before = state@.registry;
        if deposit.index >= state.eth1_deposit_index {
            match apply_indexed_deposit_data(state, &deposit, chain_spec) {
                Ok(()) => (),
                Err(e) => {
                    assert(process_run(r0, q, fin, 0, cap, *chain_spec) == Err::<
                        (RegistryModel, int),
                        EpochProcessingError,
                    >(e));
                    return Err(e);
                },
            }
            if state.eth1_deposit_index == u64::MAX {
                assert(process_run(r0, q, fin, 0, cap, *chain_spec) == Err::<
                    (RegistryModel, int),
                    EpochProcessingError,
                >(EpochProcessingError::ArithmeticOverflow));
                return Err(EpochProcessingError::ArithmeticOverflow);
            }
            state.eth1_deposit_index = state.eth1_deposit_index + 1;
            proof {
                lemma_apply_deposit_preserves_wf(r_before, q[processed as int], *chain_spec);
                assert(state@.registry =~= process_step(
                    r_before,
                    q[processed as int],
                    *chain_spec,
                )->Ok_0);
            }
        } else {
            assert(process_step(r_before, q[processed as int], *chain_spec) == Ok::<
                RegistryModel,
                EpochProcessingError,
            >(r_before));
        }
        processed = processed + 1;
    }
    Ok(())
}

} // verus!
