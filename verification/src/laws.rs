//! Whole-traversal statements about deposit processing, proved once against
//! the same model functions the executable contracts use.

use vstd::prelude::*;

use crate::state::{
    apply_deposit, deposit_cap, find_validator, lemma_apply_deposit_preserves_wf,
    lemma_find_validator, process_run, process_step, registry_wf, ChainSpec, DepositModel,
    RegistryModel,
};

verus! {

/// The smaller of a queue length and the per-epoch cap.
pub open spec fn applied_count(queue_len: int, cap: int) -> int {
    if queue_len <= cap {
        queue_len
    } else {
        cap
    }
}

proof fn lemma_run_applies_fresh(
    r: RegistryModel,
    q: Seq<DepositModel>,
    finalized_epoch: u64,
    i: int,
    cap: int,
    cs: ChainSpec,
)
    requires
        registry_wf(r),
        cs.effective_balance_increment > 0,
        0 <= i <= q.len(),
        i <= cap,
        forall|j: int| i <= j < q.len() ==> #[trigger] q[j].epoch < finalized_epoch,
        forall|j: int| i <= j < q.len() ==> #[trigger] q[j].index == r.eth1_deposit_index + (j
            - i),
        r.eth1_deposit_index + (q.len() - i) <= u64::MAX,
        forall|j: int|
            i <= j < q.len() ==> #[trigger] find_validator(r.validators, q[j].pubkey) is None,
        forall|j: int, k: int|
            #![trigger q[j].pubkey, q[k].pubkey]
            i <= j < k < q.len() ==> q[j].pubkey != q[k].pubkey,
    ensures
        ({
            let res = process_run(r, q, finalized_epoch, i, cap, cs);
            let n = applied_count(q.len() as int, cap);
            &&& res is Ok
            &&& res->Ok_0.1 == n
            &&& res->Ok_0.0.eth1_deposit_index == r.eth1_deposit_index + (n - i)
            &&& res->Ok_0.0.validators.len() == r.validators.len() + (n - i)
            &&& res->Ok_0.0.balances.len() == r.balances.len() + (n - i)
        }),
    decreases q.len() - i,
{
    if i >= q.len() || i >= cap {
    } else {
        let d = q[i];
        assert(find_validator(r.validators, d.pubkey) is None);
        let step = process_step(r, d, cs);
        let applied = apply_deposit(r, d, cs);
        assert(applied is Ok);
        lemma_apply_deposit_preserves_wf(r, d, cs);
        let r2 = step->Ok_0;
        assert(r2.validators == r.validators.push(
            crate::state::validator_from_deposit(d, cs),
        ));
        assert forall|j: int|
            i + 1 <= j < q.len() implies #[trigger] find_validator(r2.validators, q[j].pubkey)
            is None by {
            lemma_find_validator(r.validators, q[j].pubkey);
            lemma_find_validator(r2.validators, q[j].pubkey);
            assert(q[i].pubkey != q[j].pubkey);
        }
        lemma_run_applies_fresh(r2, q, finalized_epoch, i + 1, cap, cs);
    }
}

/// Sequential application: a queue of finalized, not-yet-applied deposits
/// with distinct unregistered pubkeys and indices running up from the
/// current deposit counter is applied in order; exactly the smaller of the
/// queue length and the per-epoch cap are applied, the deposit counter
/// advances by that count, and the registry and ledger each grow by it.
pub proof fn lemma_sequential_application(
    r: RegistryModel,
    q: Seq<DepositModel>,
    finalized_epoch: u64,
    cs: ChainSpec,
)
    requires
        registry_wf(r),
        cs.effective_balance_increment > 0,
        forall|j: int| 0 <= j < q.len() ==> #[trigger] q[j].epoch < finalized_epoch,
        forall|j: int| 0 <= j < q.len() ==> #[trigger] q[j].index == r.eth1_deposit_index + j,
        r.eth1_deposit_index + q.len() <= u64::MAX,
        forall|j: int|
            0 <= j < q.len() ==> #[trigger] find_validator(r.validators, q[j].pubkey) is None,
        forall|j: int, k: int|
            #![trigger q[j].pubkey, q[k].pubkey]
            0 <= j < k < q.len() ==> q[j].pubkey != q[k].pubkey,
    ensures
        ({
            let res = process_run(r, q, finalized_epoch, 0, deposit_cap(cs), cs);
            let n = applied_count(q.len() as int, deposit_cap(cs));
            &&& res is Ok
            &&& res->Ok_0.1 == n
            &&& res->Ok_0.0.eth1_deposit_index == r.eth1_deposit_index + n
            &&& res->Ok_0.0.validators.len() == r.validators.len() + n
            &&& res->Ok_0.0.balances.len() == r.balances.len() + n
        }),
{
    lemma_run_applies_fresh(r, q, finalized_epoch, 0, deposit_cap(cs), cs);
}

} // verus!
