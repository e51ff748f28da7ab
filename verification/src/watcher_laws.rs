use vstd::prelude::*;

use crate::address::Address;
use crate::seq_util::{lemma_push_fresh, lemma_without, without};
use crate::watcher_model::WatcherModel;
use crate::watcher_types::{AdminAction, ContractError, MIN_WATCHERS};

verus! {

/// Every successful operation keeps the registry consistent: no admin or
/// watcher listed twice, both sets within their caps, and the cached
/// watcher count equal to the number of watchers.
pub proof fn law_operations_keep_consistency(
    m: WatcherModel,
    caller: Address,
    a: Address,
    b: Address,
    ws: Seq<Address>,
    n: u32,
    action: AdminAction,
    ledger: u32,
)
    requires
        m.wf(),
    ensures
        m.initialize(a) matches Ok(m2) ==> m2.wf(),
        m.add_admin(caller, a) matches Ok(m2) ==> m2.wf(),
        m.remove_admin(caller, a) matches Ok(m2) ==> m2.wf(),
        m.propose_transfer(caller, a) matches Ok(m2) ==> m2.wf(),
        m.accept_transfer(a) matches Ok(m2) ==> m2.wf(),
        m.cancel_transfer(caller) matches Ok(m2) ==> m2.wf(),
        m.transfer_slot(caller, a) matches Ok(m2) ==> m2.wf(),
        m.register_watcher(caller, a) matches Ok(m2) ==> m2.wf(),
        m.register_watchers(caller, ws) matches Ok(m2) ==> m2.wf(),
        m.remove_watcher(caller, a) matches Ok(m2) ==> m2.wf(),
        m.replace_watcher(caller, a, b) matches Ok(m2) ==> m2.wf(),
        m.clear_all(caller) matches Ok(m2) ==> m2.wf(),
        m.clear_batch(caller, n) matches Ok(m2) ==> m2.wf(),
        m.set_timelock(caller, n) matches Ok(m2) ==> m2.wf(),
        m.propose_action(caller, action, ledger) matches Ok(m2) ==> m2.wf(),
        m.cancel_action(caller) matches Ok(m2) ==> m2.wf(),
        m.execute_action(caller, ledger) matches Ok(m2) ==> m2.wf(),
{
    if !m.admins.contains(a) && m.admins.len() < crate::watcher_types::MAX_ADMINS {
        lemma_push_fresh(m.admins, a);
    }
    lemma_without(m.admins, a);
    lemma_without(m.admins, caller);
    let rest = without(m.admins, caller);
    if !rest.contains(a) {
        lemma_push_fresh(rest, a);
    }
    if !m.watchers.contains(a) && m.watchers.len() < crate::watcher_types::MAX_WATCHERS {
        lemma_push_fresh(m.watchers, a);
    }
    lemma_without(m.watchers, a);
    let wrest = without(m.watchers, a);
    if !wrest.contains(b) {
        lemma_push_fresh(wrest, b);
    }
    lemma_with_watchers_wf(m, ws);
    let cut = m.batch_cut(n);
    let tail = m.watchers.subrange(cut, m.watchers.len() as int);
    assert forall|i: int, j: int| 0 <= i < tail.len() && 0 <= j < tail.len() && i != j implies tail[i]
        != tail[j] by {
        assert(tail[i] == m.watchers[cut + i]);
        assert(tail[j] == m.watchers[cut + j]);
    }
    if m.pending_action is Some {
        let act = m.pending_action->Some_0.action;
        if act is AddAdmin {
            let x = act->AddAdmin_0;
            if !m.admins.contains(x) && m.admins.len() < crate::watcher_types::MAX_ADMINS {
                lemma_push_fresh(m.admins, x);
            }
        }
    }
}

/// Adding watchers one by one keeps the registry consistent.
proof fn lemma_with_watchers_wf(m: WatcherModel, ws: Seq<Address>)
    requires
        m.wf(),
    ensures
        m.with_watchers(ws) matches Ok(m2) ==> m2.wf() && m2 == (WatcherModel {
            watchers: m2.watchers,
            watcher_count: m2.watcher_count,
            ..m
        }),
    decreases ws.len(),
{
    if ws.len() > 0 {
        lemma_with_watchers_wf(m, ws.drop_last());
        if let Ok(m1) = m.with_watchers(ws.drop_last()) {
            let w = ws.last();
            if !m1.watchers.contains(w) && m1.watchers.len() < crate::watcher_types::MAX_WATCHERS {
                lemma_push_fresh(m1.watchers, w);
            }
        }
    }
}

/// Registering a watcher twice has the effect of registering it once, and
/// adding an admin twice that of adding it once.
pub proof fn law_registration_is_idempotent(m: WatcherModel, admin: Address, x: Address)
    requires
        m.wf(),
    ensures
        m.register_watcher(admin, x) matches Ok(m1) ==> m1.register_watcher(admin, x) == Ok::<
            WatcherModel,
            ContractError,
        >(m1),
        m.add_admin(admin, x) matches Ok(m1) ==> m1.add_admin(admin, x) == Ok::<WatcherModel, ContractError>(m1),
{
    if !m.admins.contains(x) {
        assert(m.admins.push(x)[m.admins.len() as int] == x);
    }
    if !m.watchers.contains(x) {
        assert(m.watchers.push(x)[m.watchers.len() as int] == x);
    }
    if m.admins.contains(admin) {
        assert(m.admins.push(x).contains(admin)) by {
            let k = choose|k: int| 0 <= k < m.admins.len() && m.admins[k] == admin;
            assert(m.admins.push(x)[k] == admin);
        }
    }
}

/// A removal that takes a watcher out never leaves fewer than
/// [`MIN_WATCHERS`] watchers, and the removed watcher is no longer
/// authorized.
pub proof fn law_removal_keeps_minimum(m: WatcherModel, admin: Address, watcher: Address)
    requires
        m.wf(),
    ensures
        m.remove_watcher(admin, watcher) matches Ok(m2) ==> {
            &&& !m2.watchers.contains(watcher)
            &&& m.watchers.contains(watcher) ==> m2.watchers.len() >= MIN_WATCHERS
        },
{
    lemma_without(m.watchers, watcher);
}

/// A proposed admin transfer changes nothing until the proposed address
/// accepts it; accepting makes that address the sole admin and clears the
/// proposal.
pub proof fn law_transfer_takes_effect_on_acceptance(m: WatcherModel, admin: Address, new_admin: Address)
    requires
        m.wf(),
    ensures
        m.propose_transfer(admin, new_admin) matches Ok(m1) ==> {
            &&& m1.admins == m.admins
            &&& m1.watchers == m.watchers
            &&& m1.accept_transfer(new_admin) matches Ok(m2) && m2.admins == seq![new_admin]
                && m2.pending_transfer is None
        },
{
}

/// Handing over one's own admin slot leaves every other admin in place:
/// afterwards the admins are exactly the others and `new_admin`.
pub proof fn law_slot_handover_preserves_co_admins(m: WatcherModel, admin: Address, new_admin: Address, x: Address)
    requires
        m.wf(),
    ensures
        m.transfer_slot(admin, new_admin) matches Ok(m2) ==> (m2.admins.contains(x) <==> (x == new_admin || (
        m.admins.contains(x) && x != admin))),
{
    lemma_without(m.admins, admin);
    let rest = without(m.admins, admin);
    if !rest.contains(new_admin) {
        lemma_push_fresh(rest, new_admin);
    }
}

/// Replacing a watcher by another deauthorizes the old one, authorizes the
/// new one and leaves every other address as it was.
pub proof fn law_replace_swaps_membership(m: WatcherModel, admin: Address, old_w: Address, new_w: Address, x: Address)
    requires
        m.wf(),
        old_w != new_w,
    ensures
        m.replace_watcher(admin, old_w, new_w) matches Ok(m2) ==> (m2.watchers.contains(x) <==> (x == new_w || (
        m.watchers.contains(x) && x != old_w))),
{
    lemma_without(m.watchers, old_w);
    let rest = without(m.watchers, old_w);
    if !rest.contains(new_w) {
        lemma_push_fresh(rest, new_w);
    }
}

/// While paused, every state-changing call is refused: each call an admin
/// makes to change the admins, the watchers, the pending transfer, the
/// timelock or the queue gets `Paused` (the sensitive ones get
/// `TimelockRequired` first when a delay is set), and accepting a transfer
/// is refused with `Paused` for anyone; pausing itself, and the reads, stay
/// available. (`upgrade` states the same refusal in its own contract.)
pub proof fn law_pause_blocks_mutations(
    m: WatcherModel,
    admin: Address,
    a: Address,
    b: Address,
    ws: Seq<Address>,
    max_count: u32,
    delay: u32,
    action: AdminAction,
    ledger: u32,
)
    requires
        m.paused,
        m.admin_check(admin) is Ok,
    ensures
        m.remove_admin(admin, a) == Err::<WatcherModel, ContractError>(ContractError::Paused),
        m.register_watcher(admin, a) == Err::<WatcherModel, ContractError>(ContractError::Paused),
        m.register_watchers(admin, ws) == Err::<WatcherModel, ContractError>(ContractError::Paused),
        m.remove_watcher(admin, a) == Err::<WatcherModel, ContractError>(ContractError::Paused),
        m.replace_watcher(admin, a, b) == Err::<WatcherModel, ContractError>(ContractError::Paused),
        m.clear_batch(admin, max_count) == Err::<WatcherModel, ContractError>(ContractError::Paused),
        m.propose_transfer(admin, a) == Err::<WatcherModel, ContractError>(ContractError::Paused),
        m.accept_transfer(a) == Err::<WatcherModel, ContractError>(ContractError::Paused),
        m.cancel_transfer(admin) == Err::<WatcherModel, ContractError>(ContractError::Paused),
        m.set_timelock(admin, delay) == Err::<WatcherModel, ContractError>(ContractError::Paused),
        m.propose_action(admin, action, ledger) == Err::<WatcherModel, ContractError>(ContractError::Paused),
        m.cancel_action(admin) == Err::<WatcherModel, ContractError>(ContractError::Paused),
        m.execute_action(admin, ledger) == Err::<WatcherModel, ContractError>(ContractError::Paused),
        m.add_admin(admin, a) is Err,
        m.transfer_slot(admin, a) is Err,
        m.clear_all(admin) is Err,
        m.timelock_delay == 0 ==> m.add_admin(admin, a) == Err::<WatcherModel, ContractError>(ContractError::Paused),
        m.timelock_delay == 0 ==> m.transfer_slot(admin, a) == Err::<WatcherModel, ContractError>(
            ContractError::Paused,
        ),
        m.timelock_delay == 0 ==> m.clear_all(admin) == Err::<WatcherModel, ContractError>(ContractError::Paused),
{
}

/// With a timelock delay configured, an admin cannot run the sensitive
/// actions directly, nor lower the delay; the delay only ever grows outside
/// the queue.
pub proof fn law_timelock_guards_sensitive_actions(m: WatcherModel, admin: Address, a: Address, delay: u32)
    requires
        m.timelock_delay > 0,
        m.admin_check(admin) is Ok,
    ensures
        m.add_admin(admin, a) == Err::<WatcherModel, ContractError>(ContractError::TimelockRequired),
        m.transfer_slot(admin, a) == Err::<WatcherModel, ContractError>(ContractError::TimelockRequired),
        m.clear_all(admin) == Err::<WatcherModel, ContractError>(ContractError::TimelockRequired),
        delay < m.timelock_delay ==> m.set_timelock(admin, delay) is Err,
        delay < m.timelock_delay && !m.paused ==> m.set_timelock(admin, delay) == Err::<
            WatcherModel,
            ContractError,
        >(ContractError::TimelockRequired),
        m.set_timelock(admin, delay) matches Ok(m2) ==> m2.timelock_delay >= m.timelock_delay,
{
}

/// A queued action becomes executable exactly `delay` ledgers after it was
/// proposed (saturating), runs at most once, and cannot run earlier.
pub proof fn law_queued_action_waits_for_delay(
    m: WatcherModel,
    admin: Address,
    action: AdminAction,
    proposed_at: u32,
    ledger: u32,
)
    requires
        m.wf(),
        m.pending_action is None,
    ensures
        m.propose_action(admin, action, proposed_at) matches Ok(m1) ==> {
            &&& m1.pending_action matches Some(p) && p.action == action && p.proposer == admin
            &&& proposed_at + m.timelock_delay <= u32::MAX ==> m1.pending_action->Some_0.ready_at == proposed_at
                + m.timelock_delay
            &&& ledger < m1.pending_action->Some_0.ready_at ==> m1.execute_action(admin, ledger) == Err::<
                WatcherModel,
                ContractError,
            >(ContractError::TimelockNotExpired)
            &&& m1.execute_action(admin, ledger) matches Ok(m2) ==> m2.pending_action is None
                && m2.execute_action(admin, ledger) is Err
        },
{
}

/// Each batch clear takes out `min(max_count, n)` watchers from the front,
/// so repeated calls with a positive `max_count` empty any set.
pub proof fn law_batch_clear_shrinks(m: WatcherModel, admin: Address, max_count: u32)
    requires
        m.wf(),
        max_count > 0,
    ensures
        m.clear_batch(admin, max_count) matches Ok(m2) ==> {
            &&& m2.watchers == m.watchers.skip(m.batch_cut(max_count))
            &&& m.watchers.len() > 0 ==> m2.watchers.len() < m.watchers.len()
            &&& m2.watcher_count == m2.watchers.len()
        },
{
}


/// Running a queued action does exactly what the action says, once its
/// delay has elapsed: `AddAdmin(a)` leaves `a` an admin and keeps every
/// admin there was; `TransferAdmin(a)` leaves `a` the sole admin;
/// `ClearAllWatchers` leaves no watcher; `SetTimelockDelay(d)` sets the
/// delay to exactly `d`, whether that raises or lowers it; `Upgrade` changes
/// no registry state. The queue is empty afterwards. An admin can run any
/// due action other than `AddAdmin` whenever the registry is not paused.
pub proof fn law_executed_action_takes_effect(m: WatcherModel, caller: Address, ledger: u32)
    requires
        m.wf(),
    ensures
        m.execute_action(caller, ledger) matches Ok(m2) ==> {
            &&& m.pending_action is Some
            &&& ledger >= m.pending_action->Some_0.ready_at
            &&& m2.pending_action is None
            &&& match m.pending_action->Some_0.action {
                AdminAction::AddAdmin(a) => {
                    &&& m2.admins.contains(a)
                    &&& forall|x: Address| m.admins.contains(x) ==> #[trigger] m2.admins.contains(x)
                    &&& m2.watchers == m.watchers
                    &&& m2.timelock_delay == m.timelock_delay
                },
                AdminAction::TransferAdmin(a) => {
                    &&& m2.admins == seq![a]
                    &&& m2.watchers == m.watchers
                    &&& m2.timelock_delay == m.timelock_delay
                },
                AdminAction::ClearAllWatchers => {
                    &&& m2.watchers.len() == 0
                    &&& m2.watcher_count == 0
                    &&& m2.admins == m.admins
                    &&& m2.timelock_delay == m.timelock_delay
                },
                AdminAction::SetTimelockDelay(d) => {
                    &&& m2.timelock_delay == d
                    &&& m2.admins == m.admins
                    &&& m2.watchers == m.watchers
                },
                AdminAction::Upgrade(_) => {
                    &&& m2.admins == m.admins
                    &&& m2.watchers == m.watchers
                    &&& m2.timelock_delay == m.timelock_delay
                },
            }
        },
        ({
            &&& m.admin_check(caller) is Ok
            &&& !m.paused
            &&& m.pending_action matches Some(p) && ledger >= p.ready_at && !(p.action is AddAdmin)
        }) ==> m.execute_action(caller, ledger) is Ok,
{
    if let Ok(m2) = m.execute_action(caller, ledger) {
        if let AdminAction::AddAdmin(a) = m.pending_action->Some_0.action {
            if !m.admins.contains(a) {
                assert(m2.admins == m.admins.push(a));
                assert(m2.admins[m.admins.len() as int] == a);
                assert forall|x: Address| m.admins.contains(x) implies #[trigger] m2.admins.contains(x) by {
                    let i = choose|i: int| 0 <= i < m.admins.len() && m.admins[i] == x;
                    assert(m2.admins[i] == x);
                }
            }
        }
    }
}

} // verus!
