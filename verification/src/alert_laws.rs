use vstd::prelude::*;

use crate::address::Address;
use crate::alert_error::ContractError;
use crate::alert_model::{live_configs, RegistryModel};
use crate::alert_types::{AlertInputView, AlertView, MAX_LABEL_LEN};
use crate::rules::rules_verdict;
use crate::seq_util::{lemma_without, without};

verus! {

/// Ids come from a counter that only moves forward: a registration hands
/// out the current counter value, an id no stored alert carries, and
/// advances the counter by one; removing alerts never moves it back.
pub proof fn law_ids_are_fresh_and_counter_monotonic(
    m: RegistryModel,
    owner: Address,
    target: Address,
    label: Seq<u8>,
    webhook_hash: [u8; 32],
    rules: Seq<Seq<u8>>,
    now: u64,
    ledger: u32,
    caller: Address,
    id: u64,
    ids: Seq<u64>,
)
    requires
        m.wf(),
        m.has_room(1),
    ensures
        m.register(owner, target, label, webhook_hash, rules, now, ledger) matches Ok((m2, new_id)) ==> {
            &&& new_id == m.next_id
            &&& !m.alerts.contains_key(new_id)
            &&& m2.next_id == m.next_id + 1
            &&& m2.alerts.contains_key(new_id)
        },
        m.remove_alert(caller, id) matches Ok(m2) ==> m2.next_id == m.next_id,
        m.remove_by_admin(caller, id) matches Ok(m2) ==> m2.next_id == m.next_id,
        m.remove_all(caller, ids) matches Ok(m2) ==> m2.next_id == m.next_id,
{
    lemma_remove_all_keeps_counter(m, caller, ids);
}

/// Removing alerts one by one leaves the id counter where it was.
proof fn lemma_remove_all_keeps_counter(m: RegistryModel, caller: Address, ids: Seq<u64>)
    ensures
        m.remove_all(caller, ids) matches Ok(m2) ==> m2.next_id == m.next_id,
    decreases ids.len(),
{
    if ids.len() > 0 {
        lemma_remove_all_keeps_counter(m, caller, ids.drop_last());
    }
}

/// A removed alert is gone for good: its id is below the counter, so no
/// registration hands it out again.
pub proof fn law_removal_is_final(m: RegistryModel, caller: Address, admin: Address, id: u64)
    requires
        m.wf(),
    ensures
        m.remove_alert(caller, id) matches Ok(m2) ==> !m2.alerts.contains_key(id) && id < m2.next_id,
        m.remove_by_admin(admin, id) matches Ok(m2) ==> !m2.alerts.contains_key(id) && id < m2.next_id,
{
}

/// An id with no stored alert cannot be read back into life: every
/// operation on it fails, a registration hands out another id, and
/// operations on other alerts leave it absent.
pub proof fn law_missing_alert_is_inert(
    m: RegistryModel,
    caller: Address,
    id: u64,
    other: u64,
    rules: Seq<Seq<u8>>,
    active: bool,
    hash: [u8; 32],
    label: Seq<u8>,
    a: Address,
    now: u64,
    ledger: u32,
)
    requires
        m.wf(),
        !m.alerts.contains_key(id),
        id < m.next_id,
    ensures
        m.update_alert(caller, id, rules, active, now, ledger) is Err,
        m.update_webhook(caller, id, hash, now, ledger) is Err,
        m.propose_webhook(caller, id, hash) is Err,
        m.confirm_webhook(caller, id, now, ledger) is Err,
        m.cancel_webhook(caller, id, now, ledger) is Err,
        m.update_label(caller, id, label, now, ledger) is Err,
        m.remove_alert(caller, id) is Err,
        m.remove_by_admin(caller, id) is Err,
        m.deactivate_by_admin(caller, id, now, ledger) is Err,
        m.transfer_ownership(caller, id, a, now, ledger) is Err,
        m.retarget(caller, id, a, now, ledger) is Err,
        m.register(caller, a, label, hash, rules, now, ledger) matches Ok((m2, new_id)) ==> new_id != id
            && !m2.alerts.contains_key(id),
        m.update_alert(caller, other, rules, active, now, ledger) matches Ok(m2) ==> !m2.alerts.contains_key(id),
        m.update_webhook(caller, other, hash, now, ledger) matches Ok(m2) ==> !m2.alerts.contains_key(id),
        m.propose_webhook(caller, other, hash) matches Ok(m2) ==> !m2.alerts.contains_key(id),
        m.confirm_webhook(caller, other, now, ledger) matches Ok(m2) ==> !m2.alerts.contains_key(id),
        m.cancel_webhook(caller, other, now, ledger) matches Ok(m2) ==> !m2.alerts.contains_key(id),
        m.update_label(caller, other, label, now, ledger) matches Ok(m2) ==> !m2.alerts.contains_key(id),
        m.deactivate_by_admin(caller, other, now, ledger) matches Ok(m2) ==> !m2.alerts.contains_key(id),
        m.transfer_ownership(caller, other, a, now, ledger) matches Ok(m2) ==> !m2.alerts.contains_key(id),
        m.retarget(caller, other, a, now, ledger) matches Ok(m2) ==> !m2.alerts.contains_key(id),
        !m.deactivate_all(a, now, ledger).alerts.contains_key(id),
{
}

/// Removing an alert frees a place under its owner's limit: the owner's
/// live count and index both shrink by one.
pub proof fn law_removal_frees_owner_quota(m: RegistryModel, caller: Address, id: u64)
    requires
        m.wf(),
    ensures
        m.remove_alert(caller, id) matches Ok(m2) ==> {
            &&& m2.owner_ids(caller).len() == m.owner_ids(caller).len() - 1
            &&& m2.live_count(caller) == m.live_count(caller) - 1
            &&& !m2.owner_ids(caller).contains(id)
        },
{
    if let Ok(m2) = m.remove_alert(caller, id) {
        lemma_without(m.owner_ids(caller), id);
        let c = m.alerts[id];
        assert(c.owner == caller);
        assert(m.owner_ids(caller).contains(id));
        let m1 = RegistryModel { alerts: m.alerts.remove(id), active: m.active.remove(id), ..m };
        assert(m1.owner_ids(caller) == m.owner_ids(caller));
        assert(m1.live_count(caller) == m.live_count(caller));
    }
}

/// While paused, every alert mutation is refused with `Paused`: no owner
/// can register, change, rotate, renew, transfer, retarget, deactivate or
/// remove an alert, alone or in a batch, nobody can bump one, and an admin
/// cannot deactivate or remove one either. (The admin configuration calls
/// state the same refusal in their own contracts.)
pub proof fn law_pause_blocks_alert_mutations(
    m: RegistryModel,
    caller: Address,
    id: u64,
    target: Address,
    new_owner: Address,
    rules: Seq<Seq<u8>>,
    active: bool,
    hash: [u8; 32],
    label: Seq<u8>,
    ids: Seq<u64>,
    inputs: Seq<AlertInputView>,
    now: u64,
    ledger: u32,
)
    requires
        m.paused,
    ensures
        m.register(caller, target, label, hash, rules, now, ledger) == Err::<(RegistryModel, u64), ContractError>(
            ContractError::Paused,
        ),
        m.register_all(inputs, now, ledger) == Err::<(RegistryModel, Seq<u64>), ContractError>(
            ContractError::Paused,
        ),
        m.update_alert(caller, id, rules, active, now, ledger) == Err::<RegistryModel, ContractError>(
            ContractError::Paused,
        ),
        m.update_webhook(caller, id, hash, now, ledger) == Err::<RegistryModel, ContractError>(ContractError::Paused),
        m.propose_webhook(caller, id, hash) == Err::<RegistryModel, ContractError>(ContractError::Paused),
        m.confirm_webhook(caller, id, now, ledger) == Err::<RegistryModel, ContractError>(ContractError::Paused),
        m.cancel_webhook(caller, id, now, ledger) == Err::<RegistryModel, ContractError>(ContractError::Paused),
        m.update_label(caller, id, label, now, ledger) == Err::<RegistryModel, ContractError>(ContractError::Paused),
        m.owner_call_check(caller, id) == Err::<(), ContractError>(ContractError::Paused),
        m.bump_check(id) == Err::<(), ContractError>(ContractError::Paused),
        m.remove_alert(caller, id) == Err::<RegistryModel, ContractError>(ContractError::Paused),
        m.remove_all(caller, ids) == Err::<RegistryModel, ContractError>(ContractError::Paused),
        m.transfer_ownership(caller, id, new_owner, now, ledger) == Err::<RegistryModel, ContractError>(
            ContractError::Paused,
        ),
        m.retarget(caller, id, target, now, ledger) == Err::<RegistryModel, ContractError>(ContractError::Paused),
        m.pause_check() == Err::<(), ContractError>(ContractError::Paused),
        m.admin_check(caller) is Ok ==> m.remove_by_admin(caller, id) == Err::<RegistryModel, ContractError>(
            ContractError::Paused,
        ),
        m.admin_check(caller) is Ok ==> m.deactivate_by_admin(caller, id, now, ledger) == Err::<
            RegistryModel,
            ContractError,
        >(ContractError::Paused),
{
}

/// Two-phase webhook rotation: a proposal stages the new hash without
/// touching the live hash or the modification stamps, a later proposal
/// overwrites the staged one, and confirming promotes the staged hash and
/// clears it; without a staged hash there is nothing to confirm.
pub proof fn law_webhook_rotation(
    m: RegistryModel,
    caller: Address,
    id: u64,
    h1: [u8; 32],
    h2: [u8; 32],
    now: u64,
    ledger: u32,
)
    requires
        m.wf(),
    ensures
        m.propose_webhook(caller, id, h1) matches Ok(m1) ==> {
            &&& m1.alerts[id].pending_webhook_hash == Some(h1)
            &&& m1.alerts[id].webhook_hash == m.alerts[id].webhook_hash
            &&& m1.alerts[id].updated_at == m.alerts[id].updated_at
            &&& m1.alerts[id].updated_ledger == m.alerts[id].updated_ledger
            &&& m1.propose_webhook(caller, id, h2) matches Ok(m2) && m2.alerts[id].pending_webhook_hash == Some(
                h2,
            ) && m2.alerts[id].webhook_hash == m.alerts[id].webhook_hash
            &&& m1.confirm_webhook(caller, id, now, ledger) matches Ok(m3) && m3.alerts[id].webhook_hash == h1
                && m3.alerts[id].pending_webhook_hash is None && m3.alerts[id].updated_at == now
        },
        !m.paused && m.owner_check(id, caller) is Ok && m.alerts[id].pending_webhook_hash is None ==> {
            &&& m.confirm_webhook(caller, id, now, ledger) == Err::<RegistryModel, ContractError>(
                ContractError::NoPendingWebhook,
            )
            &&& m.cancel_webhook(caller, id, now, ledger) == Err::<RegistryModel, ContractError>(
                ContractError::NoPendingWebhook,
            )
        },
        m.update_webhook(caller, id, h1, now, ledger) matches Ok(m1) ==> m1.alerts[id].webhook_hash == h1
            && m1.alerts[id].pending_webhook_hash is None,
        m.cancel_webhook(caller, id, now, ledger) matches Ok(m1) ==> m1.alerts[id].webhook_hash
            == m.alerts[id].webhook_hash && m1.alerts[id].pending_webhook_hash is None,
{
}

/// Bulk deactivation switches off every alert of the owner and leaves the
/// alerts of everyone else untouched; no alert is added or removed.
pub proof fn law_deactivate_all_covers_owner(m: RegistryModel, owner: Address, now: u64, ledger: u32, id: u64)
    requires
        m.wf(),
    ensures
        ({
            let m2 = m.deactivate_all(owner, now, ledger);
            &&& m2.alerts.dom() == m.alerts.dom()
            &&& m2.owner_ids(owner) == m.owner_ids(owner)
            &&& m.alerts.contains_key(id) && m.alerts[id].owner == owner ==> !m2.alerts[id].active
            &&& m.alerts.contains_key(id) && m.alerts[id].owner != owner ==> m2.alerts[id] == m.alerts[id]
        }),
{
    let m2 = m.deactivate_all(owner, now, ledger);
    assert(m2.alerts.dom() =~= m.alerts.dom());
    if m.alerts.contains_key(id) && m.alerts[id].owner != owner {
        if m.owner_ids(owner).contains(id) {
            let i = choose|i: int| 0 <= i < m.owner_ids(owner).len() && m.owner_ids(owner)[i] == id;
            assert(m.alerts[m.owner_ids(owner)[i]].owner == owner);
        }
    }
}

/// Every stored alert was last modified no earlier than it was created
/// and no later than `now`.
pub open spec fn stamps_ordered(m: RegistryModel, now: u64) -> bool {
    forall|id: u64| #[trigger]
        m.alerts.contains_key(id) ==> m.alerts[id].created_at <= m.alerts[id].updated_at <= now
}

/// With a clock that does not run backwards, modification stamps never
/// precede creation stamps: every operation at `now` keeps them ordered.
pub proof fn law_timestamps_progress(
    m: RegistryModel,
    prev: u64,
    now: u64,
    ledger: u32,
    caller: Address,
    id: u64,
    a: Address,
    rules: Seq<Seq<u8>>,
    active: bool,
    hash: [u8; 32],
    label: Seq<u8>,
)
    requires
        m.wf(),
        stamps_ordered(m, prev),
        prev <= now,
    ensures
        m.register(caller, a, label, hash, rules, now, ledger) matches Ok((m2, _)) ==> stamps_ordered(m2, now),
        m.update_alert(caller, id, rules, active, now, ledger) matches Ok(m2) ==> stamps_ordered(m2, now),
        m.update_webhook(caller, id, hash, now, ledger) matches Ok(m2) ==> stamps_ordered(m2, now),
        m.propose_webhook(caller, id, hash) matches Ok(m2) ==> stamps_ordered(m2, now),
        m.confirm_webhook(caller, id, now, ledger) matches Ok(m2) ==> stamps_ordered(m2, now),
        m.cancel_webhook(caller, id, now, ledger) matches Ok(m2) ==> stamps_ordered(m2, now),
        m.update_label(caller, id, label, now, ledger) matches Ok(m2) ==> stamps_ordered(m2, now),
        m.deactivate_by_admin(caller, id, now, ledger) matches Ok(m2) ==> stamps_ordered(m2, now),
        m.transfer_ownership(caller, id, a, now, ledger) matches Ok(m2) ==> stamps_ordered(m2, now),
        m.retarget(caller, id, a, now, ledger) matches Ok(m2) ==> stamps_ordered(m2, now),
        m.remove_alert(caller, id) matches Ok(m2) ==> stamps_ordered(m2, now),
        stamps_ordered(m.deactivate_all(a, now, ledger), now),
{
    assert(stamps_ordered(m, now));
}

/// Handing an alert to a new owner moves it between the owners' indexes;
/// moving it to a new target moves it between the targets' indexes.
pub proof fn law_transfer_and_retarget_move_index_entries(
    m: RegistryModel,
    caller: Address,
    id: u64,
    a: Address,
    now: u64,
    ledger: u32,
)
    requires
        m.wf(),
    ensures
        m.transfer_ownership(caller, id, a, now, ledger) matches Ok(m2) ==> {
            &&& m2.alerts[id].owner == a
            &&& m2.owner_ids(a).contains(id)
            &&& a != caller ==> !m2.owner_ids(caller).contains(id)
        },
        m.retarget(caller, id, a, now, ledger) matches Ok(m2) ==> {
            &&& m2.alerts[id].target_contract == a
            &&& m2.contract_ids(a).contains(id)
            &&& a != m.alerts[id].target_contract ==> !m2.contract_ids(m.alerts[id].target_contract).contains(id)
        },
{
    if let Ok(m2) = m.transfer_ownership(caller, id, a, now, ledger) {
        lemma_without(m.owner_ids(caller), id);
        let m1 = m.put_alert(id, crate::alert_model::stamped(crate::alert_types::AlertView { owner: a, ..m.alerts[id] }, now, ledger));
        assert(m1.owner_ids(caller) == m.owner_ids(caller));
        let md = m1.drop_owner(caller, id);
        assert(md.owner_ids(caller) == without(m.owner_ids(caller), id));
        assert(m2.owner_ids(a) == md.owner_ids(a).push(id));
        assert(m2.owner_ids(a)[md.owner_ids(a).len() as int] == id);
    }
    if let Ok(m2) = m.retarget(caller, id, a, now, ledger) {
        let t = m.alerts[id].target_contract;
        lemma_without(m.contract_ids(t), id);
        let m1 = m.put_alert(id, crate::alert_model::stamped(crate::alert_types::AlertView { target_contract: a, ..m.alerts[id] }, now, ledger));
        assert(m1.contract_ids(t) == m.contract_ids(t));
        let md = m1.drop_contract(t, id);
        assert(md.contract_ids(t) == without(m.contract_ids(t), id));
        assert(m2.contract_ids(a) == md.contract_ids(a).push(id));
        assert(m2.contract_ids(a)[md.contract_ids(a).len() as int] == id);
    }
}


/// The stored (not removed) alerts watching `t`, active or not.
pub open spec fn stored_for_target(m: RegistryModel, t: Address) -> Set<u64> {
    Set::new(|k: u64| m.alerts.contains_key(k) && m.alerts[k].target_contract == t)
}

/// When every listed id is stored, every listed id is live.
proof fn lemma_all_listed_live(alerts: Map<u64, AlertView>, ids: Seq<u64>)
    requires
        forall|i: int| 0 <= i < ids.len() ==> alerts.contains_key(#[trigger] ids[i]),
    ensures
        live_configs(alerts, ids).len() == ids.len(),
    decreases ids.len(),
{
    if ids.len() > 0 {
        let p = ids.drop_last();
        assert forall|i: int| 0 <= i < p.len() implies alerts.contains_key(#[trigger] p[i]) by {
            assert(p[i] == ids[i]);
        }
        lemma_all_listed_live(alerts, p);
        assert(alerts.contains_key(ids[ids.len() - 1]));
    }
}

/// A target's live count is the number of stored alerts watching it.
proof fn lemma_contract_count_is_stored(m: RegistryModel, t: Address)
    requires
        m.wf(),
    ensures
        stored_for_target(m, t).finite(),
        m.contract_live_count(t) == stored_for_target(m, t).len(),
{
    broadcast use vstd::seq_lib::seq_to_set_is_finite;

    let ids = m.contract_ids(t);
    lemma_all_listed_live(m.alerts, ids);
    assert(ids.to_set() =~= stored_for_target(m, t)) by {
        assert forall|k: u64| ids.to_set().contains(k) implies #[trigger] stored_for_target(m, t).contains(k) by {
            let i = choose|i: int| 0 <= i < ids.len() && ids[i] == k;
            assert(m.alerts.contains_key(ids[i]));
        }
        assert forall|k: u64| #[trigger] stored_for_target(m, t).contains(k) implies ids.to_set().contains(k) by {
            assert(m.alerts.contains_key(k));
            assert(m.contract_ids(m.alerts[k].target_contract).contains(k));
        }
    }
    ids.unique_seq_to_set();
}

/// An alert counts against its target's per-contract limit for as long as it
/// is stored, whether active or not: a target's count is the number of
/// stored alerts watching it; switching alerts off (by an update, by the
/// admin, or in bulk) leaves every target's stored alerts and count as they
/// were; and, once the checks before it pass, a registration is refused with
/// `ContractAlertLimitExceeded` exactly when a per-contract limit is set and
/// the target already has that many stored alerts.
pub proof fn law_contract_limit_counts_stored_alerts(
    m: RegistryModel,
    t: Address,
    caller: Address,
    owner: Address,
    id: u64,
    label: Seq<u8>,
    hash: [u8; 32],
    rules: Seq<Seq<u8>>,
    active: bool,
    now: u64,
    ledger: u32,
)
    requires
        m.wf(),
    ensures
        stored_for_target(m, t).finite(),
        m.contract_live_count(t) == stored_for_target(m, t).len(),
        m.update_alert(caller, id, rules, active, now, ledger) matches Ok(m2) ==> {
            &&& stored_for_target(m2, t) == stored_for_target(m, t)
            &&& m2.contract_live_count(t) == m.contract_live_count(t)
        },
        m.deactivate_by_admin(caller, id, now, ledger) matches Ok(m2) ==> {
            &&& stored_for_target(m2, t) == stored_for_target(m, t)
            &&& m2.contract_live_count(t) == m.contract_live_count(t)
        },
        stored_for_target(m.deactivate_all(owner, now, ledger), t) == stored_for_target(m, t),
        m.deactivate_all(owner, now, ledger).contract_live_count(t) == m.contract_live_count(t),
        ({
            &&& !m.paused
            &&& label.len() <= MAX_LABEL_LEN
            &&& rules_verdict(rules) is Ok
            &&& !(m.global_limit > 0 && m.next_id >= m.global_limit)
            &&& !(m.per_owner_limit > 0 && m.live_count(owner) >= m.per_owner_limit)
        }) ==> {
            &&& (m.register(owner, t, label, hash, rules, now, ledger) == Err::<(RegistryModel, u64), ContractError>(
                ContractError::ContractAlertLimitExceeded,
            ) <==> (m.per_contract_limit > 0 && stored_for_target(m, t).len() >= m.per_contract_limit))
            &&& !(m.per_contract_limit > 0 && stored_for_target(m, t).len() >= m.per_contract_limit)
                ==> m.register(owner, t, label, hash, rules, now, ledger) is Ok
        },
{
    lemma_contract_count_is_stored(m, t);
    let ids = m.contract_ids(t);
    assert forall|i: int| 0 <= i < ids.len() implies m.alerts.contains_key(#[trigger] ids[i]) by {}
    lemma_all_listed_live(m.alerts, ids);
    if let Ok(m2) = m.update_alert(caller, id, rules, active, now, ledger) {
        assert(m.alerts.contains_key(id));
        assert(stored_for_target(m2, t) =~= stored_for_target(m, t));
        assert(m2.contract_ids(t) == ids);
        assert forall|i: int| 0 <= i < ids.len() implies m2.alerts.contains_key(#[trigger] ids[i]) by {}
        lemma_all_listed_live(m2.alerts, ids);
    }
    if let Ok(m2) = m.deactivate_by_admin(caller, id, now, ledger) {
        assert(m.alerts.contains_key(id));
        assert(stored_for_target(m2, t) =~= stored_for_target(m, t));
        assert(m2.contract_ids(t) == ids);
        assert forall|i: int| 0 <= i < ids.len() implies m2.alerts.contains_key(#[trigger] ids[i]) by {}
        lemma_all_listed_live(m2.alerts, ids);
    }
    let m3 = m.deactivate_all(owner, now, ledger);
    assert(stored_for_target(m3, t) =~= stored_for_target(m, t));
    assert(m3.contract_ids(t) == ids);
    assert forall|i: int| 0 <= i < ids.len() implies m3.alerts.contains_key(#[trigger] ids[i]) by {}
    lemma_all_listed_live(m3.alerts, ids);
}

/// A successful update replaces the rule list with exactly the given one,
/// an empty list included, and sets the active flag to exactly the given
/// value; the label, the hashes, the owner, the target and the creation
/// stamp stay, the modification stamps become `now` and `ledger`, and every
/// other alert is untouched. The update succeeds whenever the registry is
/// not paused, `caller` owns the alert and the rule list is valid.
pub proof fn law_update_alert_replaces_rules_and_flag(
    m: RegistryModel,
    caller: Address,
    id: u64,
    rules: Seq<Seq<u8>>,
    active: bool,
    now: u64,
    ledger: u32,
)
    requires
        m.wf(),
    ensures
        rules_verdict(Seq::<Seq<u8>>::empty()) is Ok,
        !m.paused && m.owner_check(id, caller) is Ok && rules_verdict(rules) is Ok ==> m.update_alert(
            caller,
            id,
            rules,
            active,
            now,
            ledger,
        ) is Ok,
        m.update_alert(caller, id, rules, active, now, ledger) matches Ok(m2) ==> {
            let (before, after) = (m.alerts[id], m2.alerts[id]);
            &&& m.alerts.contains_key(id) && m2.alerts.contains_key(id)
            &&& after.rules == rules
            &&& after.active == active
            &&& after.label == before.label
            &&& after.webhook_hash == before.webhook_hash
            &&& after.pending_webhook_hash == before.pending_webhook_hash
            &&& after.owner == before.owner
            &&& after.target_contract == before.target_contract
            &&& after.created_at == before.created_at
            &&& after.updated_at == now && after.updated_ledger == ledger
            &&& forall|k: u64| k != id ==> (#[trigger] m2.alerts.contains_key(k) <==> m.alerts.contains_key(k))
            &&& forall|k: u64| k != id && m.alerts.contains_key(k) ==> #[trigger] m2.alerts[k] == m.alerts[k]
        },
{
}

/// Handing an alert to a new owner changes nothing about it but its owner
/// and its modification stamps: it stays as active as it was, with the
/// same label, rules, hashes, target and creation stamp; every other alert
/// is untouched.
pub proof fn law_transfer_changes_only_owner(
    m: RegistryModel,
    caller: Address,
    id: u64,
    new_owner: Address,
    now: u64,
    ledger: u32,
)
    requires
        m.wf(),
    ensures
        m.transfer_ownership(caller, id, new_owner, now, ledger) matches Ok(m2) ==> {
            let (before, after) = (m.alerts[id], m2.alerts[id]);
            &&& m.alerts.contains_key(id) && m2.alerts.contains_key(id)
            &&& after.owner == new_owner
            &&& after.active == before.active
            &&& m2.active[id] == m.active[id]
            &&& after.label == before.label
            &&& after.rules == before.rules
            &&& after.webhook_hash == before.webhook_hash
            &&& after.pending_webhook_hash == before.pending_webhook_hash
            &&& after.target_contract == before.target_contract
            &&& after.created_at == before.created_at
            &&& after.updated_at == now && after.updated_ledger == ledger
            &&& forall|k: u64| k != id ==> (#[trigger] m2.alerts.contains_key(k) <==> m.alerts.contains_key(k))
            &&& forall|k: u64| k != id && m.alerts.contains_key(k) ==> #[trigger] m2.alerts[k] == m.alerts[k]
        },
{
}

} // verus!
