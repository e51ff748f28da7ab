use vstd::prelude::*;

use crate::address::Address;
use crate::alert_error::ContractError;
use crate::alert_types::{
    ext, instance_ext, touch_alert, AlertEvent, AlertInputView, AlertView, StorageKey, TtlExtension, DEFAULT_TTL, MAX_LABEL_LEN,
    MAX_TTL,
};
use crate::rules::rules_verdict;
use crate::seq_util::{lemma_push_fresh, lemma_without, without};

verus! {

/// The abstract state of the alert registry: what its storage holds.
pub struct RegistryModel {
    /// The admin, once initialized.
    pub admin: Option<Address>,
    /// Whether mutations are paused.
    pub paused: bool,
    /// Per-owner live-alert limit (0: none).
    pub per_owner_limit: u32,
    /// Per-contract live-alert limit (0: none).
    pub per_contract_limit: u32,
    /// Ceiling on the number of alerts ever registered (0: none).
    pub global_limit: u32,
    /// Watcher registry consulted to gate queries, if any.
    pub watcher_registry: Option<Address>,
    /// Number of alerts ever registered; the next alert's id.
    pub next_id: u64,
    /// Alert configurations by id.
    pub alerts: Map<u64, AlertView>,
    /// The separately stored active flag of each alert.
    pub active: Map<u64, bool>,
    /// Alert ids by owner handle.
    pub owner_index: Map<u64, Seq<u64>>,
    /// Alert ids by target-contract handle.
    pub contract_index: Map<u64, Seq<u64>>,
    /// Running count of live alerts by owner handle.
    pub owner_live: Map<u64, u32>,
}

/// The configurations, in index order, of those `ids` that are live and
/// satisfy `keep`.
pub open spec fn select_configs(
    alerts: Map<u64, AlertView>,
    ids: Seq<u64>,
    keep: spec_fn(AlertView) -> bool,
) -> Seq<AlertView>
    decreases ids.len(),
{
    if ids.len() == 0 {
        Seq::empty()
    } else {
        let rest = select_configs(alerts, ids.drop_last(), keep);
        let id = ids.last();
        if alerts.contains_key(id) && keep(alerts[id]) {
            rest.push(alerts[id])
        } else {
            rest
        }
    }
}

/// Keeps every configuration.
pub open spec fn keep_all() -> spec_fn(AlertView) -> bool {
    |c: AlertView| true
}

/// Keeps the active configurations.
pub open spec fn keep_active() -> spec_fn(AlertView) -> bool {
    |c: AlertView| c.active
}

/// Keeps the configurations modified at or after timestamp `since`.
pub open spec fn keep_modified_since(since: u64) -> spec_fn(AlertView) -> bool {
    |c: AlertView| c.updated_at >= since
}

/// Keeps the configurations modified at or after ledger `since`.
pub open spec fn keep_modified_since_ledger(since: u32) -> spec_fn(AlertView) -> bool {
    |c: AlertView| c.updated_ledger >= since
}

/// The live configurations among `ids`.
pub open spec fn live_configs(alerts: Map<u64, AlertView>, ids: Seq<u64>) -> Seq<AlertView> {
    select_configs(alerts, ids, keep_all())
}

/// The live and active configurations among `ids`.
pub open spec fn active_configs(alerts: Map<u64, AlertView>, ids: Seq<u64>) -> Seq<AlertView> {
    select_configs(alerts, ids, keep_active())
}

/// The ids `start, start + 1, .., end - 1`.
pub open spec fn id_range(start: u64, end: u64) -> Seq<u64> {
    Seq::new((end - start) as nat, |k: int| (start + k) as u64)
}

/// The id range scanned by the incremental-sync queries: `[offset, offset +
/// limit)` clamped to the number of alerts ever registered.
pub open spec fn sync_range(total: u64, offset: u32, limit: u32) -> Seq<u64> {
    let start = if (offset as u64) < total {
        offset as u64
    } else {
        total
    };
    let end = if ((offset + limit) as u64) < total {
        (offset + limit) as u64
    } else {
        total
    };
    id_range(start, end)
}

/// Clamp of a requested alert TTL to [`MAX_TTL`].
pub open spec fn clamp_ttl(ttl: u32) -> u32 {
    if ttl < MAX_TTL {
        ttl
    } else {
        MAX_TTL
    }
}

/// The entries `bump_alert` extends: the alert, its flag and both indexes.
pub open spec fn bump_touch(id: u64, owner: Address, target: Address, ttl: u32) -> Seq<TtlExtension> {
    seq![
        ext(StorageKey::Alert(id), ttl),
        ext(StorageKey::AlertActive(id), ttl),
        ext(StorageKey::OwnerIndex(owner), ttl),
        ext(StorageKey::ContractIndex(target), ttl),
    ]
}

/// The configuration stored for a fresh registration.
pub open spec fn new_config(
    owner: Address,
    target: Address,
    label: Seq<u8>,
    webhook_hash: [u8; 32],
    rules: Seq<Seq<u8>>,
    now: u64,
    ledger: u32,
) -> AlertView {
    AlertView {
        label,
        webhook_hash,
        pending_webhook_hash: None,
        rules,
        owner,
        target_contract: target,
        created_at: now,
        updated_at: now,
        updated_ledger: ledger,
        active: true,
    }
}

/// A configuration marked as modified at `now` / `ledger`.
pub open spec fn stamped(c: AlertView, now: u64, ledger: u32) -> AlertView {
    AlertView { updated_at: now, updated_ledger: ledger, ..c }
}

impl RegistryModel {
    /// The registry before initialization.
    pub open spec fn empty() -> RegistryModel {
        RegistryModel {
            admin: None,
            paused: false,
            per_owner_limit: 0,
            per_contract_limit: 0,
            global_limit: 0,
            watcher_registry: None,
            next_id: 0,
            alerts: Map::empty(),
            active: Map::empty(),
            owner_index: Map::empty(),
            contract_index: Map::empty(),
            owner_live: Map::empty(),
        }
    }

    /// Ids of the alerts `owner` owns, in registration order.
    pub open spec fn owner_ids(self, owner: Address) -> Seq<u64> {
        if self.owner_index.contains_key(owner.raw) {
            self.owner_index[owner.raw]
        } else {
            Seq::empty()
        }
    }

    /// Ids of the alerts watching `target`, in registration order.
    pub open spec fn contract_ids(self, target: Address) -> Seq<u64> {
        if self.contract_index.contains_key(target.raw) {
            self.contract_index[target.raw]
        } else {
            Seq::empty()
        }
    }

    /// The running count of `owner`'s live alerts.
    pub open spec fn live_count(self, owner: Address) -> u32 {
        if self.owner_live.contains_key(owner.raw) {
            self.owner_live[owner.raw]
        } else {
            0
        }
    }

    /// Number of live alerts watching `target`.
    pub open spec fn contract_live_count(self, target: Address) -> nat {
        live_configs(self.alerts, self.contract_ids(target)).len()
    }

    /// The stored state is consistent: ids below the counter, flags in sync
    /// with configurations, each live alert listed exactly once in its
    /// owner's and its target's index and nowhere else, live counters equal
    /// to index lengths, and every stored configuration valid.
    pub open spec fn wf(self) -> bool {
        &&& forall|id: u64| #[trigger] self.alerts.contains_key(id) ==> id < self.next_id
        &&& self.active.dom() == self.alerts.dom()
        &&& forall|id: u64| #[trigger]
            self.alerts.contains_key(id) ==> self.active[id] == self.alerts[id].active
        &&& forall|id: u64| #[trigger]
            self.alerts.contains_key(id) ==> {
                &&& self.owner_ids(self.alerts[id].owner).contains(id)
                &&& self.contract_ids(self.alerts[id].target_contract).contains(id)
                &&& self.alerts[id].label.len() <= MAX_LABEL_LEN
                &&& rules_verdict(self.alerts[id].rules) is Ok
            }
        &&& forall|o: Address, i: int|
            0 <= i < self.owner_ids(o).len() ==> {
                &&& self.alerts.contains_key(#[trigger] self.owner_ids(o)[i])
                &&& self.alerts[self.owner_ids(o)[i]].owner == o
            }
        &&& forall|t: Address, i: int|
            0 <= i < self.contract_ids(t).len() ==> {
                &&& self.alerts.contains_key(#[trigger] self.contract_ids(t)[i])
                &&& self.alerts[self.contract_ids(t)[i]].target_contract == t
            }
        &&& forall|o: Address| #[trigger] self.owner_ids(o).no_duplicates()
        &&& forall|t: Address| #[trigger] self.contract_ids(t).no_duplicates()
        &&& forall|o: Address| #[trigger] self.live_count(o) == self.owner_ids(o).len()
    }

    /// Room for `n` more registrations without overflowing a counter.
    pub open spec fn has_room(self, n: nat) -> bool {
        &&& self.next_id + n <= u64::MAX
        &&& forall|o: Address| #[trigger] self.live_count(o) + n <= u32::MAX
        &&& forall|t: Address| #[trigger] self.contract_ids(t).len() + n <= u32::MAX
    }

    /// The invariant only depends on the stored alerts, flags, indexes,
    /// counters and id counter.
    pub proof fn lemma_wf_frame(self, other: RegistryModel)
        requires
            self.wf(),
            other.next_id == self.next_id,
            other.alerts == self.alerts,
            other.active == self.active,
            other.owner_index == self.owner_index,
            other.contract_index == self.contract_index,
            other.owner_live == self.owner_live,
        ensures
            other.wf(),
    {
        assert forall|o: Address| #[trigger] other.owner_ids(o) == self.owner_ids(o) by {}
        assert forall|t: Address| #[trigger] other.contract_ids(t) == self.contract_ids(t) by {}
        assert forall|o: Address| #[trigger] other.live_count(o) == self.live_count(o) by {}
    }

    /// Two states that hold the same alerts, flags, indexes and counters,
    /// differing at most in index entries left empty.
    pub open spec fn same_state(self, other: RegistryModel) -> bool {
        &&& self.admin == other.admin
        &&& self.paused == other.paused
        &&& self.per_owner_limit == other.per_owner_limit
        &&& self.per_contract_limit == other.per_contract_limit
        &&& self.global_limit == other.global_limit
        &&& self.watcher_registry == other.watcher_registry
        &&& self.next_id == other.next_id
        &&& self.alerts == other.alerts
        &&& self.active == other.active
        &&& forall|o: Address| #[trigger] self.owner_ids(o) == other.owner_ids(o)
        &&& forall|o: Address| #[trigger] self.live_count(o) == other.live_count(o)
        &&& forall|t: Address| #[trigger] self.contract_ids(t) == other.contract_ids(t)
    }

    /// The invariant holds of every state the same as a consistent one.
    pub proof fn lemma_same_state_wf(self, other: RegistryModel)
        requires
            self.wf(),
            self.same_state(other),
        ensures
            other.wf(),
    {
        assert forall|o: Address, i: int| 0 <= i < other.owner_ids(o).len() implies {
            &&& other.alerts.contains_key(#[trigger] other.owner_ids(o)[i])
            &&& other.alerts[other.owner_ids(o)[i]].owner == o
        } by {
            assert(self.owner_ids(o) == other.owner_ids(o));
            assert(self.alerts.contains_key(self.owner_ids(o)[i]));
        }
        assert forall|t: Address, i: int| 0 <= i < other.contract_ids(t).len() implies {
            &&& other.alerts.contains_key(#[trigger] other.contract_ids(t)[i])
            &&& other.alerts[other.contract_ids(t)[i]].target_contract == t
        } by {
            assert(self.contract_ids(t) == other.contract_ids(t));
            assert(self.alerts.contains_key(self.contract_ids(t)[i]));
        }
        assert forall|x: u64| #[trigger] other.alerts.contains_key(x) implies {
            &&& other.owner_ids(other.alerts[x].owner).contains(x)
            &&& other.contract_ids(other.alerts[x].target_contract).contains(x)
            &&& other.alerts[x].label.len() <= MAX_LABEL_LEN
            &&& rules_verdict(other.alerts[x].rules) is Ok
        } by {
            assert(self.alerts.contains_key(x));
            assert(self.owner_ids(self.alerts[x].owner) == other.owner_ids(other.alerts[x].owner));
            assert(self.contract_ids(self.alerts[x].target_contract) == other.contract_ids(
                other.alerts[x].target_contract,
            ));
        }
        assert forall|o: Address| #[trigger] other.owner_ids(o).no_duplicates() by {
            assert(self.owner_ids(o) == other.owner_ids(o));
        }
        assert forall|t: Address| #[trigger] other.contract_ids(t).no_duplicates() by {
            assert(self.contract_ids(t) == other.contract_ids(t));
        }
        assert forall|o: Address| #[trigger] other.live_count(o) == other.owner_ids(o).len() by {
            assert(self.owner_ids(o) == other.owner_ids(o));
            assert(self.live_count(o) == other.live_count(o));
        }
    }

    // ── Checks ────────────────────────────────────────────────────────────

    /// `caller` is the admin.
    pub open spec fn admin_check(self, caller: Address) -> Result<(), ContractError> {
        match self.admin {
            None => Err(ContractError::NotInitialized),
            Some(a) => if a == caller {
                Ok(())
            } else {
                Err(ContractError::Unauthorized)
            },
        }
    }

    /// Mutations are not paused.
    pub open spec fn pause_check(self) -> Result<(), ContractError> {
        if self.paused {
            Err(ContractError::Paused)
        } else {
            Ok(())
        }
    }

    /// Alert `id` exists and `caller` owns it.
    pub open spec fn owner_check(self, id: u64, caller: Address) -> Result<(), ContractError> {
        if !self.alerts.contains_key(id) {
            Err(ContractError::AlertNotFound)
        } else if self.alerts[id].owner != caller {
            Err(ContractError::Unauthorized)
        } else {
            Ok(())
        }
    }

    /// Queries are open to `querier`: no watcher registry is configured, or
    /// it reports `querier` as a registered watcher.
    pub open spec fn gate_check(self, querier_is_watcher: bool) -> Result<(), ContractError> {
        if self.watcher_registry is Some && !querier_is_watcher {
            Err(ContractError::NotAWatcher)
        } else {
            Ok(())
        }
    }

    // ── Storage updates ───────────────────────────────────────────────────

    /// Store configuration `c` under `id`, with its active flag.
    pub open spec fn put_alert(self, id: u64, c: AlertView) -> RegistryModel {
        RegistryModel { alerts: self.alerts.insert(id, c), active: self.active.insert(id, c.active), ..self }
    }

    /// Append `id` to `owner`'s index and bump the live counter.
    pub open spec fn push_owner(self, owner: Address, id: u64) -> RegistryModel {
        RegistryModel {
            owner_index: self.owner_index.insert(owner.raw, self.owner_ids(owner).push(id)),
            owner_live: self.owner_live.insert(owner.raw, (self.live_count(owner) + 1) as u32),
            ..self
        }
    }

    /// Take `id` out of `owner`'s index; the live counter drops when it was there.
    pub open spec fn drop_owner(self, owner: Address, id: u64) -> RegistryModel {
        RegistryModel {
            owner_index: self.owner_index.insert(owner.raw, without(self.owner_ids(owner), id)),
            owner_live: if self.owner_ids(owner).contains(id) {
                self.owner_live.insert(
                    owner.raw,
                    if self.live_count(owner) > 0 {
                        (self.live_count(owner) - 1) as u32
                    } else {
                        0
                    },
                )
            } else {
                self.owner_live
            },
            ..self
        }
    }

    /// Append `id` to `target`'s index.
    pub open spec fn push_contract(self, target: Address, id: u64) -> RegistryModel {
        RegistryModel {
            contract_index: self.contract_index.insert(target.raw, self.contract_ids(target).push(id)),
            ..self
        }
    }

    /// Take `id` out of `target`'s index.
    pub open spec fn drop_contract(self, target: Address, id: u64) -> RegistryModel {
        RegistryModel {
            contract_index: self.contract_index.insert(target.raw, without(self.contract_ids(target), id)),
            ..self
        }
    }

    /// Delete alert `id` (stored as `c`) and its index entries.
    pub open spec fn erase_alert(self, id: u64, c: AlertView) -> RegistryModel {
        RegistryModel { alerts: self.alerts.remove(id), active: self.active.remove(id), ..self }.drop_owner(
            c.owner,
            id,
        ).drop_contract(c.target_contract, id)
    }

    // ── Operations ────────────────────────────────────────────────────────

    /// `register_alert`: the new state and the new id, or the error.
    pub open spec fn register(
        self,
        owner: Address,
        target: Address,
        label: Seq<u8>,
        webhook_hash: [u8; 32],
        rules: Seq<Seq<u8>>,
        now: u64,
        ledger: u32,
    ) -> Result<(RegistryModel, u64), ContractError> {
        if self.paused {
            Err(ContractError::Paused)
        } else if label.len() > MAX_LABEL_LEN {
            Err(ContractError::LabelTooLong)
        } else if rules_verdict(rules) is Err {
            Err(rules_verdict(rules)->Err_0)
        } else if self.global_limit > 0 && self.next_id >= self.global_limit {
            Err(ContractError::GlobalAlertLimitExceeded)
        } else if self.per_owner_limit > 0 && self.live_count(owner) >= self.per_owner_limit {
            Err(ContractError::OwnerAlertLimitExceeded)
        } else if self.per_contract_limit > 0 && self.contract_live_count(target)
            >= self.per_contract_limit {
            Err(ContractError::ContractAlertLimitExceeded)
        } else {
            let id = self.next_id;
            let c = new_config(owner, target, label, webhook_hash, rules, now, ledger);
            Ok(
                (
                    RegistryModel { next_id: (id + 1) as u64, ..self }.put_alert(id, c).push_owner(
                        owner,
                        id,
                    ).push_contract(target, id),
                    id,
                ),
            )
        }
    }

    /// `batch_register_alert`: refused while paused; else every input
    /// registered in order, or the first error.
    pub open spec fn register_all(self, inputs: Seq<AlertInputView>, now: u64, ledger: u32) -> Result<
        (RegistryModel, Seq<u64>),
        ContractError,
    >
        decreases inputs.len(),
    {
        if self.paused {
            Err(ContractError::Paused)
        } else if inputs.len() == 0 {
            Ok((self, Seq::empty()))
        } else {
            match self.register_all(inputs.drop_last(), now, ledger) {
                Err(e) => Err(e),
                Ok((m, ids)) => {
                    let x = inputs.last();
                    match m.register(
                        x.owner,
                        x.target_contract,
                        x.label,
                        x.webhook_hash,
                        x.rules,
                        now,
                        ledger,
                    ) {
                        Err(e) => Err(e),
                        Ok((m2, id)) => Ok((m2, ids.push(id))),
                    }
                },
            }
        }
    }

    /// `update_alert`: replace the rules and the active flag.
    pub open spec fn update_alert(
        self,
        caller: Address,
        id: u64,
        rules: Seq<Seq<u8>>,
        active: bool,
        now: u64,
        ledger: u32,
    ) -> Result<RegistryModel, ContractError> {
        if self.paused {
            Err(ContractError::Paused)
        } else if self.owner_check(id, caller) is Err {
            Err(self.owner_check(id, caller)->Err_0)
        } else if rules_verdict(rules) is Err {
            Err(rules_verdict(rules)->Err_0)
        } else {
            Ok(self.put_alert(id, stamped(AlertView { rules, active, ..self.alerts[id] }, now, ledger)))
        }
    }

    /// `update_webhook`: replace the live hash directly, discarding any staged one.
    pub open spec fn update_webhook(
        self,
        caller: Address,
        id: u64,
        webhook_hash: [u8; 32],
        now: u64,
        ledger: u32,
    ) -> Result<RegistryModel, ContractError> {
        if self.paused {
            Err(ContractError::Paused)
        } else if self.owner_check(id, caller) is Err {
            Err(self.owner_check(id, caller)->Err_0)
        } else {
            Ok(
                self.put_alert(
                    id,
                    stamped(
                        AlertView { webhook_hash, pending_webhook_hash: None, ..self.alerts[id] },
                        now,
                        ledger,
                    ),
                ),
            )
        }
    }

    /// `propose_webhook`: stage a replacement hash; nothing else changes.
    pub open spec fn propose_webhook(self, caller: Address, id: u64, webhook_hash: [u8; 32]) -> Result<
        RegistryModel,
        ContractError,
    > {
        if self.paused {
            Err(ContractError::Paused)
        } else if self.owner_check(id, caller) is Err {
            Err(self.owner_check(id, caller)->Err_0)
        } else {
            Ok(
                self.put_alert(
                    id,
                    AlertView { pending_webhook_hash: Some(webhook_hash), ..self.alerts[id] },
                ),
            )
        }
    }

    /// `confirm_webhook`: promote the staged hash.
    pub open spec fn confirm_webhook(self, caller: Address, id: u64, now: u64, ledger: u32) -> Result<
        RegistryModel,
        ContractError,
    > {
        if self.paused {
            Err(ContractError::Paused)
        } else if self.owner_check(id, caller) is Err {
            Err(self.owner_check(id, caller)->Err_0)
        } else if self.alerts[id].pending_webhook_hash is None {
            Err(ContractError::NoPendingWebhook)
        } else {
            Ok(
                self.put_alert(
                    id,
                    stamped(
                        AlertView {
                            webhook_hash: self.alerts[id].pending_webhook_hash->Some_0,
                            pending_webhook_hash: None,
                            ..self.alerts[id]
                        },
                        now,
                        ledger,
                    ),
                ),
            )
        }
    }

    /// `cancel_webhook_proposal`: drop the staged hash.
    pub open spec fn cancel_webhook(self, caller: Address, id: u64, now: u64, ledger: u32) -> Result<
        RegistryModel,
        ContractError,
    > {
        if self.paused {
            Err(ContractError::Paused)
        } else if self.owner_check(id, caller) is Err {
            Err(self.owner_check(id, caller)->Err_0)
        } else if self.alerts[id].pending_webhook_hash is None {
            Err(ContractError::NoPendingWebhook)
        } else {
            Ok(
                self.put_alert(
                    id,
                    stamped(AlertView { pending_webhook_hash: None, ..self.alerts[id] }, now, ledger),
                ),
            )
        }
    }

    /// `update_label`: replace the label.
    pub open spec fn update_label(self, caller: Address, id: u64, label: Seq<u8>, now: u64, ledger: u32) -> Result<
        RegistryModel,
        ContractError,
    > {
        if self.paused {
            Err(ContractError::Paused)
        } else if label.len() > MAX_LABEL_LEN {
            Err(ContractError::LabelTooLong)
        } else if self.owner_check(id, caller) is Err {
            Err(self.owner_check(id, caller)->Err_0)
        } else {
            Ok(self.put_alert(id, stamped(AlertView { label, ..self.alerts[id] }, now, ledger)))
        }
    }

    /// `remove_alert`: the owner deletes the alert.
    pub open spec fn remove_alert(self, caller: Address, id: u64) -> Result<RegistryModel, ContractError> {
        if self.paused {
            Err(ContractError::Paused)
        } else if self.owner_check(id, caller) is Err {
            Err(self.owner_check(id, caller)->Err_0)
        } else {
            Ok(self.erase_alert(id, self.alerts[id]))
        }
    }

    /// `batch_remove_alert`: refused while paused; else every id removed in
    /// order by its owner, or the first error.
    pub open spec fn remove_all(self, caller: Address, ids: Seq<u64>) -> Result<RegistryModel, ContractError>
        decreases ids.len(),
    {
        if self.paused {
            Err(ContractError::Paused)
        } else if ids.len() == 0 {
            Ok(self)
        } else {
            match self.remove_all(caller, ids.drop_last()) {
                Err(e) => Err(e),
                Ok(m) => {
                    let id = ids.last();
                    if m.owner_check(id, caller) is Err {
                        Err(m.owner_check(id, caller)->Err_0)
                    } else {
                        Ok(m.erase_alert(id, m.alerts[id]))
                    }
                },
            }
        }
    }

    /// `remove_alert_by_admin`: the admin deletes any alert.
    pub open spec fn remove_by_admin(self, admin: Address, id: u64) -> Result<RegistryModel, ContractError> {
        if self.admin_check(admin) is Err {
            Err(self.admin_check(admin)->Err_0)
        } else if self.paused {
            Err(ContractError::Paused)
        } else if !self.alerts.contains_key(id) {
            Err(ContractError::AlertNotFound)
        } else {
            Ok(self.erase_alert(id, self.alerts[id]))
        }
    }

    /// `deactivate_alert_by_admin`: the admin clears the active flag.
    pub open spec fn deactivate_by_admin(self, admin: Address, id: u64, now: u64, ledger: u32) -> Result<
        RegistryModel,
        ContractError,
    > {
        if self.admin_check(admin) is Err {
            Err(self.admin_check(admin)->Err_0)
        } else if self.paused {
            Err(ContractError::Paused)
        } else if !self.alerts.contains_key(id) {
            Err(ContractError::AlertNotFound)
        } else {
            Ok(
                self.put_alert(
                    id,
                    stamped(AlertView { active: false, ..self.alerts[id] }, now, ledger),
                ),
            )
        }
    }

    /// `transfer_alert_ownership`: hand the alert to `new_owner`.
    pub open spec fn transfer_ownership(
        self,
        caller: Address,
        id: u64,
        new_owner: Address,
        now: u64,
        ledger: u32,
    ) -> Result<RegistryModel, ContractError> {
        if self.paused {
            Err(ContractError::Paused)
        } else if self.owner_check(id, caller) is Err {
            Err(self.owner_check(id, caller)->Err_0)
        } else {
            self.put_alert(
                id,
                stamped(AlertView { owner: new_owner, ..self.alerts[id] }, now, ledger),
            ).drop_owner(caller, id).push_owner(new_owner, id).ok_model()
        }
    }

    /// `update_target_contract`: move the alert to watch `new_target`.
    pub open spec fn retarget(
        self,
        caller: Address,
        id: u64,
        new_target: Address,
        now: u64,
        ledger: u32,
    ) -> Result<RegistryModel, ContractError> {
        if self.paused {
            Err(ContractError::Paused)
        } else if self.owner_check(id, caller) is Err {
            Err(self.owner_check(id, caller)->Err_0)
        } else {
            let old_target = self.alerts[id].target_contract;
            self.put_alert(
                id,
                stamped(AlertView { target_contract: new_target, ..self.alerts[id] }, now, ledger),
            ).drop_contract(old_target, id).push_contract(new_target, id).ok_model()
        }
    }

    /// `Ok(self)`.
    pub open spec fn ok_model(self) -> Result<RegistryModel, ContractError> {
        Ok(self)
    }

    /// Whether a bulk deactivation over `ids` switches alert `id` off.
    pub open spec fn switched_off(self, ids: Seq<u64>, id: u64) -> bool {
        ids.contains(id) && self.alerts.contains_key(id) && self.alerts[id].active
    }

    /// Every live active alert among `ids` switched off and stamped.
    pub open spec fn deactivate_among(self, ids: Seq<u64>, now: u64, ledger: u32) -> RegistryModel {
        RegistryModel {
            alerts: Map::new(
                |id: u64| self.alerts.contains_key(id),
                |id: u64|
                    if self.switched_off(ids, id) {
                        stamped(AlertView { active: false, ..self.alerts[id] }, now, ledger)
                    } else {
                        self.alerts[id]
                    },
            ),
            active: Map::new(
                |id: u64| self.active.contains_key(id),
                |id: u64|
                    if self.switched_off(ids, id) {
                        false
                    } else {
                        self.active[id]
                    },
            ),
            ..self
        }
    }

    /// `deactivate_all_alerts`: every live active alert of `owner` switched off.
    pub open spec fn deactivate_all(self, owner: Address, now: u64, ledger: u32) -> RegistryModel {
        self.deactivate_among(self.owner_ids(owner), now, ledger)
    }

    /// Switching alerts off keeps the invariant.
    pub proof fn lemma_deactivate_among_wf(self, ids: Seq<u64>, now: u64, ledger: u32)
        requires
            self.wf(),
        ensures
            self.deactivate_among(ids, now, ledger).wf(),
    {
        let m2 = self.deactivate_among(ids, now, ledger);
        assert forall|o: Address| #[trigger] m2.owner_ids(o) == self.owner_ids(o) by {}
        assert forall|t: Address| #[trigger] m2.contract_ids(t) == self.contract_ids(t) by {}
        assert forall|o: Address| #[trigger] m2.live_count(o) == self.live_count(o) by {}
        assert(m2.active.dom() =~= m2.alerts.dom());
        assert forall|o: Address, i: int| 0 <= i < m2.owner_ids(o).len() implies {
            &&& m2.alerts.contains_key(#[trigger] m2.owner_ids(o)[i])
            &&& m2.alerts[m2.owner_ids(o)[i]].owner == o
        } by {
            assert(self.alerts.contains_key(self.owner_ids(o)[i]));
        }
        assert forall|t: Address, i: int| 0 <= i < m2.contract_ids(t).len() implies {
            &&& m2.alerts.contains_key(#[trigger] m2.contract_ids(t)[i])
            &&& m2.alerts[m2.contract_ids(t)[i]].target_contract == t
        } by {
            assert(self.alerts.contains_key(self.contract_ids(t)[i]));
        }
        assert forall|x: u64| #[trigger] m2.alerts.contains_key(x) implies {
            &&& m2.owner_ids(m2.alerts[x].owner).contains(x)
            &&& m2.contract_ids(m2.alerts[x].target_contract).contains(x)
            &&& m2.alerts[x].label.len() <= MAX_LABEL_LEN
            &&& rules_verdict(m2.alerts[x].rules) is Ok
        } by {
            assert(self.alerts.contains_key(x));
        }
        assert forall|x: u64| #[trigger] m2.alerts.contains_key(x) implies m2.active[x]
            == m2.alerts[x].active by {
            assert(self.alerts.contains_key(x));
        }
    }
}

/// The extensions `deactivate_all_alerts` requests: every entry of each alert
/// it switches off, in index order.
pub open spec fn deactivation_touches(m: RegistryModel, owner: Address, ids: Seq<u64>) -> Seq<TtlExtension>
    decreases ids.len(),
{
    if ids.len() == 0 {
        Seq::empty()
    } else {
        let rest = deactivation_touches(m, owner, ids.drop_last());
        let id = ids.last();
        if m.alerts.contains_key(id) && m.alerts[id].active {
            rest + touch_alert(id, owner, m.alerts[id].target_contract, DEFAULT_TTL)
        } else {
            rest
        }
    }
}

/// `select_configs` over one more id.
pub proof fn lemma_select_step(
    alerts: Map<u64, AlertView>,
    ids: Seq<u64>,
    i: int,
    keep: spec_fn(AlertView) -> bool,
)
    requires
        0 <= i < ids.len(),
    ensures
        select_configs(alerts, ids.take(i + 1), keep) == if alerts.contains_key(ids[i]) && keep(
            alerts[ids[i]],
        ) {
            select_configs(alerts, ids.take(i), keep).push(alerts[ids[i]])
        } else {
            select_configs(alerts, ids.take(i), keep)
        },
{
    assert(ids.take(i + 1).drop_last() =~= ids.take(i));
    assert(ids.take(i + 1).last() == ids[i]);
}

/// `select_configs` of a subrange grown by one id.
pub proof fn lemma_select_sub_step(
    alerts: Map<u64, AlertView>,
    ids: Seq<u64>,
    start: int,
    i: int,
    keep: spec_fn(AlertView) -> bool,
)
    requires
        0 <= start <= i < ids.len(),
    ensures
        select_configs(alerts, ids.subrange(start, i + 1), keep) == if alerts.contains_key(ids[i])
            && keep(alerts[ids[i]]) {
            select_configs(alerts, ids.subrange(start, i), keep).push(alerts[ids[i]])
        } else {
            select_configs(alerts, ids.subrange(start, i), keep)
        },
{
    assert(ids.subrange(start, i + 1).drop_last() =~= ids.subrange(start, i));
    assert(ids.subrange(start, i + 1).last() == ids[i]);
}

impl RegistryModel {
    /// A successful registration keeps the invariant, hands out the counter
    /// value as id, and uses up one unit of room.
    pub proof fn lemma_register_wf(
        self,
        owner: Address,
        target: Address,
        label: Seq<u8>,
        webhook_hash: [u8; 32],
        rules: Seq<Seq<u8>>,
        now: u64,
        ledger: u32,
        n: nat,
    )
        requires
            self.wf(),
            self.has_room(n + 1),
            self.register(owner, target, label, webhook_hash, rules, now, ledger) is Ok,
        ensures
            ({
                let (m2, id) = self.register(owner, target, label, webhook_hash, rules, now, ledger)->Ok_0;
                &&& m2.wf()
                &&& m2.has_room(n)
                &&& id == self.next_id
                &&& m2.next_id == self.next_id + 1
            }),
    {
        let id = self.next_id;
        let c = new_config(owner, target, label, webhook_hash, rules, now, ledger);
        let m2 = self.register(owner, target, label, webhook_hash, rules, now, ledger)->Ok_0.0;
        assert(!self.alerts.contains_key(id));
        assert(!self.owner_ids(owner).contains(id)) by {
            if self.owner_ids(owner).contains(id) {
                let i = choose|i: int| 0 <= i < self.owner_ids(owner).len() && self.owner_ids(owner)[i] == id;
                assert(self.alerts.contains_key(self.owner_ids(owner)[i]));
            }
        }
        assert(!self.contract_ids(target).contains(id)) by {
            if self.contract_ids(target).contains(id) {
                let i = choose|i: int|
                    0 <= i < self.contract_ids(target).len() && self.contract_ids(target)[i] == id;
                assert(self.alerts.contains_key(self.contract_ids(target)[i]));
            }
        }
        lemma_push_fresh(self.owner_ids(owner), id);
        lemma_push_fresh(self.contract_ids(target), id);
        assert(m2.alerts == self.alerts.insert(id, c));
        assert forall|o: Address| #[trigger] m2.owner_ids(o) == if o == owner {
            self.owner_ids(owner).push(id)
        } else {
            self.owner_ids(o)
        } by {}
        assert forall|t: Address| #[trigger] m2.contract_ids(t) == if t == target {
            self.contract_ids(target).push(id)
        } else {
            self.contract_ids(t)
        } by {}
        assert forall|o: Address| #[trigger] m2.live_count(o) == if o == owner {
            self.live_count(owner) + 1
        } else {
            self.live_count(o) as int
        } by {}
        assert forall|x: u64| #[trigger] m2.alerts.contains_key(x) implies {
            &&& m2.owner_ids(m2.alerts[x].owner).contains(x)
            &&& m2.contract_ids(m2.alerts[x].target_contract).contains(x)
            &&& m2.alerts[x].label.len() <= MAX_LABEL_LEN
            &&& rules_verdict(m2.alerts[x].rules) is Ok
        } by {
            if x != id {
                assert(self.alerts.contains_key(x));
            }
        }
        assert forall|o: Address, i: int| 0 <= i < m2.owner_ids(o).len() implies {
            &&& m2.alerts.contains_key(#[trigger] m2.owner_ids(o)[i])
            &&& m2.alerts[m2.owner_ids(o)[i]].owner == o
        } by {
            if o == owner && i == self.owner_ids(owner).len() {
            } else {
                assert(m2.owner_ids(o)[i] == self.owner_ids(o)[i]);
                assert(self.alerts.contains_key(self.owner_ids(o)[i]));
            }
        }
        assert forall|t: Address, i: int| 0 <= i < m2.contract_ids(t).len() implies {
            &&& m2.alerts.contains_key(#[trigger] m2.contract_ids(t)[i])
            &&& m2.alerts[m2.contract_ids(t)[i]].target_contract == t
        } by {
            if t == target && i == self.contract_ids(target).len() {
            } else {
                assert(m2.contract_ids(t)[i] == self.contract_ids(t)[i]);
                assert(self.alerts.contains_key(self.contract_ids(t)[i]));
            }
        }
        assert forall|o: Address| #[trigger] m2.owner_ids(o).no_duplicates() by {
            if o != owner {
                assert(self.owner_ids(o).no_duplicates());
            }
        }
        assert forall|t: Address| #[trigger] m2.contract_ids(t).no_duplicates() by {
            if t != target {
                assert(self.contract_ids(t).no_duplicates());
            }
        }
        assert forall|o: Address| #[trigger] m2.live_count(o) == m2.owner_ids(o).len() by {
            assert(self.live_count(o) == self.owner_ids(o).len());
        }
        assert forall|o: Address| #[trigger] m2.live_count(o) + n <= u32::MAX by {
            assert(self.live_count(o) + n + 1 <= u32::MAX);
        }
        assert forall|t: Address| #[trigger] m2.contract_ids(t).len() + n <= u32::MAX by {
            assert(self.contract_ids(t).len() + n + 1 <= u32::MAX);
        }
    }
}

impl RegistryModel {
    /// Rewriting a live alert in place (same owner, same target, still a
    /// valid label and rule list) keeps the invariant.
    pub proof fn lemma_put_in_place_wf(self, id: u64, c: AlertView)
        requires
            self.wf(),
            self.alerts.contains_key(id),
            c.owner == self.alerts[id].owner,
            c.target_contract == self.alerts[id].target_contract,
            c.label.len() <= MAX_LABEL_LEN,
            rules_verdict(c.rules) is Ok,
        ensures
            self.put_alert(id, c).wf(),
    {
        let m2 = self.put_alert(id, c);
        assert forall|o: Address| #[trigger] m2.owner_ids(o) == self.owner_ids(o) by {}
        assert forall|t: Address| #[trigger] m2.contract_ids(t) == self.contract_ids(t) by {}
        assert forall|o: Address| #[trigger] m2.live_count(o) == self.live_count(o) by {}
        assert(m2.active.dom() =~= m2.alerts.dom());
        assert forall|o: Address, i: int| 0 <= i < m2.owner_ids(o).len() implies {
            &&& m2.alerts.contains_key(#[trigger] m2.owner_ids(o)[i])
            &&& m2.alerts[m2.owner_ids(o)[i]].owner == o
        } by {
            assert(self.alerts.contains_key(self.owner_ids(o)[i]));
        }
        assert forall|t: Address, i: int| 0 <= i < m2.contract_ids(t).len() implies {
            &&& m2.alerts.contains_key(#[trigger] m2.contract_ids(t)[i])
            &&& m2.alerts[m2.contract_ids(t)[i]].target_contract == t
        } by {
            assert(self.alerts.contains_key(self.contract_ids(t)[i]));
        }
        assert forall|x: u64| #[trigger] m2.alerts.contains_key(x) implies {
            &&& m2.owner_ids(m2.alerts[x].owner).contains(x)
            &&& m2.contract_ids(m2.alerts[x].target_contract).contains(x)
            &&& m2.alerts[x].label.len() <= MAX_LABEL_LEN
            &&& rules_verdict(m2.alerts[x].rules) is Ok
        } by {
            assert(self.alerts.contains_key(x));
        }
    }

    /// The checks shared by the owner-only mutators that take no other input:
    /// not paused, then the alert exists and `caller` owns it.
    pub open spec fn owner_call_check(self, caller: Address, id: u64) -> Result<(), ContractError> {
        if self.paused {
            Err(ContractError::Paused)
        } else {
            self.owner_check(id, caller)
        }
    }

    /// `bump_alert`'s checks: not paused, then the alert exists.
    pub open spec fn bump_check(self, id: u64) -> Result<(), ContractError> {
        if self.paused {
            Err(ContractError::Paused)
        } else if !self.alerts.contains_key(id) {
            Err(ContractError::AlertNotFound)
        } else {
            Ok(())
        }
    }
}

/// The index entries `remove_alert` refreshes after deleting an alert of
/// `owner` watching `target`.
pub open spec fn remove_touch(owner: Address, target: Address) -> Seq<TtlExtension> {
    seq![
        ext(StorageKey::OwnerIndex(owner), DEFAULT_TTL),
        ext(StorageKey::OwnerLiveCount(owner), DEFAULT_TTL),
        ext(StorageKey::ContractIndex(target), DEFAULT_TTL),
    ]
}

impl RegistryModel {
    /// The extensions `batch_remove_alert` requests when every removal succeeds.
    pub open spec fn remove_all_touches(self, caller: Address, ids: Seq<u64>) -> Seq<TtlExtension>
        decreases ids.len(),
    {
        if ids.len() == 0 {
            Seq::empty()
        } else {
            match self.remove_all(caller, ids.drop_last()) {
                Ok(m) => self.remove_all_touches(caller, ids.drop_last()) + remove_touch(
                    caller,
                    m.alerts[ids.last()].target_contract,
                ),
                Err(_) => Seq::empty(),
            }
        }
    }

    /// Deleting a live alert keeps the invariant and frees room.
    pub proof fn lemma_erase_wf(self, id: u64, n: nat)
        requires
            self.wf(),
            self.alerts.contains_key(id),
        ensures
            self.erase_alert(id, self.alerts[id]).wf(),
            self.has_room(n) ==> self.erase_alert(id, self.alerts[id]).has_room(n),
            self.erase_alert(id, self.alerts[id]).next_id == self.next_id,
    {
        let c = self.alerts[id];
        let o = c.owner;
        let t = c.target_contract;
        let m2 = self.erase_alert(id, c);
        lemma_without(self.owner_ids(o), id);
        lemma_without(self.contract_ids(t), id);
        assert(self.live_count(o) == self.owner_ids(o).len());
        assert(self.owner_ids(o).len() > 0);
        assert forall|x: Address| #[trigger] m2.owner_ids(x) == if x == o {
            without(self.owner_ids(o), id)
        } else {
            self.owner_ids(x)
        } by {}
        assert forall|x: Address| #[trigger] m2.contract_ids(x) == if x == t {
            without(self.contract_ids(t), id)
        } else {
            self.contract_ids(x)
        } by {}
        assert forall|x: Address| #[trigger] m2.live_count(x) == if x == o {
            self.live_count(o) - 1
        } else {
            self.live_count(x) as int
        } by {}
        assert(m2.alerts == self.alerts.remove(id));
        assert(m2.active.dom() =~= m2.alerts.dom());
        assert forall|x: u64| #[trigger] m2.alerts.contains_key(x) implies {
            &&& m2.owner_ids(m2.alerts[x].owner).contains(x)
            &&& m2.contract_ids(m2.alerts[x].target_contract).contains(x)
            &&& m2.alerts[x].label.len() <= MAX_LABEL_LEN
            &&& rules_verdict(m2.alerts[x].rules) is Ok
        } by {
            assert(self.alerts.contains_key(x));
        }
        assert forall|x: Address, i: int| 0 <= i < m2.owner_ids(x).len() implies {
            &&& m2.alerts.contains_key(#[trigger] m2.owner_ids(x)[i])
            &&& m2.alerts[m2.owner_ids(x)[i]].owner == x
        } by {
            let e = m2.owner_ids(x)[i];
            assert(m2.owner_ids(x).contains(e));
            assert(self.owner_ids(x).contains(e));
            assert(e != id) by {
                if x == o {
                } else {
                    let j = choose|j: int| 0 <= j < self.owner_ids(x).len() && self.owner_ids(x)[j] == e;
                    assert(self.alerts[self.owner_ids(x)[j]].owner == x);
                }
            }
            let j = choose|j: int| 0 <= j < self.owner_ids(x).len() && self.owner_ids(x)[j] == e;
            assert(self.alerts.contains_key(self.owner_ids(x)[j]));
        }
        assert forall|x: Address, i: int| 0 <= i < m2.contract_ids(x).len() implies {
            &&& m2.alerts.contains_key(#[trigger] m2.contract_ids(x)[i])
            &&& m2.alerts[m2.contract_ids(x)[i]].target_contract == x
        } by {
            let e = m2.contract_ids(x)[i];
            assert(m2.contract_ids(x).contains(e));
            assert(self.contract_ids(x).contains(e));
            assert(e != id) by {
                if x == t {
                } else {
                    let j = choose|j: int|
                        0 <= j < self.contract_ids(x).len() && self.contract_ids(x)[j] == e;
                    assert(self.alerts[self.contract_ids(x)[j]].target_contract == x);
                }
            }
            let j = choose|j: int| 0 <= j < self.contract_ids(x).len() && self.contract_ids(x)[j] == e;
            assert(self.alerts.contains_key(self.contract_ids(x)[j]));
        }
        assert forall|x: Address| #[trigger] m2.owner_ids(x).no_duplicates() by {
            assert(self.owner_ids(x).no_duplicates());
        }
        assert forall|x: Address| #[trigger] m2.contract_ids(x).no_duplicates() by {
            assert(self.contract_ids(x).no_duplicates());
        }
        assert forall|x: Address| #[trigger] m2.live_count(x) == m2.owner_ids(x).len() by {
            assert(self.live_count(x) == self.owner_ids(x).len());
        }
        if self.has_room(n) {
            assert forall|x: Address| #[trigger] m2.live_count(x) + n <= u32::MAX by {
                assert(self.live_count(x) + n <= u32::MAX);
            }
            assert forall|x: Address| #[trigger] m2.contract_ids(x).len() + n <= u32::MAX by {
                assert(self.contract_ids(x).len() + n <= u32::MAX);
            }
        }
    }
}

impl RegistryModel {
    /// Handing a live alert to a new owner keeps the invariant.
    pub proof fn lemma_transfer_wf(self, caller: Address, id: u64, new_owner: Address, now: u64, ledger: u32)
        requires
            self.wf(),
            !self.paused,
            self.owner_check(id, caller) is Ok,
            self.live_count(new_owner) < u32::MAX,
        ensures
            self.transfer_ownership(caller, id, new_owner, now, ledger) is Ok,
            self.transfer_ownership(caller, id, new_owner, now, ledger)->Ok_0.wf(),
            self.transfer_ownership(caller, id, new_owner, now, ledger)->Ok_0.next_id == self.next_id,
    {
        let c = self.alerts[id];
        let c2 = stamped(AlertView { owner: new_owner, ..c }, now, ledger);
        let m1 = self.put_alert(id, c2);
        let m2 = m1.drop_owner(caller, id);
        let m3 = m2.push_owner(new_owner, id);
        assert(c.owner == caller);
        lemma_without(self.owner_ids(caller), id);
        let w = |x: Address| if x == caller { without(self.owner_ids(caller), id) } else { self.owner_ids(x) };
        assert(!w(new_owner).contains(id)) by {
            if new_owner != caller && self.owner_ids(new_owner).contains(id) {
                let j = choose|j: int| 0 <= j < self.owner_ids(new_owner).len() && self.owner_ids(new_owner)[j] == id;
                assert(self.alerts[self.owner_ids(new_owner)[j]].owner == new_owner);
            }
        }
        lemma_push_fresh(w(new_owner), id);
        assert(self.live_count(caller) == self.owner_ids(caller).len());
        assert(self.owner_ids(caller).contains(id));
        assert forall|x: Address| #[trigger] m2.owner_ids(x) == w(x) by {}
        assert(m1.owner_ids(caller) == self.owner_ids(caller));
        assert(m1.live_count(caller) == self.live_count(caller));
        assert(self.owner_ids(caller).len() > 0);
        assert(m2.live_count(caller) == self.live_count(caller) - 1);
        assert(w(caller).len() == self.owner_ids(caller).len() - 1);
        assert forall|x: Address| #[trigger] m2.live_count(x) == w(x).len() by {
            assert(self.live_count(x) == self.owner_ids(x).len());
            if x != caller {
                assert(m2.live_count(x) == m1.live_count(x));
                assert(m1.live_count(x) == self.live_count(x));
            }
        }
        assert(m2.live_count(new_owner) < u32::MAX);
        assert forall|x: Address| #[trigger] m3.live_count(x) == if x == new_owner {
            m2.live_count(x) + 1
        } else {
            m2.live_count(x) as int
        } by {}
        assert forall|x: Address| #[trigger] m3.owner_ids(x) == if x == new_owner {
            w(x).push(id)
        } else {
            w(x)
        } by {}
        assert forall|x: Address| #[trigger] m3.live_count(x) == m3.owner_ids(x).len() by {
            assert(self.live_count(x) == self.owner_ids(x).len());
        }
        assert forall|t: Address| #[trigger] m3.contract_ids(t) == self.contract_ids(t) by {}
        assert(m3.alerts == self.alerts.insert(id, c2));
        assert(m3.active.dom() =~= m3.alerts.dom());
        assert forall|x: u64| #[trigger] m3.alerts.contains_key(x) implies {
            &&& m3.owner_ids(m3.alerts[x].owner).contains(x)
            &&& m3.contract_ids(m3.alerts[x].target_contract).contains(x)
            &&& m3.alerts[x].label.len() <= MAX_LABEL_LEN
            &&& rules_verdict(m3.alerts[x].rules) is Ok
        } by {
            assert(self.alerts.contains_key(x));
            if x != id {
                let o = self.alerts[x].owner;
                assert(self.owner_ids(o).contains(x));
                assert(w(o).contains(x));
            }
        }
        assert forall|x: Address, i: int| 0 <= i < m3.owner_ids(x).len() implies {
            &&& m3.alerts.contains_key(#[trigger] m3.owner_ids(x)[i])
            &&& m3.alerts[m3.owner_ids(x)[i]].owner == x
        } by {
            let e = m3.owner_ids(x)[i];
            if x == new_owner && i == w(x).len() {
            } else {
                assert(w(x)[i] == e);
                assert(w(x).contains(e));
                assert(self.owner_ids(x).contains(e));
                let j = choose|j: int| 0 <= j < self.owner_ids(x).len() && self.owner_ids(x)[j] == e;
                assert(self.alerts.contains_key(self.owner_ids(x)[j]));
                assert(e != id) by {
                    if x != caller {
                        assert(self.alerts[self.owner_ids(x)[j]].owner == x);
                    }
                }
            }
        }
        assert forall|t: Address, i: int| 0 <= i < m3.contract_ids(t).len() implies {
            &&& m3.alerts.contains_key(#[trigger] m3.contract_ids(t)[i])
            &&& m3.alerts[m3.contract_ids(t)[i]].target_contract == t
        } by {
            assert(self.alerts.contains_key(self.contract_ids(t)[i]));
        }
        assert forall|x: Address| #[trigger] m3.owner_ids(x).no_duplicates() by {
            assert(self.owner_ids(x).no_duplicates());
        }
        assert forall|t: Address| #[trigger] m3.contract_ids(t).no_duplicates() by {
            assert(self.contract_ids(t).no_duplicates());
        }
    }

    /// Moving a live alert to watch another contract keeps the invariant.
    pub proof fn lemma_retarget_wf(self, caller: Address, id: u64, new_target: Address, now: u64, ledger: u32)
        requires
            self.wf(),
            !self.paused,
            self.owner_check(id, caller) is Ok,
        ensures
            self.retarget(caller, id, new_target, now, ledger) is Ok,
            self.retarget(caller, id, new_target, now, ledger)->Ok_0.wf(),
            self.retarget(caller, id, new_target, now, ledger)->Ok_0.next_id == self.next_id,
    {
        let c = self.alerts[id];
        let old_t = c.target_contract;
        let c2 = stamped(AlertView { target_contract: new_target, ..c }, now, ledger);
        let m3 = self.put_alert(id, c2).drop_contract(old_t, id).push_contract(new_target, id);
        lemma_without(self.contract_ids(old_t), id);
        let w = |x: Address| if x == old_t { without(self.contract_ids(old_t), id) } else { self.contract_ids(x) };
        assert(!w(new_target).contains(id)) by {
            if new_target != old_t && self.contract_ids(new_target).contains(id) {
                let j = choose|j: int|
                    0 <= j < self.contract_ids(new_target).len() && self.contract_ids(new_target)[j] == id;
                assert(self.alerts[self.contract_ids(new_target)[j]].target_contract == new_target);
            }
        }
        lemma_push_fresh(w(new_target), id);
        assert forall|x: Address| #[trigger] m3.contract_ids(x) == if x == new_target {
            w(x).push(id)
        } else {
            w(x)
        } by {}
        assert forall|o: Address| #[trigger] m3.owner_ids(o) == self.owner_ids(o) by {}
        assert forall|o: Address| #[trigger] m3.live_count(o) == self.live_count(o) by {}
        assert(m3.alerts == self.alerts.insert(id, c2));
        assert(m3.active.dom() =~= m3.alerts.dom());
        assert forall|x: u64| #[trigger] m3.alerts.contains_key(x) implies {
            &&& m3.owner_ids(m3.alerts[x].owner).contains(x)
            &&& m3.contract_ids(m3.alerts[x].target_contract).contains(x)
            &&& m3.alerts[x].label.len() <= MAX_LABEL_LEN
            &&& rules_verdict(m3.alerts[x].rules) is Ok
        } by {
            assert(self.alerts.contains_key(x));
            if x != id {
                let t = self.alerts[x].target_contract;
                assert(self.contract_ids(t).contains(x));
                assert(w(t).contains(x));
            }
        }
        assert forall|x: Address, i: int| 0 <= i < m3.contract_ids(x).len() implies {
            &&& m3.alerts.contains_key(#[trigger] m3.contract_ids(x)[i])
            &&& m3.alerts[m3.contract_ids(x)[i]].target_contract == x
        } by {
            let e = m3.contract_ids(x)[i];
            if x == new_target && i == w(x).len() {
            } else {
                assert(w(x)[i] == e);
                assert(w(x).contains(e));
                assert(self.contract_ids(x).contains(e));
                let j = choose|j: int| 0 <= j < self.contract_ids(x).len() && self.contract_ids(x)[j] == e;
                assert(self.alerts.contains_key(self.contract_ids(x)[j]));
                assert(e != id) by {
                    if x != old_t {
                        assert(self.alerts[self.contract_ids(x)[j]].target_contract == x);
                    }
                }
            }
        }
        assert forall|o: Address, i: int| 0 <= i < m3.owner_ids(o).len() implies {
            &&& m3.alerts.contains_key(#[trigger] m3.owner_ids(o)[i])
            &&& m3.alerts[m3.owner_ids(o)[i]].owner == o
        } by {
            assert(self.alerts.contains_key(self.owner_ids(o)[i]));
        }
        assert forall|x: Address| #[trigger] m3.owner_ids(x).no_duplicates() by {
            assert(self.owner_ids(x).no_duplicates());
        }
        assert forall|t: Address| #[trigger] m3.contract_ids(t).no_duplicates() by {
            assert(self.contract_ids(t).no_duplicates());
        }
        assert forall|o: Address| #[trigger] m3.live_count(o) == m3.owner_ids(o).len() by {
            assert(self.live_count(o) == self.owner_ids(o).len());
        }
    }
}

/// The events of a batch registration: one `("alert", "register")` per input.
pub open spec fn registration_events(inputs: Seq<AlertInputView>, ids: Seq<u64>) -> Seq<AlertEvent> {
    Seq::new(
        inputs.len(),
        |i: int|
            AlertEvent::Registered {
                id: ids[i],
                owner: inputs[i].owner,
                target_contract: inputs[i].target_contract,
            },
    )
}

/// The extensions of a batch registration: each registration's in turn.
pub open spec fn registration_touches(inputs: Seq<AlertInputView>, ids: Seq<u64>) -> Seq<TtlExtension>
    decreases inputs.len(),
{
    if inputs.len() == 0 {
        Seq::empty()
    } else {
        let i = inputs.len() - 1;
        registration_touches(inputs.drop_last(), ids) + touch_alert(
            ids[i],
            inputs[i].owner,
            inputs[i].target_contract,
            DEFAULT_TTL,
        ).push(instance_ext())
    }
}

/// A failure of `register_all` on a prefix persists on every longer prefix.
pub proof fn lemma_register_all_err_extends(
    m0: RegistryModel,
    inputs: Seq<AlertInputView>,
    k: int,
    now: u64,
    ledger: u32,
    e: ContractError,
)
    requires
        0 <= k <= inputs.len(),
        m0.register_all(inputs.take(k), now, ledger) == Err::<(RegistryModel, Seq<u64>), ContractError>(e),
    ensures
        m0.register_all(inputs, now, ledger) == Err::<(RegistryModel, Seq<u64>), ContractError>(e),
    decreases inputs.len() - k,
{
    if k == inputs.len() {
        assert(inputs.take(k) =~= inputs);
    } else {
        assert(inputs.take(k + 1).drop_last() =~= inputs.take(k));
        lemma_register_all_err_extends(m0, inputs, k + 1, now, ledger, e);
    }
}

} // verus!
