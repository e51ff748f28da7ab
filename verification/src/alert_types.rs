use vstd::prelude::*;

use crate::address::Address;
use crate::bytes::copy_bytes;
use crate::rules::rules_view;

verus! {

/// Default TTL, in ledgers, applied to persistent entries on every write
/// (about 24 hours at a 5-second ledger close time).
pub const DEFAULT_TTL: u32 = 17_280;

/// Upper bound on a caller-requested alert TTL (about 31 days); larger
/// requests are clamped to it.
pub const MAX_TTL: u32 = 535_680;

/// Below this remaining lifetime the instance entry is extended.
pub const INSTANCE_BUMP_THRESHOLD: u32 = 17_280;

/// Lifetime the instance entry is extended to.
pub const INSTANCE_BUMP_AMOUNT: u32 = 535_680;

/// Longest label, in bytes, an alert may carry.
pub const MAX_LABEL_LEN: usize = 128;

/// On-chain configuration of one alert.
#[derive(Clone, Debug)]
pub struct AlertConfig {
    /// Human-readable label (UTF-8 bytes).
    pub label: Vec<u8>,
    /// SHA-256 digest of the webhook URL; the URL itself is never stored.
    pub webhook_hash: [u8; 32],
    /// Staged replacement for `webhook_hash` during a two-phase rotation.
    pub pending_webhook_hash: Option<[u8; 32]>,
    /// Rule descriptors that trigger the alert, stored verbatim.
    pub rules: Vec<Vec<u8>>,
    /// Address that owns and may mutate the alert.
    pub owner: Address,
    /// Contract address being watched.
    pub target_contract: Address,
    /// Ledger timestamp at registration.
    pub created_at: u64,
    /// Ledger timestamp of the most recent update.
    pub updated_at: u64,
    /// Ledger sequence number of the most recent update.
    pub updated_ledger: u32,
    /// Whether the alert is active.
    pub active: bool,
}

/// The mathematical value of an [`AlertConfig`].
pub struct AlertView {
    pub label: Seq<u8>,
    pub webhook_hash: [u8; 32],
    pub pending_webhook_hash: Option<[u8; 32]>,
    pub rules: Seq<Seq<u8>>,
    pub owner: Address,
    pub target_contract: Address,
    pub created_at: u64,
    pub updated_at: u64,
    pub updated_ledger: u32,
    pub active: bool,
}

impl View for AlertConfig {
    type V = AlertView;

    open spec fn view(&self) -> AlertView {
        AlertView {
            label: self.label@,
            webhook_hash: self.webhook_hash,
            pending_webhook_hash: self.pending_webhook_hash,
            rules: rules_view(self.rules@),
            owner: self.owner,
            target_contract: self.target_contract,
            created_at: self.created_at,
            updated_at: self.updated_at,
            updated_ledger: self.updated_ledger,
            active: self.active,
        }
    }
}

/// A copy of a list of rule descriptors.
pub fn copy_rules(rules: &Vec<Vec<u8>>) -> (r: Vec<Vec<u8>>)
    ensures
        rules_view(r@) == rules_view(rules@),
{
    let mut out: Vec<Vec<u8>> = Vec::new();
    let mut i: usize = 0;
    while i < rules.len()
        invariant
            0 <= i <= rules@.len(),
            out@.len() == i,
            forall|j: int| 0 <= j < i ==> (#[trigger] out@[j])@ == rules@[j]@,
        decreases rules@.len() - i,
    {
        out.push(copy_bytes(&rules[i]));
        i = i + 1;
    }
    assert(rules_view(out@) =~= rules_view(rules@));
    out
}

impl AlertConfig {
    /// A copy of this configuration.
    pub fn duplicate(&self) -> (c: AlertConfig)
        ensures
            c@ == self@,
    {
        AlertConfig {
            label: copy_bytes(&self.label),
            webhook_hash: self.webhook_hash,
            pending_webhook_hash: self.pending_webhook_hash,
            rules: copy_rules(&self.rules),
            owner: self.owner,
            target_contract: self.target_contract,
            created_at: self.created_at,
            updated_at: self.updated_at,
            updated_ledger: self.updated_ledger,
            active: self.active,
        }
    }
}

/// The views of a list of configurations.
pub open spec fn configs_view(s: Seq<AlertConfig>) -> Seq<AlertView> {
    s.map_values(|c: AlertConfig| c@)
}

/// Input record of a batch registration; mirrors the arguments of
/// `register_alert`.
pub struct AlertInput {
    pub owner: Address,
    pub target_contract: Address,
    pub label: Vec<u8>,
    pub webhook_hash: [u8; 32],
    pub rules: Vec<Vec<u8>>,
}

/// The mathematical value of an [`AlertInput`].
pub struct AlertInputView {
    pub owner: Address,
    pub target_contract: Address,
    pub label: Seq<u8>,
    pub webhook_hash: [u8; 32],
    pub rules: Seq<Seq<u8>>,
}

impl View for AlertInput {
    type V = AlertInputView;

    open spec fn view(&self) -> AlertInputView {
        AlertInputView {
            owner: self.owner,
            target_contract: self.target_contract,
            label: self.label@,
            webhook_hash: self.webhook_hash,
            rules: rules_view(self.rules@),
        }
    }
}

/// An event the alert registry publishes; each variant names its topic pair
/// and carries its data.
#[derive(Clone, Copy, Debug, PartialEq, Eq, Structural)]
pub enum AlertEvent {
    /// `("admin", "init")`
    AdminInit { admin: Address },
    /// `("admin", "transfer")`
    AdminTransfer { admin: Address, new_admin: Address },
    /// `("admin", "pause")`
    AdminPause { admin: Address },
    /// `("admin", "unpause")`
    AdminUnpause { admin: Address },
    /// `("admin", "limit")` with data `(admin, limit)`: the per-owner limit.
    OwnerLimitSet { admin: Address, limit: u32 },
    /// `("admin", "limit")` with data `("contract", limit)`: the per-contract limit.
    ContractLimitSet { limit: u32 },
    /// `("admin", "watchreg")`
    WatcherRegistrySet { admin: Address, registry: Address },
    /// `("alert", "register")`
    Registered { id: u64, owner: Address, target_contract: Address },
    /// `("alert", "update")`
    Updated { id: u64, owner: Address, active: bool },
    /// `("alert", "webhook")`
    WebhookUpdated { id: u64, caller: Address },
    /// `("alert", "wh_prop")`
    WebhookProposed { id: u64, caller: Address },
    /// `("alert", "wh_conf")`
    WebhookConfirmed { id: u64, caller: Address },
    /// `("alert", "wh_cancel")`
    WebhookProposalCancelled { id: u64, caller: Address },
    /// `("alert", "renew")`
    Renewed { id: u64, caller: Address },
    /// `("alert", "label")`
    LabelUpdated { id: u64, caller: Address },
    /// `("alert", "remove")`
    Removed { id: u64, caller: Address },
    /// `("alert", "admin_off")`
    DeactivatedByAdmin { id: u64, admin: Address },
    /// `("alert", "transfer")`
    OwnershipTransferred { id: u64, old_owner: Address, new_owner: Address },
    /// `("alert", "bump")`
    Bumped { id: u64, ttl: u32 },
    /// `("alert", "bulk_off")`
    BulkDeactivated { caller: Address, count: u32 },
    /// `("alert", "retarget")`
    Retargeted { id: u64, old_target: Address, new_target: Address },
}

/// A storage entry whose lifetime the registry extends.
#[derive(Clone, Copy, Debug, PartialEq, Eq, Structural)]
pub enum StorageKey {
    /// The contract instance entry (admin, counters, limits).
    Instance,
    Alert(u64),
    AlertActive(u64),
    OwnerIndex(Address),
    OwnerLiveCount(Address),
    ContractIndex(Address),
}

/// A request to extend an entry's lifetime to `extend_to` ledgers when it has
/// fewer than `threshold` left.
#[derive(Clone, Copy, Debug, PartialEq, Eq, Structural)]
pub struct TtlExtension {
    pub key: StorageKey,
    pub threshold: u32,
    pub extend_to: u32,
}

/// Extension of a persistent entry to `ttl` ledgers.
pub open spec fn ext(key: StorageKey, ttl: u32) -> TtlExtension {
    TtlExtension { key, threshold: ttl, extend_to: ttl }
}

/// Extension of the instance entry.
pub open spec fn instance_ext() -> TtlExtension {
    TtlExtension { key: StorageKey::Instance, threshold: INSTANCE_BUMP_THRESHOLD, extend_to: INSTANCE_BUMP_AMOUNT }
}

/// Every persistent entry an alert depends on, extended to `ttl` ledgers.
pub open spec fn touch_alert(id: u64, owner: Address, target: Address, ttl: u32) -> Seq<TtlExtension> {
    seq![
        ext(StorageKey::Alert(id), ttl),
        ext(StorageKey::AlertActive(id), ttl),
        ext(StorageKey::OwnerIndex(owner), ttl),
        ext(StorageKey::OwnerLiveCount(owner), ttl),
        ext(StorageKey::ContractIndex(target), ttl),
    ]
}

} // verus!
