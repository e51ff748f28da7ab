use std::collections::HashMap;

use vstd::prelude::*;

use crate::address::Address;
use crate::alert_error::ContractError;
use crate::alert_model::{
    active_configs, bump_touch, clamp_ttl, deactivation_touches, id_range, lemma_register_all_err_extends,
    keep_active, keep_all, keep_modified_since, keep_modified_since_ledger, lemma_select_step,
    lemma_select_sub_step, live_configs, select_configs, sync_range, new_config, registration_events, registration_touches,
    remove_touch, RegistryModel,
};
use crate::alert_types::{
    configs_view, copy_rules, ext, instance_ext, touch_alert, AlertConfig, AlertEvent, AlertInput, AlertInputView,
    AlertView, StorageKey, TtlExtension,
    DEFAULT_TTL, INSTANCE_BUMP_AMOUNT, INSTANCE_BUMP_THRESHOLD, MAX_LABEL_LEN, MAX_TTL,
};
use crate::rules::{rules_verdict, rules_view, validate_rules};
use crate::alert_state::{
    covered, distinct_ids, distinct_keys, entries_ok, index_key_of, index_ok, lemma_stored_alerts, lemma_stored_index,
    short_lists, stored_alerts, stored_counts, stored_index, AlertRegistryState, StoredAlert, StoredIndex,
};
use crate::bytes::copy_bytes;
use crate::seq_util::{lemma_first_index, page_end, page_start, without};

verus! {

broadcast use vstd::std_specs::hash::group_hash_axioms;

/// On-chain registry of alert configurations.
///
/// Each alert is keyed by a monotonically increasing `u64` id and indexed by
/// both its owner and the contract it watches. The registry records, for the
/// most recent mutating call, the events it published and the storage
/// lifetimes it asked the host to extend.
pub struct AlertRegistry {
    admin: Option<Address>,
    paused: bool,
    per_owner_limit: u32,
    per_contract_limit: u32,
    global_limit: u32,
    watcher_registry: Option<Address>,
    next_id: u64,
    alerts: HashMap<u64, AlertConfig>,
    active: HashMap<u64, bool>,
    owner_index: HashMap<u64, Vec<u64>>,
    contract_index: HashMap<u64, Vec<u64>>,
    owner_live: HashMap<u64, u32>,
    events: Vec<AlertEvent>,
    ttl_extensions: Vec<TtlExtension>,
}


/// The ids stored under `key`, or none.
fn ids_in(map: &HashMap<u64, Vec<u64>>, key: u64) -> (v: Vec<u64>)
    ensures
        v@ == (if map@.contains_key(key) {
            map@[key]@
        } else {
            Seq::<u64>::empty()
        }),
{
    match map.get(&key) {
        Some(ids) => {
            let c = ids.clone();
            assert(c@ =~= ids@);
            c
        },
        None => Vec::new(),
    }
}

/// `ids` with the first occurrence of `id` taken out.
fn remove_id(ids: &mut Vec<u64>, id: u64)
    ensures
        final(ids)@ == without(old(ids)@, id),
        (final(ids)@.len() < old(ids)@.len()) == old(ids)@.contains(id),
{
    let mut k: usize = 0;
    while k < ids.len()
        invariant
            0 <= k <= ids@.len(),
            ids@ == old(ids)@,
            forall|j: int| 0 <= j < k ==> ids@[j] != id,
        decreases ids@.len() - k,
    {
        if ids[k] == id {
            proof {
                lemma_first_index(ids@, id, k as int);
            }
            ids.remove(k);
            return;
        }
        k = k + 1;
    }
    assert(!ids@.contains(id));
}


/// Whether `a` occurs in `v`.
fn holds_address(v: &Vec<Address>, a: Address) -> (r: bool)
    ensures
        r == v@.contains(a),
{
    let mut k: usize = 0;
    while k < v.len()
        invariant
            0 <= k <= v@.len(),
            forall|j: int| 0 <= j < k ==> v@[j] != a,
        decreases v@.len() - k,
    {
        if v[k] == a {
            assert(v@[k as int] == a);
            return true;
        }
        k = k + 1;
    }
    false
}

/// Whether no id occurs twice in `v`.
fn ids_distinct(v: &Vec<u64>) -> (r: bool)
    ensures
        r == v@.no_duplicates(),
{
    let mut i: usize = 0;
    while i < v.len()
        invariant
            0 <= i <= v@.len(),
            v@.take(i as int).no_duplicates(),
        decreases v@.len() - i,
    {
        let mut j: usize = 0;
        while j < i
            invariant
                0 <= j <= i < v@.len(),
                forall|k: int| 0 <= k < j ==> v@[k] != v@[i as int],
            decreases i - j,
        {
            if v[j] == v[i] {
                assert(!v@.no_duplicates()) by {
                    assert(v@[j as int] == v@[i as int]);
                }
                return false;
            }
            j = j + 1;
        }
        proof {
            let t = v@.take(i + 1);
            assert forall|a: int, b: int| 0 <= a < t.len() && 0 <= b < t.len() && a != b implies t[a] != t[b] by {
                if a < i && b < i {
                    assert(v@.take(i as int)[a] == t[a] && v@.take(i as int)[b] == t[b]);
                }
            }
        }
        i = i + 1;
    }
    assert(v@.take(i as int) =~= v@);
    true
}

/// Whether `id` occurs in `v`.
fn lists(v: &Vec<u64>, id: u64) -> (r: bool)
    ensures
        r == v@.contains(id),
{
    let mut k: usize = 0;
    while k < v.len()
        invariant
            0 <= k <= v@.len(),
            forall|j: int| 0 <= j < k ==> v@[j] != id,
        decreases v@.len() - k,
    {
        if v[k] == id {
            assert(v@[k as int] == id);
            return true;
        }
        k = k + 1;
    }
    false
}

/// The stored alerts by id, with their active flags, or `None` when an id
/// repeats, reaches the counter, or carries an unacceptable label or rule
/// list.
fn load_alerts(entries: &Vec<StoredAlert>, next_id: u64) -> (r: Option<(HashMap<u64, AlertConfig>, HashMap<u64, bool>)>)
    ensures
        r is Some <==> entries_ok(entries@, next_id),
        r matches Some((a, f)) ==> {
            &&& a@.map_values(|c: AlertConfig| c@) == stored_alerts(entries@)
            &&& f@ == stored_alerts(entries@).map_values(|c: AlertView| c.active)
        },
{
    let mut a: HashMap<u64, AlertConfig> = HashMap::new();
    let mut f: HashMap<u64, bool> = HashMap::new();
    let mut i: usize = 0;
    assert(a@.map_values(|c: AlertConfig| c@) =~= stored_alerts(entries@.take(0)));
    assert(f@ =~= stored_alerts(entries@.take(0)).map_values(|c: AlertView| c.active));
    while i < entries.len()
        invariant
            0 <= i <= entries@.len(),
            a@.map_values(|c: AlertConfig| c@) == stored_alerts(entries@.take(i as int)),
            f@ == stored_alerts(entries@.take(i as int)).map_values(|c: AlertView| c.active),
            entries_ok(entries@.take(i as int), next_id),
        decreases entries@.len() - i,
    {
        let e = &entries[i];
        let ghost pre = entries@.take(i as int);
        proof {
            lemma_stored_alerts(pre);
        }
        if a.contains_key(&e.id) {
            proof {
                assert(stored_alerts(pre).contains_key(e.id));
                let j = choose|j: int| 0 <= j < pre.len() && pre[j].id == e.id;
                assert(entries@[j].id == entries@[i as int].id);
            }
            return None;
        }
        if e.id >= next_id || e.config.label.len() > MAX_LABEL_LEN || validate_rules(&e.config.rules).is_err() {
            proof {
                assert(entries@[i as int] == *e);
                assert(!(entries@[i as int].id < next_id && entries@[i as int].config@.label.len() <= MAX_LABEL_LEN
                    && rules_verdict(entries@[i as int].config@.rules) is Ok));
            }
            return None;
        }
        let ghost cv = e.config@;
        a.insert(e.id, e.config.duplicate());
        f.insert(e.id, e.config.active);
        proof {
            let next = entries@.take(i + 1);
            assert(next.drop_last() =~= pre);
            assert(next.last() == *e);
            assert(stored_alerts(next) == stored_alerts(pre).insert(e.id, cv));
            assert(a@.map_values(|c: AlertConfig| c@) =~= stored_alerts(next));
            assert(f@ =~= stored_alerts(next).map_values(|c: AlertView| c.active));
            assert forall|x: int, y: int| 0 <= x < y < next.len() implies next[x].id != next[y].id by {
                if y == i {
                    assert(next[x] == pre[x]);
                    if pre[x].id == e.id {
                        assert(stored_alerts(pre).contains_key(e.id));
                    }
                } else {
                    assert(next[x] == pre[x] && next[y] == pre[y]);
                }
            }
            assert forall|x: int| 0 <= x < next.len() implies {
                &&& #[trigger] next[x].id < next_id
                &&& next[x].config@.label.len() <= MAX_LABEL_LEN
                &&& rules_verdict(next[x].config@.rules) is Ok
            } by {
                if x < i {
                    assert(next[x] == pre[x]);
                }
            }
        }
        i = i + 1;
    }
    assert(entries@.take(i as int) =~= entries@);
    Some((a, f))
}

/// The stored index by key handle, or `None` when a key repeats, a list
/// repeats an id or lists one that is not a stored alert filed under its
/// key, or (for an owner index) a list is too long to count.
fn load_index(entries: &Vec<StoredIndex>, alerts: &HashMap<u64, AlertConfig>, by_owner: bool) -> (r: Option<
    HashMap<u64, Vec<u64>>,
>)
    ensures
        r is Some <==> (index_ok(entries@, alerts@.map_values(|c: AlertConfig| c@), by_owner) && (by_owner
            ==> short_lists(entries@))),
        r matches Some(ix) ==> ix@.map_values(|v: Vec<u64>| v@) == stored_index(entries@),
{
    let ghost av = alerts@.map_values(|c: AlertConfig| c@);
    let mut ix: HashMap<u64, Vec<u64>> = HashMap::new();
    let mut i: usize = 0;
    assert(ix@.map_values(|v: Vec<u64>| v@) =~= stored_index(entries@.take(0)));
    while i < entries.len()
        invariant
            0 <= i <= entries@.len(),
            av == alerts@.map_values(|c: AlertConfig| c@),
            ix@.map_values(|v: Vec<u64>| v@) == stored_index(entries@.take(i as int)),
            index_ok(entries@.take(i as int), av, by_owner),
            by_owner ==> short_lists(entries@.take(i as int)),
        decreases entries@.len() - i,
    {
        let e = &entries[i];
        let ghost pre = entries@.take(i as int);
        proof {
            lemma_stored_index(pre);
            assert(entries@[i as int] == *e);
        }
        if ix.contains_key(&e.key.raw) {
            proof {
                assert(stored_index(pre).contains_key(e.key.raw));
                let j = choose|j: int| 0 <= j < pre.len() && pre[j].key.raw == e.key.raw;
                assert(entries@[j].key == entries@[i as int].key);
            }
            return None;
        }
        if by_owner && e.ids.len() > u32::MAX as usize {
            proof {
                assert(!(entries@[i as int].ids@.len() <= u32::MAX));
            }
            return None;
        }
        if !ids_distinct(&e.ids) {
            return None;
        }
        let mut k: usize = 0;
        while k < e.ids.len()
            invariant
                0 <= k <= e.ids@.len(),
                0 <= i < entries@.len(),
                entries@[i as int] == *e,
                av == alerts@.map_values(|c: AlertConfig| c@),
                forall|j: int| 0 <= j < k ==> {
                    &&& av.contains_key(#[trigger] e.ids@[j])
                    &&& index_key_of(av[e.ids@[j]], by_owner) == e.key
                },
            decreases e.ids@.len() - k,
        {
            let id = e.ids[k];
            match alerts.get(&id) {
                None => {
                    proof {
                        assert(!av.contains_key(e.ids@[k as int]));
                        assert(entries@[i as int].ids@[k as int] == id);
                    }
                    return None;
                },
                Some(c) => {
                    let key = if by_owner {
                        c.owner
                    } else {
                        c.target_contract
                    };
                    if key != e.key {
                        proof {
                            assert(av[id] == c@);
                            assert(entries@[i as int].ids@[k as int] == id);
                        }
                        return None;
                    }
                    assert(av[id] == c@);
                },
            }
            k = k + 1;
        }
        let ghost iv = e.ids@;
        let list = e.ids.clone();
        assert(list@ =~= iv);
        ix.insert(e.key.raw, list);
        proof {
            let next = entries@.take(i + 1);
            assert(next.drop_last() =~= pre);
            assert(next.last() == *e);
            assert(ix@.map_values(|v: Vec<u64>| v@) =~= stored_index(next));
            assert forall|x: int, y: int| 0 <= x < y < next.len() implies next[x].key != next[y].key by {
                if y == i {
                    assert(next[x] == pre[x]);
                    if pre[x].key == e.key {
                        assert(stored_index(pre).contains_key(e.key.raw));
                    }
                } else {
                    assert(next[x] == pre[x] && next[y] == pre[y]);
                }
            }
            assert forall|x: int| 0 <= x < next.len() implies #[trigger] next[x].ids@.no_duplicates() by {
                if x < i {
                    assert(next[x] == pre[x]);
                }
            }
            assert forall|x: int, y: int| 0 <= x < next.len() && 0 <= y < next[x].ids@.len() implies {
                &&& av.contains_key(#[trigger] next[x].ids@[y])
                &&& index_key_of(av[next[x].ids@[y]], by_owner) == next[x].key
            } by {
                if x < i {
                    assert(next[x] == pre[x]);
                }
            }
            if by_owner {
                assert forall|x: int| 0 <= x < next.len() implies #[trigger] next[x].ids@.len() <= u32::MAX by {
                    if x < i {
                        assert(next[x] == pre[x]);
                    }
                }
            }
        }
        i = i + 1;
    }
    assert(entries@.take(i as int) =~= entries@);
    Some(ix)
}

/// The length of each stored owner list, by key handle.
fn count_lists(entries: &Vec<StoredIndex>) -> (r: HashMap<u64, u32>)
    requires
        short_lists(entries@),
    ensures
        r@ == stored_counts(entries@),
{
    let mut counts: HashMap<u64, u32> = HashMap::new();
    let mut i: usize = 0;
    assert(counts@ =~= stored_counts(entries@.take(0)));
    while i < entries.len()
        invariant
            0 <= i <= entries@.len(),
            short_lists(entries@),
            counts@ == stored_counts(entries@.take(i as int)),
        decreases entries@.len() - i,
    {
        let e = &entries[i];
        assert(entries@[i as int] == *e);
        assert(e.ids@.len() <= u32::MAX);
        counts.insert(e.key.raw, e.ids.len() as u32);
        proof {
            let next = entries@.take(i + 1);
            assert(next.drop_last() =~= entries@.take(i as int));
            assert(next.last() == *e);
            assert(counts@ =~= stored_counts(next));
        }
        i = i + 1;
    }
    assert(entries@.take(i as int) =~= entries@);
    counts
}

/// A failure of `remove_all` on a prefix persists on every longer prefix.
proof fn lemma_remove_all_err_extends(m0: RegistryModel, caller: Address, ids: Seq<u64>, k: int, e: ContractError)
    requires
        0 <= k <= ids.len(),
        m0.remove_all(caller, ids.take(k)) == Err::<RegistryModel, ContractError>(e),
    ensures
        m0.remove_all(caller, ids) == Err::<RegistryModel, ContractError>(e),
    decreases ids.len() - k,
{
    if k == ids.len() {
        assert(ids.take(k) =~= ids);
    } else {
        assert(ids.take(k + 1).drop_last() =~= ids.take(k));
        lemma_remove_all_err_extends(m0, caller, ids, k + 1, e);
    }
}

/// Extending the id list past the inputs leaves the touches of the inputs alone.
proof fn lemma_registration_touches_prefix(inputs: Seq<AlertInputView>, ids: Seq<u64>, more: Seq<u64>)
    requires
        ids.len() >= inputs.len(),
        more.len() >= ids.len(),
        forall|k: int| 0 <= k < ids.len() ==> more[k] == ids[k],
    ensures
        registration_touches(inputs, ids) == registration_touches(inputs, more),
    decreases inputs.len(),
{
    if inputs.len() > 0 {
        lemma_registration_touches_prefix(inputs.drop_last(), ids, more);
    }
}

/// Which stored configurations a listing keeps.
#[derive(Clone, Copy)]
enum Selection {
    All,
    Active,
    ModifiedSince(u64),
    ModifiedSinceLedger(u32),
}

impl Selection {
    spec fn keeps(self) -> spec_fn(AlertView) -> bool {
        match self {
            Selection::All => keep_all(),
            Selection::Active => keep_active(),
            Selection::ModifiedSince(since) => keep_modified_since(since),
            Selection::ModifiedSinceLedger(since) => keep_modified_since_ledger(since),
        }
    }

    fn accepts(&self, c: &AlertConfig) -> (r: bool)
        ensures
            r == (self.keeps())(c@),
    {
        match self {
            Selection::All => true,
            Selection::Active => c.active,
            Selection::ModifiedSince(since) => c.updated_at >= *since,
            Selection::ModifiedSinceLedger(since) => c.updated_ledger >= *since,
        }
    }
}

/// The clamped bounds of a page of a list of `len` ids.
fn page_bounds(len: usize, offset: u32, limit: u32) -> (r: (usize, usize))
    ensures
        r.0 == page_start(len as int, offset),
        r.1 == page_end(len as int, offset, limit),
        r.0 <= r.1 <= len,
{
    let end = offset.saturating_add(limit);
    let first = if (offset as usize) < len {
        offset as usize
    } else {
        len
    };
    let last = if (end as usize) < len {
        end as usize
    } else {
        len
    };
    (first, last)
}

/// The clamped id range scanned by the incremental-sync queries.
fn sync_bounds(total: u64, offset: u32, limit: u32) -> (r: (u64, u64))
    ensures
        id_range(r.0, r.1) == sync_range(total, offset, limit),
        r.0 <= r.1,
{
    let start = if (offset as u64) < total {
        offset as u64
    } else {
        total
    };
    let sum = offset as u64 + limit as u64;
    let end = if sum < total {
        sum
    } else {
        total
    };
    (start, end)
}

impl AlertRegistry {
    /// Ids of the alerts `owner` owns.
    fn owner_ids_of(&self, owner: Address) -> (v: Vec<u64>)
        ensures
            v@ == self.model().owner_ids(owner),
    {
        ids_in(&self.owner_index, owner.raw)
    }

    /// Ids of the alerts watching `target`.
    fn contract_ids_of(&self, target: Address) -> (v: Vec<u64>)
        ensures
            v@ == self.model().contract_ids(target),
    {
        ids_in(&self.contract_index, target.raw)
    }

    /// The number of ids in `target`'s index.
    fn contract_len_of(&self, target: Address) -> (n: usize)
        ensures
            n == self.model().contract_ids(target).len(),
    {
        match self.contract_index.get(&target.raw) {
            Some(ids) => ids.len(),
            None => 0,
        }
    }

    /// The running live-alert count of `owner`.
    fn live_count_of(&self, owner: Address) -> (c: u32)
        ensures
            c == self.model().live_count(owner),
    {
        match self.owner_live.get(&owner.raw) {
            Some(c) => *c,
            None => 0,
        }
    }

    /// Store configuration `c` under `id` together with its active flag.
    fn store_alert(&mut self, id: u64, c: AlertConfig)
        ensures
            final(self).model() == old(self).model().put_alert(id, c@),
            final(self).events() == old(self).events(),
            final(self).ttl_requests() == old(self).ttl_requests(),
    {
        let ghost cv = c@;
        let active = c.active;
        self.alerts.insert(id, c);
        self.active.insert(id, active);
        assert(self.model().alerts =~= old(self).model().alerts.insert(id, cv));
        assert(self.model() == old(self).model().put_alert(id, cv));
    }

    /// Append `id` to `owner`'s index and bump its live counter.
    fn push_owner_index(&mut self, owner: Address, id: u64)
        requires
            old(self).model().live_count(owner) < u32::MAX,
        ensures
            final(self).model() == old(self).model().push_owner(owner, id),
            final(self).events() == old(self).events(),
            final(self).ttl_requests() == old(self).ttl_requests(),
    {
        let mut ids = self.owner_ids_of(owner);
        ids.push(id);
        let ghost v = ids@;
        self.owner_index.insert(owner.raw, ids);
        let count = self.live_count_of(owner);
        self.owner_live.insert(owner.raw, count + 1);
        assert(self.model().owner_index =~= old(self).model().owner_index.insert(owner.raw, v));
        assert(self.model() == old(self).model().push_owner(owner, id));
    }

    /// Take `id` out of `owner`'s index, dropping the live counter when it
    /// was there.
    fn drop_owner_index(&mut self, owner: Address, id: u64)
        ensures
            final(self).model() == old(self).model().drop_owner(owner, id),
            final(self).events() == old(self).events(),
            final(self).ttl_requests() == old(self).ttl_requests(),
    {
        let mut ids = self.owner_ids_of(owner);
        let before = ids.len();
        remove_id(&mut ids, id);
        let removed = ids.len() < before;
        let ghost v = ids@;
        self.owner_index.insert(owner.raw, ids);
        if removed {
            let count = self.live_count_of(owner);
            self.owner_live.insert(owner.raw, count.saturating_sub(1));
        }
        assert(self.model().owner_index =~= old(self).model().owner_index.insert(owner.raw, v));
        assert(self.model().owner_live =~= old(self).model().drop_owner(owner, id).owner_live);
        assert(self.model() == old(self).model().drop_owner(owner, id));
    }

    /// Append `id` to `target`'s index.
    fn push_contract_index(&mut self, target: Address, id: u64)
        ensures
            final(self).model() == old(self).model().push_contract(target, id),
            final(self).events() == old(self).events(),
            final(self).ttl_requests() == old(self).ttl_requests(),
    {
        let mut ids = self.contract_ids_of(target);
        ids.push(id);
        let ghost v = ids@;
        self.contract_index.insert(target.raw, ids);
        assert(self.model().contract_index =~= old(self).model().contract_index.insert(target.raw, v));
        assert(self.model() == old(self).model().push_contract(target, id));
    }

    /// Take `id` out of `target`'s index.
    fn drop_contract_index(&mut self, target: Address, id: u64)
        ensures
            final(self).model() == old(self).model().drop_contract(target, id),
            final(self).events() == old(self).events(),
            final(self).ttl_requests() == old(self).ttl_requests(),
    {
        let mut ids = self.contract_ids_of(target);
        remove_id(&mut ids, id);
        let ghost v = ids@;
        self.contract_index.insert(target.raw, ids);
        assert(self.model().contract_index =~= old(self).model().contract_index.insert(target.raw, v));
        assert(self.model() == old(self).model().drop_contract(target, id));
    }

    /// Record that every entry alert `id` depends on is extended to `ttl`.
    fn touch_alert(&mut self, id: u64, owner: Address, target: Address, ttl: u32)
        ensures
            final(self).model() == old(self).model(),
            final(self).events() == old(self).events(),
            final(self).ttl_requests() == old(self).ttl_requests() + touch_alert(id, owner, target, ttl),
    {
        self.ttl_extensions.push(TtlExtension { key: StorageKey::Alert(id), threshold: ttl, extend_to: ttl });
        self.ttl_extensions.push(TtlExtension { key: StorageKey::AlertActive(id), threshold: ttl, extend_to: ttl });
        self.ttl_extensions.push(TtlExtension { key: StorageKey::OwnerIndex(owner), threshold: ttl, extend_to: ttl });
        self.ttl_extensions.push(
            TtlExtension { key: StorageKey::OwnerLiveCount(owner), threshold: ttl, extend_to: ttl },
        );
        self.ttl_extensions.push(
            TtlExtension { key: StorageKey::ContractIndex(target), threshold: ttl, extend_to: ttl },
        );
        assert(self.ttl_requests() =~= old(self).ttl_requests() + touch_alert(id, owner, target, ttl));
    }

    // ── Alert mutations ───────────────────────────────────────────────────

    /// Register a new alert and return its id.
    ///
    /// Checks, in order: not paused; `label` at most 128 bytes; the rule
    /// list valid; the global ceiling, the owner's limit and the target's
    /// limit not reached. The new alert is active, has no staged webhook and
    /// is stamped with `now` / `ledger`. Publishes `("alert", "register")`.
    pub fn register_alert(
        &mut self,
        owner: Address,
        target_contract: Address,
        label: Vec<u8>,
        webhook_hash: [u8; 32],
        rules: Vec<Vec<u8>>,
        now: u64,
        ledger: u32,
    ) -> (r: Result<u64, ContractError>)
        requires
            old(self).wf(),
            old(self).model().has_room(1),
        ensures
            final(self).wf(),
            match old(self).model().register(
                owner,
                target_contract,
                label@,
                webhook_hash,
                rules_view(rules@),
                now,
                ledger,
            ) {
                Ok((m, id)) => {
                    &&& r == Ok::<u64, ContractError>(id)
                    &&& final(self).model() == m
                    &&& final(self).events() == seq![
                        AlertEvent::Registered { id, owner, target_contract },
                    ]
                    &&& final(self).ttl_requests() == touch_alert(
                        id,
                        owner,
                        target_contract,
                        DEFAULT_TTL,
                    ).push(instance_ext())
                },
                Err(e) => r == Err::<u64, ContractError>(e) && final(self).unchanged_from(*old(self)),
            },
    {
        self.begin_call();
        let r = self.register_one(owner, target_contract, label, webhook_hash, rules, now, ledger, Ghost(0));
        proof {
            if r is Ok {
                assert(self.events() =~= seq![
                    AlertEvent::Registered { id: r->Ok_0, owner, target_contract },
                ]);
                assert(self.ttl_requests() =~= touch_alert(
                    r->Ok_0,
                    owner,
                    target_contract,
                    DEFAULT_TTL,
                ).push(instance_ext()));
            }
        }
        r
    }

    /// One registration, appending to the current call's records.
    fn register_one(
        &mut self,
        owner: Address,
        target_contract: Address,
        label: Vec<u8>,
        webhook_hash: [u8; 32],
        rules: Vec<Vec<u8>>,
        now: u64,
        ledger: u32,
        Ghost(n): Ghost<nat>,
    ) -> (r: Result<u64, ContractError>)
        requires
            old(self).wf(),
            old(self).model().has_room(n + 1),
        ensures
            final(self).wf(),
            match old(self).model().register(
                owner,
                target_contract,
                label@,
                webhook_hash,
                rules_view(rules@),
                now,
                ledger,
            ) {
                Ok((m, id)) => {
                    &&& r == Ok::<u64, ContractError>(id)
                    &&& final(self).model() == m
                    &&& m.has_room(n)
                    &&& final(self).events() == old(self).events().push(
                        AlertEvent::Registered { id, owner, target_contract },
                    )
                    &&& final(self).ttl_requests() == old(self).ttl_requests() + touch_alert(
                        id,
                        owner,
                        target_contract,
                        DEFAULT_TTL,
                    ).push(instance_ext())
                },
                Err(e) => {
                    &&& r == Err::<u64, ContractError>(e)
                    &&& final(self).model() == old(self).model()
                    &&& final(self).events() == old(self).events()
                    &&& final(self).ttl_requests() == old(self).ttl_requests()
                },
            },
    {
        self.check_not_paused()?;
        if label.len() > MAX_LABEL_LEN {
            return Err(ContractError::LabelTooLong);
        }
        validate_rules(&rules)?;
        if self.global_limit > 0 && self.next_id >= self.global_limit as u64 {
            return Err(ContractError::GlobalAlertLimitExceeded);
        }
        if self.per_owner_limit > 0 && self.live_count_of(owner) >= self.per_owner_limit {
            return Err(ContractError::OwnerAlertLimitExceeded);
        }
        if self.per_contract_limit > 0 && self.get_active_contract_alert_count(target_contract)
            >= self.per_contract_limit {
            return Err(ContractError::ContractAlertLimitExceeded);
        }
        let ghost m0 = self.model();
        proof {
            m0.lemma_register_wf(
                owner,
                target_contract,
                label@,
                webhook_hash,
                rules_view(rules@),
                now,
                ledger,
                n,
            );
        }
        let id = self.next_id;
        self.next_id = id + 1;
        let config = AlertConfig {
            label,
            webhook_hash,
            pending_webhook_hash: None,
            rules,
            owner,
            target_contract,
            created_at: now,
            updated_at: now,
            updated_ledger: ledger,
            active: true,
        };
        assert(config@ == new_config(
            owner,
            target_contract,
            config.label@,
            webhook_hash,
            rules_view(config.rules@),
            now,
            ledger,
        ));
        self.store_alert(id, config);
        assert(m0.live_count(owner) + 1 <= u32::MAX);
        self.push_owner_index(owner, id);
        self.push_contract_index(target_contract, id);
        self.events.push(AlertEvent::Registered { id, owner, target_contract });
        let ghost before = self.ttl_requests();
        self.touch_alert(id, owner, target_contract, DEFAULT_TTL);
        self.touch_instance();
        assert(self.ttl_requests() =~= before + touch_alert(id, owner, target_contract, DEFAULT_TTL).push(
            instance_ext(),
        ));
        Ok(id)
    }


    /// The state is unchanged and the call published nothing.
    pub open spec fn unchanged_from(self, before: AlertRegistry) -> bool {
        &&& self.model() == before.model()
        &&& self.events().len() == 0
        &&& self.ttl_requests().len() == 0
    }

    /// A copy of alert `id`'s configuration once `caller` is confirmed as
    /// its owner.
    fn owned_config(&self, id: u64, caller: Address) -> (r: Result<AlertConfig, ContractError>)
        ensures
            match self.model().owner_check(id, caller) {
                Ok(_) => r is Ok && r->Ok_0@ == self.model().alerts[id],
                Err(e) => r == Err::<AlertConfig, ContractError>(e),
            },
    {
        match self.alerts.get(&id) {
            None => Err(ContractError::AlertNotFound),
            Some(c) => {
                if c.owner != caller {
                    Err(ContractError::Unauthorized)
                } else {
                    Ok(c.duplicate())
                }
            },
        }
    }

    /// A copy of alert `id`'s configuration, or `AlertNotFound`.
    fn load_config(&self, id: u64) -> (r: Result<AlertConfig, ContractError>)
        ensures
            self.model().alerts.contains_key(id) ==> r is Ok && r->Ok_0@ == self.model().alerts[id],
            !self.model().alerts.contains_key(id) ==> r == Err::<AlertConfig, ContractError>(
                ContractError::AlertNotFound,
            ),
    {
        match self.alerts.get(&id) {
            None => Err(ContractError::AlertNotFound),
            Some(c) => Ok(c.duplicate()),
        }
    }

    /// Replace the rules and the active flag of alert `id` (owner only, not
    /// while paused). Publishes `("alert", "update")` with `(id, owner, active)`.
    pub fn update_alert(
        &mut self,
        caller: Address,
        id: u64,
        rules: Vec<Vec<u8>>,
        active: bool,
        now: u64,
        ledger: u32,
    ) -> (r: Result<(), ContractError>)
        requires
            old(self).wf(),
        ensures
            final(self).wf(),
            match old(self).model().update_alert(caller, id, rules_view(rules@), active, now, ledger) {
                Ok(m) => {
                    let c = old(self).model().alerts[id];
                    &&& r is Ok
                    &&& final(self).model() == m
                    &&& final(self).events() == seq![AlertEvent::Updated { id, owner: c.owner, active }]
                    &&& final(self).ttl_requests() == touch_alert(id, c.owner, c.target_contract, DEFAULT_TTL)
                },
                Err(e) => r == Err::<(), ContractError>(e) && final(self).unchanged_from(*old(self)),
            },
    {
        self.begin_call();
        self.check_not_paused()?;
        let mut cfg = self.owned_config(id, caller)?;
        validate_rules(&rules)?;
        let owner = cfg.owner;
        let target = cfg.target_contract;
        cfg.rules = rules;
        cfg.active = active;
        cfg.updated_at = now;
        cfg.updated_ledger = ledger;
        proof {
            self.model().lemma_put_in_place_wf(id, cfg@);
        }
        self.store_alert(id, cfg);
        assert(self.model() == old(self).model().update_alert(caller, id, rules_view(rules@), active, now, ledger)->Ok_0);
        self.events.push(AlertEvent::Updated { id, owner, active });
        self.touch_alert(id, owner, target, DEFAULT_TTL);
        Ok(())
    }

    /// Replace the live webhook hash directly (owner only, not while
    /// paused); a staged rotation is discarded. Publishes `("alert", "webhook")`.
    pub fn update_webhook(&mut self, caller: Address, id: u64, webhook_hash: [u8; 32], now: u64, ledger: u32) -> (r:
        Result<(), ContractError>)
        requires
            old(self).wf(),
        ensures
            final(self).wf(),
            match old(self).model().update_webhook(caller, id, webhook_hash, now, ledger) {
                Ok(m) => {
                    let c = old(self).model().alerts[id];
                    &&& r is Ok
                    &&& final(self).model() == m
                    &&& final(self).events() == seq![AlertEvent::WebhookUpdated { id, caller }]
                    &&& final(self).ttl_requests() == touch_alert(id, c.owner, c.target_contract, DEFAULT_TTL)
                },
                Err(e) => r == Err::<(), ContractError>(e) && final(self).unchanged_from(*old(self)),
            },
    {
        self.begin_call();
        self.check_not_paused()?;
        let mut cfg = self.owned_config(id, caller)?;
        let owner = cfg.owner;
        let target = cfg.target_contract;
        cfg.webhook_hash = webhook_hash;
        cfg.pending_webhook_hash = None;
        cfg.updated_at = now;
        cfg.updated_ledger = ledger;
        proof {
            self.model().lemma_put_in_place_wf(id, cfg@);
        }
        self.store_alert(id, cfg);
        assert(self.model() == old(self).model().update_webhook(caller, id, webhook_hash, now, ledger)->Ok_0);
        self.events.push(AlertEvent::WebhookUpdated { id, caller });
        self.touch_alert(id, owner, target, DEFAULT_TTL);
        Ok(())
    }

    /// Stage a replacement webhook hash without taking it live (owner only,
    /// not while paused); a second proposal overwrites the first. The
    /// modification stamps are left alone. Publishes `("alert", "wh_prop")`.
    pub fn propose_webhook(&mut self, caller: Address, id: u64, webhook_hash: [u8; 32]) -> (r: Result<(), ContractError>)
        requires
            old(self).wf(),
        ensures
            final(self).wf(),
            match old(self).model().propose_webhook(caller, id, webhook_hash) {
                Ok(m) => {
                    let c = old(self).model().alerts[id];
                    &&& r is Ok
                    &&& final(self).model() == m
                    &&& final(self).events() == seq![AlertEvent::WebhookProposed { id, caller }]
                    &&& final(self).ttl_requests() == touch_alert(id, c.owner, c.target_contract, DEFAULT_TTL)
                },
                Err(e) => r == Err::<(), ContractError>(e) && final(self).unchanged_from(*old(self)),
            },
    {
        self.begin_call();
        self.check_not_paused()?;
        let mut cfg = self.owned_config(id, caller)?;
        let owner = cfg.owner;
        let target = cfg.target_contract;
        cfg.pending_webhook_hash = Some(webhook_hash);
        proof {
            self.model().lemma_put_in_place_wf(id, cfg@);
        }
        self.store_alert(id, cfg);
        assert(self.model() == old(self).model().propose_webhook(caller, id, webhook_hash)->Ok_0);
        self.events.push(AlertEvent::WebhookProposed { id, caller });
        self.touch_alert(id, owner, target, DEFAULT_TTL);
        Ok(())
    }

    /// Promote the staged webhook hash to the live one (owner only, not
    /// while paused); `NoPendingWebhook` when nothing is staged. Publishes
    /// `("alert", "wh_conf")`.
    pub fn confirm_webhook(&mut self, caller: Address, id: u64, now: u64, ledger: u32) -> (r: Result<(), ContractError>)
        requires
            old(self).wf(),
        ensures
            final(self).wf(),
            match old(self).model().confirm_webhook(caller, id, now, ledger) {
                Ok(m) => {
                    let c = old(self).model().alerts[id];
                    &&& r is Ok
                    &&& final(self).model() == m
                    &&& final(self).events() == seq![AlertEvent::WebhookConfirmed { id, caller }]
                    &&& final(self).ttl_requests() == touch_alert(id, c.owner, c.target_contract, DEFAULT_TTL)
                },
                Err(e) => r == Err::<(), ContractError>(e) && final(self).unchanged_from(*old(self)),
            },
    {
        self.begin_call();
        self.check_not_paused()?;
        let mut cfg = self.owned_config(id, caller)?;
        let pending = match cfg.pending_webhook_hash {
            Some(h) => h,
            None => {
                return Err(ContractError::NoPendingWebhook);
            },
        };
        let owner = cfg.owner;
        let target = cfg.target_contract;
        cfg.webhook_hash = pending;
        cfg.pending_webhook_hash = None;
        cfg.updated_at = now;
        cfg.updated_ledger = ledger;
        proof {
            self.model().lemma_put_in_place_wf(id, cfg@);
        }
        self.store_alert(id, cfg);
        assert(self.model() == old(self).model().confirm_webhook(caller, id, now, ledger)->Ok_0);
        self.events.push(AlertEvent::WebhookConfirmed { id, caller });
        self.touch_alert(id, owner, target, DEFAULT_TTL);
        Ok(())
    }

    /// Abandon a staged webhook rotation (owner only, not while paused); the
    /// live hash is untouched. `NoPendingWebhook` when nothing is staged.
    /// Publishes `("alert", "wh_cancel")`.
    pub fn cancel_webhook_proposal(&mut self, caller: Address, id: u64, now: u64, ledger: u32) -> (r: Result<
        (),
        ContractError,
    >)
        requires
            old(self).wf(),
        ensures
            final(self).wf(),
            match old(self).model().cancel_webhook(caller, id, now, ledger) {
                Ok(m) => {
                    let c = old(self).model().alerts[id];
                    &&& r is Ok
                    &&& final(self).model() == m
                    &&& final(self).events() == seq![AlertEvent::WebhookProposalCancelled { id, caller }]
                    &&& final(self).ttl_requests() == touch_alert(id, c.owner, c.target_contract, DEFAULT_TTL)
                },
                Err(e) => r == Err::<(), ContractError>(e) && final(self).unchanged_from(*old(self)),
            },
    {
        self.begin_call();
        self.check_not_paused()?;
        let mut cfg = self.owned_config(id, caller)?;
        if cfg.pending_webhook_hash.is_none() {
            return Err(ContractError::NoPendingWebhook);
        }
        let owner = cfg.owner;
        let target = cfg.target_contract;
        cfg.pending_webhook_hash = None;
        cfg.updated_at = now;
        cfg.updated_ledger = ledger;
        proof {
            self.model().lemma_put_in_place_wf(id, cfg@);
        }
        self.store_alert(id, cfg);
        assert(self.model() == old(self).model().cancel_webhook(caller, id, now, ledger)->Ok_0);
        self.events.push(AlertEvent::WebhookProposalCancelled { id, caller });
        self.touch_alert(id, owner, target, DEFAULT_TTL);
        Ok(())
    }

    /// Replace the label of alert `id` (owner only, not while paused); the
    /// label may be at most 128 bytes. Publishes `("alert", "label")`.
    pub fn update_label(&mut self, caller: Address, id: u64, label: Vec<u8>, now: u64, ledger: u32) -> (r: Result<
        (),
        ContractError,
    >)
        requires
            old(self).wf(),
        ensures
            final(self).wf(),
            match old(self).model().update_label(caller, id, label@, now, ledger) {
                Ok(m) => {
                    let c = old(self).model().alerts[id];
                    &&& r is Ok
                    &&& final(self).model() == m
                    &&& final(self).events() == seq![AlertEvent::LabelUpdated { id, caller }]
                    &&& final(self).ttl_requests() == touch_alert(id, c.owner, c.target_contract, DEFAULT_TTL)
                },
                Err(e) => r == Err::<(), ContractError>(e) && final(self).unchanged_from(*old(self)),
            },
    {
        self.begin_call();
        self.check_not_paused()?;
        if label.len() > MAX_LABEL_LEN {
            return Err(ContractError::LabelTooLong);
        }
        let mut cfg = self.owned_config(id, caller)?;
        let owner = cfg.owner;
        let target = cfg.target_contract;
        let ghost lv = label@;
        cfg.label = label;
        cfg.updated_at = now;
        cfg.updated_ledger = ledger;
        proof {
            self.model().lemma_put_in_place_wf(id, cfg@);
        }
        self.store_alert(id, cfg);
        assert(self.model() == old(self).model().update_label(caller, id, lv, now, ledger)->Ok_0);
        self.events.push(AlertEvent::LabelUpdated { id, caller });
        self.touch_alert(id, owner, target, DEFAULT_TTL);
        Ok(())
    }

    /// Extend the lifetime of alert `id` and its index entries without
    /// changing any data (owner only, not while paused). Publishes
    /// `("alert", "renew")`.
    pub fn renew_alert_ttl(&mut self, caller: Address, id: u64) -> (r: Result<(), ContractError>)
        requires
            old(self).wf(),
        ensures
            final(self).wf(),
            final(self).model() == old(self).model(),
            match old(self).model().owner_call_check(caller, id) {
                Ok(_) => {
                    let c = old(self).model().alerts[id];
                    &&& r is Ok
                    &&& final(self).events() == seq![AlertEvent::Renewed { id, caller }]
                    &&& final(self).ttl_requests() == touch_alert(id, c.owner, c.target_contract, DEFAULT_TTL)
                },
                Err(e) => r == Err::<(), ContractError>(e) && final(self).unchanged_from(*old(self)),
            },
    {
        self.begin_call();
        self.check_not_paused()?;
        let cfg = self.owned_config(id, caller)?;
        self.events.push(AlertEvent::Renewed { id, caller });
        self.touch_alert(id, cfg.owner, cfg.target_contract, DEFAULT_TTL);
        Ok(())
    }

    /// Clear the active flag of any alert, keeping its record (admin only,
    /// not while paused).
    /// Publishes `("alert", "admin_off")`.
    pub fn deactivate_alert_by_admin(&mut self, admin: Address, id: u64, now: u64, ledger: u32) -> (r: Result<
        (),
        ContractError,
    >)
        requires
            old(self).wf(),
        ensures
            final(self).wf(),
            match old(self).model().deactivate_by_admin(admin, id, now, ledger) {
                Ok(m) => {
                    let c = old(self).model().alerts[id];
                    &&& r is Ok
                    &&& final(self).model() == m
                    &&& final(self).events() == seq![AlertEvent::DeactivatedByAdmin { id, admin }]
                    &&& final(self).ttl_requests() == touch_alert(id, c.owner, c.target_contract, DEFAULT_TTL)
                },
                Err(e) => r == Err::<(), ContractError>(e) && final(self).unchanged_from(*old(self)),
            },
    {
        self.begin_call();
        self.check_admin(admin)?;
        self.check_not_paused()?;
        let mut cfg = self.load_config(id)?;
        let owner = cfg.owner;
        let target = cfg.target_contract;
        cfg.active = false;
        cfg.updated_at = now;
        cfg.updated_ledger = ledger;
        proof {
            self.model().lemma_put_in_place_wf(id, cfg@);
        }
        self.store_alert(id, cfg);
        assert(self.model() == old(self).model().deactivate_by_admin(admin, id, now, ledger)->Ok_0);
        self.events.push(AlertEvent::DeactivatedByAdmin { id, admin });
        self.touch_alert(id, owner, target, DEFAULT_TTL);
        Ok(())
    }

    /// Extend the lifetime of alert `id` and its indexes to `ttl` ledgers,
    /// clamped to [`MAX_TTL`]; anyone may call it, not while paused.
    /// Publishes `("alert", "bump")` with the clamped TTL.
    pub fn bump_alert(&mut self, id: u64, ttl: u32) -> (r: Result<(), ContractError>)
        requires
            old(self).wf(),
        ensures
            final(self).wf(),
            final(self).model() == old(self).model(),
            match old(self).model().bump_check(id) {
                Ok(_) => {
                    let c = old(self).model().alerts[id];
                    &&& r is Ok
                    &&& final(self).events() == seq![AlertEvent::Bumped { id, ttl: clamp_ttl(ttl) }]
                    &&& final(self).ttl_requests() == bump_touch(id, c.owner, c.target_contract, clamp_ttl(ttl))
                },
                Err(e) => r == Err::<(), ContractError>(e) && final(self).unchanged_from(*old(self)),
            },
    {
        self.begin_call();
        self.check_not_paused()?;
        let effective = if ttl < MAX_TTL {
            ttl
        } else {
            MAX_TTL
        };
        let cfg = self.load_config(id)?;
        self.events.push(AlertEvent::Bumped { id, ttl: effective });
        self.ttl_extensions.push(TtlExtension { key: StorageKey::Alert(id), threshold: effective, extend_to: effective });
        self.ttl_extensions.push(
            TtlExtension { key: StorageKey::AlertActive(id), threshold: effective, extend_to: effective },
        );
        self.ttl_extensions.push(
            TtlExtension { key: StorageKey::OwnerIndex(cfg.owner), threshold: effective, extend_to: effective },
        );
        self.ttl_extensions.push(
            TtlExtension {
                key: StorageKey::ContractIndex(cfg.target_contract),
                threshold: effective,
                extend_to: effective,
            },
        );
        assert(self.ttl_requests() =~= bump_touch(id, cfg.owner, cfg.target_contract, effective));
        Ok(())
    }


    /// A copy of the stored state, with no recorded events or extensions.
    fn duplicate_state(&self) -> (r: AlertRegistry)
        ensures
            r.model() == self.model(),
            r.events().len() == 0,
            r.ttl_requests().len() == 0,
    {
        let r = AlertRegistry {
            admin: self.admin,
            paused: self.paused,
            per_owner_limit: self.per_owner_limit,
            per_contract_limit: self.per_contract_limit,
            global_limit: self.global_limit,
            watcher_registry: self.watcher_registry,
            next_id: self.next_id,
            alerts: self.alerts.clone(),
            active: self.active.clone(),
            owner_index: self.owner_index.clone(),
            contract_index: self.contract_index.clone(),
            owner_live: self.owner_live.clone(),
            events: Vec::new(),
            ttl_extensions: Vec::new(),
        };
        assert(r.model().alerts =~= self.model().alerts);
        assert(r.model().owner_index =~= self.model().owner_index);
        assert(r.model().contract_index =~= self.model().contract_index);
        r
    }

    /// Delete alert `id` (owned by `owner`, watching `target`) and its index
    /// entries, recording the removal by `caller`.
    fn erase(&mut self, id: u64, owner: Address, target: Address, caller: Address)
        requires
            old(self).model().alerts.contains_key(id),
            old(self).model().alerts[id].owner == owner,
            old(self).model().alerts[id].target_contract == target,
        ensures
            final(self).model() == old(self).model().erase_alert(id, old(self).model().alerts[id]),
            final(self).events() == old(self).events().push(AlertEvent::Removed { id, caller }),
            final(self).ttl_requests() == old(self).ttl_requests() + remove_touch(owner, target),
    {
        self.alerts.remove(&id);
        self.active.remove(&id);
        assert(self.model().alerts =~= old(self).model().alerts.remove(id));
        self.drop_owner_index(owner, id);
        self.drop_contract_index(target, id);
        self.events.push(AlertEvent::Removed { id, caller });
        self.ttl_extensions.push(
            TtlExtension { key: StorageKey::OwnerIndex(owner), threshold: DEFAULT_TTL, extend_to: DEFAULT_TTL },
        );
        self.ttl_extensions.push(
            TtlExtension {
                key: StorageKey::OwnerLiveCount(owner),
                threshold: DEFAULT_TTL,
                extend_to: DEFAULT_TTL,
            },
        );
        self.ttl_extensions.push(
            TtlExtension { key: StorageKey::ContractIndex(target), threshold: DEFAULT_TTL, extend_to: DEFAULT_TTL },
        );
        assert(self.ttl_requests() =~= old(self).ttl_requests() + remove_touch(owner, target));
    }

    /// Delete alert `id` and its index entries (owner only, not while
    /// paused). Publishes `("alert", "remove")` with `(id, caller)`.
    pub fn remove_alert(&mut self, caller: Address, id: u64) -> (r: Result<(), ContractError>)
        requires
            old(self).wf(),
        ensures
            final(self).wf(),
            match old(self).model().remove_alert(caller, id) {
                Ok(m) => {
                    let c = old(self).model().alerts[id];
                    &&& r is Ok
                    &&& final(self).model() == m
                    &&& final(self).events() == seq![AlertEvent::Removed { id, caller }]
                    &&& final(self).ttl_requests() == remove_touch(c.owner, c.target_contract)
                },
                Err(e) => r == Err::<(), ContractError>(e) && final(self).unchanged_from(*old(self)),
            },
    {
        self.begin_call();
        self.check_not_paused()?;
        let cfg = self.owned_config(id, caller)?;
        proof {
            self.model().lemma_erase_wf(id, 0);
        }
        self.erase(id, cfg.owner, cfg.target_contract, caller);
        Ok(())
    }

    /// Delete any alert (admin only, not while paused). Publishes
    /// `("alert", "remove")` with `(id, admin)`.
    pub fn remove_alert_by_admin(&mut self, admin: Address, id: u64) -> (r: Result<(), ContractError>)
        requires
            old(self).wf(),
        ensures
            final(self).wf(),
            match old(self).model().remove_by_admin(admin, id) {
                Ok(m) => {
                    let c = old(self).model().alerts[id];
                    &&& r is Ok
                    &&& final(self).model() == m
                    &&& final(self).events() == seq![AlertEvent::Removed { id, caller: admin }]
                    &&& final(self).ttl_requests() == remove_touch(c.owner, c.target_contract)
                },
                Err(e) => r == Err::<(), ContractError>(e) && final(self).unchanged_from(*old(self)),
            },
    {
        self.begin_call();
        self.check_admin(admin)?;
        self.check_not_paused()?;
        let cfg = self.load_config(id)?;
        proof {
            self.model().lemma_erase_wf(id, 0);
        }
        self.erase(id, cfg.owner, cfg.target_contract, admin);
        Ok(())
    }

    /// Delete several alerts of `caller` in one call, in order. When any id
    /// is missing or not owned by `caller` the whole call is undone and that
    /// first error returned; refused while paused. Publishes one
    /// `("alert", "remove")` per alert.
    pub fn batch_remove_alert(&mut self, caller: Address, config_ids: Vec<u64>) -> (r: Result<(), ContractError>)
        requires
            old(self).wf(),
        ensures
            final(self).wf(),
            match old(self).model().remove_all(caller, config_ids@) {
                Ok(m) => {
                    &&& r is Ok
                    &&& final(self).model() == m
                    &&& final(self).events() == config_ids@.map_values(
                        |id: u64| AlertEvent::Removed { id, caller },
                    )
                    &&& final(self).ttl_requests() == old(self).model().remove_all_touches(
                        caller,
                        config_ids@,
                    )
                },
                Err(e) => r == Err::<(), ContractError>(e) && final(self).unchanged_from(*old(self)),
            },
    {
        self.begin_call();
        self.check_not_paused()?;
        let saved = self.duplicate_state();
        let ghost m0 = old(self).model();
        let mut i: usize = 0;
        while i < config_ids.len()
            invariant
                0 <= i <= config_ids@.len(),
                self.wf(),
                saved.model() == m0,
                saved.events().len() == 0,
                saved.ttl_requests().len() == 0,
                m0 == old(self).model(),
                m0.wf(),
                m0.remove_all(caller, config_ids@.take(i as int)) == Ok::<RegistryModel, ContractError>(
                    self.model(),
                ),
                self.events() == config_ids@.take(i as int).map_values(
                    |id: u64| AlertEvent::Removed { id, caller },
                ),
                self.ttl_requests() == m0.remove_all_touches(caller, config_ids@.take(i as int)),
            decreases config_ids@.len() - i,
        {
            let id = config_ids[i];
            let ghost prefix = config_ids@.take(i as int);
            assert(config_ids@.take(i as int + 1).drop_last() =~= prefix);
            assert(config_ids@.take(i as int + 1).last() == id);
            match self.owned_config(id, caller) {
                Err(e) => {
                    assert(m0.remove_all(caller, config_ids@) == Err::<RegistryModel, ContractError>(e)) by {
                        self.lemma_remove_all_stops(m0, caller, config_ids@, i as int, e);
                    }
                    *self = saved;
                    return Err(e);
                },
                Ok(cfg) => {
                    proof {
                        self.model().lemma_erase_wf(id, 0);
                    }
                    self.erase(id, cfg.owner, cfg.target_contract, caller);
                    assert(self.events() =~= config_ids@.take(i as int + 1).map_values(
                        |id: u64| AlertEvent::Removed { id, caller },
                    ));
                },
            }
            i = i + 1;
        }
        assert(config_ids@.take(config_ids@.len() as int) =~= config_ids@);
        Ok(())
    }

    /// Once `remove_all` fails on a prefix's next id, it fails on the whole list.
    proof fn lemma_remove_all_stops(
        &self,
        m0: RegistryModel,
        caller: Address,
        ids: Seq<u64>,
        i: int,
        e: ContractError,
    )
        requires
            0 <= i < ids.len(),
            m0.remove_all(caller, ids.take(i)) == Ok::<RegistryModel, ContractError>(self.model()),
            self.model().owner_check(ids[i], caller) == Err::<(), ContractError>(e),
        ensures
            m0.remove_all(caller, ids) == Err::<RegistryModel, ContractError>(e),
        decreases ids.len() - i,
    {
        assert(ids.take(i + 1).drop_last() =~= ids.take(i));
        assert(m0.remove_all(caller, ids.take(i + 1)) == Err::<RegistryModel, ContractError>(e));
        lemma_remove_all_err_extends(m0, caller, ids, i + 1, e);
    }


    /// Hand alert `id` to `new_owner` (current owner only, not while paused), moving it from
    /// the old owner's index to the end of the new owner's. Publishes
    /// `("alert", "transfer")` with `(id, old_owner, new_owner)`.
    pub fn transfer_alert_ownership(
        &mut self,
        caller: Address,
        id: u64,
        new_owner: Address,
        now: u64,
        ledger: u32,
    ) -> (r: Result<(), ContractError>)
        requires
            old(self).wf(),
            old(self).model().live_count(new_owner) < u32::MAX,
        ensures
            final(self).wf(),
            match old(self).model().transfer_ownership(caller, id, new_owner, now, ledger) {
                Ok(m) => {
                    let c = old(self).model().alerts[id];
                    &&& r is Ok
                    &&& final(self).model() == m
                    &&& final(self).events() == seq![
                        AlertEvent::OwnershipTransferred { id, old_owner: caller, new_owner },
                    ]
                    &&& final(self).ttl_requests() == touch_alert(id, new_owner, c.target_contract, DEFAULT_TTL)
                        + seq![
                        ext(StorageKey::OwnerIndex(caller), DEFAULT_TTL),
                        ext(StorageKey::OwnerLiveCount(caller), DEFAULT_TTL),
                    ]
                },
                Err(e) => r == Err::<(), ContractError>(e) && final(self).unchanged_from(*old(self)),
            },
    {
        self.begin_call();
        self.check_not_paused()?;
        let mut cfg = self.owned_config(id, caller)?;
        let target = cfg.target_contract;
        proof {
            self.model().lemma_transfer_wf(caller, id, new_owner, now, ledger);
            assert(self.model().live_count(caller) == self.model().owner_ids(caller).len());
            assert(self.model().owner_ids(caller).contains(id));
        }
        cfg.owner = new_owner;
        cfg.updated_at = now;
        cfg.updated_ledger = ledger;
        self.store_alert(id, cfg);
        self.drop_owner_index(caller, id);
        assert(self.model().live_count(new_owner) < u32::MAX);
        self.push_owner_index(new_owner, id);
        self.events.push(AlertEvent::OwnershipTransferred { id, old_owner: caller, new_owner });
        self.touch_alert(id, new_owner, target, DEFAULT_TTL);
        self.ttl_extensions.push(
            TtlExtension { key: StorageKey::OwnerIndex(caller), threshold: DEFAULT_TTL, extend_to: DEFAULT_TTL },
        );
        self.ttl_extensions.push(
            TtlExtension {
                key: StorageKey::OwnerLiveCount(caller),
                threshold: DEFAULT_TTL,
                extend_to: DEFAULT_TTL,
            },
        );
        assert(self.ttl_requests() =~= touch_alert(id, new_owner, target, DEFAULT_TTL) + seq![
            ext(StorageKey::OwnerIndex(caller), DEFAULT_TTL),
            ext(StorageKey::OwnerLiveCount(caller), DEFAULT_TTL),
        ]);
        Ok(())
    }

    /// Move alert `id` to watch `new_target` (owner only, not while paused),
    /// from the old target's index to the end of the new one's. Publishes
    /// `("alert", "retarget")` with `(id, old_target, new_target)`.
    pub fn update_target_contract(
        &mut self,
        caller: Address,
        id: u64,
        new_target: Address,
        now: u64,
        ledger: u32,
    ) -> (r: Result<(), ContractError>)
        requires
            old(self).wf(),
        ensures
            final(self).wf(),
            match old(self).model().retarget(caller, id, new_target, now, ledger) {
                Ok(m) => {
                    let c = old(self).model().alerts[id];
                    &&& r is Ok
                    &&& final(self).model() == m
                    &&& final(self).events() == seq![
                        AlertEvent::Retargeted { id, old_target: c.target_contract, new_target },
                    ]
                    &&& final(self).ttl_requests() == touch_alert(id, caller, new_target, DEFAULT_TTL)
                        + seq![ext(StorageKey::ContractIndex(c.target_contract), DEFAULT_TTL)]
                },
                Err(e) => r == Err::<(), ContractError>(e) && final(self).unchanged_from(*old(self)),
            },
    {
        self.begin_call();
        self.check_not_paused()?;
        let mut cfg = self.owned_config(id, caller)?;
        let old_target = cfg.target_contract;
        proof {
            self.model().lemma_retarget_wf(caller, id, new_target, now, ledger);
        }
        cfg.target_contract = new_target;
        cfg.updated_at = now;
        cfg.updated_ledger = ledger;
        self.store_alert(id, cfg);
        self.drop_contract_index(old_target, id);
        self.push_contract_index(new_target, id);
        self.events.push(AlertEvent::Retargeted { id, old_target, new_target });
        self.touch_alert(id, caller, new_target, DEFAULT_TTL);
        self.ttl_extensions.push(
            TtlExtension { key: StorageKey::ContractIndex(old_target), threshold: DEFAULT_TTL, extend_to: DEFAULT_TTL },
        );
        assert(self.ttl_requests() =~= touch_alert(id, caller, new_target, DEFAULT_TTL) + seq![
            ext(StorageKey::ContractIndex(old_target), DEFAULT_TTL),
        ]);
        Ok(())
    }


    /// Register several alerts in one call, in order, returning their ids.
    /// When any input fails the checks of `register_alert` the whole call is
    /// undone and that first error returned; refused while paused. Publishes one
    /// `("alert", "register")` per alert.
    pub fn batch_register_alert(&mut self, inputs: Vec<AlertInput>, now: u64, ledger: u32) -> (r: Result<
        Vec<u64>,
        ContractError,
    >)
        requires
            old(self).wf(),
            old(self).model().has_room(inputs@.len()),
        ensures
            final(self).wf(),
            match old(self).model().register_all(inputs@.map_values(|x: AlertInput| x@), now, ledger) {
                Ok((m, ids)) => {
                    &&& r is Ok
                    &&& r->Ok_0@ == ids
                    &&& final(self).model() == m
                    &&& final(self).events() == registration_events(
                        inputs@.map_values(|x: AlertInput| x@),
                        ids,
                    )
                    &&& final(self).ttl_requests() == registration_touches(
                        inputs@.map_values(|x: AlertInput| x@),
                        ids,
                    )
                },
                Err(e) => r == Err::<Vec<u64>, ContractError>(e) && final(self).unchanged_from(*old(self)),
            },
    {
        self.begin_call();
        self.check_not_paused()?;
        let saved = self.duplicate_state();
        let ghost m0 = old(self).model();
        let ghost xs = inputs@.map_values(|x: AlertInput| x@);
        let mut ids: Vec<u64> = Vec::new();
        let mut i: usize = 0;
        while i < inputs.len()
            invariant
                0 <= i <= inputs@.len(),
                xs == inputs@.map_values(|x: AlertInput| x@),
                xs.len() == inputs@.len(),
                self.wf(),
                self.model().has_room((inputs@.len() - i) as nat),
                saved.model() == m0,
                saved.events().len() == 0,
                saved.ttl_requests().len() == 0,
                m0 == old(self).model(),
                m0.wf(),
                m0.register_all(xs.take(i as int), now, ledger) == Ok::<
                    (RegistryModel, Seq<u64>),
                    ContractError,
                >((self.model(), ids@)),
                ids@.len() == i,
                self.events() == registration_events(xs.take(i as int), ids@),
                self.ttl_requests() == registration_touches(xs.take(i as int), ids@),
            decreases inputs@.len() - i,
        {
            let input = &inputs[i];
            let ghost x = xs[i as int];
            assert(x == input@);
            assert(xs.take(i as int + 1).drop_last() =~= xs.take(i as int));
            assert(xs.take(i as int + 1).last() == x);
            let label = copy_bytes(&input.label);
            let rules = copy_rules(&input.rules);
            let ghost before_events = self.events();
            let ghost before_ttl = self.ttl_requests();
            let res = self.register_one(
                input.owner,
                input.target_contract,
                label,
                input.webhook_hash,
                rules,
                now,
                ledger,
                Ghost((inputs@.len() - i - 1) as nat),
            );
            match res {
                Err(e) => {
                    proof {
                        assert(m0.register_all(xs.take(i as int + 1), now, ledger) == Err::<
                            (RegistryModel, Seq<u64>),
                            ContractError,
                        >(e));
                        lemma_register_all_err_extends(m0, xs, i as int + 1, now, ledger, e);
                    }
                    *self = saved;
                    return Err(e);
                },
                Ok(id) => {
                    let ghost old_ids = ids@;
                    ids.push(id);
                    proof {
                        assert(registration_events(xs.take(i as int + 1), ids@) =~= before_events.push(
                            AlertEvent::Registered {
                                id,
                                owner: input.owner,
                                target_contract: input.target_contract,
                            },
                        )) by {
                            assert(registration_events(xs.take(i as int), old_ids) =~= registration_events(
                                xs.take(i as int),
                                ids@,
                            ));
                        }
                        lemma_registration_touches_prefix(xs.take(i as int), old_ids, ids@);
                        assert(xs.take(i as int + 1).drop_last() =~= xs.take(i as int));
                    }
                },
            }
            i = i + 1;
        }
        assert(xs.take(inputs@.len() as int) =~= xs);
        Ok(ids)
    }

    /// Switch off every live active alert of `caller` and return how many
    /// were switched off; refused while paused. Publishes
    /// `("alert", "bulk_off")` with `(caller, count)` when the count is not 0.
    pub fn deactivate_all_alerts(&mut self, caller: Address, now: u64, ledger: u32) -> (r: Result<u32, ContractError>)
        requires
            old(self).wf(),
        ensures
            final(self).wf(),
            match old(self).model().pause_check() {
                Err(e) => r == Err::<u32, ContractError>(e) && final(self).unchanged_from(*old(self)),
                Ok(_) => {
                    let count = active_configs(
                        old(self).model().alerts,
                        old(self).model().owner_ids(caller),
                    ).len();
                    &&& r == Ok::<u32, ContractError>(count as u32)
                    &&& final(self).model() == old(self).model().deactivate_all(caller, now, ledger)
                    &&& final(self).events() == if count > 0 {
                        seq![AlertEvent::BulkDeactivated { caller, count: count as u32 }]
                    } else {
                        Seq::<AlertEvent>::empty()
                    }
                    &&& final(self).ttl_requests() == deactivation_touches(
                        old(self).model(),
                        caller,
                        old(self).model().owner_ids(caller),
                    )
                },
            },
    {
        self.begin_call();
        self.check_not_paused()?;
        let ids = self.owner_ids_of(caller);
        let ghost m0 = self.model();
        proof {
            assert(m0.live_count(caller) == m0.owner_ids(caller).len());
            m0.lemma_deactivate_among_wf(ids@, now, ledger);
        }
        let mut count: u32 = 0;
        let mut i: usize = 0;
        assert(m0.deactivate_among(ids@.take(0), now, ledger).alerts =~= m0.alerts);
        assert(m0.deactivate_among(ids@.take(0), now, ledger).active =~= m0.active);
        assert(m0.deactivate_among(ids@.take(0), now, ledger) == m0);
        while i < ids.len()
            invariant
                0 <= i <= ids@.len(),
                ids@ == m0.owner_ids(caller),
                ids@.no_duplicates(),
                ids@.len() <= u32::MAX,
                m0.wf(),
                self.model() == m0.deactivate_among(ids@.take(i as int), now, ledger),
                count == active_configs(m0.alerts, ids@.take(i as int)).len(),
                count <= i,
                self.events().len() == 0,
                self.ttl_requests() == deactivation_touches(m0, caller, ids@.take(i as int)),
            decreases ids@.len() - i,
        {
            let id = ids[i];
            let ghost prev = ids@.take(i as int);
            assert(ids@.take(i as int + 1).drop_last() =~= prev);
            assert(ids@.take(i as int + 1).last() == id);
            proof {
                lemma_select_step(m0.alerts, ids@, i as int, keep_active());
                assert(!prev.contains(id)) by {
                    if prev.contains(id) {
                        let j = choose|j: int| 0 <= j < prev.len() && prev[j] == id;
                        assert(ids@[j] == ids@[i as int]);
                    }
                }
            }
            assert(self.model().alerts.contains_key(id) == m0.alerts.contains_key(id));
            assert(m0.alerts.contains_key(id) ==> self.model().alerts[id] == m0.alerts[id]);
            let switch_off = match self.alerts.get(&id) {
                Some(c) => c.active,
                None => false,
            };
            assert(switch_off == (m0.alerts.contains_key(id) && m0.alerts[id].active));
            if switch_off {
                let mut cfg = self.load_config(id).unwrap();
                let target = cfg.target_contract;
                cfg.active = false;
                cfg.updated_at = now;
                cfg.updated_ledger = ledger;
                self.store_alert(id, cfg);
                assert(self.model().alerts =~= m0.deactivate_among(ids@.take(i as int + 1), now, ledger).alerts);
                assert(self.model().active =~= m0.deactivate_among(ids@.take(i as int + 1), now, ledger).active);
                count = count + 1;
                self.touch_alert(id, caller, target, DEFAULT_TTL);
            } else {
                assert(self.model().alerts =~= m0.deactivate_among(ids@.take(i as int + 1), now, ledger).alerts);
                assert(self.model().active =~= m0.deactivate_among(ids@.take(i as int + 1), now, ledger).active);
            }
            i = i + 1;
        }
        assert(ids@.take(ids@.len() as int) =~= ids@);
        if count > 0 {
            self.events.push(AlertEvent::BulkDeactivated { caller, count });
        }
        Ok(count)
    }

    // ── Queries ───────────────────────────────────────────────────────────


    fn check_gate(&self, querier_is_watcher: bool) -> (r: Result<(), ContractError>)
        ensures
            r == self.model().gate_check(querier_is_watcher),
    {
        if self.watcher_registry.is_some() && !querier_is_watcher {
            Err(ContractError::NotAWatcher)
        } else {
            Ok(())
        }
    }

    /// Copies of the configurations of `ids[start..end]` that are live and
    /// pass `filter`, in order.
    fn collect(&self, ids: &Vec<u64>, start: usize, end: usize, filter: Selection) -> (r: Vec<AlertConfig>)
        requires
            start <= end <= ids@.len(),
        ensures
            configs_view(r@) == select_configs(
                self.model().alerts,
                ids@.subrange(start as int, end as int),
                filter.keeps(),
            ),
    {
        let ghost alerts = self.model().alerts;
        let mut out: Vec<AlertConfig> = Vec::new();
        let mut i: usize = start;
        assert(configs_view(out@) =~= select_configs(alerts, ids@.subrange(start as int, start as int), filter.keeps()));
        while i < end
            invariant
                start <= i <= end <= ids@.len(),
                alerts == self.model().alerts,
                configs_view(out@) == select_configs(alerts, ids@.subrange(start as int, i as int), filter.keeps()),
            decreases end - i,
        {
            proof {
                lemma_select_sub_step(alerts, ids@, start as int, i as int, filter.keeps());
            }
            let id = ids[i];
            match self.alerts.get(&id) {
                Some(c) => {
                    if filter.accepts(c) {
                        let ghost before = out@;
                        out.push(c.duplicate());
                        assert(configs_view(out@) =~= configs_view(before).push(alerts[id]));
                    }
                },
                None => {},
            }
            i = i + 1;
        }
        out
    }

    /// Copies of the live configurations with ids in `[start, end)` that pass
    /// `filter`, in id order.
    fn collect_range(&self, start: u64, end: u64, filter: Selection) -> (r: Vec<AlertConfig>)
        requires
            start <= end,
        ensures
            configs_view(r@) == select_configs(self.model().alerts, id_range(start, end), filter.keeps()),
    {
        let ghost alerts = self.model().alerts;
        let mut out: Vec<AlertConfig> = Vec::new();
        let mut id: u64 = start;
        assert(configs_view(out@) =~= select_configs(alerts, id_range(start, start), filter.keeps()));
        while id < end
            invariant
                start <= id <= end,
                alerts == self.model().alerts,
                configs_view(out@) == select_configs(alerts, id_range(start, id), filter.keeps()),
            decreases end - id,
        {
            assert(id_range(start, (id + 1) as u64).drop_last() =~= id_range(start, id));
            assert(id_range(start, (id + 1) as u64).last() == id);
            match self.alerts.get(&id) {
                Some(c) => {
                    if filter.accepts(c) {
                        let ghost before = out@;
                        out.push(c.duplicate());
                        assert(configs_view(out@) =~= configs_view(before).push(alerts[id]));
                    }
                },
                None => {},
            }
            id = id + 1;
        }
        out
    }

    /// The configuration of alert `id`, or `None` when there is none. Gated
    /// by the watcher registry when one is configured: `querier_is_watcher`
    /// is its answer for the querying address.
    pub fn get_alert(&self, querier_is_watcher: bool, id: u64) -> (r: Result<Option<AlertConfig>, ContractError>)
        ensures
            match self.model().gate_check(querier_is_watcher) {
                Err(e) => r == Err::<Option<AlertConfig>, ContractError>(e),
                Ok(_) => r is Ok && match r->Ok_0 {
                    Some(c) => self.model().alerts.contains_key(id) && c@ == self.model().alerts[id],
                    None => !self.model().alerts.contains_key(id),
                },
            },
    {
        self.check_gate(querier_is_watcher)?;
        match self.alerts.get(&id) {
            Some(c) => Ok(Some(c.duplicate())),
            None => Ok(None),
        }
    }

    /// The separately stored active flag of alert `id`, or `None` when there
    /// is none. Gated like [`Self::get_alert`].
    pub fn get_alert_active(&self, querier_is_watcher: bool, id: u64) -> (r: Result<Option<bool>, ContractError>)
        ensures
            match self.model().gate_check(querier_is_watcher) {
                Err(e) => r == Err::<Option<bool>, ContractError>(e),
                Ok(_) => r == Ok::<Option<bool>, ContractError>(
                    if self.model().active.contains_key(id) {
                        Some(self.model().active[id])
                    } else {
                        None
                    },
                ),
            },
    {
        self.check_gate(querier_is_watcher)?;
        match self.active.get(&id) {
            Some(a) => Ok(Some(*a)),
            None => Ok(None),
        }
    }

    /// The owner of alert `id`, or `None` when there is none. Gated like
    /// [`Self::get_alert`].
    pub fn get_alert_owner(&self, querier_is_watcher: bool, id: u64) -> (r: Result<Option<Address>, ContractError>)
        ensures
            match self.model().gate_check(querier_is_watcher) {
                Err(e) => r == Err::<Option<Address>, ContractError>(e),
                Ok(_) => r == Ok::<Option<Address>, ContractError>(
                    if self.model().alerts.contains_key(id) {
                        Some(self.model().alerts[id].owner)
                    } else {
                        None
                    },
                ),
            },
    {
        self.check_gate(querier_is_watcher)?;
        match self.alerts.get(&id) {
            Some(c) => Ok(Some(c.owner)),
            None => Ok(None),
        }
    }

    /// Every live alert watching `target_contract`, in index order. Gated
    /// like [`Self::get_alert`].
    pub fn get_alerts_for_contract(&self, querier_is_watcher: bool, target_contract: Address) -> (r: Result<
        Vec<AlertConfig>,
        ContractError,
    >)
        ensures
            match self.model().gate_check(querier_is_watcher) {
                Err(e) => r == Err::<Vec<AlertConfig>, ContractError>(e),
                Ok(_) => r is Ok && configs_view(r->Ok_0@) == live_configs(
                    self.model().alerts,
                    self.model().contract_ids(target_contract),
                ),
            },
    {
        self.check_gate(querier_is_watcher)?;
        let ids = self.contract_ids_of(target_contract);
        assert(ids@.subrange(0, ids@.len() as int) =~= ids@);
        Ok(self.collect(&ids, 0, ids.len(), Selection::All))
    }

    /// The active live alerts watching `target_contract`, in index order.
    /// Gated like [`Self::get_alert`].
    pub fn get_active_alerts_for_contract(&self, querier_is_watcher: bool, target_contract: Address) -> (r:
        Result<Vec<AlertConfig>, ContractError>)
        ensures
            match self.model().gate_check(querier_is_watcher) {
                Err(e) => r == Err::<Vec<AlertConfig>, ContractError>(e),
                Ok(_) => r is Ok && configs_view(r->Ok_0@) == active_configs(
                    self.model().alerts,
                    self.model().contract_ids(target_contract),
                ),
            },
    {
        self.check_gate(querier_is_watcher)?;
        let ids = self.contract_ids_of(target_contract);
        assert(ids@.subrange(0, ids@.len() as int) =~= ids@);
        Ok(self.collect(&ids, 0, ids.len(), Selection::Active))
    }

    /// Every live alert `owner` owns, in index order. Gated like
    /// [`Self::get_alert`].
    pub fn get_alerts_by_owner(&self, querier_is_watcher: bool, owner: Address) -> (r: Result<
        Vec<AlertConfig>,
        ContractError,
    >)
        ensures
            match self.model().gate_check(querier_is_watcher) {
                Err(e) => r == Err::<Vec<AlertConfig>, ContractError>(e),
                Ok(_) => r is Ok && configs_view(r->Ok_0@) == live_configs(
                    self.model().alerts,
                    self.model().owner_ids(owner),
                ),
            },
    {
        self.check_gate(querier_is_watcher)?;
        let ids = self.owner_ids_of(owner);
        assert(ids@.subrange(0, ids@.len() as int) =~= ids@);
        Ok(self.collect(&ids, 0, ids.len(), Selection::All))
    }

    /// The ids in `owner`'s index, in order; not gated.
    pub fn get_alert_ids_by_owner(&self, owner: Address) -> (r: Vec<u64>)
        ensures
            r@ == self.model().owner_ids(owner),
    {
        self.owner_ids_of(owner)
    }

    /// A page of the alerts watching `target_contract`: index positions
    /// `[offset, offset + limit)` clamped to the index length, with `offset +
    /// limit` saturating. Gated like [`Self::get_alert`].
    pub fn get_contract_alerts_paginated(
        &self,
        querier_is_watcher: bool,
        target_contract: Address,
        offset: u32,
        limit: u32,
    ) -> (r: Result<Vec<AlertConfig>, ContractError>)
        ensures
            match self.model().gate_check(querier_is_watcher) {
                Err(e) => r == Err::<Vec<AlertConfig>, ContractError>(e),
                Ok(_) => {
                    let ids = self.model().contract_ids(target_contract);
                    r is Ok && configs_view(r->Ok_0@) == live_configs(
                        self.model().alerts,
                        ids.subrange(page_start(ids.len() as int, offset), page_end(ids.len() as int, offset, limit)),
                    )
                },
            },
    {
        self.check_gate(querier_is_watcher)?;
        let ids = self.contract_ids_of(target_contract);
        let (first, last) = page_bounds(ids.len(), offset, limit);
        Ok(self.collect(&ids, first, last, Selection::All))
    }

    /// A page of the alerts `owner` owns, as for
    /// [`Self::get_contract_alerts_paginated`]. Gated like [`Self::get_alert`].
    pub fn get_alerts_by_owner_paginated(
        &self,
        querier_is_watcher: bool,
        owner: Address,
        offset: u32,
        limit: u32,
    ) -> (r: Result<Vec<AlertConfig>, ContractError>)
        ensures
            match self.model().gate_check(querier_is_watcher) {
                Err(e) => r == Err::<Vec<AlertConfig>, ContractError>(e),
                Ok(_) => {
                    let ids = self.model().owner_ids(owner);
                    r is Ok && configs_view(r->Ok_0@) == live_configs(
                        self.model().alerts,
                        ids.subrange(page_start(ids.len() as int, offset), page_end(ids.len() as int, offset, limit)),
                    )
                },
            },
    {
        self.check_gate(querier_is_watcher)?;
        let ids = self.owner_ids_of(owner);
        let (first, last) = page_bounds(ids.len(), offset, limit);
        Ok(self.collect(&ids, first, last, Selection::All))
    }

    /// Incremental sync: the live alerts with ids in `[offset, offset +
    /// limit)`, clamped to the number ever registered, whose `updated_at` is
    /// at least `since`, in id order.
    pub fn get_alerts_modified_since(&self, since: u64, offset: u32, limit: u32) -> (r: Vec<AlertConfig>)
        ensures
            configs_view(r@) == select_configs(
                self.model().alerts,
                sync_range(self.model().next_id, offset, limit),
                keep_modified_since(since),
            ),
    {
        let (start, end) = sync_bounds(self.next_id, offset, limit);
        self.collect_range(start, end, Selection::ModifiedSince(since))
    }

    /// Incremental sync by ledger sequence: as
    /// [`Self::get_alerts_modified_since`], keeping the alerts whose
    /// `updated_ledger` is at least `since_ledger`.
    pub fn get_alerts_modified_since_ledger(&self, since_ledger: u32, offset: u32, limit: u32) -> (r: Vec<AlertConfig>)
        ensures
            configs_view(r@) == select_configs(
                self.model().alerts,
                sync_range(self.model().next_id, offset, limit),
                keep_modified_since_ledger(since_ledger),
            ),
    {
        let (start, end) = sync_bounds(self.next_id, offset, limit);
        self.collect_range(start, end, Selection::ModifiedSinceLedger(since_ledger))
    }

    /// Number of alerts ever registered; never decreases.
    pub fn get_alert_count(&self) -> (r: u64)
        ensures
            r == self.model().next_id,
    {
        self.next_id
    }

    /// Number of `owner`'s alerts that are live and active, read from the
    /// separately stored flags.
    pub fn get_active_alert_count(&self, owner: Address) -> (r: u32)
        requires
            self.wf(),
        ensures
            r == active_configs(self.model().alerts, self.model().owner_ids(owner)).len(),
    {
        let ids = self.owner_ids_of(owner);
        let ghost m = self.model();
        proof {
            assert(m.live_count(owner) == m.owner_ids(owner).len());
        }
        let mut count: u32 = 0;
        let mut i: usize = 0;
        while i < ids.len()
            invariant
                0 <= i <= ids@.len(),
                ids@ == m.owner_ids(owner),
                ids@.len() <= u32::MAX,
                m == self.model(),
                m.wf(),
                count == active_configs(m.alerts, ids@.take(i as int)).len(),
                count <= i,
            decreases ids@.len() - i,
        {
            proof {
                lemma_select_step(m.alerts, ids@, i as int, keep_active());
            }
            let id = ids[i];
            let on = match self.active.get(&id) {
                Some(a) => *a,
                None => false,
            };
            assert(on == (m.alerts.contains_key(id) && m.alerts[id].active));
            if on {
                count = count + 1;
            }
            i = i + 1;
        }
        assert(ids@.take(ids@.len() as int) =~= ids@);
        count
    }

    /// Whether `n` more registrations fit without overflowing a counter:
    /// the id counter, and the live count of every owner and every target.
    /// Only owners and targets of stored alerts can have a positive count,
    /// so walking the ids ever handed out finds the largest of them.
    pub fn has_room_for(&self, n: u32) -> (r: bool)
        requires
            self.wf(),
        ensures
            r == self.model().has_room(n as nat),
    {
        if self.next_id > u64::MAX - (n as u64) {
            return false;
        }
        let limit: u32 = u32::MAX - n;
        let ghost m = self.model();
        let mut id: u64 = 0;
        while id < self.next_id
            invariant
                self.wf(),
                m == self.model(),
                0 <= id <= self.next_id,
                limit + n == u32::MAX,
                forall|k: u64| #![trigger m.alerts[k]]
                    k < id && m.alerts.contains_key(k) ==> {
                        &&& m.live_count(m.alerts[k].owner) <= limit
                        &&& m.contract_ids(m.alerts[k].target_contract).len() <= limit
                    },
            decreases self.next_id - id,
        {
            match self.alerts.get(&id) {
                Some(c) => {
                    assert(m.alerts[id] == c@);
                    if self.live_count_of(c.owner) > limit {
                        assert(!(m.live_count(c.owner) + n <= u32::MAX));
                        return false;
                    }
                    if self.contract_len_of(c.target_contract) > limit as usize {
                        assert(!(m.contract_ids(c.target_contract).len() + n <= u32::MAX));
                        return false;
                    }
                },
                None => {},
            }
            id = id + 1;
        }
        proof {
            assert forall|o: Address| #[trigger] m.live_count(o) + n <= u32::MAX by {
                if m.owner_ids(o).len() > 0 {
                    let k = m.owner_ids(o)[0];
                    assert(m.alerts.contains_key(k) && m.alerts[k].owner == o);
                }
            }
            assert forall|t: Address| #[trigger] m.contract_ids(t).len() + n <= u32::MAX by {
                if m.contract_ids(t).len() > 0 {
                    let k = m.contract_ids(t)[0];
                    assert(m.alerts.contains_key(k) && m.alerts[k].target_contract == t);
                }
            }
        }
        true
    }

    /// Number of `owner`'s live alerts, active or not, from the running
    /// counter.
    pub fn get_non_removed_alert_count(&self, owner: Address) -> (r: u32)
        ensures
            r == self.model().live_count(owner),
    {
        self.live_count_of(owner)
    }

    /// Number of live alerts watching `target_contract`, across all owners.
    pub fn get_active_contract_alert_count(&self, target_contract: Address) -> (r: u32)
        requires
            self.model().contract_ids(target_contract).len() <= u32::MAX,
        ensures
            r == self.model().contract_live_count(target_contract),
    {
        let ids = self.contract_ids_of(target_contract);
        let ghost alerts = self.model().alerts;
        let mut count: u32 = 0;
        let mut i: usize = 0;
        while i < ids.len()
            invariant
                0 <= i <= ids@.len(),
                ids@.len() <= u32::MAX,
                alerts == self.model().alerts,
                count == live_configs(alerts, ids@.take(i as int)).len(),
                count <= i,
            decreases ids@.len() - i,
        {
            proof {
                lemma_select_step(alerts, ids@, i as int, keep_all());
            }
            if self.alerts.contains_key(&ids[i]) {
                count = count + 1;
            }
            i = i + 1;
        }
        assert(ids@.take(ids@.len() as int) =~= ids@);
        count
    }
}

impl AlertRegistry {
    /// The abstract state the registry holds.
    pub closed spec fn model(&self) -> RegistryModel {
        RegistryModel {
            admin: self.admin,
            paused: self.paused,
            per_owner_limit: self.per_owner_limit,
            per_contract_limit: self.per_contract_limit,
            global_limit: self.global_limit,
            watcher_registry: self.watcher_registry,
            next_id: self.next_id,
            alerts: self.alerts@.map_values(|c: AlertConfig| c@),
            active: self.active@,
            owner_index: self.owner_index@.map_values(|v: Vec<u64>| v@),
            contract_index: self.contract_index@.map_values(|v: Vec<u64>| v@),
            owner_live: self.owner_live@,
        }
    }

    /// Events published by the most recent mutating call.
    pub closed spec fn events(&self) -> Seq<AlertEvent> {
        self.events@
    }

    /// Lifetime extensions requested by the most recent mutating call.
    pub closed spec fn ttl_requests(&self) -> Seq<TtlExtension> {
        self.ttl_extensions@
    }

    /// The registry's invariant.
    pub open spec fn wf(&self) -> bool {
        self.model().wf()
    }

    /// An empty, uninitialized registry.
    pub fn new() -> (r: AlertRegistry)
        ensures
            r.model() == RegistryModel::empty(),
            r.wf(),
            r.events() == Seq::<AlertEvent>::empty(),
            r.ttl_requests() == Seq::<TtlExtension>::empty(),
    {
        let r = AlertRegistry {
            admin: None,
            paused: false,
            per_owner_limit: 0,
            per_contract_limit: 0,
            global_limit: 0,
            watcher_registry: None,
            next_id: 0,
            alerts: HashMap::new(),
            active: HashMap::new(),
            owner_index: HashMap::new(),
            contract_index: HashMap::new(),
            owner_live: HashMap::new(),
            events: Vec::new(),
            ttl_extensions: Vec::new(),
        };
        assert(r.model().alerts =~= Map::<u64, crate::alert_types::AlertView>::empty());
        assert(r.model().owner_index =~= Map::<u64, Seq<u64>>::empty());
        assert(r.model().contract_index =~= Map::<u64, Seq<u64>>::empty());
        assert(r.model() == RegistryModel::empty());
        r
    }

    /// The events published by the most recent mutating call.
    pub fn last_events(&self) -> (r: Vec<AlertEvent>)
        ensures
            r@ == self.events(),
    {
        let mut r: Vec<AlertEvent> = Vec::new();
        let mut k: usize = 0;
        while k < self.events.len()
            invariant
                0 <= k <= self.events@.len(),
                r@ == self.events@.take(k as int),
            decreases self.events@.len() - k,
        {
            r.push(self.events[k]);
            k = k + 1;
            assert(r@ =~= self.events@.take(k as int));
        }
        assert(self.events@.take(k as int) =~= self.events@);
        r
    }

    /// The lifetime extensions requested by the most recent mutating call.
    pub fn last_ttl_requests(&self) -> (r: Vec<TtlExtension>)
        ensures
            r@ == self.ttl_requests(),
    {
        let mut r: Vec<TtlExtension> = Vec::new();
        let mut k: usize = 0;
        while k < self.ttl_extensions.len()
            invariant
                0 <= k <= self.ttl_extensions@.len(),
                r@ == self.ttl_extensions@.take(k as int),
            decreases self.ttl_extensions@.len() - k,
        {
            r.push(self.ttl_extensions[k]);
            k = k + 1;
            assert(r@ =~= self.ttl_extensions@.take(k as int));
        }
        assert(self.ttl_extensions@.take(k as int) =~= self.ttl_extensions@);
        r
    }

    /// Forget the events and extensions of the previous call.
    fn begin_call(&mut self)
        ensures
            final(self).model() == old(self).model(),
            final(self).events() == Seq::<AlertEvent>::empty(),
            final(self).ttl_requests() == Seq::<TtlExtension>::empty(),
    {
        self.events = Vec::new();
        self.ttl_extensions = Vec::new();
    }

    /// Record a request to extend the instance entry.
    fn touch_instance(&mut self)
        ensures
            final(self).model() == old(self).model(),
            final(self).events() == old(self).events(),
            final(self).ttl_requests() == old(self).ttl_requests().push(instance_ext()),
    {
        self.ttl_extensions.push(
            TtlExtension {
                key: StorageKey::Instance,
                threshold: INSTANCE_BUMP_THRESHOLD,
                extend_to: INSTANCE_BUMP_AMOUNT,
            },
        );
    }

    fn check_admin(&self, caller: Address) -> (r: Result<(), ContractError>)
        ensures
            r == self.model().admin_check(caller),
    {
        match self.admin {
            None => Err(ContractError::NotInitialized),
            Some(a) => if a == caller {
                Ok(())
            } else {
                Err(ContractError::Unauthorized)
            },
        }
    }

    fn check_not_paused(&self) -> (r: Result<(), ContractError>)
        ensures
            r == self.model().pause_check(),
    {
        if self.paused {
            Err(ContractError::Paused)
        } else {
            Ok(())
        }
    }

    // ── Admin / configuration ─────────────────────────────────────────────

    /// Install `admin` as the registry's admin. Can be done once.
    ///
    /// Fails with `AlreadyInitialized` when an admin is already installed.
    /// Publishes `("admin", "init")`.
    pub fn initialize(&mut self, admin: Address) -> (r: Result<(), ContractError>)
        requires
            old(self).wf(),
        ensures
            final(self).wf(),
            old(self).model().admin is Some ==> {
                &&& r == Err::<(), ContractError>(ContractError::AlreadyInitialized)
                &&& final(self).model() == old(self).model()
                &&& final(self).events().len() == 0
                &&& final(self).ttl_requests().len() == 0
            },
            old(self).model().admin is None ==> {
                &&& r is Ok
                &&& final(self).model() == RegistryModel { admin: Some(admin), ..old(self).model() }
                &&& final(self).events() == seq![AlertEvent::AdminInit { admin }]
                &&& final(self).ttl_requests() == seq![instance_ext()]
            },
    {
        self.begin_call();
        if self.admin.is_some() {
            return Err(ContractError::AlreadyInitialized);
        }
        self.admin = Some(admin);
        self.events.push(AlertEvent::AdminInit { admin });
        self.touch_instance();
        proof {
            old(self).model().lemma_wf_frame(self.model());
        }
        Ok(())
    }

    /// The admin, or `NotInitialized`.
    pub fn get_admin(&self) -> (r: Result<Address, ContractError>)
        ensures
            match self.model().admin {
                Some(a) => r == Ok::<Address, ContractError>(a),
                None => r == Err::<Address, ContractError>(ContractError::NotInitialized),
            },
    {
        match self.admin {
            Some(a) => Ok(a),
            None => Err(ContractError::NotInitialized),
        }
    }

    /// Hand the admin role to `new_admin` (admin only, not while paused).
    /// Publishes `("admin", "transfer")`.
    pub fn transfer_admin(&mut self, admin: Address, new_admin: Address) -> (r: Result<(), ContractError>)
        requires
            old(self).wf(),
        ensures
            final(self).wf(),
            match old(self).model().admin_check(admin) {
                Err(e) => r == Err::<(), ContractError>(e) && final(self).unchanged_from(*old(self)),
                Ok(_) => if old(self).model().paused {
                    r == Err::<(), ContractError>(ContractError::Paused) && final(self).unchanged_from(*old(self))
                } else {
                    &&& r is Ok
                    &&& final(self).model() == RegistryModel {
                        admin: Some(new_admin),
                        ..old(self).model()
                    }
                    &&& final(self).events() == seq![AlertEvent::AdminTransfer { admin, new_admin }]
                    &&& final(self).ttl_requests() == seq![instance_ext()]
                },
            },
    {
        self.begin_call();
        self.check_admin(admin)?;
        self.check_not_paused()?;
        self.admin = Some(new_admin);
        self.events.push(AlertEvent::AdminTransfer { admin, new_admin });
        self.touch_instance();
        proof {
            old(self).model().lemma_wf_frame(self.model());
        }
        Ok(())
    }

    /// Authorize replacing the contract code with `new_wasm_hash` (admin
    /// only, not while paused); on `Ok` the host installs the new code.
    /// Storage is untouched.
    pub fn upgrade(&mut self, admin: Address, new_wasm_hash: [u8; 32]) -> (r: Result<(), ContractError>)
        requires
            old(self).wf(),
        ensures
            final(self).wf(),
            final(self).model() == old(self).model(),
            final(self).events().len() == 0,
            final(self).ttl_requests().len() == 0,
            r == match old(self).model().admin_check(admin) {
                Err(e) => Err(e),
                Ok(_) => old(self).model().pause_check(),
            },
    {
        self.begin_call();
        self.check_admin(admin)?;
        self.check_not_paused()
    }

    /// Pause all mutations (admin only). Publishes `("admin", "pause")`.
    pub fn pause(&mut self, admin: Address) -> (r: Result<(), ContractError>)
        requires
            old(self).wf(),
        ensures
            final(self).wf(),
            match old(self).model().admin_check(admin) {
                Err(e) => r == Err::<(), ContractError>(e) && final(self).unchanged_from(*old(self)),
                Ok(_) => {
                    &&& r is Ok
                    &&& final(self).model() == RegistryModel { paused: true, ..old(self).model() }
                    &&& final(self).events() == seq![AlertEvent::AdminPause { admin }]
                    &&& final(self).ttl_requests() == seq![instance_ext()]
                },
            },
    {
        self.begin_call();
        self.check_admin(admin)?;
        self.paused = true;
        self.events.push(AlertEvent::AdminPause { admin });
        self.touch_instance();
        proof {
            old(self).model().lemma_wf_frame(self.model());
        }
        Ok(())
    }

    /// Resume mutations (admin only). Publishes `("admin", "unpause")`.
    pub fn unpause(&mut self, admin: Address) -> (r: Result<(), ContractError>)
        requires
            old(self).wf(),
        ensures
            final(self).wf(),
            match old(self).model().admin_check(admin) {
                Err(e) => r == Err::<(), ContractError>(e) && final(self).unchanged_from(*old(self)),
                Ok(_) => {
                    &&& r is Ok
                    &&& final(self).model() == RegistryModel { paused: false, ..old(self).model() }
                    &&& final(self).events() == seq![AlertEvent::AdminUnpause { admin }]
                    &&& final(self).ttl_requests() == seq![instance_ext()]
                },
            },
    {
        self.begin_call();
        self.check_admin(admin)?;
        self.paused = false;
        self.events.push(AlertEvent::AdminUnpause { admin });
        self.touch_instance();
        proof {
            old(self).model().lemma_wf_frame(self.model());
        }
        Ok(())
    }

    /// Whether mutations are paused.
    pub fn is_paused(&self) -> (r: bool)
        ensures
            r == self.model().paused,
    {
        self.paused
    }

    /// Set the per-owner live-alert limit, `0` for none (admin only, not
    /// while paused). Publishes `("admin", "limit")` with `(admin, limit)`.
    pub fn set_per_owner_alert_limit(&mut self, admin: Address, limit: u32) -> (r: Result<(), ContractError>)
        requires
            old(self).wf(),
        ensures
            final(self).wf(),
            match old(self).model().admin_check(admin) {
                Err(e) => r == Err::<(), ContractError>(e) && final(self).unchanged_from(*old(self)),
                Ok(_) => if old(self).model().paused {
                    r == Err::<(), ContractError>(ContractError::Paused) && final(self).unchanged_from(*old(self))
                } else {
                    &&& r is Ok
                    &&& final(self).model() == RegistryModel {
                        per_owner_limit: limit,
                        ..old(self).model()
                    }
                    &&& final(self).events() == seq![AlertEvent::OwnerLimitSet { admin, limit }]
                    &&& final(self).ttl_requests() == seq![instance_ext()]
                },
            },
    {
        self.begin_call();
        self.check_admin(admin)?;
        self.check_not_paused()?;
        self.per_owner_limit = limit;
        self.events.push(AlertEvent::OwnerLimitSet { admin, limit });
        self.touch_instance();
        proof {
            old(self).model().lemma_wf_frame(self.model());
        }
        Ok(())
    }

    /// The per-owner live-alert limit (`0`: none).
    pub fn get_per_owner_alert_limit(&self) -> (r: u32)
        ensures
            r == self.model().per_owner_limit,
    {
        self.per_owner_limit
    }

    /// Set the per-contract live-alert limit, `0` for none (admin only, not
    /// while paused).
    /// Publishes `("admin", "limit")` with `("contract", limit)`.
    pub fn set_per_contract_alert_limit(&mut self, admin: Address, limit: u32) -> (r: Result<(), ContractError>)
        requires
            old(self).wf(),
        ensures
            final(self).wf(),
            match old(self).model().admin_check(admin) {
                Err(e) => r == Err::<(), ContractError>(e) && final(self).unchanged_from(*old(self)),
                Ok(_) => if old(self).model().paused {
                    r == Err::<(), ContractError>(ContractError::Paused) && final(self).unchanged_from(*old(self))
                } else {
                    &&& r is Ok
                    &&& final(self).model() == RegistryModel {
                        per_contract_limit: limit,
                        ..old(self).model()
                    }
                    &&& final(self).events() == seq![AlertEvent::ContractLimitSet { limit }]
                    &&& final(self).ttl_requests() == seq![instance_ext()]
                },
            },
    {
        self.begin_call();
        self.check_admin(admin)?;
        self.check_not_paused()?;
        self.per_contract_limit = limit;
        self.events.push(AlertEvent::ContractLimitSet { limit });
        self.touch_instance();
        proof {
            old(self).model().lemma_wf_frame(self.model());
        }
        Ok(())
    }

    /// The per-contract live-alert limit (`0`: none).
    pub fn get_per_contract_alert_limit(&self) -> (r: u32)
        ensures
            r == self.model().per_contract_limit,
    {
        self.per_contract_limit
    }

    /// Set the ceiling on the number of alerts ever registered, `0` for none
    /// (admin only, not while paused).
    pub fn set_global_alert_limit(&mut self, admin: Address, limit: u32) -> (r: Result<(), ContractError>)
        requires
            old(self).wf(),
        ensures
            final(self).wf(),
            final(self).events().len() == 0,
            match old(self).model().admin_check(admin) {
                Err(e) => r == Err::<(), ContractError>(e) && final(self).unchanged_from(*old(self)),
                Ok(_) => if old(self).model().paused {
                    r == Err::<(), ContractError>(ContractError::Paused) && final(self).unchanged_from(*old(self))
                } else {
                    &&& r is Ok
                    &&& final(self).model() == RegistryModel { global_limit: limit, ..old(self).model() }
                    &&& final(self).ttl_requests() == seq![instance_ext()]
                },
            },
    {
        self.begin_call();
        self.check_admin(admin)?;
        self.check_not_paused()?;
        self.global_limit = limit;
        self.touch_instance();
        proof {
            old(self).model().lemma_wf_frame(self.model());
        }
        Ok(())
    }

    /// The ceiling on the number of alerts ever registered (`0`: none).
    pub fn get_global_alert_limit(&self) -> (r: u32)
        ensures
            r == self.model().global_limit,
    {
        self.global_limit
    }

    /// Configure the watcher registry that gates queries (admin only, not
    /// while paused). `probe_answered` is whether `watcher_registry` answered
    /// a probing `is_watcher_authorized` call; when it did not the address is
    /// refused with `InvalidWatcherRegistry`. Publishes `("admin", "watchreg")`.
    pub fn set_watcher_registry(&mut self, admin: Address, watcher_registry: Address, probe_answered: bool) -> (r:
        Result<(), ContractError>)
        requires
            old(self).wf(),
        ensures
            final(self).wf(),
            match old(self).model().admin_check(admin) {
                Err(e) => r == Err::<(), ContractError>(e) && final(self).unchanged_from(*old(self)),
                Ok(_) => if !probe_answered {
                    r == Err::<(), ContractError>(ContractError::InvalidWatcherRegistry)
                        && final(self).unchanged_from(*old(self))
                } else if old(self).model().paused {
                    r == Err::<(), ContractError>(ContractError::Paused) && final(self).unchanged_from(*old(self))
                } else {
                    &&& r is Ok
                    &&& final(self).model() == RegistryModel {
                        watcher_registry: Some(watcher_registry),
                        ..old(self).model()
                    }
                    &&& final(self).events() == seq![
                        AlertEvent::WatcherRegistrySet { admin, registry: watcher_registry },
                    ]
                    &&& final(self).ttl_requests() == seq![instance_ext()]
                },
            },
    {
        self.begin_call();
        self.check_admin(admin)?;
        if !probe_answered {
            return Err(ContractError::InvalidWatcherRegistry);
        }
        self.check_not_paused()?;
        self.watcher_registry = Some(watcher_registry);
        self.events.push(AlertEvent::WatcherRegistrySet { admin, registry: watcher_registry });
        self.touch_instance();
        proof {
            old(self).model().lemma_wf_frame(self.model());
        }
        Ok(())
    }

    /// Disable query gating (admin only, not while paused).
    pub fn clear_watcher_registry(&mut self, admin: Address) -> (r: Result<(), ContractError>)
        requires
            old(self).wf(),
        ensures
            final(self).wf(),
            final(self).events().len() == 0,
            match old(self).model().admin_check(admin) {
                Err(e) => r == Err::<(), ContractError>(e) && final(self).unchanged_from(*old(self)),
                Ok(_) => if old(self).model().paused {
                    r == Err::<(), ContractError>(ContractError::Paused) && final(self).unchanged_from(*old(self))
                } else {
                    &&& r is Ok
                    &&& final(self).model() == RegistryModel {
                        watcher_registry: None,
                        ..old(self).model()
                    }
                    &&& final(self).ttl_requests() == seq![instance_ext()]
                },
            },
    {
        self.begin_call();
        self.check_admin(admin)?;
        self.check_not_paused()?;
        self.watcher_registry = None;
        self.touch_instance();
        proof {
            old(self).model().lemma_wf_frame(self.model());
        }
        Ok(())
    }

    /// The configured watcher registry, if gating is enabled.
    pub fn get_watcher_registry(&self) -> (r: Option<Address>)
        ensures
            r == self.model().watcher_registry,
    {
        self.watcher_registry
    }

    /// Whether queries are gated by a watcher registry.
    pub fn is_watcher_gating_enabled(&self) -> (r: bool)
        ensures
            r == self.model().watcher_registry is Some,
    {
        self.watcher_registry.is_some()
    }

    /// Extend the instance entry's lifetime; touches no registry state.
    pub fn bump_instance_ttl(&mut self)
        requires
            old(self).wf(),
        ensures
            final(self).wf(),
            final(self).model() == old(self).model(),
            final(self).events().len() == 0,
            final(self).ttl_requests() == seq![instance_ext()],
    {
        self.begin_call();
        self.touch_instance();
    }

    // ── Persistence ───────────────────────────────────────────────────────

    /// Whether every entry of `entries` is listed in its owner's and its
    /// target's index.
    fn all_covered(&self, entries: &Vec<StoredAlert>) -> (r: bool)
        ensures
            r == forall|i: int|
                #![trigger entries@[i]]
                0 <= i < entries@.len() ==> {
                    &&& self.model().owner_ids(entries@[i].config@.owner).contains(entries@[i].id)
                    &&& self.model().contract_ids(entries@[i].config@.target_contract).contains(entries@[i].id)
                },
    {
        let mut i: usize = 0;
        while i < entries.len()
            invariant
                0 <= i <= entries@.len(),
                forall|j: int|
                    #![trigger entries@[j]]
                    0 <= j < i ==> {
                        &&& self.model().owner_ids(entries@[j].config@.owner).contains(entries@[j].id)
                        &&& self.model().contract_ids(entries@[j].config@.target_contract).contains(entries@[j].id)
                    },
            decreases entries@.len() - i,
        {
            let e = &entries[i];
            assert(entries@[i as int] == *e);
            let owned = self.owner_ids_of(e.config.owner);
            let watched = self.contract_ids_of(e.config.target_contract);
            let ok = lists(&owned, e.id) && lists(&watched, e.id);
            assert(ok == {
                &&& self.model().owner_ids(entries@[i as int].config@.owner).contains(entries@[i as int].id)
                &&& self.model().contract_ids(entries@[i as int].config@.target_contract).contains(entries@[i as int].id)
            });
            if !ok {
                return false;
            }
            i = i + 1;
        }
        true
    }

    /// Rebuild a registry from a stored state, or `None` when the state is
    /// not one a registry can hold (see [`AlertRegistryState::restorable`]).
    pub fn restore(st: AlertRegistryState) -> (r: Option<AlertRegistry>)
        ensures
            r is Some <==> st.restorable(),
            r matches Some(reg) ==> {
                &&& reg.wf()
                &&& reg.model() == st.model()
                &&& reg.events().len() == 0
                &&& reg.ttl_requests().len() == 0
            },
    {
        proof {
            st.lemma_checks_iff_restorable();
        }
        let (alerts, active) = match load_alerts(&st.alerts, st.next_id) {
            None => {
                return None;
            },
            Some(p) => p,
        };
        let owner_index = match load_index(&st.owner_index, &alerts, true) {
            None => {
                return None;
            },
            Some(x) => x,
        };
        let contract_index = match load_index(&st.contract_index, &alerts, false) {
            None => {
                return None;
            },
            Some(x) => x,
        };
        let owner_live = count_lists(&st.owner_index);
        let reg = AlertRegistry {
            admin: st.admin,
            paused: st.paused,
            per_owner_limit: st.per_owner_limit,
            per_contract_limit: st.per_contract_limit,
            global_limit: st.global_limit,
            watcher_registry: st.watcher_registry,
            next_id: st.next_id,
            alerts,
            active,
            owner_index,
            contract_index,
            owner_live,
            events: Vec::new(),
            ttl_extensions: Vec::new(),
        };
        assert(reg.model() == st.model());
        let full = reg.all_covered(&st.alerts);
        proof {
            lemma_stored_alerts(st.alerts@);
            let m = st.model();
            if full {
                assert forall|id: u64| #[trigger] m.alerts.contains_key(id) implies {
                    &&& m.owner_ids(m.alerts[id].owner).contains(id)
                    &&& m.contract_ids(m.alerts[id].target_contract).contains(id)
                } by {
                    let i = choose|i: int| 0 <= i < st.alerts@.len() && st.alerts@[i].id == id;
                    assert(m.alerts[st.alerts@[i].id] == st.alerts@[i].config@);
                }
                assert(covered(m));
            } else {
                let i = choose|i: int|
                    #![trigger st.alerts@[i]]
                    0 <= i < st.alerts@.len() && !({
                        &&& m.owner_ids(st.alerts@[i].config@.owner).contains(st.alerts@[i].id)
                        &&& m.contract_ids(st.alerts@[i].config@.target_contract).contains(st.alerts@[i].id)
                    });
                assert(m.alerts.contains_key(st.alerts@[i].id));
                assert(m.alerts[st.alerts@[i].id] == st.alerts@[i].config@);
                assert(!covered(m));
            }
        }
        if !full {
            return None;
        }
        Some(reg)
    }

    /// The stored state, for the host to persist; restoring it gives back
    /// a registry in the same state.
    pub fn snapshot(&self) -> (st: AlertRegistryState)
        requires
            self.wf(),
        ensures
            st.restorable(),
            self.model().same_state(st.model()),
    {
        let ghost m = self.model();
        let mut alerts: Vec<StoredAlert> = Vec::new();
        let mut owners: Vec<Address> = Vec::new();
        let mut targets: Vec<Address> = Vec::new();
        let mut id: u64 = 0;
        while id < self.next_id
            invariant
                id <= self.next_id,
                m == self.model(),
                m.wf(),
                distinct_ids(alerts@),
                forall|j: int| 0 <= j < alerts@.len() ==> #[trigger] alerts@[j].id < id,
                forall|x: u64| #[trigger]
                    stored_alerts(alerts@).contains_key(x) <==> (x < id && m.alerts.contains_key(x)),
                forall|x: u64| #[trigger]
                    stored_alerts(alerts@).contains_key(x) ==> stored_alerts(alerts@)[x] == m.alerts[x],
                owners@.no_duplicates(),
                targets@.no_duplicates(),
                forall|x: u64| #[trigger]
                    stored_alerts(alerts@).contains_key(x) ==> owners@.contains(m.alerts[x].owner)
                        && targets@.contains(m.alerts[x].target_contract),
                forall|k: int| 0 <= k < owners@.len() ==> #[trigger] m.owner_ids(owners@[k]).len() > 0,
                forall|k: int| 0 <= k < targets@.len() ==> #[trigger] m.contract_ids(targets@[k]).len() > 0,
            decreases self.next_id - id,
        {
            match self.alerts.get(&id) {
                None => {
                    proof {
                        assert forall|x: u64| #[trigger]
                            stored_alerts(alerts@).contains_key(x) <==> (x < id + 1 && m.alerts.contains_key(x)) by {
                            if x == id {
                                assert(!m.alerts.contains_key(x));
                            }
                        }
                    }
                },
                Some(c) => {
                    let ghost before = alerts@;
                    let cv = c.duplicate();
                    let o = c.owner;
                    let t = c.target_contract;
                    assert(m.alerts.contains_key(id));
                    assert(m.alerts[id] == c@);
                    assert(cv@ == c@);
                    alerts.push(StoredAlert { id, config: cv });
                    proof {
                        assert(alerts@.drop_last() =~= before);
                        assert(alerts@.last().id == id && alerts@.last().config@ == c@);
                        assert(stored_alerts(alerts@) == stored_alerts(before).insert(id, c@));
                        assert forall|x: u64| #[trigger]
                            stored_alerts(alerts@).contains_key(x) <==> (x < id + 1 && m.alerts.contains_key(x)) by {
                            if x != id {
                                assert(stored_alerts(alerts@).contains_key(x) == stored_alerts(before).contains_key(x));
                            }
                        }
                        assert forall|x: u64| #[trigger]
                            stored_alerts(alerts@).contains_key(x) implies stored_alerts(alerts@)[x] == m.alerts[x] by {
                            if x != id {
                                assert(stored_alerts(before).contains_key(x));
                            }
                        }
                        assert forall|x: int, y: int| 0 <= x < y < alerts@.len() implies alerts@[x].id
                            != alerts@[y].id by {
                            if y < before.len() {
                                assert(alerts@[x] == before[x] && alerts@[y] == before[y]);
                            } else {
                                assert(alerts@[x] == before[x]);
                            }
                        }
                        assert forall|j: int| 0 <= j < alerts@.len() implies #[trigger] alerts@[j].id < id + 1 by {
                            if j < before.len() {
                                assert(alerts@[j] == before[j]);
                            }
                        }
                        assert(c@.owner == o && c@.target_contract == t);
                        assert(m.owner_ids(m.alerts[id].owner).contains(id));
                        assert(m.owner_ids(o).contains(id));
                        assert(m.contract_ids(t).contains(id));
                    }
                    if !holds_address(&owners, o) {
                        proof {
                            crate::seq_util::lemma_push_fresh(owners@, o);
                        }
                        owners.push(o);
                    }
                    if !holds_address(&targets, t) {
                        proof {
                            crate::seq_util::lemma_push_fresh(targets@, t);
                        }
                        targets.push(t);
                    }
                    proof {
                        assert forall|k: int| 0 <= k < owners@.len() implies #[trigger] m.owner_ids(owners@[k]).len()
                            > 0 by {
                            if owners@[k] == o {
                                assert(m.owner_ids(o).contains(id));
                            }
                        }
                        assert forall|k: int| 0 <= k < targets@.len() implies #[trigger] m.contract_ids(
                            targets@[k],
                        ).len() > 0 by {
                            if targets@[k] == t {
                                assert(m.contract_ids(t).contains(id));
                            }
                        }
                        assert forall|x: u64| #[trigger]
                            stored_alerts(alerts@).contains_key(x) ==> owners@.contains(m.alerts[x].owner)
                                && targets@.contains(m.alerts[x].target_contract) by {
                            if stored_alerts(alerts@).contains_key(x) && x != id {
                                assert(stored_alerts(before).contains_key(x));
                            }
                        }
                    }
                },
            }
            id = id + 1;
        }
        proof {
            assert(stored_alerts(alerts@) =~= m.alerts);
        }
        let mut owner_index: Vec<StoredIndex> = Vec::new();
        let mut k: usize = 0;
        while k < owners.len()
            invariant
                0 <= k <= owners@.len(),
                m == self.model(),
                owners@.no_duplicates(),
                owner_index@.len() == k,
                forall|j: int| 0 <= j < k ==> (#[trigger] owner_index@[j]).key == owners@[j],
                forall|j: int| 0 <= j < k ==> (#[trigger] owner_index@[j]).ids@ == m.owner_ids(owners@[j]),
            decreases owners@.len() - k,
        {
            let o = owners[k];
            let ids = self.owner_ids_of(o);
            owner_index.push(StoredIndex { key: o, ids });
            k = k + 1;
        }
        let mut contract_index: Vec<StoredIndex> = Vec::new();
        let mut k: usize = 0;
        while k < targets.len()
            invariant
                0 <= k <= targets@.len(),
                m == self.model(),
                targets@.no_duplicates(),
                contract_index@.len() == k,
                forall|j: int| 0 <= j < k ==> (#[trigger] contract_index@[j]).key == targets@[j],
                forall|j: int| 0 <= j < k ==> (#[trigger] contract_index@[j]).ids@ == m.contract_ids(targets@[j]),
            decreases targets@.len() - k,
        {
            let t = targets[k];
            let ids = self.contract_ids_of(t);
            contract_index.push(StoredIndex { key: t, ids });
            k = k + 1;
        }
        let st = AlertRegistryState {
            admin: self.admin,
            paused: self.paused,
            per_owner_limit: self.per_owner_limit,
            per_contract_limit: self.per_contract_limit,
            global_limit: self.global_limit,
            watcher_registry: self.watcher_registry,
            next_id: self.next_id,
            alerts,
            owner_index,
            contract_index,
        };
        proof {
            let sm = st.model();
            let so = st.owner_index@;
            let sc = st.contract_index@;
            assert(distinct_keys(so)) by {
                assert forall|x: int, y: int| 0 <= x < y < so.len() implies so[x].key != so[y].key by {
                    assert(so[x].key == owners@[x] && so[y].key == owners@[y]);
                }
            }
            assert(distinct_keys(sc)) by {
                assert forall|x: int, y: int| 0 <= x < y < sc.len() implies sc[x].key != sc[y].key by {
                    assert(sc[x].key == targets@[x] && sc[y].key == targets@[y]);
                }
            }
            lemma_stored_index(so);
            lemma_stored_index(sc);
            assert(sm.alerts == m.alerts);
            assert(sm.active =~= m.active);
            assert forall|o: Address| #[trigger] m.owner_ids(o) == sm.owner_ids(o) by {
                if sm.owner_index.contains_key(o.raw) {
                    let j = choose|j: int| 0 <= j < so.len() && so[j].key.raw == o.raw;
                    assert(so[j].key == o);
                } else if m.owner_ids(o).len() > 0 {
                    assert(m.alerts.contains_key(m.owner_ids(o)[0]));
                    assert(stored_alerts(st.alerts@).contains_key(m.owner_ids(o)[0]));
                    let k = choose|k: int| 0 <= k < owners@.len() && owners@[k] == o;
                    assert(so[k].key.raw == o.raw);
                } else {
                    assert(m.owner_ids(o) =~= sm.owner_ids(o));
                }
            }
            assert forall|o: Address| #[trigger] m.live_count(o) == sm.live_count(o) by {
                assert(m.owner_ids(o) == sm.owner_ids(o));
                if sm.owner_index.contains_key(o.raw) {
                    let j = choose|j: int| 0 <= j < so.len() && so[j].key.raw == o.raw;
                    assert(so[j].key == o);
                    assert(sm.owner_live[so[j].key.raw] == so[j].ids@.len() as u32);
                }
            }
            assert forall|t: Address| #[trigger] m.contract_ids(t) == sm.contract_ids(t) by {
                if sm.contract_index.contains_key(t.raw) {
                    let j = choose|j: int| 0 <= j < sc.len() && sc[j].key.raw == t.raw;
                    assert(sc[j].key == t);
                } else if m.contract_ids(t).len() > 0 {
                    assert(m.alerts.contains_key(m.contract_ids(t)[0]));
                    assert(stored_alerts(st.alerts@).contains_key(m.contract_ids(t)[0]));
                    let k = choose|k: int| 0 <= k < targets@.len() && targets@[k] == t;
                    assert(sc[k].key.raw == t.raw);
                } else {
                    assert(m.contract_ids(t) =~= sm.contract_ids(t));
                }
            }
            assert(short_lists(so)) by {
                assert forall|j: int| 0 <= j < so.len() implies #[trigger] so[j].ids@.len() <= u32::MAX by {
                    assert(so[j].ids@ == m.owner_ids(so[j].key));
                    assert(m.live_count(so[j].key) == m.owner_ids(so[j].key).len());
                }
            }
            m.lemma_same_state_wf(sm);
        }
        st
    }
}

} // verus!
