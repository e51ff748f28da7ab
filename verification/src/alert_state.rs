use vstd::prelude::*;

use crate::address::Address;
use crate::alert_model::RegistryModel;
use crate::alert_types::{AlertConfig, AlertView, MAX_LABEL_LEN};
use crate::rules::rules_verdict;

verus! {

/// One stored alert and its id.
pub struct StoredAlert {
    pub id: u64,
    pub config: AlertConfig,
}

/// One stored index: the alert ids listed under `key`, in index order.
pub struct StoredIndex {
    pub key: Address,
    pub ids: Vec<u64>,
}

/// The stored state of an alert registry, in plain values, as the host
/// persists it between calls.
pub struct AlertRegistryState {
    pub admin: Option<Address>,
    pub paused: bool,
    pub per_owner_limit: u32,
    pub per_contract_limit: u32,
    pub global_limit: u32,
    pub watcher_registry: Option<Address>,
    pub next_id: u64,
    pub alerts: Vec<StoredAlert>,
    pub owner_index: Vec<StoredIndex>,
    pub contract_index: Vec<StoredIndex>,
}

/// The alerts of a stored list, by id.
pub open spec fn stored_alerts(s: Seq<StoredAlert>) -> Map<u64, AlertView>
    decreases s.len(),
{
    if s.len() == 0 {
        Map::empty()
    } else {
        stored_alerts(s.drop_last()).insert(s.last().id, s.last().config@)
    }
}

/// The id lists of a stored index, by key handle.
pub open spec fn stored_index(s: Seq<StoredIndex>) -> Map<u64, Seq<u64>>
    decreases s.len(),
{
    if s.len() == 0 {
        Map::empty()
    } else {
        stored_index(s.drop_last()).insert(s.last().key.raw, s.last().ids@)
    }
}

/// The lengths of the id lists of a stored index, by key handle.
pub open spec fn stored_counts(s: Seq<StoredIndex>) -> Map<u64, u32>
    decreases s.len(),
{
    if s.len() == 0 {
        Map::empty()
    } else {
        stored_counts(s.drop_last()).insert(s.last().key.raw, s.last().ids@.len() as u32)
    }
}

/// No id stored twice.
pub open spec fn distinct_ids(s: Seq<StoredAlert>) -> bool {
    forall|i: int, j: int| 0 <= i < j < s.len() ==> s[i].id != s[j].id
}

/// No key stored twice.
pub open spec fn distinct_keys(s: Seq<StoredIndex>) -> bool {
    forall|i: int, j: int| 0 <= i < j < s.len() ==> s[i].key != s[j].key
}

/// Every id list short enough for its length to be counted in a `u32`.
pub open spec fn short_lists(s: Seq<StoredIndex>) -> bool {
    forall|i: int| 0 <= i < s.len() ==> #[trigger] s[i].ids@.len() <= u32::MAX
}

impl AlertRegistryState {
    /// The registry state the stored values describe.
    pub open spec fn model(&self) -> RegistryModel {
        RegistryModel {
            admin: self.admin,
            paused: self.paused,
            per_owner_limit: self.per_owner_limit,
            per_contract_limit: self.per_contract_limit,
            global_limit: self.global_limit,
            watcher_registry: self.watcher_registry,
            next_id: self.next_id,
            alerts: stored_alerts(self.alerts@),
            active: stored_alerts(self.alerts@).map_values(|c: AlertView| c.active),
            owner_index: stored_index(self.owner_index@),
            contract_index: stored_index(self.contract_index@),
            owner_live: stored_counts(self.owner_index@),
        }
    }

    /// The stored values describe a consistent registry, each id and key
    /// stored once.
    pub open spec fn restorable(&self) -> bool {
        &&& distinct_ids(self.alerts@)
        &&& distinct_keys(self.owner_index@)
        &&& distinct_keys(self.contract_index@)
        &&& short_lists(self.owner_index@)
        &&& self.model().wf()
    }
}

/// What a stored alert list holds, when no id is stored twice.
pub proof fn lemma_stored_alerts(s: Seq<StoredAlert>)
    requires
        distinct_ids(s),
    ensures
        forall|id: u64| #[trigger]
            stored_alerts(s).contains_key(id) <==> exists|i: int| 0 <= i < s.len() && s[i].id == id,
        forall|i: int| 0 <= i < s.len() ==> #[trigger] stored_alerts(s)[s[i].id] == s[i].config@,
    decreases s.len(),
{
    if s.len() > 0 {
        let p = s.drop_last();
        lemma_stored_alerts(p);
        assert forall|id: u64| #[trigger]
            stored_alerts(s).contains_key(id) <==> exists|i: int| 0 <= i < s.len() && s[i].id == id by {
            if stored_alerts(s).contains_key(id) && id != s.last().id {
                assert(stored_alerts(p).contains_key(id));
                let i = choose|i: int| 0 <= i < p.len() && p[i].id == id;
                assert(s[i].id == id);
            }
            if exists|i: int| 0 <= i < s.len() && s[i].id == id {
                let i = choose|i: int| 0 <= i < s.len() && s[i].id == id;
                if i < p.len() {
                    assert(p[i].id == id);
                    assert(stored_alerts(p).contains_key(id));
                }
            }
        }
        assert forall|i: int| 0 <= i < s.len() implies #[trigger] stored_alerts(s)[s[i].id] == s[i].config@ by {
            if i < p.len() {
                assert(p[i] == s[i]);
                assert(s[i].id != s.last().id);
                assert(stored_alerts(p)[p[i].id] == p[i].config@);
            }
        }
    }
}

/// What a stored index holds, when no key is stored twice.
pub proof fn lemma_stored_index(s: Seq<StoredIndex>)
    requires
        distinct_keys(s),
    ensures
        forall|k: u64| #[trigger]
            stored_index(s).contains_key(k) <==> exists|i: int| 0 <= i < s.len() && s[i].key.raw == k,
        forall|k: u64| #[trigger] stored_counts(s).contains_key(k) <==> stored_index(s).contains_key(k),
        forall|i: int| 0 <= i < s.len() ==> #[trigger] stored_index(s)[s[i].key.raw] == s[i].ids@,
        forall|i: int| 0 <= i < s.len() ==> #[trigger] stored_counts(s)[s[i].key.raw] == s[i].ids@.len() as u32,
    decreases s.len(),
{
    if s.len() > 0 {
        let p = s.drop_last();
        lemma_stored_index(p);
        assert forall|k: u64| #[trigger]
            stored_index(s).contains_key(k) <==> exists|i: int| 0 <= i < s.len() && s[i].key.raw == k by {
            if stored_index(s).contains_key(k) && k != s.last().key.raw {
                assert(stored_index(p).contains_key(k));
                let i = choose|i: int| 0 <= i < p.len() && p[i].key.raw == k;
                assert(s[i].key.raw == k);
            }
            if exists|i: int| 0 <= i < s.len() && s[i].key.raw == k {
                let i = choose|i: int| 0 <= i < s.len() && s[i].key.raw == k;
                if i < p.len() {
                    assert(p[i].key.raw == k);
                    assert(stored_index(p).contains_key(k));
                }
            }
        }
        assert forall|k: u64| #[trigger] stored_counts(s).contains_key(k) <==> stored_index(s).contains_key(k) by {
            if k != s.last().key.raw {
                assert(stored_counts(p).contains_key(k) <==> stored_index(p).contains_key(k));
            }
        }
        assert forall|i: int| 0 <= i < s.len() implies #[trigger] stored_index(s)[s[i].key.raw] == s[i].ids@ by {
            if i < p.len() {
                assert(p[i] == s[i]);
                assert(s[i].key != s.last().key);
                assert(s[i].key.raw != s.last().key.raw);
                assert(stored_index(p)[p[i].key.raw] == p[i].ids@);
            }
        }
        assert forall|i: int| 0 <= i < s.len() implies #[trigger] stored_counts(s)[s[i].key.raw]
            == s[i].ids@.len() as u32 by {
            if i < p.len() {
                assert(p[i] == s[i]);
                assert(s[i].key != s.last().key);
                assert(s[i].key.raw != s.last().key.raw);
                assert(stored_counts(p)[p[i].key.raw] == p[i].ids@.len() as u32);
            }
        }
    }
}

/// The checks on a stored alert list: no id twice, every id below the
/// counter, every label and rule list acceptable.
pub open spec fn entries_ok(s: Seq<StoredAlert>, next_id: u64) -> bool {
    &&& distinct_ids(s)
    &&& forall|i: int|
        0 <= i < s.len() ==> {
            &&& #[trigger] s[i].id < next_id
            &&& s[i].config@.label.len() <= MAX_LABEL_LEN
            &&& rules_verdict(s[i].config@.rules) is Ok
        }
}

/// The address an index of the given kind files an alert under.
pub open spec fn index_key_of(c: AlertView, by_owner: bool) -> Address {
    if by_owner {
        c.owner
    } else {
        c.target_contract
    }
}

/// The checks on a stored index: no key twice, no id twice in a list, and
/// every listed id a stored alert filed under that key.
pub open spec fn index_ok(s: Seq<StoredIndex>, alerts: Map<u64, AlertView>, by_owner: bool) -> bool {
    &&& distinct_keys(s)
    &&& forall|i: int| 0 <= i < s.len() ==> #[trigger] s[i].ids@.no_duplicates()
    &&& forall|i: int, k: int|
        0 <= i < s.len() && 0 <= k < s[i].ids@.len() ==> {
            &&& alerts.contains_key(#[trigger] s[i].ids@[k])
            &&& index_key_of(alerts[s[i].ids@[k]], by_owner) == s[i].key
        }
}

/// Every stored alert is listed in its owner's and its target's index.
pub open spec fn covered(m: RegistryModel) -> bool {
    forall|id: u64| #[trigger]
        m.alerts.contains_key(id) ==> {
            &&& m.owner_ids(m.alerts[id].owner).contains(id)
            &&& m.contract_ids(m.alerts[id].target_contract).contains(id)
        }
}

impl AlertRegistryState {
    /// The checks a loader makes, piece by piece.
    pub open spec fn checks_pass(&self) -> bool {
        &&& entries_ok(self.alerts@, self.next_id)
        &&& index_ok(self.owner_index@, stored_alerts(self.alerts@), true)
        &&& short_lists(self.owner_index@)
        &&& index_ok(self.contract_index@, stored_alerts(self.alerts@), false)
        &&& covered(self.model())
    }

    /// The piecewise checks pass exactly on the restorable states.
    pub proof fn lemma_checks_iff_restorable(&self)
        ensures
            self.checks_pass() <==> self.restorable(),
    {
        let m = self.model();
        let sa = self.alerts@;
        let so = self.owner_index@;
        let sc = self.contract_index@;
        if self.checks_pass() {
            lemma_stored_alerts(sa);
            lemma_stored_index(so);
            lemma_stored_index(sc);
            assert forall|id: u64| #[trigger] m.alerts.contains_key(id) implies id < m.next_id by {
                let i = choose|i: int| 0 <= i < sa.len() && sa[i].id == id;
                assert(sa[i].id < self.next_id);
            }
            assert(m.active.dom() =~= m.alerts.dom());
            assert forall|id: u64| #[trigger] m.alerts.contains_key(id) implies {
                &&& m.owner_ids(m.alerts[id].owner).contains(id)
                &&& m.contract_ids(m.alerts[id].target_contract).contains(id)
                &&& m.alerts[id].label.len() <= MAX_LABEL_LEN
                &&& rules_verdict(m.alerts[id].rules) is Ok
            } by {
                let i = choose|i: int| 0 <= i < sa.len() && sa[i].id == id;
                assert(sa[i].id < self.next_id);
                assert(m.alerts[sa[i].id] == sa[i].config@);
            }
            assert forall|o: Address, i: int| 0 <= i < m.owner_ids(o).len() implies {
                &&& m.alerts.contains_key(#[trigger] m.owner_ids(o)[i])
                &&& m.alerts[m.owner_ids(o)[i]].owner == o
            } by {
                let j = choose|j: int| 0 <= j < so.len() && so[j].key.raw == o.raw;
                assert(so[j].key == o);
                assert(m.owner_ids(o) == so[j].ids@);
                assert(index_key_of(m.alerts[so[j].ids@[i]], true) == so[j].key);
            }
            assert forall|t: Address, i: int| 0 <= i < m.contract_ids(t).len() implies {
                &&& m.alerts.contains_key(#[trigger] m.contract_ids(t)[i])
                &&& m.alerts[m.contract_ids(t)[i]].target_contract == t
            } by {
                let j = choose|j: int| 0 <= j < sc.len() && sc[j].key.raw == t.raw;
                assert(sc[j].key == t);
                assert(m.contract_ids(t) == sc[j].ids@);
                assert(index_key_of(m.alerts[sc[j].ids@[i]], false) == sc[j].key);
            }
            assert forall|o: Address| #[trigger] m.owner_ids(o).no_duplicates() by {
                if m.owner_index.contains_key(o.raw) {
                    let j = choose|j: int| 0 <= j < so.len() && so[j].key.raw == o.raw;
                    assert(m.owner_ids(o) == so[j].ids@);
                }
            }
            assert forall|t: Address| #[trigger] m.contract_ids(t).no_duplicates() by {
                if m.contract_index.contains_key(t.raw) {
                    let j = choose|j: int| 0 <= j < sc.len() && sc[j].key.raw == t.raw;
                    assert(m.contract_ids(t) == sc[j].ids@);
                }
            }
            assert forall|o: Address| #[trigger] m.live_count(o) == m.owner_ids(o).len() by {
                if m.owner_index.contains_key(o.raw) {
                    let j = choose|j: int| 0 <= j < so.len() && so[j].key.raw == o.raw;
                    assert(so[j].ids@.len() <= u32::MAX);
                    assert(m.owner_live[so[j].key.raw] == so[j].ids@.len() as u32);
                }
            }
            assert(m.wf());
        }
        if self.restorable() {
            lemma_stored_alerts(sa);
            lemma_stored_index(so);
            lemma_stored_index(sc);
            assert forall|i: int| 0 <= i < sa.len() implies {
                &&& #[trigger] sa[i].id < self.next_id
                &&& sa[i].config@.label.len() <= MAX_LABEL_LEN
                &&& rules_verdict(sa[i].config@.rules) is Ok
            } by {
                assert(m.alerts.contains_key(sa[i].id));
                assert(m.alerts[sa[i].id] == sa[i].config@);
            }
            assert forall|i: int| 0 <= i < so.len() implies #[trigger] so[i].ids@.no_duplicates() by {
                assert(m.owner_ids(so[i].key) == so[i].ids@);
            }
            assert forall|i: int, k: int| 0 <= i < so.len() && 0 <= k < so[i].ids@.len() implies {
                &&& m.alerts.contains_key(#[trigger] so[i].ids@[k])
                &&& index_key_of(m.alerts[so[i].ids@[k]], true) == so[i].key
            } by {
                assert(m.owner_ids(so[i].key) == so[i].ids@);
                assert(m.alerts.contains_key(m.owner_ids(so[i].key)[k]));
            }
            assert forall|i: int| 0 <= i < sc.len() implies #[trigger] sc[i].ids@.no_duplicates() by {
                assert(m.contract_ids(sc[i].key) == sc[i].ids@);
            }
            assert forall|i: int, k: int| 0 <= i < sc.len() && 0 <= k < sc[i].ids@.len() implies {
                &&& m.alerts.contains_key(#[trigger] sc[i].ids@[k])
                &&& index_key_of(m.alerts[sc[i].ids@[k]], false) == sc[i].key
            } by {
                assert(m.contract_ids(sc[i].key) == sc[i].ids@);
                assert(m.alerts.contains_key(m.contract_ids(sc[i].key)[k]));
            }
        }
    }
}

} // verus!
